use vstd::prelude::*;
use crate::bitmap::{Bitmap, is_background, in_grid};
use crate::crop::{
    BoundingBox, column_has_content, first_column_from, first_row_from, has_content,
    is_crop_of, last_column_before, last_row_before, lemma_first_column_from,
    lemma_first_row_from, lemma_last_column_before, lemma_last_row_before,
    lemma_no_content_full_box, lemma_scan_box_fits, row_has_content, scan_box,
};

verus! {

/// Every pixel of `img` under `r` is content.
pub open spec fn region_is_content(img: &Bitmap, r: BoundingBox) -> bool {
    forall|x: int, y: int|
        r.left <= x < r.right && r.top <= y < r.bottom ==> !is_background(#[trigger] img.at(x, y))
}

pub open spec fn encloses(outer: BoundingBox, inner: BoundingBox) -> bool {
    &&& outer.left <= inner.left
    &&& inner.right <= outer.right
    &&& outer.top <= inner.top
    &&& inner.bottom <= outer.bottom
}

/// Every pixel that is not background lies inside the box of the four scans.
pub proof fn lemma_content_inside_box(img: &Bitmap, x: int, y: int)
    requires
        in_grid(x, y, img.width as int, img.height as int),
        !is_background(img.at(x, y)),
    ensures
        scan_box(img).left <= x < scan_box(img).right,
        scan_box(img).top <= y < scan_box(img).bottom,
{
    lemma_first_column_from(img, 0);
    lemma_last_column_before(img, img.width as int);
    lemma_first_row_from(img, 0);
    lemma_last_row_before(img, img.height as int);
    assert(column_has_content(img, x));
    assert(row_has_content(img, y));
}

/// Two regions of content anywhere in the image, on opposite sides or not, both
/// end up inside the crop: the scans cover the union of their extents.
pub proof fn lemma_box_encloses_regions(img: &Bitmap, r1: BoundingBox, r2: BoundingBox)
    requires
        img.wf(),
        r1.fits(img.width as int, img.height as int),
        r2.fits(img.width as int, img.height as int),
        r1.left < r1.right && r1.top < r1.bottom,
        r2.left < r2.right && r2.top < r2.bottom,
        region_is_content(img, r1),
        region_is_content(img, r2),
    ensures
        encloses(scan_box(img), r1),
        encloses(scan_box(img), r2),
{
    assert(!is_background(img.at(r1.left as int, r1.top as int)));
    assert(!is_background(img.at(r1.right - 1, r1.bottom - 1)));
    assert(!is_background(img.at(r2.left as int, r2.top as int)));
    assert(!is_background(img.at(r2.right - 1, r2.bottom - 1)));
    lemma_content_inside_box(img, r1.left as int, r1.top as int);
    lemma_content_inside_box(img, r1.right - 1, r1.bottom - 1);
    lemma_content_inside_box(img, r2.left as int, r2.top as int);
    lemma_content_inside_box(img, r2.right - 1, r2.bottom - 1);
}

/// An image whose content is exactly one rectangle, with background all round
/// it, is cropped to exactly that rectangle.
pub proof fn lemma_single_region_box(img: &Bitmap, r: BoundingBox)
    requires
        img.wf(),
        1 <= r.left < r.right < img.width,
        1 <= r.top < r.bottom < img.height,
        forall|x: int, y: int|
            in_grid(x, y, img.width as int, img.height as int) ==> (!is_background(
                #[trigger] img.at(x, y),
            ) <==> (r.left <= x < r.right && r.top <= y < r.bottom)),
    ensures
        scan_box(img) == r,
{
    lemma_first_column_from(img, 0);
    lemma_last_column_before(img, img.width as int);
    lemma_first_row_from(img, 0);
    lemma_last_row_before(img, img.height as int);
    let b = scan_box(img);
    assert(!is_background(img.at(r.left as int, r.top as int)));
    assert(!is_background(img.at(r.right - 1, r.bottom - 1)));
    lemma_content_inside_box(img, r.left as int, r.top as int);
    lemma_content_inside_box(img, r.right - 1, r.bottom - 1);
    assert(column_has_content(img, r.left as int));
    assert(row_has_content(img, r.top as int));
    // each side of the box is a line with content, hence a side of the rectangle
    let l = first_column_from(img, 0);
    assert(column_has_content(img, l));
    let yl = choose|y: int| 0 <= y < img.height && !is_background(#[trigger] img.at(l, y));
    assert(in_grid(l, yl, img.width as int, img.height as int));
    let rr = last_column_before(img, img.width as int);
    assert(column_has_content(img, rr));
    let yr = choose|y: int| 0 <= y < img.height && !is_background(#[trigger] img.at(rr, y));
    assert(in_grid(rr, yr, img.width as int, img.height as int));
    let t = first_row_from(img, 0);
    assert(row_has_content(img, t));
    let xt = choose|x: int| 0 <= x < img.width && !is_background(#[trigger] img.at(x, t));
    assert(in_grid(xt, t, img.width as int, img.height as int));
    let bb = last_row_before(img, img.height as int);
    assert(row_has_content(img, bb));
    let xb = choose|x: int| 0 <= x < img.width && !is_background(#[trigger] img.at(x, bb));
    assert(in_grid(xb, bb, img.width as int, img.height as int));
}

/// Cropping is idempotent: cropping the output of a crop once more gives the
/// same image back.
pub proof fn lemma_crop_idempotent(img: &Bitmap, once: &Bitmap, twice: &Bitmap)
    requires
        img.wf(),
        is_crop_of(once, img, scan_box(img)),
        is_crop_of(twice, once, scan_box(once)),
    ensures
        twice.same_image(once),
{
    lemma_tight_after_crop(img, once);
}

/// After one crop the four scans find the output's own edges.
pub proof fn lemma_tight_after_crop(img: &Bitmap, once: &Bitmap)
    requires
        img.wf(),
        is_crop_of(once, img, scan_box(img)),
    ensures
        scan_box(once) == BoundingBox::full(once),
{
    let b = scan_box(img);
    lemma_scan_box_fits(img);
    lemma_no_content_full_box(img);
    lemma_no_content_full_box(once);
    if has_content(once) {
        let (x, y) = choose|x: int, y: int|
            in_grid(x, y, once.width as int, once.height as int) && !is_background(
                #[trigger] once.at(x, y),
            );
        assert(!is_background(img.at(b.left + x, b.top + y)));
        assert(has_content(img));
    }
    if has_content(img) {
        lemma_first_column_from(img, 0);
        lemma_last_column_before(img, img.width as int);
        lemma_first_row_from(img, 0);
        lemma_last_row_before(img, img.height as int);
        let l = first_column_from(img, 0);
        let r = last_column_before(img, img.width as int);
        let t = first_row_from(img, 0);
        let bt = last_row_before(img, img.height as int);
        let (x0, y0) = choose|x: int, y: int|
            in_grid(x, y, img.width as int, img.height as int) && !is_background(
                #[trigger] img.at(x, y),
            );
        assert(column_has_content(img, x0));
        assert(row_has_content(img, y0));
        assert(l < img.width && r >= 0 && t < img.height && bt >= 0);
        // left edge
        let yl = choose|y: int| 0 <= y < img.height && !is_background(#[trigger] img.at(l, y));
        lemma_content_inside_box(img, l, yl);
        assert(once.at(0, yl - b.top) == img.at(l, yl));
        assert(column_has_content(once, 0));
        // right edge
        let yr = choose|y: int| 0 <= y < img.height && !is_background(#[trigger] img.at(r, y));
        lemma_content_inside_box(img, r, yr);
        assert(once.at(once.width - 1, yr - b.top) == img.at(r, yr));
        assert(column_has_content(once, once.width - 1));
        // top edge
        let xt = choose|x: int| 0 <= x < img.width && !is_background(#[trigger] img.at(x, t));
        lemma_content_inside_box(img, xt, t);
        assert(once.at(xt - b.left, 0) == img.at(xt, t));
        assert(row_has_content(once, 0));
        // bottom edge
        let xb = choose|x: int| 0 <= x < img.width && !is_background(#[trigger] img.at(x, bt));
        lemma_content_inside_box(img, xb, bt);
        assert(once.at(xb - b.left, once.height - 1) == img.at(xb, bt));
        assert(row_has_content(once, once.height - 1));
    }
}

} // verus!
