use vstd::prelude::*;
use crate::bitmap::{Bitmap, Pixel, is_background, in_grid};

verus! {

/// A rectangle of a pixel grid: columns `left..right`, rows `top..bottom`.
#[derive(Clone, Copy, PartialEq, Eq, Structural, Debug)]
pub struct BoundingBox {
    pub left: u32,
    pub top: u32,
    pub right: u32,
    pub bottom: u32,
}

impl BoundingBox {
    /// The box lies inside a grid of `w` columns and `h` rows.
    pub open spec fn fits(&self, w: int, h: int) -> bool {
        &&& self.left <= self.right <= w
        &&& self.top <= self.bottom <= h
    }

    /// The box that covers the whole of `img`.
    pub open spec fn full(img: &Bitmap) -> BoundingBox {
        BoundingBox { left: 0, top: 0, right: img.width, bottom: img.height }
    }
}

pub open spec fn column_has_content(img: &Bitmap, x: int) -> bool {
    exists|y: int| 0 <= y < img.height && !is_background(#[trigger] img.at(x, y))
}

pub open spec fn row_has_content(img: &Bitmap, y: int) -> bool {
    exists|x: int| 0 <= x < img.width && !is_background(#[trigger] img.at(x, y))
}

/// Some pixel of the image is not background.
pub open spec fn has_content(img: &Bitmap) -> bool {
    exists|x: int, y: int|
        in_grid(x, y, img.width as int, img.height as int) && !is_background(
            #[trigger] img.at(x, y),
        )
}

/// The first column at or after `x` that holds content, or the width if none does.
pub open spec fn first_column_from(img: &Bitmap, x: int) -> int
    decreases img.width - x,
{
    if x >= img.width {
        img.width as int
    } else if column_has_content(img, x) {
        x
    } else {
        first_column_from(img, x + 1)
    }
}

/// The last column before `x` that holds content, or -1 if none does.
pub open spec fn last_column_before(img: &Bitmap, x: int) -> int
    decreases x,
{
    if x <= 0 {
        -1
    } else if column_has_content(img, x - 1) {
        x - 1
    } else {
        last_column_before(img, x - 1)
    }
}

/// The first row at or after `y` that holds content, or the height if none does.
pub open spec fn first_row_from(img: &Bitmap, y: int) -> int
    decreases img.height - y,
{
    if y >= img.height {
        img.height as int
    } else if row_has_content(img, y) {
        y
    } else {
        first_row_from(img, y + 1)
    }
}

/// The last row before `y` that holds content, or -1 if none does.
pub open spec fn last_row_before(img: &Bitmap, y: int) -> int
    decreases y,
{
    if y <= 0 {
        -1
    } else if row_has_content(img, y - 1) {
        y - 1
    } else {
        last_row_before(img, y - 1)
    }
}

/// The box found by four independent scans: leftmost and rightmost columns with
/// content, topmost and bottommost rows with content. A scan that finds nothing
/// leaves its side at the image's edge.
pub open spec fn scan_box(img: &Bitmap) -> BoundingBox {
    let l = first_column_from(img, 0);
    let r = last_column_before(img, img.width as int);
    let t = first_row_from(img, 0);
    let b = last_row_before(img, img.height as int);
    BoundingBox {
        left: if l < img.width { l as u32 } else { 0 },
        right: if r >= 0 { (r + 1) as u32 } else { img.width },
        top: if t < img.height { t as u32 } else { 0 },
        bottom: if b >= 0 { (b + 1) as u32 } else { img.height },
    }
}

/// `out` is the part of `img` under `b`.
pub open spec fn is_crop_of(out: &Bitmap, img: &Bitmap, b: BoundingBox) -> bool {
    &&& out.wf()
    &&& out.width == b.right - b.left
    &&& out.height == b.bottom - b.top
    &&& forall|x: int, y: int|
        in_grid(x, y, out.width as int, out.height as int) ==> #[trigger] out.at(x, y) == img.at(
            b.left + x,
            b.top + y,
        )
}

pub proof fn lemma_first_column_from(img: &Bitmap, x: int)
    requires
        0 <= x <= img.width,
    ensures
        x <= first_column_from(img, x) <= img.width,
        first_column_from(img, x) < img.width ==> column_has_content(
            img,
            first_column_from(img, x),
        ),
        forall|c: int| x <= c < first_column_from(img, x) ==> !column_has_content(img, c),
    decreases img.width - x,
{
    if x < img.width && !column_has_content(img, x) {
        lemma_first_column_from(img, x + 1);
    }
}

pub proof fn lemma_last_column_before(img: &Bitmap, x: int)
    requires
        0 <= x <= img.width,
    ensures
        -1 <= last_column_before(img, x) < x,
        last_column_before(img, x) >= 0 ==> column_has_content(img, last_column_before(img, x)),
        forall|c: int| last_column_before(img, x) < c < x ==> !column_has_content(img, c),
    decreases x,
{
    if x > 0 && !column_has_content(img, x - 1) {
        lemma_last_column_before(img, x - 1);
    }
}

pub proof fn lemma_first_row_from(img: &Bitmap, y: int)
    requires
        0 <= y <= img.height,
    ensures
        y <= first_row_from(img, y) <= img.height,
        first_row_from(img, y) < img.height ==> row_has_content(img, first_row_from(img, y)),
        forall|r: int| y <= r < first_row_from(img, y) ==> !row_has_content(img, r),
    decreases img.height - y,
{
    if y < img.height && !row_has_content(img, y) {
        lemma_first_row_from(img, y + 1);
    }
}

pub proof fn lemma_last_row_before(img: &Bitmap, y: int)
    requires
        0 <= y <= img.height,
    ensures
        -1 <= last_row_before(img, y) < y,
        last_row_before(img, y) >= 0 ==> row_has_content(img, last_row_before(img, y)),
        forall|r: int| last_row_before(img, y) < r < y ==> !row_has_content(img, r),
    decreases y,
{
    if y > 0 && !row_has_content(img, y - 1) {
        lemma_last_row_before(img, y - 1);
    }
}

/// Whether column `x` holds a pixel that is not background.
pub fn column_content(img: &Bitmap, x: u32) -> (r: bool)
    requires
        img.wf(),
        x < img.width,
    ensures
        r == column_has_content(img, x as int),
{
    let mut y: u32 = 0;
    while y < img.height
        invariant
            img.wf(),
            x < img.width,
            y <= img.height,
            forall|yy: int| 0 <= yy < y ==> is_background(#[trigger] img.at(x as int, yy)),
        decreases img.height - y,
    {
        if !img.is_background_at(x, y) {
            return true;
        }
        y += 1;
    }
    false
}

/// Whether row `y` holds a pixel that is not background.
pub fn row_content(img: &Bitmap, y: u32) -> (r: bool)
    requires
        img.wf(),
        y < img.height,
    ensures
        r == row_has_content(img, y as int),
{
    let mut x: u32 = 0;
    while x < img.width
        invariant
            img.wf(),
            y < img.height,
            x <= img.width,
            forall|xx: int| 0 <= xx < x ==> is_background(#[trigger] img.at(xx, y as int)),
        decreases img.width - x,
    {
        if !img.is_background_at(x, y) {
            return true;
        }
        x += 1;
    }
    false
}

/// Scans columns left to right; the first that holds content is the left side.
fn scan_left(img: &Bitmap) -> (l: u32)
    requires
        img.wf(),
    ensures
        l == scan_box(img).left,
{
    let mut x: u32 = 0;
    while x < img.width
        invariant
            img.wf(),
            x <= img.width,
            first_column_from(img, 0) == first_column_from(img, x as int),
        decreases img.width - x,
    {
        if column_content(img, x) {
            return x;
        }
        x += 1;
    }
    0
}

/// Scans columns right to left; one past the first that holds content is the
/// right side.
fn scan_right(img: &Bitmap) -> (r: u32)
    requires
        img.wf(),
    ensures
        r == scan_box(img).right,
{
    let mut x: u32 = img.width;
    while x > 0
        invariant
            img.wf(),
            x <= img.width,
            last_column_before(img, img.width as int) == last_column_before(img, x as int),
        decreases x,
    {
        if column_content(img, x - 1) {
            return x;
        }
        x -= 1;
    }
    img.width
}

/// Scans rows top to bottom; the first that holds content is the top side.
fn scan_top(img: &Bitmap) -> (t: u32)
    requires
        img.wf(),
    ensures
        t == scan_box(img).top,
{
    let mut y: u32 = 0;
    while y < img.height
        invariant
            img.wf(),
            y <= img.height,
            first_row_from(img, 0) == first_row_from(img, y as int),
        decreases img.height - y,
    {
        if row_content(img, y) {
            return y;
        }
        y += 1;
    }
    0
}

/// Scans rows bottom to top; one past the first that holds content is the
/// bottom side.
fn scan_bottom(img: &Bitmap) -> (b: u32)
    requires
        img.wf(),
    ensures
        b == scan_box(img).bottom,
{
    let mut y: u32 = img.height;
    while y > 0
        invariant
            img.wf(),
            y <= img.height,
            last_row_before(img, img.height as int) == last_row_before(img, y as int),
        decreases y,
    {
        if row_content(img, y - 1) {
            return y;
        }
        y -= 1;
    }
    img.height
}

/// Lemma: the four scans give a box that lies inside the image.
pub proof fn lemma_scan_box_fits(img: &Bitmap)
    ensures
        scan_box(img).fits(img.width as int, img.height as int),
{
    lemma_first_column_from(img, 0);
    lemma_last_column_before(img, img.width as int);
    lemma_first_row_from(img, 0);
    lemma_last_row_before(img, img.height as int);
    let l = first_column_from(img, 0);
    let r = last_column_before(img, img.width as int);
    if l < img.width {
        assert(r >= l) by {
            if r < l {
                assert(!column_has_content(img, l));
            }
        }
    }
    if r >= 0 {
        assert(l < img.width);
    }
    let t = first_row_from(img, 0);
    let b = last_row_before(img, img.height as int);
    if t < img.height {
        assert(b >= t) by {
            if b < t {
                assert(!row_has_content(img, t));
            }
        }
    }
    if b >= 0 {
        assert(t < img.height);
    }
}

/// The box of the four scans over `img` (see `scan_box`): columns left to
/// right and right to left, rows top to bottom and bottom to top, each scan
/// stopping at the first line that holds content.
pub fn bounding_box(img: &Bitmap) -> (b: BoundingBox)
    requires
        img.wf(),
    ensures
        b == scan_box(img),
        b.fits(img.width as int, img.height as int),
{
    proof {
        lemma_scan_box_fits(img);
    }
    let left = scan_left(img);
    let right = scan_right(img);
    let top = scan_top(img);
    let bottom = scan_bottom(img);
    BoundingBox { left, top, right, bottom }
}

/// The part of `img` under `b`, as an image of its own.
pub fn crop_to_box(img: &Bitmap, b: BoundingBox) -> (out: Bitmap)
    requires
        img.wf(),
        b.fits(img.width as int, img.height as int),
    ensures
        is_crop_of(&out, img, b),
{
    let cw: u32 = b.right - b.left;
    let ch: u32 = b.bottom - b.top;
    let mut pixels: Vec<Pixel> = Vec::new();
    let mut y: u32 = b.top;
    while y < b.bottom
        invariant
            img.wf(),
            b.fits(img.width as int, img.height as int),
            cw == b.right - b.left,
            ch == b.bottom - b.top,
            b.top <= y <= b.bottom,
            pixels@.len() == (y - b.top) * cw,
            forall|xx: int, yy: int|
                in_grid(xx, yy, cw as int, y - b.top) ==> #[trigger] pixels@[yy * cw + xx]
                    == img.at(b.left + xx, b.top + yy),
        decreases b.bottom - y,
    {
        let ghost row_start = pixels@.len();
        let mut x: u32 = b.left;
        while x < b.right
            invariant
                img.wf(),
                b.fits(img.width as int, img.height as int),
                cw == b.right - b.left,
                b.top <= y < b.bottom,
                b.left <= x <= b.right,
                row_start == (y - b.top) * cw,
                pixels@.len() == row_start + (x - b.left),
                forall|xx: int, yy: int|
                    in_grid(xx, yy, cw as int, y - b.top) ==> #[trigger] pixels@[yy * cw + xx]
                        == img.at(b.left + xx, b.top + yy),
                forall|xx: int|
                    0 <= xx < x - b.left ==> #[trigger] pixels@[row_start + xx] == img.at(
                        b.left + xx,
                        y as int,
                    ),
            decreases b.right - x,
        {
            let p = img.pixel(x, y);
            let ghost before = pixels@;
            pixels.push(p);
            proof {
                assert forall|xx: int, yy: int| in_grid(xx, yy, cw as int, y - b.top) implies
                    #[trigger] pixels@[yy * cw + xx] == img.at(b.left + xx, b.top + yy) by {
                    lemma_row_before(xx, yy, cw as int, y - b.top);
                    assert(pixels@[yy * cw + xx] == before[yy * cw + xx]);
                }
            }
            x += 1;
        }
        proof {
            assert forall|xx: int, yy: int|
                in_grid(xx, yy, cw as int, y + 1 - b.top) implies #[trigger] pixels@[yy * cw + xx]
                == img.at(b.left + xx, b.top + yy) by {
                if yy == y - b.top {
                    assert(pixels@[row_start + xx] == img.at(b.left + xx, y as int));
                }
            }
            assert(pixels@.len() == (y + 1 - b.top) * cw) by (nonlinear_arith)
                requires
                    pixels@.len() == row_start + cw,
                    row_start == (y - b.top) * cw,
            ;
        }
        y += 1;
    }
    let out = Bitmap { width: cw, height: ch, pixels };
    proof {
        assert(out.wf()) by {
            assert(pixels@.len() == cw * ch) by (nonlinear_arith)
                requires
                    pixels@.len() == ch * cw,
            ;
        }
        assert forall|x: int, y: int| in_grid(x, y, out.width as int, out.height as int) implies
            #[trigger] out.at(x, y) == img.at(b.left + x, b.top + y) by {
            assert(out.at(x, y) == pixels@[y * cw + x]);
        }
    }
    out
}

/// Trims the white margins of `img`: the result is the part of `img` under
/// the box of the four scans. An image without content comes back whole.
pub fn crop_white_borders(img: &Bitmap) -> (out: Bitmap)
    requires
        img.wf(),
    ensures
        is_crop_of(&out, img, scan_box(img)),
        !has_content(img) ==> out.same_image(img),
{
    let b = bounding_box(img);
    proof {
        lemma_no_content_full_box(img);
    }
    crop_to_box(img, b)
}

proof fn lemma_row_before(xx: int, yy: int, cw: int, rows: int)
    requires
        in_grid(xx, yy, cw, rows),
    ensures
        yy * cw + xx < rows * cw,
{
    assert(yy * cw + xx < rows * cw) by (nonlinear_arith)
        requires
            0 <= xx < cw,
            0 <= yy < rows,
    ;
}

/// Lemma: with no content, every scan finds nothing and the box is the whole image.
pub proof fn lemma_no_content_full_box(img: &Bitmap)
    ensures
        !has_content(img) ==> scan_box(img) == BoundingBox::full(img),
{
    if !has_content(img) {
        lemma_first_column_from(img, 0);
        lemma_last_column_before(img, img.width as int);
        lemma_first_row_from(img, 0);
        lemma_last_row_before(img, img.height as int);
        let l = first_column_from(img, 0);
        if l < img.width {
            let y = choose|y: int| 0 <= y < img.height && !is_background(#[trigger] img.at(l, y));
            assert(in_grid(l, y, img.width as int, img.height as int));
        }
        let r = last_column_before(img, img.width as int);
        if r >= 0 {
            let y = choose|y: int| 0 <= y < img.height && !is_background(#[trigger] img.at(r, y));
            assert(in_grid(r, y, img.width as int, img.height as int));
        }
        let t = first_row_from(img, 0);
        if t < img.height {
            let x = choose|x: int| 0 <= x < img.width && !is_background(#[trigger] img.at(x, t));
            assert(in_grid(x, t, img.width as int, img.height as int));
        }
        let b = last_row_before(img, img.height as int);
        if b >= 0 {
            let x = choose|x: int| 0 <= x < img.width && !is_background(#[trigger] img.at(x, b));
            assert(in_grid(x, b, img.width as int, img.height as int));
        }
    }
}

} // verus!
