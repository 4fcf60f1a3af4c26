use report_capture::bitmap::{Bitmap, Pixel};
use report_capture::crop::{bounding_box, crop_to_box, crop_white_borders, BoundingBox};

const WHITE: Pixel = Pixel { r: 255, g: 255, b: 255, a: 255 };
const BLACK: Pixel = Pixel { r: 0, g: 0, b: 0, a: 255 };

fn blank(width: u32, height: u32) -> Bitmap {
    Bitmap { width, height, pixels: vec![WHITE; (width * height) as usize] }
}

fn paint(img: &mut Bitmap, left: u32, top: u32, right: u32, bottom: u32, p: Pixel) {
    for y in top..bottom {
        for x in left..right {
            img.pixels[(y * img.width + x) as usize] = p;
        }
    }
}

#[test]
fn all_white_image_is_not_cropped() {
    let img = blank(7, 5);
    let b = bounding_box(&img);
    assert_eq!(b, BoundingBox { left: 0, top: 0, right: 7, bottom: 5 });
    let out = crop_white_borders(&img);
    assert_eq!((out.width, out.height), (7, 5));
    assert_eq!(out.pixels, img.pixels);
}

#[test]
fn near_white_counts_as_background() {
    let mut img = blank(4, 4);
    paint(&mut img, 1, 1, 2, 2, Pixel { r: 250, g: 251, b: 252, a: 0 });
    assert_eq!(bounding_box(&img), BoundingBox { left: 0, top: 0, right: 4, bottom: 4 });
    paint(&mut img, 2, 3, 3, 4, Pixel { r: 255, g: 249, b: 255, a: 255 });
    assert_eq!(bounding_box(&img), BoundingBox { left: 2, top: 3, right: 3, bottom: 4 });
}

#[test]
fn alpha_is_ignored() {
    let mut img = blank(3, 3);
    paint(&mut img, 1, 1, 2, 2, Pixel { r: 10, g: 10, b: 10, a: 0 });
    assert_eq!(bounding_box(&img), BoundingBox { left: 1, top: 1, right: 2, bottom: 2 });
}

#[test]
fn single_region_is_cropped_exactly() {
    let mut img = blank(10, 8);
    paint(&mut img, 3, 2, 7, 5, BLACK);
    assert_eq!(bounding_box(&img), BoundingBox { left: 3, top: 2, right: 7, bottom: 5 });
    let out = crop_white_borders(&img);
    assert_eq!((out.width, out.height), (4, 3));
    assert!(out.pixels.iter().all(|p| *p == BLACK));
}

#[test]
fn two_regions_are_both_kept() {
    let mut img = blank(12, 9);
    paint(&mut img, 1, 1, 3, 3, BLACK);
    paint(&mut img, 9, 6, 11, 8, Pixel { r: 200, g: 0, b: 0, a: 255 });
    assert_eq!(bounding_box(&img), BoundingBox { left: 1, top: 1, right: 11, bottom: 8 });
    let out = crop_white_borders(&img);
    assert_eq!((out.width, out.height), (10, 7));
    assert_eq!(out.pixels[0], BLACK);
    assert_eq!(out.pixels[(6 * 10 + 9) as usize], Pixel { r: 200, g: 0, b: 0, a: 255 });
    assert_eq!(out.pixels[(6 * 10) as usize], WHITE);
}

#[test]
fn cropping_twice_changes_nothing() {
    let mut img = blank(9, 9);
    paint(&mut img, 2, 4, 5, 6, BLACK);
    paint(&mut img, 6, 1, 7, 2, BLACK);
    let once = crop_white_borders(&img);
    let twice = crop_white_borders(&once);
    assert_eq!((twice.width, twice.height), (once.width, once.height));
    assert_eq!(twice.pixels, once.pixels);
}

#[test]
fn empty_image_stays_empty() {
    let img = blank(0, 0);
    assert_eq!(bounding_box(&img), BoundingBox { left: 0, top: 0, right: 0, bottom: 0 });
    let out = crop_white_borders(&img);
    assert_eq!((out.width, out.height), (0, 0));
    let wide = blank(5, 0);
    assert_eq!(bounding_box(&wide), BoundingBox { left: 0, top: 0, right: 5, bottom: 0 });
}

#[test]
fn content_on_the_edges_keeps_everything() {
    let mut img = blank(5, 4);
    paint(&mut img, 0, 0, 1, 1, BLACK);
    paint(&mut img, 4, 3, 5, 4, BLACK);
    assert_eq!(bounding_box(&img), BoundingBox { left: 0, top: 0, right: 5, bottom: 4 });
}

#[test]
fn crop_to_box_takes_the_rectangle() {
    let mut img = blank(4, 3);
    for (i, p) in img.pixels.iter_mut().enumerate() {
        *p = Pixel { r: i as u8, g: 0, b: 0, a: 0 };
    }
    let out = crop_to_box(&img, BoundingBox { left: 1, top: 1, right: 3, bottom: 3 });
    let reds: Vec<u8> = out.pixels.iter().map(|p| p.r).collect();
    assert_eq!(reds, vec![5, 6, 9, 10]);
}
