use report_capture::bitmap::{Bitmap, Pixel};
use report_capture::imaging::{crop_encoded, from_rgba_bytes, to_rgba_bytes, CropError};

fn png_of(width: u32, height: u32, rgba: Vec<u8>) -> Vec<u8> {
    let img = image::RgbaImage::from_raw(width, height, rgba).unwrap();
    let mut out = std::io::Cursor::new(Vec::new());
    img.write_to(&mut out, image::ImageFormat::Png).unwrap();
    out.into_inner()
}

#[test]
fn samples_and_pixels_convert_both_ways() {
    let raw = vec![1, 2, 3, 4, 5, 6, 7, 8];
    let img = from_rgba_bytes(2, 1, &raw).unwrap();
    assert_eq!(img.pixels, vec![Pixel { r: 1, g: 2, b: 3, a: 4 }, Pixel { r: 5, g: 6, b: 7, a: 8 }]);
    assert_eq!(to_rgba_bytes(&img), raw);
    assert!(from_rgba_bytes(2, 2, &raw).is_none());
    assert!(from_rgba_bytes(1, 1, &vec![1, 2, 3]).is_none());
    let empty = Bitmap { width: 0, height: 3, pixels: vec![] };
    assert_eq!(to_rgba_bytes(&empty), Vec::<u8>::new());
}

#[test]
fn garbage_bytes_fail_to_decode() {
    assert_eq!(crop_encoded(&vec![1, 2, 3, 4]), Err(CropError::Decode));
    assert_eq!(crop_encoded(&vec![]), Err(CropError::Decode));
}

#[test]
fn encoded_screenshot_is_cropped() {
    let (w, h) = (6u32, 5u32);
    let mut rgba = vec![255u8; (w * h * 4) as usize];
    for (x, y) in [(2u32, 1u32), (3, 3)] {
        let i = ((y * w + x) * 4) as usize;
        rgba[i] = 0;
        rgba[i + 1] = 0;
        rgba[i + 2] = 0;
    }
    let out = crop_encoded(&png_of(w, h, rgba)).unwrap();
    let decoded = image::load_from_memory(&out).unwrap().to_rgba8();
    assert_eq!((decoded.width(), decoded.height()), (2, 3));
    assert_eq!(decoded.get_pixel(0, 0).0, [0, 0, 0, 255]);
    assert_eq!(decoded.get_pixel(1, 0).0, [255, 255, 255, 255]);
    assert_eq!(decoded.get_pixel(1, 2).0, [0, 0, 0, 255]);
}

#[test]
fn blank_screenshot_comes_back_whole() {
    let out = crop_encoded(&png_of(3, 2, vec![255u8; 24])).unwrap();
    let decoded = image::load_from_memory(&out).unwrap().to_rgba8();
    assert_eq!((decoded.width(), decoded.height()), (3, 2));
    assert!(decoded.pixels().all(|p| p.0 == [255, 255, 255, 255]));
}
