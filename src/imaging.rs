use vstd::prelude::*;
use crate::bitmap::{Bitmap, Pixel, in_grid, is_background};
use crate::crop::{
    crop_white_borders, has_content, is_crop_of, lemma_no_content_full_box, lemma_scan_box_fits,
    scan_box,
};
use crate::laws::lemma_content_inside_box;

verus! {

/// What the image decoder makes of encoded bytes: width, height and RGBA
/// samples row by row, or nothing where the bytes are no image it reads.
pub uninterp spec fn decoded_rgba(bytes: Seq<u8>) -> Option<(u32, u32, Seq<u8>)>;

/// The PNG encoding of an RGBA image of the given width and height.
pub uninterp spec fn png_encoding(width: u32, height: u32, rgba: Seq<u8>) -> Seq<u8>;

/// Relies on `image::load_from_memory`, which guesses the format from the bytes
/// and decodes them, and on `DynamicImage::to_rgba8` and
/// `ImageBuffer::into_raw`, which hand out the pixels as RGBA samples.
#[verifier::external_body]
fn decode_rgba(bytes: &Vec<u8>) -> (r: Option<(u32, u32, Vec<u8>)>)
    ensures
        match r {
            Some(t) => decoded_rgba(bytes@) == Some((t.0, t.1, t.2@)),
            None => decoded_rgba(bytes@) is None,
        },
{
    match image::load_from_memory(bytes.as_slice()) {
        Ok(img) => {
            let rgba = img.to_rgba8();
            Some((rgba.width(), rgba.height(), rgba.into_raw()))
        },
        Err(_) => None,
    }
}

/// Relies on `image::RgbaImage::from_raw`, which takes the samples as they are
/// when there are at least four per pixel, and on `ImageBuffer::write_to` with
/// `ImageFormat::Png`, which encodes them into memory; the PNG writer refuses
/// only a zero width or height.
#[verifier::external_body]
fn encode_png(width: u32, height: u32, rgba: Vec<u8>) -> (r: Option<Vec<u8>>)
    ensures
        r is Some ==> r->0@ == png_encoding(width, height, rgba@),
        width > 0 && height > 0 && rgba@.len() >= 4 * (width as int * height as int) ==> r is Some,
        width == 0 || height == 0 ==> r is None,
{
    let img = image::RgbaImage::from_raw(width, height, rgba)?;
    let mut out = std::io::Cursor::new(Vec::new());
    img.write_to(&mut out, image::ImageFormat::Png).ok()?;
    Some(out.into_inner())
}

/// The pixel made of the four samples of `raw` that start at `4 * j`.
pub open spec fn sample_pixel(raw: Seq<u8>, j: int) -> Pixel {
    Pixel { r: raw[4 * j], g: raw[4 * j + 1], b: raw[4 * j + 2], a: raw[4 * j + 3] }
}

/// `raw` holds the pixels of `ps` as four samples each: red, green, blue, alpha.
pub open spec fn pixels_match_rgba(ps: Seq<Pixel>, raw: Seq<u8>) -> bool {
    &&& raw.len() == 4 * ps.len()
    &&& forall|j: int|
        0 <= j < ps.len() ==> #[trigger] ps[j] == sample_pixel(raw, j)
}

/// The image of `width` by `height` pixels whose RGBA samples are `raw`, or
/// `None` where `raw` does not hold exactly four samples per pixel.
pub fn from_rgba_bytes(width: u32, height: u32, raw: &Vec<u8>) -> (r: Option<Bitmap>)
    ensures
        r is Some <==> raw@.len() == 4 * (width as int * height as int),
        r is Some ==> ({
            let img = r->0;
            &&& img.wf()
            &&& img.pixels@.len() * 4 <= usize::MAX
            &&& img.width == width
            &&& img.height == height
            &&& pixels_match_rgba(img.pixels@, raw@)
        }),
{
    proof {
        assert(width as int * height as int <= u64::MAX) by (nonlinear_arith)
            requires
                width <= u32::MAX,
                height <= u32::MAX,
        ;
    }
    let n: u64 = (width as u64) * (height as u64);
    let len: usize = raw.len();
    if len % 4 != 0 || (len / 4) as u64 != n {
        return None;
    }
    let count: usize = len / 4;
    let mut pixels: Vec<Pixel> = Vec::new();
    let mut i: usize = 0;
    while i < count
        invariant
            count == len / 4,
            len == raw@.len(),
            len % 4 == 0,
            i <= count,
            pixels@.len() == i,
            forall|j: int|
                0 <= j < i ==> #[trigger] pixels@[j] == sample_pixel(raw@, j),
        decreases count - i,
    {
        let p = Pixel { r: raw[4 * i], g: raw[4 * i + 1], b: raw[4 * i + 2], a: raw[4 * i + 3] };
        pixels.push(p);
        i += 1;
    }
    Some(Bitmap { width, height, pixels })
}

/// The RGBA samples of `img`, four per pixel, row by row.
pub fn to_rgba_bytes(img: &Bitmap) -> (raw: Vec<u8>)
    requires
        img.pixels@.len() * 4 <= usize::MAX,
    ensures
        pixels_match_rgba(img.pixels@, raw@),
{
    let mut raw: Vec<u8> = Vec::new();
    let mut i: usize = 0;
    while i < img.pixels.len()
        invariant
            img.pixels@.len() * 4 <= usize::MAX,
            i <= img.pixels@.len(),
            raw@.len() == 4 * i,
            forall|j: int|
                0 <= j < i ==> #[trigger] img.pixels@[j] == sample_pixel(raw@, j),
        decreases img.pixels@.len() - i,
    {
        let p = img.pixels[i];
        raw.push(p.r);
        raw.push(p.g);
        raw.push(p.b);
        raw.push(p.a);
        i += 1;
    }
    raw
}

/// Why encoded image bytes could not be cropped.
#[derive(Clone, Copy, PartialEq, Eq, Structural, Debug)]
pub enum CropError {
    /// The bytes are no image that the decoder reads.
    Decode,
    /// The cropped image could not be encoded.
    Encode,
}

/// Decodes a screenshot, trims its white margins and encodes the result as PNG.
///
/// It fails with `Decode` exactly where the decoder reads no image of four
/// samples per pixel, and otherwise hands the decoded image to
/// `crop_white_borders`. An image with no pixels fails with `Encode`, since PNG
/// has no empty image; any other comes back as the PNG encoding of its crop.
pub fn crop_encoded(bytes: &Vec<u8>) -> (r: Result<Vec<u8>, CropError>)
    ensures
        match decoded_rgba(bytes@) {
            None => r == Err::<Vec<u8>, CropError>(CropError::Decode),
            Some((w, h, raw)) => {
                if raw.len() != 4 * (w as int * h as int) {
                    r == Err::<Vec<u8>, CropError>(CropError::Decode)
                } else {
                    &&& (w > 0 && h > 0) ==> r is Ok
                    &&& (w == 0 || h == 0) ==> r == Err::<Vec<u8>, CropError>(CropError::Encode)
                    &&& r is Ok ==> exists|src: Bitmap, out: Bitmap, out_raw: Seq<u8>|
                        {
                            &&& src.width == w
                            &&& src.height == h
                            &&& src.wf()
                            &&& pixels_match_rgba(src.pixels@, raw)
                            &&& is_crop_of(&out, &src, scan_box(&src))
                            &&& pixels_match_rgba(out.pixels@, out_raw)
                            &&& r->Ok_0@ == png_encoding(out.width, out.height, out_raw)
                        }
                }
            },
        },
{
    let decoded = decode_rgba(bytes);
    let (w, h, raw) = match decoded {
        None => return Err(CropError::Decode),
        Some(t) => t,
    };
    let src = match from_rgba_bytes(w, h, &raw) {
        None => return Err(CropError::Decode),
        Some(img) => img,
    };
    let out = crop_white_borders(&src);
    proof {
        lemma_crop_not_larger(&src, &out);
        lemma_crop_not_empty(&src, &out);
    }
    let out_raw = to_rgba_bytes(&out);
    match encode_png(out.width, out.height, out_raw) {
        None => Err(CropError::Encode),
        Some(png) => {
            proof {
                assert(pixels_match_rgba(out.pixels@, out_raw@));
            }
            Ok(png)
        },
    }
}

/// The crop of an image with pixels has pixels; that of an empty one has none.
proof fn lemma_crop_not_empty(src: &Bitmap, out: &Bitmap)
    requires
        src.wf(),
        is_crop_of(out, src, scan_box(src)),
    ensures
        src.width > 0 && src.height > 0 ==> out.width > 0 && out.height > 0,
        src.width == 0 || src.height == 0 ==> out.width == 0 || out.height == 0,
{
    lemma_no_content_full_box(src);
    lemma_scan_box_fits(src);
    if has_content(src) {
        let (x, y) = choose|x: int, y: int|
            in_grid(x, y, src.width as int, src.height as int) && !is_background(
                #[trigger] src.at(x, y),
            );
        lemma_content_inside_box(src, x, y);
    }
}

/// A crop has no more pixels than its source.
proof fn lemma_crop_not_larger(src: &Bitmap, out: &Bitmap)
    requires
        src.wf(),
        is_crop_of(out, src, scan_box(src)),
    ensures
        out.pixels@.len() <= src.pixels@.len(),
{
    lemma_scan_box_fits(src);
    let w = out.width as int;
    let h = out.height as int;
    assert(w * h <= src.width as int * src.height as int) by (nonlinear_arith)
        requires
            0 <= w <= src.width,
            0 <= h <= src.height,
    ;
}

} // verus!
