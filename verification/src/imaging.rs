use vstd::prelude::*;
use crate::color::Rgb;
use crate::errors::MosaicError;
use crate::raster::{Image, ImageView};

verus! {

#[verifier::external_type_specification]
#[verifier::external_body]
pub struct ExImageError(image::ImageError);

/// The pixels an image decoder yields for a byte stream: `None` when the
/// bytes are not a decodable raster image. The result depends on the bytes
/// alone.
pub uninterp spec fn decoded_of(bytes: Seq<u8>) -> Option<ImageView>;

/// The row-major samples of an image resampled to `res` by `res` pixels
/// with the Catmull-Rom kernel. The result depends on the source pixels
/// and the target size alone.
pub uninterp spec fn resampled(img: ImageView, res: u32) -> Seq<Rgb>;

/// Relies on image::load_from_memory (format guessed from the bytes) and
/// DynamicImage::to_rgb8: the decoded image is a function of the bytes
/// alone.
#[verifier::external_body]
fn load_from_memory(bytes: &Vec<u8>) -> (r: Result<Image, image::ImageError>)
    ensures
        r matches Ok(img) ==> img.wf() && decoded_of(bytes@) == Some(img@),
        r is Err ==> decoded_of(bytes@) is None,
{
    let decoded = image::load_from_memory(bytes)?.to_rgb8();
    let (width, height) = (decoded.width(), decoded.height());
    let pixels = decoded.pixels().map(|p| Rgb { r: p.0[0], g: p.0[1], b: p.0[2] }).collect();
    Ok(Image { width, height, pixels })
}

/// Decodes an image byte stream, guessing the format from its contents.
pub fn decode_image(bytes: &Vec<u8>) -> (r: Result<Image, MosaicError>)
    ensures
        r is Ok <==> decoded_of(bytes@) is Some,
        r matches Ok(img) ==> img.wf() && decoded_of(bytes@) == Some(img@),
        r matches Err(e) ==> e == MosaicError::DecodeFailed,
{
    match load_from_memory(bytes) {
        Ok(img) => Ok(img),
        Err(_) => Err(MosaicError::DecodeFailed),
    }
}

/// Relies on image::DynamicImage::resize_exact with
/// image::imageops::FilterType::CatmullRom: an exact-size resample whose
/// result depends on the source pixels and the target size alone, and on
/// image::RgbImage::from_raw, which accepts any buffer of matching size.
#[verifier::external_body]
fn resample_exact(img: &Image, res: u32) -> (r: Image)
    requires
        img.wf(),
        img.width >= 1,
        img.height >= 1,
        res >= 1,
        res * res <= usize::MAX,
    ensures
        r.wf(),
        r.width == res,
        r.height == res,
        r.pixels@ == resampled(img@, res),
{
    let raw: Vec<u8> = img.pixels.iter().flat_map(|p| [p.r, p.g, p.b]).collect();
    let buf = image::RgbImage::from_raw(img.width, img.height, raw).unwrap();
    let resized = image::DynamicImage::ImageRgb8(buf)
        .resize_exact(res, res, image::imageops::FilterType::CatmullRom)
        .to_rgb8();
    let pixels = resized.pixels().map(|p| Rgb { r: p.0[0], g: p.0[1], b: p.0[2] }).collect();
    Image { width: res, height: res, pixels }
}

/// Resamples an image to an exact `res` by `res` pixel size with the fixed
/// deterministic kernel: used both for signature extraction and for the
/// tiles the compositor overlays.
pub fn get_thumb(img: &Image, res: u32) -> (r: Image)
    requires
        img.wf(),
        img.width >= 1,
        img.height >= 1,
        res >= 1,
        res * res <= usize::MAX,
    ensures
        r.wf(),
        r.width == res,
        r.height == res,
        r.pixels@ == resampled(img@, res),
{
    resample_exact(img, res)
}

/// Reads a square thumbnail image into its flat sample sequence.
pub fn rgb_thumb_to_pixels(thumb: &Image) -> (r: Vec<Rgb>)
    ensures
        r@ == thumb.pixels@,
{
    let mut out: Vec<Rgb> = Vec::new();
    let mut i: usize = 0;
    let n: usize = thumb.pixels.len();
    while i < n
        invariant
            i <= n,
            n == thumb.pixels@.len(),
            out@ == thumb.pixels@.take(i as int),
        decreases n - i,
    {
        out.push(thumb.pixels[i]);
        proof {
            assert(out@ =~= thumb.pixels@.take(i + 1));
        }
        i = i + 1;
    }
    proof {
        assert(out@ =~= thumb.pixels@);
    }
    out
}

} // verus!
