//! The boundary to the image codec and filter library: decoding bytes to
//! an RGBA buffer, encoding a buffer to PNG bytes, the Gaussian blur
//! primitive, and resampling. Encoding, blurring and resampling are pure
//! functions of their input, named by uninterpreted spec functions, and
//! the library's contracts are stated over those names. Decoding is not:
//! the codec consults process-global format and decoder registries, so
//! only per-outcome facts are assumed of it, and the verified pipeline
//! takes the decoded buffer as an argument.
use vstd::prelude::*;

use crate::pixel::{buf_wf, PixelBuf};

verus! {

#[verifier::external_type_specification]
#[verifier::external_body]
pub struct ExImageError(image::ImageError);

/// The PNG encoding of an RGBA image: a pure function of the pixels.
pub uninterp spec fn png_of(width: nat, height: nat, data: Seq<u8>) -> Seq<u8>;

/// The Gaussian blur (fixed strength 20) of an RGBA image: a pure
/// function of the pixels that keeps the dimensions.
pub uninterp spec fn blur_of(width: nat, height: nat, data: Seq<u8>) -> Seq<u8>;

/// The triangle-filter resampling of an RGBA image to a new size: a pure
/// function of the pixels and the requested dimensions.
pub uninterp spec fn resize_of(width: nat, height: nat, data: Seq<u8>, nw: nat, nh: nat) -> Seq<
    u8,
>;

/// Relies on image::load_from_memory and DynamicImage::to_rgba8: whatever
/// the codec decides (its format detection and decoding consult mutable
/// process-global hook registries, so the outcome is not a function of the
/// bytes alone), a successful decode hands back an RGBA8 buffer with
/// exactly four bytes per pixel of the decoded dimensions.
#[verifier::external_body]
pub fn decode_rgba(bytes: &Vec<u8>) -> (r: Result<PixelBuf, image::ImageError>)
    ensures
        r matches Ok(b) ==> buf_wf(b),
{
    match image::load_from_memory(bytes.as_slice()) {
        Ok(img) => {
            let rgba = img.to_rgba8();
            Ok(PixelBuf { width: rgba.width(), height: rgba.height(), data: rgba.into_raw() })
        },
        Err(e) => Err(e),
    }
}

/// Relies on ImageBuffer::write_to with the PNG format: encoding is a
/// pure function of the pixels, writing into a growable buffer cannot
/// fail, and the PNG encoder rejects only a zero width or height.
#[verifier::external_body]
pub fn encode_png(buf: &PixelBuf) -> (r: Result<Vec<u8>, image::ImageError>)
    requires
        buf_wf(*buf),
    ensures
        r matches Ok(b) ==> b@ == png_of(buf.width as nat, buf.height as nat, buf.data@),
        0 < buf.width && 0 < buf.height ==> r is Ok,
{
    let img = image::RgbaImage::from_raw(buf.width, buf.height, buf.data.clone()).unwrap();
    let mut out: Vec<u8> = Vec::new();
    match img.write_to(&mut std::io::Cursor::new(&mut out), image::ImageFormat::Png) {
        Ok(()) => Ok(out),
        Err(e) => Err(e),
    }
}

/// Relies on image::imageops::blur, the Gaussian blur with the fixed
/// strength 20 this library applies everywhere: a pure function of the
/// pixels that keeps the dimensions. The filter walks rows and columns of
/// the image, so both dimensions must be positive.
#[verifier::external_body]
pub fn blur_rgba(buf: &PixelBuf) -> (r: PixelBuf)
    requires
        buf_wf(*buf),
        0 < buf.width,
        0 < buf.height,
    ensures
        r.width == buf.width,
        r.height == buf.height,
        buf_wf(r),
        r.data@ == blur_of(buf.width as nat, buf.height as nat, buf.data@),
{
    let img = image::RgbaImage::from_raw(buf.width, buf.height, buf.data.clone()).unwrap();
    let blurred = image::imageops::blur(&img, 20u8.into());
    PixelBuf { width: blurred.width(), height: blurred.height(), data: blurred.into_raw() }
}

/// Relies on image::imageops::resize with FilterType::Triangle: a pure
/// function of the pixels that produces exactly the requested dimensions.
#[verifier::external_body]
pub fn resize_rgba(buf: &PixelBuf, nw: u32, nh: u32) -> (r: PixelBuf)
    requires
        buf_wf(*buf),
    ensures
        r.width == nw,
        r.height == nh,
        buf_wf(r),
        r.data@ == resize_of(buf.width as nat, buf.height as nat, buf.data@, nw as nat, nh as nat),
{
    let img = image::RgbaImage::from_raw(buf.width, buf.height, buf.data.clone()).unwrap();
    let out = image::imageops::resize(&img, nw, nh, image::imageops::FilterType::Triangle);
    PixelBuf { width: out.width(), height: out.height(), data: out.into_raw() }
}

} // verus!
