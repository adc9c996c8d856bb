//! The blur compositor: clamps each requested rectangle to the image,
//! blurs the clamped region, and writes the blurred patch back over the
//! image, whole or masked by the inscribed ellipse. Rectangles are
//! processed independently, in input order; one that clamps away is
//! skipped. The public entry points decode the image bytes, composite,
//! and encode the result back to PNG.
use vstd::prelude::*;

use crate::codec::{blur_of, blur_rgba, decode_rgba, encode_png, png_of};
use crate::pixel::{
    buf_wf, chan_of, col_of, crop, in_ellipse, lemma_pixel_coords, lemma_pixel_index, mask_covers,
    overlay_patch, row_of, spec_composite, spec_crop, PixelBuf,
};
use crate::rect::{
    clamp_h, clamp_nonempty, clamp_rect, clamp_w, clamp_x, clamp_y, BlurRect, ShapeMode,
};

verus! {

/// An error of the blur entry points: the input bytes could not be
/// decoded, or the result could not be encoded. The codec's error is
/// carried unchanged.
#[derive(Debug)]
pub enum FaceBlurError {
    Decode(image::ImageError),
    Encode(image::ImageError),
}

/// The image after one rectangle is applied: unchanged when the clamped
/// rectangle is empty; otherwise the clamped region is cropped out,
/// blurred, and written back under the mask of `mode`.
pub open spec fn spec_blur_one(
    data: Seq<u8>,
    bw: int,
    bh: int,
    r: BlurRect,
    mode: ShapeMode,
) -> Seq<u8> {
    if !clamp_nonempty(r, bw, bh) {
        data
    } else {
        let cx = clamp_x(r);
        let cy = clamp_y(r);
        let cw = clamp_w(r, bw);
        let ch = clamp_h(r, bh);
        spec_composite(
            data,
            bw,
            blur_of(cw as nat, ch as nat, spec_crop(data, bw, cx, cy, cw, ch)),
            cx,
            cy,
            cw,
            ch,
            mode,
        )
    }
}

/// The image after every rectangle is applied, in input order: a later
/// rectangle sees the image as the earlier ones left it.
pub open spec fn spec_apply_blur(
    data: Seq<u8>,
    bw: int,
    bh: int,
    rects: Seq<BlurRect>,
    mode: ShapeMode,
) -> Seq<u8>
    decreases rects.len(),
{
    if rects.len() == 0 {
        data
    } else {
        spec_apply_blur(spec_blur_one(data, bw, bh, rects[0], mode), bw, bh, rects.drop_first(), mode)
    }
}

/// Applying one rectangle keeps the byte length of the image.
pub proof fn lemma_blur_one_len(data: Seq<u8>, bw: int, bh: int, r: BlurRect, mode: ShapeMode)
    ensures
        spec_blur_one(data, bw, bh, r, mode).len() == data.len(),
{
}

/// Blurs each rectangle of `rects` into `img`, in input order: each is
/// clamped to the image, skipped if nothing remains, else its region is
/// blurred and written back whole (`Rectangle`) or inside the inscribed
/// ellipse (`Ellipse`). An empty list leaves the image unchanged.
pub fn apply_blur(img: &mut PixelBuf, rects: &Vec<BlurRect>, mode: ShapeMode)
    requires
        buf_wf(*old(img)),
    ensures
        buf_wf(*final(img)),
        final(img).width == old(img).width,
        final(img).height == old(img).height,
        final(img).data@ == spec_apply_blur(
            old(img).data@,
            old(img).width as int,
            old(img).height as int,
            rects@,
            mode,
        ),
{
    let ghost data0 = old(img).data@;
    let ghost bw = old(img).width as int;
    let ghost bh = old(img).height as int;
    let n = rects.len();
    let mut i: usize = 0;
    proof {
        assert(rects@.subrange(0, n as int) =~= rects@);
    }
    while i < n
        invariant
            i <= n,
            n == rects@.len(),
            buf_wf(*img),
            img.width == old(img).width,
            img.height == old(img).height,
            bw == old(img).width as int,
            bh == old(img).height as int,
            spec_apply_blur(data0, bw, bh, rects@, mode) == spec_apply_blur(
                img.data@,
                bw,
                bh,
                rects@.subrange(i as int, n as int),
                mode,
            ),
        decreases n - i,
    {
        let rect = rects[i];
        let ghost pre = img.data@;
        match clamp_rect(&rect, img.width, img.height) {
            None => {
                proof {
                    assert(spec_blur_one(pre, bw, bh, rect, mode) == pre);
                }
            },
            Some((cx, cy, cw, ch)) => {
                let patch = crop(img, cx, cy, cw, ch);
                let blurred = blur_rgba(&patch);
                overlay_patch(img, &blurred, cx, cy, mode);
                proof {
                    assert(img.data@ == spec_blur_one(pre, bw, bh, rect, mode));
                }
            },
        }
        proof {
            let sub = rects@.subrange(i as int, n as int);
            assert(sub[0] == rects@[i as int]);
            assert(sub.drop_first() =~= rects@.subrange(i + 1 as int, n as int));
            assert(spec_apply_blur(pre, bw, bh, sub, mode) == spec_apply_blur(
                img.data@,
                bw,
                bh,
                rects@.subrange(i + 1 as int, n as int),
                mode,
            ));
        }
        i = i + 1;
    }
    proof {
        assert(rects@.subrange(n as int, n as int) =~= Seq::<BlurRect>::empty());
    }
}

/// Blurs every rectangle of `rects` into the image `buf` and encodes the
/// result to PNG: the verified core behind `blur_multiple_faces`, taking
/// the codec's decode result as an argument. On any buffer with positive
/// dimensions it succeeds, and the output is exactly the PNG encoding of
/// the composited pixels.
pub fn blur_buffer(buf: PixelBuf, rects: &Vec<BlurRect>, mode: ShapeMode) -> (r: Result<
    Vec<u8>,
    image::ImageError,
>)
    requires
        buf_wf(buf),
    ensures
        r matches Ok(out) ==> out@ == png_of(
            buf.width as nat,
            buf.height as nat,
            spec_apply_blur(buf.data@, buf.width as int, buf.height as int, rects@, mode),
        ),
        0 < buf.width && 0 < buf.height ==> r is Ok,
{
    let mut b = buf;
    apply_blur(&mut b, rects, mode);
    encode_png(&b)
}

/// Decodes `image_bytes`, blurs every rectangle of `rects` into it
/// (ellipse-masked when `is_circle` is set, whole rectangles otherwise),
/// and encodes the result back to PNG. Which byte streams decode, and to
/// what, is the codec's decision (it consults process-global registries),
/// so this contract promises only what holds of every outcome: a success
/// is the PNG encoding of some image with exactly the requested regions
/// blurred. The exact pixel-level contract lives on `blur_buffer`, which
/// takes the decoded buffer as an argument. A decode failure is returned
/// as `Decode`, carrying the codec's error; degenerate or out-of-bounds
/// rectangles are skipped, never an error.
pub fn blur_multiple_faces(image_bytes: Vec<u8>, rects: Vec<BlurRect>, is_circle: bool) -> (r:
    Result<Vec<u8>, FaceBlurError>)
    ensures
        is_circle ==> (r matches Ok(out) ==> exists|bw: nat, bh: nat, data: Seq<u8>|
            data.len() == 4 * bw * bh && out@ == #[trigger] png_of(
                bw,
                bh,
                spec_apply_blur(data, bw as int, bh as int, rects@, ShapeMode::Ellipse),
            )),
        !is_circle ==> (r matches Ok(out) ==> exists|bw: nat, bh: nat, data: Seq<u8>|
            data.len() == 4 * bw * bh && out@ == #[trigger] png_of(
                bw,
                bh,
                spec_apply_blur(data, bw as int, bh as int, rects@, ShapeMode::Rectangle),
            )),
{
    let mode = if is_circle {
        ShapeMode::Ellipse
    } else {
        ShapeMode::Rectangle
    };
    match decode_rgba(&image_bytes) {
        Err(e) => Err(FaceBlurError::Decode(e)),
        Ok(buf) => {
            let ghost bw = buf.width as nat;
            let ghost bh = buf.height as nat;
            let ghost data = buf.data@;
            match blur_buffer(buf, &rects, mode) {
                Ok(out) => {
                    proof {
                        assert(data.len() == 4 * bw * bh && out@ == png_of(
                            bw,
                            bh,
                            spec_apply_blur(data, bw as int, bh as int, rects@, mode),
                        ));
                    }
                    Ok(out)
                },
                Err(e) => Err(FaceBlurError::Encode(e)),
            }
        },
    }
}

/// Decodes `image_bytes` and blurs the single rectangle `(x, y, w, h)`
/// into it, whole. A rectangle that clamps away returns the original
/// bytes unchanged, without re-encoding; otherwise the result is the PNG
/// encoding of the decoded image with exactly that region blurred. Which
/// byte streams decode is the codec's decision, so only the outcomes are
/// pinned; the only error this function itself reports is a decode
/// failure.
pub fn blur_face_area(image_bytes: Vec<u8>, x: i32, y: i32, w: i32, h: i32) -> (r: Result<
    Vec<u8>,
    FaceBlurError,
>)
    ensures
        r is Err ==> r matches Err(FaceBlurError::Decode(_)),
        r matches Ok(out) ==> out@ == image_bytes@ || exists|bw: nat, bh: nat, data: Seq<u8>|
            data.len() == 4 * bw * bh && clamp_nonempty(
                BlurRect { x, y, w, h },
                bw as int,
                bh as int,
            ) && out@ == #[trigger] png_of(
                bw,
                bh,
                spec_blur_one(
                    data,
                    bw as int,
                    bh as int,
                    BlurRect { x, y, w, h },
                    ShapeMode::Rectangle,
                ),
            ),
{
    let rect = BlurRect { x, y, w, h };
    match decode_rgba(&image_bytes) {
        Err(e) => Err(FaceBlurError::Decode(e)),
        Ok(mut buf) => {
            match clamp_rect(&rect, buf.width, buf.height) {
                None => Ok(image_bytes),
                Some((cx, cy, cw, ch)) => {
                    let ghost bw = buf.width as nat;
                    let ghost bh = buf.height as nat;
                    let ghost pre = buf.data@;
                    let patch = crop(&buf, cx, cy, cw, ch);
                    let blurred = blur_rgba(&patch);
                    overlay_patch(&mut buf, &blurred, cx, cy, ShapeMode::Rectangle);
                    proof {
                        assert(buf.data@ == spec_blur_one(
                            pre,
                            bw as int,
                            bh as int,
                            rect,
                            ShapeMode::Rectangle,
                        ));
                    }
                    match encode_png(&buf) {
                        Ok(out) => {
                            proof {
                                assert(pre.len() == 4 * bw * bh && clamp_nonempty(
                                    rect,
                                    bw as int,
                                    bh as int,
                                ) && out@ == png_of(
                                    bw,
                                    bh,
                                    spec_blur_one(pre, bw as int, bh as int, rect, ShapeMode::Rectangle),
                                ));
                            }
                            Ok(out)
                        },
                        Err(e) => Err(FaceBlurError::Encode(e)),
                    }
                },
            }
        },
    }
}

/// Clamping no-op: a rectangle with nothing left inside the image bounds
/// changes no pixel.
pub proof fn lemma_blur_outside_noop(data: Seq<u8>, bw: int, bh: int, r: BlurRect, mode: ShapeMode)
    requires
        !clamp_nonempty(r, bw, bh),
    ensures
        spec_blur_one(data, bw, bh, r, mode) == data,
{
}

/// Rectangle blur is total over the clamped region: in `Rectangle` mode
/// every pixel inside the clamped rectangle takes the corresponding pixel
/// of the blurred copy of that region, and every byte outside it is
/// unchanged.
pub proof fn lemma_rect_blur_covers(data: Seq<u8>, bw: int, bh: int, r: BlurRect, gx: int, gy: int, c: int)
    requires
        0 < bw,
        data.len() == 4 * (bw * bh),
        clamp_nonempty(r, bw, bh),
        0 <= gx < bw,
        0 <= gy < bh,
        0 <= c < 4,
    ensures
        clamp_x(r) <= gx < clamp_x(r) + clamp_w(r, bw) && clamp_y(r) <= gy < clamp_y(r) + clamp_h(
            r,
            bh,
        ) ==> spec_blur_one(data, bw, bh, r, ShapeMode::Rectangle)[4 * (gy * bw + gx) + c]
            == blur_of(
            clamp_w(r, bw) as nat,
            clamp_h(r, bh) as nat,
            spec_crop(data, bw, clamp_x(r), clamp_y(r), clamp_w(r, bw), clamp_h(r, bh)),
        )[4 * ((gy - clamp_y(r)) * clamp_w(r, bw) + (gx - clamp_x(r))) + c],
        !(clamp_x(r) <= gx < clamp_x(r) + clamp_w(r, bw) && clamp_y(r) <= gy < clamp_y(r)
            + clamp_h(r, bh)) ==> spec_blur_one(data, bw, bh, r, ShapeMode::Rectangle)[4 * (gy * bw
            + gx) + c] == data[4 * (gy * bw + gx) + c],
{
    lemma_pixel_index(gy, gx, c, bw, bh);
}

/// Ellipse blur is bounded: in `Ellipse` mode no byte of a pixel outside
/// the inscribed ellipse of the clamped region is modified.
pub proof fn lemma_ellipse_blur_bounded(
    data: Seq<u8>,
    bw: int,
    bh: int,
    r: BlurRect,
    gx: int,
    gy: int,
    c: int,
)
    requires
        0 < bw,
        data.len() == 4 * (bw * bh),
        clamp_nonempty(r, bw, bh),
        0 <= gx < bw,
        0 <= gy < bh,
        0 <= c < 4,
        !(clamp_x(r) <= gx < clamp_x(r) + clamp_w(r, bw) && clamp_y(r) <= gy < clamp_y(r)
            + clamp_h(r, bh) && in_ellipse(
            gx - clamp_x(r),
            gy - clamp_y(r),
            clamp_w(r, bw),
            clamp_h(r, bh),
        )),
    ensures
        spec_blur_one(data, bw, bh, r, ShapeMode::Ellipse)[4 * (gy * bw + gx) + c] == data[4 * (gy
            * bw + gx) + c],
{
    lemma_pixel_index(gy, gx, c, bw, bh);
}

} // verus!
