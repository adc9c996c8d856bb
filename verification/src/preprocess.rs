//! Preprocessing for the model: resample the image to the model's input
//! resolution and lay the pixels out channel-first, shifted by the
//! model's pixel mean of 127. The caller divides by 128 when building the
//! floating-point tensor; the layout and shift are exact here.
use vstd::prelude::*;

use vstd::arithmetic::div_mod::{
    lemma_fundamental_div_mod_converse_div, lemma_fundamental_div_mod_converse_mod,
};

use crate::codec::{resize_of, resize_rgba};
use crate::pixel::{buf_wf, PixelBuf};

verus! {

/// The channel-first (planar) tensor of an RGBA image, one `i16` per
/// value: position `c * (w * h) + py * w + px` holds channel `c` of pixel
/// `(px, py)`, shifted by 127. Only the first three channels (red, green,
/// blue) are emitted.
pub open spec fn spec_chw(data: Seq<u8>, w: int, h: int) -> Seq<i16> {
    Seq::new(
        (3 * (w * h)) as nat,
        |t: int|
            (data[4 * (((t % (w * h)) / w) * w + ((t % (w * h)) % w)) + t / (w * h)] - 127) as i16,
    )
}

/// Lays the first three channels of `buf` out channel-first, each value
/// shifted by the model's pixel mean of 127.
pub fn normalize_chw(buf: &PixelBuf) -> (r: Vec<i16>)
    requires
        buf_wf(*buf),
        0 < buf.width,
        0 < buf.height,
    ensures
        r@ == spec_chw(buf.data@, buf.width as int, buf.height as int),
        r@.len() == 3 * (buf.width * buf.height),
{
    let w = buf.width;
    let h = buf.height;
    let ghost target = spec_chw(buf.data@, w as int, h as int);
    let mut r: Vec<i16> = Vec::new();
    let mut c: u32 = 0;
    while c < 3
        invariant
            c <= 3,
            0 < w,
            0 < h,
            buf_wf(*buf),
            w == buf.width,
            h == buf.height,
            target == spec_chw(buf.data@, w as int, h as int),
            r@.len() == c * (w * h),
            forall|k: int| 0 <= k < r@.len() ==> r@[k] == target[k],
        decreases 3 - c,
    {
        let mut py: u32 = 0;
        while py < h
            invariant
                py <= h,
                c < 3,
                0 < w,
                0 < h,
                buf_wf(*buf),
                w == buf.width,
                h == buf.height,
                target == spec_chw(buf.data@, w as int, h as int),
                r@.len() == c * (w * h) + py * w,
                forall|k: int| 0 <= k < r@.len() ==> r@[k] == target[k],
            decreases h - py,
        {
            let mut px: u32 = 0;
            while px < w
                invariant
                    px <= w,
                    py < h,
                    c < 3,
                    0 < w,
                    0 < h,
                    buf_wf(*buf),
                    w == buf.width,
                    h == buf.height,
                    target == spec_chw(buf.data@, w as int, h as int),
                    r@.len() == c * (w * h) + py * w + px,
                    forall|k: int| 0 <= k < r@.len() ==> r@[k] == target[k],
                decreases w - px,
            {
                proof {
                    assert(py * w + px < w * h && (py * w + px) * 4 + 4 <= 4 * (w * h) && c * (w
                        * h) + py * w + px < 3 * (w * h) && buf.data@.len() == 4 * (w * h))
                        by (nonlinear_arith)
                        requires
                            0 <= px < w,
                            0 <= py < h,
                            0 <= c < 3,
                            buf.data@.len() == 4 * buf.width * buf.height,
                            w == buf.width,
                            h == buf.height,
                    ;
                }
                let dlen: usize = buf.data.len();
                let idx: usize = 4 * ((py as usize) * (w as usize) + (px as usize)) + (c as usize);
                let v: i16 = (buf.data[idx] as i16) - 127;
                r.push(v);
                proof {
                    let t = r@.len() - 1;
                    let wh = (w as int) * (h as int);
                    let rem = (py as int) * w + px;
                    assert(t == (c as int) * wh + rem);
                    lemma_fundamental_div_mod_converse_div(t, wh, c as int, rem);
                    lemma_fundamental_div_mod_converse_mod(t, wh, c as int, rem);
                    lemma_fundamental_div_mod_converse_div(rem, w as int, py as int, px as int);
                    lemma_fundamental_div_mod_converse_mod(rem, w as int, py as int, px as int);
                    assert(r@[t] == target[t]);
                }
                px = px + 1;
            }
            py = py + 1;
            proof {
                assert(c * (w * h) + (py - 1) * w + w == c * (w * h) + py * w) by (nonlinear_arith);
            }
        }
        c = c + 1;
        proof {
            assert((c - 1) * (w * h) + h * w == c * (w * h)) by (nonlinear_arith);
        }
    }
    proof {
        assert(r@ =~= target);
    }
    r
}

/// Resamples `img` to `tw` by `th` with the triangle filter and lays the
/// result out channel-first, shifted by the pixel mean of 127: exactly
/// the tensor values the model expects, times 128.
pub fn preprocess(img: &PixelBuf, tw: u32, th: u32) -> (r: Vec<i16>)
    requires
        buf_wf(*img),
        0 < tw,
        0 < th,
    ensures
        r@ == spec_chw(
            resize_of(img.width as nat, img.height as nat, img.data@, tw as nat, th as nat),
            tw as int,
            th as int,
        ),
        r@.len() == 3 * (tw * th),
{
    let resized = resize_rgba(img, tw, th);
    normalize_chw(&resized)
}

} // verus!
