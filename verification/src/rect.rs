//! Integer pixel rectangles, the shape selector for blurring, and the
//! clamping of a rectangle to the bounds of an image.
use vstd::prelude::*;

verus! {

/// An axis-aligned rectangle in integer pixel coordinates: top-left corner
/// plus width and height. A rectangle with `w <= 0` or `h <= 0` denotes
/// "nothing to do" and is skipped wherever it is consumed.
#[derive(Clone, Copy, Debug, PartialEq, Eq, Structural)]
pub struct BlurRect {
    pub x: i32,
    pub y: i32,
    pub w: i32,
    pub h: i32,
}

/// How a blurred patch is written back over the source image: the whole
/// rectangle, or only the ellipse inscribed in it.
#[derive(Clone, Copy, Debug, PartialEq, Eq, Structural)]
pub enum ShapeMode {
    Rectangle,
    Ellipse,
}

/// Left edge of `r` clamped to the image: `max(r.x, 0)`.
pub open spec fn clamp_x(r: BlurRect) -> int {
    if r.x >= 0 {
        r.x as int
    } else {
        0
    }
}

/// Top edge of `r` clamped to the image: `max(r.y, 0)`.
pub open spec fn clamp_y(r: BlurRect) -> int {
    if r.y >= 0 {
        r.y as int
    } else {
        0
    }
}

/// Width of `r` clamped to an image `iw` pixels wide:
/// `min(r.w, iw - clamp_x(r))`.
pub open spec fn clamp_w(r: BlurRect, iw: int) -> int {
    if r.w <= iw - clamp_x(r) {
        r.w as int
    } else {
        iw - clamp_x(r)
    }
}

/// Height of `r` clamped to an image `ih` pixels tall:
/// `min(r.h, ih - clamp_y(r))`.
pub open spec fn clamp_h(r: BlurRect, ih: int) -> int {
    if r.h <= ih - clamp_y(r) {
        r.h as int
    } else {
        ih - clamp_y(r)
    }
}

/// Whether anything of `r` is left after clamping to an `iw` by `ih` image.
pub open spec fn clamp_nonempty(r: BlurRect, iw: int, ih: int) -> bool {
    clamp_w(r, iw) > 0 && clamp_h(r, ih) > 0
}

/// Clamps `r` to the bounds of an `iw` by `ih` image. Returns the clamped
/// `(x, y, w, h)`, or `None` when nothing of the rectangle remains, which
/// callers treat as "skip this rectangle".
pub fn clamp_rect(r: &BlurRect, iw: u32, ih: u32) -> (res: Option<(u32, u32, u32, u32)>)
    ensures
        res is Some <==> clamp_nonempty(*r, iw as int, ih as int),
        res matches Some(c) ==> {
            &&& c.0 == clamp_x(*r)
            &&& c.1 == clamp_y(*r)
            &&& c.2 == clamp_w(*r, iw as int)
            &&& c.3 == clamp_h(*r, ih as int)
            &&& c.0 + c.2 <= iw
            &&& c.1 + c.3 <= ih
        },
{
    let x: i64 = if r.x >= 0 {
        r.x as i64
    } else {
        0
    };
    let y: i64 = if r.y >= 0 {
        r.y as i64
    } else {
        0
    };
    let rem_w: i64 = iw as i64 - x;
    let rem_h: i64 = ih as i64 - y;
    let w: i64 = if (r.w as i64) <= rem_w {
        r.w as i64
    } else {
        rem_w
    };
    let h: i64 = if (r.h as i64) <= rem_h {
        r.h as i64
    } else {
        rem_h
    };
    if w > 0 && h > 0 {
        Some((x as u32, y as u32, w as u32, h as u32))
    } else {
        None
    }
}

} // verus!
