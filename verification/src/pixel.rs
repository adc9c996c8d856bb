//! The RGBA pixel buffer the compositor works on, and the per-pixel
//! operations of the blur compositor: cropping a region out and writing a
//! patch back, either over the whole rectangle or only inside the
//! inscribed ellipse.
use vstd::prelude::*;

use vstd::arithmetic::div_mod::{
    lemma_fundamental_div_mod, lemma_fundamental_div_mod_converse_div,
    lemma_fundamental_div_mod_converse_mod,
};

use crate::rect::ShapeMode;

verus! {

/// An RGBA image: `data` holds `4 * width * height` bytes, row-major,
/// four channels per pixel.
pub struct PixelBuf {
    pub width: u32,
    pub height: u32,
    pub data: Vec<u8>,
}

/// The buffer really holds one four-byte pixel per grid cell.
pub open spec fn buf_wf(b: PixelBuf) -> bool {
    b.data@.len() == 4 * b.width * b.height
}

/// The channel a flat byte position belongs to.
pub open spec fn chan_of(k: int) -> int {
    k % 4
}

/// The column of a flat byte position in a `bw` pixels wide image.
pub open spec fn col_of(k: int, bw: int) -> int {
    (k / 4) % bw
}

/// The row of a flat byte position in a `bw` pixels wide image.
pub open spec fn row_of(k: int, bw: int) -> int {
    (k / 4) / bw
}

/// From pixel coordinates to the flat byte position and back: the flat
/// index of channel `c` of pixel `(col, row)` decomposes to exactly those
/// coordinates.
pub proof fn lemma_pixel_index(row: int, col: int, c: int, bw: int, bh: int)
    requires
        0 < bw,
        0 <= row,
        0 <= col < bw,
        0 <= c < 4,
    ensures
        row_of(4 * (row * bw + col) + c, bw) == row,
        col_of(4 * (row * bw + col) + c, bw) == col,
        chan_of(4 * (row * bw + col) + c) == c,
        0 <= 4 * (row * bw + col) + c,
        row < bh ==> 4 * (row * bw + col) + c < 4 * (bw * bh),
{
    let pk = row * bw + col;
    let k = 4 * pk + c;
    assert(0 <= pk && (row < bh ==> pk < bw * bh)) by (nonlinear_arith)
        requires
            0 <= row,
            0 <= col < bw,
            pk == row * bw + col,
    ;
    lemma_fundamental_div_mod_converse_div(k, 4, pk, c);
    lemma_fundamental_div_mod_converse_mod(k, 4, pk, c);
    lemma_fundamental_div_mod_converse_div(pk, bw, row, col);
    lemma_fundamental_div_mod_converse_mod(pk, bw, row, col);
}

/// Every flat byte position of a `bw` by `bh` buffer decomposes into
/// channel, column and row, and is rebuilt from them.
pub proof fn lemma_pixel_coords(k: int, bw: int, bh: int)
    requires
        0 < bw,
        0 <= k < 4 * (bw * bh),
    ensures
        0 <= chan_of(k) < 4,
        0 <= col_of(k, bw) < bw,
        0 <= row_of(k, bw) < bh,
        k == 4 * (row_of(k, bw) * bw + col_of(k, bw)) + chan_of(k),
{
    let pk = k / 4;
    lemma_fundamental_div_mod(k, 4);
    lemma_fundamental_div_mod(pk, bw);
    assert(0 <= pk < bw * bh) by (nonlinear_arith)
        requires
            0 <= k < 4 * (bw * bh),
            k == 4 * pk + k % 4,
            0 <= k % 4 < 4,
    ;
    let row = pk / bw;
    let col = pk % bw;
    assert(0 <= row < bh) by (nonlinear_arith)
        requires
            0 <= pk < bw * bh,
            0 < bw,
            pk == bw * row + col,
            0 <= col < bw,
    ;
}

/// Whether local pixel `(px, py)` of a `w` by `h` region lies inside the
/// ellipse inscribed in the region: with center `(w/2, h/2)` and semi-axes
/// `w/2` and `h/2`, the normalized radius is at most one. Cleared of
/// fractions: `(2*px - w)^2 * h^2 + (2*py - h)^2 * w^2 <= w^2 * h^2`.
pub open spec fn in_ellipse(px: int, py: int, w: int, h: int) -> bool {
    (2 * px - w) * (2 * px - w) * (h * h) + (2 * py - h) * (2 * py - h) * (w * w) <= (w * w) * (h
        * h)
}

/// Whether the mask of `mode` covers local pixel `(px, py)` of a `w` by
/// `h` region: everywhere for a rectangle, inside the inscribed ellipse
/// for an ellipse.
pub open spec fn mask_covers(mode: ShapeMode, px: int, py: int, w: int, h: int) -> bool {
    match mode {
        ShapeMode::Rectangle => true,
        ShapeMode::Ellipse => in_ellipse(px, py, w, h),
    }
}

/// The products of the ellipse test stay well inside `i128` for
/// dimensions below 2^31: with `px <= w` the term `2*px - w` has
/// magnitude at most `w`.
proof fn lemma_ellipse_bounds(px: int, py: int, w: int, h: int)
    requires
        0 <= px <= w,
        0 <= py <= h,
        0 < w < 0x8000_0000,
        0 < h < 0x8000_0000,
    ensures
        -0x8000_0000 <= 2 * px - w <= 0x8000_0000,
        -0x8000_0000 <= 2 * py - h <= 0x8000_0000,
        0 <= (2 * px - w) * (2 * px - w) <= 0x4000_0000_0000_0000,
        0 <= (2 * py - h) * (2 * py - h) <= 0x4000_0000_0000_0000,
        0 <= w * w <= 0x4000_0000_0000_0000,
        0 <= h * h <= 0x4000_0000_0000_0000,
        0 <= (2 * px - w) * (2 * px - w) * (h * h)
            <= 0x1000_0000_0000_0000_0000_0000_0000_0000,
        0 <= (2 * py - h) * (2 * py - h) * (w * w)
            <= 0x1000_0000_0000_0000_0000_0000_0000_0000,
        0 <= (w * w) * (h * h) <= 0x1000_0000_0000_0000_0000_0000_0000_0000,
{
    assert((-0x8000_0000 <= 2 * px - w <= 0x8000_0000) && (-0x8000_0000 <= 2 * py - h
        <= 0x8000_0000) && (0 <= (2 * px - w) * (2 * px - w) <= 0x4000_0000_0000_0000) && (0 <= (2
        * py - h) * (2 * py - h) <= 0x4000_0000_0000_0000) && (0 <= w * w <= 0x4000_0000_0000_0000)
        && (0 <= h * h <= 0x4000_0000_0000_0000) && (0 <= (2 * px - w) * (2 * px - w) * (h * h)
        <= 0x1000_0000_0000_0000_0000_0000_0000_0000) && (0 <= (2 * py - h) * (2 * py - h) * (w * w)
        <= 0x1000_0000_0000_0000_0000_0000_0000_0000) && (0 <= (w * w) * (h * h)
        <= 0x1000_0000_0000_0000_0000_0000_0000_0000)) by (nonlinear_arith)
        requires
            0 <= px <= w,
            0 <= py <= h,
            0 < w < 0x8000_0000,
            0 < h < 0x8000_0000,
    ;
}

/// The ellipse test, computed exactly.
pub fn in_ellipse_check(px: u32, py: u32, w: u32, h: u32) -> (r: bool)
    requires
        px <= w,
        py <= h,
        0 < w < 0x8000_0000,
        0 < h < 0x8000_0000,
    ensures
        r == in_ellipse(px as int, py as int, w as int, h as int),
{
    proof {
        lemma_ellipse_bounds(px as int, py as int, w as int, h as int);
    }
    let ex: i128 = 2 * (px as i128) - (w as i128);
    let ey: i128 = 2 * (py as i128) - (h as i128);
    let ww: i128 = (w as i128) * (w as i128);
    let hh: i128 = (h as i128) * (h as i128);
    ex * ex * hh + ey * ey * ww <= ww * hh
}

/// The corner pixels of the region lie outside the inscribed ellipse, so
/// the ellipse mask never touches them. The top-left corner is always
/// outside; the others are outside except in very small regions, where
/// the formula itself puts the far corner inside the ellipse (a region
/// two pixels wide makes the right corners the center column, and for a
/// region as small as four by four the normalized corner radius drops
/// below one).
pub proof fn lemma_corners_outside_ellipse(w: int, h: int)
    requires
        0 < w,
        0 < h,
    ensures
        !in_ellipse(0, 0, w, h),
        w != 2 ==> !in_ellipse(w - 1, 0, w, h),
        h != 2 ==> !in_ellipse(0, h - 1, w, h),
        7 <= w && 7 <= h ==> !in_ellipse(w - 1, h - 1, w, h),
{
    assert((0 - w) * (0 - w) * (h * h) + (0 - h) * (0 - h) * (w * w) > (w * w) * (h * h))
        by (nonlinear_arith)
        requires
            0 < w,
            0 < h,
    ;
    if w != 2 {
        assert((2 * (w - 1) - w) * (2 * (w - 1) - w) * (h * h) + (0 - h) * (0 - h) * (w * w) > (w
            * w) * (h * h)) by (nonlinear_arith)
            requires
                0 < w,
                0 < h,
                w != 2,
        ;
    }
    if h != 2 {
        assert((0 - w) * (0 - w) * (h * h) + (2 * (h - 1) - h) * (2 * (h - 1) - h) * (w * w) > (w
            * w) * (h * h)) by (nonlinear_arith)
            requires
                0 < w,
                0 < h,
                h != 2,
        ;
    }
    if 7 <= w && 7 <= h {
        assert(49 * ((w - 2) * (w - 2)) >= 25 * (w * w) && 49 * ((h - 2) * (h - 2)) >= 25 * (h
            * h)) by (nonlinear_arith)
            requires
                7 <= w,
                7 <= h,
        ;
        assert((w - 2) * (w - 2) * (h * h) + (h - 2) * (h - 2) * (w * w) > (w * w) * (h * h))
            by (nonlinear_arith)
            requires
                49 * ((w - 2) * (w - 2)) >= 25 * (w * w),
                49 * ((h - 2) * (h - 2)) >= 25 * (h * h),
                7 <= w,
                7 <= h,
        ;
        assert(2 * (w - 1) - w == w - 2 && 2 * (h - 1) - h == h - 2);
    }
}

/// The bytes of the sub-region `[x, x+w) x [y, y+h)` of a `bw` pixels
/// wide image, row-major RGBA.
pub open spec fn spec_crop(data: Seq<u8>, bw: int, x: int, y: int, w: int, h: int) -> Seq<u8> {
    Seq::new(
        (4 * (w * h)) as nat,
        |k: int|
            data[4 * ((y + row_of(k, w)) * bw + (x + col_of(k, w))) + chan_of(k)],
    )
}

/// The image with the patch written over the region at `(x, y)` wherever
/// the mask of `mode` covers the pixel; every other byte is unchanged.
pub open spec fn spec_composite(
    data: Seq<u8>,
    bw: int,
    patch: Seq<u8>,
    x: int,
    y: int,
    w: int,
    h: int,
    mode: ShapeMode,
) -> Seq<u8> {
    Seq::new(
        data.len(),
        |k: int|
            {
                let col = col_of(k, bw);
                let row = row_of(k, bw);
                if x <= col < x + w && y <= row < y + h && mask_covers(
                    mode,
                    col - x,
                    row - y,
                    w,
                    h,
                ) {
                    patch[4 * ((row - y) * w + (col - x)) + chan_of(k)]
                } else {
                    data[k]
                }
            },
    )
}

/// The composite after the first pixels of the patch region have been
/// written: all rows before `py`, and the first `px` pixels of row `py`
/// (in local patch coordinates).
pub open spec fn spec_composite_partial(
    data: Seq<u8>,
    bw: int,
    patch: Seq<u8>,
    x: int,
    y: int,
    w: int,
    h: int,
    mode: ShapeMode,
    py: int,
    px: int,
) -> Seq<u8> {
    Seq::new(
        data.len(),
        |k: int|
            {
                let col = col_of(k, bw);
                let row = row_of(k, bw);
                if x <= col < x + w && y <= row < y + h && (row - y < py || (row - y == py && col
                    - x < px)) && mask_covers(mode, col - x, row - y, w, h) {
                    patch[4 * ((row - y) * w + (col - x)) + chan_of(k)]
                } else {
                    data[k]
                }
            },
    )
}

/// Writes the patch over the region of `img` at `(x, y)`: every covered
/// pixel takes the patch value, every other byte of the image is left
/// untouched. For `ShapeMode::Rectangle` the whole region is covered; for
/// `ShapeMode::Ellipse` only pixels inside the inscribed ellipse.
pub fn overlay_patch(img: &mut PixelBuf, patch: &PixelBuf, x: u32, y: u32, mode: ShapeMode)
    requires
        buf_wf(*old(img)),
        buf_wf(*patch),
        0 < patch.width < 0x8000_0000,
        0 < patch.height < 0x8000_0000,
        x + patch.width <= old(img).width,
        y + patch.height <= old(img).height,
    ensures
        buf_wf(*final(img)),
        final(img).width == old(img).width,
        final(img).height == old(img).height,
        final(img).data@ == spec_composite(
            old(img).data@,
            old(img).width as int,
            patch.data@,
            x as int,
            y as int,
            patch.width as int,
            patch.height as int,
            mode,
        ),
{
    let w = patch.width;
    let h = patch.height;
    let bw = img.width;
    let bh = img.height;
    let ghost data0 = img.data@;
    let ghost gx = x as int;
    let ghost gy = y as int;
    let ghost gw = w as int;
    let ghost gh = h as int;
    let mut py: u32 = 0;
    proof {
        assert(img.data@ =~= spec_composite_partial(
            data0,
            bw as int,
            patch.data@,
            gx,
            gy,
            gw,
            gh,
            mode,
            0,
            0,
        ));
    }
    while py < h
        invariant
            py <= h,
            0 < w < 0x8000_0000,
            0 < h < 0x8000_0000,
            w == patch.width,
            h == patch.height,
            buf_wf(*patch),
            bw == img.width,
            bh == img.height,
            bw == old(img).width,
            bh == old(img).height,
            x + w <= bw,
            y + h <= bh,
            gx == x as int,
            gy == y as int,
            gw == w as int,
            gh == h as int,
            data0 == old(img).data@,
            data0.len() == 4 * bw * bh,
            img.data@.len() == data0.len(),
            img.data@ == spec_composite_partial(
                data0,
                bw as int,
                patch.data@,
                gx,
                gy,
                gw,
                gh,
                mode,
                py as int,
                0,
            ),
        decreases h - py,
    {
        let mut px: u32 = 0;
        while px < w
            invariant
                px <= w,
                py < h,
                0 < w < 0x8000_0000,
                0 < h < 0x8000_0000,
                w == patch.width,
                h == patch.height,
                buf_wf(*patch),
                bw == img.width,
                bh == img.height,
                bw == old(img).width,
                bh == old(img).height,
                x + w <= bw,
                y + h <= bh,
                gx == x as int,
                gy == y as int,
                gw == w as int,
                gh == h as int,
                data0 == old(img).data@,
                data0.len() == 4 * bw * bh,
                img.data@.len() == data0.len(),
                img.data@ == spec_composite_partial(
                    data0,
                    bw as int,
                    patch.data@,
                    gx,
                    gy,
                    gw,
                    gh,
                    mode,
                    py as int,
                    px as int,
                ),
            decreases w - px,
        {
            proof {
                assert(data0.len() == 4 * (bw * bh) && patch.data@.len() == 4 * (w * h))
                    by (nonlinear_arith)
                    requires
                        data0.len() == 4 * bw * bh,
                        patch.data@.len() == 4 * patch.width * patch.height,
                        w == patch.width,
                        h == patch.height,
                ;
            }
            let covered = match mode {
                ShapeMode::Rectangle => true,
                ShapeMode::Ellipse => in_ellipse_check(px, py, w, h),
            };
            let ghost pre = img.data@;
            if covered {
                proof {
                    assert((py * w + px) * 4 + 4 <= 4 * (w * h) && ((y + py) * bw + (x + px)) * 4
                        + 4 <= 4 * (bw * bh)) by (nonlinear_arith)
                        requires
                            0 <= px < w,
                            0 <= py < h,
                            0 < bw,
                            x + w <= bw,
                            y + h <= bh,
                    ;
                    assert(data0.len() == 4 * (bw * bh) && patch.data@.len() == 4 * (w * h))
                        by (nonlinear_arith)
                        requires
                            data0.len() == 4 * bw * bh,
                            patch.data@.len() == 4 * patch.width * patch.height,
                            w == patch.width,
                            h == patch.height,
                    ;
                }
                let dlen: usize = img.data.len();
                let plen: usize = patch.data.len();
                let base: usize = 4 * ((y as usize + py as usize) * (bw as usize) + (x as usize
                    + px as usize));
                let pbase: usize = 4 * ((py as usize) * (w as usize) + (px as usize));
                let v0 = patch.data[pbase];
                let v1 = patch.data[pbase + 1];
                let v2 = patch.data[pbase + 2];
                let v3 = patch.data[pbase + 3];
                img.data.set(base, v0);
                img.data.set(base + 1, v1);
                img.data.set(base + 2, v2);
                img.data.set(base + 3, v3);
                proof {
                    let bwi = bw as int;
                    let next = spec_composite_partial(
                        data0,
                        bwi,
                        patch.data@,
                        gx,
                        gy,
                        gw,
                        gh,
                        mode,
                        py as int,
                        px + 1 as int,
                    );
                    assert forall|k: int| 0 <= k < img.data@.len() implies img.data@[k] == next[k]
                        by {
                        lemma_pixel_coords(k, bwi, bh as int);
                        lemma_pixel_index(gy + py, gx + px, chan_of(k), bwi, bh as int);
                        lemma_pixel_index(py as int, px as int, chan_of(k), gw, gh);
                        if row_of(k, bwi) == gy + py && col_of(k, bwi) == gx + px {
                            assert(k == 4 * ((gy + py) * bwi + (gx + px)) + chan_of(k));
                        } else {
                            assert(img.data@[k] == pre[k]);
                        }
                    }
                    assert(img.data@ =~= next);
                }
            } else {
                proof {
                    let bwi = bw as int;
                    let next = spec_composite_partial(
                        data0,
                        bwi,
                        patch.data@,
                        gx,
                        gy,
                        gw,
                        gh,
                        mode,
                        py as int,
                        px + 1 as int,
                    );
                    assert forall|k: int| 0 <= k < img.data@.len() implies img.data@[k] == next[k]
                        by {
                        lemma_pixel_coords(k, bwi, bh as int);
                    }
                    assert(img.data@ =~= next);
                }
            }
            px = px + 1;
        }
        py = py + 1;
        proof {
            assert(img.data@ =~= spec_composite_partial(
                data0,
                bw as int,
                patch.data@,
                gx,
                gy,
                gw,
                gh,
                mode,
                py as int,
                0,
            ));
        }
    }
    proof {
        assert(img.data@ =~= spec_composite(
            data0,
            bw as int,
            patch.data@,
            gx,
            gy,
            gw,
            gh,
            mode,
        ));
    }
}

/// Copies the `w` by `h` region of `buf` at `(x, y)` into a new buffer.
pub fn crop(buf: &PixelBuf, x: u32, y: u32, w: u32, h: u32) -> (r: PixelBuf)
    requires
        buf_wf(*buf),
        0 < w,
        0 < h,
        x + w <= buf.width,
        y + h <= buf.height,
    ensures
        r.width == w,
        r.height == h,
        buf_wf(r),
        r.data@ == spec_crop(buf.data@, buf.width as int, x as int, y as int, w as int, h as int),
{
    let ghost target = spec_crop(
        buf.data@,
        buf.width as int,
        x as int,
        y as int,
        w as int,
        h as int,
    );
    let bw = buf.width;
    let mut data: Vec<u8> = Vec::new();
    let mut py: u32 = 0;
    while py < h
        invariant
            py <= h,
            0 < w,
            0 < h,
            buf_wf(*buf),
            bw == buf.width,
            x + w <= buf.width,
            y + h <= buf.height,
            target == spec_crop(buf.data@, bw as int, x as int, y as int, w as int, h as int),
            data@.len() == 4 * (py * w),
            forall|k: int| 0 <= k < data@.len() ==> data@[k] == target[k],
        decreases h - py,
    {
        let mut px: u32 = 0;
        while px < w
            invariant
                px <= w,
                py < h,
                0 < w,
                0 < h,
                buf_wf(*buf),
                bw == buf.width,
                x + w <= buf.width,
                y + h <= buf.height,
                target == spec_crop(buf.data@, bw as int, x as int, y as int, w as int, h as int),
                data@.len() == 4 * (py * w + px),
                forall|k: int| 0 <= k < data@.len() ==> data@[k] == target[k],
            decreases w - px,
        {
            proof {
                assert(py * w + px < w * h && (py * w + px) * 4 + 4 <= 4 * (w * h)
                    && ((y + py) * bw + (x + px)) * 4 + 4 <= 4 * (bw * buf.height))
                    by (nonlinear_arith)
                    requires
                        0 <= px < w,
                        0 <= py < h,
                        0 < bw,
                        x + w <= bw,
                        y + h <= buf.height,
                ;
                assert(buf.data@.len() == 4 * (bw * buf.height)) by (nonlinear_arith)
                    requires
                        buf.data@.len() == 4 * bw * buf.height,
                ;
            }
            let dlen: usize = buf.data.len();
            let base: usize = 4 * ((y as usize + py as usize) * (bw as usize) + (x as usize
                + px as usize));
            let mut c: u32 = 0;
            while c < 4
                invariant
                    c <= 4,
                    px < w,
                    py < h,
                    0 < w,
                    0 < h,
                    buf_wf(*buf),
                    bw == buf.width,
                    x + w <= buf.width,
                    y + h <= buf.height,
                    target == spec_crop(
                        buf.data@,
                        bw as int,
                        x as int,
                        y as int,
                        w as int,
                        h as int,
                    ),
                    base == 4 * (((y + py) * bw) + (x + px)),
                    base + 4 <= buf.data@.len(),
                    data@.len() == 4 * (py * w + px) + c,
                    forall|k: int| 0 <= k < data@.len() ==> data@[k] == target[k],
                decreases 4 - c,
            {
                let v = buf.data[base + c as usize];
                data.push(v);
                proof {
                    let k = data@.len() - 1;
                    lemma_pixel_index(py as int, px as int, c as int, w as int, h as int);
                    assert(k == 4 * ((py as int) * w + px) + c);
                    assert(row_of(k, w as int) == py && col_of(k, w as int) == px && chan_of(k)
                        == c);
                    assert(data@[k] == target[k]);
                }
                c = c + 1;
            }
            px = px + 1;
            proof {
                assert(4 * ((py * w + px - 1) as int) + 4 == 4 * ((py * w) + px));
            }
        }
        py = py + 1;
        proof {
            assert(4 * (((py - 1) * w + w) as int) == 4 * (py * w)) by (nonlinear_arith);
        }
    }
    proof {
        assert(4 * ((h * w) as int) == 4 * (w * h) && 4 * ((w * h) as int) == 4 * (w as int) * (
        h as int)) by (nonlinear_arith);
        assert(data@ =~= target);
    }
    PixelBuf { width: w, height: h, data }
}

} // verus!
