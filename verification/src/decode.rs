//! Decoding of raw model outputs against the prior table: each prior and
//! its regression record give an absolute pixel-space box and a score, one
//! detection per prior whose score passes the threshold.
//!
//! The model's floating-point outputs enter as Q16 fixed-point integers
//! (65536 means 1.0). The regression record carries the center offsets and
//! the already-exponentiated size factors `exp(offset * size_variance)`,
//! so decoding here is exact integer arithmetic:
//! `cx = prior.cx + offset.cx * (1/10) * prior.w` and
//! `w = prior.w * factor`, scaled to pixels and truncated toward zero to
//! 1/256-pixel coordinates.
use vstd::prelude::*;

use vstd::arithmetic::div_mod::{
    lemma_div_is_ordered, lemma_div_multiples_vanish, lemma_div_nonincreasing,
    lemma_div_pos_is_pos,
};

use crate::iou::{face_wf, Face};
use crate::nms::faces_wf;
use crate::priors::{prior_wf, Prior};

verus! {

/// Q16 fixed point: this value means 1.0.
pub const FP_ONE: i64 = 65536;

/// Largest accepted magnitude of a center offset (64.0 in Q16).
pub const OFFSET_BOUND: i64 = 0x40_0000;

/// Largest accepted size factor (16.0 in Q16).
pub const FACTOR_BOUND: i64 = 0x10_0000;

/// Decoded coordinates stay within this bound (in 1/256-pixel units).
pub const DECODED_BOUND: i64 = 0x4000_0000;

/// Largest accepted source-image side (262144 pixels): the cap under
/// which the exact scaled numerators fit in `i64` and the decoded
/// coordinates stay within `DECODED_BOUND`.
pub const ORIG_BOUND: u32 = 0x4_0000;

/// One regression record of the model, for one prior: the confidence of
/// the positive class, the center offsets, and the size factors
/// `exp(w_offset * size_variance)` and `exp(h_offset * size_variance)`,
/// all in Q16 fixed point.
#[derive(Clone, Copy, Debug, PartialEq, Eq, Structural)]
pub struct RawDetection {
    pub score: i64,
    pub cx_offset: i64,
    pub cy_offset: i64,
    pub w_factor: i64,
    pub h_factor: i64,
}

/// The bounds under which decoding is exact: offsets of at most 64 and
/// non-negative size factors of at most 16.
pub open spec fn raw_wf(r: RawDetection) -> bool {
    &&& -OFFSET_BOUND <= r.cx_offset <= OFFSET_BOUND
    &&& -OFFSET_BOUND <= r.cy_offset <= OFFSET_BOUND
    &&& 0 <= r.w_factor <= FACTOR_BOUND
    &&& 0 <= r.h_factor <= FACTOR_BOUND
}

/// Every record of the sequence is within bounds.
pub open spec fn raws_wf(s: Seq<RawDetection>) -> bool {
    forall|i: int| 0 <= i < s.len() ==> raw_wf(#[trigger] s[i])
}

/// Integer division truncated toward zero, the rounding used to quantize
/// decoded coordinates.
pub open spec fn div_tz(n: int, d: int) -> int
    recommends
        d > 0,
{
    if n >= 0 {
        n / d
    } else {
        -((-n) / d)
    }
}

/// Truncating a magnitude bounded by `b` times the divisor stays within
/// `b`, and truncation never grows a non-negative value.
pub proof fn lemma_div_tz_bound(n: int, d: int, b: int)
    requires
        0 < d,
        0 <= b,
        -(b * d) <= n,
        n <= b * d,
    ensures
        -b <= div_tz(n, d) <= b,
{
    if n >= 0 {
        lemma_div_pos_is_pos(n, d);
        lemma_div_is_ordered(n, b * d, d);
        lemma_div_multiples_vanish(b, d);
        assert(b * d == d * b) by (nonlinear_arith);
    } else {
        assert(0 <= -n <= b * d);
        lemma_div_pos_is_pos(-n, d);
        lemma_div_is_ordered(-n, b * d, d);
        lemma_div_multiples_vanish(b, d);
        assert(b * d == d * b) by (nonlinear_arith);
    }
}

/// Integer division truncated toward zero.
pub fn div_trunc(n: i64, d: i64) -> (r: i64)
    requires
        0 < d,
        -0x4000_0000_0000_0000 < n < 0x4000_0000_0000_0000,
    ensures
        r == div_tz(n as int, d as int),
{
    if n >= 0 {
        proof {
            lemma_div_pos_is_pos(n as int, d as int);
            lemma_div_nonincreasing(n as int, d as int);
        }
        ((n as u64) / (d as u64)) as i64
    } else {
        proof {
            lemma_div_pos_is_pos(-n as int, d as int);
            lemma_div_nonincreasing(-n as int, d as int);
        }
        -(((-n) as u64 / (d as u64)) as i64)
    }
}

/// The box decoded from one prior and its regression record, in
/// 1/256-pixel coordinates of an `ow` by `oh` image. With
/// `center_variance = 1/10`, the exact rational forms of the decoding
/// formulas share the denominator `2 * iw * 10 * 65536` (horizontally),
/// and dividing the numerator by `5120 * iw` truncates to 1/256 pixels.
pub open spec fn spec_decode_one(
    p: Prior,
    r: RawDetection,
    iw: int,
    ih: int,
    ow: int,
    oh: int,
) -> Face {
    let ncx = 10 * FP_ONE * p.cx + r.cx_offset * p.w;
    let hw = 5 * p.w * r.w_factor;
    let ncy = 10 * FP_ONE * p.cy + r.cy_offset * p.h;
    let hh = 5 * p.h * r.h_factor;
    Face {
        x1: div_tz(ow * (ncx - hw), 5120 * iw) as i64,
        y1: div_tz(oh * (ncy - hh), 5120 * ih) as i64,
        x2: div_tz(ow * (ncx + hw), 5120 * iw) as i64,
        y2: div_tz(oh * (ncy + hh), 5120 * ih) as i64,
        score: r.score,
    }
}

/// The decoded detections: one per prior whose score strictly exceeds the
/// threshold, in prior order.
pub open spec fn spec_decode(
    ps: Seq<Prior>,
    rs: Seq<RawDetection>,
    iw: int,
    ih: int,
    ow: int,
    oh: int,
    thr: i64,
) -> Seq<Face>
    recommends
        ps.len() == rs.len(),
    decreases ps.len(),
{
    if ps.len() == 0 {
        Seq::empty()
    } else {
        spec_decode(ps.drop_last(), rs.drop_last(), iw, ih, ow, oh, thr) + if rs.last().score
            > thr {
            seq![spec_decode_one(ps.last(), rs.last(), iw, ih, ow, oh)]
        } else {
            Seq::empty()
        }
    }
}

/// The decoded coordinates are small: within `DECODED_BOUND`.
pub open spec fn face_small(f: Face) -> bool {
    &&& -DECODED_BOUND <= f.x1 <= DECODED_BOUND
    &&& -DECODED_BOUND <= f.y1 <= DECODED_BOUND
    &&& -DECODED_BOUND <= f.x2 <= DECODED_BOUND
    &&& -DECODED_BOUND <= f.y2 <= DECODED_BOUND
}

/// Bounds of every intermediate value of decoding one prior, so that the
/// exact arithmetic fits in `i64`.
proof fn lemma_decode_one_bounds(p: Prior, r: RawDetection, iw: int, ih: int, ow: int, oh: int)
    requires
        prior_wf(p, iw, ih),
        raw_wf(r),
        1 <= iw <= 4096,
        1 <= ih <= 4096,
        0 <= ow <= ORIG_BOUND,
        0 <= oh <= ORIG_BOUND,
    ensures
        -0x10_0000_0000 <= 10 * FP_ONE * p.cx + r.cx_offset * p.w <= 0x10_0000_0000,
        -0x10_0000_0000 <= 10 * FP_ONE * p.cy + r.cy_offset * p.h <= 0x10_0000_0000,
        0 <= 5 * p.w * r.w_factor <= 0x10_0000_0000,
        0 <= 5 * p.h * r.h_factor <= 0x10_0000_0000,
        -0x100_0000_0000_0000 <= ow * ((10 * FP_ONE * p.cx + r.cx_offset * p.w) - 5 * p.w
            * r.w_factor) <= 0x100_0000_0000_0000,
        -0x100_0000_0000_0000 <= ow * ((10 * FP_ONE * p.cx + r.cx_offset * p.w) + 5 * p.w
            * r.w_factor) <= 0x100_0000_0000_0000,
        -0x100_0000_0000_0000 <= oh * ((10 * FP_ONE * p.cy + r.cy_offset * p.h) - 5 * p.h
            * r.h_factor) <= 0x100_0000_0000_0000,
        -0x100_0000_0000_0000 <= oh * ((10 * FP_ONE * p.cy + r.cy_offset * p.h) + 5 * p.h
            * r.h_factor) <= 0x100_0000_0000_0000,
        face_small(spec_decode_one(p, r, iw, ih, ow, oh)),
        face_wf(spec_decode_one(p, r, iw, ih, ow, oh)),
{
    lemma_decode_axis_bounds(p.cx as int, p.w as int, r.cx_offset as int, r.w_factor as int, iw, ow);
    lemma_decode_axis_bounds(p.cy as int, p.h as int, r.cy_offset as int, r.h_factor as int, ih, oh);
    let ncx = 10 * FP_ONE * p.cx + r.cx_offset * p.w;
    let hw = 5 * p.w * r.w_factor;
    let ncy = 10 * FP_ONE * p.cy + r.cy_offset * p.h;
    let hh = 5 * p.h * r.h_factor;
    lemma_div_tz_bound(ow * (ncx - hw), 5120 * iw, DECODED_BOUND as int);
    lemma_div_tz_bound(ow * (ncx + hw), 5120 * iw, DECODED_BOUND as int);
    lemma_div_tz_bound(oh * (ncy - hh), 5120 * ih, DECODED_BOUND as int);
    lemma_div_tz_bound(oh * (ncy + hh), 5120 * ih, DECODED_BOUND as int);
}

/// The bounds of one axis: center numerator, half size, and the scaled
/// numerators, all against the denominator `5120 * dim`.
proof fn lemma_decode_axis_bounds(c: int, w: int, off: int, fac: int, dim: int, o: int)
    requires
        0 <= c <= 2 * dim,
        0 < w <= 2 * dim,
        -0x40_0000 <= off <= 0x40_0000,
        0 <= fac <= 0x10_0000,
        1 <= dim <= 4096,
        0 <= o <= ORIG_BOUND,
    ensures
        -0x10_0000_0000 <= 10 * 65536 * c + off * w <= 0x10_0000_0000,
        0 <= 5 * w * fac <= 0x10_0000_0000,
        -0x100_0000_0000_0000 <= o * ((10 * 65536 * c + off * w) - 5 * w * fac)
            <= 0x100_0000_0000_0000,
        -0x100_0000_0000_0000 <= o * ((10 * 65536 * c + off * w) + 5 * w * fac)
            <= 0x100_0000_0000_0000,
        -0x4000_0000 * (5120 * dim) <= o * ((10 * 65536 * c + off * w) - 5 * w * fac)
            <= 0x4000_0000 * (5120 * dim),
        -0x4000_0000 * (5120 * dim) <= o * ((10 * 65536 * c + off * w) + 5 * w * fac)
            <= 0x4000_0000 * (5120 * dim),
{
    assert(-0x10_0000_0000 <= 10 * 65536 * c + off * w <= 0x10_0000_0000 && 0 <= 5 * w * fac
        <= 0x10_0000_0000 && -dim * 0x134_0000 <= (10 * 65536 * c + off * w) - 5 * w * fac
        <= dim * 0x134_0000 && -dim * 0x134_0000 <= (10 * 65536 * c + off * w) + 5 * w * fac
        <= dim * 0x134_0000) by (nonlinear_arith)
        requires
            0 <= c <= 2 * dim,
            0 < w <= 2 * dim,
            -0x40_0000 <= off <= 0x40_0000,
            0 <= fac <= 0x10_0000,
            1 <= dim <= 4096,
    ;
    let e1 = (10 * 65536 * c + off * w) - 5 * w * fac;
    let e2 = (10 * 65536 * c + off * w) + 5 * w * fac;
    lemma_scale_bound(e1, dim, o);
    lemma_scale_bound(e2, dim, o);
}

/// Scaling a numerator bounded per image dimension by the original image
/// size keeps it within `i64` and within `DECODED_BOUND` denominators.
proof fn lemma_scale_bound(e: int, dim: int, o: int)
    requires
        -(dim * 0x134_0000) <= e,
        e <= dim * 0x134_0000,
        1 <= dim <= 4096,
        0 <= o <= 0x4_0000,
    ensures
        -0x100_0000_0000_0000 <= o * e <= 0x100_0000_0000_0000,
        -(0x4000_0000 * (5120 * dim)) <= o * e,
        o * e <= 0x4000_0000 * (5120 * dim),
{
    assert(-0x100_0000_0000_0000 <= o * e <= 0x100_0000_0000_0000 && -(0x4000_0000 * (5120 * dim))
        <= o * e && o * e <= 0x4000_0000 * (5120 * dim)) by (nonlinear_arith)
        requires
            -(dim * 0x134_0000) <= e,
            e <= dim * 0x134_0000,
            1 <= dim <= 4096,
            0 <= o <= 0x4_0000,
    ;
}

/// Decodes the model outputs against the prior table: one `Face` per
/// prior whose score strictly exceeds `score_threshold`, in prior order,
/// each box placed in 1/256-pixel coordinates of an `orig_w` by `orig_h`
/// image. Deterministic: the result is a function of the arguments alone.
pub fn decode_detections(
    priors: &Vec<Prior>,
    raw: &Vec<RawDetection>,
    input_w: u32,
    input_h: u32,
    orig_w: u32,
    orig_h: u32,
    score_threshold: i64,
) -> (r: Vec<Face>)
    requires
        priors@.len() == raw@.len(),
        1 <= input_w <= 4096,
        1 <= input_h <= 4096,
        orig_w <= ORIG_BOUND,
        orig_h <= ORIG_BOUND,
        forall|i: int|
            0 <= i < priors@.len() ==> prior_wf(#[trigger] priors@[i], input_w as int, input_h as int),
        raws_wf(raw@),
    ensures
        r@ == spec_decode(
            priors@,
            raw@,
            input_w as int,
            input_h as int,
            orig_w as int,
            orig_h as int,
            score_threshold,
        ),
        faces_wf(r@),
        forall|i: int| 0 <= i < r@.len() ==> face_small(#[trigger] r@[i]),
{
    let ghost iw = input_w as int;
    let ghost ih = input_h as int;
    let ghost ow = orig_w as int;
    let ghost oh = orig_h as int;
    let mut r: Vec<Face> = Vec::new();
    let n = priors.len();
    let mut i: usize = 0;
    proof {
        assert(priors@.subrange(0, 0) =~= Seq::<Prior>::empty());
        assert(raw@.subrange(0, 0) =~= Seq::<RawDetection>::empty());
    }
    while i < n
        invariant
            i <= n,
            n == priors@.len(),
            priors@.len() == raw@.len(),
            1 <= input_w <= 4096,
            1 <= input_h <= 4096,
            orig_w <= ORIG_BOUND,
            orig_h <= ORIG_BOUND,
            iw == input_w as int,
            ih == input_h as int,
            ow == orig_w as int,
            oh == orig_h as int,
            forall|t: int|
                0 <= t < priors@.len() ==> prior_wf(#[trigger] priors@[t], iw, ih),
            raws_wf(raw@),
            r@ == spec_decode(
                priors@.subrange(0, i as int),
                raw@.subrange(0, i as int),
                iw,
                ih,
                ow,
                oh,
                score_threshold,
            ),
            faces_wf(r@),
            forall|t: int| 0 <= t < r@.len() ==> face_small(#[trigger] r@[t]),
        decreases n - i,
    {
        let p = priors[i];
        let rd = raw[i];
        if rd.score > score_threshold {
            proof {
                lemma_decode_one_bounds(p, rd, iw, ih, ow, oh);
            }
            let ncx: i64 = 10 * FP_ONE * p.cx + rd.cx_offset * p.w;
            let hw: i64 = 5 * p.w * rd.w_factor;
            let ncy: i64 = 10 * FP_ONE * p.cy + rd.cy_offset * p.h;
            let hh: i64 = 5 * p.h * rd.h_factor;
            let dx: i64 = 5120 * (input_w as i64);
            let dy: i64 = 5120 * (input_h as i64);
            let ov: i64 = orig_w as i64;
            let oy: i64 = orig_h as i64;
            let x1 = div_trunc(ov * (ncx - hw), dx);
            let y1 = div_trunc(oy * (ncy - hh), dy);
            let x2 = div_trunc(ov * (ncx + hw), dx);
            let y2 = div_trunc(oy * (ncy + hh), dy);
            let f = Face { x1, y1, x2, y2, score: rd.score };
            proof {
                assert(f == spec_decode_one(p, rd, iw, ih, ow, oh));
            }
            r.push(f);
        }
        proof {
            let ppre = priors@.subrange(0, i as int);
            let pcur = priors@.subrange(0, i + 1 as int);
            let rpre = raw@.subrange(0, i as int);
            let rcur = raw@.subrange(0, i + 1 as int);
            assert(pcur.drop_last() =~= ppre);
            assert(rcur.drop_last() =~= rpre);
            assert(pcur.last() == priors@[i as int]);
            assert(rcur.last() == raw@[i as int]);
            if raw@[i as int].score > score_threshold {
                assert(r@ =~= spec_decode(ppre, rpre, iw, ih, ow, oh, score_threshold)
                    + seq![spec_decode_one(priors@[i as int], raw@[i as int], iw, ih, ow, oh)]);
            } else {
                assert(r@ =~= spec_decode(ppre, rpre, iw, ih, ow, oh, score_threshold)
                    + Seq::<Face>::empty());
            }
        }
        i = i + 1;
    }
    proof {
        assert(priors@.subrange(0, n as int) =~= priors@);
        assert(raw@.subrange(0, n as int) =~= raw@);
    }
    r
}

/// Decoding is a function of its inputs alone: two results of the same
/// priors, records and configuration are equal.
pub proof fn lemma_decode_deterministic(
    ps: Seq<Prior>,
    rs: Seq<RawDetection>,
    iw: int,
    ih: int,
    ow: int,
    oh: int,
    thr: i64,
    r1: Seq<Face>,
    r2: Seq<Face>,
)
    requires
        r1 == spec_decode(ps, rs, iw, ih, ow, oh, thr),
        r2 == spec_decode(ps, rs, iw, ih, ow, oh, thr),
    ensures
        r1 == r2,
{
}

} // verus!
