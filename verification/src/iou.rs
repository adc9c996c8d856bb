//! Detections in fixed-point pixel coordinates and their intersection-over-
//! union overlap, computed exactly as an integer rational.
use vstd::prelude::*;

verus! {

/// Coordinates of a detection are kept within this bound so that the exact
/// integer areas and threshold comparisons below fit in `i128`.
pub const COORD_BOUND: i64 = 0x100_0000_0000;

/// A decoded detection: an axis-aligned box in 1/256-pixel coordinates
/// plus a confidence score in Q16 fixed point (65536 means 1.0).
#[derive(Clone, Copy, Debug, PartialEq, Eq, Structural)]
pub struct Face {
    pub x1: i64,
    pub y1: i64,
    pub x2: i64,
    pub y2: i64,
    pub score: i64,
}

/// Bounds under which the IoU arithmetic is exact.
pub open spec fn face_wf(f: Face) -> bool {
    &&& -COORD_BOUND <= f.x1 <= COORD_BOUND
    &&& -COORD_BOUND <= f.y1 <= COORD_BOUND
    &&& -COORD_BOUND <= f.x2 <= COORD_BOUND
    &&& -COORD_BOUND <= f.y2 <= COORD_BOUND
}

/// Signed area of a box; negative when the box is inverted.
pub open spec fn spec_area(f: Face) -> int {
    (f.x2 - f.x1) * (f.y2 - f.y1)
}

pub open spec fn max0(v: int) -> int {
    if v >= 0 {
        v
    } else {
        0
    }
}

pub open spec fn min2(a: int, b: int) -> int {
    if a <= b {
        a
    } else {
        b
    }
}

pub open spec fn max2(a: int, b: int) -> int {
    if a >= b {
        a
    } else {
        b
    }
}

/// Intersection area of two boxes, with the width and height of the
/// intersection clamped to zero: never negative.
pub open spec fn spec_inter(a: Face, b: Face) -> int {
    max0(min2(a.x2 as int, b.x2 as int) - max2(a.x1 as int, b.x1 as int)) * max0(
        min2(a.y2 as int, b.y2 as int) - max2(a.y1 as int, b.y1 as int),
    )
}

/// Union area of two boxes: the sum of their signed areas minus the
/// intersection. The IoU of `a` and `b` is `spec_inter / spec_union`.
pub open spec fn spec_union(a: Face, b: Face) -> int {
    spec_area(a) + spec_area(b) - spec_inter(a, b)
}

/// Whether IoU(a, b) exceeds the rational threshold `tn / td`. A degenerate
/// pair whose union area is not positive has IoU defined as zero, so it
/// never exceeds a non-negative threshold.
pub open spec fn spec_iou_exceeds(a: Face, b: Face, tn: i64, td: i64) -> bool {
    spec_union(a, b) > 0 && spec_inter(a, b) * td > tn * spec_union(a, b)
}

/// A product of two factors bounded by twice the coordinate bound stays
/// well inside the `i128` range.
proof fn lemma_product_bound(a: int, b: int)
    requires
        -2 * COORD_BOUND <= a <= 2 * COORD_BOUND,
        -2 * COORD_BOUND <= b <= 2 * COORD_BOUND,
    ensures
        -0x40000_0000_0000_0000_0000_0000 <= a * b <= 0x40000_0000_0000_0000_0000_0000,
        0 <= a && 0 <= b ==> 0 <= a * b,
{
    assert(-0x40000_0000_0000_0000_0000_0000 <= a * b <= 0x40000_0000_0000_0000_0000_0000
        && (0 <= a && 0 <= b ==> 0 <= a * b)) by (nonlinear_arith)
        requires
            -0x200_0000_0000 <= a <= 0x200_0000_0000,
            -0x200_0000_0000 <= b <= 0x200_0000_0000,
    ;
}

/// A value bounded by the largest union area, times a threshold part
/// bounded by 2^20, stays well inside the `i128` range.
proof fn lemma_threshold_product_bound(v: int, t: int)
    requires
        -0x400000_0000_0000_0000_0000_0000 <= v <= 0x400000_0000_0000_0000_0000_0000,
        0 <= t <= 0x10_0000,
    ensures
        -0x4000_0000000_0000000_0000000_0000000 <= v * t
            <= 0x4000_0000000_0000000_0000000_0000000,
{
    assert(-0x4000_0000000_0000000_0000000_0000000 <= v * t
        <= 0x4000_0000000_0000000_0000000_0000000) by (nonlinear_arith)
        requires
            -0x400000_0000_0000_0000_0000_0000 <= v <= 0x400000_0000_0000_0000_0000_0000,
            0 <= t <= 0x10_0000,
    ;
}

/// Intersection and union areas of two boxes, as the exact pair
/// `(intersection, union)`; their ratio is the IoU.
pub fn calculate_iou(a: &Face, b: &Face) -> (r: (i128, i128))
    requires
        face_wf(*a),
        face_wf(*b),
    ensures
        r.0 == spec_inter(*a, *b),
        r.1 == spec_union(*a, *b),
        0 <= r.0 <= 0x40000_0000_0000_0000_0000_0000,
        -0x400000_0000_0000_0000_0000_0000 <= r.1 <= 0x400000_0000_0000_0000_0000_0000,
{
    let ix1: i128 = if a.x1 >= b.x1 {
        a.x1 as i128
    } else {
        b.x1 as i128
    };
    let iy1: i128 = if a.y1 >= b.y1 {
        a.y1 as i128
    } else {
        b.y1 as i128
    };
    let ix2: i128 = if a.x2 <= b.x2 {
        a.x2 as i128
    } else {
        b.x2 as i128
    };
    let iy2: i128 = if a.y2 <= b.y2 {
        a.y2 as i128
    } else {
        b.y2 as i128
    };
    let iw: i128 = if ix2 - ix1 >= 0 {
        ix2 - ix1
    } else {
        0
    };
    let ih: i128 = if iy2 - iy1 >= 0 {
        iy2 - iy1
    } else {
        0
    };
    proof {
        lemma_product_bound(iw as int, ih as int);
        lemma_product_bound(a.x2 - a.x1, a.y2 - a.y1);
        lemma_product_bound(b.x2 - b.x1, b.y2 - b.y1);
    }
    let inter: i128 = iw * ih;
    let area_a: i128 = (a.x2 as i128 - a.x1 as i128) * (a.y2 as i128 - a.y1 as i128);
    let area_b: i128 = (b.x2 as i128 - b.x1 as i128) * (b.y2 as i128 - b.y1 as i128);
    (inter, area_a + area_b - inter)
}

/// Whether IoU(a, b) exceeds the threshold `tn / td`.
pub fn iou_exceeds(a: &Face, b: &Face, tn: i64, td: i64) -> (r: bool)
    requires
        face_wf(*a),
        face_wf(*b),
        0 <= tn <= td,
        0 < td <= 0x10_0000,
    ensures
        r == spec_iou_exceeds(*a, *b, tn, td),
{
    let (inter, uni) = calculate_iou(a, b);
    proof {
        lemma_threshold_product_bound(inter as int, td as int);
        lemma_threshold_product_bound(uni as int, tn as int);
    }
    uni > 0 && inter * (td as i128) > uni * (tn as i128)
}

/// IoU of a non-degenerate box with itself is exactly one: its
/// intersection and union areas coincide and are positive.
pub proof fn lemma_iou_identical(a: Face)
    requires
        a.x1 < a.x2,
        a.y1 < a.y2,
    ensures
        spec_inter(a, a) == spec_union(a, a),
        spec_union(a, a) > 0,
{
    assert(spec_inter(a, a) == (a.x2 - a.x1) * (a.y2 - a.y1));
    assert((a.x2 - a.x1) * (a.y2 - a.y1) > 0) by (nonlinear_arith)
        requires
            a.x1 < a.x2,
            a.y1 < a.y2,
    ;
}

/// IoU of two boxes that do not overlap is exactly zero: the intersection
/// area is zero.
pub proof fn lemma_iou_disjoint(a: Face, b: Face)
    requires
        a.x2 <= b.x1 || b.x2 <= a.x1 || a.y2 <= b.y1 || b.y2 <= a.y1,
    ensures
        spec_inter(a, b) == 0,
{
}

/// IoU is symmetric: intersection and union do not depend on the order of
/// the two boxes.
pub proof fn lemma_iou_symmetric(a: Face, b: Face)
    ensures
        spec_inter(a, b) == spec_inter(b, a),
        spec_union(a, b) == spec_union(b, a),
{
}

/// Exceeding a larger threshold implies exceeding a smaller one: if
/// `tn1 / td1 <= tn2 / td2` then any overlap above `tn2 / td2` is also
/// above `tn1 / td1`.
pub proof fn lemma_iou_exceeds_monotone(a: Face, b: Face, tn1: i64, td1: i64, tn2: i64, td2: i64)
    requires
        0 <= tn1,
        0 < td1,
        0 <= tn2,
        0 < td2,
        tn1 * td2 <= tn2 * td1,
        spec_iou_exceeds(a, b, tn2, td2),
    ensures
        spec_iou_exceeds(a, b, tn1, td1),
{
    let inter = spec_inter(a, b);
    let uni = spec_union(a, b);
    assert(inter * td1 > tn1 * uni) by (nonlinear_arith)
        requires
            uni > 0,
            inter * td2 > tn2 * uni,
            tn1 * td2 <= tn2 * td1,
            0 < td1,
            0 < td2,
            0 <= tn1,
            0 <= tn2,
    ;
}

} // verus!
