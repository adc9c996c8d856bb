//! Intersection-over-union: identical, disjoint and symmetric cases.
use faceblur::iou::{calculate_iou, iou_exceeds, Face};

fn face(x1: i64, y1: i64, x2: i64, y2: i64, score: i64) -> Face {
    Face { x1, y1, x2, y2, score }
}

#[test]
fn identical_rectangles_have_iou_one() {
    let a = face(0, 0, 1000, 500, 100);
    let (inter, uni) = calculate_iou(&a, &a);
    assert_eq!(inter, 1000 * 500);
    assert_eq!(uni, 1000 * 500);
    assert_eq!(inter, uni);
}

#[test]
fn disjoint_rectangles_have_iou_zero() {
    let a = face(0, 0, 100, 100, 1);
    let b = face(200, 200, 300, 300, 1);
    let (inter, uni) = calculate_iou(&a, &b);
    assert_eq!(inter, 0);
    assert_eq!(uni, 100 * 100 + 100 * 100);
}

#[test]
fn iou_is_symmetric() {
    let a = face(0, 0, 100, 100, 1);
    let b = face(50, 50, 150, 150, 1);
    assert_eq!(calculate_iou(&a, &b), calculate_iou(&b, &a));
}

#[test]
fn half_overlap_value_is_exact() {
    // a = [0,100)x[0,100), b = [0,100)x[50,150): inter 5000, union 15000.
    let a = face(0, 0, 100, 100, 1);
    let b = face(0, 50, 100, 150, 1);
    let (inter, uni) = calculate_iou(&a, &b);
    assert_eq!(inter, 5000);
    assert_eq!(uni, 15000);
    // 5000/15000 = 1/3: above 3/10, not above 1/2.
    assert!(iou_exceeds(&a, &b, 3, 10));
    assert!(!iou_exceeds(&a, &b, 1, 2));
}

#[test]
fn degenerate_union_never_exceeds() {
    let a = face(0, 0, 0, 0, 1);
    assert!(!iou_exceeds(&a, &a, 0, 10));
}
