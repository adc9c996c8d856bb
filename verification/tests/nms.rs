//! Greedy hard non-maximum suppression: the overlap scenario, ordering,
//! idempotence, and threshold behavior on concrete values.
use faceblur::iou::Face;
use faceblur::nms::hard_nms;

fn face(x1: i64, y1: i64, x2: i64, y2: i64, score: i64) -> Face {
    Face { x1, y1, x2, y2, score }
}

#[test]
fn overlapping_pair_keeps_only_the_stronger() {
    // Scores 0.9 and 0.7 in Q16; the boxes overlap with IoU 1 > 3/10.
    let strong = face(0, 0, 1000, 1000, 58982);
    let weak = face(0, 0, 1000, 1000, 45875);
    let out = hard_nms(vec![weak, strong], 3, 10);
    assert_eq!(out.len(), 1);
    assert_eq!(out[0], strong);
}

#[test]
fn disjoint_detections_all_survive_in_score_order() {
    let a = face(0, 0, 100, 100, 100);
    let b = face(500, 0, 600, 100, 300);
    let c = face(0, 500, 100, 600, 200);
    let out = hard_nms(vec![a, b, c], 3, 10);
    assert_eq!(out, vec![b, c, a]);
}

#[test]
fn suppression_is_idempotent() {
    let a = face(0, 0, 100, 100, 500);
    let b = face(10, 10, 110, 110, 400);
    let c = face(500, 500, 600, 600, 300);
    let d = face(505, 505, 605, 605, 200);
    let once = hard_nms(vec![a, b, c, d], 3, 10);
    let twice = hard_nms(once.clone(), 3, 10);
    assert_eq!(once, twice);
}

#[test]
fn higher_threshold_keeps_more_of_a_pair() {
    // IoU of the pair is 1/3: suppressed at 3/10, kept at 1/2.
    let a = face(0, 0, 100, 100, 900);
    let b = face(0, 50, 100, 150, 800);
    let low = hard_nms(vec![a, b], 3, 10);
    let high = hard_nms(vec![a, b], 1, 2);
    assert_eq!(low.len(), 1);
    assert_eq!(high.len(), 2);
}

#[test]
fn equal_scores_keep_input_order() {
    let a = face(0, 0, 100, 100, 700);
    let b = face(500, 0, 600, 100, 700);
    let out = hard_nms(vec![a, b], 3, 10);
    assert_eq!(out, vec![a, b]);
}

#[test]
fn empty_input_gives_empty_output() {
    let out = hard_nms(Vec::new(), 3, 10);
    assert!(out.is_empty());
}

#[test]
fn input_order_does_not_matter_for_distinct_scores() {
    let a = face(0, 0, 100, 100, 500);
    let b = face(10, 10, 110, 110, 400);
    let c = face(500, 500, 600, 600, 300);
    let out1 = hard_nms(vec![a, b, c], 3, 10);
    let out2 = hard_nms(vec![c, a, b], 3, 10);
    let out3 = hard_nms(vec![b, c, a], 3, 10);
    assert_eq!(out1, out2);
    assert_eq!(out1, out3);
}
