//! The box decoder and the full detection post-processing pipeline.
use faceblur::decode::{decode_detections, RawDetection};
use faceblur::detect::{detect_faces_from_outputs, DetectError};
use faceblur::iou::Face;
use faceblur::priors::{generate_priors_640, Prior};
use faceblur::rect::BlurRect;

fn neutral(score: i64) -> RawDetection {
    RawDetection { score, cx_offset: 0, cy_offset: 0, w_factor: 65536, h_factor: 65536 }
}

#[test]
fn decode_neutral_record_reproduces_the_prior_box() {
    // Prior (8, 8, 20, 20) over 1280/960 on a 640x480 image with neutral
    // offsets: the box is centered at (4.0, 4.0) pixels, 10.0 x 10.0, so
    // x1 = -1.0 px = -256 and x2 = 9.0 px = 2304 in 1/256-pixel units.
    let priors = vec![Prior { cx: 8, cy: 8, w: 20, h: 20 }];
    let raw = vec![neutral(65536)];
    let out = decode_detections(&priors, &raw, 640, 480, 640, 480, 39321);
    assert_eq!(out.len(), 1);
    assert_eq!(out[0], Face { x1: -256, y1: -256, x2: 2304, y2: 2304, score: 65536 });
}

#[test]
fn decode_drops_scores_at_or_below_threshold() {
    let priors = vec![Prior { cx: 8, cy: 8, w: 20, h: 20 }; 3];
    let raw = vec![neutral(39321), neutral(39322), neutral(0)];
    let out = decode_detections(&priors, &raw, 640, 480, 640, 480, 39321);
    assert_eq!(out.len(), 1);
    assert_eq!(out[0].score, 39322);
}

#[test]
fn decode_offset_shifts_center() {
    // cx_offset of 1.0 (65536) moves the center by w/10 of the image:
    // cx = 8/1280 + 20/(10*1280) = 10/1280; at 640 px that is +1 px from
    // the neutral case.
    let priors = vec![Prior { cx: 8, cy: 8, w: 20, h: 20 }];
    let raw = vec![RawDetection {
        score: 65536,
        cx_offset: 65536,
        cy_offset: 0,
        w_factor: 65536,
        h_factor: 65536,
    }];
    let out = decode_detections(&priors, &raw, 640, 480, 640, 480, 39321);
    assert_eq!(out[0].x1, 0);
    assert_eq!(out[0].x2, 2560);
    assert_eq!(out[0].y1, -256);
}

#[test]
fn decode_is_deterministic() {
    let priors = generate_priors_640();
    let raw: Vec<RawDetection> = (0..priors.len() as i64).map(neutral).collect();
    let a = decode_detections(&priors, &raw, 640, 480, 640, 480, 39321);
    let b = decode_detections(&priors, &raw, 640, 480, 640, 480, 39321);
    assert_eq!(a, b);
}

#[test]
fn pipeline_rejects_wrong_record_count() {
    let raw = vec![neutral(0); 10];
    assert_eq!(detect_faces_from_outputs(raw, 640, 480), Err(DetectError::ShapeMismatch));
    assert_eq!(detect_faces_from_outputs(Vec::new(), 640, 480), Err(DetectError::ShapeMismatch));
}

#[test]
fn pipeline_reports_one_rectangle_per_survivor() {
    // Only the first record passes the threshold: its prior is
    // (8, 8, 20, 20), so the rectangle is x = -256/256 = -1 and
    // w = 2560/256 = 10.
    let mut raw = vec![neutral(0); 17640];
    raw[0] = neutral(65536);
    let out = detect_faces_from_outputs(raw, 640, 480).unwrap();
    assert_eq!(out, vec![BlurRect { x: -1, y: -1, w: 10, h: 10 }]);
}

#[test]
fn pipeline_empty_when_nothing_passes() {
    let raw = vec![neutral(0); 17640];
    let out = detect_faces_from_outputs(raw, 640, 480).unwrap();
    assert!(out.is_empty());
}
