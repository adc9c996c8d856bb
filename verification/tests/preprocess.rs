//! The preprocessor: channel-first layout and the fixed 127 shift.
use faceblur::pixel::PixelBuf;
use faceblur::preprocess::{normalize_chw, preprocess};

#[test]
fn layout_is_channel_first_and_shifted() {
    // A 2x1 image: pixel 0 is (10, 20, 30, 255), pixel 1 is
    // (200, 210, 220, 255). The planar layout is all reds, all greens,
    // all blues, each minus 127; alpha is dropped.
    let buf = PixelBuf { width: 2, height: 1, data: vec![10, 20, 30, 255, 200, 210, 220, 255] };
    let chw = normalize_chw(&buf);
    assert_eq!(chw, vec![10 - 127, 200 - 127, 20 - 127, 210 - 127, 30 - 127, 220 - 127]);
}

#[test]
fn rows_flatten_in_row_major_order() {
    // A 2x2 image with distinct red values.
    let buf = PixelBuf {
        width: 2,
        height: 2,
        data: vec![
            0, 0, 0, 255, 50, 0, 0, 255, //
            100, 0, 0, 255, 150, 0, 0, 255,
        ],
    };
    let chw = normalize_chw(&buf);
    assert_eq!(&chw[0..4], &[-127, 50 - 127, 100 - 127, 150 - 127]);
}

#[test]
fn preprocess_produces_the_model_tensor_shape() {
    let buf = PixelBuf { width: 8, height: 8, data: vec![127; 4 * 8 * 8] };
    let chw = preprocess(&buf, 640, 480);
    assert_eq!(chw.len(), 3 * 640 * 480);
    // A uniform mid-gray image resamples to itself: every value is 0.
    assert!(chw.iter().all(|&v| v == 0));
}
