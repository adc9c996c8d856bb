//! The full detection post-processing pipeline for the 640x480 model:
//! decode the raw outputs against the fixed prior table, suppress
//! duplicates, and convert the survivors to integer pixel rectangles.
use vstd::prelude::*;

use crate::decode::{
    decode_detections, div_trunc, div_tz, face_small, lemma_div_tz_bound, raws_wf, RawDetection,
    ORIG_BOUND,
};
use crate::iou::Face;
use crate::nms::{hard_nms, lemma_suppress_elements, spec_suppress};
use crate::priors::{generate_priors_640, spec_priors_640};
use crate::rect::BlurRect;

verus! {

/// The confidence threshold of the detector, in Q16 (about 0.6).
pub const SCORE_THRESHOLD: i64 = 39321;

/// The IoU threshold of the suppressor, as the rational 3/10.
pub const IOU_THRESHOLD_NUM: i64 = 3;

/// Denominator of the IoU threshold.
pub const IOU_THRESHOLD_DEN: i64 = 10;

/// An error of the detection pipeline: the model's outputs do not hold
/// one record per prior of the configured table, a fatal configuration
/// mismatch.
#[derive(Clone, Copy, Debug, PartialEq, Eq, Structural)]
pub enum DetectError {
    ShapeMismatch,
}

/// A surviving detection as an integer pixel rectangle: 1/256-pixel
/// coordinates truncated toward zero, width and height from the
/// coordinate differences.
pub open spec fn spec_face_to_rect(f: Face) -> BlurRect {
    BlurRect {
        x: div_tz(f.x1 as int, 256) as i32,
        y: div_tz(f.y1 as int, 256) as i32,
        w: div_tz(f.x2 - f.x1, 256) as i32,
        h: div_tz(f.y2 - f.y1, 256) as i32,
    }
}

/// The detections the pipeline reports for the given raw model outputs:
/// decode against the 640x480 prior table, then greedy suppression at
/// IoU 3/10.
pub open spec fn spec_detect_faces(raw: Seq<RawDetection>, ow: int, oh: int) -> Seq<Face> {
    spec_suppress(
        crate::decode::spec_decode(spec_priors_640(), raw, 640, 480, ow, oh, SCORE_THRESHOLD),
        IOU_THRESHOLD_NUM,
        IOU_THRESHOLD_DEN,
    )
}

/// The rectangles the pipeline reports: the surviving detections, each
/// truncated to an integer pixel rectangle.
pub open spec fn spec_detect_rects(raw: Seq<RawDetection>, ow: int, oh: int) -> Seq<BlurRect> {
    spec_detect_faces(raw, ow, oh).map_values(|f: Face| spec_face_to_rect(f))
}

/// Converts decoded detections to integer pixel rectangles, truncating
/// toward zero.
pub fn faces_to_rects(faces: &Vec<Face>) -> (r: Vec<BlurRect>)
    requires
        forall|i: int| 0 <= i < faces@.len() ==> face_small(#[trigger] faces@[i]),
    ensures
        r@ == faces@.map_values(|f: Face| spec_face_to_rect(f)),
{
    let mut r: Vec<BlurRect> = Vec::new();
    let n = faces.len();
    let mut i: usize = 0;
    while i < n
        invariant
            i <= n,
            n == faces@.len(),
            forall|t: int| 0 <= t < faces@.len() ==> face_small(#[trigger] faces@[t]),
            r@.len() == i,
            forall|t: int| 0 <= t < r@.len() ==> #[trigger] r@[t] == spec_face_to_rect(faces@[t]),
        decreases n - i,
    {
        let f = faces[i];
        proof {
            lemma_div_tz_bound(f.x1 as int, 256, 0x40_0000);
            lemma_div_tz_bound(f.y1 as int, 256, 0x40_0000);
            lemma_div_tz_bound(f.x2 - f.x1, 256, 0x80_0000);
            lemma_div_tz_bound(f.y2 - f.y1, 256, 0x80_0000);
        }
        let x = div_trunc(f.x1, 256) as i32;
        let y = div_trunc(f.y1, 256) as i32;
        let w = div_trunc(f.x2 - f.x1, 256) as i32;
        let h = div_trunc(f.y2 - f.y1, 256) as i32;
        r.push(BlurRect { x, y, w, h });
        i = i + 1;
    }
    proof {
        assert(r@ =~= faces@.map_values(|f: Face| spec_face_to_rect(f)));
    }
    r
}

/// Runs the detection post-processing on the model's raw outputs for an
/// `orig_w` by `orig_h` source image: decodes each record against the
/// 640x480 prior table (one record per prior, in the table's order),
/// keeps scores above the fixed threshold, suppresses duplicates at
/// IoU 3/10, and returns one integer rectangle per surviving detection,
/// in descending-score order. A record count that does not match the
/// prior table is a fatal configuration error.
pub fn detect_faces_from_outputs(raw: Vec<RawDetection>, orig_w: u32, orig_h: u32) -> (r: Result<
    Vec<BlurRect>,
    DetectError,
>)
    requires
        raws_wf(raw@),
        orig_w <= ORIG_BOUND,
        orig_h <= ORIG_BOUND,
    ensures
        r is Ok <==> raw@.len() == 17640,
        r matches Ok(v) ==> v@ == spec_detect_rects(raw@, orig_w as int, orig_h as int),
        r is Err ==> r == Err::<Vec<BlurRect>, DetectError>(DetectError::ShapeMismatch),
{
    let priors = generate_priors_640();
    if raw.len() != priors.len() {
        return Err(DetectError::ShapeMismatch);
    }
    let decoded = decode_detections(&priors, &raw, 640, 480, orig_w, orig_h, SCORE_THRESHOLD);
    let ghost dec = decoded@;
    let kept = hard_nms(decoded, IOU_THRESHOLD_NUM, IOU_THRESHOLD_DEN);
    proof {
        lemma_suppress_elements(dec, IOU_THRESHOLD_NUM, IOU_THRESHOLD_DEN);
        assert forall|i: int| 0 <= i < kept@.len() implies face_small(#[trigger] kept@[i]) by {
            assert(dec.contains(kept@[i]));
            let k = choose|k: int| 0 <= k < dec.len() && dec[k] == kept@[i];
        }
    }
    let rects = faces_to_rects(&kept);
    Ok(rects)
}

/// The pipeline is a function of its inputs alone: two results of the
/// same records and image dimensions are equal.
pub proof fn lemma_detect_deterministic(
    raw: Seq<RawDetection>,
    ow: int,
    oh: int,
    r1: Seq<BlurRect>,
    r2: Seq<BlurRect>,
)
    requires
        r1 == spec_detect_rects(raw, ow, oh),
        r2 == spec_detect_rects(raw, ow, oh),
    ensures
        r1 == r2,
{
}

} // verus!
