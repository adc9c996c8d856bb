//! On-device face redaction: anchor generation, model-output decoding,
//! confidence filtering, greedy non-maximum suppression, and mask-based
//! blur compositing over an RGBA pixel buffer.
//!
//! All geometry is exact integer arithmetic. Normalized anchor coordinates
//! are kept as integer numerators over the denominators `2 * input_w` and
//! `2 * input_h`; model outputs enter as Q16 fixed-point integers (65536
//! means 1.0); decoded box coordinates are in 1/256-pixel units.
use vstd::prelude::*;

pub mod codec;
pub mod compose;
pub mod decode;
pub mod detect;
pub mod iou;
pub mod nms;
pub mod pixel;
pub mod preprocess;
pub mod priors;
pub mod rect;

use vstd::string::StringExecFns;

verus! {

/// Builds the greeting line for the given name.
pub fn greet(name: String) -> (r: String)
    ensures
        r@ == "Hello, "@ + name@ + "!"@,
{
    let mut r = String::from_str("Hello, ");
    r.append(name.as_str());
    r.append("!");
    r
}

} // verus!
