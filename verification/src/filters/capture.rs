//! What the capture filter shares with the filters behind it.

use vstd::prelude::*;

verus! {

/// The metadata key under which the capture filter stores the bytes that it
/// took from a packet.
pub const CAPTURED_BYTES: &'static str = "quilkin.dev/capture";

} // verus!
