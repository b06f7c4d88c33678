//! What voice detection hands over.

use vstd::prelude::*;

verus! {

/// A stretch of speech.
///
/// Times are milliseconds in fixed point, counted as in [`crate::own_speech`]. The
/// confidence is carried through by its bits.
#[derive(Debug, Clone)]
pub struct SpeechSegment<T> {
    pub samples: Vec<T>,
    pub start_timestamp_ms: u64,
    pub end_timestamp_ms: u64,
    pub confidence: u32,
}

} // verus!
