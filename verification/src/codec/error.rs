use vstd::prelude::*;

verus! {

/// Why a frame could not be checked, parsed or encoded.
#[derive(Debug, Clone, PartialEq, Eq)]
pub enum FrameError {
    /// More bytes are needed before the frame can be checked.
    Incomplete,
    /// The frame is malformed; the text says how.
    BadFrame(String),
    TooLongFrame { found: u32, max: u32 },
    MagicCodeMismatch { found: u8, expect: u8 },
    PayloadChecksumMismatch { expected: u32, actual: u32 },
}

} // verus!
