//! The error type shared by all modules.

use vstd::prelude::*;

verus! {

/// `std::io::Error`, carried through unread.
#[verifier::external_type_specification]
#[verifier::external_body]
pub struct ExIoError(std::io::Error);

/// Everything that can go wrong between a datagram and a decoded spot.
#[derive(Debug)]
pub enum WsprError {
    /// RTP packet was shorter than the 12-byte fixed header, or a CSRC or
    /// extension block overran it.  Holds the packet's length in bytes.
    PacketTooShort(usize),
    /// RTP version field was not 2.  Holds the version found.
    UnsupportedRtpVersion(u8),
    /// More samples arrived than the pre-allocated window can hold.
    BufferOverflow { ssrc: u32 },
    /// Socket, file or process I/O failed.
    Io(std::io::Error),
    /// `wsprd` exited with a non-zero status.
    WsprdFailed { code: i32, stderr: String },
    /// A line of `wsprd` output did not match the expected format.
    SpotParseFailed(String),
}

impl From<std::io::Error> for WsprError {
    fn from(e: std::io::Error) -> (r: Self) {
        WsprError::Io(e)
    }
}

impl vstd::std_specs::convert::FromSpecImpl<std::io::Error> for WsprError {
    open spec fn obeys_from_spec() -> bool {
        true
    }

    open spec fn from_spec(e: std::io::Error) -> Self {
        WsprError::Io(e)
    }
}

} // verus!
