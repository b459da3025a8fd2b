//! The logic of a WSPR receiver for ka9q-radio.
//!
//! A multicast stream of RTP packets carries mono audio; a second stream
//! describes its channels.  Audio is gathered in windows that start on even UTC
//! minutes, written as WAV files for `wsprd`, and the spots that `wsprd` decodes
//! are read from its table.  What a window holds, which packets enter it, when it
//! is sealed and what a line of the table means is stated and proved here;
//! sockets, files, processes and floating point are the caller's.
//!
//! * [`config`], [`multicast`]: settings and the sockets they ask for
//! * [`rtp`], [`status`]: the two datagram formats
//! * [`time`], [`buffer`], [`capture`], [`run`]: even minutes, one window, all
//!   windows, and what becomes of them over time
//! * [`wav`], [`wsprd`], [`decode`], [`spot`], [`ndjson`]: from window to spot log
//! * [`bytes`], [`text`], [`number`], [`error`]: what the others share

pub mod buffer;
pub mod bytes;
pub mod capture;
pub mod config;
pub mod decode;
pub mod error;
pub mod multicast;
pub mod ndjson;
pub mod number;
pub mod rtp;
pub mod run;
pub mod spot;
pub mod status;
pub mod text;
pub mod time;
pub mod wav;
pub mod wsprd;
