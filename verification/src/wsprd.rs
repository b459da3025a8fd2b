//! Judging a run of `wsprd`: its exit, its spot file and its FFTW wisdom.

use crate::decode::parse_all_wspr_txt;
use crate::error::WsprError;
use crate::spot::WsprSpot;
use crate::time::Timestamp;
use vstd::prelude::*;

verus! {

/// What `String::from_utf8_lossy` makes of a byte string.
pub uninterp spec fn lossy_text(bytes: Seq<u8>) -> Seq<char>;

/// `String::from_utf8_lossy`, as an owned string.
///
/// Its result depends on the bytes alone, and valid UTF-8 is decoded as it
/// stands.  How many replacement characters invalid sequences turn into is left
/// unsaid.
#[verifier::external_body]
fn lossy_string(bytes: &[u8]) -> (r: String)
    ensures
        r@ == lossy_text(bytes@),
        vstd::utf8::valid_utf8(bytes@) ==> r@ == vstd::utf8::decode_utf8(bytes@),
{
    String::from_utf8_lossy(bytes).into_owned()
}

/// The exit code reported for a process that ended without one.
pub const NO_EXIT_CODE: i32 = -1;

/// The error for a run that failed with `code`, having printed `stderr`.
/// Processes that a signal ended have no code.
pub fn exit_failure(code: Option<i32>, stderr: String) -> (r: WsprError)
    ensures
        r == (WsprError::WsprdFailed {
            code: match code {
                Some(c) => c,
                None => NO_EXIT_CODE,
            },
            stderr,
        }),
{
    let code: i32 = match code {
        Some(c) => c,
        None => NO_EXIT_CODE,
    };
    WsprError::WsprdFailed { code, stderr }
}

/// Judges how `wsprd` ended: a failed run is an error that carries the exit code
/// and the text that the process wrote to its standard error.
pub fn check_exit(success: bool, code: Option<i32>, stderr: &[u8]) -> (r: Result<(), WsprError>)
    ensures
        match r {
            Ok(_) => success,
            Err(e) => !success && (e matches WsprError::WsprdFailed { code: c, stderr: text } && (c
                == match code {
                Some(c) => c,
                None => NO_EXIT_CODE,
            }) && text@ == lossy_text(stderr@) && (vstd::utf8::valid_utf8(stderr@) ==> text@
                == vstd::utf8::decode_utf8(stderr@))),
        },
{
    if success {
        Ok(())
    } else {
        Err(exit_failure(code, lossy_string(stderr)))
    }
}

/// What reading `ALL_WSPR.TXT` gave.
pub enum SpotFile {
    /// The file's text.
    Text(String),
    /// There is no such file.
    Missing,
    /// The file could not be read.
    Failed(std::io::Error),
}

/// The spots of a successful run.
///
/// `wsprd` creates `ALL_WSPR.TXT` only when it decodes something, so a missing
/// file means no spots.
pub fn spots_from_file(file: SpotFile, window_start: Timestamp) -> (r: Result<
    Vec<WsprSpot>,
    WsprError,
>)
    ensures
        match file {
            SpotFile::Text(text) => r matches Ok(spots) && crate::decode::spot_views(spots@)
                == crate::decode::spots_in(crate::text::lines(text@), window_start),
            SpotFile::Missing => r matches Ok(spots) && spots@.len() == 0,
            SpotFile::Failed(e) => r == Err::<Vec<WsprSpot>, WsprError>(WsprError::Io(e)),
        },
{
    match file {
        SpotFile::Text(text) => Ok(parse_all_wspr_txt(text.as_str(), window_start)),
        SpotFile::Missing => Ok(Vec::new()),
        SpotFile::Failed(e) => Err(WsprError::from(e)),
    }
}

/// Whether the wisdom file of a finished run is to be kept: the run produced
/// one, and none is kept yet.
pub fn keeps_wisdom(produced: bool, kept: bool) -> (r: bool)
    ensures
        r == (produced && !kept),
{
    produced && !kept
}

} // verus!
