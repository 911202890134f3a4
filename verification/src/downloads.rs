//! Download orchestration decisions: naming, the checks before resuming or
//! cancelling a stored download, and what a finished transport run means for
//! the stored state. Workers, files and persistence live in the shell.
use vstd::prelude::*;

use crate::address::{read_url, url_reading};
use crate::download_state::{allowed, state_name, state_of_name, DownloadState};
use crate::error::CoreError;
use crate::filenames::{
    sanitize_filename, sanitized, suggested_name_from_url, trim_ws, url_last_segment,
};
use crate::filenames::{lemma_sanitized_safe, pct_decoded, utf8_lossy};
use crate::text::{concat3, same_text};
use crate::transfer::DownloadOutcome;

verus! {

/// One stored download.
#[derive(Debug, Clone, PartialEq, Eq)]
pub struct DownloadRow {
    pub id: String,
    pub source_url: String,
    pub dest_path: String,
    pub total_bytes: Option<u64>,
    pub received_bytes: u64,
    pub state: String,
    pub etag: Option<String>,
    pub last_modified: Option<String>,
    pub created_at: i64,
    pub completed_at: Option<i64>,
}

/// The partial file of a download bound for `dest`.
pub fn part_path(dest: &str) -> (r: String)
    ensures
        r@ == dest@ + ".part"@,
{
    let r = concat3(dest, ".part", "");
    proof {
        reveal_strlit("");
        assert(r@ =~= dest@ + ".part"@);
    }
    r
}

/// The name a URL suggests, as `suggested_name_from_url` computes it.
pub open spec fn url_name(url: Seq<char>) -> Option<Seq<char>> {
    match url_last_segment(url) {
        None => None,
        Some(seg) => if trim_ws(seg).len() == 0 {
            None
        } else {
            Some(sanitized(utf8_lossy(pct_decoded(trim_ws(seg)))))
        },
    }
}

/// The file name a new download gets: the sanitised suggestion when one is
/// given, else the name the URL suggests, else `download`.
pub fn download_name(suggested: Option<&str>, url: &str) -> (r: String)
    ensures
        r@ == match suggested {
            Some(s) => sanitized(s@),
            None => match url_name(url@) {
                Some(n) => n,
                None => "download"@,
            },
        },
{
    if let Some(s) = suggested {
        let name = sanitize_filename(s);
        if !name.as_str().is_empty() {
            return name;
        }
        proof {
            lemma_sanitized_nonempty(s@);
        }
    }
    match suggested_name_from_url(url) {
        Some(n) => n,
        None => {
            proof {
                reveal_strlit("download");
            }
            "download".to_string()
        },
    }
}

/// A sanitised name is never empty.
pub proof fn lemma_sanitized_nonempty(s: Seq<char>)
    ensures
        sanitized(s).len() > 0,
{
    lemma_sanitized_safe(s);
}

/// What `url::Url::parse` makes of `url`: the scheme, or the parse error's
/// message.
pub open spec fn url_scheme(url: Seq<char>) -> Result<Seq<char>, Seq<char>> {
    match url_reading(url) {
        Ok(t) => Ok(t.0),
        Err(m) => Err(m),
    }
}

/// The scheme of `url`, or why it does not parse.
fn parse_scheme(url: &str) -> (r: Result<String, String>)
    ensures
        match r {
            Ok(s) => url_scheme(url@) == Ok::<Seq<char>, Seq<char>>(s@),
            Err(m) => url_scheme(url@) == Err::<Seq<char>, Seq<char>>(m@),
        },
{
    match read_url(url) {
        Ok(u) => Ok(u.scheme),
        Err(e) => Err(e),
    }
}

/// Only web URLs are downloaded.
pub fn check_download_url(url: &str) -> (r: Result<(), CoreError>)
    ensures
        match url_scheme(url@) {
            Err(m) => r matches Err(CoreError::InvalidArgument(x)) && x@ == "download url: "@ + m,
            Ok(s) => if s == "http"@ || s == "https"@ {
                r is Ok
            } else {
                r matches Err(CoreError::InvalidArgument(x)) && x@ == "unsupported download scheme: "@ + s
            },
        },
{
    match parse_scheme(url) {
        Err(m) => {
            let msg = concat3("download url: ", m.as_str(), "");
            proof {
                reveal_strlit("");
                assert(msg@ =~= "download url: "@ + m@);
            }
            Err(CoreError::InvalidArgument(msg))
        },
        Ok(s) => {
            if same_text(s.as_str(), "http") || same_text(s.as_str(), "https") {
                Ok(())
            } else {
                let msg = concat3("unsupported download scheme: ", s.as_str(), "");
                proof {
                    reveal_strlit("");
                    assert(msg@ =~= "unsupported download scheme: "@ + s@);
                }
                Err(CoreError::InvalidArgument(msg))
            }
        },
    }
}

/// The stored state of `row`, when it may move to `to`. An unknown stored
/// state is an internal error; a state that cannot make the move is rejected
/// with `verb` ("resume", "cancel") in the message.
pub fn check_move(row: &DownloadRow, to: DownloadState, verb: &str) -> (r: Result<DownloadState, CoreError>)
    ensures
        match state_of_name(row.state@) {
            None => r matches Err(CoreError::Internal(x)) && x@ == "bad download state: "@ + row.state@,
            Some(s) => if allowed(s, to) {
                r == Ok::<DownloadState, CoreError>(s)
            } else {
                r matches Err(CoreError::InvalidArgument(x)) && x@ == "cannot "@ + verb@ + " a "@ + row.state@ + " download"@
            },
        },
{
    let state = match DownloadState::parse(row.state.as_str()) {
        Some(s) => s,
        None => {
            let msg = concat3("bad download state: ", row.state.as_str(), "");
            proof {
                reveal_strlit("");
                assert(msg@ =~= "bad download state: "@ + row.state@);
            }
            return Err(CoreError::Internal(msg));
        },
    };
    if !state.can_transition(to) {
        let mut msg = concat3("cannot ", verb, " a ");
        let tail = concat3(row.state.as_str(), " download", "");
        msg.push_str(tail.as_str());
        proof {
            reveal_strlit("");
            assert(msg@ =~= "cannot "@ + verb@ + " a "@ + row.state@ + " download"@);
        }
        return Err(CoreError::InvalidArgument(msg));
    }
    Ok(state)
}

/// A download left interrupted resumes by itself at start-up when the
/// server gave a validator to resume against.
pub fn auto_resumable(row: &DownloadRow) -> (r: bool)
    ensures
        r == (row.state@ == state_name(DownloadState::Interrupted) && (row.etag is Some
            || row.last_modified is Some)),
{
    same_text(row.state.as_str(), DownloadState::Interrupted.as_str()) && (row.etag.is_some()
        || row.last_modified.is_some())
}

/// The state a download is stored in after a transport run ends.
pub fn outcome_state(outcome: &DownloadOutcome) -> (r: DownloadState)
    ensures
        r == match outcome {
            DownloadOutcome::Completed => DownloadState::Completed,
            DownloadOutcome::Paused => DownloadState::Paused,
            DownloadOutcome::Cancelled => DownloadState::Cancelled,
            DownloadOutcome::Interrupted(_) => DownloadState::Interrupted,
        },
{
    match outcome {
        DownloadOutcome::Completed => DownloadState::Completed,
        DownloadOutcome::Paused => DownloadState::Paused,
        DownloadOutcome::Cancelled => DownloadState::Cancelled,
        DownloadOutcome::Interrupted(_) => DownloadState::Interrupted,
    }
}

/// Every way a run can end is a move the state machine allows from `Active`.
pub proof fn lemma_outcomes_allowed(s: DownloadState)
    requires
        s == DownloadState::Completed || s == DownloadState::Paused || s == DownloadState::Cancelled
            || s == DownloadState::Interrupted,
    ensures
        allowed(DownloadState::Active, s),
{
}

/// Whether `Path::new(dest).parent()` equals `Path::new(dir)`.
pub uninterp spec fn parent_is(dest: Seq<char>, dir: Seq<char>) -> bool;

/// Calls `std::path::Path::parent` on `dest` and compares the result with
/// `dir` as paths (component by component). The answer is named by `parent_is`.
#[verifier::external_body]
fn path_parent_is(dest: &str, dir: &str) -> (r: bool)
    ensures
        r == parent_is(dest@, dir@),
{
    std::path::Path::new(dest).parent() == Some(std::path::Path::new(dir))
}

/// Path-traversal guard used before opening or revealing a download: the
/// recorded destination must lie directly inside the download directory.
pub fn is_within_dir(dest: &str, dir: &str) -> (r: bool)
    ensures
        r == parent_is(dest@, dir@),
{
    path_parent_is(dest, dir)
}

/// Progress of a running download is persisted and announced at most this
/// often, in milliseconds.
pub const PROGRESS_THROTTLE_MS: u64 = 250;

/// Whether a progress tick at `now_ms` is announced, given when the last
/// announced one was (`None` before the first, which is always announced):
/// only once at least `PROGRESS_THROTTLE_MS` have passed since.
pub fn progress_due(last_ms: Option<u64>, now_ms: u64) -> (r: bool)
    ensures
        r == match last_ms {
            None => true,
            Some(t) => now_ms >= t + PROGRESS_THROTTLE_MS,
        },
{
    match last_ms {
        None => true,
        Some(t) => now_ms >= t && now_ms - t >= PROGRESS_THROTTLE_MS,
    }
}

} // verus!
