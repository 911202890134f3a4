//! The decisions of the ranged, resumable download transport: whether to ask
//! for a continuation, what the response means, and how a run ends. The
//! transport itself (HTTP and file I/O) drives these from the shell.
use vstd::prelude::*;

use crate::filenames::{decimal, digit_char};
use crate::text::concat3;

verus! {

/// Control flag values shared between the owner and the download loop.
pub const CONTROL_RUN: u8 = 0;

pub const CONTROL_PAUSE: u8 = 1;

pub const CONTROL_CANCEL: u8 = 2;

/// Everything the transport needs to (re)start one download.
#[derive(Debug, Clone)]
pub struct DownloadJob {
    pub url: String,
    /// Where the partial file lives.
    pub dest_path: String,
    /// Bytes already on disk; more than zero asks for a ranged continuation.
    pub resume_from: u64,
    /// Validators from the first response.
    pub etag: Option<String>,
    pub last_modified: Option<String>,
}

/// Server metadata captured from the (first) response.
#[derive(Debug, Clone, Default)]
pub struct ServerMeta {
    pub total_bytes: Option<u64>,
    pub etag: Option<String>,
    pub last_modified: Option<String>,
    /// The server ignored the range request and restarted at byte zero.
    pub restarted: bool,
}

/// How one transport run ended.
#[derive(Debug, PartialEq, Eq)]
pub enum DownloadOutcome {
    Completed,
    Paused,
    Cancelled,
    /// Network failure or early end of data; the partial file is kept.
    Interrupted(String),
}

/// The validator sent with a continuation: the entity tag, else the
/// modification date.
pub open spec fn validator_of(job: DownloadJob) -> Option<Seq<char>> {
    match job.etag {
        Some(e) => Some(e@),
        None => match job.last_modified {
            Some(m) => Some(m@),
            None => None,
        },
    }
}

/// A continuation is asked for: bytes are on disk and a validator is known.
pub open spec fn resume_wanted(job: DownloadJob) -> bool {
    job.resume_from > 0 && validator_of(job) is Some
}

/// The server honoured the continuation.
pub open spec fn resumed(job: DownloadJob, status: u16) -> bool {
    resume_wanted(job) && status == 206
}

impl DownloadJob {
    /// The `If-Range` validator, if any.
    pub fn validator(&self) -> (r: Option<String>)
        ensures
            match r {
                Some(v) => validator_of(*self) == Some(v@),
                None => validator_of(*self) is None,
            },
    {
        match &self.etag {
            Some(e) => Some(e.clone()),
            None => match &self.last_modified {
                Some(m) => Some(m.clone()),
                None => None,
            },
        }
    }

    /// Whether to send a range request.
    pub fn wants_resume(&self) -> (r: bool)
        ensures
            r == resume_wanted(*self),
    {
        self.resume_from > 0 && (self.etag.is_some() || self.last_modified.is_some())
    }

    /// The `Range` header value asking for the bytes from `resume_from` on.
    pub fn range_header(&self) -> (r: String)
        ensures
            r@ == "bytes="@ + decimal(self.resume_from as nat) + "-"@,
    {
        let digits = decimal_u64(self.resume_from);
        concat3("bytes=", digits.as_str(), "-")
    }
}

/// The decimal numeral of `n`.
pub fn decimal_u64(n: u64) -> (r: String)
    ensures
        r@ == decimal(n as nat),
    decreases n,
{
    let d = (n % 10) as u8;
    let c = (48u8 + d) as char;
    if n < 10 {
        let mut s = String::new();
        s.push(c);
        s
    } else {
        let mut s = decimal_u64(n / 10);
        s.push(c);
        s
    }
}

// ---------------------------------------------------------------------------
// Content-Range totals.
// ---------------------------------------------------------------------------

/// What follows the last `/` of `s` (all of `s` when there is none).
pub open spec fn after_last_slash(s: Seq<char>) -> Seq<char>
    decreases s.len(),
{
    if s.len() == 0 {
        s
    } else if s.last() == '/' {
        Seq::empty()
    } else {
        after_last_slash(s.drop_last()).push(s.last())
    }
}

pub open spec fn is_digit(c: char) -> bool {
    '0' <= c <= '9'
}

/// The value of a string of decimal digits.
pub open spec fn digits_value(s: Seq<char>) -> nat
    decreases s.len(),
{
    if s.len() == 0 {
        0
    } else {
        digits_value(s.drop_last()) * 10 + (s.last() as nat - '0' as nat) as nat
    }
}

/// `s` without a leading `+`.
pub open spec fn unsigned_part(s: Seq<char>) -> Seq<char> {
    if s.len() > 0 && s[0] == '+' {
        s.drop_first()
    } else {
        s
    }
}

pub open spec fn all_digits(d: Seq<char>) -> bool {
    forall|i: int| 0 <= i < d.len() ==> is_digit(#[trigger] d[i])
}

/// What `str::parse::<u64>` gives: an optional `+` and at least one decimal
/// digit, whose value fits.
pub open spec fn parsed_u64(s: Seq<char>) -> Option<u64> {
    let d = unsigned_part(s);
    if d.len() == 0 || !all_digits(d) {
        None
    } else if digits_value(d) > u64::MAX {
        None
    } else {
        Some(digits_value(d) as u64)
    }
}

proof fn lemma_digits_grow(s: Seq<char>, n: int)
    requires
        0 <= n <= s.len(),
        forall|i: int| 0 <= i < s.len() ==> is_digit(#[trigger] s[i]),
    ensures
        digits_value(s.take(n)) <= digits_value(s),
    decreases s.len(),
{
    if n < s.len() {
        assert(s.drop_last().take(n) =~= s.take(n));
        lemma_digits_grow(s.drop_last(), n);
    } else {
        assert(s.take(n) =~= s);
    }
}

/// Parse a `u64` as `str::parse` does.
pub fn parse_u64(s: &str) -> (r: Option<u64>)
    ensures
        r == parsed_u64(s@),
{
    let v = crate::text::chars_of(s);
    let start: usize = if v.len() > 0 && v[0] == '+' { 1 } else { 0 };
    let ghost d = unsigned_part(v@);
    proof {
        assert(d =~= v@.skip(start as int));
    }
    if start == v.len() {
        return None;
    }
    let mut acc: u64 = 0;
    let mut i = start;
    while i < v.len()
        invariant
            start <= i <= v@.len(),
            d == v@.skip(start as int),
            start == if v@.len() > 0 && v@[0] == '+' { 1usize } else { 0usize },
            d == unsigned_part(v@),
            v@ == s@,
            forall|j: int| start <= j < i ==> is_digit(#[trigger] v@[j]),
            acc == digits_value(d.take(i - start)),
        decreases v@.len() - i,
    {
        let c = v[i];
        if !('0' <= c && c <= '9') {
            proof {
                assert(d[i - start] == c);
                assert(!is_digit(d[i - start]));
                assert(0 <= i - start < d.len());
                assert(!all_digits(d));
            }
            return None;
        }
        let dv = (c as u32 - '0' as u32) as u64;
        proof {
            assert(d[i - start] == c);
            assert(d.take(i - start + 1).drop_last() =~= d.take(i - start));
            assert(d.take(i - start + 1).last() == c);
            assert(dv == (c as nat - '0' as nat) as nat);
            assert(digits_value(d.take(i - start + 1)) == acc * 10 + dv);
        }
        if acc > (u64::MAX - dv) / 10 {
            proof {
                assert(acc * 10 + dv > u64::MAX) by (nonlinear_arith)
                    requires
                        acc > (u64::MAX - dv) / 10,
                        dv <= 9,
                ;
                assert forall|j: int| 0 <= j < i - start + 1 implies is_digit(#[trigger] d.take(i - start + 1)[j]) by {
                    assert(d.take(i - start + 1)[j] == v@[j + start]);
                }
                if all_digits(d) {
                    lemma_digits_grow(d, i - start + 1);
                }
            }
            return None;
        }
        proof {
            assert(acc * 10 + dv <= u64::MAX) by (nonlinear_arith)
                requires
                    acc <= (u64::MAX - dv) / 10,
                    dv <= 9,
            ;
        }
        acc = acc * 10 + dv;
        i = i + 1;
    }
    proof {
        assert(d.take(d.len() as int) =~= d);
        assert forall|j: int| 0 <= j < d.len() implies is_digit(#[trigger] d[j]) by {
            assert(d[j] == v@[j + start]);
        }
    }
    Some(acc)
}

/// The total a `Content-Range: bytes <from>-<to>/<total>` value announces:
/// the number after its last `/`.
pub fn content_range_total(value: &str) -> (r: Option<u64>)
    ensures
        r == parsed_u64(after_last_slash(value@)),
{
    let v = crate::text::chars_of(value);
    let mut k = v.len();
    while k > 0 && v[k - 1] != '/'
        invariant
            k <= v@.len(),
            forall|j: int| k <= j < v@.len() ==> #[trigger] v@[j] != '/',
        decreases k,
    {
        k = k - 1;
    }
    proof {
        lemma_after_last_slash(v@, k as int - 1);
    }
    let mut tail = String::new();
    let mut i = k;
    while i < v.len()
        invariant
            k <= i <= v@.len(),
            tail@ == v@.subrange(k as int, i as int),
        decreases v@.len() - i,
    {
        tail.push(v[i]);
        proof {
            assert(v@.subrange(k as int, i as int).push(v@[i as int]) =~= v@.subrange(k as int, i + 1));
        }
        i = i + 1;
    }
    proof {
        assert(v@.skip(k as int) =~= v@.subrange(k as int, v@.len() as int));
    }
    parse_u64(tail.as_str())
}

proof fn lemma_after_last_slash(s: Seq<char>, k: int)
    requires
        -1 <= k < s.len(),
        k >= 0 ==> s[k] == '/',
        forall|j: int| k < j < s.len() ==> #[trigger] s[j] != '/',
    ensures
        after_last_slash(s) == s.skip(k + 1),
    decreases s.len(),
{
    if s.len() == 0 {
        assert(s.skip(k + 1) =~= s);
    } else if k == s.len() - 1 {
        assert(s.skip(k + 1) =~= Seq::<char>::empty());
    } else {
        lemma_after_last_slash(s.drop_last(), k);
        assert(s.drop_last().skip(k + 1).push(s.last()) =~= s.skip(k + 1));
    }
}

// ---------------------------------------------------------------------------
// Reading the response, and ending a run.
// ---------------------------------------------------------------------------

/// A 2xx status.
pub fn is_success_status(status: u16) -> (r: bool)
    ensures
        r == (200 <= status < 300),
{
    200 <= status && status < 300
}

/// What the transport records of a successful response to `job`: the total
/// from `Content-Range` for an honoured continuation, else `Content-Length`;
/// the validators; and whether the server restarted from byte zero.
pub fn response_meta(
    job: &DownloadJob,
    status: u16,
    content_range: Option<String>,
    content_length: Option<u64>,
    etag: Option<String>,
    last_modified: Option<String>,
) -> (r: ServerMeta)
    ensures
        r.total_bytes == if resumed(*job, status) {
            match content_range {
                Some(v) => parsed_u64(after_last_slash(v@)),
                None => None,
            }
        } else {
            content_length
        },
        r.etag == etag,
        r.last_modified == last_modified,
        r.restarted == (resume_wanted(*job) && !resumed(*job, status)),
{
    let want = job.wants_resume();
    let honoured = want && status == 206;
    let total_bytes = if honoured {
        match &content_range {
            Some(v) => content_range_total(v.as_str()),
            None => None,
        }
    } else {
        content_length
    };
    ServerMeta { total_bytes, etag, last_modified, restarted: want && !honoured }
}

/// Where writing starts: after the bytes on disk for an honoured
/// continuation, else at zero (the partial file is truncated).
pub fn start_offset(job: &DownloadJob, status: u16) -> (r: u64)
    ensures
        r == if resumed(*job, status) { job.resume_from } else { 0 },
{
    if job.wants_resume() && status == 206 {
        job.resume_from
    } else {
        0
    }
}

/// What the control flag asks of the loop: stop paused, stop cancelled, or
/// (`None`) go on.
pub fn control_outcome(flag: u8) -> (r: Option<DownloadOutcome>)
    ensures
        flag == CONTROL_PAUSE ==> r == Some(DownloadOutcome::Paused),
        flag == CONTROL_CANCEL ==> r == Some(DownloadOutcome::Cancelled),
        flag != CONTROL_PAUSE && flag != CONTROL_CANCEL ==> r is None,
{
    if flag == CONTROL_PAUSE {
        Some(DownloadOutcome::Paused)
    } else if flag == CONTROL_CANCEL {
        Some(DownloadOutcome::Cancelled)
    } else {
        None
    }
}

/// How a run ends once the body is exhausted: interrupted when fewer bytes
/// than announced arrived, else completed.
pub fn completion(received: u64, total: Option<u64>) -> (r: DownloadOutcome)
    ensures
        match total {
            Some(t) if received < t => r matches DownloadOutcome::Interrupted(m)
                && m@ == "connection closed early ("@ + decimal(received as nat) + "/"@ + decimal(t as nat) + " bytes)"@,
            _ => r == DownloadOutcome::Completed,
        },
{
    match total {
        Some(t) => {
            if received < t {
                let mut m = concat3("connection closed early (", decimal_u64(received).as_str(), "/");
                let tail = concat3(decimal_u64(t).as_str(), " bytes)", "");
                m.push_str(tail.as_str());
                proof {
                    reveal_strlit("");
                    assert(m@ =~= "connection closed early ("@ + decimal(received as nat) + "/"@ + decimal(t as nat) + " bytes)"@);
                }
                return DownloadOutcome::Interrupted(m);
            }
            DownloadOutcome::Completed
        },
        None => DownloadOutcome::Completed,
    }
}

} // verus!
