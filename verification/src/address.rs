//! Address-bar input: URL validation, dangerous-scheme rejection, and telling
//! a URL from a search.
use vstd::prelude::*;

use crate::filenames::{is_ws, lemma_trim_back_sub, lemma_trim_front_sub, trim_back, trim_front, trim_ws};
use crate::text::{chars_of, concat3, same_text, string_of};

verus! {

/// Why input could not become a URL.
#[derive(Debug, PartialEq, Eq)]
pub enum UrlError {
    /// Nothing but whitespace was entered.
    Empty,
    /// The scheme (carried) may never be navigated to.
    DangerousScheme(String),
    /// The text (a message) does not make a usable URL.
    Invalid(String),
}

impl UrlError {
    /// The message shown for this error.
    pub fn message(&self) -> (r: String)
        ensures
            r@ == match self {
                UrlError::Empty => "empty input"@,
                UrlError::DangerousScheme(s) => "dangerous scheme rejected: "@ + s@,
                UrlError::Invalid(m) => "invalid url: "@ + m@,
            },
    {
        let r = match self {
            UrlError::Empty => concat3("empty input", "", ""),
            UrlError::DangerousScheme(s) => concat3("dangerous scheme rejected: ", s.as_str(), ""),
            UrlError::Invalid(m) => concat3("invalid url: ", m.as_str(), ""),
        };
        proof {
            reveal_strlit("");
            assert(r@ =~= match self {
                UrlError::Empty => "empty input"@,
                UrlError::DangerousScheme(s) => "dangerous scheme rejected: "@ + s@,
                UrlError::Invalid(m) => "invalid url: "@ + m@,
            });
        }
        r
    }
}

/// What the logic reads of a parsed URL.
#[derive(Debug, Clone, PartialEq, Eq)]
pub struct ParsedUrl {
    /// Lower-cased scheme, without the `:`.
    pub scheme: String,
    /// The serialised URL.
    pub serialization: String,
    /// Whether the URL has a host.
    pub has_host: bool,
}

impl ParsedUrl {
    /// The serialised URL.
    pub fn as_str(&self) -> (r: &str)
        ensures
            r@ == self.serialization@,
    {
        self.serialization.as_str()
    }
}

/// A string option read as characters.
pub open spec fn opt_text(o: Option<String>) -> Option<Seq<char>> {
    match o {
        Some(x) => Some(x@),
        None => None,
    }
}

/// What `url::Url::parse` makes of a text: its scheme, serialisation, host
/// and last path segment, or the parse error's message.
pub uninterp spec fn url_reading(s: Seq<char>) -> Result<(Seq<char>, Seq<char>, Option<Seq<char>>, Option<Seq<char>>), Seq<char>>;

/// `s` opens with the scheme `name` and its `:`.
pub open spec fn opens_with_scheme(s: Seq<char>, name: Seq<char>) -> bool {
    s.len() > name.len() && s.take(name.len() as int) == name && s[name.len() as int] == ':'
}

/// `s` opens with `http:` or `https:`.
pub open spec fn web_prefixed(s: Seq<char>) -> bool {
    opens_with_scheme(s, "http"@) || opens_with_scheme(s, "https"@)
}

/// The parts of a parsed URL the logic reads.
pub(crate) struct UrlReading {
    pub scheme: String,
    pub serialization: String,
    pub host: Option<String>,
    pub last_segment: Option<String>,
}

/// Calls `url::Url::parse`, reading `scheme`, `as_str`, `host_str` and the
/// last of `path_segments` of the result, or the error's `Display`. The
/// result is named by `url_reading`; the url crate documents the scheme as
/// lower-cased ASCII and a serialised URL (so each path segment) as ASCII.
/// Its parser reads the scheme as the letters, digits, `+`, `-` and `.`
/// before the first `:` (after leading spaces and control characters), so
/// a text that opens with `http:` or `https:` has that scheme when it parses.
#[verifier::external_body]
pub(crate) fn read_url(s: &str) -> (r: Result<UrlReading, String>)
    ensures
        match r {
            Ok(u) => url_reading(s@) == Ok::<(Seq<char>, Seq<char>, Option<Seq<char>>, Option<Seq<char>>), Seq<char>>(
                (u.scheme@, u.serialization@, opt_text(u.host), opt_text(u.last_segment)),
            ) && (u.last_segment matches Some(x) ==> vstd::utf8::is_ascii_chars(x@))
                && (opens_with_scheme(s@, "http"@) ==> u.scheme@ == "http"@)
                && (opens_with_scheme(s@, "https"@) ==> u.scheme@ == "https"@),
            Err(m) => url_reading(s@) == Err::<(Seq<char>, Seq<char>, Option<Seq<char>>, Option<Seq<char>>), Seq<char>>(m@),
        },
{
    match url::Url::parse(s) {
        Ok(u) => Ok(UrlReading {
            scheme: u.scheme().to_string(),
            serialization: u.as_str().to_string(),
            host: u.host_str().map(str::to_string),
            last_segment: u.path_segments().and_then(|mut p| p.next_back()).map(str::to_owned),
        }),
        Err(e) => Err(e.to_string()),
    }
}

/// What the address logic reads of `url::Url::parse` on a text: scheme,
/// serialisation and whether a host is present, or the error's message.
pub open spec fn url_parts(s: Seq<char>) -> Result<(Seq<char>, Seq<char>, bool), Seq<char>> {
    match url_reading(s) {
        Ok(t) => Ok((t.0, t.1, t.2 is Some)),
        Err(m) => Err(m),
    }
}

/// Parse `s` into the parts the address logic reads.
fn parse_url(s: &str) -> (r: Result<ParsedUrl, String>)
    ensures
        match r {
            Ok(p) => url_parts(s@) == Ok::<(Seq<char>, Seq<char>, bool), Seq<char>>((p.scheme@, p.serialization@, p.has_host))
                && (web_prefixed(s@) ==> web_scheme(p.scheme@)),
            Err(m) => url_parts(s@) == Err::<(Seq<char>, Seq<char>, bool), Seq<char>>(m@),
        },
{
    match read_url(s) {
        Ok(u) => {
            let has_host = u.host.is_some();
            Ok(ParsedUrl { scheme: u.scheme, serialization: u.serialization, has_host })
        },
        Err(e) => Err(e),
    }
}

/// Schemes never navigated to.
pub open spec fn dangerous(s: Seq<char>) -> bool {
    s == "javascript"@ || s == "data"@ || s == "file"@ || s == "vbscript"@ || s == "about"@
}

/// Schemes the address bar accepts verbatim.
pub open spec fn web_scheme(s: Seq<char>) -> bool {
    s == "http"@ || s == "https"@
}

fn is_dangerous(s: &str) -> (r: bool)
    ensures
        r == dangerous(s@),
{
    same_text(s, "javascript") || same_text(s, "data") || same_text(s, "file") || same_text(s, "vbscript")
        || same_text(s, "about")
}

fn is_web(s: &str) -> (r: bool)
    ensures
        r == web_scheme(s@),
{
    same_text(s, "http") || same_text(s, "https")
}

/// Reject navigation to dangerous or unsupported schemes.
pub fn sanitize(url: &ParsedUrl) -> (r: Result<(), UrlError>)
    ensures
        dangerous(url.scheme@) ==> (r matches Err(UrlError::DangerousScheme(s)) && s@ == url.scheme@),
        !dangerous(url.scheme@) && !web_scheme(url.scheme@) ==> (r matches Err(UrlError::Invalid(m)) && m@
            == "unsupported scheme: "@ + url.scheme@),
        !dangerous(url.scheme@) && web_scheme(url.scheme@) ==> r is Ok,
{
    if is_dangerous(url.scheme.as_str()) {
        return Err(UrlError::DangerousScheme(url.scheme.clone()));
    }
    if !is_web(url.scheme.as_str()) {
        let m = concat3("unsupported scheme: ", url.scheme.as_str(), "");
        proof {
            reveal_strlit("");
            assert(m@ =~= "unsupported scheme: "@ + url.scheme@);
        }
        return Err(UrlError::Invalid(m));
    }
    Ok(())
}

// ---------------------------------------------------------------------------
// Search queries.
// ---------------------------------------------------------------------------

/// Bytes `form_urlencoded` passes through unchanged.
pub open spec fn form_unchanged(b: u8) -> bool {
    b == 42 || b == 45 || b == 46 || (48 <= b <= 57) || (65 <= b <= 90) || b == 95 || (97 <= b <= 122)
}

/// Upper-case hexadecimal digit of `d` (below 16).
pub open spec fn hex_upper(d: u8) -> char {
    if d < 10 {
        ((48 + d) as u8) as char
    } else {
        ((55 + d) as u8) as char
    }
}

/// How `application/x-www-form-urlencoded` writes one byte: unchanged, `+`
/// for a space, else `%` and two upper-case hex digits.
pub open spec fn form_byte(b: u8) -> Seq<char> {
    if form_unchanged(b) {
        seq![b as char]
    } else if b == 32 {
        seq!['+']
    } else {
        seq!['%', hex_upper(b / 16), hex_upper(b % 16)]
    }
}

/// The form encoding of `bytes`.
pub open spec fn form_encoded(bytes: Seq<u8>) -> Seq<char>
    decreases bytes.len(),
{
    if bytes.len() == 0 {
        Seq::empty()
    } else {
        form_encoded(bytes.drop_last()) + form_byte(bytes.last())
    }
}

/// Calls `form_urlencoded::byte_serialize` on the UTF-8 bytes of `s` and
/// joins the pieces. The crate's source writes each byte as `form_byte` says.
#[verifier::external_body]
fn form_encode(s: &str) -> (r: String)
    ensures
        r@ == form_encoded(vstd::utf8::encode_utf8(s@)),
{
    url::form_urlencoded::byte_serialize(s.as_bytes()).collect()
}

/// `s` with each occurrence of `pat` (non-empty), taken left to right without
/// overlap, replaced by `with`.
pub open spec fn replaced(s: Seq<char>, pat: Seq<char>, with: Seq<char>) -> Seq<char>
    recommends
        pat.len() > 0,
    decreases s.len(),
{
    if s.len() == 0 || pat.len() == 0 {
        s
    } else if pat.len() <= s.len() && s.take(pat.len() as int) == pat {
        with + replaced(s.skip(pat.len() as int), pat, with)
    } else {
        seq![s[0]] + replaced(s.skip(1), pat, with)
    }
}

/// Replacing leaves alone a prefix that holds no first character of `pat`.
pub proof fn lemma_replaced_keeps_prefix(s: Seq<char>, pat: Seq<char>, with: Seq<char>, k: int)
    requires
        pat.len() > 0,
        0 <= k <= s.len(),
        forall|i: int| 0 <= i < k ==> #[trigger] s[i] != pat[0],
    ensures
        replaced(s, pat, with).len() >= k,
        replaced(s, pat, with).take(k) == s.take(k),
    decreases s.len(),
{
    if k > 0 {
        if pat.len() <= s.len() && s.take(pat.len() as int) == pat {
            assert(s.take(pat.len() as int)[0] == s[0]);
        }
        let t = s.skip(1);
        assert forall|i: int| 0 <= i < k - 1 implies #[trigger] t[i] != pat[0] by {
            assert(t[i] == s[i + 1]);
        }
        lemma_replaced_keeps_prefix(t, pat, with, k - 1);
        let rt = replaced(t, pat, with);
        assert((seq![s[0]] + rt).take(k) =~= s.take(k)) by {
            assert forall|i: int| 0 <= i < k implies (seq![s[0]] + rt).take(k)[i] == s.take(k)[i] by {
                if i > 0 {
                    assert(rt.take(k - 1)[i - 1] == t.take(k - 1)[i - 1]);
                }
            }
        }
    } else {
        assert(replaced(s, pat, with).take(0) =~= s.take(0));
    }
}

/// Replace every occurrence of `pat` in `s` by `with`, as `str::replace`.
pub fn replace_all(s: &str, pat: &str, with: &str) -> (r: String)
    requires
        pat@.len() > 0,
    ensures
        r@ == replaced(s@, pat@, with@),
{
    let v = chars_of(s);
    let p = chars_of(pat);
    let w = chars_of(with);
    let mut out: Vec<char> = Vec::new();
    let mut i: usize = 0;
    proof {
        assert(v@.skip(0) =~= v@);
        assert(out@ + replaced(v@, p@, w@) =~= replaced(v@, p@, w@));
    }
    while i < v.len()
        invariant
            v@ == s@,
            p@ == pat@,
            w@ == with@,
            p@.len() > 0,
            i <= v@.len(),
            replaced(v@, p@, w@) == out@ + replaced(v@.skip(i as int), p@, w@),
        decreases v@.len() - i,
    {
        let ghost rest = v@.skip(i as int);
        // Does the pattern start at i?
        let mut j: usize = 0;
        let n = v.len();
        let fits = p.len() <= n - i;
        if fits {
            while j < p.len() && v[i + j] == p[j]
                invariant
                    n == v@.len(),
                    p@.len() <= v@.len() - i,
                    i < v@.len(),
                    j <= p@.len(),
                    forall|y: int| 0 <= y < j ==> v@[i + y] == p@[y],
                decreases p@.len() - j,
            {
                j = j + 1;
            }
        }
        if fits && j == p.len() {
            proof {
                assert(rest.take(p@.len() as int) =~= p@);
                assert(rest.skip(p@.len() as int) =~= v@.skip(i + p@.len()));
                assert(out@ + w@ + replaced(v@.skip(i + p@.len()), p@, w@) =~= out@ + (w@ + replaced(v@.skip(i + p@.len()), p@, w@)));
            }
            let mut k: usize = 0;
            let ghost base = out@;
            while k < w.len()
                invariant
                    k <= w@.len(),
                    out@ == base + w@.take(k as int),
                decreases w@.len() - k,
            {
                out.push(w[k]);
                proof {
                    assert(base + w@.take(k + 1) =~= (base + w@.take(k as int)).push(w@[k as int]));
                }
                k = k + 1;
            }
            proof {
                assert(w@.take(w@.len() as int) =~= w@);
            }
            i = i + p.len();
        } else {
            proof {
                if p@.len() <= rest.len() {
                    assert(rest.take(p@.len() as int)[j as int] != p@[j as int]);
                    assert(rest.take(p@.len() as int) != p@);
                }
                assert(rest.skip(1) =~= v@.skip(i + 1));
                assert(out@.push(v@[i as int]) + replaced(v@.skip(i + 1), p@, w@) =~= out@ + (seq![rest[0]] + replaced(rest.skip(1), p@, w@)));
            }
            out.push(v[i]);
            i = i + 1;
        }
    }
    proof {
        assert(v@.skip(v@.len() as int) =~= Seq::<char>::empty());
        assert(out@ + Seq::<char>::empty() =~= out@);
    }
    string_of(&out)
}

// ---------------------------------------------------------------------------
// Resolving input.
// ---------------------------------------------------------------------------

/// Input that reads as a bare host: no whitespace, and a dot or a
/// `localhost` prefix.
pub open spec fn looks_like_host(t: Seq<char>) -> bool {
    &&& !(exists|i: int| 0 <= i < t.len() && is_ws(#[trigger] t[i]))
    &&& ((exists|i: int| 0 <= i < t.len() && #[trigger] t[i] == '.') || (t.len() >= "localhost"@.len() && t.take(
        "localhost"@.len() as int,
    ) == "localhost"@))
}

/// The plain parts of a parsed URL.
pub open spec fn parts_of(p: ParsedUrl) -> (Seq<char>, Seq<char>, bool) {
    (p.scheme@, p.serialization@, p.has_host)
}

/// The search URL text for query `t` against `template`.
pub open spec fn search_target(t: Seq<char>, template: Seq<char>) -> Seq<char> {
    replaced(template, "%s"@, form_encoded(vstd::utf8::encode_utf8(t)))
}

fn has_ws(v: &Vec<char>) -> (r: bool)
    ensures
        r == exists|i: int| 0 <= i < v@.len() && is_ws(#[trigger] v@[i]),
{
    for i in 0..v.len()
        invariant
            forall|x: int| 0 <= x < i ==> !is_ws(#[trigger] v@[x]),
    {
        if crate::filenames::ws_char_pub(v[i]) {
            return true;
        }
    }
    false
}

fn has_dot(v: &Vec<char>) -> (r: bool)
    ensures
        r == exists|i: int| 0 <= i < v@.len() && #[trigger] v@[i] == '.',
{
    for i in 0..v.len()
        invariant
            forall|x: int| 0 <= x < i ==> #[trigger] v@[x] != '.',
    {
        if v[i] == '.' {
            return true;
        }
    }
    false
}

fn starts_with_localhost(v: &Vec<char>) -> (r: bool)
    ensures
        r == (v@.len() >= "localhost"@.len() && v@.take("localhost"@.len() as int) == "localhost"@),
{
    let l = chars_of("localhost");
    if v.len() < l.len() {
        return false;
    }
    for i in 0..l.len()
        invariant
            l@ == "localhost"@,
            v@.len() >= l@.len(),
            forall|x: int| 0 <= x < i ==> v@[x] == l@[x],
    {
        if v[i] != l[i] {
            proof {
                assert(v@.take(l@.len() as int)[i as int] != l@[i as int]);
            }
            return false;
        }
    }
    proof {
        assert(v@.take(l@.len() as int) =~= l@);
    }
    true
}

/// `r` is what resolving the address-bar text `input` with the search
/// template `template` gives: the trimmed text itself when it parses with a
/// web scheme, an error for a dangerous scheme, `https://` in front when it
/// reads as a bare host, else a search.
pub open spec fn resolves_to(input: Seq<char>, template: Seq<char>, r: Result<ParsedUrl, UrlError>) -> bool {
        ({
            let t = trim_ws(input);
            let direct = url_parts(t);
            let hosted = url_parts("https://"@ + t);
            let searched = url_parts(search_target(t, template));
            if t.len() == 0 {
                r == Err::<ParsedUrl, UrlError>(UrlError::Empty)
            } else if direct is Ok && dangerous(direct->Ok_0.0) {
                r matches Err(UrlError::DangerousScheme(s)) && s@ == direct->Ok_0.0
            } else if direct is Ok && web_scheme(direct->Ok_0.0) {
                r matches Ok(p) && parts_of(p) == direct->Ok_0
            } else if looks_like_host(t) && hosted is Ok && hosted->Ok_0.2 {
                r matches Ok(p) && parts_of(p) == hosted->Ok_0
            } else {
                match searched {
                    Ok(q) => r matches Ok(p) && parts_of(p) == q,
                    Err(m) => r matches Err(UrlError::Invalid(x)) && x@ == m,
                }
            }
        })
}

/// Trimming twice trims no more than trimming once.
pub proof fn lemma_trim_ws_idempotent(s: Seq<char>)
    ensures
        trim_ws(trim_ws(s)) == trim_ws(s),
{
    let p = crate::filenames::ws_pred();
    let a = trim_front(s, p);
    let t = trim_back(a, p);
    lemma_trim_front_sub(s, p);
    lemma_trim_back_sub(a, p);
    if t.len() > 0 {
        assert(t[0] == a[0]);
        assert(trim_front(t, p) == t);
        assert(trim_back(t, p) == t);
    } else {
        assert(trim_front(t, p) == t);
        assert(trim_back(t, p) == t);
    }
}

/// Resolving address-bar text gives the same answer as resolving its
/// trimmed form.
pub proof fn lemma_resolve_ignores_surrounding_space(input: Seq<char>, template: Seq<char>, r: Result<ParsedUrl, UrlError>)
    ensures
        resolves_to(input, template, r) == resolves_to(trim_ws(input), template, r),
{
    lemma_trim_ws_idempotent(input);
}

/// Resolve address-bar input into a URL: the input itself when it parses
/// with a web scheme, an error for a dangerous scheme, `https://` in front
/// when it reads as a bare host, else a search through `search_template`
/// (whose `%s` receives the form-encoded query).
pub fn resolve_input(input: &str, search_template: &str) -> (r: Result<ParsedUrl, UrlError>)
    ensures
        resolves_to(input@, search_template@, r),
        (r matches Err(UrlError::Empty)) <==> trim_ws(input@).len() == 0,
        web_prefixed(search_template@) ==> (r matches Ok(p) ==> web_scheme(p.scheme@)),
{
    let chars = chars_of(input);
    let tv = crate::filenames::trim_whitespace_pub(&chars);
    if tv.len() == 0 {
        return Err(UrlError::Empty);
    }
    let t = string_of(&tv);
    match parse_url(t.as_str()) {
        Ok(u) => {
            if is_dangerous(u.scheme.as_str()) {
                return Err(UrlError::DangerousScheme(u.scheme));
            }
            if is_web(u.scheme.as_str()) {
                return Ok(u);
            }
        },
        Err(_) => {},
    }
    if !has_ws(&tv) && (has_dot(&tv) || starts_with_localhost(&tv)) {
        let with_scheme = concat3("https://", t.as_str(), "");
        proof {
            reveal_strlit("");
            reveal_strlit("https://");
            reveal_strlit("https");
            assert(with_scheme@ =~= "https://"@ + t@);
            assert(with_scheme@.take(5) =~= "https"@);
            assert(opens_with_scheme(with_scheme@, "https"@));
        }
        match parse_url(with_scheme.as_str()) {
            Ok(u) => {
                if u.has_host {
                    return Ok(u);
                }
            },
            Err(_) => {},
        }
    }
    let query = form_encode(t.as_str());
    proof {
        reveal_strlit("%s");
    }
    let target = replace_all(search_template, "%s", query.as_str());
    proof {
        let tp = search_template@;
        let tg = target@;
        if web_prefixed(tp) {
            reveal_strlit("http");
            reveal_strlit("https");
            let name = if opens_with_scheme(tp, "http"@) { "http"@ } else { "https"@ };
            let k = name.len() + 1;
            assert(opens_with_scheme(tp, name));
            assert forall|i: int| 0 <= i < k implies #[trigger] tp[i] != "%s"@[0] by {
                if i < name.len() {
                    assert(tp.take(name.len() as int)[i] == tp[i]);
                }
            }
            lemma_replaced_keeps_prefix(tp, "%s"@, query@, k as int);
            assert forall|i: int| 0 <= i < k implies #[trigger] tg[i] == tp[i] by {
                assert(tg.take(k as int)[i] == tp.take(k as int)[i]);
            }
            assert(tg.take(name.len() as int) =~= tp.take(name.len() as int));
            assert(opens_with_scheme(tg, name));
            assert(web_prefixed(tg));
        }
    }
    match parse_url(target.as_str()) {
        Ok(u) => Ok(u),
        Err(m) => Err(UrlError::Invalid(m)),
    }
}

} // verus!
