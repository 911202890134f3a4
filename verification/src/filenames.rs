//! Safe download file names: sanitising server-suggested names, deriving a
//! name from a URL, and choosing a name that collides with nothing on disk.
use vstd::prelude::*;
use vstd::utf8::{decode_utf8, is_ascii_chars, valid_utf8};

use crate::address::{read_url, url_reading};
use crate::tabs::audit::contains_str;
use crate::tabs::contains_id;
use crate::text::{chars_of, string_of};

verus! {

// ---------------------------------------------------------------------------
// Character classes.
// ---------------------------------------------------------------------------

/// A path separator on either platform.
pub open spec fn is_sep(c: char) -> bool {
    c == '/' || c == '\\'
}

/// Unicode `White_Space`, the set `char::is_whitespace` tests.
pub open spec fn is_ws(c: char) -> bool {
    ||| '\u{9}' <= c <= '\u{d}'
    ||| c == ' '
    ||| c == '\u{85}'
    ||| c == '\u{a0}'
    ||| c == '\u{1680}'
    ||| '\u{2000}' <= c <= '\u{200a}'
    ||| c == '\u{2028}'
    ||| c == '\u{2029}'
    ||| c == '\u{202f}'
    ||| c == '\u{205f}'
    ||| c == '\u{3000}'
}

/// Unicode general category `Cc`, the set `char::is_control` tests.
pub open spec fn is_cc(c: char) -> bool {
    c <= '\u{1f}' || '\u{7f}' <= c <= '\u{9f}'
}

/// Characters a file name may keep.
pub open spec fn keeps(c: char) -> bool {
    !is_cc(c) && c != ':' && c != '\0'
}

pub open spec fn is_dot(c: char) -> bool {
    c == '.'
}

pub open spec fn is_dot_or_space(c: char) -> bool {
    c == '.' || c == ' '
}

/// The predicates the trims use.
pub open spec fn ws_pred() -> spec_fn(char) -> bool {
    |c: char| is_ws(c)
}

pub open spec fn dot_pred() -> spec_fn(char) -> bool {
    |c: char| is_dot(c)
}

pub open spec fn dot_space_pred() -> spec_fn(char) -> bool {
    |c: char| is_dot_or_space(c)
}

fn sep_char(c: char) -> (r: bool)
    ensures
        r == is_sep(c),
{
    c == '/' || c == '\\'
}

fn ws_char(c: char) -> (r: bool)
    ensures
        r == is_ws(c),
{
    ('\u{9}' <= c && c <= '\u{d}') || c == ' ' || c == '\u{85}' || c == '\u{a0}' || c == '\u{1680}'
        || ('\u{2000}' <= c && c <= '\u{200a}') || c == '\u{2028}' || c == '\u{2029}' || c == '\u{202f}'
        || c == '\u{205f}' || c == '\u{3000}'
}

/// Whether `c` is whitespace, as `char::is_whitespace`.
pub fn ws_char_pub(c: char) -> (r: bool)
    ensures
        r == is_ws(c),
{
    ws_char(c)
}

fn keep_char(c: char) -> (r: bool)
    ensures
        r == keeps(c),
{
    !(c <= '\u{1f}' || ('\u{7f}' <= c && c <= '\u{9f}')) && c != ':' && c != '\0'
}

// ---------------------------------------------------------------------------
// Sequence operations, stated directly.
// ---------------------------------------------------------------------------

/// What follows the last separator (all of `s` when there is none).
pub open spec fn after_last_sep(s: Seq<char>) -> Seq<char>
    decreases s.len(),
{
    if s.len() == 0 {
        s
    } else if is_sep(s.last()) {
        Seq::empty()
    } else {
        after_last_sep(s.drop_last()).push(s.last())
    }
}

/// `s` without its leading characters satisfying `p`.
pub open spec fn trim_front(s: Seq<char>, p: spec_fn(char) -> bool) -> Seq<char>
    decreases s.len(),
{
    if s.len() > 0 && p(s[0]) {
        trim_front(s.drop_first(), p)
    } else {
        s
    }
}

/// `s` without its trailing characters satisfying `p`.
pub open spec fn trim_back(s: Seq<char>, p: spec_fn(char) -> bool) -> Seq<char>
    decreases s.len(),
{
    if s.len() > 0 && p(s.last()) {
        trim_back(s.drop_last(), p)
    } else {
        s
    }
}

/// The characters of `s` a file name may keep, in order.
pub open spec fn kept_chars(s: Seq<char>) -> Seq<char>
    decreases s.len(),
{
    if s.len() == 0 {
        s
    } else if keeps(s.last()) {
        kept_chars(s.drop_last()).push(s.last())
    } else {
        kept_chars(s.drop_last())
    }
}

/// Index of the last `.` in `s`, or -1.
pub open spec fn last_dot(s: Seq<char>) -> int
    decreases s.len(),
{
    if s.len() == 0 {
        -1
    } else if s.last() == '.' {
        s.len() - 1
    } else {
        last_dot(s.drop_last())
    }
}

/// The extension of a one-component file name, as `Path::extension` gives
/// it: what follows the final `.`, when that `.` is not the first character.
pub open spec fn name_ext(s: Seq<char>) -> Option<Seq<char>> {
    if last_dot(s) > 0 {
        Some(s.skip(last_dot(s) + 1))
    } else {
        None
    }
}

/// The stem of a one-component file name, as `Path::file_stem` gives it.
pub open spec fn name_stem(s: Seq<char>) -> Seq<char> {
    if last_dot(s) > 0 {
        s.take(last_dot(s))
    } else {
        s
    }
}

/// The cleaned name before the length cap: the last path component, trimmed,
/// without control characters or `:`, without leading dots and without
/// trailing dots and spaces.
pub open spec fn cleaned(s: Seq<char>) -> Seq<char> {
    trim_back(
        trim_front(kept_chars(trim_back(trim_front(after_last_sep(s), ws_pred()), ws_pred())), dot_pred()),
        dot_space_pred(),
    )
}

/// Bytes `c` takes in UTF-8.
pub open spec fn utf8_width(c: char) -> nat {
    if c <= '\u{7f}' {
        1
    } else if c <= '\u{7ff}' {
        2
    } else if c <= '\u{ffff}' {
        3
    } else {
        4
    }
}

/// Bytes `s` takes in UTF-8.
pub open spec fn utf8_len(s: Seq<char>) -> nat
    decreases s.len(),
{
    if s.len() == 0 {
        0
    } else {
        utf8_len(s.drop_last()) + utf8_width(s.last())
    }
}

/// How many leading characters of `s` fit, taken in order, within `n`
/// characters and `budget` bytes.
pub open spec fn fit_count(s: Seq<char>, n: int, budget: int) -> nat
    decreases s.len(),
{
    if s.len() == 0 || n <= 0 || utf8_width(s[0]) > budget {
        0
    } else {
        1 + fit_count(s.drop_first(), n - 1, budget - utf8_width(s[0]))
    }
}

/// A cleaned name longer than 200 bytes, cut to fit: its leading characters
/// (at most 150) then `.` and its extension, when the extension fits beside
/// at least one character; else its leading characters (at most 150, at most
/// 200 bytes) without trailing dots and spaces, or `download` when none are
/// left.
pub open spec fn capped(name: Seq<char>) -> Seq<char> {
    match name_ext(name) {
        Some(e) if e.len() > 0 && name.len() > 0 && utf8_width(name[0]) + 1 + utf8_len(e) <= 200 =>
            name.take(fit_count(name, 150, 199 - utf8_len(e)) as int) + "."@ + e,
        _ => {
            let t = trim_back(name.take(fit_count(name, 150, 200) as int), dot_space_pred());
            if t.len() == 0 {
                "download"@
            } else {
                t
            }
        },
    }
}

/// The name `sanitize_filename` produces.
pub open spec fn sanitized(s: Seq<char>) -> Seq<char> {
    let name = cleaned(s);
    if name.len() == 0 {
        "download"@
    } else if utf8_len(name) > 200 {
        capped(name)
    } else {
        name
    }
}

/// One safe path component: not empty, no separator, control character or
/// `:`, not hidden (no leading dot), no trailing dot or space.
pub open spec fn safe_component(s: Seq<char>) -> bool {
    &&& s.len() > 0
    &&& forall|i: int| 0 <= i < s.len() ==> !is_sep(#[trigger] s[i]) && keeps(s[i])
    &&& s[0] != '.'
    &&& !is_dot_or_space(s.last())
}

// ---------------------------------------------------------------------------
// Lemmas tying the recursive statements to positions.
// ---------------------------------------------------------------------------

pub proof fn lemma_after_last_sep(s: Seq<char>, k: int)
    requires
        -1 <= k < s.len(),
        k >= 0 ==> is_sep(s[k]),
        forall|j: int| k < j < s.len() ==> !is_sep(#[trigger] s[j]),
    ensures
        after_last_sep(s) == s.skip(k + 1),
    decreases s.len(),
{
    if s.len() == 0 {
        assert(s.skip(k + 1) =~= s);
    } else if k == s.len() - 1 {
        assert(s.skip(k + 1) =~= Seq::<char>::empty());
    } else {
        assert(!is_sep(s[s.len() - 1]));
        lemma_after_last_sep(s.drop_last(), k);
        assert(s.drop_last().skip(k + 1).push(s.last()) =~= s.skip(k + 1));
    }
}

pub proof fn lemma_trim_front(s: Seq<char>, p: spec_fn(char) -> bool, a: int)
    requires
        0 <= a <= s.len(),
        forall|j: int| 0 <= j < a ==> p(#[trigger] s[j]),
        a < s.len() ==> !p(s[a]),
    ensures
        trim_front(s, p) == s.skip(a),
    decreases a,
{
    if a == 0 {
        assert(s.skip(0) =~= s);
    } else {
        assert(p(s[0]));
        assert forall|j: int| 0 <= j < a - 1 implies p(#[trigger] s.drop_first()[j]) by {
            assert(s.drop_first()[j] == s[j + 1]);
        }
        lemma_trim_front(s.drop_first(), p, a - 1);
        assert(s.drop_first().skip(a - 1) =~= s.skip(a));
    }
}

pub proof fn lemma_trim_back(s: Seq<char>, p: spec_fn(char) -> bool, b: int)
    requires
        0 <= b <= s.len(),
        forall|j: int| b <= j < s.len() ==> p(#[trigger] s[j]),
        b > 0 ==> !p(s[b - 1]),
    ensures
        trim_back(s, p) == s.take(b),
    decreases s.len() - b,
{
    if b == s.len() {
        assert(s.take(b) =~= s);
    } else {
        assert(p(s.last()));
        lemma_trim_back(s.drop_last(), p, b);
        assert(s.drop_last().take(b) =~= s.take(b));
    }
}

pub proof fn lemma_last_dot(s: Seq<char>, k: int)
    requires
        -1 <= k < s.len(),
        k >= 0 ==> s[k] == '.',
        forall|j: int| k < j < s.len() ==> #[trigger] s[j] != '.',
    ensures
        last_dot(s) == k,
    decreases s.len(),
{
    if s.len() > 0 && k < s.len() - 1 {
        assert(s.last() != '.');
        lemma_last_dot(s.drop_last(), k);
    }
}

proof fn lemma_after_last_sep_no_sep(s: Seq<char>)
    ensures
        forall|i: int| 0 <= i < after_last_sep(s).len() ==> !is_sep(#[trigger] after_last_sep(s)[i]),
    decreases s.len(),
{
    if s.len() > 0 && !is_sep(s.last()) {
        lemma_after_last_sep_no_sep(s.drop_last());
        let t = after_last_sep(s.drop_last());
        assert forall|i: int| 0 <= i < after_last_sep(s).len() implies !is_sep(#[trigger] after_last_sep(s)[i]) by {
            if i < t.len() {
                assert(after_last_sep(s)[i] == t[i]);
            }
        }
    }
}

proof fn lemma_kept_chars_keep(s: Seq<char>)
    requires
        forall|j: int| 0 <= j < s.len() ==> !is_sep(#[trigger] s[j]),
    ensures
        forall|i: int| 0 <= i < kept_chars(s).len() ==> !is_sep(#[trigger] kept_chars(s)[i]) && keeps(kept_chars(s)[i]),
    decreases s.len(),
{
    if s.len() > 0 {
        let d = s.drop_last();
        assert forall|j: int| 0 <= j < d.len() implies !is_sep(#[trigger] d[j]) by {
            assert(d[j] == s[j]);
        }
        lemma_kept_chars_keep(d);
        let t = kept_chars(d);
        assert forall|i: int| 0 <= i < kept_chars(s).len() implies !is_sep(#[trigger] kept_chars(s)[i]) && keeps(kept_chars(s)[i]) by {
            if i < t.len() {
                assert(kept_chars(s)[i] == t[i]);
            } else {
                assert(s.last() == s[s.len() - 1]);
            }
        }
    }
}

/// What the cleaning keeps: no separator, control character or `:`, no
/// leading dot, no trailing dot or space.
proof fn lemma_cleaned_safe(s: Seq<char>)
    ensures
        forall|i: int| 0 <= i < cleaned(s).len() ==> !is_sep(#[trigger] cleaned(s)[i]) && keeps(cleaned(s)[i]),
        cleaned(s).len() > 0 ==> cleaned(s)[0] != '.' && !is_dot_or_space(cleaned(s).last()),
{
    let a = after_last_sep(s);
    lemma_after_last_sep_no_sep(s);
    let a1 = trim_front(a, ws_pred());
    lemma_trim_front_sub(a, ws_pred());
    let b = trim_back(a1, ws_pred());
    lemma_trim_back_sub(a1, ws_pred());
    assert forall|j: int| 0 <= j < b.len() implies !is_sep(#[trigger] b[j]) by {
        assert(b[j] == a1[j]);
        assert(a1[j] == a[j + a.len() - a1.len()]);
    }
    let k = kept_chars(b);
    lemma_kept_chars_keep(b);
    let d = trim_front(k, dot_pred());
    lemma_trim_front_sub(k, dot_pred());
    let c = trim_back(d, dot_space_pred());
    lemma_trim_back_sub(d, dot_space_pred());
    assert(c == cleaned(s));
    assert forall|i: int| 0 <= i < c.len() implies !is_sep(#[trigger] c[i]) && keeps(c[i]) by {
        assert(c[i] == d[i]);
        assert(d[i] == k[i + k.len() - d.len()]);
    }
    if c.len() > 0 {
        assert(c[0] == d[0]);
        assert(!is_dot(d[0]));
        assert(!is_dot_or_space(c.last()));
    }
}

pub proof fn lemma_utf8_len_concat(a: Seq<char>, b: Seq<char>)
    ensures
        utf8_len(a + b) == utf8_len(a) + utf8_len(b),
    decreases b.len(),
{
    if b.len() == 0 {
        assert(a + b =~= a);
    } else {
        lemma_utf8_len_concat(a, b.drop_last());
        assert((a + b).drop_last() =~= a + b.drop_last());
        assert((a + b).last() == b.last());
    }
}

proof fn lemma_utf8_len_bound(s: Seq<char>)
    ensures
        utf8_len(s) <= 4 * s.len(),
    decreases s.len(),
{
    if s.len() > 0 {
        lemma_utf8_len_bound(s.drop_last());
    }
}

proof fn lemma_last_dot_range(s: Seq<char>)
    ensures
        -1 <= last_dot(s) < s.len(),
    decreases s.len(),
{
    if s.len() > 0 {
        lemma_last_dot_range(s.drop_last());
    }
}

proof fn lemma_utf8_len_one(c: char)
    ensures
        utf8_len(seq![c]) == utf8_width(c),
{
    assert(seq![c].drop_last() =~= Seq::<char>::empty());
    assert(seq![c].last() == c);
    assert(utf8_len(Seq::<char>::empty()) == 0);
}

/// The characters `fit_count` keeps take at most `budget` bytes.
proof fn lemma_fit_count(s: Seq<char>, n: int, budget: int)
    ensures
        fit_count(s, n, budget) <= s.len(),
        utf8_len(s.take(fit_count(s, n, budget) as int)) <= if budget < 0 { 0 } else { budget },
    decreases s.len(),
{
    let k = fit_count(s, n, budget);
    if s.len() == 0 || n <= 0 || utf8_width(s[0]) > budget {
        assert(s.take(0) =~= Seq::<char>::empty());
    } else {
        let t = s.drop_first();
        let w = utf8_width(s[0]);
        lemma_fit_count(t, n - 1, budget - w);
        let f = fit_count(t, n - 1, budget - w);
        assert(s.take(k as int) =~= seq![s[0]] + t.take(f as int));
        lemma_utf8_len_concat(seq![s[0]], t.take(f as int));
        lemma_utf8_len_one(s[0]);
    }
}

/// A sanitised name is one safe path component of at most 200 bytes.
pub proof fn lemma_sanitized_safe(s: Seq<char>)
    ensures
        safe_component(sanitized(s)),
        utf8_len(sanitized(s)) <= 200,
{
    let name = cleaned(s);
    lemma_cleaned_safe(s);
    let dl = "download"@;
    assert(safe_component(dl) && utf8_len(dl) <= 200) by {
        reveal_strlit("download");
        lemma_utf8_len_bound(dl);
    }
    if name.len() > 0 && utf8_len(name) > 200 {
        match name_ext(name) {
            Some(e) if e.len() > 0 && name.len() > 0 && utf8_width(name[0]) + 1 + utf8_len(e) <= 200 => {
                let k = fit_count(name, 150, 199 - utf8_len(e));
                lemma_fit_count(name, 150, 199 - utf8_len(e));
                let p = name.take(k as int);
                let dot = "."@;
                assert(dot.len() == 1 && dot[0] == '.') by {
                    reveal_strlit(".");
                }
                let r = p + dot + e;
                assert(r == capped(name));
                assert(k >= 1);
                assert(r[0] == name[0]);
                lemma_last_dot_range(name);
                assert(e == name.skip(last_dot(name) + 1));
                assert(e[e.len() - 1] == name[name.len() - 1]);
                assert(e.last() == name.last());
                assert(r.last() == e.last());
                assert forall|i: int| 0 <= i < r.len() implies !is_sep(#[trigger] r[i]) && keeps(r[i]) by {
                    if i < k {
                        assert(r[i] == name[i]);
                    } else if i > k {
                        assert(r[i] == e[i - k - 1]);
                        assert(e[i - k - 1] == name[i - k - 1 + last_dot(name) + 1]);
                    }
                }
                lemma_utf8_len_concat(p, dot);
                lemma_utf8_len_concat(p + dot, e);
                lemma_utf8_len_one('.');
                assert(dot =~= seq!['.']);
            },
            _ => {
                let k = fit_count(name, 150, 200);
                lemma_fit_count(name, 150, 200);
                let q = name.take(k as int);
                let t = trim_back(q, dot_space_pred());
                lemma_trim_back_sub(q, dot_space_pred());
                if t.len() > 0 {
                    assert(t[0] == name[0]);
                    assert forall|i: int| 0 <= i < t.len() implies !is_sep(#[trigger] t[i]) && keeps(t[i]) by {
                        assert(t[i] == name[i]);
                    }
                    assert(t =~= q.take(t.len() as int));
                    lemma_utf8_len_prefix(q, t.len() as int);
                }
            },
        }
    }
}

// ---------------------------------------------------------------------------
// Executable steps.
// ---------------------------------------------------------------------------

/// The characters of `v` from `a` up to (not including) `b`.
fn slice_chars(v: &Vec<char>, a: usize, b: usize) -> (r: Vec<char>)
    requires
        a <= b <= v@.len(),
    ensures
        r@ == v@.subrange(a as int, b as int),
{
    let mut out: Vec<char> = Vec::new();
    let mut i = a;
    while i < b
        invariant
            a <= i <= b <= v@.len(),
            out@ == v@.subrange(a as int, i as int),
        decreases b - i,
    {
        out.push(v[i]);
        proof {
            assert(v@.subrange(a as int, i as int).push(v@[i as int]) =~= v@.subrange(a as int, i + 1));
        }
        i = i + 1;
    }
    out
}

fn last_component(v: &Vec<char>) -> (r: Vec<char>)
    ensures
        r@ == after_last_sep(v@),
{
    let mut k = v.len();
    while k > 0
        invariant
            k <= v@.len(),
            forall|j: int| k <= j < v@.len() ==> !is_sep(#[trigger] v@[j]),
        decreases k,
    {
        if sep_char(v[k - 1]) {
            proof {
                lemma_after_last_sep(v@, k - 1);
            }
            return slice_chars(v, k, v.len());
        }
        k = k - 1;
    }
    proof {
        lemma_after_last_sep(v@, -1);
        assert(v@.skip(0) =~= v@.subrange(0, v@.len() as int));
    }
    slice_chars(v, 0, v.len())
}

fn trim_whitespace(v: &Vec<char>) -> (r: Vec<char>)
    ensures
        r@ == trim_back(trim_front(v@, ws_pred()), ws_pred()),
{
    let ghost p = ws_pred();
    let mut a: usize = 0;
    while a < v.len() && ws_char(v[a])
        invariant
            a <= v@.len(),
            forall|j: int| 0 <= j < a ==> is_ws(#[trigger] v@[j]),
        decreases v@.len() - a,
    {
        a = a + 1;
    }
    proof {
        lemma_trim_front(v@, p, a as int);
    }
    let mut b: usize = v.len();
    while b > a && ws_char(v[b - 1])
        invariant
            a <= b <= v@.len(),
            forall|j: int| b <= j < v@.len() ==> is_ws(#[trigger] v@[j]),
        decreases b,
    {
        b = b - 1;
    }
    proof {
        let t = v@.skip(a as int);
        assert forall|j: int| b - a <= j < t.len() implies p(#[trigger] t[j]) by {
            assert(t[j] == v@[j + a]);
        }
        if b > a {
            assert(t[b - a - 1] == v@[b - 1]);
        }
        lemma_trim_back(t, p, b - a);
        assert(t.take(b - a) =~= v@.subrange(a as int, b as int));
    }
    slice_chars(v, a, b)
}

/// `v` without leading and trailing whitespace, as `str::trim`.
pub fn trim_whitespace_pub(v: &Vec<char>) -> (r: Vec<char>)
    ensures
        r@ == trim_ws(v@),
{
    trim_whitespace(v)
}

fn keep_name_chars(v: &Vec<char>) -> (r: Vec<char>)
    ensures
        r@ == kept_chars(v@),
{
    let mut out: Vec<char> = Vec::new();
    for i in 0..v.len()
        invariant
            out@ == kept_chars(v@.take(i as int)),
    {
        proof {
            assert(v@.take(i + 1).drop_last() =~= v@.take(i as int));
            assert(v@.take(i + 1).last() == v@[i as int]);
        }
        if keep_char(v[i]) {
            out.push(v[i]);
        }
    }
    proof {
        assert(v@.take(v@.len() as int) =~= v@);
    }
    out
}

fn strip_dots_front(v: &Vec<char>) -> (r: Vec<char>)
    ensures
        r@ == trim_front(v@, dot_pred()),
{
    let ghost p = dot_pred();
    let mut a: usize = 0;
    while a < v.len() && v[a] == '.'
        invariant
            a <= v@.len(),
            forall|j: int| 0 <= j < a ==> is_dot(#[trigger] v@[j]),
        decreases v@.len() - a,
    {
        a = a + 1;
    }
    proof {
        lemma_trim_front(v@, p, a as int);
        assert(v@.skip(a as int) =~= v@.subrange(a as int, v@.len() as int));
    }
    slice_chars(v, a, v.len())
}

fn strip_dots_spaces_back(v: &Vec<char>) -> (r: Vec<char>)
    ensures
        r@ == trim_back(v@, dot_space_pred()),
{
    let ghost p = dot_space_pred();
    let mut b: usize = v.len();
    while b > 0 && (v[b - 1] == '.' || v[b - 1] == ' ')
        invariant
            b <= v@.len(),
            forall|j: int| b <= j < v@.len() ==> is_dot_or_space(#[trigger] v@[j]),
        decreases b,
    {
        b = b - 1;
    }
    proof {
        lemma_trim_back(v@, p, b as int);
        assert(v@.take(b as int) =~= v@.subrange(0, b as int));
    }
    slice_chars(v, 0, b)
}

pub proof fn lemma_utf8_len_prefix(s: Seq<char>, n: int)
    requires
        0 <= n <= s.len(),
    ensures
        utf8_len(s.take(n)) <= utf8_len(s),
    decreases s.len(),
{
    if n < s.len() {
        assert(s.drop_last().take(n) =~= s.take(n));
        lemma_utf8_len_prefix(s.drop_last(), n);
    } else {
        assert(s.take(n) =~= s);
    }
}

fn char_width(c: char) -> (r: usize)
    ensures
        r == utf8_width(c),
        1 <= r <= 4,
{
    if c <= '\u{7f}' {
        1
    } else if c <= '\u{7ff}' {
        2
    } else if c <= '\u{ffff}' {
        3
    } else {
        4
    }
}

/// The bytes `v` takes in UTF-8, when at most `limit`.
fn utf8_count_upto(v: &Vec<char>, limit: usize) -> (r: Option<usize>)
    requires
        limit <= 1000,
    ensures
        match r {
            Some(n) => n == utf8_len(v@) && n <= limit,
            None => utf8_len(v@) > limit,
        },
{
    let mut acc: usize = 0;
    for i in 0..v.len()
        invariant
            acc == utf8_len(v@.take(i as int)),
            acc <= limit <= 1000,
    {
        proof {
            assert(v@.take(i + 1).drop_last() =~= v@.take(i as int));
        }
        acc = acc + char_width(v[i]);
        if acc > limit {
            proof {
                lemma_utf8_len_prefix(v@, i + 1);
            }
            return None;
        }
    }
    proof {
        assert(v@.take(v@.len() as int) =~= v@);
    }
    Some(acc)
}

/// How many leading characters of `v` fit within `n` characters and
/// `budget` bytes.
fn fit_prefix_len(v: &Vec<char>, n: usize, budget: usize) -> (r: usize)
    requires
        budget <= 1000,
    ensures
        r == fit_count(v@, n as int, budget as int),
        r <= v@.len(),
{
    let mut i: usize = 0;
    let mut acc: usize = 0;
    proof {
        assert(v@.skip(0) =~= v@);
    }
    while i < v.len() && i < n && acc + char_width(v[i]) <= budget
        invariant
            i <= v@.len(),
            i <= n,
            acc <= budget <= 1000,
            fit_count(v@, n as int, budget as int) == i + fit_count(v@.skip(i as int), n - i, budget - acc),
        decreases v@.len() - i,
    {
        proof {
            let t = v@.skip(i as int);
            assert(t[0] == v@[i as int]);
            assert(t.drop_first() =~= v@.skip(i + 1));
        }
        acc = acc + char_width(v[i]);
        i = i + 1;
    }
    proof {
        let t = v@.skip(i as int);
        if i < v.len() {
            assert(t[0] == v@[i as int]);
        }
    }
    i
}

/// `out` followed by the characters of `src`.
fn append_chars(out: &mut Vec<char>, src: &Vec<char>)
    ensures
        final(out)@ == old(out)@ + src@,
{
    let ghost base = out@;
    for i in 0..src.len()
        invariant
            out@ == base + src@.take(i as int),
    {
        out.push(src[i]);
        proof {
            assert(base + src@.take(i + 1) =~= (base + src@.take(i as int)).push(src@[i as int]));
        }
    }
    proof {
        assert(src@.take(src@.len() as int) =~= src@);
    }
}

/// Index of the last `.` in `v`, if any.
fn find_last_dot(v: &Vec<char>) -> (r: Option<usize>)
    ensures
        match r {
            Some(k) => k == last_dot(v@) && k < v@.len(),
            None => last_dot(v@) == -1,
        },
{
    let mut k = v.len();
    while k > 0
        invariant
            k <= v@.len(),
            forall|j: int| k <= j < v@.len() ==> #[trigger] v@[j] != '.',
        decreases k,
    {
        if v[k - 1] == '.' {
            proof {
                lemma_last_dot(v@, k - 1);
            }
            return Some(k - 1);
        }
        k = k - 1;
    }
    proof {
        lemma_last_dot(v@, -1);
    }
    None
}

/// Reduce a server-suggested filename to a single safe path component: the
/// last component only, trimmed, without control characters or `:`, never
/// hidden (no leading dots), without trailing dots and spaces, `download`
/// when nothing is left, and cut to at most 200 bytes when longer, keeping
/// the extension where it fits.
pub fn sanitize_filename(suggested: &str) -> (r: String)
    ensures
        r@ == sanitized(suggested@),
        safe_component(r@),
        utf8_len(r@) <= 200,
{
    proof {
        lemma_sanitized_safe(suggested@);
    }
    let chars = chars_of(suggested);
    let last = last_component(&chars);
    let trimmed = trim_whitespace(&last);
    let kept = keep_name_chars(&trimmed);
    let undotted = strip_dots_front(&kept);
    let name = strip_dots_spaces_back(&undotted);
    if name.len() == 0 {
        return "download".to_string();
    }
    if utf8_count_upto(&name, 200).is_some() {
        return string_of(&name);
    }
    match find_last_dot(&name) {
        Some(k) => {
            if k > 0 && k + 1 < name.len() {
                let ext = slice_chars(&name, k + 1, name.len());
                proof {
                    assert(name@.skip(k + 1) =~= ext@);
                }
                let w0 = char_width(name[0]);
                match utf8_count_upto(&ext, 199 - w0) {
                    Some(eb) => {
                        let keep = fit_prefix_len(&name, 150, 199 - eb);
                        let mut out = slice_chars(&name, 0, keep);
                        out.push('.');
                        append_chars(&mut out, &ext);
                        proof {
                            reveal_strlit(".");
                            assert(out@ =~= name@.take(keep as int) + "."@ + ext@);
                        }
                        return string_of(&out);
                    },
                    None => {},
                }
            }
        },
        None => {},
    }
    let keep = fit_prefix_len(&name, 150, 200);
    let head = slice_chars(&name, 0, keep);
    proof {
        assert(head@ =~= name@.take(keep as int));
    }
    let t = strip_dots_spaces_back(&head);
    if t.len() == 0 {
        return "download".to_string();
    }
    string_of(&t)
}

// ---------------------------------------------------------------------------
// Percent-decoding.
// ---------------------------------------------------------------------------

/// Value of a hexadecimal digit, or -1.
pub open spec fn hex_value(c: char) -> int {
    if '0' <= c <= '9' {
        c as int - '0' as int
    } else if 'a' <= c <= 'f' {
        c as int - 'a' as int + 10
    } else if 'A' <= c <= 'F' {
        c as int - 'A' as int + 10
    } else {
        -1
    }
}

/// What `u8::from_str_radix(a b, 16)` gives for a two-character string: an
/// optional `+` sign followed by digits.
pub open spec fn radix16_pair(a: char, b: char) -> Option<u8> {
    if a == '+' && hex_value(b) >= 0 {
        Some(hex_value(b) as u8)
    } else if hex_value(a) >= 0 && hex_value(b) >= 0 {
        Some((16 * hex_value(a) + hex_value(b)) as u8)
    } else {
        None
    }
}

/// Bytes of the ASCII text `s` with each `%` followed by a parseable pair of
/// characters replaced by the byte they denote.
pub open spec fn pct_decoded(s: Seq<char>) -> Seq<u8>
    decreases s.len(),
{
    if s.len() == 0 {
        Seq::empty()
    } else if s.len() >= 3 && s[0] == '%' && radix16_pair(s[1], s[2]) is Some {
        seq![radix16_pair(s[1], s[2])->0] + pct_decoded(s.skip(3))
    } else {
        seq![s[0] as u8] + pct_decoded(s.skip(1))
    }
}

/// What `String::from_utf8_lossy` makes of `bytes`.
pub uninterp spec fn utf8_lossy(bytes: Seq<u8>) -> Seq<char>;

/// Calls `String::from_utf8_lossy`. The result is named by `utf8_lossy`;
/// std documents that on valid UTF-8 it is the decoded text. How invalid
/// sequences are replaced is left unsaid.
#[verifier::external_body]
fn lossy_string(bytes: &Vec<u8>) -> (r: String)
    ensures
        r@ == utf8_lossy(bytes@),
        valid_utf8(bytes@) ==> r@ == decode_utf8(bytes@),
{
    String::from_utf8_lossy(bytes.as_slice()).into_owned()
}

fn hex_digit(c: char) -> (r: Option<u8>)
    ensures
        match r {
            Some(v) => hex_value(c) >= 0 && v == hex_value(c),
            None => hex_value(c) == -1,
        },
{
    if '0' <= c && c <= '9' {
        Some((c as u32 - '0' as u32) as u8)
    } else if 'a' <= c && c <= 'f' {
        Some((c as u32 - 'a' as u32 + 10) as u8)
    } else if 'A' <= c && c <= 'F' {
        Some((c as u32 - 'A' as u32 + 10) as u8)
    } else {
        None
    }
}

fn radix16(a: char, b: char) -> (r: Option<u8>)
    ensures
        r == radix16_pair(a, b),
{
    let lo = match hex_digit(b) {
        Some(v) => v,
        None => return None,
    };
    if a == '+' {
        return Some(lo);
    }
    match hex_digit(a) {
        Some(hi) => Some(16 * hi + lo),
        None => None,
    }
}

/// Decode `%XX` escapes of the ASCII text `s` into bytes and read them as
/// UTF-8, replacing invalid sequences.
pub fn percent_decode(s: &str) -> (r: String)
    requires
        is_ascii_chars(s@),
    ensures
        r@ == utf8_lossy(pct_decoded(s@)),
        valid_utf8(pct_decoded(s@)) ==> r@ == decode_utf8(pct_decoded(s@)),
{
    let v = chars_of(s);
    let mut out: Vec<u8> = Vec::new();
    let mut i: usize = 0;
    proof {
        assert(v@.skip(0) =~= v@);
        assert(out@ + pct_decoded(v@) =~= pct_decoded(v@));
    }
    while i < v.len()
        invariant
            i <= v@.len(),
            v@ == s@,
            is_ascii_chars(v@),
            pct_decoded(v@) == out@ + pct_decoded(v@.skip(i as int)),
        decreases v@.len() - i,
    {
        let ghost rest = v@.skip(i as int);
        if v[i] == '%' && v.len() - i > 2 {
            match radix16(v[i + 1], v[i + 2]) {
                Some(b) => {
                    proof {
                        assert(rest[1] == v@[i + 1] && rest[2] == v@[i + 2]);
                        assert(rest.skip(3) =~= v@.skip(i + 3));
                        assert(out@.push(b) + pct_decoded(v@.skip(i + 3)) =~= out@ + (seq![b] + pct_decoded(v@.skip(i + 3))));
                    }
                    out.push(b);
                    i = i + 3;
                    continue;
                },
                None => {},
            }
        }
        let c = v[i];
        proof {
            assert(rest[0] == c);
            assert(rest.skip(1) =~= v@.skip(i + 1));
            assert('\0' <= v@[i as int] <= '\u{7f}');
        }
        let b = c as u8;
        proof {
            assert(out@.push(b) + pct_decoded(v@.skip(i + 1)) =~= out@ + (seq![b] + pct_decoded(v@.skip(i + 1))));
        }
        out.push(b);
        i = i + 1;
    }
    proof {
        assert(v@.skip(v@.len() as int) =~= Seq::<char>::empty());
        assert(out@ + Seq::<u8>::empty() =~= out@);
    }
    lossy_string(&out)
}

// ---------------------------------------------------------------------------
// Names derived from URLs.
// ---------------------------------------------------------------------------

/// The last path segment `url::Url` reports for the text `url`, or `None`
/// when it does not parse or has no path segments.
pub open spec fn url_last_segment(url: Seq<char>) -> Option<Seq<char>> {
    match url_reading(url) {
        Ok(t) => t.3,
        Err(_) => None,
    }
}

/// The last path segment of `url`, when it parses and has one.
fn last_path_segment(url: &str) -> (r: Option<String>)
    ensures
        match r {
            Some(s) => url_last_segment(url@) == Some(s@) && is_ascii_chars(s@),
            None => url_last_segment(url@) is None,
        },
{
    match read_url(url) {
        Ok(u) => u.last_segment,
        Err(_) => None,
    }
}

/// `s` without leading and trailing whitespace.
pub open spec fn trim_ws(s: Seq<char>) -> Seq<char> {
    trim_back(trim_front(s, ws_pred()), ws_pred())
}

/// The file name a URL path segment suggests: the segment trimmed,
/// percent-decoded and sanitised; `None` when nothing is left after
/// trimming.
pub fn name_from_segment(seg: &str) -> (r: Option<String>)
    requires
        is_ascii_chars(seg@),
    ensures
        match r {
            None => trim_ws(seg@).len() == 0,
            Some(n) => trim_ws(seg@).len() > 0 && n@ == sanitized(utf8_lossy(pct_decoded(trim_ws(seg@))))
                && (valid_utf8(pct_decoded(trim_ws(seg@))) ==> n@ == sanitized(decode_utf8(pct_decoded(trim_ws(seg@))))),
        },
{
    let trimmed = trim_whitespace(&chars_of(seg));
    if trimmed.len() == 0 {
        return None;
    }
    let text = string_of(&trimmed);
    proof {
        let a = trim_front(seg@, ws_pred());
        assert(is_ascii_chars(trimmed@)) by {
            assert forall|i: int| 0 <= i < trimmed@.len() implies '\0' <= #[trigger] trimmed@[i] <= '\u{7f}' by {
                lemma_trim_front_sub(seg@, ws_pred());
                lemma_trim_back_sub(a, ws_pred());
                let off = seg@.len() - a.len();
                assert(trimmed@[i] == a[i]);
                assert(a[i] == seg@[i + off]);
            }
        }
    }
    let decoded = percent_decode(text.as_str());
    Some(sanitize_filename(decoded.as_str()))
}

/// The file name a URL suggests: its last path segment, trimmed,
/// percent-decoded and sanitised; `None` for an unparseable URL or an empty
/// last segment.
pub fn suggested_name_from_url(url: &str) -> (r: Option<String>)
    ensures
        match url_last_segment(url@) {
            None => r is None,
            Some(seg) => if trim_ws(seg).len() == 0 {
                r is None
            } else {
                r is Some && r->0@ == sanitized(utf8_lossy(pct_decoded(trim_ws(seg)))) && (valid_utf8(pct_decoded(trim_ws(seg)))
                    ==> r->0@ == sanitized(decode_utf8(pct_decoded(trim_ws(seg)))))
            },
        },
{
    match last_path_segment(url) {
        Some(seg) => name_from_segment(seg.as_str()),
        None => None,
    }
}

/// `trim_front` keeps a suffix.
pub proof fn lemma_trim_front_sub(s: Seq<char>, p: spec_fn(char) -> bool)
    ensures
        trim_front(s, p).len() <= s.len(),
        forall|i: int| 0 <= i < trim_front(s, p).len() ==> #[trigger] trim_front(s, p)[i] == s[i + s.len() - trim_front(s, p).len()],
        trim_front(s, p).len() > 0 ==> !p(trim_front(s, p)[0]),
    decreases s.len(),
{
    if s.len() > 0 && p(s[0]) {
        lemma_trim_front_sub(s.drop_first(), p);
    }
}

/// `trim_back` keeps a prefix.
pub proof fn lemma_trim_back_sub(s: Seq<char>, p: spec_fn(char) -> bool)
    ensures
        trim_back(s, p).len() <= s.len(),
        forall|i: int| 0 <= i < trim_back(s, p).len() ==> #[trigger] trim_back(s, p)[i] == s[i],
        trim_back(s, p).len() > 0 ==> !p(trim_back(s, p).last()),
    decreases s.len(),
{
    if s.len() > 0 && p(s.last()) {
        lemma_trim_back_sub(s.drop_last(), p);
    }
}

// ---------------------------------------------------------------------------
// Collision-free names.
// ---------------------------------------------------------------------------

/// The decimal digit `d`.
pub open spec fn digit_char(d: nat) -> char {
    ((48 + d) as u8) as char
}

/// The decimal numeral of `n`.
pub open spec fn decimal(n: nat) -> Seq<char>
    decreases n,
{
    if n < 10 {
        seq![digit_char(n)]
    } else {
        decimal(n / 10).push(digit_char(n % 10))
    }
}

/// The `n`th name tried for `safe`: `safe` itself, then `stem (n).ext`.
pub open spec fn candidate_name(safe: Seq<char>, n: nat) -> Seq<char> {
    if n == 1 {
        safe
    } else {
        match name_ext(safe) {
            Some(e) => name_stem(safe) + " ("@ + decimal(n) + ")."@ + e,
            None => name_stem(safe) + " ("@ + decimal(n) + ")"@,
        }
    }
}

/// `c` is in use in a directory holding `existing`: as a file, or as the
/// `.part` file of a download in flight.
pub open spec fn name_taken(existing: Seq<String>, c: Seq<char>) -> bool {
    contains_id(existing, c) || contains_id(existing, c + ".part"@)
}

/// The decimal numeral of `n`.
pub fn decimal_string(n: u32) -> (r: String)
    ensures
        r@ == decimal(n as nat),
    decreases n,
{
    let d = (n % 10) as u8;
    let c = (48u8 + d) as char;
    if n < 10 {
        let mut s = String::new();
        s.push(c);
        s
    } else {
        let mut s = decimal_string(n / 10);
        s.push(c);
        s
    }
}

fn push_all(out: &mut String, s: &str)
    ensures
        final(out)@ == old(out)@ + s@,
{
    out.push_str(s);
}

/// The first name for `name` that nothing in a directory holding `existing`
/// uses: the sanitised name, then `stem (2).ext`, `stem (3).ext`, ...; `None`
/// only when every counter up to `u32::MAX` is in use.
pub fn collision_safe_path(existing: &Vec<String>, name: &str) -> (r: Option<String>)
    ensures
        match r {
            Some(c) => exists|n: nat|
                1 <= n <= u32::MAX && c@ == candidate_name(sanitized(name@), n) && !name_taken(existing@, c@)
                    && forall|m: nat| 1 <= m < n ==> name_taken(existing@, #[trigger] candidate_name(sanitized(name@), m)),
            None => forall|m: nat| 1 <= m <= u32::MAX ==> name_taken(existing@, #[trigger] candidate_name(sanitized(name@), m)),
        },
{
    let safe = sanitize_filename(name);
    let chars = chars_of(safe.as_str());
    let dot = find_last_dot(&chars);
    let (stem, ext) = match dot {
        Some(k) => {
            if k > 0 && k < chars.len() {
                (string_of(&slice_chars(&chars, 0, k)), Some(string_of(&slice_chars(&chars, k + 1, chars.len()))))
            } else {
                (safe.clone(), None)
            }
        },
        None => (safe.clone(), None),
    };
    proof {
        match dot {
            Some(k) => {
                if k > 0 {
                    assert(chars@.take(k as int) =~= chars@.subrange(0, k as int));
                    assert(chars@.skip(k + 1) =~= chars@.subrange(k + 1, chars@.len() as int));
                }
            },
            None => {},
        }
    }
    let mut n: u32 = 1;
    loop
        invariant
            1 <= n,
            safe@ == sanitized(name@),
            stem@ == name_stem(safe@),
            match ext {
                Some(e) => name_ext(safe@) == Some(e@),
                None => name_ext(safe@) is None,
            },
            forall|m: nat| 1 <= m < n ==> name_taken(existing@, #[trigger] candidate_name(sanitized(name@), m)),
        decreases u32::MAX - n,
    {
        let cand = if n == 1 {
            safe.clone()
        } else {
            let mut c = stem.clone();
            push_all(&mut c, " (");
            let digits = decimal_string(n);
            push_all(&mut c, digits.as_str());
            match &ext {
                Some(e) => {
                    push_all(&mut c, ").");
                    push_all(&mut c, e.as_str());
                },
                None => {
                    push_all(&mut c, ")");
                },
            }
            c
        };
        let mut part = cand.clone();
        push_all(&mut part, ".part");
        proof {
            reveal_strlit(" (");
            reveal_strlit(").");
            reveal_strlit(")");
            reveal_strlit(".part");
            assert(cand@ == candidate_name(sanitized(name@), n as nat));
        }
        if !contains_str(existing, &cand) && !contains_str(existing, &part) {
            return Some(cand);
        }
        if n == u32::MAX {
            return None;
        }
        n = n + 1;
    }
}

} // verus!
