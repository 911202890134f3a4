//! Content-blocker rule lists for the WebKit backend. Filter lists are
//! converted to Apple content-blocker rules (by the `adblock` crate) and
//! rendered as one JSON array, which the shell compiles. WebKit caps a rule
//! list at 150 000 rules: a longer list is cut, keeping a closing rule that
//! leaves first-party documents unblocked; subtitle files are always exempt,
//! by rules that close the list.
use vstd::prelude::*;

use crate::adblock::texts;
use crate::embedding::{json_quoted, json_string};
use crate::text::concat3;

verus! {

#[verifier::external_type_specification]
#[verifier::external_body]
pub struct ExCbRule(adblock::content_blocking::CbRule);

/// WebKit's documented per-list rule cap.
pub const WEBKIT_MAX_RULES: usize = 150000;

/// Subtitle and caption resources. No ad is served as one, but broad rules
/// can catch them, and a blocked caption file fails silently; these patterns
/// close the rule list as `ignore-previous-rules`, so they always win.
pub open spec fn subtitle_filters() -> Seq<Seq<char>> {
    seq![
        "\\.vtt([?#].*)?$"@,
        "\\.webvtt([?#].*)?$"@,
        "\\.srt([?#].*)?$"@,
        "\\.ttml([?#].*)?$"@,
        "\\.dfxp([?#].*)?$"@,
        "/api/timedtext\\?"@,
    ]
}

/// The subtitle patterns, in order.
pub fn subtitle_url_filters() -> (r: Vec<&'static str>)
    ensures
        r@.len() == subtitle_filters().len(),
        forall|i: int| 0 <= i < r@.len() ==> (#[trigger] r@[i])@ == subtitle_filters()[i],
{
    let r = vec![
        "\\.vtt([?#].*)?$",
        "\\.webvtt([?#].*)?$",
        "\\.srt([?#].*)?$",
        "\\.ttml([?#].*)?$",
        "\\.dfxp([?#].*)?$",
        "/api/timedtext\\?",
    ];
    r
}

/// The JSON of the rule exempting URLs that match `filter`, as the JSON
/// writer renders it (keys in order).
pub open spec fn exception_rule_text(filter: Seq<char>) -> Seq<char> {
    "{\"action\":{\"type\":\"ignore-previous-rules\"},\"trigger\":{\"url-filter\":"@ + json_quoted(filter) + "}}"@
}

/// The JSON of the rule exempting URLs that match `filter`.
pub fn exception_rule_json(filter: &str) -> (r: String)
    ensures
        r@ == exception_rule_text(filter@),
{
    let quoted = match json_string(filter) {
        Ok(t) => t,
        Err(_) => String::new(),
    };
    concat3("{\"action\":{\"type\":\"ignore-previous-rules\"},\"trigger\":{\"url-filter\":", quoted.as_str(), "}}")
}

/// How many converted rules fit before the closing exemptions.
pub open spec fn rule_room() -> int {
    WEBKIT_MAX_RULES - subtitle_filters().len()
}

/// `rules` cut to fit: when there are more than `rule_room()`, the first
/// `rule_room() - 1` followed by `fp`; else all of them.
pub open spec fn capped<T>(rules: Seq<T>, fp: T) -> Seq<T> {
    if rules.len() > rule_room() {
        rules.take(rule_room() - 1).push(fp)
    } else {
        rules
    }
}

/// How many rules are left of `n` once cut to fit.
pub open spec fn capped_count(n: int) -> int {
    if n > rule_room() {
        rule_room()
    } else {
        n
    }
}

/// Cut `rules` to WebKit's cap, closing a cut list with `fp` (the rule that
/// leaves first-party documents unblocked).
pub fn cap_rules<T>(rules: Vec<T>, fp: T) -> (r: Vec<T>)
    ensures
        r@ == capped(rules@, fp),
        r@.len() <= rule_room(),
{
    let room = WEBKIT_MAX_RULES - 6;
    let mut v = rules;
    if v.len() > room {
        v.truncate(room - 1);
        v.push(fp);
    }
    v
}

/// `parts` joined by commas.
pub open spec fn comma_joined(parts: Seq<Seq<char>>) -> Seq<char>
    decreases parts.len(),
{
    if parts.len() == 0 {
        Seq::empty()
    } else if parts.len() == 1 {
        parts[0]
    } else {
        comma_joined(parts.drop_last()) + seq![','] + parts.last()
    }
}

/// The rule list as one JSON array: the rules' own JSON, then (only when
/// there is any rule) the subtitle exemptions.
pub open spec fn rule_list_text(rules: Seq<Seq<char>>) -> Seq<char> {
    let all = if rules.len() == 0 {
        rules
    } else {
        rules + subtitle_filters().map_values(|f: Seq<char>| exception_rule_text(f))
    };
    seq!['['] + comma_joined(all) + seq![']']
}

/// Render the rule list from the JSON of each converted rule.
pub fn rule_list_json(rules: &Vec<String>) -> (r: String)
    ensures
        r@ == rule_list_text(texts(rules@)),
{
    let mut parts: Vec<String> = Vec::new();
    let n = rules.len();
    for i in 0..n
        invariant
            n == rules@.len(),
            parts@.len() == i,
            forall|j: int| 0 <= j < i ==> (#[trigger] parts@[j])@ == rules@[j]@,
    {
        parts.push(rules[i].clone());
    }
    let ghost exc = subtitle_filters().map_values(|f: Seq<char>| exception_rule_text(f));
    if n > 0 {
        let filters = subtitle_url_filters();
        let m = filters.len();
        for k in 0..m
            invariant
                n == rules@.len(),
                m == filters@.len(),
                m == subtitle_filters().len(),
                forall|i: int| 0 <= i < m ==> (#[trigger] filters@[i])@ == subtitle_filters()[i],
                parts@.len() == n + k,
                forall|j: int| 0 <= j < n ==> (#[trigger] parts@[j])@ == rules@[j]@,
                forall|j: int| 0 <= j < k ==> (#[trigger] parts@[n + j])@ == exc[j],
                exc == subtitle_filters().map_values(|f: Seq<char>| exception_rule_text(f)),
        {
            parts.push(exception_rule_json(filters[k]));
            proof {
                assert(filters@[k as int]@ == subtitle_filters()[k as int]);
                assert(parts@[n + k as int]@ == exc[k as int]);
            }
        }
    }
    let ghost all = if n == 0 { texts(rules@) } else { texts(rules@) + exc };
    proof {
        assert(texts(parts@) =~= all) by {
            assert forall|j: int| 0 <= j < parts@.len() implies #[trigger] texts(parts@)[j] == all[j] by {
                if j >= n {
                    assert(parts@[n + (j - n)]@ == exc[j - n]);
                }
            }
        }
    }
    let mut out = String::new();
    out.push('[');
    let total = parts.len();
    for i in 0..total
        invariant
            total == parts@.len(),
            out@ == seq!['['] + comma_joined(texts(parts@).take(i as int)),
    {
        proof {
            let t = texts(parts@);
            assert(t.take(i + 1).drop_last() =~= t.take(i as int));
            assert(t.take(i + 1).last() == parts@[i as int]@);
        }
        if i > 0 {
            out.push(',');
        }
        out.push_str(parts[i].as_str());
        proof {
            let t = texts(parts@);
            if i == 0 {
                assert(t.take(1) =~= seq![t[0]]);
                assert(out@ =~= seq!['['] + comma_joined(t.take(1)));
            } else {
                assert(out@ =~= seq!['['] + comma_joined(t.take(i + 1)));
            }
        }
    }
    out.push(']');
    proof {
        assert(texts(parts@).take(total as int) =~= texts(parts@));
    }
    out
}

/// How many rules converting `lists` gives, and how many filters were used
/// for them.
pub uninterp spec fn content_rule_counts(lists: Seq<Seq<char>>) -> (nat, nat);

/// How many network and cosmetic filters `lists::parse_filters` reads from
/// the lines of a list text, in debug mode with default options.
pub uninterp spec fn parsed_filter_counts(text: Seq<char>) -> (nat, nat);

/// How many filters the list texts `ts` hold, all lists together.
pub open spec fn filter_total(ts: Seq<Seq<char>>) -> nat
    decreases ts.len(),
{
    if ts.len() == 0 {
        0
    } else {
        filter_total(ts.drop_last()) + parsed_filter_counts(ts.last()).0 + parsed_filter_counts(ts.last()).1
    }
}

/// Calls `lists::parse_filters` on the lines of `text` in debug mode with
/// default options, as converting a list parses it, and counts the network
/// and cosmetic filters it gives; named by `parsed_filter_counts`.
#[verifier::external_body]
fn parse_filter_counts(text: &String) -> (r: (usize, usize))
    ensures
        parsed_filter_counts(text@) == (r.0 as nat, r.1 as nat),
{
    let (network, cosmetic) = adblock::lists::parse_filters(text.lines(), true, adblock::lists::ParseOptions::default());
    (network.len(), cosmetic.len())
}

/// Calls `FilterSet::new(true)`, `add_filter_list` with default options for
/// each text, and `into_content_blocking`, which orders the rules so that
/// `ignore-previous-rules` ones act correctly; the second number is the
/// length of the list of filters it reports as converted. Its source fails
/// only for a set not made in debug mode, which this one is, and parses each
/// list text with `parse_filters` in that mode with those options, adding
/// one entry to the converted list per filter it converts, so no more than
/// it parsed. The rules are opaque; their counts are named by
/// `content_rule_counts`.
#[verifier::external_body]
fn content_blocking_rules(lists: &Vec<String>) -> (r: Result<(Vec<adblock::content_blocking::CbRule>, usize), ()>)
    ensures
        r is Ok,
        r matches Ok((rules, used)) ==> content_rule_counts(texts(lists@)) == (rules@.len(), used as nat)
            && used <= filter_total(texts(lists@)),
{
    let mut set = adblock::lists::FilterSet::new(true);
    for text in lists.iter() {
        set.add_filter_list(text.clone(), adblock::lists::ParseOptions::default());
    }
    set.into_content_blocking().map(|(rules, used)| (rules, used.len()))
}

/// `n`, or `usize::MAX` when larger.
pub open spec fn clamp_usize(n: nat) -> nat {
    if n > usize::MAX {
        usize::MAX as nat
    } else {
        n
    }
}

/// How many filters the list texts hold, saturating at `usize::MAX`.
fn count_filters(lists: &Vec<String>) -> (r: usize)
    ensures
        r == clamp_usize(filter_total(texts(lists@))),
{
    let mut total: usize = 0;
    for i in 0..lists.len()
        invariant
            total == clamp_usize(filter_total(texts(lists@.take(i as int)))),
    {
        let (n, c) = parse_filter_counts(&lists[i]);
        proof {
            let t = texts(lists@.take(i + 1));
            assert(t.drop_last() =~= texts(lists@.take(i as int)));
            assert(t.last() == lists@[i as int]@);
        }
        total = if total > usize::MAX - n { usize::MAX } else { total + n };
        total = if total > usize::MAX - c { usize::MAX } else { total + c };
    }
    proof {
        assert(lists@.take(lists@.len() as int) =~= lists@);
    }
    total
}

/// Calls `content_blocking::ignore_previous_fp_documents`: the rule that
/// leaves first-party documents unblocked.
#[verifier::external_body]
fn first_party_documents_rule() -> adblock::content_blocking::CbRule {
    adblock::content_blocking::ignore_previous_fp_documents()
}

/// Calls `serde_json::to_value` on a rule and `serde_json::to_string` on the
/// value; an error is rendered with its `Display`. serde_json documents that
/// these fail only for a `Serialize` impl that fails or a map with non-string
/// keys; a rule's impls are derived and it holds strings, booleans, enums,
/// lists and a set, so they succeed. The text depends on the iteration order
/// of the rule's resource-type set, so nothing more is promised of it.
#[verifier::external_body]
fn rule_json(rule: &adblock::content_blocking::CbRule) -> (r: Result<String, String>)
    ensures
        r is Ok,
{
    serde_json::to_value(rule).and_then(|v| serde_json::to_string(&v)).map_err(|e| e.to_string())
}

/// Why compiling the rule list failed.
#[derive(Debug, Clone, PartialEq, Eq)]
pub enum WebkitRulesError {
    /// The filter lists could not be converted.
    Conversion,
    /// A rule could not be written as JSON (the writer's message).
    Encode(String),
}

impl WebkitRulesError {
    /// The error as text.
    pub fn message(&self) -> (r: String)
        ensures
            r@ == match self {
                WebkitRulesError::Conversion => "content-blocker conversion failed"@,
                WebkitRulesError::Encode(m) => "JSON encoding failed: "@ + m@,
            },
    {
        match self {
            WebkitRulesError::Conversion => "content-blocker conversion failed".to_string(),
            WebkitRulesError::Encode(m) => {
                let t = concat3("JSON encoding failed: ", m.as_str(), "");
                proof {
                    reveal_strlit("");
                    assert(t@ =~= "JSON encoding failed: "@ + m@);
                }
                t
            },
        }
    }
}

/// Compile raw filter-list texts into the content-blocker JSON, with the
/// number of filters that could not be expressed as content-blocker rules
/// (the filters the lists hold less those the converter used; these are
/// left to the native matcher). The rules are cut to
/// WebKit's cap (`cap_rules`) and rendered with the subtitle exemptions
/// (`rule_list_json`).
pub fn compile_webkit_json(lists: &Vec<String>) -> (r: Result<(String, usize), WebkitRulesError>)
    ensures
        r is Ok,
        r matches Ok((json, skipped)) ==> skipped == clamp_usize(filter_total(texts(lists@))) - content_rule_counts(texts(lists@)).1 && (content_rule_counts(
            texts(lists@),
        ).0 == 0 ==> json@ == "[]"@) && exists|ts: Seq<Seq<char>>|
            ts.len() == capped_count(content_rule_counts(texts(lists@)).0 as int) && #[trigger] rule_list_text(ts) == json@,
{
    let (rules, used) = match content_blocking_rules(lists) {
        Ok(x) => x,
        Err(()) => {
            return Err(WebkitRulesError::Conversion);
        },
    };
    let total = count_filters(lists);
    let skipped = total - used;
    let ghost count = rules@.len();
    let rules = cap_rules(rules, first_party_documents_rule());
    assert(rules@.len() == capped_count(count as int));
    let mut texts_out: Vec<String> = Vec::new();
    let k = rules.len();
    for i in 0..k
        invariant
            k == rules@.len(),
            texts_out@.len() == i,
    {
        match rule_json(&rules[i]) {
            Ok(t) => texts_out.push(t),
            Err(m) => {
                return Err(WebkitRulesError::Encode(m));
            },
        }
    }
    let json = rule_list_json(&texts_out);
    proof {
        if count == 0 {
            reveal_strlit("[]");
            assert(texts(texts_out@) =~= Seq::<Seq<char>>::empty());
            assert(json@ =~= "[]"@);
        }
        assert(texts(texts_out@).len() == capped_count(count as int));
        assert(rule_list_text(texts(texts_out@)) == json@);
    }
    Ok((json, skipped))
}

} // verus!
