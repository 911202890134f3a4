//! Per-site shield exceptions: an exception recorded for a domain covers its
//! subdomains. The lookup asks about the host and then each parent domain
//! that still has a dot; the first recorded answer wins, and with none
//! blocking stays on.
use vstd::prelude::*;

use crate::shields::{lower_ascii, lower_char, lowered};
use crate::text::{chars_of, string_of};

verus! {

/// Index of the first `.` in `s`, or -1.
pub open spec fn first_dot(s: Seq<char>) -> int
    decreases s.len(),
{
    if s.len() == 0 {
        -1
    } else if s[0] == '.' {
        0
    } else if first_dot(s.drop_first()) < 0 {
        -1
    } else {
        first_dot(s.drop_first()) + 1
    }
}

/// The names looked up for `h`: `h`, then the part after its first dot
/// while that part still holds a dot, and so on.
pub open spec fn lookup_chain(h: Seq<char>) -> Seq<Seq<char>>
    decreases h.len(),
{
    let k = first_dot(h);
    if k >= 0 && first_dot(h.skip(k + 1)) >= 0 {
        proof {
            lemma_first_dot_bound(h);
        }
        seq![h] + lookup_chain(h.skip(k + 1))
    } else {
        seq![h]
    }
}

/// The decision for the answers found along the chain: the first recorded
/// one, else blocking on.
pub open spec fn first_answer(a: Seq<Option<bool>>) -> bool
    decreases a.len(),
{
    if a.len() == 0 {
        true
    } else {
        match a[0] {
            Some(b) => b,
            None => first_answer(a.drop_first()),
        }
    }
}

proof fn lemma_first_dot(s: Seq<char>, k: int)
    requires
        -1 <= k < s.len(),
        k >= 0 ==> s[k] == '.',
        forall|j: int| 0 <= j < (if k >= 0 { k } else { s.len() as int }) ==> #[trigger] s[j] != '.',
    ensures
        first_dot(s) == k,
    decreases s.len(),
{
    if s.len() > 0 && k != 0 {
        assert forall|j: int| 0 <= j < (if k >= 0 { k - 1 } else { s.drop_first().len() as int }) implies #[trigger] s.drop_first()[j] != '.' by {
            assert(s.drop_first()[j] == s[j + 1]);
        }
        lemma_first_dot(s.drop_first(), if k >= 0 { k - 1 } else { -1 });
    }
}

pub proof fn lemma_first_dot_bound(s: Seq<char>)
    ensures
        -1 <= first_dot(s) < s.len(),
        first_dot(s) >= 0 ==> s[first_dot(s)] == '.',
    decreases s.len(),
{
    if s.len() > 0 && s[0] != '.' {
        lemma_first_dot_bound(s.drop_first());
    }
}

fn find_first_dot(v: &Vec<char>, from: usize) -> (r: Option<usize>)
    requires
        from <= v@.len(),
    ensures
        match r {
            Some(k) => from <= k < v@.len() && first_dot(v@.skip(from as int)) == k - from,
            None => first_dot(v@.skip(from as int)) == -1,
        },
{
    let mut k = from;
    while k < v.len()
        invariant
            from <= k <= v@.len(),
            forall|j: int| from <= j < k ==> #[trigger] v@[j] != '.',
        decreases v@.len() - k,
    {
        if v[k] == '.' {
            proof {
                let t = v@.skip(from as int);
                assert forall|j: int| 0 <= j < k - from implies #[trigger] t[j] != '.' by {
                    assert(t[j] == v@[j + from]);
                }
                lemma_first_dot(t, k - from);
            }
            return Some(k);
        }
        k = k + 1;
    }
    proof {
        let t = v@.skip(from as int);
        assert forall|j: int| 0 <= j < t.len() implies #[trigger] t[j] != '.' by {
            assert(t[j] == v@[j + from]);
        }
        lemma_first_dot(t, -1);
    }
    None
}

/// The names to look up for `host` (lower-cased): the host, then each
/// parent domain that still has a dot.
pub fn exception_candidates(host: &str) -> (r: Vec<String>)
    ensures
        r@.len() == lookup_chain(lowered(host@)).len(),
        forall|i: int| 0 <= i < r@.len() ==> (#[trigger] r@[i])@ == lookup_chain(lowered(host@))[i],
{
    let chars = chars_of(host);
    let mut v: Vec<char> = Vec::new();
    for i in 0..chars.len()
        invariant
            chars@ == host@,
            v@ == lowered(chars@.take(i as int)),
    {
        v.push(lower_char(chars[i]));
        proof {
            assert(lowered(chars@.take(i + 1)) =~= lowered(chars@.take(i as int)).push(lower_ascii(chars@[i as int])));
        }
    }
    proof {
        assert(chars@.take(chars@.len() as int) =~= chars@);
    }
    let ghost h = v@;
    assert(h == lowered(host@));
    let nv = v.len();
    let mut out: Vec<String> = Vec::new();
    let mut start: usize = 0;
    proof {
        assert(h.skip(0) =~= h);
    }
    loop
        invariant
            v@ == h,
            h == lowered(host@),
            nv == h.len(),
            start <= h.len(),
            lookup_chain(h) == out@.map_values(|s: String| s@) + lookup_chain(h.skip(start as int)),
        decreases h.len() - start,
    {
        let piece = string_of(&slice_from(&v, start));
        let ghost cur = h.skip(start as int);
        proof {
            assert(piece@ == cur);
        }
        let next = match find_first_dot(&v, start) {
            Some(k) => {
                match find_first_dot(&v, k + 1) {
                    Some(_) => Some(k + 1),
                    None => None,
                }
            },
            None => None,
        };
        match next {
            Some(n) => {
                proof {
                    let k = (n - 1) as int;
                    assert(first_dot(cur) == k - start);
                    assert(cur.skip(k - start + 1) =~= h.skip(n as int));
                    assert(lookup_chain(cur) == seq![cur] + lookup_chain(h.skip(n as int)));
                    assert((out@.push(piece)).map_values(|s: String| s@) =~= out@.map_values(|s: String| s@).push(cur));
                    assert(out@.map_values(|s: String| s@) + lookup_chain(cur) =~= (out@.push(piece)).map_values(|s: String| s@) + lookup_chain(h.skip(n as int)));
                }
                out.push(piece);
                start = n;
            },
            None => {
                proof {
                    lemma_first_dot_bound(cur);
                    if first_dot(cur) >= 0 {
                        let k = first_dot(cur) + start;
                        assert(cur.skip(first_dot(cur) + 1) =~= h.skip(k + 1));
                    }
                    assert(lookup_chain(cur) == seq![cur]);
                    assert((out@.push(piece)).map_values(|s: String| s@) =~= out@.map_values(|s: String| s@).push(cur));
                }
                out.push(piece);
                proof {
                    assert(lookup_chain(h) =~= out@.map_values(|s: String| s@));
                    assert(out@.map_values(|s: String| s@).len() == out@.len());
                    assert forall|i: int| 0 <= i < out@.len() implies (#[trigger] out@[i])@ == lookup_chain(h)[i] by {
                        assert(out@.map_values(|s: String| s@)[i] == out@[i]@);
                    }
                }
                return out;
            },
        }
    }
}

fn slice_from(v: &Vec<char>, from: usize) -> (r: Vec<char>)
    requires
        from <= v@.len(),
    ensures
        r@ == v@.skip(from as int),
{
    let mut out: Vec<char> = Vec::new();
    let mut i = from;
    while i < v.len()
        invariant
            from <= i <= v@.len(),
            out@ == v@.subrange(from as int, i as int),
        decreases v@.len() - i,
    {
        out.push(v[i]);
        proof {
            assert(v@.subrange(from as int, i as int).push(v@[i as int]) =~= v@.subrange(from as int, i + 1));
        }
        i = i + 1;
    }
    proof {
        assert(v@.skip(from as int) =~= v@.subrange(from as int, v@.len() as int));
    }
    out
}

/// Whether blocking is on, given the answers recorded for the lookup chain
/// (`None` where no exception is recorded).
pub fn blocking_decision(answers: &Vec<Option<bool>>) -> (r: bool)
    ensures
        r == first_answer(answers@),
{
    let mut i: usize = 0;
    proof {
        assert(answers@.skip(0) =~= answers@);
    }
    while i < answers.len()
        invariant
            i <= answers@.len(),
            first_answer(answers@) == first_answer(answers@.skip(i as int)),
        decreases answers@.len() - i,
    {
        proof {
            assert(answers@.skip(i as int).drop_first() =~= answers@.skip(i + 1));
        }
        match answers[i] {
            Some(b) => return b,
            None => {},
        }
        i = i + 1;
    }
    true
}

/// Where the first dot of `a + b` is.
proof fn lemma_first_dot_concat(a: Seq<char>, b: Seq<char>)
    ensures
        first_dot(a + b) == if first_dot(a) >= 0 {
            first_dot(a)
        } else if first_dot(b) >= 0 {
            a.len() + first_dot(b)
        } else {
            -1
        },
    decreases a.len(),
{
    if a.len() > 0 {
        lemma_first_dot_concat(a.drop_first(), b);
        assert((a + b).drop_first() =~= a.drop_first() + b);
    } else {
        assert(a + b =~= b);
    }
}

/// An exception recorded for a domain covers its subdomains: for any
/// subdomain `p.d` of a domain `d` that holds a dot, `d` is among the names
/// looked up, and the host itself comes first.
pub proof fn lemma_subdomain_covered(p: Seq<char>, d: Seq<char>)
    requires
        first_dot(d) >= 0,
    ensures
        lookup_chain(p + seq!['.'] + d)[0] == p + seq!['.'] + d,
        lookup_chain(p + seq!['.'] + d).contains(d),
    decreases p.len(),
{
    let h = p + seq!['.'] + d;
    let tail = seq!['.'] + d;
    assert(h =~= p + tail);
    lemma_first_dot_concat(p, tail);
    lemma_first_dot_concat(seq!['.'], d);
    assert(first_dot(tail) == 0);
    let k = first_dot(h);
    if first_dot(p) < 0 {
        assert(k == p.len());
        assert(h.skip(k + 1) =~= d);
        let c = lookup_chain(h);
        assert(c == seq![h] + lookup_chain(d));
        assert(lookup_chain(d)[0] == d);
        assert(c[1] == d);
    } else {
        let kp = first_dot(p);
        assert(k == kp);
        lemma_first_dot_bound(p);
        let p2 = p.skip(kp + 1);
        assert(h.skip(k + 1) =~= p2 + seq!['.'] + d);
        lemma_first_dot_concat(p2, tail);
        assert(p2 + seq!['.'] + d =~= p2 + tail);
        assert(first_dot(h.skip(k + 1)) >= 0);
        lemma_subdomain_covered(p2, d);
        let c = lookup_chain(h);
        let c2 = lookup_chain(p2 + seq!['.'] + d);
        assert(c == seq![h] + c2);
        let i = choose|i: int| 0 <= i < c2.len() && c2[i] == d;
        assert(c[i + 1] == d);
    }
}

} // verus!
