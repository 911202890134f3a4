//! Local crash logs: which old logs to delete so that only the newest ones stay.
use vstd::prelude::*;

use crate::adblock::{sort_texts, strictly_sorted, texts};
use crate::text::chars_of;

verus! {

/// How many crash logs are kept.
pub const MAX_LOGS: usize = 20;

/// `s` begins with `p`.
pub open spec fn has_prefix(s: Seq<char>, p: Seq<char>) -> bool {
    p.len() <= s.len() && s.take(p.len() as int) == p
}

/// `s` ends with `p`.
pub open spec fn has_suffix(s: Seq<char>, p: Seq<char>) -> bool {
    p.len() <= s.len() && s.skip(s.len() - p.len()) == p
}

/// A crash-log file name: `blaze-crash-<stamp>.log`.
pub open spec fn is_crash_log(name: Seq<char>) -> bool {
    has_prefix(name, "blaze-crash-"@) && has_suffix(name, ".log"@)
}

fn starts_with(s: &Vec<char>, p: &Vec<char>) -> (r: bool)
    ensures
        r == has_prefix(s@, p@),
{
    if p.len() > s.len() {
        return false;
    }
    for i in 0..p.len()
        invariant
            p@.len() <= s@.len(),
            forall|j: int| 0 <= j < i ==> s@[j] == p@[j],
    {
        if s[i] != p[i] {
            proof {
                assert(s@.take(p@.len() as int)[i as int] != p@[i as int]);
            }
            return false;
        }
    }
    proof {
        assert(s@.take(p@.len() as int) =~= p@);
    }
    true
}

fn ends_with(s: &Vec<char>, p: &Vec<char>) -> (r: bool)
    ensures
        r == has_suffix(s@, p@),
{
    if p.len() > s.len() {
        return false;
    }
    let n = s.len();
    let off = n - p.len();
    for i in 0..p.len()
        invariant
            n == s@.len(),
            off == s@.len() - p@.len(),
            forall|j: int| 0 <= j < i ==> s@[off + j] == p@[j],
    {
        if s[off + i] != p[i] {
            proof {
                assert(s@.skip(off as int)[i as int] != p@[i as int]);
            }
            return false;
        }
    }
    proof {
        assert(s@.skip(off as int) =~= p@);
    }
    true
}

/// How many of `s` are crash-log names.
pub open spec fn crash_count(s: Seq<Seq<char>>) -> nat
    decreases s.len(),
{
    if s.len() == 0 {
        0
    } else {
        crash_count(s.drop_last()) + if is_crash_log(s.last()) { 1nat } else { 0nat }
    }
}

/// The crash logs among the file names `names` (each listed once, as in a
/// directory) to delete: all but the newest `MAX_LOGS`, where the time
/// stamps in the names make name order chronological. Nothing is deleted
/// while at most `MAX_LOGS` logs exist.
pub fn crash_logs_to_prune(names: &Vec<String>) -> (r: Vec<String>)
    requires
        texts(names@).no_duplicates(),
    ensures
        ({
            let n = crash_count(texts(names@));
            &&& r@.len() == if n > MAX_LOGS { n - MAX_LOGS } else { 0 }
            &&& strictly_sorted(texts(r@))
            &&& forall|k: int| 0 <= k < r@.len() ==> is_crash_log(#[trigger] texts(r@)[k]) && texts(names@).contains(texts(r@)[k])
            &&& forall|x: Seq<char>| is_crash_log(x) && texts(names@).contains(x) && !texts(r@).contains(x) ==> forall|k: int|
                0 <= k < r@.len() ==> crate::adblock::text_lt(#[trigger] texts(r@)[k], x)
        }),
{
    let prefix = chars_of("blaze-crash-");
    let suffix = chars_of(".log");
    let ghost all = texts(names@);
    let mut logs: Vec<String> = Vec::new();
    for i in 0..names.len()
        invariant
            prefix@ == "blaze-crash-"@,
            suffix@ == ".log"@,
            all == texts(names@),
            all.no_duplicates(),
            logs@.len() == crash_count(all.take(i as int)),
            texts(logs@).no_duplicates(),
            forall|x: Seq<char>| #[trigger] texts(logs@).contains(x) <==> (all.take(i as int).contains(x) && is_crash_log(x)),
    {
        let c = chars_of(names[i].as_str());
        let ghost before = texts(logs@);
        let ghost t0 = all.take(i as int);
        let ghost t1 = all.take(i + 1);
        proof {
            assert(t1.drop_last() =~= t0);
            assert(t1.last() == all[i as int]);
            assert(all[i as int] == names@[i as int]@);
            assert(c@ == all[i as int]);
            assert forall|x: Seq<char>| t1.contains(x) <==> (t0.contains(x) || x == all[i as int]) by {
                if t1.contains(x) {
                    let m = choose|m: int| 0 <= m < t1.len() && t1[m] == x;
                    if m < i {
                        assert(t0[m] == x);
                    }
                }
                if t0.contains(x) {
                    let m = choose|m: int| 0 <= m < t0.len() && t0[m] == x;
                    assert(t1[m] == x);
                }
                if x == all[i as int] {
                    assert(t1[i as int] == x);
                }
            }
            assert(!t0.contains(all[i as int])) by {
                if t0.contains(all[i as int]) {
                    let m = choose|m: int| 0 <= m < t0.len() && t0[m] == all[i as int];
                    assert(all[m] == all[i as int]);
                }
            }
        }
        if starts_with(&c, &prefix) && ends_with(&c, &suffix) {
            logs.push(names[i].clone());
            proof {
                assert(texts(logs@) =~= before.push(all[i as int]));
                assert(before.contains(all[i as int]) ==> t0.contains(all[i as int]));
                assert(!before.contains(all[i as int]));
                assert forall|a: int, b: int| 0 <= a < texts(logs@).len() && 0 <= b < texts(logs@).len() && a != b
                    implies texts(logs@)[a] != texts(logs@)[b] by {
                    if a == before.len() {
                        assert(before.contains(before[b]));
                    } else if b == before.len() {
                        assert(before.contains(before[a]));
                    }
                }
                assert forall|x: Seq<char>| #[trigger] texts(logs@).contains(x) <==> (t1.contains(x) && is_crash_log(x)) by {
                    if texts(logs@).contains(x) {
                        let m = choose|m: int| 0 <= m < texts(logs@).len() && texts(logs@)[m] == x;
                        if m < before.len() {
                            assert(before[m] == x);
                            assert(before.contains(x));
                        }
                    }
                    if t1.contains(x) && is_crash_log(x) && x != all[i as int] {
                        assert(before.contains(x));
                        let m = choose|m: int| 0 <= m < before.len() && before[m] == x;
                        assert(texts(logs@)[m] == x);
                    }
                    if x == all[i as int] {
                        assert(texts(logs@)[before.len() as int] == x);
                    }
                }
            }
        } else {
            proof {
                assert(!is_crash_log(all[i as int]));
                assert forall|x: Seq<char>| #[trigger] texts(logs@).contains(x) <==> (t1.contains(x) && is_crash_log(x)) by {
                    assert(before.contains(x) <==> (t0.contains(x) && is_crash_log(x)));
                }
            }
        }
        proof {
            assert(forall|x: Seq<char>| #[trigger] texts(logs@).contains(x) <==> (t1.contains(x) && is_crash_log(x)));
            assert(t1 == all.take(i + 1));
        }
    }
    proof {
        assert(all.take(all.len() as int) =~= all);
    }
    let ghost lg = texts(logs@);
    assert(forall|x: Seq<char>| #[trigger] lg.contains(x) <==> (all.contains(x) && is_crash_log(x)));
    let sorted = sort_texts(logs);
    if sorted.len() <= MAX_LOGS {
        return Vec::new();
    }
    let cut = sorted.len() - MAX_LOGS;
    let mut out: Vec<String> = Vec::new();
    for k in 0..cut
        invariant
            cut <= sorted@.len(),
            out@ == sorted@.take(k as int),
    {
        out.push(sorted[k].clone());
        proof {
            assert(sorted@.take(k + 1) =~= sorted@.take(k as int).push(sorted@[k as int]));
        }
    }
    proof {
        let s = texts(sorted@);
        let o = texts(out@);
        assert(o =~= s.take(cut as int));
        assert forall|k: int| 0 <= k < o.len() implies is_crash_log(#[trigger] o[k]) && all.contains(o[k]) by {
            assert(o[k] == s[k]);
            assert(s.contains(s[k]));
            assert(lg.contains(s[k]));
        }
        assert forall|x: Seq<char>| is_crash_log(x) && all.contains(x) && !o.contains(x) implies forall|k: int|
            0 <= k < o.len() ==> crate::adblock::text_lt(#[trigger] o[k], x) by {
            assert(s.contains(x));
            let m = choose|m: int| 0 <= m < s.len() && s[m] == x;
            if m < cut {
                assert(o[m] == x);
            }
            assert forall|k: int| 0 <= k < o.len() implies crate::adblock::text_lt(#[trigger] o[k], x) by {
                assert(o[k] == s[k]);
            }
        }
    }
    out
}

} // verus!
