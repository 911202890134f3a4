//! A small map from string keys to copyable values, kept as a list of
//! entries with distinct keys.
use vstd::prelude::*;

use crate::tabs::{contains_id, distinct_ids};

verus! {

/// Entries keyed by string, each key at most once.
#[derive(Debug, Default)]
pub struct KeyedVec<V> {
    entries: Vec<(String, V)>,
}

/// Index of the entry with key `k`, or -1.
pub open spec fn key_index<V>(es: Seq<(String, V)>, k: Seq<char>) -> int {
    if exists|i: int| 0 <= i < es.len() && #[trigger] es[i].0@ == k {
        choose|i: int| 0 <= i < es.len() && #[trigger] es[i].0@ == k
    } else {
        -1
    }
}

/// The map the entries denote.
pub open spec fn entries_map<V>(es: Seq<(String, V)>) -> Map<Seq<char>, V> {
    Map::new(|k: Seq<char>| key_index(es, k) >= 0, |k: Seq<char>| es[key_index(es, k)].1)
}

/// No key occurs twice.
pub open spec fn keys_distinct<V>(es: Seq<(String, V)>) -> bool {
    forall|i: int, j: int| 0 <= i < es.len() && 0 <= j < es.len() && i != j ==> #[trigger] es[i].0@ != #[trigger] es[j].0@
}

impl<V: Copy> View for KeyedVec<V> {
    type V = Map<Seq<char>, V>;

    closed spec fn view(&self) -> Map<Seq<char>, V> {
        entries_map(self.entries@)
    }
}

proof fn lemma_key_index<V>(es: Seq<(String, V)>, i: int)
    requires
        keys_distinct(es),
        0 <= i < es.len(),
    ensures
        key_index(es, es[i].0@) == i,
{
    let k = es[i].0@;
    assert(exists|x: int| 0 <= x < es.len() && #[trigger] es[x].0@ == k);
}

impl<V: Copy> KeyedVec<V> {
    /// The entries have distinct keys.
    pub closed spec fn wf(&self) -> bool {
        keys_distinct(self.entries@)
    }

    /// An empty map.
    pub fn new() -> (r: Self)
        ensures
            r.wf(),
            r@ == Map::<Seq<char>, V>::empty(),
    {
        let r = KeyedVec { entries: Vec::new() };
        proof {
            assert(r@ =~= Map::<Seq<char>, V>::empty());
        }
        r
    }

    fn find(&self, key: &str) -> (r: Option<usize>)
        requires
            self.wf(),
        ensures
            match r {
                Some(i) => i < self.entries@.len() && self.entries@[i as int].0@ == key@ && key_index(
                    self.entries@,
                    key@,
                ) == i,
                None => key_index(self.entries@, key@) == -1,
            },
    {
        for i in 0..self.entries.len()
            invariant
                keys_distinct(self.entries@),
                forall|x: int| 0 <= x < i ==> #[trigger] self.entries@[x].0@ != key@,
        {
            if crate::text::same_text(self.entries[i].0.as_str(), key) {
                proof {
                    lemma_key_index(self.entries@, i as int);
                }
                return Some(i);
            }
        }
        None
    }

    /// The value under `key`, if any.
    pub fn get(&self, key: &str) -> (r: Option<V>)
        requires
            self.wf(),
        ensures
            r == if self@.contains_key(key@) { Some(self@[key@]) } else { None },
    {
        match self.find(key) {
            Some(i) => Some(self.entries[i].1),
            None => None,
        }
    }

    /// Set the value under `key`.
    pub fn put(&mut self, key: &str, v: V)
        requires
            old(self).wf(),
        ensures
            final(self).wf(),
            final(self)@ == old(self)@.insert(key@, v),
    {
        let ghost es0 = self.entries@;
        match self.find(key) {
            Some(i) => {
                let k = self.entries[i].0.clone();
                self.entries.set(i, (k, v));
                proof {
                    let es = self.entries@;
                    assert forall|a: int, b: int| 0 <= a < es.len() && 0 <= b < es.len() && a != b implies #[trigger] es[a].0@ != #[trigger] es[b].0@ by {
                        assert(es0[a].0@ != es0[b].0@);
                    }
                    assert forall|k2: Seq<char>| key_index(es, k2) == key_index(es0, k2) by {
                        if key_index(es0, k2) >= 0 {
                            lemma_key_index(es0, key_index(es0, k2));
                            lemma_key_index(es, key_index(es0, k2));
                        } else if key_index(es, k2) >= 0 {
                            let x = key_index(es, k2);
                            assert(es0[x].0@ == k2);
                        }
                    }
                    assert(self@ =~= old(self)@.insert(key@, v));
                }
            },
            None => {
                self.entries.push((key.to_string(), v));
                proof {
                    let es = self.entries@;
                    let n = es0.len() as int;
                    assert forall|a: int, b: int| 0 <= a < es.len() && 0 <= b < es.len() && a != b implies #[trigger] es[a].0@ != #[trigger] es[b].0@ by {
                        if a < n && b < n {
                            assert(es0[a].0@ != es0[b].0@);
                        } else if a < n {
                            assert(es0[a].0@ != key@);
                        } else {
                            assert(es0[b].0@ != key@);
                        }
                    }
                    lemma_key_index(es, n);
                    assert forall|k2: Seq<char>| k2 != key@ implies key_index(es, k2) == key_index(es0, k2) by {
                        if key_index(es0, k2) >= 0 {
                            lemma_key_index(es0, key_index(es0, k2));
                            lemma_key_index(es, key_index(es0, k2));
                        } else if key_index(es, k2) >= 0 {
                            let x = key_index(es, k2);
                            assert(x != n);
                            assert(es0[x].0@ == k2);
                        }
                    }
                    assert(self@ =~= old(self)@.insert(key@, v));
                }
            },
        }
    }

    /// Forget `key`.
    pub fn remove(&mut self, key: &str)
        requires
            old(self).wf(),
        ensures
            final(self).wf(),
            final(self)@ == old(self)@.remove(key@),
    {
        let ghost es0 = self.entries@;
        match self.find(key) {
            Some(i) => {
                self.entries.remove(i);
                proof {
                    let es = self.entries@;
                    assert forall|a: int, b: int| 0 <= a < es.len() && 0 <= b < es.len() && a != b implies #[trigger] es[a].0@ != #[trigger] es[b].0@ by {
                        let oa = if a < i { a } else { a + 1 };
                        let ob = if b < i { b } else { b + 1 };
                        assert(es[a] == es0[oa] && es[b] == es0[ob]);
                    }
                    assert forall|k2: Seq<char>| k2 != key@ implies (key_index(es, k2) >= 0) == (key_index(es0, k2) >= 0)
                        && (key_index(es, k2) >= 0 ==> es[key_index(es, k2)].1 == es0[key_index(es0, k2)].1) by {
                        if key_index(es0, k2) >= 0 {
                            let x = key_index(es0, k2);
                            lemma_key_index(es0, x);
                            assert(x != i);
                            let nx = if x < i { x } else { x - 1 };
                            assert(es[nx] == es0[x]);
                            lemma_key_index(es, nx);
                        } else if key_index(es, k2) >= 0 {
                            let y = key_index(es, k2);
                            let oy = if y < i { y } else { y + 1 };
                            assert(es[y] == es0[oy]);
                        }
                    }
                    assert forall|x: int| 0 <= x < es.len() implies #[trigger] es[x].0@ != key@ by {
                        let ox = if x < i { x } else { x + 1 };
                        assert(es[x] == es0[ox]);
                        assert(es0[ox].0@ != es0[i as int].0@);
                    }
                    assert(self@ =~= old(self)@.remove(key@));
                }
            },
            None => {
                proof {
                    assert(self@ =~= old(self)@.remove(key@));
                }
            },
        }
    }

    /// The keys whose values satisfy `pred`, each once, in entry order.
    pub(crate) fn keys_where(&self, Ghost(pred): Ghost<spec_fn(V) -> bool>, test: impl Fn(V) -> bool) -> (r: Vec<String>)
        requires
            self.wf(),
            forall|v: V| #[trigger] test.requires((v,)),
            forall|v: V, b: bool| test.ensures((v,), b) ==> b == pred(v),
        ensures
            distinct_ids(r@),
            forall|k: Seq<char>| contains_id(r@, k) <==> (self@.contains_key(k) && pred(self@[k])),
    {
        let ghost es = self.entries@;
        let mut out: Vec<String> = Vec::new();
        let ghost mut src: Seq<int> = Seq::empty();
        for i in 0..self.entries.len()
            invariant
                es == self.entries@,
                keys_distinct(es),
                forall|v: V| #[trigger] test.requires((v,)),
                forall|v: V, b: bool| test.ensures((v,), b) ==> b == pred(v),
                out@.len() == src.len(),
                forall|q: int| 0 <= q < src.len() ==> 0 <= #[trigger] src[q] < i && out@[q]@ == es[src[q]].0@ && pred(es[src[q]].1),
                forall|a: int, b: int| 0 <= a < b < src.len() ==> #[trigger] src[a] < #[trigger] src[b],
                forall|x: int| 0 <= x < i && pred(#[trigger] es[x].1) ==> exists|q: int| 0 <= q < src.len() && src[q] == x,
        {
            let (k, v) = (&self.entries[i].0, self.entries[i].1);
            if test(v) {
                out.push(k.clone());
                proof {
                    let s0 = src;
                    src = src.push(i as int);
                    assert forall|x: int| 0 <= x < i + 1 && pred(#[trigger] es[x].1) implies exists|q: int| 0 <= q < src.len() && src[q] == x by {
                        if x < i {
                            let q = choose|q: int| 0 <= q < s0.len() && s0[q] == x;
                            assert(src[q] == x);
                        } else {
                            assert(src[s0.len() as int] == x);
                        }
                    }
                }
            }
        }
        proof {
            assert forall|a: int, b: int| 0 <= a < out@.len() && 0 <= b < out@.len() && a != b implies #[trigger] out@[a]@ != #[trigger] out@[b]@ by {
                assert(src[a] != src[b]) by {
                    if a < b {
                        assert(src[a] < src[b]);
                    } else {
                        assert(src[b] < src[a]);
                    }
                }
            }
            assert forall|k: Seq<char>| contains_id(out@, k) <==> (self@.contains_key(k) && pred(self@[k])) by {
                if contains_id(out@, k) {
                    let q = choose|q: int| 0 <= q < out@.len() && #[trigger] out@[q]@ == k;
                    lemma_key_index(es, src[q]);
                }
                if self@.contains_key(k) && pred(self@[k]) {
                    let x = key_index(es, k);
                    let q = choose|q: int| 0 <= q < src.len() && src[q] == x;
                    assert(out@[q]@ == k);
                }
            }
        }
        out
    }
}

} // verus!
