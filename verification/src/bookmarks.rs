//! Bookmarks: the stored rows, and assembling them into the nested tree
//! shells display, siblings in stored order.
use vstd::prelude::*;
use crate::text::chars_of;

verus! {

/// One stored bookmark or folder.
#[derive(Debug, Clone, PartialEq, Eq)]
pub struct BookmarkNode {
    pub id: i64,
    pub parent_id: Option<i64>,
    pub is_folder: bool,
    pub title: String,
    pub url: Option<String>,
    pub position: i64,
    pub created_at: i64,
}

/// One node of the nested bookmarks tree.
#[derive(Debug)]
pub struct BookmarkTreeNode {
    pub id: i64,
    pub is_folder: bool,
    pub title: String,
    pub url: Option<String>,
    pub children: Vec<BookmarkTreeNode>,
}

/// The nodes of `ns` under `parent`, in their order.
pub open spec fn under(ns: Seq<BookmarkNode>, parent: Option<i64>) -> Seq<BookmarkNode>
    decreases ns.len(),
{
    if ns.len() == 0 {
        ns
    } else if ns.last().parent_id == parent {
        under(ns.drop_last(), parent).push(ns.last())
    } else {
        under(ns.drop_last(), parent)
    }
}

/// The nodes of `ns` not under `parent`, in their order.
pub open spec fn not_under(ns: Seq<BookmarkNode>, parent: Option<i64>) -> Seq<BookmarkNode>
    decreases ns.len(),
{
    if ns.len() == 0 {
        ns
    } else if ns.last().parent_id != parent {
        not_under(ns.drop_last(), parent).push(ns.last())
    } else {
        not_under(ns.drop_last(), parent)
    }
}

/// Positions never decrease along `s`.
pub open spec fn by_position(s: Seq<BookmarkNode>) -> bool {
    forall|a: int, b: int| 0 <= a <= b < s.len() ==> (#[trigger] s[a]).position <= (#[trigger] s[b]).position
}

/// `t` shows node `n` (children aside).
pub open spec fn shows(t: BookmarkTreeNode, n: BookmarkNode) -> bool {
    t.id == n.id && t.is_folder == n.is_folder && t.title == n.title && t.url == n.url
}

/// Split `pool` into the nodes under `parent` and the rest, keeping order.
fn take_level(pool: Vec<BookmarkNode>, parent: Option<i64>) -> (r: (Vec<BookmarkNode>, Vec<BookmarkNode>))
    ensures
        r.0@ == under(pool@, parent),
        r.1@ == not_under(pool@, parent),
        r.0@.len() + r.1@.len() == pool@.len(),
{
    let ghost all = pool@;
    let mut level: Vec<BookmarkNode> = Vec::new();
    let mut rest: Vec<BookmarkNode> = Vec::new();
    let mut src = pool;
    let mut i: usize = 0;
    let n = src.len();
    proof {
        assert(all.skip(0) =~= all);
    }
    while src.len() > 0
        invariant
            n == all.len(),
            i <= n,
            src@ == all.skip(i as int),
            level@ == under(all.take(i as int), parent),
            rest@ == not_under(all.take(i as int), parent),
            level@.len() + rest@.len() == i,
        decreases src@.len(),
    {
        let node = src.remove(0);
        proof {
            assert(node == all[i as int]) by {
                assert(all.skip(i as int)[0] == all[i as int]);
            }
            assert(all.skip(i as int).drop_first() =~= all.skip(i + 1));
            assert(all.take(i + 1).drop_last() =~= all.take(i as int));
            assert(all.take(i + 1).last() == all[i as int]);
        }
        if node.parent_id == parent {
            level.push(node);
        } else {
            rest.push(node);
        }
        i = i + 1;
    }
    proof {
        assert(all.take(n as int) =~= all);
    }
    (level, rest)
}

/// Where a node at `pos` goes in `out`: after every node of equal or
/// smaller position, before the larger ones.
fn insertion_point(out: &Vec<BookmarkNode>, pos: i64) -> (p: usize)
    requires
        by_position(out@),
    ensures
        p <= out@.len(),
        forall|a: int| 0 <= a < p ==> (#[trigger] out@[a]).position <= pos,
        forall|a: int| p <= a < out@.len() ==> (#[trigger] out@[a]).position > pos,
{
    let mut p: usize = out.len();
    while p > 0 && out[p - 1].position > pos
        invariant
            p <= out@.len(),
            by_position(out@),
            forall|a: int| p <= a < out@.len() ==> (#[trigger] out@[a]).position > pos,
        decreases p,
    {
        p = p - 1;
    }
    proof {
        if p > 0 {
            assert forall|a: int| 0 <= a < p implies (#[trigger] out@[a]).position <= pos by {
                assert(out@[a].position <= out@[p - 1].position);
            }
        }
    }
    p
}

/// `perm` shows `r` to be `v` reordered stably: `r[a]` is `v[perm[a]]`,
/// no index is used twice, and of two entries at equal positions the
/// earlier one in `r` is the earlier one in `v`.
pub open spec fn stable_perm(perm: Seq<int>, r: Seq<BookmarkNode>, v: Seq<BookmarkNode>) -> bool {
    &&& perm.len() == r.len()
    &&& forall|a: int| 0 <= a < r.len() ==> 0 <= #[trigger] perm[a] < v.len() && r[a] == v[perm[a]]
    &&& forall|a: int, b: int| 0 <= a < b < r.len() ==> #[trigger] perm[a] != #[trigger] perm[b]
    &&& forall|a: int, b: int|
        0 <= a < b < r.len() && (#[trigger] r[a]).position == (#[trigger] r[b]).position ==> perm[a] < perm[b]
}

/// `r` is `v` stably sorted by position: in position order, and among equal
/// positions in the order of `v`.
pub open spec fn stable_sort_of(r: Seq<BookmarkNode>, v: Seq<BookmarkNode>) -> bool {
    &&& by_position(r)
    &&& r.len() == v.len()
    &&& exists|perm: Seq<int>| #[trigger] stable_perm(perm, r, v)
}

/// Order nodes by position, keeping the given order among equal positions.
fn sort_by_position(v: Vec<BookmarkNode>) -> (r: Vec<BookmarkNode>)
    ensures
        by_position(r@),
        r@.len() == v@.len(),
        r@.to_multiset() == v@.to_multiset(),
        stable_sort_of(r@, v@),
{
    broadcast use vstd::seq_lib::group_to_multiset_ensures;

    let ghost input = v@;
    let mut out: Vec<BookmarkNode> = Vec::new();
    let mut rest = v;
    let mut i: usize = 0;
    let n = rest.len();
    let ghost mut perm: Seq<int> = Seq::empty();
    proof {
        assert(input.skip(0) =~= input);
        assert(input.take(0) =~= Seq::<BookmarkNode>::empty());
    }
    while rest.len() > 0
        invariant
            n == input.len(),
            i <= n,
            rest@ == input.skip(i as int),
            out@.len() == i,
            by_position(out@),
            out@.to_multiset() == input.take(i as int).to_multiset(),
            stable_perm(perm, out@, input),
            forall|a: int| 0 <= a < out@.len() ==> #[trigger] perm[a] < i,
        decreases rest@.len(),
    {
        let x = rest.remove(0);
        proof {
            assert(x == input[i as int]) by {
                assert(input.skip(i as int)[0] == input[i as int]);
            }
            assert(input.skip(i as int).drop_first() =~= input.skip(i + 1));
        }
        let p = insertion_point(&out, x.position);
        let ghost o = out@;
        let ghost q = perm;
        out.insert(p, x);
        proof {
            let o2 = out@;
            assert(o2 =~= o.insert(p as int, x));
            perm = q.insert(p as int, i as int);
            assert forall|a: int| 0 <= a < o2.len() implies 0 <= #[trigger] perm[a] < input.len() && o2[a] == input[perm[a]] && perm[a] < i + 1 by {
                if a < p {
                    assert(perm[a] == q[a] && o2[a] == o[a]);
                } else if a == p {
                    assert(perm[a] == i);
                } else {
                    assert(perm[a] == q[a - 1] && o2[a] == o[a - 1]);
                }
            }
            assert forall|a: int, b: int| 0 <= a < b < o2.len() implies #[trigger] perm[a] != #[trigger] perm[b] by {
                if b < p {
                    assert(perm[a] == q[a] && perm[b] == q[b]);
                } else if b == p {
                    if a < p {
                        assert(perm[a] == q[a]);
                    }
                } else if a == p {
                    assert(perm[b] == q[b - 1]);
                } else if a < p {
                    assert(perm[a] == q[a] && perm[b] == q[b - 1]);
                } else {
                    assert(perm[a] == q[a - 1] && perm[b] == q[b - 1]);
                }
            }
            assert forall|a: int, b: int|
                0 <= a < b < o2.len() && (#[trigger] o2[a]).position == (#[trigger] o2[b]).position implies perm[a] < perm[b] by {
                if b < p {
                    assert(perm[a] == q[a] && perm[b] == q[b] && o2[a] == o[a] && o2[b] == o[b]);
                } else if b == p {
                    if a < p {
                        assert(perm[a] == q[a]);
                    }
                } else if a == p {
                    assert(o2[b] == o[b - 1]);
                    assert(o[b - 1].position > x.position);
                } else if a < p {
                    assert(perm[a] == q[a] && perm[b] == q[b - 1] && o2[a] == o[a] && o2[b] == o[b - 1]);
                    assert(o[a].position <= x.position);
                    assert(o[b - 1].position > x.position);
                } else {
                    assert(perm[a] == q[a - 1] && perm[b] == q[b - 1] && o2[a] == o[a - 1] && o2[b] == o[b - 1]);
                }
            }
            assert(stable_perm(perm, o2, input));
            assert forall|a: int, b: int| 0 <= a <= b < o2.len() implies (#[trigger] o2[a]).position <= (#[trigger] o2[b]).position by {
                if b < p {
                    assert(o2[a] == o[a] && o2[b] == o[b]);
                } else if b == p {
                    if a < p {
                        assert(o2[a] == o[a]);
                        if p > 0 {
                            assert(o[a].position <= o[p - 1].position);
                        }
                    }
                } else if a == p {
                    assert(o2[b] == o[b - 1]);
                } else if a < p {
                    assert(o2[a] == o[a] && o2[b] == o[b - 1]);
                } else {
                    assert(o2[a] == o[a - 1] && o2[b] == o[b - 1]);
                }
            }
            assert(input.take(i + 1) =~= input.take(i as int).push(x));
            input.take(i as int).to_multiset_ensures();
            assert(o2.to_multiset() =~= o.to_multiset().insert(x)) by {
                broadcast use vstd::multiset::group_multiset_axioms;
                o2.to_multiset_ensures();
                assert(o2.remove(p as int) =~= o);
                assert(o2[p as int] == x);
                assert(o2.remove(p as int).to_multiset() =~= o2.to_multiset().remove(x));
                assert(o2.contains(x));
                assert(o2.to_multiset().count(x) > 0);
            }
        }
        i = i + 1;
    }
    proof {
        assert(input.take(n as int) =~= input);
        assert(stable_perm(perm, out@, input));
    }
    out
}

/// Every element of `under(s, parent)` comes from `s` and has that parent;
/// every element of `not_under(s, parent)` comes from `s` and has another parent.
proof fn lemma_levels_from(s: Seq<BookmarkNode>, parent: Option<i64>)
    ensures
        forall|x: BookmarkNode| #[trigger] under(s, parent).contains(x) ==> s.contains(x) && x.parent_id == parent,
        forall|x: BookmarkNode| #[trigger] not_under(s, parent).contains(x) ==> s.contains(x) && x.parent_id != parent,
    decreases s.len(),
{
    if s.len() > 0 {
        let d = s.drop_last();
        lemma_levels_from(d, parent);
        assert forall|x: BookmarkNode| d.contains(x) implies s.contains(x) by {
            let k = choose|k: int| 0 <= k < d.len() && d[k] == x;
            assert(s[k] == x);
        }
        assert(s[s.len() - 1] == s.last());
        assert forall|x: BookmarkNode| #[trigger] under(s, parent).contains(x) implies s.contains(x) && x.parent_id == parent by {
            let u = under(d, parent);
            if s.last().parent_id == parent {
                let k = choose|k: int| 0 <= k < u.push(s.last()).len() && u.push(s.last())[k] == x;
                if k < u.len() {
                    assert(u[k] == x);
                    assert(u.contains(x));
                }
            } else {
                assert(under(s, parent) == u);
                assert(u.contains(x));
            }
        }
        assert forall|x: BookmarkNode| #[trigger] not_under(s, parent).contains(x) implies s.contains(x) && x.parent_id != parent by {
            let u = not_under(d, parent);
            if s.last().parent_id != parent {
                let k = choose|k: int| 0 <= k < u.push(s.last()).len() && u.push(s.last())[k] == x;
                if k < u.len() {
                    assert(u[k] == x);
                    assert(u.contains(x));
                }
            } else {
                assert(not_under(s, parent) == u);
                assert(u.contains(x));
            }
        }
    }
}

/// `s` without the nodes whose parent is in `done`, in order.
pub open spec fn keep(s: Seq<BookmarkNode>, done: Set<Option<i64>>) -> Seq<BookmarkNode>
    decreases s.len(),
{
    if s.len() == 0 {
        s
    } else if done.contains(s.last().parent_id) {
        keep(s.drop_last(), done)
    } else {
        keep(s.drop_last(), done).push(s.last())
    }
}

/// No two nodes of `s` share an id (as rows of one table never do).
pub open spec fn unique_ids(s: Seq<BookmarkNode>) -> bool {
    forall|i: int, j: int| 0 <= i < j < s.len() ==> (#[trigger] s[i]).id != (#[trigger] s[j]).id
}

/// Keeping everything keeps `s`.
proof fn lemma_keep_none(s: Seq<BookmarkNode>)
    ensures
        keep(s, Set::empty()) == s,
    decreases s.len(),
{
    if s.len() > 0 {
        lemma_keep_none(s.drop_last());
        assert(s.drop_last().push(s.last()) =~= s);
    }
}

/// A node is kept exactly when it is in `s` and its parent is not in `done`.
proof fn lemma_keep_contains(s: Seq<BookmarkNode>, done: Set<Option<i64>>)
    ensures
        forall|x: BookmarkNode| #[trigger] keep(s, done).contains(x) <==> (s.contains(x) && !done.contains(x.parent_id)),
    decreases s.len(),
{
    if s.len() > 0 {
        let d = s.drop_last();
        lemma_keep_contains(d, done);
        assert(s =~= d.push(s.last()));
        assert forall|x: BookmarkNode| #[trigger] keep(s, done).contains(x) <==> (s.contains(x) && !done.contains(x.parent_id)) by {
            let k = keep(d, done);
            if keep(s, done).contains(x) {
                if !done.contains(s.last().parent_id) {
                    let i = choose|i: int| 0 <= i < k.push(s.last()).len() && k.push(s.last())[i] == x;
                    if i < k.len() {
                        assert(k[i] == x);
                        assert(k.contains(x));
                    }
                }
                if done.contains(s.last().parent_id) {
                    assert(k.contains(x));
                }
                if d.contains(x) {
                    let i = choose|i: int| 0 <= i < d.len() && d[i] == x;
                    assert(s[i] == x);
                }
                assert(s[s.len() - 1] == s.last());
            }
            if s.contains(x) && !done.contains(x.parent_id) {
                let i = choose|i: int| 0 <= i < s.len() && s[i] == x;
                if i < s.len() - 1 {
                    assert(d[i] == x);
                    assert(k.contains(x));
                    if !done.contains(s.last().parent_id) {
                        let kk = k.push(s.last());
                        let w = choose|w: int| 0 <= w < k.len() && k[w] == x;
                        assert(kk[w] == x);
                    }
                } else {
                    assert(x == s.last());
                    let kk = k.push(s.last());
                    assert(kk[k.len() as int] == x);
                }
            }
        }
    }
}

/// Among the kept nodes, those under a parent not in `done` are all the
/// nodes under it.
proof fn lemma_keep_under(s: Seq<BookmarkNode>, done: Set<Option<i64>>, p: Option<i64>)
    requires
        !done.contains(p),
    ensures
        under(keep(s, done), p) == under(s, p),
    decreases s.len(),
{
    if s.len() > 0 {
        lemma_keep_under(s.drop_last(), done, p);
        let k = keep(s.drop_last(), done);
        if !done.contains(s.last().parent_id) {
            assert(keep(s, done).drop_last() =~= k);
        }
    }
}

/// The kept nodes not under `p` are the nodes kept once `p` is done too.
proof fn lemma_keep_not_under(s: Seq<BookmarkNode>, done: Set<Option<i64>>, p: Option<i64>)
    ensures
        not_under(keep(s, done), p) == keep(s, done.insert(p)),
    decreases s.len(),
{
    if s.len() > 0 {
        lemma_keep_not_under(s.drop_last(), done, p);
        let k = keep(s.drop_last(), done);
        if !done.contains(s.last().parent_id) {
            assert(keep(s, done).drop_last() =~= k);
        }
    }
}

/// Nodes of a sequence with unique ids are equal when their ids are.
proof fn lemma_same_id(s: Seq<BookmarkNode>, a: BookmarkNode, b: BookmarkNode)
    requires
        unique_ids(s),
        s.contains(a),
        s.contains(b),
        a.id == b.id,
    ensures
        a == b,
{
    let i = choose|i: int| 0 <= i < s.len() && s[i] == a;
    let j = choose|j: int| 0 <= j < s.len() && s[j] == b;
    if i < j {
        assert(s[i].id != s[j].id);
    } else if j < i {
        assert(s[j].id != s[i].id);
    }
}

/// A sequence whose elements are drawn, without repeats, from one with
/// unique ids has no repeated element.
proof fn lemma_level_distinct(lv: Seq<BookmarkNode>, all: Seq<BookmarkNode>, pool: Seq<BookmarkNode>, parent: Option<i64>, done: Set<Option<i64>>)
    requires
        unique_ids(all),
        pool == keep(all, done),
        lv.to_multiset() == under(pool, parent).to_multiset(),
    ensures
        lv.no_duplicates(),
{
    broadcast use vstd::seq_lib::group_to_multiset_ensures;
    broadcast use vstd::multiset::group_multiset_axioms;

    lemma_nodup_keep(all, done);
    lemma_nodup_under(pool, parent);
    under(pool, parent).lemma_multiset_has_no_duplicates();
    lv.lemma_multiset_has_no_duplicates_conv();
}

/// Unique ids mean no repeated node, and filtering keeps that.
proof fn lemma_nodup_keep(s: Seq<BookmarkNode>, done: Set<Option<i64>>)
    requires
        unique_ids(s),
    ensures
        keep(s, done).no_duplicates(),
    decreases s.len(),
{
    if s.len() > 0 {
        let d = s.drop_last();
        assert(unique_ids(d)) by {
            assert forall|i: int, j: int| 0 <= i < j < d.len() implies (#[trigger] d[i]).id != (#[trigger] d[j]).id by {
                assert(d[i] == s[i] && d[j] == s[j]);
            }
        }
        lemma_nodup_keep(d, done);
        lemma_keep_contains(d, done);
        let k = keep(d, done);
        if !done.contains(s.last().parent_id) {
            if k.contains(s.last()) {
                let i = choose|i: int| 0 <= i < d.len() && d[i] == s.last();
                assert(s[i] == s[s.len() - 1]);
                assert(s[i].id != s[s.len() - 1].id);
            }
            let kk = k.push(s.last());
            assert forall|a: int, b: int| 0 <= a < kk.len() && 0 <= b < kk.len() && a != b implies kk[a] != kk[b] by {
                if a < k.len() && b < k.len() {
                    assert(kk[a] == k[a] && kk[b] == k[b]);
                } else if a < k.len() {
                    assert(kk[a] == k[a]);
                    assert(k.contains(k[a]));
                } else if b < k.len() {
                    assert(kk[b] == k[b]);
                    assert(k.contains(k[b]));
                }
            }
        }
    }
}

/// Taking the nodes under one parent keeps a sequence free of repeats.
proof fn lemma_nodup_under(s: Seq<BookmarkNode>, parent: Option<i64>)
    requires
        s.no_duplicates(),
    ensures
        under(s, parent).no_duplicates(),
    decreases s.len(),
{
    if s.len() > 0 {
        let d = s.drop_last();
        assert(d.no_duplicates()) by {
            assert forall|a: int, b: int| 0 <= a < d.len() && 0 <= b < d.len() && a != b implies d[a] != d[b] by {
                assert(d[a] == s[a] && d[b] == s[b]);
            }
        }
        lemma_nodup_under(d, parent);
        lemma_levels_from(d, parent);
        let u = under(d, parent);
        if s.last().parent_id == parent {
            if u.contains(s.last()) {
                let i = choose|i: int| 0 <= i < d.len() && d[i] == s.last();
                assert(s[i] == s[s.len() - 1]);
            }
            let uu = u.push(s.last());
            assert forall|a: int, b: int| 0 <= a < uu.len() && 0 <= b < uu.len() && a != b implies uu[a] != uu[b] by {
                if a < u.len() && b < u.len() {
                    assert(uu[a] == u[a] && uu[b] == u[b]);
                } else if a < u.len() {
                    assert(uu[a] == u[a]);
                    assert(u.contains(u[a]));
                } else if b < u.len() {
                    assert(uu[b] == u[b]);
                    assert(u.contains(u[b]));
                }
            }
        }
    }
}

/// `t` is a level of the tree placed from `nodes` under `parent`: each
/// entry shows a node of `nodes` with that parent, in position order; a
/// folder holds a level placed under its own id, a bookmark holds nothing.
pub open spec fn placed_level(t: Seq<BookmarkTreeNode>, nodes: Seq<BookmarkNode>, parent: Option<i64>) -> bool
    decreases t,
{
    exists|lv: Seq<BookmarkNode>|
        #![trigger by_position(lv)]
        lv.len() == t.len() && by_position(lv) && forall|j: int|
            0 <= j < t.len() ==> {
                &&& nodes.contains(#[trigger] lv[j])
                &&& lv[j].parent_id == parent
                &&& shows(t[j], lv[j])
                &&& if lv[j].is_folder {
                    placed_level(t[j].children@, nodes, Some(lv[j].id))
                } else {
                    t[j].children@.len() == 0
                }
            }
}

/// `t` is the complete level of the tree of `nodes` under `parent`: its
/// entries show exactly the nodes under `parent`, in position order, and
/// each folder holds the complete level under its own id.
pub open spec fn complete_level(t: Seq<BookmarkTreeNode>, nodes: Seq<BookmarkNode>, parent: Option<i64>) -> bool
    decreases t,
{
    exists|lv: Seq<BookmarkNode>|
        #![trigger stable_sort_of(lv, under(nodes, parent))]
        stable_sort_of(lv, under(nodes, parent)) && lv.len() == t.len() && forall|j: int|
            0 <= j < t.len() ==> {
                &&& shows(t[j], #[trigger] lv[j])
                &&& if lv[j].is_folder {
                    complete_level(t[j].children@, nodes, Some(lv[j].id))
                } else {
                    t[j].children@.len() == 0
                }
            }
}

/// What the assembly may rely on of its pool when ids are unique: the pool
/// is what is left of `all` once the parents in `done` were expanded, none
/// of its nodes was expanded yet, `parent` was not, and the folder
/// expanded as `parent` is not in the pool.
pub open spec fn pool_ready(pool: Seq<BookmarkNode>, all: Seq<BookmarkNode>, done: Set<Option<i64>>, parent: Option<i64>) -> bool {
    &&& pool == keep(all, done)
    &&& !done.contains(parent)
    &&& forall|x: BookmarkNode| #[trigger] pool.contains(x) ==> !done.contains(Some(x.id)) && parent != Some(x.id)
}

/// Each parent in `d` but not in `done`, other than `parent`, is the id of a
/// node of `from`.
pub open spec fn expanded_from(d: Set<Option<i64>>, done: Set<Option<i64>>, parent: Option<i64>, from: Seq<BookmarkNode>) -> bool {
    forall|o: Option<i64>|
        #[trigger] d.contains(o) && !done.contains(o) && o != parent ==> exists|m: BookmarkNode| from.contains(m) && o == Some(m.id)
}

/// Assemble the subtree under `parent` from `pool`; returns the level, the
/// nodes not placed, and (as a ghost) the parents expanded so far.
fn assemble(
    parent: Option<i64>,
    pool: Vec<BookmarkNode>,
    Ghost(all): Ghost<Seq<BookmarkNode>>,
    Ghost(done): Ghost<Set<Option<i64>>>,
) -> (r: (Vec<BookmarkTreeNode>, Vec<BookmarkNode>, Ghost<Set<Option<i64>>>))
    requires
        forall|x: BookmarkNode| #[trigger] pool@.contains(x) ==> all.contains(x),
        unique_ids(all) ==> pool_ready(pool@, all, done, parent),
    ensures
        r.1@.len() <= pool@.len(),
        forall|x: BookmarkNode| #[trigger] r.1@.contains(x) ==> all.contains(x),
        placed_level(r.0@, all, parent),
        exists|lv: Seq<BookmarkNode>|
            #![trigger stable_sort_of(lv, under(pool@, parent))]
            stable_sort_of(lv, under(pool@, parent)) && lv.len() == r.0@.len() && forall|i: int|
                0 <= i < lv.len() ==> shows(#[trigger] r.0@[i], lv[i]) && (!lv[i].is_folder ==> r.0@[i].children@.len() == 0),
        unique_ids(all) ==> {
            &&& r.1@ == keep(all, r.2@)
            &&& forall|o: Option<i64>| #[trigger] done.contains(o) ==> r.2@.contains(o)
            &&& r.2@.contains(parent)
            &&& expanded_from(r.2@, done, parent, pool@)
            &&& forall|x: BookmarkNode| #[trigger] r.1@.contains(x) ==> !r.2@.contains(Some(x.id))
            &&& complete_level(r.0@, all, parent)
        },
    decreases pool@.len(),
{
    broadcast use vstd::seq_lib::group_to_multiset_ensures;

    let ghost u = unique_ids(all);
    let ghost pl = pool@;
    let (level, rest) = take_level(pool, parent);
    let level = sort_by_position(level);
    let ghost lv = level@;
    let ghost rest0 = rest@;
    let ghost d0 = done.insert(parent);
    proof {
        lemma_levels_from(pl, parent);
        assert forall|x: BookmarkNode| #[trigger] lv.contains(x) implies pl.contains(x) && all.contains(x) && x.parent_id == parent by {
            assert(lv.to_multiset().count(x) > 0);
            assert(under(pl, parent).to_multiset().count(x) > 0);
            assert(under(pl, parent).contains(x));
            assert(pl.contains(x));
        }
        assert forall|x: BookmarkNode| #[trigger] rest0.contains(x) implies pl.contains(x) && all.contains(x) && x.parent_id != parent by {
            assert(not_under(pl, parent).contains(x));
            assert(pl.contains(x));
        }
        if u {
            lemma_keep_not_under(all, done, parent);
            lemma_keep_under(all, done, parent);
            lemma_level_distinct(lv, all, pl, parent, done);
        }
    }
    let mut out: Vec<BookmarkTreeNode> = Vec::new();
    let mut remaining = rest;
    let ghost mut d = d0;
    let mut k: usize = 0;
    let m = level.len();
    while k < m
        invariant
            m == level@.len(),
            k <= m,
            lv == level@,
            out@.len() == k,
            remaining@.len() <= pl.len() - m,
            pl == pool@,
            u == unique_ids(all),
            d0 == done.insert(parent),
            forall|x: BookmarkNode| #[trigger] lv.contains(x) ==> pl.contains(x) && all.contains(x) && x.parent_id == parent,
            forall|x: BookmarkNode| #[trigger] rest0.contains(x) ==> pl.contains(x) && all.contains(x) && x.parent_id != parent,
            forall|x: BookmarkNode| #[trigger] remaining@.contains(x) ==> all.contains(x),
            u ==> {
                &&& pool_ready(pl, all, done, parent)
                &&& lv.no_duplicates()
                &&& lv.to_multiset() == under(all, parent).to_multiset()
                &&& stable_sort_of(lv, under(all, parent))
                &&& remaining@ == keep(all, d)
                &&& forall|x: BookmarkNode| #[trigger] remaining@.contains(x) ==> rest0.contains(x) && !d.contains(Some(x.id))
                &&& forall|o: Option<i64>| #[trigger] d0.contains(o) ==> d.contains(o)
                &&& forall|o: Option<i64>|
                    #[trigger] d.contains(o) && !d0.contains(o) ==> (exists|j: int| 0 <= j < k && o == Some(lv[j].id)) || (exists|y: BookmarkNode| rest0.contains(y) && o == Some(y.id))
            },
            forall|i: int|
                0 <= i < k ==> {
                    &&& shows(#[trigger] out@[i], lv[i])
                    &&& all.contains(lv[i])
                    &&& lv[i].parent_id == parent
                    &&& if lv[i].is_folder {
                        placed_level(out@[i].children@, all, Some(lv[i].id)) && (u ==> complete_level(out@[i].children@, all, Some(lv[i].id)))
                    } else {
                        out@[i].children@.len() == 0
                    }
                },
        decreases m - k,
    {
        let n = &level[k];
        proof {
            assert(lv.contains(lv[k as int]));
        }
        let children = if n.is_folder {
            let ghost nid = Some(n.id);
            proof {
                if u {
                    let me = lv[k as int];
                    lemma_keep_contains(all, d);
                    // The folder's id was not expanded yet.
                    if d.contains(nid) {
                        if d0.contains(nid) {
                            if done.contains(nid) {
                                assert(pl.contains(me));
                            } else {
                                assert(pl.contains(me));
                            }
                        } else {
                            if exists|j: int| 0 <= j < k && nid == Some(lv[j].id) {
                                let j = choose|j: int| 0 <= j < k && nid == Some(lv[j].id);
                                assert(lv.contains(lv[j]));
                                lemma_same_id(all, lv[j], me);
                            } else {
                                let y = choose|y: BookmarkNode| rest0.contains(y) && nid == Some(y.id);
                                lemma_same_id(all, y, me);
                            }
                        }
                    }
                    assert(!d.contains(nid));
                    assert forall|x: BookmarkNode| #[trigger] remaining@.contains(x) implies !d.contains(Some(x.id)) && nid != Some(x.id) by {
                        if nid == Some(x.id) {
                            lemma_same_id(all, x, me);
                        }
                    }
                }
            }
            let (c, left, Ghost(d2)) = assemble(Some(n.id), remaining, Ghost(all), Ghost(d));
            proof {
                if u {
                    let dd = d;
                    assert forall|x: BookmarkNode| #[trigger] left@.contains(x) implies rest0.contains(x) && !d2.contains(Some(x.id)) by {
                        lemma_keep_contains(all, d2);
                        lemma_keep_contains(all, dd);
                        assert(remaining@.contains(x));
                    }
                    assert forall|o: Option<i64>| #[trigger] d2.contains(o) && !d0.contains(o) implies (exists|j: int|
                        0 <= j < k + 1 && o == Some(lv[j].id)) || (exists|y: BookmarkNode| rest0.contains(y) && o == Some(y.id)) by {
                        if dd.contains(o) {
                            if exists|j: int| 0 <= j < k && o == Some(lv[j].id) {
                                let j = choose|j: int| 0 <= j < k && o == Some(lv[j].id);
                                assert(0 <= j < k + 1 && o == Some(lv[j].id));
                            }
                        } else if o == nid {
                            assert(o == Some(lv[k as int].id));
                        } else {
                            assert(expanded_from(d2, dd, nid, remaining@));
                            let y = choose|y: BookmarkNode| remaining@.contains(y) && o == Some(y.id);
                            assert(rest0.contains(y));
                        }
                    }
                }
                d = d2;
            }
            remaining = left;
            c
        } else {
            Vec::new()
        };
        out.push(BookmarkTreeNode { id: n.id, is_folder: n.is_folder, title: n.title.clone(), url: n.url.clone(), children });
        k = k + 1;
    }
    proof {
        assert(placed_level(out@, all, parent)) by {
            assert forall|j: int| 0 <= j < out@.len() implies {
                &&& all.contains(#[trigger] lv[j])
                &&& lv[j].parent_id == parent
                &&& shows(out@[j], lv[j])
                &&& if lv[j].is_folder {
                    placed_level(out@[j].children@, all, Some(lv[j].id))
                } else {
                    out@[j].children@.len() == 0
                }
            } by {
                assert(shows(out@[j], lv[j]));
            }
        }
        if u {
            assert(complete_level(out@, all, parent)) by {
                assert forall|j: int| 0 <= j < out@.len() implies {
                    &&& shows(out@[j], #[trigger] lv[j])
                    &&& if lv[j].is_folder {
                        complete_level(out@[j].children@, all, Some(lv[j].id))
                    } else {
                        out@[j].children@.len() == 0
                    }
                } by {
                    assert(shows(out@[j], lv[j]));
                }
            }
            assert(expanded_from(d, done, parent, pl)) by {
                assert forall|o: Option<i64>| #[trigger] d.contains(o) && !done.contains(o) && o != parent implies exists|y: BookmarkNode|
                    pl.contains(y) && o == Some(y.id) by {
                    if exists|j: int| 0 <= j < m && o == Some(lv[j].id) {
                        let j = choose|j: int| 0 <= j < m && o == Some(lv[j].id);
                        assert(lv.contains(lv[j]));
                        assert(pl.contains(lv[j]));
                    } else {
                        let y = choose|y: BookmarkNode| rest0.contains(y) && o == Some(y.id);
                        assert(pl.contains(y));
                    }
                }
            }
            assert(d0.contains(parent));
            assert forall|o: Option<i64>| #[trigger] done.contains(o) implies d.contains(o) by {
                assert(d0.contains(o));
            }
        }
    }
    (out, remaining, Ghost(d))
}

/// The nested tree of `nodes`: top-level nodes (no parent) in position
/// order, each folder holding its children in position order. Every level
/// shows only nodes stored under it; when ids are unique (as stored rows'
/// are), each level shows all of them. Nodes whose parent chain does not
/// reach the top are left out.
pub fn build_tree(nodes: Vec<BookmarkNode>) -> (r: Vec<BookmarkTreeNode>)
    ensures
        placed_level(r@, nodes@, None),
        unique_ids(nodes@) ==> complete_level(r@, nodes@, None),
        exists|lv: Seq<BookmarkNode>|
            #![trigger stable_sort_of(lv, under(nodes@, None))]
            stable_sort_of(lv, under(nodes@, None)) && lv.len() == r@.len() && forall|i: int|
                0 <= i < lv.len() ==> shows(#[trigger] r@[i], lv[i]) && (!lv[i].is_folder ==> r@[i].children@.len() == 0),
{
    let ghost all = nodes@;
    proof {
        lemma_keep_none(all);
    }
    assemble(None, nodes, Ghost(all), Ghost(Set::empty())).0
}

/// `q` with the LIKE wildcards `%` and `_`, and the escape `\` itself,
/// each preceded by `\`.
pub open spec fn like_escaped(q: Seq<char>) -> Seq<char>
    decreases q.len(),
{
    if q.len() == 0 {
        q
    } else {
        let c = q.last();
        let tail = if c == '\\' || c == '%' || c == '_' {
            seq!['\\', c]
        } else {
            seq![c]
        };
        like_escaped(q.drop_last()) + tail
    }
}

/// The LIKE pattern matching `query` anywhere in a title or URL, with the
/// query's own wildcards taken literally.
pub fn search_pattern(query: &str) -> (r: String)
    ensures
        r@ == seq!['%'] + like_escaped(query@) + seq!['%'],
{
    let cs = chars_of(query);
    let mut out = String::new();
    out.push('%');
    let mut i: usize = 0;
    while i < cs.len()
        invariant
            cs@ == query@,
            i <= cs@.len(),
            out@ == seq!['%'] + like_escaped(cs@.take(i as int)),
        decreases cs@.len() - i,
    {
        let c = cs[i];
        proof {
            assert(cs@.take(i + 1).drop_last() =~= cs@.take(i as int));
            assert(cs@.take(i + 1).last() == c);
        }
        if c == '\\' || c == '%' || c == '_' {
            out.push('\\');
        }
        out.push(c);
        proof {
            let t = cs@.take(i as int);
            if c == '\\' || c == '%' || c == '_' {
                assert(seq!['%'] + like_escaped(t) + seq!['\\', c] =~= (seq!['%'] + like_escaped(t)).push('\\').push(c));
            } else {
                assert(seq!['%'] + like_escaped(t) + seq![c] =~= (seq!['%'] + like_escaped(t)).push(c));
            }
        }
        i = i + 1;
    }
    out.push('%');
    proof {
        assert(cs@.take(cs@.len() as int) =~= cs@);
    }
    out
}

/// Why a bookmark or folder cannot be stored as asked.
#[derive(Debug, Clone, Copy, PartialEq, Eq)]
pub enum BookmarkProblem {
    /// A bookmark leaf was given an empty URL.
    EmptyUrl,
    /// The parent row is a bookmark, not a folder.
    NotAFolder,
    /// No row has the parent's id.
    NotFound,
}

/// The answer of `check_parent`.
pub open spec fn check_parent_spec(parent_id: Option<i64>, parent_is_folder: Option<bool>) -> Result<(), BookmarkProblem> {
    match parent_id {
        None => Ok(()),
        Some(_) => match parent_is_folder {
            Some(true) => Ok(()),
            Some(false) => Err(BookmarkProblem::NotAFolder),
            None => Err(BookmarkProblem::NotFound),
        },
    }
}

/// Whether a parent is acceptable, given whether its row is a folder
/// (`None` when no such row exists): the root (no parent) and existing
/// folders are.
pub fn check_parent(parent_id: Option<i64>, parent_is_folder: Option<bool>) -> (r: Result<(), BookmarkProblem>)
    ensures
        r == check_parent_spec(parent_id, parent_is_folder),
{
    match parent_id {
        None => Ok(()),
        Some(_) => match parent_is_folder {
            Some(true) => Ok(()),
            Some(false) => Err(BookmarkProblem::NotAFolder),
            None => Err(BookmarkProblem::NotFound),
        },
    }
}

/// Whether moving `id` under `new_parent` is refused as a cycle: a node
/// cannot go under itself, nor under one of its descendants (then
/// `reaches_node` says that walking up from `new_parent` meets `id`).
pub fn move_makes_cycle(id: i64, new_parent: Option<i64>, reaches_node: bool) -> (r: bool)
    ensures
        r == (new_parent == Some(id) || (new_parent is Some && reaches_node)),
{
    match new_parent {
        None => false,
        Some(p) => p == id || reaches_node,
    }
}

/// Whether a new bookmark leaf with `url` may be stored under `parent_id`:
/// an empty URL is refused first, then the parent is checked.
pub fn check_new_bookmark(url: &str, parent_id: Option<i64>, parent_is_folder: Option<bool>) -> (r: Result<(), BookmarkProblem>)
    ensures
        url@.len() == 0 ==> r == Err::<(), BookmarkProblem>(BookmarkProblem::EmptyUrl),
        url@.len() > 0 ==> r == check_parent_spec(parent_id, parent_is_folder),
{
    if url.unicode_len() == 0 {
        Err(BookmarkProblem::EmptyUrl)
    } else {
        check_parent(parent_id, parent_is_folder)
    }
}

/// `s` without the entries equal to `id`, in order.
pub open spec fn others_of(s: Seq<i64>, id: i64) -> Seq<i64>
    decreases s.len(),
{
    if s.len() == 0 {
        s
    } else if s.last() == id {
        others_of(s.drop_last(), id)
    } else {
        others_of(s.drop_last(), id).push(s.last())
    }
}

/// The children of the new parent, in order, after node `id` moves under it
/// at sibling index `position` (held within range); `siblings` are its
/// children before the move, in order, `id` among them when the move stays
/// under the same parent.
pub open spec fn moved_order(siblings: Seq<i64>, id: i64, position: int) -> Seq<i64> {
    let others = others_of(siblings, id);
    let k = if position < 0 {
        0
    } else if position > others.len() {
        others.len() as int
    } else {
        position
    };
    others.insert(k, id)
}

/// The new order of a parent's children when node `id` moves under it at
/// sibling index `position`: the other children keep their order and `id`
/// lands at `position`, held within `0..=` their number.
pub fn sibling_order_after_move(siblings: &Vec<i64>, id: i64, position: i64) -> (r: Vec<i64>)
    ensures
        r@ == moved_order(siblings@, id, position as int),
{
    let mut others: Vec<i64> = Vec::new();
    for i in 0..siblings.len()
        invariant
            others@ == others_of(siblings@.take(i as int), id),
    {
        proof {
            assert(siblings@.take(i + 1).drop_last() =~= siblings@.take(i as int));
            assert(siblings@.take(i + 1).last() == siblings@[i as int]);
        }
        if siblings[i] != id {
            others.push(siblings[i]);
        }
    }
    proof {
        assert(siblings@.take(siblings@.len() as int) =~= siblings@);
    }
    let n = others.len();
    let k: usize = if position < 0 {
        0
    } else if (position as u128) > (n as u128) {
        n
    } else {
        position as usize
    };
    others.insert(k, id);
    others
}

} // verus!
