//! Cycle detection over the connections of a graph.
//!
//! Node names are first numbered; then nodes with no incoming connection from
//! a remaining node are removed one at a time. The nodes that can never be
//! removed are exactly those with a path back to themselves, so the graph has
//! a cycle if and only if some node remains.
use crate::text::str_eq;
use vstd::prelude::*;
use vstd::set_lib::{lemma_int_range, lemma_len_subset, set_int_range};

verus! {

/// A connection runs from `a` to `b` (by index).
pub open spec fn ilinked(f: Seq<(usize, usize)>, a: int, b: int) -> bool {
    exists|j: int| 0 <= j < f.len() && (#[trigger] f[j]).0 as int == a && f[j].1 as int == b
}

/// `q` is a closed walk of at least one step.
pub open spec fn iclosed(f: Seq<(usize, usize)>, q: Seq<int>) -> bool {
    &&& q.len() >= 2
    &&& q[0] == q.last()
    &&& forall|i: int| 0 <= i < q.len() - 1 ==> #[trigger] ilinked(f, q[i], q[i + 1])
}

/// `v` lies on a closed walk.
pub open spec fn on_icycle(f: Seq<(usize, usize)>, v: int) -> bool {
    exists|q: Seq<int>| #[trigger] iclosed(f, q) && q[0] == v
}

/// The predecessor of the last node of a closed walk through `v` is on a
/// closed walk too.
proof fn lemma_rotate(f: Seq<(usize, usize)>, q: Seq<int>)
    requires
        iclosed(f, q),
    ensures
        ilinked(f, q[q.len() - 2], q[0]),
        on_icycle(f, q[q.len() - 2]),
{
    let n = q.len();
    let u = q[n - 2];
    let last = n - 2;
    assert(ilinked(f, q[last], q[last + 1]));
    let r = seq![u] + q.subrange(0, n - 1);
    assert(r.len() == n);
    assert(r[0] == u);
    assert(r.last() == q[n - 2]);
    assert forall|i: int| 0 <= i < r.len() - 1 implies #[trigger] ilinked(f, r[i], r[i + 1]) by {
        if i == 0 {
            assert(r[1] == q[0]);
        } else {
            let k = i - 1;
            assert(r[i] == q[k] && r[i + 1] == q[k + 1]);
            assert(ilinked(f, q[k], q[k + 1]));
        }
    }
    assert(iclosed(f, r));
}

/// Some remaining node has an incoming connection from a remaining node.
pub open spec fn has_remaining_pred(f: Seq<(usize, usize)>, removed: Seq<bool>, v: int) -> bool {
    exists|j: int| 0 <= j < f.len() && #[trigger] f[j].1 == v && f[j].0 < removed.len() && !removed[f[j].0 as int]
}

/// A chosen connection into `v` from a remaining node.
spec fn pred_edge(f: Seq<(usize, usize)>, removed: Seq<bool>, v: int) -> int {
    choose|j: int| 0 <= j < f.len() && #[trigger] f[j].1 == v && f[j].0 < removed.len() && !removed[f[j].0 as int]
}

/// A chosen remaining predecessor of `v`.
spec fn pred_of(f: Seq<(usize, usize)>, removed: Seq<bool>, v: int) -> int {
    f[pred_edge(f, removed, v)].0 as int
}

/// Walking backwards `k` steps from `v` along chosen predecessors.
spec fn back_chain(f: Seq<(usize, usize)>, removed: Seq<bool>, v: int, k: nat) -> Seq<int>
    decreases k,
{
    if k == 0 {
        seq![v]
    } else {
        let c = back_chain(f, removed, v, (k - 1) as nat);
        c.push(pred_of(f, removed, c.last()))
    }
}

proof fn lemma_back_chain(f: Seq<(usize, usize)>, removed: Seq<bool>, v: int, k: nat)
    requires
        0 <= v < removed.len(),
        !removed[v],
        forall|x: int| 0 <= x < removed.len() && !removed[x] ==> #[trigger] has_remaining_pred(f, removed, x),
    ensures
        back_chain(f, removed, v, k).len() == k + 1,
        back_chain(f, removed, v, k)[0] == v,
        forall|i: int| 0 <= i <= k ==> 0 <= #[trigger] back_chain(f, removed, v, k)[i] < removed.len()
            && !removed[back_chain(f, removed, v, k)[i]],
        forall|i: int| 0 <= i < k ==> #[trigger] ilinked(f, back_chain(f, removed, v, k)[i + 1], back_chain(f, removed, v, k)[i]),
    decreases k,
{
    if k > 0 {
        lemma_back_chain(f, removed, v, (k - 1) as nat);
        let c = back_chain(f, removed, v, (k - 1) as nat);
        let x = c.last();
        assert(0 <= x < removed.len() && !removed[x]);
        assert(has_remaining_pred(f, removed, x));
        let j = pred_edge(f, removed, x);
        assert(0 <= j < f.len() && f[j].1 == x && f[j].0 < removed.len() && !removed[f[j].0 as int]);
        let p = pred_of(f, removed, x);
        assert(f[j].0 as int == p && f[j].1 as int == x);
        assert(ilinked(f, p, x));
        let d = back_chain(f, removed, v, k);
        assert(d == c.push(p));
        assert forall|i: int| 0 <= i < k implies #[trigger] ilinked(f, d[i + 1], d[i]) by {
            if i < k - 1 {
                assert(d[i + 1] == c[i + 1] && d[i] == c[i]);
                assert(ilinked(f, c[i + 1], c[i]));
            }
        }
    }
}

/// When every remaining node has a remaining predecessor, some remaining node
/// lies on a closed walk.
proof fn lemma_stuck_means_cycle(f: Seq<(usize, usize)>, removed: Seq<bool>, v: int)
    requires
        0 <= v < removed.len(),
        !removed[v],
        forall|x: int| 0 <= x < removed.len() && !removed[x] ==> #[trigger] has_remaining_pred(f, removed, x),
    ensures
        exists|q: Seq<int>| #[trigger] iclosed(f, q),
{
    let n = removed.len();
    lemma_back_chain(f, removed, v, n);
    let s = back_chain(f, removed, v, n);
    assert(s.to_set().subset_of(set_int_range(0, n as int))) by {
        assert forall|x: int| s.to_set().contains(x) implies set_int_range(0, n as int).contains(x) by {
            let i = choose|i: int| 0 <= i < s.len() && s[i] == x;
            assert(0 <= s[i] < n);
        }
    }
    lemma_int_range(0, n as int);
    lemma_len_subset(s.to_set(), set_int_range(0, n as int));
    if s.no_duplicates() {
        s.unique_seq_to_set();
        assert(false);
    }
    let (a, b) = choose|a: int, b: int| 0 <= a < s.len() && 0 <= b < s.len() && a != b && s[a] == s[b];
    let (lo, hi) = if a < b { (a, b) } else { (b, a) };
    let q = Seq::new((hi - lo + 1) as nat, |i: int| s[hi - i]);
    assert(q[0] == s[hi] && q.last() == s[lo]);
    assert forall|i: int| 0 <= i < q.len() - 1 implies #[trigger] ilinked(f, q[i], q[i + 1]) by {
        assert(q[i] == s[hi - i] && q[i + 1] == s[hi - i - 1]);
        assert(ilinked(f, s[(hi - i - 1) + 1], s[hi - i - 1]));
    }
    assert(iclosed(f, q));
}

/// Number of nodes not yet removed.
spec fn count_left(s: Seq<bool>) -> nat
    decreases s.len(),
{
    if s.len() == 0 {
        0
    } else {
        count_left(s.drop_last()) + if s.last() { 0nat } else { 1nat }
    }
}

proof fn lemma_count_left_remove(s: Seq<bool>, i: int)
    requires
        0 <= i < s.len(),
        !s[i],
    ensures
        count_left(s) >= 1,
        count_left(s.update(i, true)) == count_left(s) - 1,
    decreases s.len(),
{
    let u = s.update(i, true);
    if i == s.len() - 1 {
        assert(u.drop_last() =~= s.drop_last());
    } else {
        assert(u.drop_last() =~= s.drop_last().update(i, true));
        lemma_count_left_remove(s.drop_last(), i);
    }
}

proof fn lemma_count_left_all(n: nat)
    ensures
        count_left(Seq::new(n, |k: int| false)) == n,
    decreases n,
{
    if n > 0 {
        assert(Seq::new(n, |k: int| false).drop_last() =~= Seq::new((n - 1) as nat, |k: int| false));
        lemma_count_left_all((n - 1) as nat);
    }
}

/// `v` has no incoming connection from a remaining node.
fn removable(f: &[(usize, usize)], removed: &Vec<bool>, v: usize) -> (r: bool)
    requires
        forall|j: int| 0 <= j < f@.len() ==> (#[trigger] f@[j]).0 < removed@.len(),
    ensures
        r == !has_remaining_pred(f@, removed@, v as int),
{
    let mut j: usize = 0;
    while j < f.len()
        invariant
            j <= f@.len(),
            forall|k: int| 0 <= k < f@.len() ==> (#[trigger] f@[k]).0 < removed@.len(),
            forall|k: int| 0 <= k < j ==> !(#[trigger] f@[k].1 == v && f@[k].0 < removed@.len() && !removed@[f@[k].0 as int]),
        decreases f@.len() - j,
    {
        let (a, b) = f[j];
        if b == v && !removed[a] {
            assert(f@[j as int].1 == v && f@[j as int].0 < removed@.len() && !removed@[f@[j as int].0 as int]);
            return false;
        }
        j += 1;
    }
    true
}

/// Whether the numbered graph with `n` nodes has a closed walk.
fn has_index_cycle(n: usize, f: &[(usize, usize)]) -> (r: bool)
    requires
        forall|j: int| 0 <= j < f@.len() ==> (#[trigger] f@[j]).0 < n && f@[j].1 < n,
    ensures
        r == exists|q: Seq<int>| #[trigger] iclosed(f@, q),
{
    let mut removed: Vec<bool> = Vec::new();
    let mut k: usize = 0;
    while k < n
        invariant
            k <= n,
            removed@ == Seq::new(k as nat, |i: int| false),
        decreases n - k,
    {
        removed.push(false);
        k += 1;
        assert(removed@ =~= Seq::new(k as nat, |i: int| false));
    }
    proof {
        lemma_count_left_all(n as nat);
    }
    let mut left: usize = n;
    loop
        invariant
            removed@.len() == n,
            left == count_left(removed@),
            forall|j: int| 0 <= j < f@.len() ==> (#[trigger] f@[j]).0 < n && f@[j].1 < n,
            forall|v: int| 0 <= v < n && on_icycle(f@, v) ==> !#[trigger] removed@[v],
        decreases left,
    {
        let mut found: Option<usize> = None;
        let mut v: usize = 0;
        while v < n
            invariant
                removed@.len() == n,
                v <= n,
                forall|j: int| 0 <= j < f@.len() ==> (#[trigger] f@[j]).0 < n && f@[j].1 < n,
                found matches Some(x) ==> x < n && !removed@[x as int] && !has_remaining_pred(f@, removed@, x as int),
                found is None ==> forall|x: int| 0 <= x < v ==> removed@[x] || #[trigger] has_remaining_pred(f@, removed@, x),
            decreases n - v,
        {
            if found.is_none() && !removed[v] && removable(f, &removed, v) {
                found = Some(v);
            }
            v += 1;
        }
        match found {
            None => {
                proof {
                    if exists|x: int| 0 <= x < n && !removed@[x] {
                        let x = choose|x: int| 0 <= x < n && !removed@[x];
                        assert forall|y: int| 0 <= y < removed@.len() && !removed@[y] implies #[trigger] has_remaining_pred(f@, removed@, y) by {}
                        lemma_stuck_means_cycle(f@, removed@, x);
                    } else {
                        assert forall|q: Seq<int>| #[trigger] iclosed(f@, q) implies false by {
                            let i = 0int;
                            assert(ilinked(f@, q[i], q[i + 1]));
                            let j = choose|j: int| 0 <= j < f@.len() && (#[trigger] f@[j]).0 as int == q[0] && f@[j].1 as int == q[1];
                            assert(0 <= q[0] < n);
                            assert(on_icycle(f@, q[0]));
                            assert(!removed@[q[0]]);
                        }
                    }
                }
                let mut i: usize = 0;
                let mut any_left = false;
                while i < n
                    invariant
                        removed@.len() == n,
                        i <= n,
                        any_left == exists|x: int| 0 <= x < i && !#[trigger] removed@[x],
                    decreases n - i,
                {
                    if !removed[i] {
                        any_left = true;
                    }
                    i += 1;
                }
                return any_left;
            },
            Some(x) => {
                proof {
                    lemma_count_left_remove(removed@, x as int);
                    if on_icycle(f@, x as int) {
                        let q = choose|q: Seq<int>| #[trigger] iclosed(f@, q) && q[0] == x;
                        lemma_rotate(f@, q);
                        let u = q[q.len() - 2];
                        let j = choose|j: int| 0 <= j < f@.len() && (#[trigger] f@[j]).0 as int == u && f@[j].1 as int == q[0];
                        assert(0 <= u < n);
                        assert(!removed@[u]);
                        assert(has_remaining_pred(f@, removed@, x as int));
                    }
                }
                removed.set(x, true);
                left -= 1;
            },
        }
    }
}

/// The connections as pairs of names.
pub open spec fn edge_names(edges: Seq<(String, String)>) -> Seq<(Seq<char>, Seq<char>)> {
    edges.map_values(|e: (String, String)| (e.0@, e.1@))
}

/// There is a connection from `a` to `b`.
pub open spec fn linked(e: Seq<(Seq<char>, Seq<char>)>, a: Seq<char>, b: Seq<char>) -> bool {
    exists|j: int| 0 <= j < e.len() && #[trigger] e[j] == (a, b)
}

/// `p` is a walk of at least one connection that ends where it starts.
pub open spec fn closed_walk(e: Seq<(Seq<char>, Seq<char>)>, p: Seq<Seq<char>>) -> bool {
    &&& p.len() >= 2
    &&& p[0] == p.last()
    &&& forall|i: int| 0 <= i < p.len() - 1 ==> #[trigger] linked(e, p[i], p[i + 1])
}

/// The connections contain a cycle: some node can be left and reached again.
pub open spec fn cyclic(e: Seq<(Seq<char>, Seq<char>)>) -> bool {
    exists|p: Seq<Seq<char>>| #[trigger] closed_walk(e, p)
}

/// No two numbered names are equal.
spec fn distinct_names(ids: Seq<String>) -> bool {
    forall|i: int, j: int| 0 <= i < ids.len() && 0 <= j < ids.len() && i != j ==> (#[trigger] ids[i])@ != (#[trigger] ids[j])@
}

/// The number of `name`, adding it when it is new.
fn intern(ids: &mut Vec<String>, name: &String) -> (k: usize)
    requires
        distinct_names(old(ids)@),
    ensures
        distinct_names(final(ids)@),
        k < final(ids)@.len(),
        final(ids)@[k as int]@ == name@,
        old(ids)@.len() <= final(ids)@.len(),
        forall|i: int| 0 <= i < old(ids)@.len() ==> #[trigger] final(ids)@[i] == old(ids)@[i],
{
    let mut i: usize = 0;
    while i < ids.len()
        invariant
            i <= ids@.len(),
            ids@ == old(ids)@,
            distinct_names(ids@),
            forall|k: int| 0 <= k < i ==> (#[trigger] ids@[k])@ != name@,
        decreases ids@.len() - i,
    {
        if str_eq(ids[i].as_str(), name.as_str()) {
            return i;
        }
        i += 1;
    }
    let ghost before = ids@;
    ids.push(name.clone());
    proof {
        assert forall|a: int, b: int| 0 <= a < ids@.len() && 0 <= b < ids@.len() && a != b implies (#[trigger] ids@[a])@ != (#[trigger] ids@[b])@ by {
            if a < before.len() && b < before.len() {
                assert(ids@[a] == before[a] && ids@[b] == before[b]);
            } else if a < before.len() {
                assert(ids@[a] == before[a]);
            } else {
                assert(ids@[b] == before[b]);
            }
        }
    }
    ids.len() - 1
}

/// Numbered connections `f` over names `ids` stand for the named connections `e`.
spec fn numbered(ids: Seq<String>, f: Seq<(usize, usize)>, e: Seq<(Seq<char>, Seq<char>)>) -> bool {
    &&& f.len() == e.len()
    &&& distinct_names(ids)
    &&& forall|j: int| 0 <= j < f.len() ==> (#[trigger] f[j]).0 < ids.len() && f[j].1 < ids.len()
        && ids[f[j].0 as int]@ == e[j].0 && ids[f[j].1 as int]@ == e[j].1
}

/// A chosen connection for step `i` of walk `p`.
spec fn walk_edge(e: Seq<(Seq<char>, Seq<char>)>, p: Seq<Seq<char>>, i: int) -> int {
    choose|j: int| 0 <= j < e.len() && #[trigger] e[j] == (p[i], p[i + 1])
}

proof fn lemma_numbered_cycles(ids: Seq<String>, f: Seq<(usize, usize)>, e: Seq<(Seq<char>, Seq<char>)>)
    requires
        numbered(ids, f, e),
    ensures
        (exists|q: Seq<int>| #[trigger] iclosed(f, q)) == cyclic(e),
{
    if exists|q: Seq<int>| #[trigger] iclosed(f, q) {
        let q = choose|q: Seq<int>| #[trigger] iclosed(f, q);
        let p = Seq::new(q.len(), |i: int| ids[q[i]]@);
        assert forall|i: int| 0 <= i < p.len() - 1 implies #[trigger] linked(e, p[i], p[i + 1]) by {
            assert(ilinked(f, q[i], q[i + 1]));
            let j = choose|j: int| 0 <= j < f.len() && (#[trigger] f[j]).0 as int == q[i] && f[j].1 as int == q[i + 1];
            assert(e[j] == (p[i], p[i + 1]));
        }
        assert(closed_walk(e, p));
    }
    if cyclic(e) {
        let p = choose|p: Seq<Seq<char>>| #[trigger] closed_walk(e, p);
        let n = p.len();
        let q = Seq::new(n, |i: int| if i < n - 1 { f[walk_edge(e, p, i)].0 as int } else { f[walk_edge(e, p, 0)].0 as int });
        assert forall|i: int| 0 <= i < n - 1 implies 0 <= #[trigger] walk_edge(e, p, i) < e.len() && e[walk_edge(e, p, i)] == (p[i], p[i + 1]) by {
            assert(linked(e, p[i], p[i + 1]));
        }
        assert forall|i: int| 0 <= i < q.len() - 1 implies #[trigger] ilinked(f, q[i], q[i + 1]) by {
            let j = walk_edge(e, p, i);
            assert(0 <= j < e.len() && e[j] == (p[i], p[i + 1]));
            let next = if i + 1 < n - 1 { walk_edge(e, p, i + 1) } else { walk_edge(e, p, 0) };
            assert(0 <= next < e.len());
            assert(e[next].0 == p[i + 1]) by {
                if i + 1 == n - 1 {
                    assert(p[i + 1] == p[0]);
                }
            }
            assert(ids[f[j].1 as int]@ == ids[f[next].0 as int]@);
            assert(f[j].1 == f[next].0);
            assert(q[i + 1] == f[next].0 as int);
        }
        assert(iclosed(f, q));
    }
}

/// Whether the connections `(from, to)` between named nodes contain a cycle.
pub fn has_cycle(edges: &[(String, String)]) -> (r: bool)
    ensures
        r == cyclic(edge_names(edges@)),
{
    let ghost e = edge_names(edges@);
    let mut ids: Vec<String> = Vec::new();
    let mut f: Vec<(usize, usize)> = Vec::new();
    let mut j: usize = 0;
    while j < edges.len()
        invariant
            e == edge_names(edges@),
            j <= edges@.len(),
            numbered(ids@, f@, e.take(j as int)),
        decreases edges@.len() - j,
    {
        let ghost before_ids = ids@;
        let a = intern(&mut ids, &edges[j].0);
        let b = intern(&mut ids, &edges[j].1);
        f.push((a, b));
        proof {
            let t = e.take(j + 1);
            assert forall|k: int| 0 <= k < f@.len() implies (#[trigger] f@[k]).0 < ids@.len() && f@[k].1 < ids@.len()
                && ids@[f@[k].0 as int]@ == t[k].0 && ids@[f@[k].1 as int]@ == t[k].1 by {
                if k < j {
                    assert(e.take(j as int)[k] == t[k]);
                }
            }
        }
        j += 1;
    }
    assert(e.take(edges@.len() as int) =~= e);
    proof {
        lemma_numbered_cycles(ids@, f@, e);
    }
    has_index_cycle(ids.len(), f.as_slice())
}

/// Adding connections never removes a cycle.
pub proof fn lemma_cycle_survives_more_connections(e: Seq<(Seq<char>, Seq<char>)>, more: Seq<(Seq<char>, Seq<char>)>)
    requires
        cyclic(e),
    ensures
        cyclic(e + more),
{
    let p = choose|p: Seq<Seq<char>>| #[trigger] closed_walk(e, p);
    assert forall|i: int| 0 <= i < p.len() - 1 implies #[trigger] linked(e + more, p[i], p[i + 1]) by {
        assert(linked(e, p[i], p[i + 1]));
        let j = choose|j: int| 0 <= j < e.len() && #[trigger] e[j] == (p[i], p[i + 1]);
        assert((e + more)[j] == e[j]);
    }
    assert(closed_walk(e + more, p));
}

/// A connection from a node to itself is a cycle.
pub proof fn lemma_self_connection_is_cycle(e: Seq<(Seq<char>, Seq<char>)>, j: int)
    requires
        0 <= j < e.len(),
        e[j].0 == e[j].1,
    ensures
        cyclic(e),
{
    let p = seq![e[j].0, e[j].1];
    assert(e[j] == (p[0], p[1]));
    assert forall|i: int| 0 <= i < p.len() - 1 implies #[trigger] linked(e, p[i], p[i + 1]) by {}
    assert(closed_walk(e, p));
}

/// A graph with no connections has no cycle.
pub proof fn lemma_no_connections_no_cycle(e: Seq<(Seq<char>, Seq<char>)>)
    requires
        e.len() == 0,
    ensures
        !cyclic(e),
{
    if cyclic(e) {
        let p = choose|p: Seq<Seq<char>>| #[trigger] closed_walk(e, p);
        let i = 0int;
        assert(linked(e, p[i], p[i + 1]));
    }
}

} // verus!
