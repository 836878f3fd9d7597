//! Disjoint sets over `0..n`, and the connectivity of an undirected graph that
//! they track.
use vstd::prelude::*;

verus! {

/// `path` walks along `adj`, in either direction of each pair.
pub open spec fn is_walk<V>(adj: spec_fn(V, V) -> bool, path: Seq<V>) -> bool {
    &&& path.len() > 0
    &&& forall|k: int|
        0 <= k < path.len() - 1 ==> adj(#[trigger] path[k], path[k + 1]) || adj(
            path[k + 1],
            path[k],
        )
}

/// Some walk leads from `a` to `b`.
pub open spec fn connected<V>(adj: spec_fn(V, V) -> bool, a: V, b: V) -> bool {
    exists|path: Seq<V>| #[trigger]
        is_walk(adj, path) && path[0] == a && path.last() == b
}

/// Being connected is reflexive.
pub proof fn law_connected_reflexive<V>(adj: spec_fn(V, V) -> bool, a: V)
    ensures
        connected(adj, a, a),
{
    let path = seq![a];
    assert(is_walk(adj, path));
}

/// Being connected is symmetric.
pub proof fn law_connected_symmetric<V>(adj: spec_fn(V, V) -> bool, a: V, b: V)
    requires
        connected(adj, a, b),
    ensures
        connected(adj, b, a),
{
    let path = choose|path: Seq<V>| #[trigger]
        is_walk(adj, path) && path[0] == a && path.last() == b;
    let back = path.reverse();
    assert forall|k: int| 0 <= k < back.len() - 1 implies adj(#[trigger] back[k], back[k + 1])
        || adj(back[k + 1], back[k]) by {
        let m = path.len() - 2 - k;
        assert(back[k] == path[m + 1]);
        assert(back[k + 1] == path[m]);
    }
    assert(is_walk(adj, back));
}

/// Being connected is transitive.
pub proof fn law_connected_transitive<V>(adj: spec_fn(V, V) -> bool, a: V, b: V, c: V)
    requires
        connected(adj, a, b),
        connected(adj, b, c),
    ensures
        connected(adj, a, c),
{
    let p = choose|path: Seq<V>| #[trigger]
        is_walk(adj, path) && path[0] == a && path.last() == b;
    let q = choose|path: Seq<V>| #[trigger]
        is_walk(adj, path) && path[0] == b && path.last() == c;
    let path = p + q.drop_first();
    assert forall|k: int| 0 <= k < path.len() - 1 implies adj(#[trigger] path[k], path[k + 1])
        || adj(path[k + 1], path[k]) by {
        if k + 1 < p.len() {
            assert(path[k] == p[k] && path[k + 1] == p[k + 1]);
        } else {
            let m = k + 1 - p.len();
            assert(path[k + 1] == q[m + 1]);
            assert(path[k] == q[m]);
        }
    }
    assert(is_walk(adj, path));
    if q.len() > 1 {
        assert(path.last() == q.last());
    } else {
        assert(path =~= p);
    }
}

/// Neighbours are connected.
pub proof fn law_adjacent_connected<V>(adj: spec_fn(V, V) -> bool, a: V, b: V)
    requires
        adj(a, b),
    ensures
        connected(adj, a, b),
        connected(adj, b, a),
{
    let path = seq![a, b];
    assert(is_walk(adj, path));
    law_connected_symmetric(adj, a, b);
}

/// Connection along fewer pairs is connection along more.
pub proof fn lemma_connected_monotone<V>(
    small: spec_fn(V, V) -> bool,
    large: spec_fn(V, V) -> bool,
    a: V,
    b: V,
)
    requires
        connected(small, a, b),
        forall|x: V, y: V| #[trigger] small(x, y) ==> large(x, y),
    ensures
        connected(large, a, b),
{
    let path = choose|path: Seq<V>| #[trigger]
        is_walk(small, path) && path[0] == a && path.last() == b;
    assert(is_walk(large, path));
}

/// The pairs of `adj` and one more.
pub open spec fn with_edge(adj: spec_fn(int, int) -> bool, a: int, b: int) -> spec_fn(
    int,
    int,
) -> bool {
    |x: int, y: int| adj(x, y) || (x == a && y == b)
}

spec fn joined_by(adj: spec_fn(int, int) -> bool, a: int, b: int, i: int, j: int) -> bool {
    ||| connected(adj, i, j)
    ||| connected(adj, i, a) && connected(adj, b, j)
    ||| connected(adj, i, b) && connected(adj, a, j)
}

proof fn lemma_walk_with_edge(adj: spec_fn(int, int) -> bool, a: int, b: int, path: Seq<int>)
    requires
        is_walk(with_edge(adj, a, b), path),
    ensures
        joined_by(adj, a, b, path[0], path.last()),
    decreases path.len(),
{
    let x = path[0];
    let z = path.last();
    if path.len() == 1 {
        law_connected_reflexive(adj, x);
    } else {
        let rest = path.drop_first();
        let y = path[1];
        assert forall|k: int| 0 <= k < rest.len() - 1 implies with_edge(adj, a, b)(
            #[trigger] rest[k],
            rest[k + 1],
        ) || with_edge(adj, a, b)(rest[k + 1], rest[k]) by {
            assert(rest[k] == path[k + 1] && rest[k + 1] == path[k + 2]);
        }
        lemma_walk_with_edge(adj, a, b, rest);
        assert(rest[0] == y && rest.last() == z);
        assert(with_edge(adj, a, b)(path[0], path[1]) || with_edge(adj, a, b)(path[1], path[0]));
        if adj(x, y) || adj(y, x) {
            if adj(x, y) {
                law_adjacent_connected(adj, x, y);
            } else {
                law_adjacent_connected(adj, y, x);
            }
            if connected(adj, y, z) {
                law_connected_transitive(adj, x, y, z);
            } else if connected(adj, y, a) && connected(adj, b, z) {
                law_connected_transitive(adj, x, y, a);
            } else {
                law_connected_transitive(adj, x, y, b);
            }
        } else {
            law_connected_reflexive(adj, a);
            law_connected_reflexive(adj, b);
            if x == a && y == b {
                if connected(adj, b, a) && connected(adj, b, z) {
                    law_connected_symmetric(adj, b, a);
                    law_connected_transitive(adj, a, b, z);
                }
            } else {
                assert(x == b && y == a);
                if connected(adj, a, b) && connected(adj, a, z) {
                    law_connected_symmetric(adj, a, b);
                    law_connected_transitive(adj, b, a, z);
                }
            }
        }
    }
}

proof fn lemma_connected_with_edge(adj: spec_fn(int, int) -> bool, a: int, b: int, i: int, j: int)
    ensures
        connected(with_edge(adj, a, b), i, j) <==> joined_by(adj, a, b, i, j),
{
    let more = with_edge(adj, a, b);
    if connected(more, i, j) {
        let path = choose|path: Seq<int>| #[trigger]
            is_walk(more, path) && path[0] == i && path.last() == j;
        lemma_walk_with_edge(adj, a, b, path);
    }
    if joined_by(adj, a, b, i, j) {
        law_adjacent_connected(more, a, b);
        if connected(adj, i, j) {
            lemma_connected_monotone(adj, more, i, j);
        } else if connected(adj, i, a) && connected(adj, b, j) {
            lemma_connected_monotone(adj, more, i, a);
            lemma_connected_monotone(adj, more, b, j);
            law_connected_transitive(more, i, a, b);
            law_connected_transitive(more, i, b, j);
        } else {
            lemma_connected_monotone(adj, more, i, b);
            lemma_connected_monotone(adj, more, a, j);
            law_connected_transitive(more, i, b, a);
            law_connected_transitive(more, i, a, j);
        }
    }
}

/// Minimal union-find for weakly connected components.
pub struct UnionFind {
    parent: Vec<usize>,
    rank: Vec<u8>,
}

spec fn forest_ok(parent: Seq<usize>, rank: Seq<u8>) -> bool {
    &&& parent.len() == rank.len()
    &&& forall|i: int| 0 <= i < parent.len() ==> (#[trigger] parent[i]) < parent.len()
    &&& forall|i: int|
        0 <= i < parent.len() && (#[trigger] parent[i]) != i ==> rank[i] < rank[parent[i] as int]
}

spec fn root_of(parent: Seq<usize>, rank: Seq<u8>, x: int) -> int
    decreases 256 - rank[x],
{
    if !(0 <= x < parent.len()) || parent[x] == x || !(rank[x] < rank[parent[x] as int]) {
        x
    } else {
        root_of(parent, rank, parent[x] as int)
    }
}

spec fn class_of(parent: Seq<usize>, rank: Seq<u8>, r: int) -> Set<int> {
    Set::new(|j: int| 0 <= j < parent.len() && root_of(parent, rank, j) == r)
}

spec fn ranks_ok(parent: Seq<usize>, rank: Seq<u8>) -> bool {
    forall|r: int|
        0 <= r < parent.len() && (#[trigger] parent[r]) == r ==> class_of(
            parent,
            rank,
            r,
        ).len() >= vstd::arithmetic::power2::pow2(rank[r] as nat)
}

proof fn lemma_class_finite(parent: Seq<usize>, rank: Seq<u8>, r: int)
    ensures
        class_of(parent, rank, r).finite(),
        class_of(parent, rank, r).len() <= parent.len(),
{
    let all = vstd::set_lib::set_int_range(0, parent.len() as int);
    vstd::set_lib::lemma_int_range(0, parent.len() as int);
    assert(class_of(parent, rank, r).subset_of(all));
    vstd::set_lib::lemma_len_subset(class_of(parent, rank, r), all);
}

proof fn lemma_root(parent: Seq<usize>, rank: Seq<u8>, x: int)
    requires
        forest_ok(parent, rank),
        0 <= x < parent.len(),
    ensures
        0 <= root_of(parent, rank, x) < parent.len(),
        parent[root_of(parent, rank, x)] == root_of(parent, rank, x),
        root_of(parent, rank, root_of(parent, rank, x)) == root_of(parent, rank, x),
    decreases 256 - rank[x],
{
    if parent[x] != x {
        lemma_root(parent, rank, parent[x] as int);
    }
}

// Pointing `x` at another node of its tree, above it, moves no root.
proof fn lemma_shortcut(parent: Seq<usize>, rank: Seq<u8>, x: int, up: usize, i: int)
    requires
        forest_ok(parent, rank),
        0 <= x < parent.len(),
        0 <= i < parent.len(),
        parent[x] != x,
        up < parent.len(),
        rank[x] < rank[up as int],
        root_of(parent, rank, up as int) == root_of(parent, rank, x),
    ensures
        forest_ok(parent.update(x, up), rank),
        root_of(parent.update(x, up), rank, i) == root_of(parent, rank, i),
    decreases 256 - rank[i],
{
    let next = parent.update(x, up);
    assert forall|k: int| 0 <= k < next.len() implies (#[trigger] next[k]) < next.len() by {
        if k != x {
            assert(next[k] == parent[k]);
        }
    }
    assert forall|k: int| 0 <= k < next.len() && (#[trigger] next[k]) != k implies rank[k]
        < rank[next[k] as int] by {
        if k != x {
            assert(next[k] == parent[k]);
        }
    }
    if i == x {
        lemma_shortcut(parent, rank, x, up, up as int);
    } else if parent[i] != i {
        lemma_shortcut(parent, rank, x, up, parent[i] as int);
    }
}

// Hanging the root `low` under the root `high` joins their two trees.
proof fn lemma_link(
    parent: Seq<usize>,
    rank: Seq<u8>,
    low: int,
    high: usize,
    new_rank: Seq<u8>,
    i: int,
)
    requires
        forest_ok(parent, rank),
        0 <= low < parent.len(),
        high < parent.len(),
        low != high,
        parent[low] == low,
        parent[high as int] == high,
        new_rank.len() == rank.len(),
        forall|k: int|
            0 <= k < rank.len() && k != high ==> #[trigger] new_rank[k] == rank[k],
        new_rank[high as int] >= rank[high as int],
        rank[low] < new_rank[high as int],
        0 <= i < parent.len(),
    ensures
        forest_ok(parent.update(low, high), new_rank),
        root_of(parent.update(low, high), new_rank, i) == (if root_of(parent, rank, i) == low {
            high as int
        } else {
            root_of(parent, rank, i)
        }),
    decreases 256 - rank[i],
{
    let next = parent.update(low, high);
    assert forall|k: int| 0 <= k < next.len() implies (#[trigger] next[k]) < next.len() by {
        if k != low {
            assert(next[k] == parent[k]);
        }
    }
    assert forall|k: int| 0 <= k < next.len() && (#[trigger] next[k]) != k implies new_rank[k]
        < new_rank[next[k] as int] by {
        if k != low {
            assert(next[k] == parent[k]);
            assert(k != high);
        }
    }
    if i == low {
        assert(root_of(next, new_rank, high as int) == high);
    } else if parent[i] != i {
        lemma_link(parent, rank, low, high, new_rank, parent[i] as int);
    }
}

impl UnionFind {
    /// Number of elements.
    pub closed spec fn size(&self) -> nat {
        self.parent@.len()
    }

    /// The representative of the set that `i` is in.
    pub closed spec fn rep(&self, i: int) -> int {
        root_of(self.parent@, self.rank@, i)
    }

    /// The forest is acyclic and its ranks are bounded by the tree sizes.
    pub closed spec fn wf(&self) -> bool {
        forest_ok(self.parent@, self.rank@) && ranks_ok(self.parent@, self.rank@)
    }

    /// The sets are exactly the connected components of `adj` on `0..n`.
    pub open spec fn tracks(&self, adj: spec_fn(int, int) -> bool) -> bool {
        forall|i: int, j: int|
            0 <= i < self.size() && 0 <= j < self.size() ==> (#[trigger] self.rep(i)
                == #[trigger] self.rep(j) <==> connected(adj, i, j))
    }

    /// The representative of an element is an element, and represents itself.
    pub proof fn lemma_rep(&self, i: int)
        requires
            self.wf(),
            0 <= i < self.size(),
        ensures
            0 <= self.rep(i) < self.size(),
            self.rep(self.rep(i)) == self.rep(i),
    {
        lemma_root(self.parent@, self.rank@, i);
    }

    /// `n` singletons.
    pub fn new(n: usize) -> (r: UnionFind)
        ensures
            r.wf(),
            r.size() == n,
            forall|i: int| 0 <= i < n ==> #[trigger] r.rep(i) == i,
            r.tracks(|x: int, y: int| false),
    {
        let mut parent: Vec<usize> = Vec::new();
        let mut rank: Vec<u8> = Vec::new();
        let mut i: usize = 0;
        while i < n
            invariant
                i <= n,
                parent@.len() == i,
                rank@.len() == i,
                forall|k: int| 0 <= k < i ==> #[trigger] parent@[k] == k,
                forall|k: int| 0 <= k < i ==> #[trigger] rank@[k] == 0,
            decreases n - i,
        {
            parent.push(i);
            rank.push(0);
            i = i + 1;
        }
        let r: UnionFind = UnionFind { parent, rank };
        proof {
            assert forall|x: int| 0 <= x < n implies #[trigger] r.rep(x) == x by {
                assert(parent@[x] == x);
            }
            assert forall|x: int|
                0 <= x < parent@.len() && (#[trigger] parent@[x]) == x implies class_of(
                parent@,
                rank@,
                x,
            ).len() >= vstd::arithmetic::power2::pow2(rank@[x] as nat) by {
                assert(rank@[x] == 0);
                vstd::arithmetic::power2::lemma2_to64();
                lemma_class_finite(parent@, rank@, x);
                assert(r.rep(x) == x);
                assert(class_of(parent@, rank@, x).contains(x));
                vstd::set::axiom_set_contains_len(class_of(parent@, rank@, x), x);
            }
            let none = |x: int, y: int| false;
            assert forall|x: int, y: int| 0 <= x < n && 0 <= y < n implies (#[trigger] r.rep(x)
                == #[trigger] r.rep(y) <==> connected(none, x, y)) by {
                law_connected_reflexive(none, x);
                if connected(none, x, y) {
                    let path = choose|path: Seq<int>| #[trigger]
                        is_walk(none, path) && path[0] == x && path.last() == y;
                    if path.len() > 1 {
                        assert(none(path[0], path[1]) || none(path[1], path[0]));
                    }
                }
            }
        }
        r
    }

    /// The representative of the set of `x`, shortening the walk to it.
    pub fn find(&mut self, x: usize) -> (r: usize)
        requires
            old(self).wf(),
            x < old(self).size(),
        ensures
            final(self).wf(),
            final(self).size() == old(self).size(),
            forall|i: int| 0 <= i < old(self).size() ==> #[trigger] final(self).rep(i) == old(self).rep(i),
            r == old(self).rep(x as int),
            r < final(self).size(),
    {
        let mut at: usize = x;
        let ghost before = *self;
        while self.parent[at] != at
            invariant
                self.wf(),
                before.wf(),
                self.size() == before.size(),
                at < self.parent@.len(),
                self.rank@ == before.rank@,
                self.rep(at as int) == before.rep(x as int),
                forall|i: int|
                    0 <= i < self.size() ==> #[trigger] self.rep(i) == before.rep(i),
            decreases 256 - self.rank@[at as int],
        {
            let up: usize = self.parent[at];
            let top: usize = self.parent[up];
            let ghost parent = self.parent@;
            let ghost rank = self.rank@;
            proof {
                assert(parent[at as int] != at);
                assert(rank[at as int] < rank[up as int]);
                assert(parent[up as int] == top);
                assert(up != top ==> rank[up as int] < rank[top as int]);
                assert(root_of(parent, rank, at as int) == root_of(parent, rank, up as int));
                assert(root_of(parent, rank, up as int) == root_of(parent, rank, top as int));
                assert forall|i: int| 0 <= i < parent.len() implies root_of(
                    parent.update(at as int, top),
                    rank,
                    i,
                ) == #[trigger] root_of(parent, rank, i) by {
                    lemma_shortcut(parent, rank, at as int, top, i);
                }
                lemma_shortcut(parent, rank, at as int, top, at as int);
                assert forall|i: int| 0 <= i < parent.len() implies #[trigger] root_of(
                    parent,
                    rank,
                    i,
                ) == before.rep(i) by {
                    assert(self.rep(i) == before.rep(i));
                }
            }
            self.parent[at] = top;
            proof {
                let next = self.parent@;
                assert forall|r: int| 0 <= r < next.len() && (#[trigger] next[r])
                    == r implies class_of(next, rank, r).len() >= vstd::arithmetic::power2::pow2(rank[r] as nat) by {
                    assert(r != at);
                    assert(parent[r] == r);
                    assert(class_of(next, rank, r) =~= class_of(parent, rank, r));
                }
                assert forall|i: int| 0 <= i < self.size() implies #[trigger] self.rep(i)
                    == before.rep(i) by {
                    assert(root_of(parent, rank, i) == before.rep(i));
                }
            }
            at = top;
        }
        at
    }

    /// Join the sets of `a` and `b`.
    pub fn union(&mut self, a: usize, b: usize)
        requires
            old(self).wf(),
            a < old(self).size(),
            b < old(self).size(),
        ensures
            final(self).wf(),
            final(self).size() == old(self).size(),
            forall|i: int, j: int|
                0 <= i < old(self).size() && 0 <= j < old(self).size() ==> (#[trigger] final(self).rep(i) == #[trigger] final(self).rep(j) <==> {
                    ||| old(self).rep(i) == old(self).rep(j)
                    ||| old(self).rep(i) == old(self).rep(a as int) && old(self).rep(j) == old(self).rep(b as int)
                    ||| old(self).rep(i) == old(self).rep(b as int) && old(self).rep(j) == old(self).rep(a as int)
                }),
    {
        let ra: usize = self.find(a);
        let rb: usize = self.find(b);
        let ghost mid = *self;
        proof {
            assert(mid.rep(a as int) == ra);
            assert(mid.rep(b as int) == rb);
            mid.lemma_rep(a as int);
            mid.lemma_rep(b as int);
            lemma_root(mid.parent@, mid.rank@, a as int);
            lemma_root(mid.parent@, mid.rank@, b as int);
        }
        if ra == rb {
            return ;
        }
        let ka: u8 = self.rank[ra];
        let kb: u8 = self.rank[rb];
        if ka < kb {
            self.parent[ra] = rb;
            proof {
                lemma_union_step(mid, *self, ra, rb);
            }
        } else if ka > kb {
            self.parent[rb] = ra;
            proof {
                lemma_union_step(mid, *self, rb, ra);
            }
        } else {
            let n: usize = self.parent.len();
            proof {
                assert(n == mid.parent@.len());
                lemma_rank_bound(mid.parent@, mid.rank@, ra as int);
            }
            self.parent[rb] = ra;
            self.rank[ra] = ka + 1;
            proof {
                lemma_union_step(mid, *self, rb, ra);
            }
        }
    }

    /// Join the sets of `a` and `b`, following one more pair of a graph.
    pub(crate) fn union_edge(&mut self, a: usize, b: usize, adj: Ghost<spec_fn(int, int) -> bool>)
        requires
            old(self).wf(),
            a < old(self).size(),
            b < old(self).size(),
            old(self).tracks(adj@),
        ensures
            final(self).wf(),
            final(self).size() == old(self).size(),
            final(self).tracks(with_edge(adj@, a as int, b as int)),
    {
        let ghost before = *self;
        self.union(a, b);
        proof {
            let more = with_edge(adj@, a as int, b as int);
            assert forall|i: int, j: int| 0 <= i < self.size() && 0 <= j < self.size() implies (
            #[trigger] self.rep(i) == #[trigger] self.rep(j) <==> connected(more, i, j)) by {
                lemma_connected_with_edge(adj@, a as int, b as int, i, j);
                assert(before.rep(i) == before.rep(a as int) <==> connected(adj@, i, a as int));
                assert(before.rep(i) == before.rep(b as int) <==> connected(adj@, i, b as int));
                assert(before.rep(a as int) == before.rep(j) <==> connected(adj@, a as int, j));
                assert(before.rep(b as int) == before.rep(j) <==> connected(adj@, b as int, j));
                assert(before.rep(i) == before.rep(j) <==> connected(adj@, i, j));
            }
        }
    }
}

// A rank is at most the logarithm of the number of elements.
proof fn lemma_rank_bound(parent: Seq<usize>, rank: Seq<u8>, r: int)
    requires
        forest_ok(parent, rank),
        ranks_ok(parent, rank),
        0 <= r < parent.len(),
        parent[r] == r,
        parent.len() <= usize::MAX,
    ensures
        rank[r] < 64,
{
    lemma_class_finite(parent, rank, r);
    if rank[r] >= 64 {
        vstd::arithmetic::power2::lemma2_to64();
        if rank[r] > 64 {
            vstd::arithmetic::power2::lemma_pow2_strictly_increases(64, rank[r] as nat);
        }
        assert(vstd::arithmetic::power2::pow2(64) == 0x10000000000000000);
        assert(usize::MAX < 0x10000000000000000);
    }
}

proof fn lemma_union_step(before: UnionFind, after: UnionFind, low: usize, high: usize)
    requires
        before.wf(),
        low != high,
        low < before.parent@.len(),
        high < before.parent@.len(),
        before.parent@[low as int] == low,
        before.parent@[high as int] == high,
        before.rank@[low as int] <= before.rank@[high as int],
        after.parent@ == before.parent@.update(low as int, high),
        before.rank@[low as int] < before.rank@[high as int] ==> after.rank@ == before.rank@,
        before.rank@[low as int] == before.rank@[high as int] ==> before.rank@[high as int] < 255
            && after.rank@ == before.rank@.update(
            high as int,
            (before.rank@[high as int] + 1) as u8,
        ),
    ensures
        after.wf(),
        after.size() == before.size(),
        forall|i: int|
            0 <= i < before.size() ==> #[trigger] after.rep(i) == (if before.rep(i) == low {
                high as int
            } else {
                before.rep(i)
            }),
{
    let p = before.parent@;
    let k = before.rank@;
    let q = after.parent@;
    let m = after.rank@;
    assert forall|i: int| 0 <= i < p.len() implies #[trigger] root_of(q, m, i) == (if root_of(
        p,
        k,
        i,
    ) == low {
        high as int
    } else {
        root_of(p, k, i)
    }) by {
        lemma_link(p, k, low as int, high, m, i);
    }
    lemma_link(p, k, low as int, high, m, low as int);
    assert forall|r: int| 0 <= r < q.len() && (#[trigger] q[r]) == r implies class_of(
        q,
        m,
        r,
    ).len() >= vstd::arithmetic::power2::pow2(m[r] as nat) by {
        assert(r != low);
        assert(p[r] == r);
        lemma_class_finite(p, k, r);
        lemma_class_finite(p, k, low as int);
        if r == high {
            let lo = class_of(p, k, low as int);
            let hi = class_of(p, k, high as int);
            assert(class_of(q, m, r) =~= lo + hi);
            assert(lo.disjoint(hi));
            vstd::set_lib::lemma_set_disjoint_lens(lo, hi);
            assert(p[low as int] == low);
            assert(p[high as int] == high);
            if k[low as int] == k[high as int] {
                vstd::arithmetic::power2::lemma_pow2_unfold((k[high as int] + 1) as nat);
            }
        } else {
            assert(class_of(q, m, r) =~= class_of(p, k, r));
        }
    }
}

} // verus!
