//! The transition graph: a weighted directed graph over the latent modes.
//! It is loaded once, stays immutable for the life of a run, and answers
//! weighted categorical draws over the outgoing edges of a mode.

use crate::particle::{rank_spec, ParticleContextType};
use crate::utils::{
    cum_before, lemma_cum_all, lemma_cum_monotone, lemma_sum_nonneg, lemma_sum_take_succ,
    select_by_weight, selects, sum_of,
};
use crate::WEIGHT_SCALE;
use vstd::prelude::*;

verus! {

/// Largest admissible total outgoing weight of one node.
pub const NODE_WEIGHT_CAP: i64 = 1_000_000_000_000;

/// One weighted directed edge of the transition graph.
#[derive(Debug, Clone, Copy, PartialEq, Eq, Structural)]
pub struct Edge {
    pub dest: ParticleContextType,
    pub weight: i64,
}

/// The outgoing edges of one node.
#[derive(Debug, Clone)]
pub struct Adjacency {
    pub src: ParticleContextType,
    pub edges: Vec<Edge>,
}

/// A weighted directed graph over the latent modes, held as an adjacency
/// list with one entry per node (in insertion order).
#[derive(Debug)]
pub struct MarkovGraph {
    pub adj: Vec<Adjacency>,
}

/// The weights of a sequence of edges.
pub open spec fn weights_of(edges: Seq<Edge>) -> Seq<i64> {
    edges.map_values(|e: Edge| e.weight)
}

/// The outgoing edges of `src`: those of the first adjacency entry for
/// `src`, or empty when the node has none.
pub open spec fn edges_of_seq(s: Seq<Adjacency>, src: ParticleContextType) -> Seq<Edge>
    decreases s.len(),
{
    if s.len() == 0 {
        Seq::empty()
    } else if s[0].src == src {
        s[0].edges@
    } else {
        edges_of_seq(s.drop_first(), src)
    }
}

/// In a list with unique sources, the entry holding `src` gives the edges.
proof fn lemma_edges_of_found(s: Seq<Adjacency>, src: ParticleContextType, i: int)
    requires
        forall|a: int, b: int| 0 <= a < b < s.len() ==> s[a].src != s[b].src,
        0 <= i < s.len(),
        s[i].src == src,
    ensures
        edges_of_seq(s, src) == s[i].edges@,
    decreases s.len(),
{
    if i == 0 {
    } else {
        assert(s[0].src != src);
        lemma_edges_of_found(s.drop_first(), src, i - 1);
    }
}

/// A node that no entry holds has no outgoing edges.
proof fn lemma_edges_of_absent(s: Seq<Adjacency>, src: ParticleContextType)
    requires
        forall|a: int| 0 <= a < s.len() ==> s[a].src != src,
    ensures
        edges_of_seq(s, src) == Seq::<Edge>::empty(),
    decreases s.len(),
{
    if s.len() > 0 {
        lemma_edges_of_absent(s.drop_first(), src);
    }
}

/// Replacing the entry at `i` by one with the same source changes only
/// that source's edges.
proof fn lemma_edges_of_update(
    s: Seq<Adjacency>,
    i: int,
    e: Adjacency,
    m: ParticleContextType,
)
    requires
        0 <= i < s.len(),
        e.src == s[i].src,
        m != e.src,
    ensures
        edges_of_seq(s.update(i, e), m) == edges_of_seq(s, m),
    decreases s.len(),
{
    if i == 0 {
        assert(s.update(0, e).drop_first() =~= s.drop_first());
    } else {
        assert(s.update(i, e).drop_first() =~= s.drop_first().update(i - 1, e));
        assert(s.update(i, e)[0] == s[0]);
        lemma_edges_of_update(s.drop_first(), i - 1, e, m);
    }
}

/// Appending an entry for a fresh source leaves every other source's
/// edges unchanged and gives the fresh source the new entry's edges.
proof fn lemma_edges_of_push(s: Seq<Adjacency>, e: Adjacency, m: ParticleContextType)
    requires
        forall|a: int| 0 <= a < s.len() ==> s[a].src != e.src,
    ensures
        edges_of_seq(s.push(e), e.src) == e.edges@,
        m != e.src ==> edges_of_seq(s.push(e), m) == edges_of_seq(s, m),
    decreases s.len(),
{
    if s.len() == 0 {
        assert(s.push(e)[0] == e);
        assert(s.push(e).drop_first() =~= Seq::<Adjacency>::empty());
        assert(edges_of_seq(Seq::<Adjacency>::empty(), m) == Seq::<Edge>::empty());
        assert(edges_of_seq(s, m) == Seq::<Edge>::empty());
    } else {
        assert(s.push(e)[0] == s[0]);
        assert(s.push(e).drop_first() =~= s.drop_first().push(e));
        lemma_edges_of_push(s.drop_first(), e, m);
    }
}

impl MarkovGraph {
    /// The outgoing edges of a node.
    pub open spec fn spec_edges_of(self, src: ParticleContextType) -> Seq<Edge> {
        edges_of_seq(self.adj@, src)
    }

    /// The total outgoing weight of a node.
    pub open spec fn spec_total_weight(self, src: ParticleContextType) -> int {
        sum_of(weights_of(self.spec_edges_of(src)))
    }

    /// Whether `m` belongs to the graph's node set: it occurs as the
    /// source or the destination of some edge.
    pub open spec fn is_node(self, m: ParticleContextType) -> bool {
        ||| exists|i: int| 0 <= i < self.adj@.len() && (#[trigger] self.adj@[i]).src == m
        ||| exists|i: int, k: int|
            0 <= i < self.adj@.len() && 0 <= k < self.adj@[i].edges@.len() && (
            #[trigger] self.adj@[i].edges@[k]).dest == m
    }

    /// Well-formedness: one adjacency entry per node, every edge weight
    /// positive and bounded, and every node's total outgoing weight bounded.
    pub open spec fn wf(self) -> bool {
        &&& forall|i: int, j: int|
            0 <= i < j < self.adj@.len() ==> self.adj@[i].src != self.adj@[j].src
        &&& forall|i: int, k: int|
            0 <= i < self.adj@.len() && 0 <= k < self.adj@[i].edges@.len() ==> {
                &&& 0 < #[trigger] self.adj@[i].edges@[k].weight <= WEIGHT_SCALE
            }
        &&& forall|i: int|
            0 <= i < self.adj@.len() ==> #[trigger] sum_of(weights_of(self.adj@[i].edges@))
                <= NODE_WEIGHT_CAP
    }

    /// Whether a node has an adjacency entry.
    pub open spec fn has_entry(self, m: ParticleContextType) -> bool {
        exists|i: int| 0 <= i < self.adj@.len() && self.adj@[i].src == m
    }

    /// An empty graph.
    pub fn new() -> (r: MarkovGraph)
        ensures
            r.wf(),
            r.adj@.len() == 0,
            forall|m: ParticleContextType| !r.is_node(m),
    {
        MarkovGraph { adj: Vec::new() }
    }

    /// Index of the adjacency entry of `src`, if there is one.
    fn find_entry(&self, src: ParticleContextType) -> (r: Option<usize>)
        ensures
            match r {
                Some(i) => i < self.adj@.len() && self.adj@[i as int].src == src,
                None => forall|a: int| 0 <= a < self.adj@.len() ==> self.adj@[a].src != src,
            },
    {
        let n = self.adj.len();
        let mut i: usize = 0;
        while i < n
            invariant
                i <= n,
                n == self.adj@.len(),
                forall|a: int| 0 <= a < i ==> self.adj@[a].src != src,
            decreases n - i,
        {
            if self.adj[i].src == src {
                return Some(i);
            }
            i = i + 1;
        }
        None
    }

    /// Append a directed weighted edge from `src` to `dest`. The edge is
    /// accepted exactly when its weight is positive, at most `WEIGHT_SCALE`,
    /// and the node's total outgoing weight stays within `NODE_WEIGHT_CAP`.
    pub fn add_edge(
        &mut self,
        src: ParticleContextType,
        dest: ParticleContextType,
        weight: i64,
    ) -> (ok: bool)
        requires
            old(self).wf(),
        ensures
            final(self).wf(),
            ok == (0 < weight <= WEIGHT_SCALE && old(self).spec_total_weight(src) + weight
                <= NODE_WEIGHT_CAP),
            ok ==> final(self).spec_edges_of(src) == old(self).spec_edges_of(src).push(
                Edge { dest, weight },
            ),
            forall|m: ParticleContextType|
                m != src ==> final(self).spec_edges_of(m) == old(self).spec_edges_of(m),
            !ok ==> *final(self) == *old(self),
            forall|m: ParticleContextType|
                final(self).has_entry(m) <==> (old(self).has_entry(m) || (ok && m == src)),
    {
        if !(weight >= 1 && weight <= WEIGHT_SCALE) {
            return false;
        }
        let found = self.find_entry(src);
        match found {
            Some(i) => {
                proof {
                    lemma_edges_of_found(self.adj@, src, i as int);
                }
                let total = sum_weights(&self.adj[i].edges);
                if total > NODE_WEIGHT_CAP - weight {
                    return false;
                }
                let ghost old_adj = self.adj@;
                let mut entry = self.adj.remove(i);
                entry.edges.push(Edge { dest, weight });
                proof {
                    lemma_weights_push(entry.edges@.drop_last(), Edge { dest, weight });
                    assert(entry.edges@.drop_last() =~= old_adj[i as int].edges@);
                }
                self.adj.insert(i, entry);
                proof {
                    let e = Edge { dest, weight };
                    assert(self.adj@ =~= old_adj.update(i as int, Adjacency {
                        src,
                        edges: entry.edges,
                    }));
                    assert(entry.edges@ =~= old_adj[i as int].edges@.push(e));
                    lemma_edges_of_found(self.adj@, src, i as int);
                    assert forall|m: ParticleContextType| m != src implies edges_of_seq(
                        self.adj@,
                        m,
                    ) == edges_of_seq(old_adj, m) by {
                        lemma_edges_of_update(
                            old_adj,
                            i as int,
                            Adjacency { src, edges: entry.edges },
                            m,
                        );
                    }
                    lemma_weights_push(old_adj[i as int].edges@, e);
                    assert forall|a: int, k: int|
                        0 <= a < self.adj@.len() && 0 <= k < self.adj@[a].edges@.len()
                        implies 0 < #[trigger] self.adj@[a].edges@[k].weight <= WEIGHT_SCALE by {
                        if a != i {
                            assert(self.adj@[a] == old_adj[a]);
                        }
                    }
                    assert forall|a: int| 0 <= a < self.adj@.len() implies #[trigger] sum_of(
                        weights_of(self.adj@[a].edges@),
                    ) <= NODE_WEIGHT_CAP by {
                        if a != i {
                            assert(self.adj@[a] == old_adj[a]);
                        }
                    }
                    assert forall|m: ParticleContextType|
                        self.has_entry(m) <==> old(self).has_entry(m) by {
                        assert(forall|a: int|
                            0 <= a < self.adj@.len() ==> #[trigger] self.adj@[a].src
                                == old_adj[a].src);
                        if self.has_entry(m) {
                            let a = choose|a: int|
                                0 <= a < self.adj@.len() && self.adj@[a].src == m;
                            assert(old(self).adj@[a].src == m);
                        }
                        if old(self).has_entry(m) {
                            let a = choose|a: int|
                                0 <= a < old(self).adj@.len() && old(self).adj@[a].src == m;
                            assert(self.adj@[a].src == m);
                        }
                    }
                    assert(old(self).adj@[i as int].src == src);
                }
                true
            },
            None => {
                proof {
                    lemma_edges_of_absent(self.adj@, src);
                }
                let ghost old_adj = self.adj@;
                let mut edges: Vec<Edge> = Vec::new();
                edges.push(Edge { dest, weight });
                let entry = Adjacency { src, edges };
                self.adj.push(entry);
                proof {
                    let e = Edge { dest, weight };
                    assert(entry.edges@ =~= Seq::<Edge>::empty().push(e));
                    assert(edges_of_seq(self.adj@, src) == entry.edges@) by {
                        lemma_edges_of_push(old_adj, entry, src);
                    }
                    assert forall|m: ParticleContextType| m != src implies edges_of_seq(
                        self.adj@,
                        m,
                    ) == edges_of_seq(old_adj, m) by {
                        lemma_edges_of_push(old_adj, entry, m);
                    }
                    assert(weights_of(entry.edges@) =~= Seq::<i64>::empty().push(weight));
                    assert(Seq::<i64>::empty().push(weight).drop_last() =~= Seq::<i64>::empty());
                    assert(sum_of(Seq::<i64>::empty()) == 0);
                    assert(sum_of(weights_of(entry.edges@)) == weight);
                    assert(edges_of_seq(self.adj@, src) =~= edges_of_seq(old_adj, src).push(e));
                    assert forall|a: int, k: int|
                        0 <= a < self.adj@.len() && 0 <= k < self.adj@[a].edges@.len()
                        implies 0 < #[trigger] self.adj@[a].edges@[k].weight <= WEIGHT_SCALE by {
                        if a < old_adj.len() {
                            assert(self.adj@[a] == old_adj[a]);
                        }
                    }
                    assert forall|a: int| 0 <= a < self.adj@.len() implies #[trigger] sum_of(
                        weights_of(self.adj@[a].edges@),
                    ) <= NODE_WEIGHT_CAP by {
                        if a < old_adj.len() {
                            assert(self.adj@[a] == old_adj[a]);
                        }
                    }
                    assert forall|m: ParticleContextType|
                        self.has_entry(m) <==> (old(self).has_entry(m) || m == src) by {
                        assert(self.adj@[old_adj.len() as int].src == src);
                        if m != src && self.has_entry(m) {
                            let a = choose|a: int|
                                0 <= a < self.adj@.len() && self.adj@[a].src == m;
                            assert(old(self).adj@[a].src == m);
                        }
                        if old(self).has_entry(m) {
                            let a = choose|a: int|
                                0 <= a < old(self).adj@.len() && old(self).adj@[a].src == m;
                            assert(self.adj@[a].src == m);
                        }
                    }
                }
                true
            },
        }
    }

    /// The total outgoing weight of a node (zero when it has no edges).
    pub fn total_weight(&self, src: ParticleContextType) -> (r: i64)
        requires
            self.wf(),
        ensures
            r == self.spec_total_weight(src),
            0 <= r <= NODE_WEIGHT_CAP,
    {
        match self.find_entry(src) {
            Some(i) => {
                proof {
                    lemma_edges_of_found(self.adj@, src, i as int);
                    lemma_weights_nonneg(self.adj@[i as int].edges@);
                    lemma_sum_nonneg(weights_of(self.adj@[i as int].edges@));
                }
                sum_weights(&self.adj[i].edges)
            },
            None => {
                proof {
                    lemma_edges_of_absent(self.adj@, src);
                    assert(weights_of(Seq::<Edge>::empty()) =~= Seq::<i64>::empty());
                }
                0
            },
        }
    }

    /// A weighted categorical draw over the outgoing edges of `src`: given
    /// a uniform draw `u` below the node's total weight, return the
    /// destination whose cumulative-weight interval contains `u`.
    pub fn get_dest(&self, src: ParticleContextType, u: i64) -> (r: Option<
        ParticleContextType,
    >)
        requires
            self.wf(),
            0 <= u < self.spec_total_weight(src),
        ensures
            exists|k: int|
                selects(weights_of(self.spec_edges_of(src)), u as int, k) && r == Some(
                    self.spec_edges_of(src)[k].dest,
                ),
    {
        let found = self.find_entry(src);
        match found {
            Some(i) => {
                proof {
                    lemma_edges_of_found(self.adj@, src, i as int);
                }
                let edges = &self.adj[i].edges;
                let n = edges.len();
                let mut ws: Vec<i64> = Vec::new();
                let mut j: usize = 0;
                while j < n
                    invariant
                        j <= n,
                        n == edges@.len(),
                        ws@.len() == j,
                        forall|a: int| 0 <= a < j ==> ws@[a] == edges@[a].weight,
                    decreases n - j,
                {
                    ws.push(edges[j].weight);
                    j = j + 1;
                }
                proof {
                    assert(ws@ =~= weights_of(edges@));
                    lemma_weights_nonneg(edges@);
                }
                let k = select_by_weight(&ws, u);
                Some(self.adj[i].edges[k].dest)
            },
            None => {
                proof {
                    lemma_edges_of_absent(self.adj@, src);
                    assert(weights_of(Seq::<Edge>::empty()) =~= Seq::<i64>::empty());
                    assert(false);
                }
                None
            },
        }
    }

    /// Whether `m` occurs in the graph, as a source or a destination.
    fn contains_node(&self, m: ParticleContextType) -> (b: bool)
        ensures
            b == self.is_node(m),
    {
        let n = self.adj.len();
        let mut i: usize = 0;
        while i < n
            invariant
                i <= n,
                n == self.adj@.len(),
                forall|a: int| 0 <= a < i ==> (#[trigger] self.adj@[a]).src != m,
                forall|a: int, k: int|
                    0 <= a < i && 0 <= k < self.adj@[a].edges@.len() ==> (
                    #[trigger] self.adj@[a].edges@[k]).dest != m,
            decreases n - i,
        {
            if self.adj[i].src == m {
                return true;
            }
            let edges = &self.adj[i].edges;
            let en = edges.len();
            let mut k: usize = 0;
            while k < en
                invariant
                    k <= en,
                    en == edges@.len(),
                    edges@ == self.adj@[i as int].edges@,
                    i < self.adj@.len(),
                    forall|b: int| 0 <= b < k ==> (#[trigger] edges@[b]).dest != m,
                decreases en - k,
            {
                if edges[k].dest == m {
                    return true;
                }
                k = k + 1;
            }
            i = i + 1;
        }
        false
    }

    /// The full node set of the graph - every mode that occurs as a
    /// source or destination of some edge, each exactly once, in the
    /// fixed mode priority order.
    pub fn get_all_nodes(&self) -> (r: Vec<ParticleContextType>)
        ensures
            forall|m: ParticleContextType| #[trigger] r@.contains(m) <==> self.is_node(m),
            forall|a: int, b: int| 0 <= a < b < r@.len() ==> r@[a] != r@[b],
    {
        let mut r: Vec<ParticleContextType> = Vec::new();
        let mut j: usize = 0;
        while j < 3
            invariant
                j <= 3,
                forall|m: ParticleContextType|
                    #[trigger] r@.contains(m) <==> (self.is_node(m) && rank_spec(m) < j),
                forall|a: int| 0 <= a < r@.len() ==> rank_spec(#[trigger] r@[a]) < j,
                forall|a: int, b: int| 0 <= a < b < r@.len() ==> r@[a] != r@[b],
            decreases 3 - j,
        {
            let mode = if j == 0 {
                ParticleContextType::GoFishing
            } else if j == 1 {
                ParticleContextType::Fishing
            } else {
                ParticleContextType::GoToPort
            };
            proof {
                assert(rank_spec(mode) == j);
                assert(forall|m: ParticleContextType| rank_spec(m) == j ==> m == mode);
            }
            if self.contains_node(mode) {
                let ghost prev = r@;
                r.push(mode);
                proof {
                    assert forall|m: ParticleContextType| #[trigger] r@.contains(m) <==> (
                    self.is_node(m) && rank_spec(m) < j + 1) by {
                        if r@.contains(m) {
                            let idx = choose|idx: int|
                                0 <= idx < r@.len() && r@[idx] == m;
                            if idx < prev.len() {
                                assert(prev[idx] == m);
                                assert(prev.contains(m));
                            } else {
                                assert(m == mode);
                            }
                        }
                        if self.is_node(m) && rank_spec(m) < j + 1 {
                            if rank_spec(m) < j {
                                assert(prev.contains(m));
                                let idx = choose|idx: int|
                                    0 <= idx < prev.len() && prev[idx] == m;
                                assert(r@[idx] == m);
                                assert(r@.contains(m));
                            } else {
                                assert(m == mode);
                                assert(r@[prev.len() as int] == m);
                                assert(r@.contains(m));
                            }
                        }
                    }
                }
            } else {
                proof {
                    assert forall|m: ParticleContextType| #[trigger] r@.contains(m) <==> (
                    self.is_node(m) && rank_spec(m) < j + 1) by {
                        if rank_spec(m) == j {
                            assert(m == mode);
                        }
                    }
                }
            }
            j = j + 1;
        }
        proof {
            assert(forall|m: ParticleContextType| rank_spec(m) < 3);
        }
        r
    }
}

/// The weights of edges are all positive under the edge-weight bound.
proof fn lemma_weights_nonneg(edges: Seq<Edge>)
    requires
        forall|k: int| 0 <= k < edges.len() ==> #[trigger] edges[k].weight > 0,
    ensures
        forall|k: int| 0 <= k < weights_of(edges).len() ==> weights_of(edges)[k] >= 0,
{
}

/// Appending an edge appends its weight.
proof fn lemma_weights_push(edges: Seq<Edge>, e: Edge)
    ensures
        weights_of(edges.push(e)) =~= weights_of(edges).push(e.weight),
        sum_of(weights_of(edges.push(e))) == sum_of(weights_of(edges)) + e.weight,
{
    assert(weights_of(edges.push(e)) =~= weights_of(edges).push(e.weight));
    assert(weights_of(edges).push(e.weight).drop_last() =~= weights_of(edges));
}

/// Sum the weights of a node's edge list.
fn sum_weights(edges: &Vec<Edge>) -> (r: i64)
    requires
        forall|k: int| 0 <= k < edges@.len() ==> #[trigger] edges@[k].weight > 0,
        sum_of(weights_of(edges@)) <= NODE_WEIGHT_CAP,
    ensures
        r == sum_of(weights_of(edges@)),
        0 <= r <= NODE_WEIGHT_CAP,
{
    proof {
        lemma_weights_nonneg(edges@);
        lemma_cum_all(weights_of(edges@));
        lemma_sum_nonneg(weights_of(edges@));
    }
    let n = edges.len();
    let mut acc: i64 = 0;
    let mut j: usize = 0;
    while j < n
        invariant
            j <= n,
            n == edges@.len(),
            forall|k: int| 0 <= k < edges@.len() ==> #[trigger] edges@[k].weight > 0,
            sum_of(weights_of(edges@)) <= NODE_WEIGHT_CAP,
            cum_before(weights_of(edges@), weights_of(edges@).len() as int) == sum_of(
                weights_of(edges@),
            ),
            acc == cum_before(weights_of(edges@), j as int),
            0 <= acc,
        decreases n - j,
    {
        proof {
            lemma_weights_nonneg(edges@);
            lemma_sum_take_succ(weights_of(edges@), j as int);
            lemma_cum_monotone(weights_of(edges@), j as int + 1, weights_of(edges@).len() as int);
        }
        acc = acc + edges[j].weight;
        j = j + 1;
    }
    proof {
        assert(weights_of(edges@).take(n as int) =~= weights_of(edges@));
    }
    acc
}

} // verus!
