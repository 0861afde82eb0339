//! The similarity graph: nodes are users, and an undirected edge joins two
//! users whose similarity score reaches the threshold.
use vstd::prelude::*;
use vstd::pervasive::unreached;
use crate::vocab::Vocab;
use crate::similarity::Similarity;
use crate::similarity::find_similarities;
use crate::similarity::lemma_similarity_symmetric;
use crate::similarity::sim_shared;
use crate::similarity::sim_total;

verus! {

broadcast use vstd::seq_lib::lemma_seq_contains_after_push;

/// A similarity threshold in [0, 1], as the exact ratio `num / den`.
#[derive(Debug, Clone, Copy, PartialEq, Eq, Structural)]
pub struct Threshold {
    pub num: u32,
    pub den: u32,
}

impl Threshold {
    /// A threshold is a ratio in [0, 1].
    pub open spec fn wf(self) -> bool {
        self.den > 0 && self.num <= self.den
    }

    /// Whether this threshold is at most the other, as ratios.
    pub open spec fn spec_le(self, other: Threshold) -> bool {
        self.num * other.den <= other.num * self.den
    }
}

/// Whether a score `shared / total` reaches the threshold (inclusive). The
/// degenerate score `0 / 0` counts as 0, so it reaches only a zero threshold.
pub open spec fn score_meets(shared: nat, total: nat, t: Threshold) -> bool {
    if total == 0 {
        t.num == 0
    } else {
        shared * t.den >= t.num * total
    }
}

/// Whether the similarity of users `a` and `b` under mapping `m` reaches the
/// threshold, so that the pair is joined by an edge.
pub open spec fn spec_edge(
    m: Map<Seq<char>, Set<Seq<char>>>,
    a: Seq<char>,
    b: Seq<char>,
    t: Threshold,
) -> bool {
    score_meets(sim_shared(m, a, b), sim_total(m, a, b), t)
}

/// Whether a similarity score reaches the threshold (inclusive).
pub fn meets_threshold(s: &Similarity, t: &Threshold) -> (r: bool)
    requires
        s.shared <= s.total,
        s.total <= 2 * (usize::MAX as u128),
    ensures
        r == score_meets(s.shared as nat, s.total as nat, *t),
{
    if s.total == 0 {
        t.num == 0
    } else {
        proof {
            assert(s.shared * (t.den as u128) <= (2 * (usize::MAX as u128)) * (u32::MAX as u128))
                by (nonlinear_arith)
                requires
                    s.shared <= 2 * (usize::MAX as u128),
                    t.den <= u32::MAX,
            ;
            assert((t.num as u128) * s.total <= (u32::MAX as u128) * (2 * (usize::MAX as u128)))
                by (nonlinear_arith)
                requires
                    s.total <= 2 * (usize::MAX as u128),
                    t.num <= u32::MAX,
            ;
        }
        s.shared * (t.den as u128) >= (t.num as u128) * s.total
    }
}

/// A lower threshold accepts every score that a higher one accepts.
pub proof fn lemma_score_monotone(shared: nat, total: nat, t1: Threshold, t2: Threshold)
    requires
        t1.wf(),
        t2.wf(),
        t1.spec_le(t2),
        score_meets(shared, total, t2),
    ensures
        score_meets(shared, total, t1),
{
    if total == 0 {
        assert(t1.num == 0) by (nonlinear_arith)
            requires
                t1.num * t2.den <= t2.num * t1.den,
                t2.num == 0,
                t2.den > 0,
        ;
    } else {
        assert(shared * t1.den >= t1.num * total) by (nonlinear_arith)
            requires
                shared * t2.den >= t2.num * total,
                t1.num * t2.den <= t2.num * t1.den,
                t1.den > 0,
                t2.den > 0,
                total > 0,
        ;
    }
}

/// The adjacency mapping: each user paired with the ordered list of its
/// neighbors in the similarity graph.
pub struct Graph {
    pub names: Vec<String>,
    pub adj: Vec<Vec<String>>,
}

impl Graph {
    /// The node sequence, in insertion order.
    pub open spec fn key_seq(self) -> Seq<Seq<char>> {
        self.names@.map_values(|s: String| s@)
    }

    /// The neighbor list of the node at position `i`.
    pub open spec fn neighbors_at(self, i: int) -> Seq<Seq<char>> {
        self.adj@[i]@.map_values(|s: String| s@)
    }

    /// Well-formedness: parallel columns and unique node names.
    pub open spec fn wf(self) -> bool {
        &&& self.names@.len() == self.adj@.len()
        &&& self.key_seq().no_duplicates()
    }

    /// Whether the identity is a node of the graph.
    pub open spec fn contains_node(self, u: Seq<char>) -> bool {
        self.key_seq().contains(u)
    }

    /// The position of a node.
    pub open spec fn key_index(self, u: Seq<char>) -> int {
        self.key_seq().index_of(u)
    }

    /// The graph as a mathematical map from node to neighbor list.
    pub open spec fn as_map(self) -> Map<Seq<char>, Seq<Seq<char>>> {
        Map::new(
            |u: Seq<char>| self.contains_node(u),
            |u: Seq<char>| self.neighbors_at(self.key_index(u)),
        )
    }

    /// Whether every recorded edge is recorded in both directions.
    pub open spec fn symmetric(self) -> bool {
        forall|i: int, j: int|
            0 <= i < self.key_seq().len() && 0 <= j < self.key_seq().len() ==> ((
            #[trigger] self.neighbors_at(i).contains(self.key_seq()[j]))
                <==> self.neighbors_at(j).contains(self.key_seq()[i]))
    }

    /// In a well-formed graph the node at position `i` points back to `i`.
    pub proof fn lemma_key_index_of(self, i: int)
        requires
            self.wf(),
            0 <= i < self.key_seq().len(),
        ensures
            self.key_index(self.key_seq()[i]) == i,
    {
        let u = self.key_seq()[i];
        assert(self.key_seq().contains(u));
        let j = self.key_seq().index_of(u);
        assert(self.key_seq()[j] == u);
    }
}

/// The neighbors of the node at position `u`, considering candidate
/// positions below `v`: each position in ascending order whose similarity
/// with `u` reaches the threshold, the node itself excluded.
pub open spec fn spec_neighbors_upto(
    us: Seq<Seq<char>>,
    m: Map<Seq<char>, Set<Seq<char>>>,
    t: Threshold,
    u: int,
    v: int,
) -> Seq<Seq<char>>
    decreases v,
{
    if v <= 0 {
        Seq::empty()
    } else {
        let prev = spec_neighbors_upto(us, m, t, u, v - 1);
        if v - 1 != u && spec_edge(m, us[u], us[v - 1], t) {
            prev.push(us[v - 1])
        } else {
            prev
        }
    }
}

/// The full neighbor list of the node at position `u`.
pub open spec fn spec_neighbors(
    us: Seq<Seq<char>>,
    m: Map<Seq<char>, Set<Seq<char>>>,
    t: Threshold,
    u: int,
) -> Seq<Seq<char>> {
    spec_neighbors_upto(us, m, t, u, us.len() as int)
}

/// The adjacency mapping that `create_graph` builds from a user sequence, a
/// vocabulary mapping and a threshold.
pub open spec fn spec_graph(
    us: Seq<Seq<char>>,
    m: Map<Seq<char>, Set<Seq<char>>>,
    t: Threshold,
) -> Map<Seq<char>, Seq<Seq<char>>> {
    Map::new(
        |u: Seq<char>| us.contains(u),
        |u: Seq<char>| spec_neighbors(us, m, t, us.index_of(u)),
    )
}

/// Membership in a neighbor list: exactly the other nodes below the bound
/// whose similarity with `u` reaches the threshold.
pub proof fn lemma_spec_neighbors_contains(
    us: Seq<Seq<char>>,
    m: Map<Seq<char>, Set<Seq<char>>>,
    t: Threshold,
    u: int,
    v: int,
    w: int,
)
    requires
        us.no_duplicates(),
        0 <= u < us.len(),
        0 <= w < us.len(),
        0 <= v <= us.len(),
    ensures
        spec_neighbors_upto(us, m, t, u, v).contains(us[w]) <==> (w < v && w != u && spec_edge(
            m,
            us[u],
            us[w],
            t,
        )),
    decreases v,
{
    if v > 0 {
        lemma_spec_neighbors_contains(us, m, t, u, v - 1, w);
        if v - 1 != u && spec_edge(m, us[u], us[v - 1], t) {
            if us[w] == us[v - 1] {
                assert(w == v - 1);
            }
        }
    }
}

/// Neighbor lists hold no duplicates.
pub proof fn lemma_spec_neighbors_no_dup(
    us: Seq<Seq<char>>,
    m: Map<Seq<char>, Set<Seq<char>>>,
    t: Threshold,
    u: int,
    v: int,
)
    requires
        us.no_duplicates(),
        0 <= u < us.len(),
        0 <= v <= us.len(),
    ensures
        spec_neighbors_upto(us, m, t, u, v).no_duplicates(),
    decreases v,
{
    if v > 0 {
        lemma_spec_neighbors_no_dup(us, m, t, u, v - 1);
        if v - 1 != u && spec_edge(m, us[u], us[v - 1], t) {
            lemma_spec_neighbors_contains(us, m, t, u, v - 1, v - 1);
            let prev = spec_neighbors_upto(us, m, t, u, v - 1);
            assert(!prev.contains(us[v - 1]));
            assert(prev.push(us[v - 1]).drop_last() =~= prev);
        }
    }
}

/// Creates the similarity graph: every user of `users` becomes a node, and
/// each unordered pair of distinct users is joined exactly when their
/// similarity reaches the threshold (inclusive). Every user must appear in
/// the vocabulary mapping.
pub fn create_graph(users: &Vec<String>, map: &Vocab, threshold: Threshold) -> (g: Graph)
    requires
        map.wf(),
        threshold.wf(),
        users@.map_values(|s: String| s@).no_duplicates(),
        forall|i: int| 0 <= i < users@.len() ==> map.contains_user((#[trigger] users@[i])@),
    ensures
        g.wf(),
        g.key_seq() == users@.map_values(|s: String| s@),
        g.key_seq().len() == users@.len(),
        forall|u: int|
            0 <= u < users@.len() ==> g.neighbors_at(u) == spec_neighbors(
                users@.map_values(|s: String| s@),
                map.as_map(),
                threshold,
                u,
            ),
        g.as_map() == spec_graph(users@.map_values(|s: String| s@), map.as_map(), threshold),
        g.symmetric(),
        forall|u: int| 0 <= u < users@.len() ==> (#[trigger] g.neighbors_at(u)).no_duplicates(),
{
    let n = users.len();
    let ghost us = users@.map_values(|s: String| s@);
    let ghost m = map.as_map();

    let mut flags: Vec<Vec<bool>> = Vec::new();
    let mut i: usize = 0;
    while i < n
        invariant
            i <= n,
            n == us.len(),
            us == users@.map_values(|s: String| s@),
            m == map.as_map(),
            map.wf(),
            threshold.wf(),
            forall|k: int| 0 <= k < us.len() ==> map.contains_user((#[trigger] users@[k])@),
            flags@.len() == i,
            forall|a: int, b: int|
                0 <= a < i && 0 <= b < n ==> (#[trigger] flags@[a]@[b] == (b > a && spec_edge(
                    m,
                    us[a],
                    us[b],
                    threshold,
                ))),
            forall|a: int| 0 <= a < i ==> (#[trigger] flags@[a])@.len() == n,
        decreases n - i,
    {
        let mut row: Vec<bool> = Vec::new();
        let mut j: usize = 0;
        while j < n
            invariant
                j <= n,
                i < n,
                n == us.len(),
                us == users@.map_values(|s: String| s@),
                m == map.as_map(),
                map.wf(),
                threshold.wf(),
                forall|k: int| 0 <= k < us.len() ==> map.contains_user((#[trigger] users@[k])@),
                row@.len() == j,
                forall|b: int|
                    0 <= b < j ==> (#[trigger] row@[b] == (b > i && spec_edge(
                        m,
                        us[i as int],
                        us[b],
                        threshold,
                    ))),
            decreases n - j,
        {
            if j > i {
                let sim = match find_similarities(
                    users[i].clone(),
                    users[j].clone(),
                    map,
                ) {
                    Ok(s) => s,
                    Err(_) => unreached(),
                };
                let e = meets_threshold(&sim, &threshold);
                row.push(e);
            } else {
                row.push(false);
            }
            j += 1;
        }
        flags.push(row);
        i += 1;
    }

    let mut names: Vec<String> = Vec::new();
    let mut adj: Vec<Vec<String>> = Vec::new();
    let mut u: usize = 0;
    while u < n
        invariant
            u <= n,
            n == us.len(),
            us == users@.map_values(|s: String| s@),
            m == map.as_map(),
            threshold.wf(),
            flags@.len() == n,
            forall|a: int, b: int|
                0 <= a < n && 0 <= b < n ==> (#[trigger] flags@[a]@[b] == (b > a && spec_edge(
                    m,
                    us[a],
                    us[b],
                    threshold,
                ))),
            forall|a: int| 0 <= a < n ==> (#[trigger] flags@[a])@.len() == n,
            names@.len() == u,
            adj@.len() == u,
            forall|k: int| 0 <= k < u ==> (#[trigger] names@[k])@ == us[k],
            forall|k: int|
                0 <= k < u ==> (#[trigger] adj@[k])@.map_values(|s: String| s@)
                    == spec_neighbors_upto(us, m, threshold, k, n as int),
        decreases n - u,
    {
        let mut row: Vec<String> = Vec::new();
        let mut v: usize = 0;
        while v < n
            invariant
                v <= n,
                u < n,
                n == us.len(),
                us == users@.map_values(|s: String| s@),
                m == map.as_map(),
                threshold.wf(),
                flags@.len() == n,
                forall|a: int, b: int|
                    0 <= a < n && 0 <= b < n ==> (#[trigger] flags@[a]@[b] == (b > a && spec_edge(
                        m,
                        us[a],
                        us[b],
                        threshold,
                    ))),
                forall|a: int| 0 <= a < n ==> (#[trigger] flags@[a])@.len() == n,
                row@.map_values(|s: String| s@) == spec_neighbors_upto(
                    us,
                    m,
                    threshold,
                    u as int,
                    v as int,
                ),
            decreases n - v,
        {
            let ghost prev = row@.map_values(|s: String| s@);
            if v != u {
                let e = if u < v {
                    flags[u][v]
                } else {
                    proof {
                        lemma_similarity_symmetric(m, us[v as int], us[u as int]);
                    }
                    flags[v][u]
                };
                if e {
                    row.push(users[v].clone());
                    proof {
                        assert(row@.map_values(|s: String| s@) =~= prev.push(us[v as int]));
                    }
                }
            }
            v += 1;
        }
        names.push(users[u].clone());
        adj.push(row);
        u += 1;
    }

    let g = Graph { names, adj };
    proof {
        assert(g.key_seq() =~= us);
        assert forall|k: int| 0 <= k < us.len() implies #[trigger] g.neighbors_at(k)
            == spec_neighbors(us, m, threshold, k) by {
            assert(g.neighbors_at(k) == adj@[k]@.map_values(|s: String| s@));
        }
        assert forall|k: int| 0 <= k < us.len() implies (#[trigger] g.neighbors_at(
            k,
        )).no_duplicates() by {
            lemma_spec_neighbors_no_dup(us, m, threshold, k, us.len() as int);
        }
        assert forall|a: Seq<char>| #[trigger]
            g.as_map().dom().contains(a) implies g.as_map()[a] == spec_graph(us, m, threshold)[a]
            by {
            assert(us.contains(a));
            let k = us.index_of(a);
            assert(us[k] == a);
            g.lemma_key_index_of(k);
        }
        assert(g.as_map().dom() =~= spec_graph(us, m, threshold).dom());
        assert(g.as_map() =~= spec_graph(us, m, threshold));
        assert forall|a: int, b: int|
            0 <= a < us.len() && 0 <= b < us.len() implies ((#[trigger] g.neighbors_at(a).contains(
            g.key_seq()[b])) <==> g.neighbors_at(b).contains(g.key_seq()[a])) by {
            lemma_spec_neighbors_contains(us, m, threshold, a, us.len() as int, b);
            lemma_spec_neighbors_contains(us, m, threshold, b, us.len() as int, a);
            lemma_similarity_symmetric(m, us[a], us[b]);
        }
    }
    g
}

/// The number of edges joining node `j` with nodes at positions below `v`.
pub open spec fn spec_col_edges(
    us: Seq<Seq<char>>,
    m: Map<Seq<char>, Set<Seq<char>>>,
    t: Threshold,
    j: int,
    v: int,
) -> nat
    decreases v,
{
    if v <= 0 {
        0
    } else {
        spec_col_edges(us, m, t, j, v - 1) + if v - 1 != j && spec_edge(m, us[v - 1], us[j], t) {
            1nat
        } else {
            0nat
        }
    }
}

/// The number of unordered edges among the first `k` nodes: each pair
/// {u, j} with u < j is counted once, at its higher position.
pub open spec fn spec_edges_upto(
    us: Seq<Seq<char>>,
    m: Map<Seq<char>, Set<Seq<char>>>,
    t: Threshold,
    k: int,
) -> nat
    decreases k,
{
    if k <= 0 {
        0
    } else {
        spec_edges_upto(us, m, t, k - 1) + spec_col_edges(us, m, t, k - 1, k - 1)
    }
}

/// The number of unordered edges of the graph over `us` at threshold `t`.
pub open spec fn spec_edge_count(
    us: Seq<Seq<char>>,
    m: Map<Seq<char>, Set<Seq<char>>>,
    t: Threshold,
) -> nat {
    spec_edges_upto(us, m, t, us.len() as int)
}

/// The combined length of the first `v` neighbor lists, each list bounded
/// to candidate positions below `k`.
pub open spec fn spec_deg_psum(
    us: Seq<Seq<char>>,
    m: Map<Seq<char>, Set<Seq<char>>>,
    t: Threshold,
    k: int,
    v: int,
) -> nat
    decreases v,
{
    if v <= 0 {
        0
    } else {
        spec_deg_psum(us, m, t, k, v - 1) + spec_neighbors_upto(us, m, t, v - 1, k).len()
    }
}

/// The combined length of all neighbor lists of the graph that
/// `create_graph` builds over `us` at threshold `t`.
pub open spec fn spec_degree_sum(
    us: Seq<Seq<char>>,
    m: Map<Seq<char>, Set<Seq<char>>>,
    t: Threshold,
) -> nat {
    spec_deg_psum(us, m, t, us.len() as int, us.len() as int)
}

proof fn lemma_col_edges_monotone(
    us: Seq<Seq<char>>,
    m: Map<Seq<char>, Set<Seq<char>>>,
    t1: Threshold,
    t2: Threshold,
    j: int,
    v: int,
)
    requires
        t1.wf(),
        t2.wf(),
        t1.spec_le(t2),
    ensures
        spec_col_edges(us, m, t2, j, v) <= spec_col_edges(us, m, t1, j, v),
    decreases v,
{
    if v > 0 {
        lemma_col_edges_monotone(us, m, t1, t2, j, v - 1);
        if v - 1 != j && spec_edge(m, us[v - 1], us[j], t2) {
            lemma_score_monotone(
                sim_shared(m, us[v - 1], us[j]),
                sim_total(m, us[v - 1], us[j]),
                t1,
                t2,
            );
        }
    }
}

proof fn lemma_edges_upto_monotone(
    us: Seq<Seq<char>>,
    m: Map<Seq<char>, Set<Seq<char>>>,
    t1: Threshold,
    t2: Threshold,
    k: int,
)
    requires
        t1.wf(),
        t2.wf(),
        t1.spec_le(t2),
    ensures
        spec_edges_upto(us, m, t2, k) <= spec_edges_upto(us, m, t1, k),
    decreases k,
{
    if k > 0 {
        lemma_edges_upto_monotone(us, m, t1, t2, k - 1);
        lemma_col_edges_monotone(us, m, t1, t2, k - 1, k - 1);
    }
}

proof fn lemma_deg_psum_monotone(
    us: Seq<Seq<char>>,
    m: Map<Seq<char>, Set<Seq<char>>>,
    t1: Threshold,
    t2: Threshold,
    k: int,
    v: int,
)
    requires
        t1.wf(),
        t2.wf(),
        t1.spec_le(t2),
    ensures
        spec_deg_psum(us, m, t2, k, v) <= spec_deg_psum(us, m, t1, k, v),
    decreases v,
{
    if v > 0 {
        lemma_deg_psum_monotone(us, m, t1, t2, k, v - 1);
        lemma_neighbors_upto_monotone(us, m, t1, t2, v - 1, k);
    }
}

/// A neighbor list and the matching edge column have the same length: both
/// count the same pairs, read in the two directions of a symmetric edge.
proof fn lemma_neighbors_len_is_col(
    us: Seq<Seq<char>>,
    m: Map<Seq<char>, Set<Seq<char>>>,
    t: Threshold,
    j: int,
    v: int,
)
    ensures
        spec_neighbors_upto(us, m, t, j, v).len() == spec_col_edges(us, m, t, j, v),
    decreases v,
{
    if v > 0 {
        lemma_neighbors_len_is_col(us, m, t, j, v - 1);
        lemma_similarity_symmetric(m, us[v - 1], us[j]);
    }
}

proof fn lemma_deg_psum_step(
    us: Seq<Seq<char>>,
    m: Map<Seq<char>, Set<Seq<char>>>,
    t: Threshold,
    k: int,
    v: int,
)
    requires
        0 <= v <= k,
    ensures
        spec_deg_psum(us, m, t, k + 1, v) == spec_deg_psum(us, m, t, k, v) + spec_col_edges(
            us,
            m,
            t,
            k,
            v,
        ),
    decreases v,
{
    if v > 0 {
        lemma_deg_psum_step(us, m, t, k, v - 1);
        lemma_similarity_symmetric(m, us[v - 1], us[k]);
        assert(spec_neighbors_upto(us, m, t, v - 1, k + 1).len() == spec_neighbors_upto(
            us,
            m,
            t,
            v - 1,
            k,
        ).len() + if k != v - 1 && spec_edge(m, us[v - 1], us[k], t) {
            1nat
        } else {
            0nat
        });
    }
}

/// The handshake identity: the combined length of the neighbor lists is
/// exactly twice the number of unordered edges, since every edge stands in
/// both of its endpoints' lists.
pub proof fn lemma_degree_sum_handshake(
    us: Seq<Seq<char>>,
    m: Map<Seq<char>, Set<Seq<char>>>,
    t: Threshold,
)
    ensures
        spec_degree_sum(us, m, t) == 2 * spec_edge_count(us, m, t),
{
    lemma_handshake_upto(us, m, t, us.len() as int);
}

proof fn lemma_handshake_upto(
    us: Seq<Seq<char>>,
    m: Map<Seq<char>, Set<Seq<char>>>,
    t: Threshold,
    k: int,
)
    requires
        0 <= k,
    ensures
        spec_deg_psum(us, m, t, k, k) == 2 * spec_edges_upto(us, m, t, k),
    decreases k,
{
    if k > 0 {
        lemma_handshake_upto(us, m, t, k - 1);
        lemma_deg_psum_step(us, m, t, k - 1, k - 1);
        lemma_neighbors_len_is_col(us, m, t, k - 1, k - 1);
        assert(spec_neighbors_upto(us, m, t, k - 1, k).len() == spec_neighbors_upto(
            us,
            m,
            t,
            k - 1,
            k - 1,
        ).len());
    }
}

proof fn lemma_neighbors_upto_monotone(
    us: Seq<Seq<char>>,
    m: Map<Seq<char>, Set<Seq<char>>>,
    t1: Threshold,
    t2: Threshold,
    u: int,
    v: int,
)
    requires
        t1.wf(),
        t2.wf(),
        t1.spec_le(t2),
    ensures
        spec_neighbors_upto(us, m, t2, u, v).len() <= spec_neighbors_upto(us, m, t1, u, v).len(),
    decreases v,
{
    if v > 0 {
        lemma_neighbors_upto_monotone(us, m, t1, t2, u, v - 1);
        if v - 1 != u && spec_edge(m, us[u], us[v - 1], t2) {
            lemma_score_monotone(
                sim_shared(m, us[u], us[v - 1]),
                sim_total(m, us[u], us[v - 1]),
                t1,
                t2,
            );
        }
    }
}

/// Threshold monotonicity: for a fixed user sequence and vocabulary mapping,
/// raising the threshold never adds an edge. Every edge present at the
/// higher threshold is present at the lower one; the unordered edge count,
/// the combined neighbor-list length of the graph that `create_graph`
/// builds, and the length of every single neighbor list are non-increasing.
pub proof fn lemma_threshold_monotone(
    us: Seq<Seq<char>>,
    m: Map<Seq<char>, Set<Seq<char>>>,
    t1: Threshold,
    t2: Threshold,
)
    requires
        t1.wf(),
        t2.wf(),
        t1.spec_le(t2),
    ensures
        forall|a: Seq<char>, b: Seq<char>| #[trigger]
            spec_edge(m, a, b, t2) ==> spec_edge(m, a, b, t1),
        spec_edge_count(us, m, t2) <= spec_edge_count(us, m, t1),
        spec_degree_sum(us, m, t2) <= spec_degree_sum(us, m, t1),
        forall|u: int|
            0 <= u < us.len() ==> (#[trigger] spec_neighbors(us, m, t2, u)).len()
                <= spec_neighbors(us, m, t1, u).len(),
{
    assert forall|a: Seq<char>, b: Seq<char>| #[trigger]
        spec_edge(m, a, b, t2) implies spec_edge(m, a, b, t1) by {
        lemma_score_monotone(sim_shared(m, a, b), sim_total(m, a, b), t1, t2);
    }
    lemma_edges_upto_monotone(us, m, t1, t2, us.len() as int);
    lemma_deg_psum_monotone(us, m, t1, t2, us.len() as int, us.len() as int);
    assert forall|u: int| 0 <= u < us.len() implies (#[trigger] spec_neighbors(
        us,
        m,
        t2,
        u,
    )).len() <= spec_neighbors(us, m, t1, u).len() by {
        lemma_neighbors_upto_monotone(us, m, t1, t2, u, us.len() as int);
    }
}

/// Building the graph twice from identical inputs yields identical adjacency
/// mappings: the same nodes, the same neighbor lists, and so the same edges.
pub proof fn lemma_create_graph_idempotent(
    us: Seq<Seq<char>>,
    m: Map<Seq<char>, Set<Seq<char>>>,
    t: Threshold,
    g1: Map<Seq<char>, Seq<Seq<char>>>,
    g2: Map<Seq<char>, Seq<Seq<char>>>,
)
    requires
        g1 == spec_graph(us, m, t),
        g2 == spec_graph(us, m, t),
    ensures
        g1 == g2,
        forall|a: Seq<char>, b: Seq<char>|
            g1.dom().contains(a) && #[trigger] g1[a].contains(b) <==> g2.dom().contains(a)
                && #[trigger] g2[a].contains(b),
{
}

} // verus!
