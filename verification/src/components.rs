//! The component counter: repeated breadth-first traversal over the
//! adjacency mapping, counting how many disconnected subgraphs it holds.
use vstd::prelude::*;
use crate::graph::Graph;

verus! {

/// The number of `true` entries of the sequence.
pub open spec fn count_trues(s: Seq<bool>) -> nat
    decreases s.len(),
{
    if s.len() == 0 {
        0
    } else {
        count_trues(s.drop_last()) + if s.last() {
            1nat
        } else {
            0nat
        }
    }
}

proof fn lemma_count_trues_le(s: Seq<bool>)
    ensures
        count_trues(s) <= s.len(),
    decreases s.len(),
{
    if s.len() > 0 {
        lemma_count_trues_le(s.drop_last());
    }
}

proof fn lemma_count_trues_missing(s: Seq<bool>, v: int)
    requires
        0 <= v < s.len(),
        !s[v],
    ensures
        count_trues(s) <= s.len() - 1,
    decreases s.len(),
{
    if v == s.len() - 1 {
        lemma_count_trues_le(s.drop_last());
    } else {
        lemma_count_trues_missing(s.drop_last(), v);
    }
}

proof fn lemma_count_trues_update(s: Seq<bool>, v: int)
    requires
        0 <= v < s.len(),
        !s[v],
    ensures
        count_trues(s.update(v, true)) == count_trues(s) + 1,
    decreases s.len(),
{
    let su = s.update(v, true);
    if v == s.len() - 1 {
        assert(su.drop_last() =~= s.drop_last());
        assert(su.last());
    } else {
        assert(su.drop_last() =~= s.drop_last().update(v, true));
        assert(su.last() == s.last());
        lemma_count_trues_update(s.drop_last(), v);
    }
}

/// Whether the node at position `i` has no neighbors.
pub open spec fn is_isolated(g: Graph, i: int) -> bool {
    g.neighbors_at(i).len() == 0
}

/// The number of isolated nodes among the first `k` positions.
pub open spec fn spec_isolated_upto(g: Graph, k: int) -> nat
    decreases k,
{
    if k <= 0 {
        0
    } else {
        spec_isolated_upto(g, k - 1) + if is_isolated(g, k - 1) {
            1nat
        } else {
            0nat
        }
    }
}

/// The number of isolated nodes of the graph.
pub open spec fn spec_isolated_count(g: Graph) -> nat {
    spec_isolated_upto(g, g.key_seq().len() as int)
}

proof fn lemma_isolated_upto_all(g: Graph, k: int)
    requires
        forall|i: int| 0 <= i < g.key_seq().len() ==> (#[trigger] g.neighbors_at(i)).len() == 0,
        0 <= k <= g.key_seq().len(),
    ensures
        spec_isolated_upto(g, k) == k,
    decreases k,
{
    if k > 0 {
        lemma_isolated_upto_all(g, k - 1);
    }
}

impl Graph {
    /// Looks a node up by identity (exact match).
    pub fn find_node(&self, name: &String) -> (r: Option<usize>)
        ensures
            r is Some <==> self.contains_node(name@),
            r matches Some(i) ==> i < self.key_seq().len() && self.key_seq()[i as int] == name@,
    {
        let mut j: usize = 0;
        while j < self.names.len()
            invariant
                j <= self.names@.len(),
                forall|k: int| 0 <= k < j ==> self.key_seq()[k] != name@,
            decreases self.names@.len() - j,
        {
            if self.names[j].eq(name) {
                assert(self.key_seq()[j as int] == name@);
                return Some(j);
            }
            j += 1;
        }
        proof {
            if self.contains_node(name@) {
                let i = choose|i: int| 0 <= i < self.key_seq().len() && self.key_seq()[i] == name@;
                assert(false);
            }
        }
        None
    }
}

/// Counts the disconnected components of the graph: breadth-first traversal
/// is started from each not-yet-visited node in turn, and each start is one
/// component. The count is 0 only for an empty graph, otherwise it lies
/// between 1 and the node count; in a symmetric graph every isolated node is
/// a component of its own, so the count is at least the isolated-node count,
/// and a symmetric graph of isolated nodes only has exactly one component
/// per node.
pub fn find_num_disconnected_graphs(graph: &Graph) -> (r: u32)
    requires
        graph.wf(),
        graph.key_seq().len() <= u32::MAX,
    ensures
        graph.key_seq().len() == 0 ==> r == 0,
        graph.key_seq().len() > 0 ==> 1 <= r <= graph.key_seq().len(),
        graph.symmetric() ==> r >= spec_isolated_count(*graph),
        (graph.symmetric() && forall|i: int|
            0 <= i < graph.key_seq().len() ==> (#[trigger] graph.neighbors_at(i)).len() == 0)
            ==> r == graph.key_seq().len(),
{
    let n = graph.names.len();
    let mut visited: Vec<bool> = vec![false; n];
    let mut counter: u32 = 0;
    let mut k: usize = 0;
    proof {
        assert(count_trues(visited@) == 0) by {
            lemma_count_trues_all_false(visited@);
        }
    }
    while k < n
        invariant
            k <= n,
            n == graph.key_seq().len(),
            n <= u32::MAX,
            graph.wf(),
            visited@.len() == n,
            counter as nat <= count_trues(visited@),
            count_trues(visited@) <= n,
            counter == 0 ==> forall|v: int| 0 <= v < n ==> !visited@[v],
            k > 0 ==> counter >= 1,
            graph.symmetric() ==> (forall|v: int|
                0 <= v < n && is_isolated(*graph, v) && #[trigger] visited@[v] ==> v < k),
            graph.symmetric() ==> counter as nat >= spec_isolated_upto(*graph, k as int),
        decreases n - k,
    {
        if !visited[k] {
            proof {
                lemma_count_trues_missing(visited@, k as int);
                lemma_count_trues_update(visited@, k as int);
            }
            counter += 1;
            visited[k] = true;
            let mut queue: Vec<usize> = Vec::new();
            queue.push(k);
            let mut head: usize = 0;
            while head < queue.len()
                invariant
                    head <= queue@.len(),
                    n == graph.key_seq().len(),
                    n <= u32::MAX,
                    k < n,
                    graph.wf(),
                    visited@.len() == n,
                    forall|q: int|
                        0 <= q < queue@.len() ==> (#[trigger] queue@[q] < n
                            && visited@[queue@[q] as int]),
                    counter as nat <= count_trues(visited@),
                    count_trues(visited@) <= n,
                    counter >= 1,
                    graph.symmetric() ==> (forall|v: int|
                        0 <= v < n && is_isolated(*graph, v) && #[trigger] visited@[v] ==> v <= k),
                decreases n - count_trues(visited@), queue@.len() - head,
            {
                let ghost trues0 = count_trues(visited@);
                let ghost qlen0 = queue@.len();
                let cur = queue[head];
                head += 1;
                let mut x: usize = 0;
                while x < graph.adj[cur].len()
                    invariant
                        x <= graph.neighbors_at(cur as int).len(),
                        n == graph.key_seq().len(),
                        n <= u32::MAX,
                        k < n,
                        cur < n,
                        graph.wf(),
                        visited@.len() == n,
                        forall|q: int|
                            0 <= q < queue@.len() ==> (#[trigger] queue@[q] < n
                                && visited@[queue@[q] as int]),
                        counter as nat <= count_trues(visited@),
                        count_trues(visited@) <= n,
                        trues0 <= count_trues(visited@),
                        queue@.len() - qlen0 == count_trues(visited@) - trues0,
                        head <= queue@.len(),
                        graph.symmetric() ==> (forall|v: int|
                            0 <= v < n && is_isolated(*graph, v) && #[trigger] visited@[v] ==> v
                                <= k),
                    decreases graph.neighbors_at(cur as int).len() - x,
                {
                    let w = &graph.adj[cur][x];
                    proof {
                        assert(graph.neighbors_at(cur as int)[x as int] == w@);
                    }
                    match graph.find_node(w) {
                        Some(v) => {
                            if !visited[v] {
                                proof {
                                    lemma_count_trues_missing(visited@, v as int);
                                    lemma_count_trues_update(visited@, v as int);
                                    if graph.symmetric() {
                                        assert(graph.neighbors_at(cur as int).contains(
                                            graph.key_seq()[v as int],
                                        ));
                                        assert(graph.neighbors_at(v as int).contains(
                                            graph.key_seq()[cur as int],
                                        ));
                                        assert(!is_isolated(*graph, v as int));
                                    }
                                }
                                visited[v] = true;
                                queue.push(v);
                            }
                        },
                        None => {},
                    }
                    x += 1;
                }
            }
            proof {
                if graph.symmetric() {
                    assert(counter as nat >= spec_isolated_upto(*graph, k + 1));
                }
            }
        } else {
            proof {
                if graph.symmetric() {
                    assert(!is_isolated(*graph, k as int));
                    assert(counter as nat >= spec_isolated_upto(*graph, k + 1));
                }
            }
        }
        k += 1;
    }
    proof {
        if graph.symmetric() && (forall|i: int|
            0 <= i < graph.key_seq().len() ==> (#[trigger] graph.neighbors_at(i)).len() == 0) {
            lemma_isolated_upto_all(*graph, n as int);
        }
    }
    counter
}

proof fn lemma_count_trues_all_false(s: Seq<bool>)
    requires
        forall|i: int| 0 <= i < s.len() ==> !s[i],
    ensures
        count_trues(s) == 0,
    decreases s.len(),
{
    if s.len() > 0 {
        lemma_count_trues_all_false(s.drop_last());
    }
}

} // verus!
