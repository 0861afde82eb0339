//! Spam-specific functions: finding the users with spam-labeled rows,
//! narrowing a table to its spam rows, and picking the highest-degree nodes
//! of a graph.
use vstd::prelude::*;
use crate::AnalysisError;
use crate::ColumnVal;
use crate::graph::Graph;
use crate::table::Table;
use crate::table::table_cell;
use crate::table::table_cols;
use crate::table::table_from_cells;
use crate::table::table_nrows;
use crate::table::table_ncols;
use crate::table::table_view;
use crate::vocab::row_user;
use crate::vocab::spec_users;
use crate::vocab::vec_contains_string;
use crate::vocab::lemma_to_set_push;

verus! {

broadcast use vstd::seq_lib::lemma_seq_contains_after_push, vstd::seq_lib::seq_to_set_is_finite;

/// The spam label of a row (column 3).
pub open spec fn row_label(row: Seq<ColumnVal>) -> bool {
    row[3]->Two_0
}

/// Whether every row carries a boolean cell in the label column and a text
/// cell in the identity column.
pub open spec fn rows_label_ok(rows: Seq<Seq<ColumnVal>>) -> bool {
    forall|i: int| 0 <= i < rows.len() ==> (#[trigger] rows[i])[3] is Two && rows[i][0] is One
}

/// The users with at least one spam-labeled row, in first-seen row order.
pub open spec fn spec_spammers(rows: Seq<Seq<ColumnVal>>) -> Seq<Seq<char>>
    decreases rows.len(),
{
    if rows.len() == 0 {
        Seq::empty()
    } else {
        let prev = spec_spammers(rows.drop_last());
        if row_label(rows.last()) && !prev.contains(row_user(rows.last())) {
            prev.push(row_user(rows.last()))
        } else {
            prev
        }
    }
}

/// Spam monotonicity: the spammers of a table are among its users, so their
/// count never exceeds the distinct user count.
pub proof fn lemma_spam_count_bound(rows: Seq<Seq<ColumnVal>>)
    ensures
        spec_spammers(rows).no_duplicates(),
        spec_users(rows).no_duplicates(),
        spec_spammers(rows).to_set().subset_of(spec_users(rows).to_set()),
        spec_spammers(rows).len() <= spec_users(rows).len(),
    decreases rows.len(),
{
    if rows.len() == 0 {
    } else {
        lemma_spam_count_bound(rows.drop_last());
        let prev_sp = spec_spammers(rows.drop_last());
        let prev_us = spec_users(rows.drop_last());
        let u = row_user(rows.last());
        if row_label(rows.last()) && !prev_sp.contains(u) {
            assert(prev_sp.push(u).drop_last() =~= prev_sp);
            lemma_to_set_push(prev_sp, u);
        }
        if !prev_us.contains(u) {
            assert(prev_us.push(u).drop_last() =~= prev_us);
            lemma_to_set_push(prev_us, u);
        } else {
            assert(prev_us.to_set().contains(u));
        }
        spec_spammers(rows).unique_seq_to_set();
        spec_users(rows).unique_seq_to_set();
        vstd::set_lib::lemma_len_subset(spec_spammers(rows).to_set(), spec_users(rows).to_set());
    }
}

/// Finds the users with at least one spam-labeled row: their count and their
/// identities in first-seen order, scanning the table top to bottom. The
/// user population is already determined by the table, so `unique_users` is
/// taken only to mirror the analysis interface. Fails with `TypeMismatch`
/// exactly when the table does not have four columns or some label cell is
/// not boolean or some identity cell is not text.
pub fn find_spam(arr_data: &Table, unique_users: &Vec<String>) -> (r: Result<
    (u32, Vec<String>),
    AnalysisError,
>)
    requires
        table_view(arr_data).len() <= u32::MAX,
    ensures
        r is Ok <==> table_ncols(arr_data) == 4 && rows_label_ok(table_view(arr_data)),
        r matches Err(e) ==> e == AnalysisError::TypeMismatch,
        r matches Ok(p) ==> p.1@.map_values(|s: String| s@) == spec_spammers(table_view(arr_data)),
        r matches Ok(p) ==> p.0 == p.1@.len(),
        r matches Ok(p) ==> p.1@.map_values(|s: String| s@).no_duplicates(),
        r matches Ok(p) ==> p.0 as nat <= spec_users(table_view(arr_data)).len(),
{
    let ghost rows = table_view(arr_data);
    let cols = table_cols(arr_data);
    if cols != 4 {
        return Err(AnalysisError::TypeMismatch);
    }
    let n = table_nrows(arr_data);
    let mut spam_users: Vec<String> = Vec::new();
    let mut counter: u32 = 0;
    let mut i: usize = 0;
    proof {
        assert(rows.take(0) =~= Seq::<Seq<ColumnVal>>::empty());
    }
    while i < n
        invariant
            i <= n,
            n == rows.len(),
            n <= u32::MAX,
            rows == table_view(arr_data),
            table_ncols(arr_data) == 4,
            forall|k: int| 0 <= k < rows.len() ==> (#[trigger] rows[k]).len() == 4,
            spam_users@.map_values(|s: String| s@) == spec_spammers(rows.take(i as int)),
            counter == spam_users@.len(),
            spam_users@.len() <= i,
            rows_label_ok(rows.take(i as int)),
        decreases n - i,
    {
        let ghost prefix = rows.take(i as int);
        let label_cell = table_cell(arr_data, i, 3);
        let my_bool = match label_cell {
            ColumnVal::Two(b) => b,
            ColumnVal::One(_) => {
                proof {
                    assert(!(rows[i as int][3] is Two));
                    assert(!rows_label_ok(rows));
                }
                return Err(AnalysisError::TypeMismatch);
            },
        };
        let name_cell = table_cell(arr_data, i, 0);
        let given_name = match name_cell {
            ColumnVal::One(s) => s,
            ColumnVal::Two(_) => {
                proof {
                    assert(!(rows[i as int][0] is One));
                    assert(!rows_label_ok(rows));
                }
                return Err(AnalysisError::TypeMismatch);
            },
        };
        proof {
            assert(rows.take(i + 1).drop_last() =~= prefix);
            assert(rows.take(i + 1).last() == rows[i as int]);
            assert(given_name@ == row_user(rows[i as int]));
        }
        let seen = vec_contains_string(&spam_users, &given_name);
        if my_bool && !seen {
            counter += 1;
            spam_users.push(given_name);
            proof {
                assert(spam_users@.map_values(|s: String| s@) =~= spec_spammers(prefix).push(
                    row_user(rows[i as int]),
                ));
            }
        }
        i += 1;
    }
    proof {
        assert(rows.take(n as int) =~= rows);
        lemma_spam_count_bound(rows);
    }
    Ok((counter, spam_users))
}

/// The rows of the table whose label is spam.
pub open spec fn spec_spam_rows(rows: Seq<Seq<ColumnVal>>) -> Seq<Seq<ColumnVal>> {
    rows.filter(|r: Seq<ColumnVal>| r[3] is Two && r[3]->Two_0)
}

/// Narrows a table to the rows labeled as spam, keeping row order. Fails
/// with `TypeMismatch` exactly when the table does not have four columns or
/// some label cell is not boolean.
pub fn filter_spam_rows(arr_data: &Table) -> (r: Result<Table, AnalysisError>)
    ensures
        r is Ok <==> table_ncols(arr_data) == 4 && (forall|i: int|
            0 <= i < table_view(arr_data).len() ==> (#[trigger] table_view(arr_data)[i])[3]
                is Two),
        r matches Err(e) ==> e == AnalysisError::TypeMismatch,
        r matches Ok(t) ==> table_view(&t) == spec_spam_rows(table_view(arr_data)),
        r matches Ok(t) ==> table_ncols(&t) == 4,
{
    let ghost rows = table_view(arr_data);
    let ghost keep = |r2: Seq<ColumnVal>| r2[3] is Two && r2[3]->Two_0;
    let cols = table_cols(arr_data);
    if cols != 4 {
        return Err(AnalysisError::TypeMismatch);
    }
    let n = table_nrows(arr_data);
    let mut cells: Vec<ColumnVal> = Vec::new();
    let mut kept: usize = 0;
    let mut i: usize = 0;
    proof {
        assert(rows.take(0) =~= Seq::<Seq<ColumnVal>>::empty());
        assert(rows.take(0).filter(keep) =~= Seq::<Seq<ColumnVal>>::empty());
    }
    while i < n
        invariant
            i <= n,
            n == rows.len(),
            rows == table_view(arr_data),
            table_ncols(arr_data) == 4,
            keep == (|r2: Seq<ColumnVal>| r2[3] is Two && r2[3]->Two_0),
            forall|k: int| 0 <= k < rows.len() ==> (#[trigger] rows[k]).len() == 4,
            rows.take(i as int).filter(keep).len() == kept,
            cells@.len() == kept * 4,
            kept <= i,
            forall|a: int, b: int|
                0 <= a < kept && 0 <= b < 4 ==> #[trigger] cells@[a * 4 + b] == rows.take(
                    i as int,
                ).filter(keep)[a][b],
            forall|a: int|
                0 <= a < kept ==> (#[trigger] rows.take(i as int).filter(keep)[a]).len() == 4,
            forall|k: int| 0 <= k < i ==> (#[trigger] rows[k])[3] is Two,
        decreases n - i,
    {
        let ghost prefix = rows.take(i as int);
        let label_cell = table_cell(arr_data, i, 3);
        let is_spam = match label_cell {
            ColumnVal::Two(b) => b,
            ColumnVal::One(_) => {
                proof {
                    assert(!(rows[i as int][3] is Two));
                }
                return Err(AnalysisError::TypeMismatch);
            },
        };
        proof {
            assert(rows.take(i + 1) =~= prefix.push(rows[i as int]));
            assert(keep(rows[i as int]) == is_spam);
            prefix.lemma_filter_push(rows[i as int], keep);
            if is_spam {
                assert(prefix.push(rows[i as int]).filter(keep) == prefix.filter(keep).push(
                    rows[i as int],
                ));
            } else {
                assert(prefix.push(rows[i as int]).filter(keep) == prefix.filter(keep));
            }
        }
        if is_spam {
            let ghost old_cells = cells@;
            let c0 = table_cell(arr_data, i, 0);
            cells.push(c0);
            let c1 = table_cell(arr_data, i, 1);
            cells.push(c1);
            let c2 = table_cell(arr_data, i, 2);
            cells.push(c2);
            let c3 = table_cell(arr_data, i, 3);
            cells.push(c3);
            kept += 1;
            proof {
                assert forall|a: int, b: int|
                    0 <= a < kept && 0 <= b < 4 implies #[trigger] cells@[a * 4 + b] == rows.take(
                    i + 1,
                ).filter(keep)[a][b] by {
                    if a < kept - 1 {
                        assert(cells@[a * 4 + b] == old_cells[a * 4 + b]);
                    } else {
                        assert(a == kept - 1);
                        assert(cells@[a * 4 + b] == rows[i as int][b]);
                    }
                }
            }
        }
        i += 1;
    }
    proof {
        assert(rows.take(n as int) =~= rows);
    }
    let out = table_from_cells(kept, 4, cells);
    proof {
        let filtered = rows.filter(keep);
        assert forall|a: int| 0 <= a < kept implies #[trigger] table_view(&out)[a] == filtered[a]
            by {
            assert(filtered[a].len() == 4);
            assert(table_view(&out)[a] =~= filtered[a]);
        }
        assert(table_view(&out) =~= filtered);
    }
    Ok(out)
}

/// The greatest neighbor count among the first `k` nodes.
pub open spec fn spec_max_degree_upto(g: Graph, k: int) -> nat
    decreases k,
{
    if k <= 0 {
        0
    } else {
        let prev = spec_max_degree_upto(g, k - 1);
        if g.neighbors_at(k - 1).len() > prev {
            g.neighbors_at(k - 1).len()
        } else {
            prev
        }
    }
}

/// The greatest neighbor count of the graph (0 when it has no nodes).
pub open spec fn spec_max_degree(g: Graph) -> nat {
    spec_max_degree_upto(g, g.key_seq().len() as int)
}

/// The nodes among the first `k` whose neighbor count is exactly `d`.
pub open spec fn spec_best_upto(g: Graph, k: int, d: nat) -> Seq<Seq<char>>
    decreases k,
{
    if k <= 0 {
        Seq::empty()
    } else {
        let prev = spec_best_upto(g, k - 1, d);
        if g.neighbors_at(k - 1).len() == d {
            prev.push(g.key_seq()[k - 1])
        } else {
            prev
        }
    }
}

/// The nodes achieving the greatest neighbor count.
pub open spec fn spec_best_spammers(g: Graph) -> Seq<Seq<char>> {
    spec_best_upto(g, g.key_seq().len() as int, spec_max_degree(g))
}

proof fn lemma_best_upto_empty(g: Graph, k: int, d: nat)
    requires
        d > spec_max_degree_upto(g, k),
    ensures
        spec_best_upto(g, k, d) == Seq::<Seq<char>>::empty(),
    decreases k,
{
    if k > 0 {
        lemma_best_upto_empty(g, k - 1, d);
    }
}

proof fn lemma_best_upto_contains(g: Graph, k: int, d: nat, w: int)
    requires
        g.wf(),
        0 <= w < g.key_seq().len(),
        0 <= k <= g.key_seq().len(),
    ensures
        spec_best_upto(g, k, d).contains(g.key_seq()[w]) <==> (w < k && g.neighbors_at(w).len()
            == d),
    decreases k,
{
    if k > 0 {
        lemma_best_upto_contains(g, k - 1, d, w);
        if g.neighbors_at(k - 1).len() == d {
            if g.key_seq()[w] == g.key_seq()[k - 1] {
                assert(w == k - 1);
            }
        }
    }
}

/// Finds the best spammers: the nodes whose neighbor count is the greatest
/// of the graph, ties preserved. On a graph without nodes the result is
/// empty.
pub fn find_best_spammer(graph: &Graph) -> (r: Vec<String>)
    requires
        graph.wf(),
    ensures
        r@.map_values(|s: String| s@) == spec_best_spammers(*graph),
        graph.key_seq().len() == 0 ==> r@.len() == 0,
        forall|w: int|
            0 <= w < graph.key_seq().len() ==> (r@.map_values(|s: String| s@).contains(
                #[trigger] graph.key_seq()[w],
            ) <==> graph.neighbors_at(w).len() == spec_max_degree(*graph)),
{
    let n = graph.names.len();
    let mut max_neighbors: usize = 0;
    let mut best: Vec<String> = Vec::new();
    let mut k: usize = 0;
    while k < n
        invariant
            k <= n,
            n == graph.key_seq().len(),
            graph.wf(),
            max_neighbors == spec_max_degree_upto(*graph, k as int),
            best@.map_values(|s: String| s@) == spec_best_upto(
                *graph,
                k as int,
                max_neighbors as nat,
            ),
        decreases n - k,
    {
        let ghost prev_best = best@.map_values(|s: String| s@);
        let d = graph.adj[k].len();
        proof {
            assert(d == graph.neighbors_at(k as int).len());
        }
        if d > max_neighbors {
            proof {
                lemma_best_upto_empty(*graph, k as int, d as nat);
            }
            best.clear();
            best.push(graph.names[k].clone());
            max_neighbors = d;
            proof {
                assert(best@.map_values(|s: String| s@) =~= Seq::<Seq<char>>::empty().push(
                    graph.key_seq()[k as int],
                ));
                assert(spec_best_upto(*graph, k + 1, d as nat) =~= spec_best_upto(
                    *graph,
                    k as int,
                    d as nat,
                ).push(graph.key_seq()[k as int]));
            }
        } else if d == max_neighbors {
            best.push(graph.names[k].clone());
            proof {
                assert(best@.map_values(|s: String| s@) =~= prev_best.push(
                    graph.key_seq()[k as int],
                ));
            }
        }
        k += 1;
    }
    proof {
        assert forall|w: int| 0 <= w < graph.key_seq().len() implies (best@.map_values(
            |s: String| s@,
        ).contains(#[trigger] graph.key_seq()[w]) <==> graph.neighbors_at(w).len()
            == spec_max_degree(*graph)) by {
            lemma_best_upto_contains(*graph, n as int, spec_max_degree(*graph), w);
        }
    }
    best
}

} // verus!
