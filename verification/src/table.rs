//! The row table: a rectangular array of typed cells, held in an
//! `ndarray::Array2` and read through a small trusted surface.
//!
//! Column contract: position 0 = user identity (text), position 1 = comment
//! content (text), position 2 = grouping key (text), position 3 = spam label
//! (boolean).
use vstd::prelude::*;
use crate::ColumnVal;

verus! {

/// A rectangular table of cells, backed by a two-dimensional ndarray array.
#[verifier::external_body]
pub struct Table {
    arr: ndarray::Array2<ColumnVal>,
}

/// The rows of the table, each row the sequence of its cells.
pub uninterp spec fn table_view(a: &Table) -> Seq<Seq<ColumnVal>>;

/// The common length of the table's rows.
pub uninterp spec fn table_ncols(a: &Table) -> nat;

/// Relies on ndarray::ArrayBase::nrows: the number of rows.
#[verifier::external_body]
pub fn table_nrows(a: &Table) -> (r: usize)
    ensures
        r == table_view(a).len(),
{
    a.arr.nrows()
}

/// Relies on ndarray::ArrayBase::ncols: the number of columns. A
/// two-dimensional array is rectangular, so every row of the view has
/// exactly that many cells.
#[verifier::external_body]
pub fn table_cols(a: &Table) -> (r: usize)
    ensures
        r == table_ncols(a),
        forall|i: int|
            0 <= i < table_view(a).len() ==> (#[trigger] table_view(a)[i]).len() == r,
{
    a.arr.ncols()
}

/// Relies on ndarray's Index impl for `[usize; 2]`: returns a clone of the
/// cell at row `i`, column `j`.
#[verifier::external_body]
pub fn table_cell(a: &Table, i: usize, j: usize) -> (r: ColumnVal)
    requires
        i < table_view(a).len(),
        j < table_view(a)[i as int].len(),
    ensures
        r == table_view(a)[i as int][j as int],
{
    a.arr[[i, j]].clone()
}

/// Relies on ndarray::Array2::from_shape_vec: builds a `rows` by `cols` table
/// from cells given in row-major order; it succeeds exactly when the cell
/// count matches the shape.
#[verifier::external_body]
pub fn table_from_cells(rows: usize, cols: usize, cells: Vec<ColumnVal>) -> (r: Table)
    requires
        cells@.len() == rows * cols,
    ensures
        table_view(&r).len() == rows,
        table_ncols(&r) == cols,
        forall|i: int| 0 <= i < rows ==> (#[trigger] table_view(&r)[i]).len() == cols,
        forall|i: int, j: int|
            0 <= i < rows && 0 <= j < cols ==> #[trigger] table_view(&r)[i][j] == cells@[i * cols
                + j],
{
    Table { arr: ndarray::Array2::from_shape_vec((rows, cols), cells).unwrap() }
}

/// Turns one raw record of source fields into the four cells of a table row:
/// identity (field 1), content (field 3), grouping key (field 4), and the
/// spam label (field 5, read from the digits 1 and 0). A record with fewer
/// than six fields, or with any other label text, is malformed and yields
/// `None` so that the caller can skip it.
pub fn record_to_row(fields: &Vec<String>) -> (r: Option<Vec<ColumnVal>>)
    ensures
        r is Some <==> (fields@.len() >= 6 && ((fields@[5])@ == "1"@ || (fields@[5])@ == "0"@)),
        r matches Some(v) ==> v@.len() == 4,
        r matches Some(v) ==> v@[0] is One && v@[0]->One_0@ == (fields@[1])@,
        r matches Some(v) ==> v@[1] is One && v@[1]->One_0@ == (fields@[3])@,
        r matches Some(v) ==> v@[2] is One && v@[2]->One_0@ == (fields@[4])@,
        r matches Some(v) ==> v@[3] is Two && v@[3]->Two_0 == ((fields@[5])@ == "1"@),
{
    if fields.len() < 6 {
        return None;
    }
    let one = <String as vstd::string::StringExecFns>::from_str("1");
    let zero = <String as vstd::string::StringExecFns>::from_str("0");
    let is_one = fields[5].eq(&one);
    let is_zero = fields[5].eq(&zero);
    if !is_one && !is_zero {
        return None;
    }
    let mut row: Vec<ColumnVal> = Vec::new();
    row.push(ColumnVal::One(fields[1].clone()));
    row.push(ColumnVal::One(fields[3].clone()));
    row.push(ColumnVal::One(fields[4].clone()));
    row.push(ColumnVal::Two(is_one));
    Some(row)
}

/// The number of rows whose label cell (column 3) is a boolean reading spam.
pub open spec fn spec_spam_comment_count(rows: Seq<Seq<ColumnVal>>) -> nat
    decreases rows.len(),
{
    if rows.len() == 0 {
        0
    } else {
        spec_spam_comment_count(rows.drop_last()) + if rows.last()[3] is Two
            && rows.last()[3]->Two_0 {
            1nat
        } else {
            0nat
        }
    }
}

/// Counts the spam-labeled rows of the table; cells of the wrong variant are
/// passed over. A table without a label column has count 0.
pub fn count_spam_comments(a: &Table) -> (r: usize)
    ensures
        table_ncols(a) >= 4 ==> r == spec_spam_comment_count(table_view(a)),
        table_ncols(a) < 4 ==> r == 0,
{
    let ghost rows = table_view(a);
    let cols = table_cols(a);
    if cols < 4 {
        return 0;
    }
    let n = table_nrows(a);
    let mut counter: usize = 0;
    let mut i: usize = 0;
    proof {
        assert(rows.take(0) =~= Seq::<Seq<ColumnVal>>::empty());
    }
    while i < n
        invariant
            i <= n,
            n == rows.len(),
            rows == table_view(a),
            table_ncols(a) >= 4,
            forall|k: int| 0 <= k < rows.len() ==> (#[trigger] rows[k]).len() == table_ncols(a),
            counter == spec_spam_comment_count(rows.take(i as int)),
            counter <= i,
        decreases n - i,
    {
        let cell = table_cell(a, i, 3);
        proof {
            assert(rows.take(i + 1).drop_last() =~= rows.take(i as int));
            assert(rows.take(i + 1).last() == rows[i as int]);
        }
        match cell {
            ColumnVal::Two(b) => {
                if b {
                    counter += 1;
                }
            },
            ColumnVal::One(_) => {},
        }
        i += 1;
    }
    proof {
        assert(rows.take(n as int) =~= rows);
    }
    counter
}

} // verus!
