//! Analysis of a labeled comment dataset: a similarity graph over users is
//! built from their shared vocabulary, and structural statistics (connected
//! components, highest-degree nodes, spam users) are reported about it.
use vstd::prelude::*;

pub mod components;
pub mod graph;
pub mod similarity;
pub mod spam;
pub mod table;
pub mod vocab;
pub mod words;

pub use components::find_num_disconnected_graphs;
pub use graph::Graph;
pub use graph::Threshold;
pub use graph::create_graph;
pub use similarity::Similarity;
pub use similarity::find_similarities;
pub use spam::filter_spam_rows;
pub use spam::find_best_spammer;
pub use spam::find_spam;
pub use table::Table;
pub use table::count_spam_comments;
pub use table::record_to_row;
pub use table::table_from_cells;
pub use vocab::Vocab;
pub use vocab::map_users_to_words;

verus! {

/// A single cell of the row table: either a text value or a boolean flag.
/// Arrays must be homogeneous, so the two cell kinds are variants of one type.
#[derive(Debug, Clone, PartialEq)]
pub enum ColumnVal {
    One(String),
    Two(bool),
}

/// Errors of the analysis core.
///
/// `TypeMismatch`: a cell has the wrong variant for its column role
/// (for example a boolean where text was expected).
/// `NotFound`: a requested identity is absent from a vocabulary mapping.
#[derive(Debug, Clone, Copy, PartialEq, Eq, Structural)]
pub enum AnalysisError {
    TypeMismatch,
    NotFound,
}

} // verus!
