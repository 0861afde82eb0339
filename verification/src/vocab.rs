//! The vocabulary mapping: each user identity is mapped to the set of
//! distinct normalized words used across all of that user's rows.
use vstd::prelude::*;
use crate::AnalysisError;
use crate::ColumnVal;
use crate::table::Table;
use crate::table::table_cell;
use crate::table::table_cols;
use crate::table::table_ncols;
use crate::table::table_nrows;
use crate::table::table_view;
use crate::words::tokens_of;
use crate::words::words_of;
use crate::words::normalize_token;
use crate::words::tokenize;

verus! {

broadcast use vstd::seq_lib::lemma_seq_contains_after_push;

/// The text of a text cell.
pub open spec fn cell_text(c: ColumnVal) -> Seq<char> {
    c->One_0@
}

/// The user identity of a row (column 0).
pub open spec fn row_user(row: Seq<ColumnVal>) -> Seq<char> {
    cell_text(row[0])
}

/// The comment content of a row (column 1).
pub open spec fn row_content(row: Seq<ColumnVal>) -> Seq<char> {
    cell_text(row[1])
}

/// Whether every row carries text cells in the identity and content columns.
pub open spec fn rows_text_ok(rows: Seq<Seq<ColumnVal>>) -> bool {
    forall|i: int| 0 <= i < rows.len() ==> (#[trigger] rows[i])[0] is One && rows[i][1] is One
}

/// The distinct user identities of the table, in first-seen row order.
pub open spec fn spec_users(rows: Seq<Seq<ColumnVal>>) -> Seq<Seq<char>>
    decreases rows.len(),
{
    if rows.len() == 0 {
        Seq::empty()
    } else {
        let prev = spec_users(rows.drop_last());
        if prev.contains(row_user(rows.last())) {
            prev
        } else {
            prev.push(row_user(rows.last()))
        }
    }
}

/// The vocabulary mapping of the table: each user's word set is the union of
/// the normalized words of all rows attributed to that user.
pub open spec fn spec_vocab(rows: Seq<Seq<ColumnVal>>) -> Map<Seq<char>, Set<Seq<char>>>
    decreases rows.len(),
{
    if rows.len() == 0 {
        Map::empty()
    } else {
        let m = spec_vocab(rows.drop_last());
        let u = row_user(rows.last());
        let ws = words_of(row_content(rows.last())).to_set();
        if m.dom().contains(u) {
            m.insert(u, m[u].union(ws))
        } else {
            m.insert(u, ws)
        }
    }
}

/// A user appears in the vocabulary mapping exactly when the user appears in
/// the table's identity column.
pub proof fn lemma_vocab_dom(rows: Seq<Seq<ColumnVal>>)
    ensures
        forall|u: Seq<char>| spec_vocab(rows).dom().contains(u) <==> spec_users(rows).contains(u),
    decreases rows.len(),
{
    if rows.len() == 0 {
    } else {
        lemma_vocab_dom(rows.drop_last());
        let prev = spec_users(rows.drop_last());
        let u0 = row_user(rows.last());
        assert forall|u: Seq<char>|
            spec_vocab(rows).dom().contains(u) <==> spec_users(rows).contains(u) by {
            if prev.contains(u0) {
                assert(spec_users(rows) == prev);
            } else {
                assert(spec_users(rows) == prev.push(u0));
            }
        }
    }
}

/// The vocabulary mapping: user identities paired with their distinct
/// normalized words. Keys are unique; word lists hold no duplicates.
pub struct Vocab {
    pub names: Vec<String>,
    pub lists: Vec<Vec<String>>,
}

impl Vocab {
    /// The key sequence: the users of the mapping, in insertion order.
    pub open spec fn key_seq(self) -> Seq<Seq<char>> {
        self.names@.map_values(|s: String| s@)
    }

    /// The word list of the entry at position `i`.
    pub open spec fn list_at(self, i: int) -> Seq<Seq<char>> {
        self.lists@[i]@.map_values(|s: String| s@)
    }

    /// Well-formedness: parallel columns, unique keys, duplicate-free lists.
    pub open spec fn wf(self) -> bool {
        &&& self.names@.len() == self.lists@.len()
        &&& self.key_seq().no_duplicates()
        &&& forall|i: int| 0 <= i < self.lists@.len() ==> (#[trigger] self.list_at(i)).no_duplicates()
    }

    /// Whether the user is a key of the mapping.
    pub open spec fn contains_user(self, u: Seq<char>) -> bool {
        self.key_seq().contains(u)
    }

    /// The position of a key.
    pub open spec fn key_index(self, u: Seq<char>) -> int {
        self.key_seq().index_of(u)
    }

    /// The word set of the entry at position `i`.
    pub open spec fn word_set_at(self, i: int) -> Set<Seq<char>> {
        self.list_at(i).to_set()
    }

    /// The mapping as a mathematical map from user to word set.
    pub open spec fn as_map(self) -> Map<Seq<char>, Set<Seq<char>>> {
        Map::new(
            |u: Seq<char>| self.contains_user(u),
            |u: Seq<char>| self.word_set_at(self.key_index(u)),
        )
    }

    /// Every word set of the mapping is finite, so the similarity laws apply
    /// to any user pair drawn from it.
    pub proof fn lemma_word_sets_finite(self)
        ensures
            forall|u: Seq<char>|
                self.as_map().dom().contains(u) ==> (#[trigger] self.as_map()[u]).finite(),
    {
        broadcast use vstd::seq_lib::seq_to_set_is_finite;

    }

    /// In a well-formed mapping the key at position `i` points back to `i`.
    pub proof fn lemma_key_index_of(self, i: int)
        requires
            self.wf(),
            0 <= i < self.key_seq().len(),
        ensures
            self.key_index(self.key_seq()[i]) == i,
    {
        let u = self.key_seq()[i];
        assert(self.key_seq().contains(u));
        let j = self.key_seq().index_of(u);
        assert(self.key_seq()[j] == u);
    }

    /// An empty vocabulary mapping.
    pub fn new() -> (r: Vocab)
        ensures
            r.wf(),
            r.key_seq() == Seq::<Seq<char>>::empty(),
            r.as_map() == Map::<Seq<char>, Set<Seq<char>>>::empty(),
    {
        let r = Vocab { names: Vec::new(), lists: Vec::new() };
        proof {
            assert(r.key_seq() =~= Seq::<Seq<char>>::empty());
            assert(r.as_map() =~= Map::<Seq<char>, Set<Seq<char>>>::empty());
        }
        r
    }

    /// The number of users in the mapping.
    pub fn len(&self) -> (r: usize)
        ensures
            r == self.key_seq().len(),
    {
        self.names.len()
    }

    /// Looks a user up by identity (exact, case-sensitive match).
    pub fn find_user(&self, name: &String) -> (r: Option<usize>)
        ensures
            r is Some <==> self.contains_user(name@),
            r matches Some(i) ==> i < self.key_seq().len() && self.key_seq()[i as int] == name@,
    {
        let mut j: usize = 0;
        while j < self.names.len()
            invariant
                j <= self.names@.len(),
                forall|k: int| 0 <= k < j ==> self.key_seq()[k] != name@,
            decreases self.names@.len() - j,
        {
            if self.names[j].eq(name) {
                assert(self.key_seq()[j as int] == name@);
                return Some(j);
            }
            j += 1;
        }
        proof {
            if self.contains_user(name@) {
                let i = choose|i: int| 0 <= i < self.key_seq().len() && self.key_seq()[i] == name@;
                assert(false);
            }
        }
        None
    }

    /// Adds a user with an empty word set.
    pub fn push_user(&mut self, name: String)
        requires
            old(self).wf(),
            !old(self).contains_user(name@),
        ensures
            final(self).wf(),
            final(self).key_seq() == old(self).key_seq().push(name@),
            final(self).names@ == old(self).names@.push(name),
            final(self).as_map() == old(self).as_map().insert(name@, Set::<Seq<char>>::empty()),
    {
        let ghost old_self = *self;
        self.names.push(name);
        self.lists.push(Vec::new());
        proof {
            assert(self.key_seq() =~= old_self.key_seq().push(name@));
            let n = old_self.key_seq().len() as int;
            assert forall|i: int| 0 <= i < self.lists@.len() implies (#[trigger] self.list_at(
                i,
            )).no_duplicates() by {
                if i < n {
                    assert(self.list_at(i) == old_self.list_at(i));
                } else {
                    assert(self.list_at(i) =~= Seq::<Seq<char>>::empty());
                }
            }
            assert(self.word_set_at(n) =~= Set::<Seq<char>>::empty());
            assert forall|u: Seq<char>| #[trigger]
                self.as_map().dom().contains(u) implies self.as_map()[u] == old_self.as_map(
            ).insert(name@, Set::<Seq<char>>::empty())[u] by {
                if u == name@ {
                    self.lemma_key_index_of(n);
                } else {
                    let i = old_self.key_seq().index_of(u);
                    assert(old_self.key_seq()[i] == u);
                    assert(self.key_seq()[i] == u);
                    old_self.lemma_key_index_of(i);
                    self.lemma_key_index_of(i);
                    assert(self.list_at(i) == old_self.list_at(i));
                }
            }
            assert(self.as_map().dom() =~= old_self.as_map().insert(
                name@,
                Set::<Seq<char>>::empty(),
            ).dom());
            assert(self.as_map() =~= old_self.as_map().insert(name@, Set::<Seq<char>>::empty()));
        }
    }

    /// Adds one word to the word set of the entry at position `i`.
    pub fn add_word(&mut self, i: usize, w: String)
        requires
            old(self).wf(),
            i < old(self).key_seq().len(),
        ensures
            final(self).wf(),
            final(self).key_seq() == old(self).key_seq(),
            final(self).names@ == old(self).names@,
            final(self).as_map() == old(self).as_map().insert(
                old(self).key_seq()[i as int],
                old(self).word_set_at(i as int).insert(w@),
            ),
    {
        let ghost old_self = *self;
        let present = vec_contains_string(&self.lists[i], &w);
        if !present {
            let row: &mut Vec<String> = &mut self.lists[i];
            row.push(w);
        }
        proof {
            let ghost n = old_self.key_seq().len() as int;
            let u = old_self.key_seq()[i as int];
            if present {
                assert(self.lists@ =~= old_self.lists@);
                assert(self.word_set_at(i as int) =~= old_self.word_set_at(i as int).insert(w@));
            } else {
                assert(self.lists@ == old_self.lists@.update(
                    i as int,
                    self.lists@[i as int],
                ));
                assert(self.list_at(i as int) =~= old_self.list_at(i as int).push(w@));
                assert(!old_self.list_at(i as int).contains(w@));
                assert(self.list_at(i as int).drop_last() =~= old_self.list_at(i as int));
                assert(self.list_at(i as int).no_duplicates());
                assert(self.word_set_at(i as int) =~= old_self.word_set_at(i as int).insert(w@)) by {
                    Seq::lemma_to_set_insert_commutes(old_self.list_at(i as int), w@);
                    assert(old_self.list_at(i as int) + seq![w@] =~= self.list_at(i as int));
                }
            }
            assert(self.key_seq() =~= old_self.key_seq());
            assert forall|k: int| 0 <= k < self.lists@.len() implies (#[trigger] self.list_at(
                k,
            )).no_duplicates() by {
                if k != i {
                    assert(self.list_at(k) == old_self.list_at(k));
                }
            }
            assert forall|v: Seq<char>| #[trigger]
                self.as_map().dom().contains(v) implies self.as_map()[v] == old_self.as_map(
            ).insert(u, old_self.word_set_at(i as int).insert(w@))[v] by {
                let k = old_self.key_seq().index_of(v);
                assert(old_self.key_seq()[k] == v);
                old_self.lemma_key_index_of(k);
                self.lemma_key_index_of(k);
                if v == u {
                    old_self.lemma_key_index_of(i as int);
                } else {
                    assert(k != i);
                    assert(self.list_at(k) == old_self.list_at(k));
                }
            }
            assert(self.as_map() =~= old_self.as_map().insert(
                u,
                old_self.word_set_at(i as int).insert(w@),
            ));
        }
    }
}

/// Appending one element and converting to a set inserts that element.
pub(crate) proof fn lemma_to_set_push(s: Seq<Seq<char>>, x: Seq<char>)
    ensures
        s.push(x).to_set() == s.to_set().insert(x),
{
    Seq::lemma_to_set_insert_commutes(s, x);
    assert(s + seq![x] =~= s.push(x));
}

impl Vocab {
    /// Enters a user with the given words (duplicates ignored); an existing
    /// entry for that user is overwritten.
    pub fn insert(&mut self, name: String, ws: Vec<String>)
        requires
            old(self).wf(),
        ensures
            final(self).wf(),
            final(self).as_map() == old(self).as_map().insert(
                name@,
                ws@.map_values(|s: String| s@).to_set(),
            ),
            final(self).contains_user(name@),
            old(self).contains_user(name@) ==> final(self).key_seq() == old(self).key_seq(),
            !old(self).contains_user(name@) ==> final(self).key_seq() == old(self).key_seq().push(
                name@,
            ),
    {
        let ghost old_self = *self;
        let idx: usize;
        match self.find_user(&name) {
            Some(k) => {
                idx = k;
                let row: &mut Vec<String> = &mut self.lists[k];
                row.clear();
                proof {
                    assert(self.key_seq() =~= old_self.key_seq());
                    assert(self.list_at(k as int) =~= Seq::<Seq<char>>::empty());
                    assert forall|i: int| 0 <= i < self.lists@.len() implies (
                    #[trigger] self.list_at(i)).no_duplicates() by {
                        if i != k {
                            assert(self.list_at(i) == old_self.list_at(i));
                        }
                    }
                    assert(self.word_set_at(k as int) =~= Set::<Seq<char>>::empty());
                    assert forall|v: Seq<char>| #[trigger]
                        self.as_map().dom().contains(v) implies self.as_map()[v]
                        == old_self.as_map().insert(name@, Set::<Seq<char>>::empty())[v] by {
                        assert(old_self.key_seq().contains(v));
                        let kk = old_self.key_seq().index_of(v);
                        assert(old_self.key_seq()[kk] == v);
                        old_self.lemma_key_index_of(kk);
                        self.lemma_key_index_of(kk);
                        if v == name@ {
                            old_self.lemma_key_index_of(k as int);
                        } else {
                            assert(kk != k);
                            assert(self.list_at(kk) == old_self.list_at(kk));
                        }
                    }
                    assert(self.as_map() =~= old_self.as_map().insert(
                        name@,
                        Set::<Seq<char>>::empty(),
                    ));
                }
            },
            None => {
                idx = self.names.len();
                self.push_user(name.clone());
            },
        }
        proof {
            assert(self.key_seq()[idx as int] == name@);
            assert(self.contains_user(name@));
            self.lemma_key_index_of(idx as int);
            assert(self.as_map()[name@] =~= Set::<Seq<char>>::empty());
        }
        let ghost keys_mid = self.key_seq();
        let ghost m_mid = self.as_map();
        let ghost wsv = ws@.map_values(|s: String| s@);
        proof {
            assert(wsv.take(0).to_set() =~= Set::<Seq<char>>::empty());
            assert(m_mid.insert(name@, wsv.take(0).to_set()) =~= m_mid);
        }
        let mut j: usize = 0;
        while j < ws.len()
            invariant
                j <= wsv.len(),
                wsv == ws@.map_values(|s: String| s@),
                self.wf(),
                self.key_seq() == keys_mid,
                idx < keys_mid.len(),
                keys_mid[idx as int] == name@,
                self.as_map() == m_mid.insert(name@, wsv.take(j as int).to_set()),
            decreases ws@.len() - j,
        {
            let w = &ws[j];
            let wc = w.clone();
            proof {
                self.lemma_key_index_of(idx as int);
                assert(self.word_set_at(idx as int) == self.as_map()[name@]);
                assert(self.as_map()[name@] == wsv.take(j as int).to_set());
            }
            self.add_word(idx, wc);
            proof {
                assert(wsv.take(j + 1) =~= wsv.take(j as int).push(wsv[j as int]));
                lemma_to_set_push(wsv.take(j as int), wsv[j as int]);
                assert(wc@ == wsv[j as int]);
                assert(self.as_map() =~= m_mid.insert(name@, wsv.take(j + 1).to_set()));
            }
            j += 1;
        }
        proof {
            assert(wsv.take(wsv.len() as int) =~= wsv);
            assert(m_mid.insert(name@, wsv.to_set()) =~= old_self.as_map().insert(
                name@,
                wsv.to_set(),
            ));
            assert(self.key_seq()[idx as int] == name@);
            assert(self.contains_user(name@));
        }
    }

    /// The word list of a user, when the user is present.
    pub fn get_words(&self, name: &String) -> (r: Option<&Vec<String>>)
        requires
            self.wf(),
        ensures
            r is Some <==> self.contains_user(name@),
            r matches Some(v) ==> v@.map_values(|x: String| x@).to_set() == self.as_map()[name@],
    {
        match self.find_user(name) {
            Some(i) => {
                proof {
                    self.lemma_key_index_of(i as int);
                }
                Some(&self.lists[i])
            },
            None => None,
        }
    }
}

/// Maps each user to the set of distinct normalized words used across all of
/// that user's rows, and collects the distinct users in first-seen order.
///
/// Fails with `TypeMismatch` exactly when the table does not have four
/// columns or some identity or content cell is not text.
pub fn map_users_to_words(in_df: &Table) -> (r: Result<(Vocab, Vec<String>), AnalysisError>)
    ensures
        r is Ok <==> table_ncols(in_df) == 4 && rows_text_ok(table_view(in_df)),
        r matches Err(e) ==> e == AnalysisError::TypeMismatch,
        r matches Ok(p) ==> p.0.wf(),
        r matches Ok(p) ==> p.0.as_map() == spec_vocab(table_view(in_df)),
        r matches Ok(p) ==> p.0.key_seq() == spec_users(table_view(in_df)),
        r matches Ok(p) ==> p.1@.map_values(|s: String| s@) == spec_users(table_view(in_df)),
        r matches Ok(p) ==> p.1@.map_values(|s: String| s@).no_duplicates(),
{
    let ghost rows = table_view(in_df);
    let cols = table_cols(in_df);
    if cols != 4 {
        return Err(AnalysisError::TypeMismatch);
    }
    let n = table_nrows(in_df);
    let mut vocab = Vocab::new();
    let mut out_users: Vec<String> = Vec::new();
    let mut i: usize = 0;
    proof {
        assert(rows.take(0) =~= Seq::<Seq<ColumnVal>>::empty());
    }
    while i < n
        invariant
            i <= n,
            n == rows.len(),
            rows == table_view(in_df),
            table_ncols(in_df) == 4,
            forall|k: int| 0 <= k < rows.len() ==> (#[trigger] rows[k]).len() == 4,
            vocab.wf(),
            vocab.key_seq() == spec_users(rows.take(i as int)),
            vocab.as_map() == spec_vocab(rows.take(i as int)),
            out_users@.map_values(|s: String| s@) == vocab.key_seq(),
            rows_text_ok(rows.take(i as int)),
        decreases n - i,
    {
        let ghost prefix = rows.take(i as int);
        let user_cell = table_cell(in_df, i, 0);
        let name = match user_cell {
            ColumnVal::One(s) => s,
            ColumnVal::Two(_) => {
                proof {
                    assert(!(rows[i as int][0] is One));
                    assert(!rows_text_ok(rows));
                }
                return Err(AnalysisError::TypeMismatch);
            },
        };
        let content_cell = table_cell(in_df, i, 1);
        let content = match content_cell {
            ColumnVal::One(s) => s,
            ColumnVal::Two(_) => {
                proof {
                    assert(!(rows[i as int][1] is One));
                    assert(!rows_text_ok(rows));
                }
                return Err(AnalysisError::TypeMismatch);
            },
        };
        let ghost u = name@;
        proof {
            assert(u == row_user(rows[i as int]));
            assert(content@ == row_content(rows[i as int]));
            lemma_vocab_dom(prefix);
        }
        let idx: usize;
        match vocab.find_user(&name) {
            Some(k) => {
                idx = k;
                proof {
                    assert(vocab.as_map().insert(u, vocab.as_map()[u]) =~= vocab.as_map());
                }
            },
            None => {
                idx = vocab.len();
                vocab.push_user(name.clone());
                out_users.push(name.clone());
                proof {
                    assert(out_users@.map_values(|s: String| s@) =~= vocab.key_seq());
                }
            },
        }
        proof {
            assert(vocab.key_seq()[idx as int] == u);
            assert(vocab.contains_user(u));
        }
        let ghost m0 = spec_vocab(prefix);
        let ghost base = vocab.as_map()[u];
        let ghost keys_mid = vocab.key_seq();
        proof {
            assert(vocab.as_map() =~= m0.insert(u, base));
        }
        let toks = tokenize(content.as_str());
        let ghost tokseq = toks@.map_values(|t: Vec<char>| t@);
        let ghost keep = |t: Seq<char>| crate::words::keeps_word(t);
        let ghost norm = |t: Seq<char>| crate::words::normalized_word(t);
        proof {
            assert(tokseq == tokens_of(content@));
            assert(tokseq.take(0).filter(keep).map_values(norm).to_set() =~= Set::<
                Seq<char>,
            >::empty());
            assert(base.union(Set::<Seq<char>>::empty()) =~= base);
            assert(m0.insert(u, base.union(tokseq.take(0).filter(keep).map_values(norm).to_set()))
                =~= vocab.as_map());
        }
        let mut t: usize = 0;
        while t < toks.len()
            invariant
                t <= tokseq.len(),
                tokseq == toks@.map_values(|t2: Vec<char>| t2@),
                keep == (|t2: Seq<char>| crate::words::keeps_word(t2)),
                norm == (|t2: Seq<char>| crate::words::normalized_word(t2)),
                vocab.wf(),
                vocab.key_seq() == keys_mid,
                idx < keys_mid.len(),
                keys_mid[idx as int] == u,
                vocab.as_map() == m0.insert(
                    u,
                    base.union(tokseq.take(t as int).filter(keep).map_values(norm).to_set()),
                ),
            decreases toks@.len() - t,
        {
            let ghost pre_words = base.union(
                tokseq.take(t as int).filter(keep).map_values(norm).to_set(),
            );
            let tk = &toks[t];
            let res = normalize_token(tk);
            proof {
                broadcast use vstd::prelude::Seq::lemma_filter_push;

                assert(tokseq.take(t + 1) =~= tokseq.take(t as int).push(tokseq[t as int]));
                assert(tokseq[t as int] == tk@);
                let fp = tokseq.take(t as int).filter(keep);
                if keep(tk@) {
                    assert(tokseq.take(t + 1).filter(keep) == fp.push(tk@));
                    assert(fp.push(tk@).map_values(norm) =~= fp.map_values(norm).push(norm(tk@)));
                    lemma_to_set_push(fp.map_values(norm), norm(tk@));
                } else {
                    assert(tokseq.take(t + 1).filter(keep) == fp);
                }
            }
            match res {
                Some(w) => {
                    proof {
                        vocab.lemma_key_index_of(idx as int);
                        assert(vocab.word_set_at(idx as int) == vocab.as_map()[u]);
                        assert(vocab.as_map()[u] == pre_words);
                        assert(w@ == norm(tk@));
                    }
                    vocab.add_word(idx, w);
                    proof {
                        assert(pre_words.insert(norm(tk@)) =~= base.union(
                            tokseq.take(t + 1).filter(keep).map_values(norm).to_set(),
                        ));
                        assert(vocab.as_map() =~= m0.insert(
                            u,
                            base.union(tokseq.take(t + 1).filter(keep).map_values(norm).to_set()),
                        ));
                    }
                },
                None => {
                    proof {
                        assert(tokseq.take(t + 1).filter(keep).map_values(norm).to_set()
                            =~= tokseq.take(t as int).filter(keep).map_values(norm).to_set());
                        assert(vocab.as_map() =~= m0.insert(
                            u,
                            base.union(tokseq.take(t + 1).filter(keep).map_values(norm).to_set()),
                        ));
                    }
                },
            }
            t += 1;
        }
        proof {
            assert(tokseq.take(tokseq.len() as int) =~= tokseq);
            let ws = words_of(content@).to_set();
            assert(tokseq.filter(keep).map_values(norm) == words_of(content@));
            assert(rows.take(i + 1).drop_last() =~= prefix);
            assert(rows.take(i + 1).last() == rows[i as int]);
            if m0.dom().contains(u) {
                assert(base == m0[u]);
                assert(vocab.as_map() =~= spec_vocab(rows.take(i + 1)));
            } else {
                assert(base =~= Set::<Seq<char>>::empty());
                assert(base.union(ws) =~= ws);
                assert(vocab.as_map() =~= spec_vocab(rows.take(i + 1)));
            }
            assert(vocab.key_seq() == spec_users(rows.take(i + 1)));
            assert(rows_text_ok(rows.take(i + 1)));
        }
        i += 1;
    }
    proof {
        assert(rows.take(n as int) =~= rows);
        vocab.key_seq().unique_seq_to_set();
    }
    Ok((vocab, out_users))
}

/// Whether the list holds a string with exactly these characters.
pub fn vec_contains_string(v: &Vec<String>, s: &String) -> (r: bool)
    ensures
        r == v@.map_values(|x: String| x@).contains(s@),
{
    let mut j: usize = 0;
    while j < v.len()
        invariant
            j <= v@.len(),
            forall|k: int| 0 <= k < j ==> (#[trigger] v@[k])@ != s@,
        decreases v@.len() - j,
    {
        if v[j].eq(s) {
            assert(v@.map_values(|x: String| x@)[j as int] == s@);
            return true;
        }
        j += 1;
    }
    proof {
        if v@.map_values(|x: String| x@).contains(s@) {
            let m = v@.map_values(|x: String| x@);
            let i = choose|i: int| 0 <= i < m.len() && m[i] == s@;
            assert(v@[i]@ == s@);
            assert(false);
        }
    }
    false
}

} // verus!
