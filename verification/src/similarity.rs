//! The similarity function: a symmetric Jaccard score between two users'
//! vocabularies, kept as an exact ratio of word counts.
use vstd::prelude::*;
use vstd::set_lib::lemma_len_subset;
use vstd::set_lib::lemma_subset_equality;
use crate::AnalysisError;
use crate::vocab::Vocab;
use crate::vocab::lemma_to_set_push;
use crate::vocab::vec_contains_string;

verus! {

broadcast use vstd::seq_lib::seq_to_set_is_finite, vstd::set_lib::lemma_set_subset_finite;

/// A similarity score, as the exact ratio `shared / total`: `shared` counts
/// the distinct words used by both users, `total` the distinct words used by
/// either. Both vocabularies empty is the degenerate case `0 / 0`, read as
/// score 0.
#[derive(Debug, Clone, Copy, PartialEq, Eq, Structural)]
pub struct Similarity {
    pub shared: u128,
    pub total: u128,
}

/// The number of words two users' vocabularies share.
pub open spec fn sim_shared(m: Map<Seq<char>, Set<Seq<char>>>, a: Seq<char>, b: Seq<char>) -> nat {
    m[a].intersect(m[b]).len()
}

/// The number of words either of two users used.
pub open spec fn sim_total(m: Map<Seq<char>, Set<Seq<char>>>, a: Seq<char>, b: Seq<char>) -> nat {
    m[a].union(m[b]).len()
}

/// Finds the similarity score of two users: the number of distinct words
/// they share, divided by the number of distinct words either used. Fails
/// with `NotFound` exactly when either identity is absent from the mapping.
pub fn find_similarities(person1: String, person2: String, dict: &Vocab) -> (r: Result<
    Similarity,
    AnalysisError,
>)
    requires
        dict.wf(),
    ensures
        r is Ok <==> dict.contains_user(person1@) && dict.contains_user(person2@),
        r matches Err(e) ==> e == AnalysisError::NotFound,
        r matches Ok(s) ==> s.shared == sim_shared(dict.as_map(), person1@, person2@),
        r matches Ok(s) ==> s.total == sim_total(dict.as_map(), person1@, person2@),
        r matches Ok(s) ==> s.shared <= s.total,
        r matches Ok(s) ==> s.total <= 2 * (usize::MAX as u128),
{
    let i = match dict.find_user(&person1) {
        Some(i) => i,
        None => {
            return Err(AnalysisError::NotFound);
        },
    };
    let j = match dict.find_user(&person2) {
        Some(j) => j,
        None => {
            return Err(AnalysisError::NotFound);
        },
    };
    proof {
        dict.lemma_key_index_of(i as int);
        dict.lemma_key_index_of(j as int);
    }
    let ghost sa = dict.word_set_at(i as int);
    let ghost sb = dict.word_set_at(j as int);
    let va = &dict.lists[i];
    let vb = &dict.lists[j];
    let ghost qa = dict.list_at(i as int);
    let ghost qb = dict.list_at(j as int);
    proof {
        assert(sa == dict.as_map()[person1@]);
        assert(sb == dict.as_map()[person2@]);
        qa.unique_seq_to_set();
        qb.unique_seq_to_set();
    }

    let mut shared: u128 = 0;
    let mut k: usize = 0;
    proof {
        assert(qa.take(0).to_set() =~= Set::<Seq<char>>::empty());
        assert(qa.take(0).to_set().intersect(sb) =~= Set::<Seq<char>>::empty());
    }
    while k < va.len()
        invariant
            k <= qa.len(),
            qa == va@.map_values(|s: String| s@),
            qb == vb@.map_values(|s: String| s@),
            sb == qb.to_set(),
            qa.no_duplicates(),
            shared == qa.take(k as int).to_set().intersect(sb).len(),
            shared <= k,
        decreases qa.len() - k,
    {
        let present = vec_contains_string(vb, &va[k]);
        proof {
            let x = qa[k as int];
            let prev = qa.take(k as int).to_set();
            assert(qa.take(k + 1) =~= qa.take(k as int).push(x));
            lemma_to_set_push(qa.take(k as int), x);
            assert(!prev.contains(x)) by {
                if prev.contains(x) {
                    let idx = choose|idx: int| 0 <= idx < k && qa.take(k as int)[idx] == x;
                    assert(qa[idx] == x);
                    assert(qa[k as int] == x);
                }
            }
            if present {
                assert(sb.contains(x));
                assert(prev.insert(x).intersect(sb) =~= prev.intersect(sb).insert(x));
                assert(!prev.intersect(sb).contains(x));
                assert(prev.intersect(sb).finite());
            } else {
                assert(!sb.contains(x));
                assert(prev.insert(x).intersect(sb) =~= prev.intersect(sb));
            }
        }
        if present {
            shared += 1;
        }
        k += 1;
    }
    proof {
        assert(qa.take(qa.len() as int) =~= qa);
    }

    let mut extra: u128 = 0;
    let mut h: usize = 0;
    proof {
        assert(qb.take(0).to_set() =~= Set::<Seq<char>>::empty());
        assert(qb.take(0).to_set().difference(sa) =~= Set::<Seq<char>>::empty());
    }
    while h < vb.len()
        invariant
            h <= qb.len(),
            qa == va@.map_values(|s: String| s@),
            qb == vb@.map_values(|s: String| s@),
            sa == qa.to_set(),
            qb.no_duplicates(),
            extra == qb.take(h as int).to_set().difference(sa).len(),
            extra <= h,
        decreases qb.len() - h,
    {
        let present = vec_contains_string(va, &vb[h]);
        proof {
            let x = qb[h as int];
            let prev = qb.take(h as int).to_set();
            assert(qb.take(h + 1) =~= qb.take(h as int).push(x));
            lemma_to_set_push(qb.take(h as int), x);
            assert(!prev.contains(x)) by {
                if prev.contains(x) {
                    let idx = choose|idx: int| 0 <= idx < h && qb.take(h as int)[idx] == x;
                    assert(qb[idx] == x);
                    assert(qb[h as int] == x);
                }
            }
            if present {
                assert(sa.contains(x));
                assert(prev.insert(x).difference(sa) =~= prev.difference(sa));
            } else {
                assert(!sa.contains(x));
                assert(prev.insert(x).difference(sa) =~= prev.difference(sa).insert(x));
                assert(!prev.difference(sa).contains(x));
                assert(prev.difference(sa).finite());
            }
        }
        if !present {
            extra += 1;
        }
        h += 1;
    }
    let la = va.len();
    let total: u128 = (la as u128) + extra;
    proof {
        assert(qb.take(qb.len() as int) =~= qb);
        assert(sa.len() == la);
        vstd::set_lib::lemma_set_disjoint_lens(sa, sb.difference(sa));
        assert(sa.disjoint(sb.difference(sa)));
        assert(sa + sb.difference(sa) =~= sa.union(sb));
        assert(sa.union(sb).len() == sa.len() + sb.difference(sa).len());
        assert(sa.intersect(sb).subset_of(sa.union(sb)));
        lemma_len_subset(sa.intersect(sb), sa.union(sb));
    }
    Ok(Similarity { shared, total })
}

/// Symmetry: the similarity score does not depend on the order of the two
/// users, for any mapping and any pair of identities.
pub proof fn lemma_similarity_symmetric(
    m: Map<Seq<char>, Set<Seq<char>>>,
    a: Seq<char>,
    b: Seq<char>,
)
    ensures
        sim_shared(m, a, b) == sim_shared(m, b, a),
        sim_total(m, a, b) == sim_total(m, b, a),
{
    assert(m[a].intersect(m[b]) =~= m[b].intersect(m[a]));
    assert(m[a].union(m[b]) =~= m[b].union(m[a]));
}

/// Range: the score `shared / total` lies in [0, 1]; it is 1 exactly when
/// the two vocabularies are identical and non-empty, and 0 exactly when they
/// are disjoint.
pub proof fn lemma_similarity_range(m: Map<Seq<char>, Set<Seq<char>>>, a: Seq<char>, b: Seq<char>)
    requires
        m[a].finite(),
        m[b].finite(),
    ensures
        sim_shared(m, a, b) <= sim_total(m, a, b),
        (sim_shared(m, a, b) == sim_total(m, a, b) && sim_total(m, a, b) > 0) <==> (m[a] == m[b]
            && m[a].len() > 0),
        sim_shared(m, a, b) == 0 <==> m[a].disjoint(m[b]),
{
    let sa = m[a];
    let sb = m[b];
    let inter = sa.intersect(sb);
    let uni = sa.union(sb);
    assert(inter.subset_of(uni));
    assert(uni.finite());
    assert(inter.finite());
    lemma_len_subset(inter, uni);

    if inter.len() == uni.len() && uni.len() > 0 {
        lemma_subset_equality(inter, uni);
        assert(inter == uni);
        assert(sa =~= sb) by {
            assert forall|x: Seq<char>| sa.contains(x) implies sb.contains(x) by {
                assert(uni.contains(x));
                assert(inter.contains(x));
            }
            assert forall|x: Seq<char>| sb.contains(x) implies sa.contains(x) by {
                assert(uni.contains(x));
                assert(inter.contains(x));
            }
        }
        assert(sa.len() > 0) by {
            assert(uni =~= sa);
        }
    }
    if sa == sb && sa.len() > 0 {
        assert(inter =~= sa);
        assert(uni =~= sa);
    }

    if inter.len() == 0 {
        assert(inter =~= Set::<Seq<char>>::empty()) by {
            vstd::set_lib::lemma_set_empty_equivalency_len(inter);
        }
        assert(sa.disjoint(sb)) by {
            assert forall|x: Seq<char>| sa.contains(x) implies !sb.contains(x) by {
                if sb.contains(x) {
                    assert(inter.contains(x));
                }
            }
        }
    }
    if sa.disjoint(sb) {
        assert(inter =~= Set::<Seq<char>>::empty());
    }
}

} // verus!
