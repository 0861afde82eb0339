//! Word normalization: comment content is split on single spaces, each token
//! is stripped to its alphanumeric characters and lowercased, and tokens that
//! end up empty are discarded.
use vstd::prelude::*;
use vstd::string::StrSliceExecFns;

verus! {

/// The character sequence that `str::to_lowercase` returns for the given
/// characters; it depends on those characters alone.
pub uninterp spec fn lower_of(s: Seq<char>) -> Seq<char>;

/// Whether `char::is_alphanumeric` accepts the character; a fixed property
/// of the character alone.
pub uninterp spec fn is_alnum(c: char) -> bool;

/// Relies on char::is_alphanumeric: a pure predicate of the character.
#[verifier::external_body]
fn char_alphanumeric(c: char) -> (r: bool)
    ensures
        r == is_alnum(c),
{
    c.is_alphanumeric()
}

/// Relies on str::to_lowercase: the result depends on the characters alone.
#[verifier::external_body]
fn lowercased(s: &str) -> (r: String)
    ensures
        r@ == lower_of(s@),
{
    s.to_lowercase()
}

/// Relies on String's FromIterator over char: collecting characters yields
/// the string of exactly those characters.
#[verifier::external_body]
fn string_from_chars(cs: &Vec<char>) -> (r: String)
    ensures
        r@ == cs@,
{
    cs.iter().collect()
}

/// One pass of splitting on single spaces: the finished tokens of the scanned
/// prefix, and the token still being collected.
pub open spec fn token_scan(s: Seq<char>) -> (Seq<Seq<char>>, Seq<char>)
    decreases s.len(),
{
    if s.len() == 0 {
        (Seq::empty(), Seq::empty())
    } else {
        let (done, cur) = token_scan(s.drop_last());
        if s.last() == ' ' {
            if cur.len() > 0 {
                (done.push(cur), Seq::empty())
            } else {
                (done, Seq::empty())
            }
        } else {
            (done, cur.push(s.last()))
        }
    }
}

/// The non-empty tokens of a content string, split on single spaces.
pub open spec fn tokens_of(s: Seq<char>) -> Seq<Seq<char>> {
    let (done, cur) = token_scan(s);
    if cur.len() > 0 {
        done.push(cur)
    } else {
        done
    }
}

/// A token survives normalization when at least one alphanumeric character
/// remains after stripping.
pub open spec fn keeps_word(w: Seq<char>) -> bool {
    w.filter(|c: char| is_alnum(c)).len() > 0
}

/// The normalized form of a token: alphanumeric characters only, lowercased.
pub open spec fn normalized_word(w: Seq<char>) -> Seq<char> {
    lower_of(w.filter(|c: char| is_alnum(c)))
}

/// All normalized words of one content string, in token order.
pub open spec fn words_of(content: Seq<char>) -> Seq<Seq<char>> {
    tokens_of(content).filter(|t: Seq<char>| keeps_word(t)).map_values(
        |t: Seq<char>| normalized_word(t),
    )
}

/// Splits content on single space characters; empty tokens are discarded.
pub fn tokenize(content: &str) -> (r: Vec<Vec<char>>)
    ensures
        r@.map_values(|t: Vec<char>| t@) == tokens_of(content@),
{
    let n = content.unicode_len();
    let mut done: Vec<Vec<char>> = Vec::new();
    let mut cur: Vec<char> = Vec::new();
    let mut i: usize = 0;
    while i < n
        invariant
            i <= n,
            n == content@.len(),
            (done@.map_values(|t: Vec<char>| t@), cur@) == token_scan(content@.take(i as int)),
        decreases n - i,
    {
        let c = content.get_char(i);
        proof {
            assert(content@.take(i + 1).drop_last() =~= content@.take(i as int));
            assert(content@.take(i + 1).last() == content@[i as int]);
        }
        if c == ' ' {
            if cur.len() > 0 {
                done.push(cur);
                cur = Vec::new();
            }
        } else {
            cur.push(c);
        }
        i += 1;
    }
    proof {
        assert(content@.take(n as int) =~= content@);
    }
    if cur.len() > 0 {
        done.push(cur);
    }
    done
}

/// Normalizes one token: keeps its alphanumeric characters, lowercases them,
/// and reports `None` when nothing remains.
pub fn normalize_token(tok: &Vec<char>) -> (r: Option<String>)
    ensures
        r is Some <==> keeps_word(tok@),
        r matches Some(s) ==> s@ == normalized_word(tok@),
{
    let mut kept: Vec<char> = Vec::new();
    let mut i: usize = 0;
    while i < tok.len()
        invariant
            i <= tok@.len(),
            kept@ == tok@.take(i as int).filter(|c: char| is_alnum(c)),
        decreases tok@.len() - i,
    {
        let c = tok[i];
        proof {
            assert(tok@.take(i + 1).drop_last() =~= tok@.take(i as int));
            assert(tok@.take(i + 1).last() == tok@[i as int]);
            reveal(Seq::filter);
        }
        if char_alphanumeric(c) {
            kept.push(c);
        }
        i += 1;
    }
    proof {
        assert(tok@.take(tok@.len() as int) =~= tok@);
    }
    if kept.len() > 0 {
        let s = string_from_chars(&kept);
        Some(lowercased(s.as_str()))
    } else {
        None
    }
}

} // verus!
