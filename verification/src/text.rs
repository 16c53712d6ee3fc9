//! Character-sequence helpers shared by the identifier and text modules.

use vstd::prelude::*;
use vstd::std_specs::iter::IteratorSpec;

verus! {

/// Joins parts with `/` between them (no separator before the first part).
pub open spec fn join_parts(parts: Seq<Seq<char>>) -> Seq<char>
    decreases parts.len(),
{
    if parts.len() == 0 {
        Seq::empty()
    } else if parts.len() == 1 {
        parts[0]
    } else {
        parts[0] + seq!['/'] + join_parts(parts.drop_first())
    }
}

/// Index of the first occurrence of `c` in `s`, if any.
pub open spec fn first_index_of(s: Seq<char>, c: char) -> Option<int>
    decreases s.len(),
{
    if s.len() == 0 {
        None
    } else if s[0] == c {
        Some(0)
    } else {
        match first_index_of(s.drop_first(), c) {
            Some(i) => Some(i + 1),
            None => None,
        }
    }
}

/// Splits `s` at every `/`; the result always has at least one element.
pub open spec fn split_parts(s: Seq<char>) -> Seq<Seq<char>>
    decreases s.len(),
{
    match first_index_of(s, '/') {
        None => seq![s],
        Some(i) => {
            if 0 <= i < s.len() {
                seq![s.subrange(0, i)] + split_parts(s.subrange(i + 1, s.len() as int))
            } else {
                seq![s]
            }
        },
    }
}

pub proof fn lemma_first_index_of(s: Seq<char>, c: char)
    ensures
        match first_index_of(s, c) {
            Some(i) => 0 <= i < s.len() && s[i] == c && forall|j: int| 0 <= j < i ==> s[j] != c,
            None => forall|j: int| 0 <= j < s.len() ==> s[j] != c,
        },
    decreases s.len(),
{
    if s.len() > 0 && s[0] != c {
        lemma_first_index_of(s.drop_first(), c);
        match first_index_of(s.drop_first(), c) {
            Some(i) => {
                assert forall|j: int| 0 <= j < i + 1 implies s[j] != c by {
                    if j > 0 {
                        assert(s[j] == s.drop_first()[j - 1]);
                    }
                }
            },
            None => {
                assert forall|j: int| 0 <= j < s.len() implies s[j] != c by {
                    if j > 0 {
                        assert(s[j] == s.drop_first()[j - 1]);
                    }
                }
            },
        }
    }
}

/// `first_index_of` finds `k` when `k` is the first position holding `c`.
pub proof fn lemma_first_index_is(s: Seq<char>, c: char, k: int)
    requires
        0 <= k < s.len(),
        s[k] == c,
        forall|j: int| 0 <= j < k ==> s[j] != c,
    ensures
        first_index_of(s, c) == Some(k),
{
    lemma_first_index_of(s, c);
}

/// `first_index_of` finds nothing when no position holds `c`.
pub proof fn lemma_first_index_none(s: Seq<char>, c: char)
    requires
        forall|j: int| 0 <= j < s.len() ==> s[j] != c,
    ensures
        first_index_of(s, c) is None,
{
    lemma_first_index_of(s, c);
}

/// Joining a sequence extended by one part adds a separator and the part.
pub proof fn lemma_join_push(parts: Seq<Seq<char>>, p: Seq<char>)
    requires
        parts.len() > 0,
    ensures
        join_parts(parts.push(p)) == join_parts(parts) + seq!['/'] + p,
    decreases parts.len(),
{
    if parts.len() == 1 {
        assert(parts.push(p).drop_first() =~= seq![p]);
        assert(join_parts(seq![p]) == p);
    } else {
        assert(parts.push(p).drop_first() =~= parts.drop_first().push(p));
        lemma_join_push(parts.drop_first(), p);
        assert(join_parts(parts.push(p)) =~= parts[0] + seq!['/'] + (join_parts(parts.drop_first())
            + seq!['/'] + p));
        assert(join_parts(parts) =~= parts[0] + seq!['/'] + join_parts(parts.drop_first()));
        assert(join_parts(parts.push(p)) =~= join_parts(parts) + seq!['/'] + p);
    }
}

/// Joining what was split gives back the sequence that was split.
pub proof fn lemma_join_split(s: Seq<char>)
    ensures
        join_parts(split_parts(s)) == s,
        split_parts(s).len() > 0,
    decreases s.len(),
{
    lemma_first_index_of(s, '/');
    match first_index_of(s, '/') {
        None => {},
        Some(i) => {
            let rest = s.subrange(i + 1, s.len() as int);
            lemma_join_split(rest);
            let ps = seq![s.subrange(0, i)] + split_parts(rest);
            assert(ps.drop_first() =~= split_parts(rest));
            assert(s =~= s.subrange(0, i) + seq!['/'] + rest);
        },
    }
}

/// Splitting a join of parts that hold no separator gives the parts back.
pub proof fn lemma_split_join(parts: Seq<Seq<char>>)
    requires
        parts.len() > 0,
        forall|i: int, j: int| 0 <= i < parts.len() && 0 <= j < parts[i].len() ==> parts[i][j] != '/',
    ensures
        split_parts(join_parts(parts)) == parts,
    decreases parts.len(),
{
    let s = join_parts(parts);
    if parts.len() == 1 {
        lemma_first_index_of(s, '/');
        assert(first_index_of(s, '/') is None);
        assert(split_parts(s) =~= parts);
    } else {
        let rest = parts.drop_first();
        lemma_split_join(rest);
        assert(s == parts[0] + seq!['/'] + join_parts(rest));
        lemma_first_index_of(s, '/');
        let k = parts[0].len() as int;
        assert(s[k] == '/');
        match first_index_of(s, '/') {
            Some(i) => {
                if i < k {
                    assert(s[i] == parts[0][i]);
                }
                assert(i == k);
                assert(s.subrange(0, k) =~= parts[0]);
                assert(s.subrange(k + 1, s.len() as int) =~= join_parts(rest));
                assert(split_parts(s) =~= seq![parts[0]] + rest);
                assert(parts =~= seq![parts[0]] + rest);
            },
            None => {},
        }
    }
}

/// Appends a character to a string.
#[verifier::external_body]
pub(crate) fn push_char(s: &mut String, c: char)
    ensures
        final(s)@ == old(s)@.push(c),
{
    s.push(c);
}

/// Compares two string slices by their characters.
#[verifier::external_body]
pub(crate) fn str_eq(a: &str, b: &str) -> (r: bool)
    ensures
        r == (a@ == b@),
{
    a == b
}

/// The characters of a string slice, in order.
pub fn chars_of(s: &str) -> (r: Vec<char>)
    ensures
        r@ == s@,
{
    broadcast use vstd::string::axiom_spec_iter, vstd::string::next_postcondition;

    let mut it = s.chars();
    let mut r: Vec<char> = Vec::new();
    loop
        invariant
            r@ + it.remaining() == s@,
        ensures
            r@ == s@,
        decreases s@.len() - r@.len(),
    {
        match it.next() {
            Some(c) => {
                r.push(c);
            },
            None => {
                break;
            },
        }
    }
    r
}

} // verus!
