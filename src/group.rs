//! The distinct declared types of a record, in the order first met.
//!
//! Types are compared by their text: two spellings of one type (an alias and
//! its target) are two types here.

use vstd::prelude::*;
use itertools::Itertools;

verus! {

pub open spec fn texts(v: Seq<String>) -> Seq<Seq<char>> {
    v.map_values(|s: String| s@)
}

/// The values of `s` without repetition, each where it first occurs.
pub open spec fn first_occurrences(s: Seq<Seq<char>>) -> Seq<Seq<char>>
    decreases s.len(),
{
    if s.len() == 0 {
        s
    } else {
        let p = first_occurrences(s.drop_last());
        if p.contains(s.last()) {
            p
        } else {
            p.push(s.last())
        }
    }
}

/// No value occurs twice in `s`.
pub open spec fn no_repeats(s: Seq<Seq<char>>) -> bool {
    forall|i: int, j: int| 0 <= i < j < s.len() ==> s[i] != s[j]
}

/// Every value of `s` is kept, each exactly once, and nothing else is added.
pub proof fn lemma_first_occurrences(s: Seq<Seq<char>>)
    ensures
        no_repeats(first_occurrences(s)),
        forall|x: Seq<char>| s.contains(x) <==> first_occurrences(s).contains(x),
    decreases s.len(),
{
    if s.len() > 0 {
        lemma_first_occurrences(s.drop_last());
        let p = first_occurrences(s.drop_last());
        assert forall|x: Seq<char>| s.contains(x) <==> first_occurrences(s).contains(x) by {
            if s.contains(x) {
                let i = choose|i: int| 0 <= i < s.len() && s[i] == x;
                if i < s.len() - 1 {
                    assert(s.drop_last()[i] == x);
                }
            }
            if s.drop_last().contains(x) {
                let i = choose|i: int| 0 <= i < s.len() - 1 && s.drop_last()[i] == x;
                assert(s[i] == x);
            }
            if !p.contains(s.last()) {
                if p.push(s.last()).contains(x) {
                    let i = choose|i: int| 0 <= i < p.len() + 1 && p.push(s.last())[i] == x;
                    if i < p.len() {
                        assert(p[i] == x);
                    }
                }
                if p.contains(x) {
                    let i = choose|i: int| 0 <= i < p.len() && p[i] == x;
                    assert(p.push(s.last())[i] == x);
                }
                assert(p.push(s.last())[p.len() as int] == s.last());
            }
            assert(s[s.len() - 1] == s.last());
        }
    }
}

/// Relies on `Itertools::unique`: yields each value the first time it is met
/// and skips it afterwards, so the first occurrences come out in input order.
#[verifier::external_body]
pub(crate) fn unique_texts(v: &Vec<String>) -> (r: Vec<String>)
    ensures
        texts(r@) == first_occurrences(texts(v@)),
{
    v.iter().cloned().unique().collect()
}

} // verus!
