//! Sets of names, held as lists in strictly ascending order.

use crate::exclusion::texts;
use crate::text::{
    compare_names, lemma_bytes_before_is_total, lemma_bytes_before_is_transitive,
    lemma_encoding_is_injective, name_before, Precedence,
};
use vstd::prelude::*;
use vstd::utf8::*;

verus! {

/// Whether the names of a list stand in strictly ascending order, so that
/// none of them occurs twice.
pub open spec fn strictly_ascending(names: Seq<Seq<char>>) -> bool {
    forall|i: int, j: int|
        0 <= i < j < names.len() ==> name_before(#[trigger] names[i], #[trigger] names[j])
}

/// Puts a name into a list of names that is in ascending order, at its
/// place in that order, unless the list holds it already.
pub fn insert_name(set: &mut Vec<String>, name: &str)
    requires
        strictly_ascending(texts(old(set)@)),
    ensures
        strictly_ascending(texts(final(set)@)),
        forall|n: Seq<char>|
            texts(final(set)@).contains(n) <==> (texts(old(set)@).contains(n) || n == name@),
{
    let ghost before = texts(set@);
    let mut i: usize = 0;
    let mut searching = true;
    let mut held = false;
    while searching && i < set.len()
        invariant
            i <= set@.len(),
            set@ == old(set)@,
            before == texts(set@),
            forall|k: int| 0 <= k < i ==> name_before(#[trigger] before[k], name@),
            !searching ==> i < set@.len() && !name_before(before[i as int], name@),
            !searching ==> held == (before[i as int] == name@),
            searching ==> !held,
        decreases set@.len() - i + if searching {
            1int
        } else {
            0int
        },
    {
        let order = compare_names(set[i].as_str(), name);
        match order {
            Precedence::Lower => {
                i = i + 1;
            },
            Precedence::Equal => {
                proof {
                    lemma_encoding_is_injective(before[i as int], name@);
                }
                searching = false;
                held = true;
            },
            Precedence::Higher => {
                searching = false;
            },
        }
    }
    if held {
        return ;
    }
    proof {
        if i < set@.len() {
            if encode_utf8(before[i as int]) == encode_utf8(name@) {
                lemma_encoding_is_injective(before[i as int], name@);
            }
            lemma_bytes_before_is_total(encode_utf8(before[i as int]), encode_utf8(name@));
        }
        before.insert_ensures(i as int, name@);
    }
    set.insert(i, String::from_str(name));
    let ghost after = texts(set@);
    assert(after =~= before.insert(i as int, name@));
    assert forall|a: int, b: int| 0 <= a < b < after.len() implies name_before(
        #[trigger] after[a],
        #[trigger] after[b],
    ) by {
        if b < i {
        } else if b == i {
        } else if a == i {
            if b - 1 > i {
                lemma_bytes_before_is_transitive(
                    encode_utf8(name@),
                    encode_utf8(before[i as int]),
                    encode_utf8(before[b - 1]),
                );
            }
        }
    }
    assert forall|n: Seq<char>| after.contains(n) <==> (before.contains(n) || n == name@) by {
        if before.contains(n) {
            let k = choose|k: int| 0 <= k < before.len() && before[k] == n;
            if k < i {
                assert(after[k] == n);
            }
        }
    }
}

/// Makes a set of a list of names: the same names, each once, in ascending
/// order.
pub fn name_set(names: &Vec<String>) -> (set: Vec<String>)
    ensures
        strictly_ascending(texts(set@)),
        forall|n: Seq<char>| texts(set@).contains(n) <==> texts(names@).contains(n),
{
    let ghost given = texts(names@);
    let mut set: Vec<String> = Vec::new();
    let mut i: usize = 0;
    while i < names.len()
        invariant
            i <= names@.len(),
            given == texts(names@),
            strictly_ascending(texts(set@)),
            forall|n: Seq<char>|
                texts(set@).contains(n) <==> given.subrange(0, i as int).contains(n),
        decreases names@.len() - i,
    {
        insert_name(&mut set, names[i].as_str());
        proof {
            let upto = given.subrange(0, i as int + 1);
            let name = names@[i as int]@;
            assert forall|n: Seq<char>| texts(set@).contains(n) <==> upto.contains(n) by {
                if n == name {
                    assert(upto[i as int] == n);
                }
            }
        }
        i = i + 1;
    }
    assert(given.subrange(0, names@.len() as int) =~= given);
    set
}

} // verus!
