//! What a configuration registers: sources, and loaders and parsers under
//! their keys.
use crate::source::Url;
use crate::text::holds;
use vstd::prelude::*;

verus! {

/// A loader or a parser with the keys under which it was registered: the
/// schemes of a loader, the formats of a parser.
pub struct Registered<T> {
    pub keys: Vec<String>,
    pub item: T,
}

/// A source, with the loader that is bound to it where there is one.
pub struct Source<L> {
    pub url: Url,
    pub loader: Option<L>,
}

/// The index of the first of `list` that is registered under `key`, or `-1`.
pub open spec fn first_taker<T>(list: Seq<Registered<T>>, key: Seq<char>) -> int
    decreases list.len(),
{
    if list.len() == 0 {
        -1
    } else {
        let before = first_taker(list.drop_last(), key);
        if before >= 0 {
            before
        } else if list.last().keys.deep_view().contains(key) {
            list.len() - 1
        } else {
            -1
        }
    }
}

/// What `first_taker` finds: the least index registered under the key.
pub proof fn lemma_first_taker<T>(list: Seq<Registered<T>>, key: Seq<char>)
    ensures
        -1 <= first_taker(list, key) < list.len(),
        first_taker(list, key) >= 0 ==> list[first_taker(list, key)].keys.deep_view().contains(key),
        forall|j: int|
            0 <= j < list.len() && (first_taker(list, key) < 0 || j < first_taker(list, key))
                ==> !(#[trigger] list[j]).keys.deep_view().contains(key),
    decreases list.len(),
{
    if list.len() > 0 {
        lemma_first_taker(list.drop_last(), key);
        assert forall|j: int|
            0 <= j < list.len() && (first_taker(list, key) < 0 || j < first_taker(list, key))
            implies !(#[trigger] list[j]).keys.deep_view().contains(key) by {
            if j < list.len() - 1 {
                assert(list.drop_last()[j] == list[j]);
            }
        }
    }
}

/// The first of `list` that is registered under `key`, if any is.
pub fn find_taker<T>(list: &[Registered<T>], key: &String) -> (found: Option<usize>)
    ensures
        match found {
            Some(i) => i < list@.len() && first_taker(list@, key@) == i,
            None => first_taker(list@, key@) < 0,
        },
{
    let mut i: usize = 0;
    while i < list.len()
        invariant
            i <= list@.len(),
            forall|j: int| 0 <= j < i ==> !(#[trigger] list@[j]).keys.deep_view().contains(key@),
        decreases list@.len() - i,
    {
        if holds(list[i].keys.as_slice(), key) {
            proof {
                lemma_first_taker(list@, key@);
            }
            return Some(i);
        }
        i += 1;
    }
    proof {
        lemma_first_taker(list@, key@);
    }
    None
}

} // verus!
