//! Byte search.

use vstd::prelude::*;

verus! {

/// The index of the first occurrence of `needle` in `haystack`, if any.
pub open spec fn first_index_of(haystack: Seq<u8>, needle: u8) -> Option<int>
    decreases haystack.len(),
{
    if haystack.len() == 0 {
        None
    } else if haystack[0] == needle {
        Some(0)
    } else {
        match first_index_of(haystack.skip(1), needle) {
            Some(i) => Some(i + 1),
            None => None,
        }
    }
}

/// `first_index_of` finds the least index that holds `needle`, and `None`
/// exactly when no index does.
pub proof fn lemma_first_index_of(haystack: Seq<u8>, needle: u8)
    ensures
        match first_index_of(haystack, needle) {
            Some(i) => {
                &&& 0 <= i < haystack.len()
                &&& haystack[i] == needle
                &&& forall|j: int| 0 <= j < i ==> haystack[j] != needle
            },
            None => forall|j: int| 0 <= j < haystack.len() ==> haystack[j] != needle,
        },
    decreases haystack.len(),
{
    if haystack.len() == 0 {
    } else if haystack[0] == needle {
    } else {
        let rest = haystack.skip(1);
        lemma_first_index_of(rest, needle);
        match first_index_of(rest, needle) {
            Some(i) => {
                assert forall|j: int| 0 <= j < i + 1 implies haystack[j] != needle by {
                    if j > 0 {
                        assert(rest[j - 1] == haystack[j]);
                    }
                }
            },
            None => {
                assert forall|j: int| 0 <= j < haystack.len() implies haystack[j] != needle by {
                    if j > 0 {
                        assert(rest[j - 1] == haystack[j]);
                    }
                }
            },
        }
    }
}

/// Any index that holds `needle` with none before it is the one that
/// `first_index_of` reports.
pub proof fn lemma_first_index_of_unique(haystack: Seq<u8>, needle: u8, i: int)
    requires
        0 <= i < haystack.len(),
        haystack[i] == needle,
        forall|j: int| 0 <= j < i ==> haystack[j] != needle,
    ensures
        first_index_of(haystack, needle) == Some(i),
{
    lemma_first_index_of(haystack, needle);
}

/// Searches `haystack` for the first byte equal to `needle`.
pub fn memchr(needle: u8, haystack: &[u8]) -> (found: Option<usize>)
    ensures
        first_index_of(haystack@, needle) == match found {
            Some(i) => Some(i as int),
            None => None,
        },
        match found {
            Some(i) => {
                &&& i < haystack@.len()
                &&& haystack@[i as int] == needle
                &&& forall|j: int| 0 <= j < i ==> haystack@[j] != needle
            },
            None => forall|j: int| 0 <= j < haystack@.len() ==> haystack@[j] != needle,
        },
{
    let mut i: usize = 0;
    while i < haystack.len()
        invariant
            i <= haystack.len(),
            forall|j: int| 0 <= j < i ==> haystack@[j] != needle,
        decreases haystack.len() - i,
    {
        if haystack[i] == needle {
            proof {
                lemma_first_index_of_unique(haystack@, needle, i as int);
            }
            return Some(i);
        }
        i += 1;
    }
    proof {
        lemma_first_index_of(haystack@, needle);
    }
    None
}

} // verus!
