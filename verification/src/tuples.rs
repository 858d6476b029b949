//! Encoded rows, and how they are counted.
use vstd::prelude::*;

verus! {

/// The bytes of each encoded row.
pub open spec fn tuple_views(tuples: Seq<Vec<u8>>) -> Seq<Seq<u8>> {
    tuples.map_values(|tuple: Vec<u8>| tuple@)
}

/// How many bytes encoded rows have together.
pub open spec fn total_len(tuples: Seq<Seq<u8>>) -> int
    decreases tuples.len(),
{
    if tuples.len() == 0 {
        0
    } else {
        total_len(tuples.drop_last()) + tuples.last().len()
    }
}

/// A number of bytes as it is counted: up to the largest number of the machine.
pub open spec fn counted(bytes: int) -> int {
    if bytes > usize::MAX {
        usize::MAX as int
    } else {
        bytes
    }
}

/// What is left of a number that is counted down and stops at zero.
pub open spec fn counted_down(count: int, by: int) -> int {
    if count >= by {
        count - by
    } else {
        0
    }
}

/// A number of bytes is not negative.
pub proof fn lemma_total_len(tuples: Seq<Seq<u8>>)
    ensures
        total_len(tuples) >= 0,
    decreases tuples.len(),
{
    if tuples.len() > 0 {
        lemma_total_len(tuples.drop_last());
    }
}

}
