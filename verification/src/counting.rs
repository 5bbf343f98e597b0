//! Counts that stop at their limit.
use vstd::prelude::*;

verus! {

/// `count` plus one, or `count` where that would overflow.
pub open spec fn bumped(count: u64) -> u64 {
    if count == u64::MAX {
        count
    } else {
        (count + 1) as u64
    }
}

/// `start` and `more` added up, as far as a count goes.
pub open spec fn capped_sum(start: u64, more: nat) -> int {
    if start + more > u64::MAX {
        u64::MAX as int
    } else {
        start + more
    }
}

/// One more event that `wanted` picks out, or one that it does not.
pub proof fn lemma_filter_last<E>(events: Seq<E>, wanted: spec_fn(E) -> bool)
    requires
        events.len() > 0,
    ensures
        events.filter(wanted).len() == events.drop_last().filter(wanted).len() + if wanted(
            events.last(),
        ) {
            1nat
        } else {
            0
        },
{
    reveal(Seq::filter);
}

pub proof fn lemma_filter_empty<E>(wanted: spec_fn(E) -> bool)
    ensures
        Seq::<E>::empty().filter(wanted).len() == 0,
{
    reveal(Seq::filter);
}

} // verus!
