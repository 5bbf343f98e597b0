//! Positions that go round a list.
use vstd::prelude::*;

verus! {

/// One step further in a ring.
pub proof fn lemma_ring_step(position: int, len: int)
    requires
        len > 0,
        position >= 0,
    ensures
        (position + 1) % len == (if position % len + 1 == len {
            0
        } else {
            position % len + 1
        }),
        0 <= position % len < len,
        (position % len + 1) % len == (position + 1) % len,
{
    vstd::arithmetic::div_mod::lemma_fundamental_div_mod(position, len);
    vstd::arithmetic::div_mod::lemma_mod_bound(position, len);
    vstd::arithmetic::div_mod::lemma_add_mod_noop(position, 1, len);
    let r = position % len;
    if len > 1 {
        vstd::arithmetic::div_mod::lemma_small_mod(1, len as nat);
        if r + 1 < len {
            vstd::arithmetic::div_mod::lemma_small_mod((r + 1) as nat, len as nat);
        } else {
            vstd::arithmetic::div_mod::lemma_mod_self_0(len);
        }
    }
}

} // verus!
