//! Arithmetic helpers shared by the passes.
use vstd::prelude::*;

verus! {

/// The smallest multiple of `alignment` that is at least `value`.
pub open spec fn spec_align(value: nat, alignment: nat) -> nat
    recommends
        alignment > 0,
{
    if value % alignment == 0 {
        value
    } else {
        (value / alignment + 1) * alignment
    }
}

/// Rounds `value` up to a multiple of `alignment`.
pub fn align_memory(value: usize, alignment: usize) -> (r: usize)
    requires
        alignment > 0,
        spec_align(value as nat, alignment as nat) <= usize::MAX,
    ensures
        r == spec_align(value as nat, alignment as nat),
        r % alignment == 0,
        value <= r < value + alignment,
{
    let rem = value % alignment;
    if rem == 0 {
        value
    } else {
        proof {
            vstd::arithmetic::div_mod::lemma_fundamental_div_mod(value as int, alignment as int);
        }
        assert((value / alignment + 1) * alignment == value - rem + alignment) by (nonlinear_arith)
            requires
                value == alignment * (value / alignment) + rem,
        ;
        proof {
            vstd::arithmetic::div_mod::lemma_mod_multiples_basic((value / alignment + 1) as int, alignment as int);
        }
        value - rem + alignment
    }
}

} // verus!
