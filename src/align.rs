//! Alignment arithmetic.
use vstd::prelude::*;

verus! {

/// A power of two, stated on the bits of the word.
pub open spec fn is_power_of_two(a: usize) -> bool {
    a > 0 && a & vstd::prelude::sub(a, 1) == 0
}

/// The smallest multiple of `align` that is at least `base`.
pub open spec fn round_up_spec(base: nat, align: nat) -> nat
    recommends
        align > 0,
{
    if base % align == 0 {
        base
    } else {
        base + (align - base % align) as nat
    }
}

/// Rounds `base` up to the next multiple of `align`.
pub fn round_up(base: usize, align: usize) -> (r: usize)
    requires
        is_power_of_two(align),
        base + align <= usize::MAX + 1,
    ensures
        r as nat == round_up_spec(base as nat, align as nat),
{
    let rem: usize = base % align;
    if rem == 0 {
        base
    } else {
        base + (align - rem)
    }
}

/// Rounding up gives a multiple of the alignment that is no smaller than the
/// base and less than one alignment above it, and rounding a second time
/// changes nothing.
pub proof fn lemma_round_up(base: nat, align: nat)
    requires
        align > 0,
    ensures
        round_up_spec(base, align) >= base,
        round_up_spec(base, align) % align == 0,
        round_up_spec(base, align) < base + align,
        round_up_spec(round_up_spec(base, align), align) == round_up_spec(base, align),
{
    let q = base / align;
    let rem = base % align;
    vstd::arithmetic::div_mod::lemma_fundamental_div_mod(base as int, align as int);
    if rem != 0 {
        assert(round_up_spec(base, align) == align * (q + 1)) by (nonlinear_arith)
            requires
                base == align * q + rem,
                round_up_spec(base, align) == base + (align - rem),
        ;
        vstd::arithmetic::div_mod::lemma_mod_multiples_basic((q + 1) as int, align as int);
        assert((q + 1) * align == align * (q + 1)) by (nonlinear_arith);
    }
}

} // verus!
