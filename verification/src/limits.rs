//! The numbers that decide, in exact arithmetic: what their bit patterns stand for, and how numbers
//! compare with them.
use crate::branching_pt::advance::branches;
use crate::branching_pt::{BRANCHING_ROUGHNESS_BITS, DEFAULT_DEBIAS_R_BITS};
use crate::decimal::{exponent, scaled, significand};
use crate::exact::{
    is_closest, is_number, law_numbers_compare_as_counts, law_sign_of_bits, lemma_closest,
    lemma_whole_worth, single_worth, units,
};
use crate::lm_path_filtering::{TENTH_BITS, TWENTIETH_BITS};
use crate::nrc_pt::render::STOPPING_RATE_BITS;
use crate::nrc_pt::{
    DEFAULT_DECAY_RATE_BITS, DEFAULT_LEARNING_RATE_BITS, SPLITTING_ROUGHNESS_BITS,
};
use crate::value::{Single, RAY_T_MAX_BITS};
use vstd::prelude::*;

verus! {

proof fn lemma_powers()
    ensures
        scaled(1, 2, 24) == 0x100_0000,
        scaled(1, 2, 27) == 0x800_0000,
        scaled(1, 2, 28) == 0x1000_0000,
        scaled(1, 2, 30) == 0x4000_0000,
        scaled(1, 2, 33) == 0x2_0000_0000,
        scaled(1, 2, 40) == 0x100_0000_0000,
{
    reveal_with_fuel(scaled, 42);
}

/// A surface branches where it is rougher than a hundredth, and a path is handed over where it is
/// rougher than a twentieth. Training stops where the learning rate is below a hundred-thousandth.
/// Rays that nothing limits are as long as twenty zeros behind a one say.
pub proof fn law_limits()
    ensures
        is_closest(Single { bits: BRANCHING_ROUGHNESS_BITS }, 1, 100),
        is_closest(Single { bits: SPLITTING_ROUGHNESS_BITS }, 1, 20),
        is_closest(Single { bits: STOPPING_RATE_BITS }, 1, 100000),
        is_closest(Single { bits: RAY_T_MAX_BITS }, 100000000000000000000, 1),
{
    lemma_powers();
    let s = Single { bits: BRANCHING_ROUGHNESS_BITS };
    assert(exponent(s) == -30 && significand(s) == 0xa3_d70a);
    lemma_closest(s, 30, 1, 100);
    let s = Single { bits: SPLITTING_ROUGHNESS_BITS };
    assert(exponent(s) == -28 && significand(s) == 0xcc_cccd);
    lemma_closest(s, 28, 1, 20);
    let s = Single { bits: STOPPING_RATE_BITS };
    assert(exponent(s) == -40 && significand(s) == 0xa7_c5ac);
    lemma_closest(s, 40, 1, 100000);
    let s = Single { bits: RAY_T_MAX_BITS };
    assert(exponent(s) == 43 && significand(s) == 0xad_78ec);
    lemma_whole_worth(s, 43);
    reveal_with_fuel(scaled, 44);
    assert(scaled(0xad_78ec, 2, 43) == 100000002004087734272);
    let w = single_worth(s);
    assert(w == 100000002004087734272real);
    assert(w * 1real == w) by (nonlinear_arith);
}

/// The defaults are what they are called: radii of a tenth and a twentieth, a chance of 0.65 that a
/// further sample is the last, a learning rate of 0.001 and a decay of 0.995.
pub proof fn law_defaults()
    ensures
        is_closest(Single { bits: TENTH_BITS }, 1, 10),
        is_closest(Single { bits: TWENTIETH_BITS }, 1, 20),
        is_closest(Single { bits: DEFAULT_DEBIAS_R_BITS }, 65, 100),
        is_closest(Single { bits: DEFAULT_LEARNING_RATE_BITS }, 1, 1000),
        is_closest(Single { bits: DEFAULT_DECAY_RATE_BITS }, 995, 1000),
{
    lemma_powers();
    let s = Single { bits: TENTH_BITS };
    assert(exponent(s) == -27 && significand(s) == 0xcc_cccd);
    lemma_closest(s, 27, 1, 10);
    let s = Single { bits: TWENTIETH_BITS };
    assert(exponent(s) == -28 && significand(s) == 0xcc_cccd);
    lemma_closest(s, 28, 1, 20);
    let s = Single { bits: DEFAULT_DEBIAS_R_BITS };
    assert(exponent(s) == -24 && significand(s) == 0xa6_6666);
    lemma_closest(s, 24, 65, 100);
    let s = Single { bits: DEFAULT_LEARNING_RATE_BITS };
    assert(exponent(s) == -33 && significand(s) == 0x83_126f);
    lemma_closest(s, 33, 1, 1000);
    let s = Single { bits: DEFAULT_DECAY_RATE_BITS };
    assert(exponent(s) == -24 && significand(s) == 0xfe_b852);
    lemma_closest(s, 24, 995, 1000);
}

/// Comparing with a limit compares numbers: above it, or below it.
pub proof fn law_limits_compare(x: Single, limit: Single)
    requires
        is_number(x),
        limit.is_positive(),
    ensures
        x.exceeds(limit) <==> units(x) > units(limit),
        x.falls_below(limit) <==> units(x) < units(limit),
        limit.bits == BRANCHING_ROUGHNESS_BITS ==> (branches(x) <==> units(x) > units(limit)),
{
    law_numbers_compare_as_counts(x, limit);
    law_numbers_compare_as_counts(limit, x);
    law_sign_of_bits(x);
    law_sign_of_bits(limit);
}

} // verus!
