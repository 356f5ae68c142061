//! Read side of the cardinality sketch: an estimate of how many distinct
//! clients were observed, in whole numbers.
//!
//! A register of rank `r` weighs two to the power `HLL_MAX_RHO - r`, so
//! that the weights of all registers add up to two to the `HLL_MAX_RHO`
//! times the sum of `2^-r` that the harmonic-mean estimator divides by.

use vstd::prelude::*;
use vstd::arithmetic::power2::{lemma2_to64, lemma_pow2_strictly_increases, pow2};
use vstd::bits::lemma_u64_shl_is_mul;
use crate::params::HLL_MAX_RHO;
use crate::sketch::{CardinalitySketch, HLL_REGISTERS};

verus! {

/// The estimator's constant for 256 registers, `0.7213 / (1 + 1.079 / 256)`,
/// times the square of 256, in thousandths.
pub const ALPHA_MM_MILLI: u64 = 47_072_713;

/// At or below this harmonic-mean estimate, two and a half times the
/// number of registers, a sketch with empty registers is estimated by
/// their number.
pub const SPARSE_LIMIT: u64 = 640;

/// The number of registers, in units of two to the minus 16.
pub const REGISTERS_FIXED: u64 = 0x0100_0000;

/// The weight of a register: two to the power `HLL_MAX_RHO - rank`.
pub open spec fn register_weight(rank: u8) -> nat {
    pow2((HLL_MAX_RHO - rank) as nat)
}

/// The sum of the weights of the registers.
pub open spec fn weight_sum(registers: Seq<u8>) -> nat
    decreases registers.len(),
{
    if registers.len() == 0 {
        0
    } else {
        weight_sum(registers.drop_last()) + register_weight(registers.last())
    }
}

/// The number of registers that are zero.
pub open spec fn zero_count(registers: Seq<u8>) -> nat
    decreases registers.len(),
{
    if registers.len() == 0 {
        0
    } else {
        zero_count(registers.drop_last()) + if registers.last() == 0 {
            1nat
        } else {
            0nat
        }
    }
}

/// The harmonic-mean estimate, rounded down: the constant times the square
/// of the number of registers, over the sum of `2^-rank`.
pub open spec fn harmonic_estimate(registers: Seq<u8>) -> int {
    (ALPHA_MM_MILLI * pow2(HLL_MAX_RHO as nat)) as int / (1000 * weight_sum(registers)) as int
}

/// The sum of `256 / k` for `k` from `empty + 1` to `upto`, each term
/// rounded down to a multiple of two to the minus 16 and counted in such
/// units.
pub open spec fn occupancy_sum(empty: int, upto: int) -> int
    decreases upto - empty,
{
    if upto <= empty {
        0
    } else {
        occupancy_sum(empty, upto - 1) + REGISTERS_FIXED as int / upto
    }
}

/// The number of distinct clients that are expected to leave `empty` of
/// the 256 registers untouched, rounded down.
pub open spec fn occupancy_estimate(empty: int) -> int {
    occupancy_sum(empty, HLL_REGISTERS as int) / 0x1_0000
}

/// The estimate of a sketch: by its empty registers while the
/// harmonic-mean estimate is small and some register is empty, and the
/// harmonic-mean estimate otherwise.
pub open spec fn estimated(registers: Seq<u8>) -> int {
    if harmonic_estimate(registers) <= SPARSE_LIMIT && zero_count(registers) > 0 {
        occupancy_estimate(zero_count(registers) as int)
    } else {
        harmonic_estimate(registers)
    }
}

/// A sketch that has observed nothing is estimated at zero.
pub proof fn lemma_estimated_empty(registers: Seq<u8>)
    requires
        registers.len() == HLL_REGISTERS,
        forall|i: int| 0 <= i < HLL_REGISTERS ==> registers[i] == 0,
    ensures
        estimated(registers) == 0,
{
    lemma_all_zero(registers);
    lemma2_to64();
    let total = weight_sum(registers);
    assert(total == 256 * pow2(HLL_MAX_RHO as nat));
    assert(harmonic_estimate(registers) <= SPARSE_LIMIT) by (nonlinear_arith)
        requires
            harmonic_estimate(registers) == (ALPHA_MM_MILLI * pow2(HLL_MAX_RHO as nat)) as int / (
            1000 * total) as int,
            total == 256 * pow2(HLL_MAX_RHO as nat),
            pow2(HLL_MAX_RHO as nat) > 0,
    ;
}

/// Registers that are all zero weigh two to the `HLL_MAX_RHO` each, and
/// all of them count as empty.
proof fn lemma_all_zero(registers: Seq<u8>)
    requires
        forall|i: int| 0 <= i < registers.len() ==> registers[i] == 0,
    ensures
        weight_sum(registers) == registers.len() * pow2(HLL_MAX_RHO as nat),
        zero_count(registers) == registers.len(),
    decreases registers.len(),
{
    if registers.len() > 0 {
        lemma_all_zero(registers.drop_last());
        assert(weight_sum(registers) == registers.len() * pow2(HLL_MAX_RHO as nat))
            by (nonlinear_arith)
            requires
                weight_sum(registers) == weight_sum(registers.drop_last()) + pow2(
                    HLL_MAX_RHO as nat,
                ),
                weight_sum(registers.drop_last()) == (registers.len() - 1) * pow2(
                    HLL_MAX_RHO as nat,
                ),
        ;
    }
}

/// The weight of a rank within the cap, as a shift, and its range.
proof fn lemma_weight_is_shift(rank: u8)
    requires
        rank <= HLL_MAX_RHO,
    ensures
        1u64 << ((HLL_MAX_RHO - rank) as u64) == register_weight(rank),
        1 <= register_weight(rank) <= pow2(HLL_MAX_RHO as nat),
        pow2(HLL_MAX_RHO as nat) == 1u64 << (HLL_MAX_RHO as u64),
        pow2(HLL_MAX_RHO as nat) <= 0x8000,
{
    lemma2_to64();
    let shift = (HLL_MAX_RHO - rank) as nat;
    if shift < HLL_MAX_RHO {
        lemma_pow2_strictly_increases(shift, HLL_MAX_RHO as nat);
    }
    vstd::arithmetic::power2::lemma_pow2_pos(shift);
    lemma_u64_shl_is_mul(1, shift as u64);
    lemma_u64_shl_is_mul(1, HLL_MAX_RHO as u64);
}

/// Estimates how many distinct clients the sketch has observed.
pub fn hll_estimate(sketch: &CardinalitySketch) -> (count: u64)
    ensures
        count == estimated(sketch@),
{
    let mut total: u64 = 0;
    let mut empty: u64 = 0;
    let mut i: usize = 0;
    proof {
        lemma_weight_is_shift(0);
        sketch.lemma_register_count();
    }
    while i < HLL_REGISTERS
        invariant
            i <= HLL_REGISTERS,
            sketch@.len() == HLL_REGISTERS,
            total == weight_sum(sketch@.take(i as int)),
            empty == zero_count(sketch@.take(i as int)),
            i <= total <= i * 0x8000,
            empty <= i,
        decreases HLL_REGISTERS - i,
    {
        let rank: u8 = sketch.register(i as u8);
        proof {
            lemma_weight_is_shift(rank);
            assert(sketch@.take(i + 1).drop_last() =~= sketch@.take(i as int));
        }
        total = total + (1u64 << ((HLL_MAX_RHO - rank) as u64));
        if rank == 0 {
            empty = empty + 1;
        }
        i += 1;
    }
    proof {
        assert(sketch@.take(HLL_REGISTERS as int) =~= sketch@);
    }
    let harmonic: u64 = (ALPHA_MM_MILLI * (1u64 << (HLL_MAX_RHO as u64))) / (1000 * total);
    assert(harmonic == harmonic_estimate(sketch@));
    if harmonic <= SPARSE_LIMIT && empty > 0 {
        let mut sum: u64 = 0;
        let mut k: u64 = empty;
        while k < HLL_REGISTERS as u64
            invariant
                1 <= empty <= k <= HLL_REGISTERS,
                sum == occupancy_sum(empty as int, k as int),
                sum <= (k - empty) * REGISTERS_FIXED,
            decreases HLL_REGISTERS - k,
        {
            k = k + 1;
            sum = sum + REGISTERS_FIXED / k;
        }
        assert(sum >> 16 == sum / 0x1_0000) by (bit_vector);
        assert(sum == occupancy_sum(empty as int, HLL_REGISTERS as int));
        sum >> 16
    } else {
        harmonic
    }
}

} // verus!
