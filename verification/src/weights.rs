//! Two-dimensional weights, weight limits, and the weights benchmarked for the
//! baseline operations.

use core::marker::PhantomData;
use vstd::prelude::*;

verus! {

/// `u64` addition that stops at the largest value.
pub open spec fn saturating_add_u64(a: u64, b: u64) -> u64 {
    if a + b > u64::MAX {
        u64::MAX
    } else {
        (a + b) as u64
    }
}

/// `u64` multiplication that stops at the largest value.
pub open spec fn saturating_mul_u64(a: u64, b: u64) -> u64 {
    if a * b > u64::MAX {
        u64::MAX
    } else {
        (a * b) as u64
    }
}

fn sat_add_u64(a: u64, b: u64) -> (r: u64)
    ensures
        r == saturating_add_u64(a, b),
{
    match a.checked_add(b) {
        Some(v) => v,
        None => u64::MAX,
    }
}

fn sat_mul_u64(a: u64, b: u64) -> (r: u64)
    ensures
        r == saturating_mul_u64(a, b),
{
    match a.checked_mul(b) {
        Some(v) => v,
        None => u64::MAX,
    }
}

/// Computation time and proof size.
#[derive(Clone, Copy, PartialEq, Eq, Structural, Debug)]
pub struct Weight {
    pub ref_time: u64,
    pub proof_size: u64,
}

impl Weight {
    /// The weight of the two given parts.
    pub fn from_parts(ref_time: u64, proof_size: u64) -> (r: Weight)
        ensures
            r == (Weight { ref_time, proof_size }),
    {
        Weight { ref_time, proof_size }
    }

    /// Part-wise addition, saturating at the largest value.
    pub fn saturating_add(self, rhs: Weight) -> (r: Weight)
        ensures
            r.ref_time == saturating_add_u64(self.ref_time, rhs.ref_time),
            r.proof_size == saturating_add_u64(self.proof_size, rhs.proof_size),
    {
        Weight {
            ref_time: sat_add_u64(self.ref_time, rhs.ref_time),
            proof_size: sat_add_u64(self.proof_size, rhs.proof_size),
        }
    }

    /// Part-wise multiplication by `scalar`, saturating at the largest value.
    pub fn saturating_mul(self, scalar: u64) -> (r: Weight)
        ensures
            r.ref_time == saturating_mul_u64(self.ref_time, scalar),
            r.proof_size == saturating_mul_u64(self.proof_size, scalar),
    {
        Weight {
            ref_time: sat_mul_u64(self.ref_time, scalar),
            proof_size: sat_mul_u64(self.proof_size, scalar),
        }
    }
}

/// How much weight the execution on the far side may take.
#[derive(Clone, Copy, PartialEq, Eq, Structural, Debug)]
pub enum WeightLimit {
    Unlimited,
    Limited(Weight),
}

/// The weights measured for the baseline benchmarks.
pub struct WeightInfo<T>(pub PhantomData<T>);

impl<T> WeightInfo<T> {
    /// Addition of `_i` numbers.
    pub fn addition(_i: u32) -> (r: Weight)
        ensures
            r == (Weight { ref_time: 207_289, proof_size: 0 }),
    {
        Weight::from_parts(207_289, 0).saturating_add(Weight::from_parts(0, 0))
    }

    /// Subtraction of `_i` numbers.
    pub fn subtraction(_i: u32) -> (r: Weight)
        ensures
            r == (Weight { ref_time: 202_031, proof_size: 0 }),
    {
        Weight::from_parts(202_031, 0).saturating_add(Weight::from_parts(0, 0))
    }

    /// Multiplication of `_i` numbers.
    pub fn multiplication(_i: u32) -> (r: Weight)
        ensures
            r == (Weight { ref_time: 198_075, proof_size: 0 }),
    {
        Weight::from_parts(198_075, 0).saturating_add(Weight::from_parts(0, 0))
    }

    /// Division of `_i` numbers.
    pub fn division(_i: u32) -> (r: Weight)
        ensures
            r == (Weight { ref_time: 204_599, proof_size: 0 }),
    {
        Weight::from_parts(204_599, 0).saturating_add(Weight::from_parts(0, 0))
    }

    /// Hashing.
    pub fn hashing() -> (r: Weight)
        ensures
            r == (Weight { ref_time: 19_769_646_000, proof_size: 0 }),
    {
        Weight::from_parts(19_769_646_000, 0).saturating_add(Weight::from_parts(0, 0))
    }

    /// Verification of `i` sr25519 signatures: a base cost and a cost per signature.
    pub fn sr25519_verification(i: u32) -> (r: Weight)
        ensures
            r.ref_time == 242_000 + 46_990_353 * i,
            r.proof_size == 0,
    {
        assert(46_990_353 * (i as int) <= 46_990_353 * 0xffff_ffff) by (nonlinear_arith)
            requires
                i <= 0xffff_ffff,
        ;
        Weight::from_parts(242_000, 0).saturating_add(Weight::from_parts(0, 0)).saturating_add(
            Weight::from_parts(46_990_353, 0).saturating_mul(i as u64),
        )
    }
}

} // verus!
