//! The numeric capability that matrix elements need.
use vstd::prelude::*;
use vstd::arithmetic::div_mod::{lemma_mod_add_multiples_vanish, lemma_small_mod};

verus! {

/// A numeric element type: a zero, a one, and total `+`, `-` and `*`.
///
/// The integer implementations use modular (wrapping) arithmetic, so every
/// operation is defined on every pair of values and the ring laws hold exactly.
pub trait Scalar: Copy + Sized {
    spec fn spec_zero() -> Self;

    spec fn spec_one() -> Self;

    spec fn spec_add(a: Self, b: Self) -> Self;

    spec fn spec_sub(a: Self, b: Self) -> Self;

    spec fn spec_mul(a: Self, b: Self) -> Self;

    fn zero() -> (r: Self)
        ensures
            r == Self::spec_zero(),
    ;

    fn one() -> (r: Self)
        ensures
            r == Self::spec_one(),
    ;

    fn plus(self, b: Self) -> (r: Self)
        ensures
            r == Self::spec_add(self, b),
    ;

    fn minus(self, b: Self) -> (r: Self)
        ensures
            r == Self::spec_sub(self, b),
    ;

    fn times(self, b: Self) -> (r: Self)
        ensures
            r == Self::spec_mul(self, b),
    ;

    /// Addition does not depend on the order of its operands.
    proof fn lemma_add_commutes(a: Self, b: Self)
        ensures
            Self::spec_add(a, b) == Self::spec_add(b, a),
    ;

    /// One is a right identity of multiplication.
    proof fn lemma_mul_one(a: Self)
        ensures
            Self::spec_mul(a, Self::spec_one()) == a,
    ;

    /// Zero is a right annihilator of multiplication.
    proof fn lemma_mul_zero(a: Self)
        ensures
            Self::spec_mul(a, Self::spec_zero()) == Self::spec_zero(),
    ;
}

impl Scalar for usize {
    open spec fn spec_zero() -> usize {
        0
    }

    open spec fn spec_one() -> usize {
        1
    }

    open spec fn spec_add(a: usize, b: usize) -> usize {
        a.wrapping_add(b)
    }

    open spec fn spec_sub(a: usize, b: usize) -> usize {
        a.wrapping_sub(b)
    }

    open spec fn spec_mul(a: usize, b: usize) -> usize {
        a.wrapping_mul(b)
    }

    fn zero() -> (r: usize) {
        0
    }

    fn one() -> (r: usize) {
        1
    }

    fn plus(self, b: usize) -> (r: usize) {
        self.wrapping_add(b)
    }

    fn minus(self, b: usize) -> (r: usize) {
        self.wrapping_sub(b)
    }

    fn times(self, b: usize) -> (r: usize) {
        self.wrapping_mul(b)
    }

    proof fn lemma_add_commutes(a: usize, b: usize) {
    }

    proof fn lemma_mul_one(a: usize) {
        lemma_small_mod(a as nat, (usize::MAX - usize::MIN + 1) as nat);
    }

    proof fn lemma_mul_zero(a: usize) {
        assert(a as nat * 0nat == 0) by (nonlinear_arith);
        lemma_small_mod(0, (usize::MAX - usize::MIN + 1) as nat);
    }
}

impl Scalar for u64 {
    open spec fn spec_zero() -> u64 {
        0
    }

    open spec fn spec_one() -> u64 {
        1
    }

    open spec fn spec_add(a: u64, b: u64) -> u64 {
        a.wrapping_add(b)
    }

    open spec fn spec_sub(a: u64, b: u64) -> u64 {
        a.wrapping_sub(b)
    }

    open spec fn spec_mul(a: u64, b: u64) -> u64 {
        a.wrapping_mul(b)
    }

    fn zero() -> (r: u64) {
        0
    }

    fn one() -> (r: u64) {
        1
    }

    fn plus(self, b: u64) -> (r: u64) {
        self.wrapping_add(b)
    }

    fn minus(self, b: u64) -> (r: u64) {
        self.wrapping_sub(b)
    }

    fn times(self, b: u64) -> (r: u64) {
        self.wrapping_mul(b)
    }

    proof fn lemma_add_commutes(a: u64, b: u64) {
    }

    proof fn lemma_mul_one(a: u64) {
        lemma_small_mod(a as nat, (u64::MAX - u64::MIN + 1) as nat);
    }

    proof fn lemma_mul_zero(a: u64) {
        assert(a as nat * 0nat == 0) by (nonlinear_arith);
        lemma_small_mod(0, (u64::MAX - u64::MIN + 1) as nat);
    }
}

impl Scalar for u32 {
    open spec fn spec_zero() -> u32 {
        0
    }

    open spec fn spec_one() -> u32 {
        1
    }

    open spec fn spec_add(a: u32, b: u32) -> u32 {
        a.wrapping_add(b)
    }

    open spec fn spec_sub(a: u32, b: u32) -> u32 {
        a.wrapping_sub(b)
    }

    open spec fn spec_mul(a: u32, b: u32) -> u32 {
        a.wrapping_mul(b)
    }

    fn zero() -> (r: u32) {
        0
    }

    fn one() -> (r: u32) {
        1
    }

    fn plus(self, b: u32) -> (r: u32) {
        self.wrapping_add(b)
    }

    fn minus(self, b: u32) -> (r: u32) {
        self.wrapping_sub(b)
    }

    fn times(self, b: u32) -> (r: u32) {
        self.wrapping_mul(b)
    }

    proof fn lemma_add_commutes(a: u32, b: u32) {
    }

    proof fn lemma_mul_one(a: u32) {
        lemma_small_mod(a as nat, (u32::MAX - u32::MIN + 1) as nat);
    }

    proof fn lemma_mul_zero(a: u32) {
        assert(a as nat * 0nat == 0) by (nonlinear_arith);
        lemma_small_mod(0, (u32::MAX - u32::MIN + 1) as nat);
    }
}

/// A scalar that is also ordered, has a negation, and a reciprocal of a
/// count: what the Lasso solver needs beyond a ring.
pub trait Real: Scalar {
    spec fn spec_lt(a: Self, b: Self) -> bool;

    spec fn spec_neg(a: Self) -> Self;

    /// The reciprocal `1 / n` of a count, as an element.
    spec fn spec_recip_count(n: nat) -> Self;

    fn less_than(self, b: Self) -> (r: bool)
        ensures
            r == Self::spec_lt(self, b),
    ;

    fn negate(self) -> (r: Self)
        ensures
            r == Self::spec_neg(self),
    ;

    fn recip_count(n: usize) -> (r: Self)
        ensures
            r == Self::spec_recip_count(n as nat),
    ;
}

impl Scalar for i64 {
    open spec fn spec_zero() -> i64 {
        0
    }

    open spec fn spec_one() -> i64 {
        1
    }

    open spec fn spec_add(a: i64, b: i64) -> i64 {
        a.wrapping_add(b)
    }

    open spec fn spec_sub(a: i64, b: i64) -> i64 {
        a.wrapping_sub(b)
    }

    open spec fn spec_mul(a: i64, b: i64) -> i64 {
        a.wrapping_mul(b)
    }

    fn zero() -> (r: i64) {
        0
    }

    fn one() -> (r: i64) {
        1
    }

    fn plus(self, b: i64) -> (r: i64) {
        self.wrapping_add(b)
    }

    fn minus(self, b: i64) -> (r: i64) {
        self.wrapping_sub(b)
    }

    fn times(self, b: i64) -> (r: i64) {
        self.wrapping_mul(b)
    }

    proof fn lemma_add_commutes(a: i64, b: i64) {
    }

    proof fn lemma_mul_one(a: i64) {
        let m: int = 0x1_0000_0000_0000_0000;
        if a >= 0 {
            lemma_small_mod(a as nat, m as nat);
        } else {
            lemma_small_mod((a + m) as nat, m as nat);
            lemma_mod_add_multiples_vanish(a as int, m);
        }
    }

    proof fn lemma_mul_zero(a: i64) {
        assert(a * 0 == 0) by (nonlinear_arith);
    }
}

impl Real for i64 {
    open spec fn spec_lt(a: i64, b: i64) -> bool {
        a < b
    }

    open spec fn spec_neg(a: i64) -> i64 {
        0i64.wrapping_sub(a)
    }

    /// The integer quotient `1 / n`: one for a count of one, zero otherwise
    /// (a count of zero included).
    open spec fn spec_recip_count(n: nat) -> i64 {
        if n == 1 {
            1
        } else {
            0
        }
    }

    fn less_than(self, b: i64) -> (r: bool) {
        self < b
    }

    fn negate(self) -> (r: i64) {
        0i64.wrapping_sub(self)
    }

    fn recip_count(n: usize) -> (r: i64) {
        if n == 1 {
            1
        } else {
            0
        }
    }
}

impl Scalar for i32 {
    open spec fn spec_zero() -> i32 {
        0
    }

    open spec fn spec_one() -> i32 {
        1
    }

    open spec fn spec_add(a: i32, b: i32) -> i32 {
        a.wrapping_add(b)
    }

    open spec fn spec_sub(a: i32, b: i32) -> i32 {
        a.wrapping_sub(b)
    }

    open spec fn spec_mul(a: i32, b: i32) -> i32 {
        a.wrapping_mul(b)
    }

    fn zero() -> (r: i32) {
        0
    }

    fn one() -> (r: i32) {
        1
    }

    fn plus(self, b: i32) -> (r: i32) {
        self.wrapping_add(b)
    }

    fn minus(self, b: i32) -> (r: i32) {
        self.wrapping_sub(b)
    }

    fn times(self, b: i32) -> (r: i32) {
        self.wrapping_mul(b)
    }

    proof fn lemma_add_commutes(a: i32, b: i32) {
    }

    proof fn lemma_mul_one(a: i32) {
        let m: int = 0x1_0000_0000;
        if a >= 0 {
            lemma_small_mod(a as nat, m as nat);
        } else {
            lemma_small_mod((a + m) as nat, m as nat);
            lemma_mod_add_multiples_vanish(a as int, m);
        }
    }

    proof fn lemma_mul_zero(a: i32) {
        assert(a * 0 == 0) by (nonlinear_arith);
    }
}

impl Real for i32 {
    open spec fn spec_lt(a: i32, b: i32) -> bool {
        a < b
    }

    open spec fn spec_neg(a: i32) -> i32 {
        0i32.wrapping_sub(a)
    }

    /// The integer quotient `1 / n`: one for a count of one, zero otherwise
    /// (a count of zero included).
    open spec fn spec_recip_count(n: nat) -> i32 {
        if n == 1 {
            1
        } else {
            0
        }
    }

    fn less_than(self, b: i32) -> (r: bool) {
        self < b
    }

    fn negate(self) -> (r: i32) {
        0i32.wrapping_sub(self)
    }

    fn recip_count(n: usize) -> (r: i32) {
        if n == 1 {
            1
        } else {
            0
        }
    }
}

} // verus!
