//! IEEE 754 binary64 numbers carried by their encoding.
//!
//! The format stores coordinates and mapping parameters as JSON numbers that
//! are read as binary64 values. The library never does arithmetic on them;
//! it only compares them, checks them for finiteness and carries them
//! through. All of that is defined on the 64-bit encoding alone, so a value
//! is held here as its bit pattern and every comparison is the IEEE 754
//! comparison, NaN and signed zero included.

use vstd::arithmetic::power2::{lemma_pow2_adds, lemma_pow2_pos, lemma_pow2_unfold, pow2};
use vstd::prelude::*;

verus! {

/// Mask of the 52 fraction bits.
pub const FRACTION_MASK: u64 = 0x000f_ffff_ffff_ffff;

/// Mask of everything but the sign bit.
pub const MAGNITUDE_MASK: u64 = 0x7fff_ffff_ffff_ffff;

/// The biased exponent field shared by the infinities and the NaNs.
pub const EXPONENT_ALL_ONES: u64 = 0x7ff;

/// A binary64 value, held as its IEEE 754 encoding.
#[derive(Clone, Copy, Debug)]
pub struct Binary64 {
    pub bits: u64,
}

/// The biased exponent field of an encoding.
pub open spec fn exponent_field(bits: u64) -> u64 {
    (bits >> 52u64) & 0x7ffu64
}

/// The fraction field of an encoding.
pub open spec fn fraction_field(bits: u64) -> u64 {
    bits & FRACTION_MASK
}

/// The sign bit of an encoding.
pub open spec fn sign_bit(bits: u64) -> bool {
    bits >> 63u64 == 1u64
}

/// NaN: all-ones exponent and a non-zero fraction.
pub open spec fn encodes_nan(bits: u64) -> bool {
    exponent_field(bits) == EXPONENT_ALL_ONES && fraction_field(bits) != 0
}

/// Finite: anything whose exponent is not all ones.
pub open spec fn encodes_finite(bits: u64) -> bool {
    exponent_field(bits) != EXPONENT_ALL_ONES
}

/// The position of a non-NaN value on the number line. For every two
/// encodings that are not NaN, the IEEE 754 order of the values is the order
/// of their keys: the magnitude bits are monotone in the absolute value, and
/// both zeros share the key 0.
pub open spec fn order_key(bits: u64) -> int {
    let magnitude = (bits & MAGNITUDE_MASK) as int;
    if sign_bit(bits) {
        -magnitude
    } else {
        magnitude
    }
}

/// `+0.0`.
pub open spec fn positive_zero() -> Binary64 {
    Binary64 { bits: 0 }
}

/// The number of binary digits of `n` (0 for 0).
pub open spec fn bit_length(n: nat) -> nat
    decreases n,
{
    if n == 0 {
        0
    } else {
        1 + bit_length(n / 2)
    }
}

/// The encoding of the positive normal number `significand * 2^(k - 53)`,
/// where `2^52 <= significand < 2^53` carries the implicit leading bit.
pub open spec fn normal_encoding(k: nat, significand: nat) -> int {
    (1022 + k) * 0x10_0000_0000_0000 + (significand - 0x10_0000_0000_0000)
}

/// The encoding of `n as f64`: `n` itself when it has at most 53 binary
/// digits, otherwise `n` rounded to 53 significant digits, to nearest with
/// ties to the even significand (IEEE 754 roundTiesToEven).
pub open spec fn encoding_of_u64(n: u64) -> u64 {
    if n == 0 {
        0
    } else {
        let k = bit_length(n as nat);
        if k <= 53 {
            normal_encoding(k, (n * pow2((53 - k) as nat)) as nat) as u64
        } else {
            let shift = (k - 53) as nat;
            let truncated = n as nat / pow2(shift);
            let dropped = n as nat % pow2(shift);
            let half = pow2((shift - 1) as nat);
            let rounded = if dropped > half || (dropped == half && truncated % 2 == 1) {
                truncated + 1
            } else {
                truncated
            };
            if rounded == 0x20_0000_0000_0000 {
                normal_encoding(k + 1, 0x10_0000_0000_0000) as u64
            } else {
                normal_encoding(k, rounded) as u64
            }
        }
    }
}

proof fn lemma_bit_length_bounds(n: nat)
    requires
        n > 0,
    ensures
        pow2((bit_length(n) - 1) as nat) <= n < pow2(bit_length(n)),
        bit_length(n) >= 1,
    decreases n,
{
    lemma_pow2_unfold(bit_length(n));
    if n / 2 == 0 {
        assert(n == 1);
        assert(bit_length(0) == 0);
        assert(pow2(0) == 1) by {
            vstd::arithmetic::power2::lemma2_to64();
        }
    } else {
        lemma_bit_length_bounds(n / 2);
        lemma_pow2_unfold((bit_length(n) - 1) as nat);
    }
}

proof fn lemma_bit_length_unique(n: nat, k: nat)
    requires
        n > 0,
        k >= 1,
        pow2((k - 1) as nat) <= n < pow2(k),
    ensures
        bit_length(n) == k,
{
    lemma_bit_length_bounds(n);
    let b = bit_length(n);
    if b < k {
        if b <= k - 1 {
            if b < k - 1 {
                vstd::arithmetic::power2::lemma_pow2_strictly_increases(b, (k - 1) as nat);
            }
        }
    } else if b > k {
        vstd::arithmetic::power2::lemma_pow2_strictly_increases(k, (b - 1) as nat);
        if k < b - 1 {
        }
    }
    if b > k {
        if k == (b - 1) as nat {
        } else {
            vstd::arithmetic::power2::lemma_pow2_strictly_increases(k, (b - 1) as nat);
        }
    }
}

/// `2^e` for small `e`.
fn two_to_the(e: u32) -> (r: u128)
    requires
        e <= 66,
    ensures
        r == pow2(e as nat),
{
    let mut r: u128 = 1;
    let mut i: u32 = 0;
    proof {
        vstd::arithmetic::power2::lemma2_to64();
    }
    while i < e
        invariant
            i <= e <= 66,
            r == pow2(i as nat),
        decreases e - i,
    {
        proof {
            lemma_pow2_unfold((i + 1) as nat);
            vstd::arithmetic::power2::lemma_pow2_strictly_increases(i as nat, 67);
            assert(pow2(67) == 2 * pow2(66)) by { lemma_pow2_unfold(67); }
            assert(pow2(66) == 4 * pow2(64)) by {
                lemma_pow2_unfold(66);
                lemma_pow2_unfold(65);
            }
            vstd::arithmetic::power2::lemma2_to64();
        }
        r = r * 2;
        i = i + 1;
    }
    r
}

impl Binary64 {
    pub open spec fn is_nan_spec(self) -> bool {
        encodes_nan(self.bits)
    }

    pub open spec fn is_finite_spec(self) -> bool {
        encodes_finite(self.bits)
    }

    /// IEEE 754 `<`: false whenever either side is NaN.
    pub open spec fn less_than(self, other: Binary64) -> bool {
        !self.is_nan_spec() && !other.is_nan_spec() && order_key(self.bits) < order_key(other.bits)
    }

    /// IEEE 754 `<=`: false whenever either side is NaN.
    pub open spec fn at_most(self, other: Binary64) -> bool {
        !self.is_nan_spec() && !other.is_nan_spec() && order_key(self.bits) <= order_key(other.bits)
    }

    /// IEEE 754 `==`: NaN equals nothing, and the two zeros are equal.
    pub open spec fn same_number(self, other: Binary64) -> bool {
        !self.is_nan_spec() && !other.is_nan_spec() && order_key(self.bits) == order_key(other.bits)
    }

    /// The value `+0.0`.
    pub fn zero() -> (r: Binary64)
        ensures
            r == positive_zero(),
            r.is_finite_spec(),
            !r.is_nan_spec(),
            order_key(r.bits) == 0,
    {
        let r = Binary64 { bits: 0 };
        assert(exponent_field(0u64) == 0u64) by (bit_vector);
        assert(0u64 & MAGNITUDE_MASK == 0u64) by (bit_vector);
        assert(0u64 >> 63u64 == 0u64) by (bit_vector);
        r
    }

    /// The value whose encoding is `bits`.
    pub fn from_bits(bits: u64) -> (r: Binary64)
        ensures
            r.bits == bits,
    {
        Binary64 { bits }
    }

    /// `n as f64`: exact below 2^53, rounded to nearest, ties to even,
    /// above.
    pub fn from_u64(n: u64) -> (r: Binary64)
        ensures
            r.bits == encoding_of_u64(n),
    {
        if n == 0 {
            return Binary64 { bits: 0 };
        }
        // Find k with 2^(k-1) <= n < 2^k.
        let mut k: u32 = 0;
        let mut p: u128 = 1;
        proof {
            vstd::arithmetic::power2::lemma2_to64();
        }
        while p <= n as u128
            invariant
                k <= 64,
                p == pow2(k as nat),
                k > 0 ==> pow2((k - 1) as nat) <= n,
                n > 0,
            decreases 64 - k,
        {
            proof {
                lemma_pow2_unfold((k + 1) as nat);
                vstd::arithmetic::power2::lemma2_to64();
                if k == 64 {
                    assert(false);
                }
                if k < 64 {
                    vstd::arithmetic::power2::lemma_pow2_strictly_increases(k as nat, 64);
                }
            }
            p = p * 2;
            k = k + 1;
        }
        proof {
            if k == 0 {
                vstd::arithmetic::power2::lemma2_to64();
            }
            lemma_bit_length_unique(n as nat, k as nat);
        }
        let bits: u64 = if k <= 53 {
            let scale = two_to_the(53 - k);
            proof {
                lemma_pow2_pos((53 - k) as nat);
                lemma_pow2_adds((k - 1) as nat, (53 - k) as nat);
                lemma_pow2_adds(k as nat, (53 - k) as nat);
                vstd::arithmetic::mul::lemma_mul_inequality(
                    pow2((k - 1) as nat) as int,
                    n as int,
                    scale as int,
                );
                vstd::arithmetic::mul::lemma_mul_strict_inequality(
                    n as int,
                    pow2(k as nat) as int,
                    scale as int,
                );
                vstd::arithmetic::power2::lemma2_to64();
                vstd::arithmetic::power2::lemma2_to64_rest();
            }
            let significand = (n as u128) * scale;
            ((1022 + k) as u64) * 0x10_0000_0000_0000 + ((significand as u64) - 0x10_0000_0000_0000)
        } else {
            let shift = k - 53;
            let scale = two_to_the(shift);
            let half = two_to_the(shift - 1);
            let truncated = (n as u128) / scale;
            let dropped = (n as u128) % scale;
            proof {
                lemma_pow2_pos(shift as nat);
                lemma_pow2_adds(52, shift as nat);
                lemma_pow2_adds(53, shift as nat);
                assert(pow2((k - 1) as nat) == pow2(52) * scale);
                assert(pow2(k as nat) == pow2(53) * scale);
                vstd::arithmetic::div_mod::lemma_div_is_ordered(
                    pow2((k - 1) as nat) as int,
                    n as int,
                    scale as int,
                );
                vstd::arithmetic::div_mod::lemma_div_by_multiple(pow2(52) as int, scale as int);
                vstd::arithmetic::div_mod::lemma_div_by_multiple(pow2(53) as int, scale as int);
                vstd::arithmetic::div_mod::lemma_div_by_multiple_is_strongly_ordered(
                    n as int,
                    pow2(k as nat) as int,
                    pow2(53) as int,
                    scale as int,
                );
                vstd::arithmetic::power2::lemma2_to64();
                vstd::arithmetic::power2::lemma2_to64_rest();
                assert(pow2(52) == 0x10_0000_0000_0000);
                assert(pow2(53) == 0x20_0000_0000_0000);
                assert(pow2((k - 1) as nat) as int / scale as int == pow2(52));
                assert(truncated >= 0x10_0000_0000_0000);
                assert(truncated < 0x20_0000_0000_0000);
            }
            let rounded = if dropped > half || (dropped == half && truncated % 2 == 1) {
                truncated + 1
            } else {
                truncated
            };
            if rounded == 0x20_0000_0000_0000 {
                ((1023 + k) as u64) * 0x10_0000_0000_0000
            } else {
                ((1022 + k) as u64) * 0x10_0000_0000_0000 + ((rounded as u64) - 0x10_0000_0000_0000)
            }
        };
        Binary64 { bits }
    }

    /// `f64::is_nan`.
    pub fn is_nan(&self) -> (r: bool)
        ensures
            r == self.is_nan_spec(),
    {
        ((self.bits >> 52u64) & 0x7ffu64) == EXPONENT_ALL_ONES && (self.bits & FRACTION_MASK) != 0
    }

    /// `f64::is_finite`.
    pub fn is_finite(&self) -> (r: bool)
        ensures
            r == self.is_finite_spec(),
    {
        ((self.bits >> 52u64) & 0x7ffu64) != EXPONENT_ALL_ONES
    }

    fn key(&self) -> (k: i128)
        ensures
            k as int == order_key(self.bits),
    {
        let magnitude = self.bits & MAGNITUDE_MASK;
        if self.bits >> 63u64 == 1u64 {
            -(magnitude as i128)
        } else {
            magnitude as i128
        }
    }

    /// `self < other` on binary64 values.
    pub fn lt(&self, other: &Binary64) -> (r: bool)
        ensures
            r == self.less_than(*other),
    {
        !self.is_nan() && !other.is_nan() && self.key() < other.key()
    }

    /// `self <= other` on binary64 values.
    pub fn le(&self, other: &Binary64) -> (r: bool)
        ensures
            r == self.at_most(*other),
    {
        !self.is_nan() && !other.is_nan() && self.key() <= other.key()
    }

    /// `self == other` on binary64 values (not bitwise equality).
    pub fn num_eq(&self, other: &Binary64) -> (r: bool)
        ensures
            r == self.same_number(*other),
    {
        !self.is_nan() && !other.is_nan() && self.key() == other.key()
    }
}

impl PartialEq for Binary64 {
    fn eq(&self, other: &Binary64) -> (r: bool) {
        self.num_eq(other)
    }
}

impl vstd::std_specs::cmp::PartialEqSpecImpl for Binary64 {
    open spec fn obeys_eq_spec() -> bool {
        true
    }

    open spec fn eq_spec(&self, other: &Binary64) -> bool {
        self.same_number(*other)
    }
}

/// `<` is a strict order on the values it relates: never reflexive, and
/// transitive.
pub proof fn lemma_less_than_is_strict_order(a: Binary64, b: Binary64, c: Binary64)
    ensures
        !a.less_than(a),
        a.less_than(b) && b.less_than(c) ==> a.less_than(c),
        a.less_than(b) ==> !b.less_than(a),
{
}

/// A NaN on either side makes every comparison false, so "not strictly
/// increasing" is not the same as "decreasing or equal".
pub proof fn lemma_nan_compares_false(a: Binary64, b: Binary64)
    requires
        a.is_nan_spec() || b.is_nan_spec(),
    ensures
        !a.less_than(b),
        !b.less_than(a),
        !a.at_most(b),
        !a.same_number(b),
{
}

/// Between two values that are not NaN, exactly one of `<`, `==`, `>` holds.
pub proof fn lemma_trichotomy(a: Binary64, b: Binary64)
    requires
        !a.is_nan_spec(),
        !b.is_nan_spec(),
    ensures
        a.less_than(b) || a.same_number(b) || b.less_than(a),
        a.at_most(b) <==> (a.less_than(b) || a.same_number(b)),
{
}

} // verus!
