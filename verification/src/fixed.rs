//! Signed fixed-point values with a configurable number of 64-bit limbs.
use crate::limbs::{
    lemma_value_injective,
    add_magnitudes, compare_magnitude, fraction_scale, lemma_radix_adds, lemma_radix_is_pow2,
    lemma_radix_monotonic, lemma_radix_positive, lemma_value_bound, lemma_value_update,
    lemma_value_zero, limb_base, limbs_value, magnitude_ordering, multiply_magnitudes, radix,
    scaled_product, sub_magnitudes,
};
use core::cmp::Ordering;
use vstd::arithmetic::power2::{lemma2_to64, lemma_pow2_adds, pow2};
use vstd::prelude::*;

verus! {

/// The largest limb count for which the fractional bit count fits a `u32`.
pub const MAX_LIMBS: usize = 0x7FF_FFFF;

/// Signed fixed-point value stored as a little-endian magnitude.
///
/// Each limb contributes 32 fractional bits, so `Fixed<1>` is Q32, `Fixed<2>`
/// is Q64, and larger limb counts extend the fractional precision likewise.
/// A value `v` denotes the real number `v / 2^(32 N)`.
#[derive(Clone, Copy, Debug, Eq, PartialEq)]
pub struct Fixed<const N: usize> {
    negative: bool,
    limbs: [u64; N],
}

/// Whether an exact sum or difference of fixed-point values fits in `n` limbs.
pub open spec fn fixed_fits(value: int, n: nat) -> bool {
    -(radix(n) as int) < value < radix(n) as int
}

/// The magnitude of an integer.
pub open spec fn magnitude_of(value: int) -> nat {
    if value < 0 {
        (-value) as nat
    } else {
        value as nat
    }
}

/// Attaches a sign to a magnitude; zero is never negative.
pub open spec fn signed(negative: bool, magnitude: nat) -> int {
    if negative {
        -(magnitude as int)
    } else {
        magnitude as int
    }
}

/// The fixed-point product of two values with `n` limbs: the exact product,
/// rescaled by `2^(32 n)` toward zero and truncated to `n` limbs.
pub open spec fn fixed_product(left: int, right: int, n: nat) -> int {
    signed(
        (left < 0) != (right < 0),
        scaled_product(magnitude_of(left), magnitude_of(right), n),
    )
}

/// The fixed-point value of an integer with `n` limbs: `value * 2^(32 n)`,
/// truncated to `n` limbs.
pub open spec fn fixed_from_integer(value: int, n: nat) -> int {
    signed(value < 0, (magnitude_of(value) * fraction_scale(n)) % radix(n))
}

/// The ordering of two integers.
pub open spec fn integer_ordering(left: int, right: int) -> Ordering {
    if left < right {
        Ordering::Less
    } else if left > right {
        Ordering::Greater
    } else {
        Ordering::Equal
    }
}

impl<const N: usize> Fixed<N> {
    /// Holds of every value: the limb count is valid and zero is never negative.
    #[verifier::type_invariant]
    pub closed spec fn well_formed(self) -> bool {
        &&& 0 < N <= MAX_LIMBS
        &&& self.negative ==> limbs_value(self.limbs@) != 0
    }

    /// The magnitude of this value, as a multiple of `2^-(32 N)`.
    pub closed spec fn magnitude(self) -> nat {
        limbs_value(self.limbs@)
    }

    /// Whether this value lies below zero.
    pub closed spec fn is_negative_spec(self) -> bool {
        self.negative
    }
}

impl<const N: usize> View for Fixed<N> {
    type V = int;

    /// The signed integer `v` such that this value denotes `v / 2^(32 N)`.
    closed spec fn view(&self) -> int {
        signed(self.negative, limbs_value(self.limbs@))
    }
}

fn limbs_are_zero<const N: usize>(limbs: &[u64; N]) -> (zero: bool)
    ensures
        zero == (limbs_value(limbs@) == 0),
{
    proof {
        lemma_value_zero(limbs@);
    }
    let mut index: usize = 0;
    while index < N
        invariant
            0 <= index <= N,
            forall|k: int| 0 <= k < index ==> limbs@[k] == 0,
        decreases N - index,
    {
        if limbs[index] != 0 {
            proof {
                lemma_value_zero(limbs@);
                assert(limbs@[index as int] != 0);
            }
            return false;
        }
        index = index + 1;
    }
    true
}

impl<const N: usize> Fixed<N> {
    /// Builds a value from a magnitude and a requested sign, dropping the sign of zero.
    fn from_parts(negative: bool, limbs: [u64; N]) -> (result: Self)
        requires
            0 < N <= MAX_LIMBS,
        ensures
            result@ == signed(negative, limbs_value(limbs@)),
            result.magnitude() == limbs_value(limbs@),
    {
        let zero = limbs_are_zero(&limbs);
        Self { negative: negative && !zero, limbs }
    }

    /// What the invariant of every value says about its limb count and its magnitude.
    pub proof fn lemma_well_formed(self)
        requires
            self.well_formed(),
        ensures
            0 < N <= MAX_LIMBS,
            fixed_fits(self@, N as nat),
            self@ == signed(self.is_negative_spec(), self.magnitude()),
            self.magnitude() == magnitude_of(self@),
            self.magnitude() < radix(N as nat),
    {
        lemma_value_bound(self.limbs@);
    }

    /// A value is determined by the number it denotes: two values that
    /// denote the same number have the same sign and the same limbs. So
    /// `a.sub(b)` is `a.add(-b)`, `x.square()` is `x.mul(x)`, and `a.sub(a)`
    /// is `Fixed::zero()`, limb for limb, wherever they are defined.
    pub proof fn lemma_equal_values_are_equal(self, other: Self)
        requires
            self.well_formed(),
            other.well_formed(),
            self@ == other@,
        ensures
            self == other,
    {
        self.lemma_well_formed();
        other.lemma_well_formed();
        lemma_value_injective(self.limbs@, other.limbs@);
        assert(self.negative == other.negative);
        vstd::array::axiom_array_ext_equal(self.limbs, other.limbs);
        assert forall|i: int| 0 <= i < N implies self.limbs[i] == other.limbs[i] by {
            assert(self.limbs@[i] == other.limbs@[i]);
        }
        assert(self.limbs =~= other.limbs);
    }

    /// Zero.
    pub fn zero() -> (result: Self)
        requires
            0 < N <= MAX_LIMBS,
        ensures
            result@ == 0,
    {
        let limbs: [u64; N] = vstd::array::array_fill_for_copy_types(0u64);
        proof {
            lemma_value_zero(limbs@);
        }
        Self { negative: false, limbs }
    }

    /// Number of fractional bits: 32 per limb.
    pub fn fractional_bits() -> (bits: u32)
        requires
            N <= MAX_LIMBS,
        ensures
            bits == 32 * N,
    {
        (N as u32) * 32
    }

    /// Whether this value lies below zero.
    pub fn is_negative(&self) -> (negative: bool)
        ensures
            negative == (self@ < 0),
    {
        proof {
            use_type_invariant(self);
        }
        self.negative
    }

    /// The limbs of the magnitude, least significant first.
    pub fn limbs(&self) -> (limbs: [u64; N])
        ensures
            limbs_value(limbs@) == magnitude_of(self@),
    {
        proof {
            use_type_invariant(self);
        }
        self.limbs
    }

    /// Exact sum; the sum must fit in `N` limbs.
    pub fn add(self, rhs: Self) -> (result: Self)
        requires
            fixed_fits(self@ + rhs@, N as nat),
        ensures
            result@ == self@ + rhs@,
    {
        proof {
            use_type_invariant(self);
            use_type_invariant(rhs);
        }
        let ghost a = limbs_value(self.limbs@);
        let ghost b = limbs_value(rhs.limbs@);
        if self.negative == rhs.negative {
            let limbs = add_magnitudes(&self.limbs, &rhs.limbs);
            Self::from_parts(self.negative, limbs)
        } else if !Self::magnitude_is_smaller(&self.limbs, &rhs.limbs) {
            let limbs = sub_magnitudes(&self.limbs, &rhs.limbs);
            Self::from_parts(self.negative, limbs)
        } else {
            let limbs = sub_magnitudes(&rhs.limbs, &self.limbs);
            Self::from_parts(rhs.negative, limbs)
        }
    }

    fn magnitude_is_smaller(left: &[u64; N], right: &[u64; N]) -> (smaller: bool)
        ensures
            smaller == (limbs_value(left@) < limbs_value(right@)),
    {
        match compare_magnitude(left, right) {
            Ordering::Less => true,
            Ordering::Equal => false,
            Ordering::Greater => false,
        }
    }

    /// Exact difference; the difference must fit in `N` limbs.
    pub fn sub(self, rhs: Self) -> (result: Self)
        requires
            fixed_fits(self@ - rhs@, N as nat),
        ensures
            result@ == self@ - rhs@,
    {
        self.add(core::ops::Neg::neg(rhs))
    }

    /// Fixed-point product, rescaled toward zero and truncated to `N` limbs.
    pub fn mul(self, rhs: Self) -> (result: Self)
        ensures
            result@ == fixed_product(self@, rhs@, N as nat),
    {
        proof {
            use_type_invariant(self);
            use_type_invariant(rhs);
        }
        let limbs = multiply_magnitudes(&self.limbs, &rhs.limbs);
        Self::from_parts(self.negative ^ rhs.negative, limbs)
    }

    /// `self.mul(self)`.
    pub fn square(self) -> (result: Self)
        ensures
            result@ == fixed_product(self@, self@, N as nat),
    {
        self.mul(self)
    }

    /// Orders two values by the numbers they denote.
    pub fn compare(self, rhs: Self) -> (ordering: Ordering)
        ensures
            ordering == integer_ordering(self@, rhs@),
    {
        proof {
            use_type_invariant(self);
            use_type_invariant(rhs);
        }
        match (self.negative, rhs.negative) {
            (true, false) => Ordering::Less,
            (false, true) => Ordering::Greater,
            (false, false) => compare_magnitude(&self.limbs, &rhs.limbs),
            (true, true) => compare_magnitude(&rhs.limbs, &self.limbs),
        }
    }
}


proof fn lemma_low_word(m: u128)
    ensures
        (m as u64) << 0u32 == m % 0x1_0000_0000_0000_0000,
        (m >> 64) as u64 == m / 0x1_0000_0000_0000_0000,
{
    assert((m as u64) << 0u32 == m % 0x1_0000_0000_0000_0000) by (bit_vector);
    assert((m >> 64) as u64 == m / 0x1_0000_0000_0000_0000) by (bit_vector);
}

proof fn lemma_half_words(m: u128)
    requires
        m < 0x1_0000_0000_0000_0000,
    ensures
        ((m as u64) << 32u32) as u64 == (m % 0x1_0000_0000) * 0x1_0000_0000,
        0u64 | ((m as u64) >> 32u32) == m / 0x1_0000_0000,
        (0u64 | ((m as u64) >> 32u32)) | (((m >> 64) as u64) << 32u32) == m / 0x1_0000_0000,
{
    assert(((m as u64) << 32u32) as u64 == (m % 0x1_0000_0000) * 0x1_0000_0000) by (bit_vector)
        requires
            m < 0x1_0000_0000_0000_0000,
    ;
    assert(0u64 | ((m as u64) >> 32u32) == m / 0x1_0000_0000) by (bit_vector)
        requires
            m < 0x1_0000_0000_0000_0000,
    ;
    assert((0u64 | ((m as u64) >> 32u32)) | (((m >> 64) as u64) << 32u32) == m / 0x1_0000_0000)
        by (bit_vector)
        requires
            m < 0x1_0000_0000_0000_0000,
    ;
}

/// Places `magnitude * 2^shift` into zeroed limbs, truncated to `N` limbs.
#[verifier::spinoff_prover]
fn set_shifted_magnitude<const N: usize>(limbs: &mut [u64; N], magnitude: u128, shift: u32)
    requires
        0 < N <= MAX_LIMBS,
        forall|k: int| 0 <= k < N ==> old(limbs)@[k] == 0,
        shift == 0 || shift == 32 * N,
        shift == 32 * N ==> magnitude < 0x1_0000_0000_0000_0000,
        shift == 0 ==> (N <= 2 || magnitude < 0x1_0000_0000_0000_0000),
    ensures
        limbs_value(final(limbs)@) == ((magnitude as nat) * pow2(shift as nat)) % radix(N as nat),
{
    let word_shift: usize = (shift / 64) as usize;
    let bit_shift: u32 = shift % 64;
    proof {
        lemma_value_zero(limbs@);
        assert(word_shift == shift / 64);
        assert(word_shift < N);
        assert(bit_shift == 0 || bit_shift == 32);
    }
    let ghost zeros = limbs@;
    let ghost ws = word_shift as int;
    let first: u64 = (magnitude as u64) << bit_shift;
    limbs[word_shift] = first;
    proof {
        lemma_value_update(zeros, ws, first);
    }
    let ghost after_first = limbs@;
    if bit_shift != 0 && word_shift + 1 < N {
        limbs[word_shift + 1] = limbs[word_shift + 1] | ((magnitude as u64) >> (64 - bit_shift));
        limbs[word_shift + 1] = limbs[word_shift + 1] | (((magnitude >> 64) as u64) << bit_shift);
    } else if word_shift + 1 < N {
        limbs[word_shift + 1] = (magnitude >> 64) as u64;
    }
    proof {
        let m = magnitude as nat;
        let w = ws as nat;
        let r = radix(w);
        let next = radix(w + 1);
        assert(limbs_value(after_first) == first * r);
        if word_shift + 1 < N {
            lemma_value_update(after_first, ws + 1, limbs@[ws + 1]);
            assert(after_first.update(ws + 1, limbs@[ws + 1]) =~= limbs@);
            assert(limbs_value(limbs@) == first * r + limbs@[ws + 1] * next);
        } else {
            assert(after_first =~= limbs@);
        }
        if bit_shift == 0 {
            lemma_low_word(magnitude);
            assert(first == m % limb_base());
            assert(word_shift + 1 < N ==> limbs@[ws + 1] == m / limb_base());
            assert(shift as nat == 64 * w);
            assert(w != 0 ==> 2 * w == N);
            lemma_word_placement(m, N as nat, w, limbs_value(limbs@));
        } else {
            lemma_half_words(magnitude);
            assert(first == (m % 0x1_0000_0000) * 0x1_0000_0000);
            assert(word_shift + 1 < N ==> limbs@[ws + 1] == m / 0x1_0000_0000);
            assert(shift == 32 * N);
            assert(N == 2 * w + 1);
            lemma_half_word_placement(m, N as nat, w, limbs_value(limbs@));
        }
    }
}

/// The value of a magnitude placed at word `ws`, with its high word in the
/// next limb when there is one, is the magnitude shifted by `ws` words,
/// reduced to `n` limbs.
proof fn lemma_word_placement(m: nat, n: nat, ws: nat, value: nat)
    requires
        ws < n,
        m < 0x1_0000_0000_0000_0000_0000_0000_0000_0000,
        ws == 0 ==> (n <= 2 || m < limb_base()),
        ws != 0 ==> 2 * ws == n && m < limb_base(),
        ws + 1 < n ==> value == (m % limb_base()) * radix(ws) + (m / limb_base()) * radix(ws + 1),
        ws + 1 >= n ==> value == (m % limb_base()) * radix(ws),
    ensures
        value == (m * pow2(64 * ws)) % radix(n),
{
    let r = radix(ws);
    let b = limb_base();
    lemma_radix_positive(ws);
    lemma_radix_is_pow2(ws);
    lemma_radix_adds(ws, 1);
    lemma_radix_adds(ws, 2);
    assert(radix(2) == b * b && radix(1) == b) by {
        reveal_with_fuel(radix, 3);
    }
    if ws == 0 {
        assert(r == 1);
        assert(radix(ws + 1) == b);
        assert((m % b) * r == m % b) by {
            vstd::arithmetic::mul::lemma_mul_basics((m % b) as int);
        }
        assert(pow2(0) == 1) by {
            lemma2_to64();
        }
        if n >= 2 {
            assert(value == (m % b) + (m / b) * b);
            vstd::arithmetic::div_mod::lemma_fundamental_div_mod(m as int, b as int);
            lemma_radix_monotonic(2, n);
            vstd::arithmetic::div_mod::lemma_small_mod(m, radix(n));
        } else {
            assert(value == m % b);
        }
    } else {
        assert(m % b == m);
        assert(m / b == 0);
        assert((m / b) * radix(ws + 1) == 0) by (nonlinear_arith)
            requires
                m / b == 0,
        ;
        assert(value == m * r);
        lemma_radix_monotonic(ws + 1, n);
        assert(m * r < b * r) by (nonlinear_arith)
            requires
                m < b,
                r > 0,
        ;
        vstd::arithmetic::div_mod::lemma_small_mod(m * r, radix(n));
    }
}

/// The value of a magnitude shifted by half a word and placed at word `ws`
/// of `n = 2 ws + 1` limbs is the magnitude shifted by `32 n` bits, reduced
/// to `n` limbs.
proof fn lemma_half_word_placement(m: nat, n: nat, ws: nat, value: nat)
    requires
        m < limb_base(),
        n == 2 * ws + 1,
        ws + 1 < n ==> value == ((m % 0x1_0000_0000) * 0x1_0000_0000) * radix(ws) + (m
            / 0x1_0000_0000) * radix(ws + 1),
        ws + 1 >= n ==> value == ((m % 0x1_0000_0000) * 0x1_0000_0000) * radix(ws),
    ensures
        value == (m * pow2(32 * n)) % radix(n),
{
    let r = radix(ws);
    let b = limb_base();
    let h: nat = 0x1_0000_0000;
    lemma_radix_positive(ws);
    lemma_radix_is_pow2(ws);
    lemma_radix_adds(ws, 1);
    lemma_radix_adds(ws, 2);
    assert(radix(2) == b * b && radix(1) == b) by {
        reveal_with_fuel(radix, 3);
    }
    lemma2_to64();
    lemma_pow2_adds(64 * ws, 32);
    assert(pow2(32 * n) == r * h);
    let lo = m % h;
    let hi = m / h;
    vstd::arithmetic::div_mod::lemma_fundamental_div_mod(m as int, h as int);
    if ws + 1 < n {
        assert(value == lo * h * r + hi * (b * r));
        assert(lo * h * r + hi * (b * r) == m * (r * h)) by (nonlinear_arith)
            requires
                m == h * hi + lo,
                b == h * h,
        ;
        lemma_radix_monotonic(ws + 2, n);
        assert(m * (r * h) < b * b * r) by (nonlinear_arith)
            requires
                m < b,
                r > 0,
                h < b,
        ;
        vstd::arithmetic::div_mod::lemma_small_mod(m * (r * h), radix(n));
    } else {
        assert(n == 1);
        assert(ws == 0);
        assert(r == 1);
        assert(lo * h * r == lo * h) by (nonlinear_arith)
            requires
                r == 1,
        ;
        assert(value == lo * h);
        assert(radix(n) == b);
        assert(m * h == hi * b + lo * h) by (nonlinear_arith)
            requires
                m == h * hi + lo,
                b == h * h,
        ;
        assert(lo * h < b) by (nonlinear_arith)
            requires
                lo < h,
                b == h * h,
        ;
        vstd::arithmetic::div_mod::lemma_fundamental_div_mod_converse(
            (m * h) as int,
            b as int,
            hi as int,
            (lo * h) as int,
        );
    }
}

impl<const N: usize> Fixed<N> {
    /// `value * 2^(32 N)`, truncated to `N` limbs (only `Fixed<1>` truncates).
    pub fn from_i64(value: i64) -> (result: Self)
        requires
            0 < N <= MAX_LIMBS,
        ensures
            result@ == fixed_from_integer(value as int, N as nat),
    {
        let mut limbs: [u64; N] = vstd::array::array_fill_for_copy_types(0u64);
        let magnitude: u128 = if value < 0 {
            (0i128 - value as i128) as u128
        } else {
            value as u128
        };
        let shift = Self::fractional_bits();
        set_shifted_magnitude(&mut limbs, magnitude, shift);
        Self::from_parts(value < 0, limbs)
    }

    /// A value from a magnitude already scaled by `2^(32 N)` and a sign; the
    /// magnitude is truncated to `N` limbs.
    pub fn from_scaled_magnitude(magnitude: u128, negative: bool) -> (result: Self)
        requires
            0 < N <= MAX_LIMBS,
            N <= 2 || magnitude < 0x1_0000_0000_0000_0000,
        ensures
            result@ == signed(negative, (magnitude as nat) % radix(N as nat)),
    {
        let mut limbs: [u64; N] = vstd::array::array_fill_for_copy_types(0u64);
        set_shifted_magnitude(&mut limbs, magnitude, 0);
        proof {
            assert(pow2(0) == 1) by {
                lemma2_to64();
            }
        }
        Self::from_parts(negative, limbs)
    }
}

/// Multiplication does not depend on the order of its operands.
pub proof fn lemma_mul_commutes(left: int, right: int, n: nat)
    ensures
        fixed_product(left, right, n) == fixed_product(right, left, n),
{
    assert(magnitude_of(left) * magnitude_of(right) == magnitude_of(right) * magnitude_of(left))
        by (nonlinear_arith);
}

/// Multiplying by zero gives zero.
pub proof fn lemma_mul_by_zero(value: int, n: nat)
    ensures
        fixed_product(value, 0, n) == 0,
        fixed_product(0, value, n) == 0,
{
    assert(magnitude_of(value) * 0 == 0) by (nonlinear_arith);
    assert(0 * magnitude_of(value) == 0) by (nonlinear_arith);
    crate::limbs::lemma_radix_positive(n);
    vstd::arithmetic::power2::lemma_pow2_pos(32 * n);
    let scale = fraction_scale(n);
    assert(scale > 0);
    assert(0nat * magnitude_of(value) == 0);
    assert((0 * magnitude_of(value)) as nat / scale == 0);
    assert(0nat % radix(n) == 0);
    assert(scaled_product(0, magnitude_of(value), n) == 0);
    assert(scaled_product(magnitude_of(value), 0, n) == 0);
}

/// A square is never negative.
pub proof fn lemma_square_is_not_negative(value: int, n: nat)
    ensures
        fixed_product(value, value, n) >= 0,
{
}

/// Subtracting what was added gives back the original value.
pub proof fn lemma_sub_undoes_add(value: int, addend: int)
    ensures
        (value + addend) - addend == value,
{
}

/// Comparing in the other order reverses the ordering.
pub proof fn lemma_compare_reverses(left: int, right: int)
    ensures
        integer_ordering(left, right) == match integer_ordering(right, left) {
            Ordering::Less => Ordering::Greater,
            Ordering::Greater => Ordering::Less,
            Ordering::Equal => Ordering::Equal,
        },
{
}

/// A value compares as less than another exactly when their difference is
/// negative, and as equal exactly when they denote the same number.
pub proof fn lemma_compare_agrees_with_sub(left: int, right: int)
    ensures
        (integer_ordering(left, right) == Ordering::Less) <==> left - right < 0,
        (integer_ordering(left, right) == Ordering::Equal) <==> left - right == 0,
{
}

impl<const N: usize> Fixed<N> {
    /// Negating twice gives back the same value.
    pub proof fn lemma_neg_twice(self)
        ensures
            -(-self@) == self@,
    {
    }
}

impl<const N: usize> vstd::std_specs::ops::NegSpecImpl for Fixed<N> {
    open spec fn obeys_neg_spec() -> bool {
        true
    }

    open spec fn neg_req(self) -> bool {
        true
    }

    closed spec fn neg_spec(self) -> Self {
        if limbs_value(self.limbs@) == 0 {
            self
        } else {
            Fixed { negative: !self.negative, limbs: self.limbs }
        }
    }
}

impl<const N: usize> core::ops::Neg for Fixed<N> {
    type Output = Self;

    /// Negation; zero stays zero.
    fn neg(self) -> (result: Self)
        ensures
            result@ == -self@,
    {
        proof {
            use_type_invariant(self);
        }
        let zero = limbs_are_zero(&self.limbs);
        if zero {
            self
        } else {
            Fixed { negative: !self.negative, limbs: self.limbs }
        }
    }
}

} // verus!
