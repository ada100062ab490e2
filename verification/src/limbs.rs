//! Little-endian magnitudes made of 64-bit limbs, and the unsigned
//! arithmetic that signed fixed-point values are built on.
use core::cmp::Ordering;
use vstd::arithmetic::div_mod::{
    lemma_div_denominator, lemma_fundamental_div_mod, lemma_fundamental_div_mod_converse,
};
use vstd::arithmetic::power2::{lemma2_to64, lemma2_to64_rest, lemma_pow2_adds, pow2};
use vstd::prelude::*;

verus! {

/// The weight of one limb: 2^64.
pub open spec fn limb_base() -> nat {
    0x1_0000_0000_0000_0000
}

/// `limb_base()` raised to `n`: the weight of limb `n`.
pub open spec fn radix(n: nat) -> nat
    decreases n,
{
    if n == 0 {
        1
    } else {
        limb_base() * radix((n - 1) as nat)
    }
}

/// The natural number that a little-endian limb sequence denotes.
pub open spec fn limbs_value(s: Seq<u64>) -> nat
    decreases s.len(),
{
    if s.len() == 0 {
        0
    } else {
        s[0] as nat + limb_base() * limbs_value(s.subrange(1, s.len() as int))
    }
}

pub proof fn lemma_radix_positive(n: nat)
    ensures
        radix(n) > 0,
    decreases n,
{
    if n > 0 {
        lemma_radix_positive((n - 1) as nat);
        assert(limb_base() * radix((n - 1) as nat) > 0) by (nonlinear_arith)
            requires
                radix((n - 1) as nat) > 0,
                limb_base() > 0,
        ;
    }
}

pub proof fn lemma_radix_adds(a: nat, b: nat)
    ensures
        radix(a + b) == radix(a) * radix(b),
    decreases a,
{
    if a > 0 {
        let p = (a - 1) as nat;
        lemma_radix_adds(p, b);
        assert(radix(a) == limb_base() * radix(p));
        assert((a + b) as nat == (p + b + 1) as nat);
        assert(radix(a + b) == limb_base() * radix(p + b));
        assert(limb_base() * (radix(p) * radix(b)) == (limb_base() * radix(p)) * radix(b))
            by (nonlinear_arith);
        assert(radix(a + b) == limb_base() * (radix(p) * radix(b)));
    } else {
        assert(radix(0) == 1);
        assert(a + b == b);
    }
}

pub proof fn lemma_radix_monotonic(a: nat, b: nat)
    requires
        a <= b,
    ensures
        radix(a) <= radix(b),
{
    lemma_radix_adds(a, (b - a) as nat);
    lemma_radix_positive(a);
    lemma_radix_positive((b - a) as nat);
    assert(radix(a) * radix((b - a) as nat) >= radix(a)) by (nonlinear_arith)
        requires
            radix((b - a) as nat) >= 1,
            radix(a) > 0,
    ;
}

/// A sequence of `n` limbs never denotes more than `radix(n) - 1`.
pub proof fn lemma_value_bound(s: Seq<u64>)
    ensures
        limbs_value(s) < radix(s.len()),
    decreases s.len(),
{
    if s.len() > 0 {
        let rest = s.subrange(1, s.len() as int);
        lemma_value_bound(rest);
        let r = radix(rest.len());
        let v = limbs_value(rest);
        assert(s[0] + limb_base() * v < limb_base() * r) by (nonlinear_arith)
            requires
                v < r,
                s[0] < limb_base(),
        ;
    }
}

/// Splitting a limb sequence at `i` splits its value into a low and a high part.
pub proof fn lemma_value_split(s: Seq<u64>, i: int)
    requires
        0 <= i <= s.len(),
    ensures
        limbs_value(s) == limbs_value(s.take(i)) + radix(i as nat) * limbs_value(s.skip(i)),
    decreases i,
{
    if i == 0 {
        assert(s.skip(0) =~= s);
        assert(s.take(0) =~= Seq::<u64>::empty());
        assert(limbs_value(s.take(0)) == 0);
        assert(radix(0) == 1);
        assert(radix(0) * limbs_value(s.skip(0)) == limbs_value(s));
    } else {
        let rest = s.subrange(1, s.len() as int);
        lemma_value_split(rest, i - 1);
        let t = s.take(i);
        assert(rest.take(i - 1) =~= t.subrange(1, t.len() as int));
        assert(limbs_value(t) == t[0] + limb_base() * limbs_value(t.subrange(1, t.len() as int)));
        assert(radix(i as nat) == limb_base() * radix((i - 1) as nat));
        assert(t[0] == s[0]);
        assert(limbs_value(s) == s[0] + limb_base() * limbs_value(rest));
        assert(rest.skip(i - 1) =~= s.skip(i));
        let lo = limbs_value(rest.take(i - 1));
        let hi = limbs_value(s.skip(i));
        let r = radix((i - 1) as nat);
        assert(limb_base() * (lo + r * hi) == limb_base() * lo + (limb_base() * r) * hi)
            by (nonlinear_arith);
        assert(limbs_value(rest) == lo + r * hi);
        assert(limbs_value(t) == s[0] + limb_base() * lo);
        assert(limbs_value(s) == limbs_value(t) + radix(i as nat) * hi);
    }
}

/// The value of a one-limb-longer prefix adds that limb at its weight.
pub proof fn lemma_value_prefix_step(s: Seq<u64>, i: int)
    requires
        0 <= i < s.len(),
    ensures
        limbs_value(s.take(i + 1)) == limbs_value(s.take(i)) + s[i] * radix(i as nat),
{
    let t = s.take(i + 1);
    lemma_value_split(t, i);
    assert(t.take(i) =~= s.take(i));
    let last = t.skip(i);
    assert(last.subrange(1, last.len() as int) =~= Seq::<u64>::empty());
    assert(limbs_value(Seq::<u64>::empty()) == 0);
    assert(limbs_value(last) == s[i]);
    assert(radix(i as nat) * s[i] == s[i] * radix(i as nat)) by (nonlinear_arith);
}

/// Replacing limb `k` by `x` changes the value by the difference at weight `k`.
pub proof fn lemma_value_update(s: Seq<u64>, k: int, x: u64)
    requires
        0 <= k < s.len(),
    ensures
        limbs_value(s.update(k, x)) + s[k] * radix(k as nat) == limbs_value(s) + x * radix(
            k as nat,
        ),
{
    let u = s.update(k, x);
    lemma_value_split(s, k);
    lemma_value_split(u, k);
    assert(u.take(k) =~= s.take(k));
    let hs = s.skip(k);
    let hu = u.skip(k);
    assert(hs.subrange(1, hs.len() as int) =~= hu.subrange(1, hu.len() as int));
    let rest = limbs_value(hs.subrange(1, hs.len() as int));
    let r = radix(k as nat);
    assert(r * (x + limb_base() * rest) + s[k] * r == r * (s[k] + limb_base() * rest) + x * r)
        by (nonlinear_arith);
}

/// Sequences that agree from `i` on have equal high parts.
pub proof fn lemma_skip_equal(a: Seq<u64>, b: Seq<u64>, i: int)
    requires
        a.len() == b.len(),
        0 <= i <= a.len(),
        forall|k: int| i <= k < a.len() ==> a[k] == b[k],
    ensures
        limbs_value(a.skip(i)) == limbs_value(b.skip(i)),
{
    assert(a.skip(i) =~= b.skip(i));
}

/// Limb sequences of one length with the same value are the same sequence.
pub proof fn lemma_value_injective(a: Seq<u64>, b: Seq<u64>)
    requires
        a.len() == b.len(),
        limbs_value(a) == limbs_value(b),
    ensures
        a == b,
    decreases a.len(),
{
    if a.len() > 0 {
        let rest_a = a.subrange(1, a.len() as int);
        let rest_b = b.subrange(1, b.len() as int);
        let base = limb_base() as int;
        let value = limbs_value(a) as int;
        let high_a = limbs_value(rest_a) as int;
        let high_b = limbs_value(rest_b) as int;
        assert(value == high_a * base + a[0]) by (nonlinear_arith)
            requires
                value == a[0] + base * high_a,
        ;
        assert(value == high_b * base + b[0]) by (nonlinear_arith)
            requires
                value == b[0] + base * high_b,
        ;
        vstd::arithmetic::div_mod::lemma_fundamental_div_mod_converse(value, base, high_a, a[0] as int);
        vstd::arithmetic::div_mod::lemma_fundamental_div_mod_converse(value, base, high_b, b[0] as int);
        lemma_value_injective(rest_a, rest_b);
        assert forall|i: int| 0 <= i < a.len() implies a[i] == b[i] by {
            if i > 0 {
                assert(a[i] == rest_a[i - 1]);
                assert(b[i] == rest_b[i - 1]);
            }
        }
        assert(a =~= b);
    } else {
        assert(a =~= b);
    }
}

/// A sequence of zero limbs denotes zero, and only such a sequence does.
pub proof fn lemma_value_zero(s: Seq<u64>)
    ensures
        (limbs_value(s) == 0) == (forall|k: int| 0 <= k < s.len() ==> s[k] == 0),
    decreases s.len(),
{
    if s.len() > 0 {
        let rest = s.subrange(1, s.len() as int);
        lemma_value_zero(rest);
        if limbs_value(s) == 0 {
            assert(limbs_value(rest) == 0) by (nonlinear_arith)
                requires
                    s[0] + limb_base() * limbs_value(rest) == 0,
            ;
            assert forall|k: int| 0 <= k < s.len() implies s[k] == 0 by {
                if k > 0 {
                    assert(s[k] == rest[k - 1]);
                }
            }
        } else {
            if forall|k: int| 0 <= k < s.len() ==> s[k] == 0 {
                assert forall|k: int| 0 <= k < rest.len() implies rest[k] == 0 by {
                    assert(rest[k] == s[k + 1]);
                }
                assert(s[0] == 0);
            }
        }
    }
}


/// A 128-bit intermediate splits into its low limb and its carry.
pub proof fn lemma_u128_split(x: u128)
    ensures
        x as u64 == x % 0x1_0000_0000_0000_0000,
        x >> 64 == x / 0x1_0000_0000_0000_0000,
{
    assert(x as u64 == x % 0x1_0000_0000_0000_0000) by (bit_vector);
    assert(x >> 64 == x / 0x1_0000_0000_0000_0000) by (bit_vector);
}

/// Adds two magnitudes limb by limb; the sum must fit in `N` limbs.
pub fn add_magnitudes<const N: usize>(left: &[u64; N], right: &[u64; N]) -> (result: [u64; N])
    requires
        limbs_value(left@) + limbs_value(right@) < radix(N as nat),
    ensures
        limbs_value(result@) == limbs_value(left@) + limbs_value(right@),
{
    let mut result: [u64; N] = vstd::array::array_fill_for_copy_types(0u64);
    let mut carry: u128 = 0;
    let mut index: usize = 0;
    while index < N
        invariant
            0 <= index <= N,
            carry <= 1,
            result@.len() == N,
            limbs_value(result@.take(index as int)) + carry * radix(index as nat) == limbs_value(
                left@.take(index as int),
            ) + limbs_value(right@.take(index as int)),
        decreases N - index,
    {
        let sum: u128 = left[index] as u128 + right[index] as u128 + carry;
        proof {
            lemma_u128_split(sum);
            lemma_value_prefix_step(left@, index as int);
            lemma_value_prefix_step(right@, index as int);
        }
        let ghost before = result@;
        let ghost old_carry = carry;
        result[index] = sum as u64;
        carry = sum >> 64;
        proof {
            let i = index as int;
            assert(result@.take(i) =~= before.take(i));
            lemma_value_prefix_step(result@, i);
            let r = radix(i as nat);
            assert(radix((i + 1) as nat) == limb_base() * r);
            let sn = sum as nat;
            assert((sn % limb_base()) * r + (sn / limb_base()) * (limb_base() * r) == sn * r)
                by (nonlinear_arith);
            assert(sn * r == left@[i] * r + right@[i] * r + old_carry * r) by (nonlinear_arith)
                requires
                    sn == left@[i] + right@[i] + old_carry,
            ;
        }
        index = index + 1;
    }
    proof {
        assert(left@.take(N as int) =~= left@);
        assert(right@.take(N as int) =~= right@);
        assert(result@.take(N as int) =~= result@);
        lemma_value_bound(result@);
        if carry > 0 {
            assert(carry * radix(N as nat) >= radix(N as nat)) by (nonlinear_arith)
                requires
                    carry >= 1,
            ;
        }
    }
    result
}


/// Subtracts `right` from `left` limb by limb; `left` must not be smaller.
pub fn sub_magnitudes<const N: usize>(left: &[u64; N], right: &[u64; N]) -> (result: [u64; N])
    requires
        limbs_value(left@) >= limbs_value(right@),
    ensures
        limbs_value(result@) == limbs_value(left@) - limbs_value(right@),
{
    let mut result: [u64; N] = vstd::array::array_fill_for_copy_types(0u64);
    let mut borrow: u64 = 0;
    let mut index: usize = 0;
    while index < N
        invariant
            0 <= index <= N,
            borrow <= 1,
            result@.len() == N,
            limbs_value(result@.take(index as int)) + limbs_value(right@.take(index as int))
                == limbs_value(left@.take(index as int)) + borrow * radix(index as nat),
        decreases N - index,
    {
        let first = left[index].wrapping_sub(right[index]);
        let first_borrow = left[index] < right[index];
        let value = first.wrapping_sub(borrow);
        let second_borrow = first < borrow;
        let ghost before = result@;
        let ghost old_borrow = borrow;
        result[index] = value;
        borrow = if first_borrow || second_borrow {
            1
        } else {
            0
        };
        proof {
            let i = index as int;
            lemma_value_prefix_step(left@, i);
            lemma_value_prefix_step(right@, i);
            assert(result@.take(i) =~= before.take(i));
            lemma_value_prefix_step(result@, i);
            let r = radix(i as nat);
            assert(radix((i + 1) as nat) == limb_base() * r);
            assert(value + right@[i] == left@[i] - old_borrow + borrow * limb_base());
            assert(value * r + right@[i] * r == left@[i] * r - old_borrow * r + borrow * (
            limb_base() * r)) by (nonlinear_arith)
                requires
                    value + right@[i] == left@[i] - old_borrow + borrow * limb_base(),
            ;
        }
        index = index + 1;
    }
    proof {
        assert(left@.take(N as int) =~= left@);
        assert(right@.take(N as int) =~= right@);
        assert(result@.take(N as int) =~= result@);
        lemma_value_bound(result@);
        if borrow > 0 {
            assert(borrow * radix(N as nat) >= radix(N as nat)) by (nonlinear_arith)
                requires
                    borrow >= 1,
            ;
        }
    }
    result
}

/// How two magnitudes compare.
pub open spec fn magnitude_ordering(left: nat, right: nat) -> Ordering {
    if left < right {
        Ordering::Less
    } else if left > right {
        Ordering::Greater
    } else {
        Ordering::Equal
    }
}

proof fn lemma_compare_at(left: Seq<u64>, right: Seq<u64>, position: usize)
    requires
        left.len() == right.len(),
        position < left.len(),
        forall|k: int| position < k < left.len() ==> left[k] == right[k],
        left[position as int] < right[position as int],
    ensures
        limbs_value(left) < limbs_value(right),
{
    let i = position as int;
    lemma_compare_at_int(left, right, i);
}

proof fn lemma_compare_at_int(left: Seq<u64>, right: Seq<u64>, i: int)
    requires
        left.len() == right.len(),
        0 <= i < left.len(),
        forall|k: int| i < k < left.len() ==> left[k] == right[k],
        left[i] < right[i],
    ensures
        limbs_value(left) < limbs_value(right),
{
    lemma_value_split(left, i);
    lemma_value_split(right, i);
    lemma_skip_equal(left, right, i + 1);
    lemma_value_bound(left.take(i));
    let hl = left.skip(i);
    let hr = right.skip(i);
    assert(hl.subrange(1, hl.len() as int) =~= left.skip(i + 1));
    assert(hr.subrange(1, hr.len() as int) =~= right.skip(i + 1));
    let top = limbs_value(left.skip(i + 1));
    assert(limbs_value(hl) == left[i] + limb_base() * top);
    assert(limbs_value(hr) == right[i] + limb_base() * top);
    let r = radix(i as nat);
    assert(r * limbs_value(hl) + r <= r * limbs_value(hr)) by (nonlinear_arith)
        requires
            limbs_value(hl) + 1 <= limbs_value(hr),
            r >= 0,
    ;
}

/// Compares two magnitudes from the most significant limb down.
pub fn compare_magnitude<const N: usize>(left: &[u64; N], right: &[u64; N]) -> (ordering:
    Ordering)
    ensures
        ordering == magnitude_ordering(limbs_value(left@), limbs_value(right@)),
{
    let mut index: usize = N;
    while index > 0
        invariant
            index <= N,
            forall|k: int| index <= k < N ==> left@[k] == right@[k],
        decreases index,
    {
        let position = index - 1;
        if left[position] < right[position] {
            proof {
                lemma_compare_at(left@, right@, position);
            }
            return Ordering::Less;
        }
        if left[position] > right[position] {
            proof {
                lemma_compare_at(right@, left@, position);
            }
            return Ordering::Greater;
        }
        index = position;
    }
    proof {
        assert(left@ =~= right@);
    }
    Ordering::Equal
}


/// The scale of a fixed-point value with `n` limbs: 2^(32 n).
pub open spec fn fraction_scale(n: nat) -> nat {
    pow2(32 * n)
}

pub proof fn lemma_radix_is_pow2(n: nat)
    ensures
        radix(n) == pow2(64 * n),
    decreases n,
{
    lemma2_to64_rest();
    lemma2_to64();
    if n > 0 {
        lemma_radix_is_pow2((n - 1) as nat);
        lemma_pow2_adds(64, 64 * (n - 1) as nat);
        assert(64 + 64 * (n - 1) as nat == 64 * n);
    }
}

/// Limbs shifted right by 32 bits, each taking the low half of its upper neighbour.
pub open spec fn shift_right_half(s: Seq<u64>) -> Seq<u64> {
    Seq::new(
        s.len(),
        |k: int|
            if k + 1 < s.len() {
                ((s[k] >> 32u64) | (s[k + 1] << 32u64)) as u64
            } else {
                s[k] >> 32u64
            },
    )
}

proof fn lemma_half_limb_join(low: u64, high: u64)
    ensures
        ((low >> 32u64) | (high << 32u64)) as u64 == low / 0x1_0000_0000 + (high % 0x1_0000_0000)
            * 0x1_0000_0000,
        low >> 32u64 == low / 0x1_0000_0000,
{
    assert(((low >> 32u64) | (high << 32u64)) as u64 == low / 0x1_0000_0000 + (high
        % 0x1_0000_0000) * 0x1_0000_0000) by (bit_vector);
    assert(low >> 32u64 == low / 0x1_0000_0000) by (bit_vector);
}

/// Shifting every limb right by half a limb divides the value by 2^32.
pub proof fn lemma_shift_right_half(s: Seq<u64>)
    ensures
        limbs_value(shift_right_half(s)) == limbs_value(s) / 0x1_0000_0000,
    decreases s.len(),
{
    let h: int = 0x1_0000_0000;
    let t = shift_right_half(s);
    if s.len() == 0 {
        assert(limbs_value(s) == 0);
        assert(limbs_value(t) == 0);
    } else {
        let rest = s.subrange(1, s.len() as int);
        lemma_shift_right_half(rest);
        assert(t.subrange(1, t.len() as int) =~= shift_right_half(rest));
        let x = limbs_value(rest) as int;
        let s0 = s[0] as int;
        lemma_half_limb_join(s[0], if s.len() > 1 { s[1] } else { 0u64 });
        let c = s0 / h;
        let e = s0 % h;
        lemma_fundamental_div_mod(s0, h);
        // (s0 + B x) = e + h (c + h x)
        assert(s0 + limb_base() * x == (c + h * x) * h + e) by (nonlinear_arith)
            requires
                s0 == h * c + e,
                limb_base() == h * h,
        ;
        lemma_fundamental_div_mod_converse(s0 + limb_base() * x, h, c + h * x, e);
        if s.len() == 1 {
            assert(rest.len() == 0);
            assert(x == 0);
            assert(t[0] == s[0] >> 32u64);
            assert(limbs_value(t.subrange(1, t.len() as int)) == 0);
        } else {
            let s1 = s[1] as int;
            let rest2 = rest.subrange(1, rest.len() as int);
            let y = limbs_value(rest2) as int;
            assert(x == s1 + limb_base() * y);
            let a = s1 / h;
            let m = s1 % h;
            lemma_fundamental_div_mod(s1, h);
            assert(x == (a + h * y) * h + m) by (nonlinear_arith)
                requires
                    x == s1 + limb_base() * y,
                    s1 == h * a + m,
                    limb_base() == h * h,
            ;
            lemma_fundamental_div_mod_converse(x, h, a + h * y, m);
            assert(t[0] == c + m * h);
            assert(c + h * x == c + m * h + limb_base() * (a + h * y)) by (nonlinear_arith)
                requires
                    x == (a + h * y) * h + m,
                    limb_base() == h * h,
            ;
        }
    }
}

/// The low `n` limbs of a sequence hold its value modulo `radix(n)`.
pub proof fn lemma_value_take(s: Seq<u64>, n: int)
    requires
        0 <= n <= s.len(),
    ensures
        limbs_value(s.take(n)) == limbs_value(s) % radix(n as nat),
        limbs_value(s.skip(n)) == limbs_value(s) / radix(n as nat),
{
    lemma_value_split(s, n);
    lemma_value_bound(s.take(n));
    lemma_radix_positive(n as nat);
    assert(s.take(n).len() == n);
    lemma_fundamental_div_mod_converse(
        limbs_value(s) as int,
        radix(n as nat) as int,
        limbs_value(s.skip(n)) as int,
        limbs_value(s.take(n)) as int,
    );
}


/// The magnitude of a fixed-point product: the full product scaled back by
/// `fraction_scale(n)` and truncated to `n` limbs.
pub open spec fn scaled_product(left: nat, right: nat, n: nat) -> nat {
    (left * right / fraction_scale(n)) % radix(n)
}

proof fn lemma_row_step(
    before: nat,
    target: nat,
    carry: nat,
    limb_l: nat,
    limb_r: nat,
    old_limb: nat,
    value: nat,
    prefix_r: nat,
    ri: nat,
    rj: nat,
)
    requires
        before + carry * (ri * rj) == target + limb_l * prefix_r * ri,
        value == limb_l * limb_r + old_limb + carry,
    ensures
        (before - old_limb * (ri * rj) + (value % limb_base()) * (ri * rj)) + (value
            / limb_base()) * (limb_base() * (ri * rj)) == target + limb_l * (prefix_r + limb_r
            * rj) * ri,
{
    let b = limb_base();
    let rij = ri * rj;
    assert((value % b) * rij + (value / b) * (b * rij) == value * rij) by (nonlinear_arith)
        requires
            b > 0,
    {
        vstd::arithmetic::div_mod::lemma_fundamental_div_mod(value as int, b as int);
    }
    assert(value * rij == limb_l * limb_r * rij + old_limb * rij + carry * rij)
        by (nonlinear_arith)
        requires
            value == limb_l * limb_r + old_limb + carry,
    ;
    assert(limb_l * (prefix_r + limb_r * rj) * ri == limb_l * prefix_r * ri + limb_l * limb_r
        * (ri * rj)) by (nonlinear_arith);
}


/// Multiplies two magnitudes and rescales the product by `fraction_scale(N)`,
/// keeping the low `N` limbs.
pub fn multiply_magnitudes<const N: usize>(left: &[u64; N], right: &[u64; N]) -> (result: [u64;
    N])
    requires
        0 < N <= 0x7FF_FFFF,
    ensures
        limbs_value(result@) == scaled_product(limbs_value(left@), limbs_value(right@), N as nat),
{
    let length: usize = 2 * N + 1;
    let mut product: Vec<u64> = vec![0u64; length];
    let ghost rv = limbs_value(right@);
    proof {
        lemma_value_zero(product@);
        assert(left@.take(0) =~= Seq::<u64>::empty());
        assert(limbs_value(left@.take(0)) == 0);
    }
    let mut i: usize = 0;
    while i < N
        invariant
            0 <= i <= N,
            0 < N <= 0x7FF_FFFF,
            length == 2 * N + 1,
            product@.len() == length,
            rv == limbs_value(right@),
            limbs_value(product@) == limbs_value(left@.take(i as int)) * rv,
            forall|k: int| i + N <= k < length ==> product@[k] == 0,
        decreases N - i,
    {
        let ghost row_start = limbs_value(product@);
        let mut carry: u128 = 0;
        let mut j: usize = 0;
        proof {
            assert(right@.take(0) =~= Seq::<u64>::empty());
            assert(limbs_value(right@.take(0)) == 0);
            lemma_radix_adds(i as nat, 0);
        }
        while j < N
            invariant
                0 <= i < N,
                0 <= j <= N,
                0 < N <= 0x7FF_FFFF,
                length == 2 * N + 1,
                product@.len() == length,
                carry < 0x1_0000_0000_0000_0000,
                limbs_value(product@) + carry * radix((i + j) as nat) == row_start + left@[i as int]
                    * limbs_value(right@.take(j as int)) * radix(i as nat),
                forall|k: int| i + N <= k < length ==> product@[k] == 0,
            decreases N - j,
        {
            let index = i + j;
            proof {
                assert(left@[i as int] * right@[j as int] <= 0xFFFF_FFFF_FFFF_FFFE_0000_0000_0000_0001)
                    by (nonlinear_arith)
                    requires
                        left@[i as int] <= 0xFFFF_FFFF_FFFF_FFFF,
                        right@[j as int] <= 0xFFFF_FFFF_FFFF_FFFF,
                ;
            }
            let value: u128 = left[i] as u128 * right[j] as u128 + product[index] as u128 + carry;
            proof {
                lemma_u128_split(value);
                lemma_value_update(product@, index as int, value as u64);
                lemma_value_prefix_step(right@, j as int);
                lemma_radix_adds(i as nat, j as nat);
                lemma_radix_adds(i as nat, (j + 1) as nat);
                assert(radix((i + j + 1) as nat) == limb_base() * radix((i + j) as nat));
                lemma_row_step(
                    limbs_value(product@),
                    row_start,
                    carry as nat,
                    left@[i as int] as nat,
                    right@[j as int] as nat,
                    product@[index as int] as nat,
                    value as nat,
                    limbs_value(right@.take(j as int)),
                    radix(i as nat),
                    radix(j as nat),
                );
                assert(radix((j + 1) as nat) == limb_base() * radix(j as nat));
            }
            product.set(index, value as u64);
            carry = value >> 64;
            proof {
                assert(radix(((i + j) as nat + 1) as nat) == limb_base() * radix((i + j) as nat));
            }
            j = j + 1;
        }
        proof {
            assert(right@.take(N as int) =~= right@);
            lemma_value_prefix_step(left@, i as int);
            lemma_radix_adds(i as nat, N as nat);
            assert(limbs_value(left@.take(i + 1)) * rv == limbs_value(left@.take(i as int)) * rv
                + left@[i as int] * rv * radix(i as nat)) by (nonlinear_arith)
                requires
                    limbs_value(left@.take(i + 1)) == limbs_value(left@.take(i as int))
                        + left@[i as int] * radix(i as nat),
            ;
        }
        let mut index: usize = i + N;
        while carry != 0
            invariant
                0 <= i < N,
                0 < N <= 0x7FF_FFFF,
                length == 2 * N + 1,
                product@.len() == length,
                i + N <= index <= i + N + 1,
                carry < 0x1_0000_0000_0000_0000,
                carry == 0 || (index == i + N && product@[index as int] == 0),
                limbs_value(product@) + carry * radix(index as nat) == limbs_value(
                    left@.take(i + 1),
                ) * rv,
                forall|k: int| i + N + 1 <= k < length ==> product@[k] == 0,
            decreases carry,
        {
            let value: u128 = product[index] as u128 + carry;
            proof {
                lemma_u128_split(value);
                lemma_value_update(product@, index as int, value as u64);
            }
            product.set(index, value as u64);
            carry = value >> 64;
            index = index + 1;
        }
        i = i + 1;
    }
    proof {
        assert(left@.take(N as int) =~= left@);
    }
    let fractional_bits: u32 = (N as u32) * 32;
    let word_shift: usize = (fractional_bits / 64) as usize;
    let bit_shift: u32 = fractional_bits % 64;
    let mut result: [u64; N] = vstd::array::array_fill_for_copy_types(0u64);
    let ghost high = product@.skip(word_shift as int);
    let ghost shifted = if bit_shift == 0 {
        high
    } else {
        shift_right_half(high)
    };
    proof {
        assert(fractional_bits == 32 * N);
        assert(word_shift == N / 2);
        assert(bit_shift == 0 || bit_shift == 32);
        assert(bit_shift == 0 <==> N % 2 == 0);
    }
    let mut index: usize = 0;
    while index < N
        invariant
            0 <= index <= N,
            0 < N <= 0x7FF_FFFF,
            length == 2 * N + 1,
            product@.len() == length,
            word_shift == N / 2,
            bit_shift == 0 || bit_shift == 32,
            high == product@.skip(word_shift as int),
            shifted == if bit_shift == 0 {
                high
            } else {
                shift_right_half(high)
            },
            forall|k: int| 0 <= k < index ==> result@[k] == shifted[k],
        decreases N - index,
    {
        let source = index + word_shift;
        let mut limb: u64 = product[source] >> bit_shift;
        if bit_shift != 0 && source + 1 < product.len() {
            limb = limb | (product[source + 1] << (64 - bit_shift));
        }
        proof {
            let lo = product@[source as int];
            if bit_shift == 0 {
                assert(lo >> 0u32 == lo) by (bit_vector);
            } else {
                assert(64 - bit_shift == 32);
            }
        }
        result[index] = limb;
        index = index + 1;
    }
    proof {
        assert(result@ =~= shifted.take(N as int));
        lemma_value_take(shifted, N as int);
        lemma_value_take(product@, word_shift as int);
        lemma_radix_is_pow2(word_shift as nat);
        lemma_radix_positive(word_shift as nat);
        let p = limbs_value(product@);
        if bit_shift == 0 {
            assert(64 * word_shift == 32 * N);
        } else {
            lemma_shift_right_half(high);
            lemma2_to64();
            lemma_pow2_adds(64 * word_shift as nat, 32);
            assert(64 * word_shift + 32 == 32 * N);
            lemma_div_denominator(p as int, radix(word_shift as nat) as int, 0x1_0000_0000);
        }
    }
    result
}

} // verus!
