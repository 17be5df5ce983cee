//! Scaling of a grid side to the display size, in the arithmetic of binary64
//! (IEEE 754 double precision, round to nearest, ties to even), carried out
//! exactly on integers.
//!
//! For `0 < m < 2^32` with `L` binary digits, the binary64 quotient `512 / m`
//! is `scale_significand(m) * 2^-(43 + L)`; multiplying a side `x` by it and
//! truncating toward zero gives [`scaled_side`].

use vstd::prelude::*;
use vstd::arithmetic::power2::{
    pow2,
    lemma_pow2_adds,
    lemma_pow2_pos,
    lemma_pow2_strictly_increases,
    lemma_pow2_unfold,
    lemma2_to64,
    lemma2_to64_rest,
};
use vstd::arithmetic::div_mod::lemma_fundamental_div_mod_converse;

verus! {

/// Number of binary digits of `n` (0 for 0).
pub open spec fn bit_length(n: nat) -> nat
    decreases n,
{
    if n == 0 {
        0
    } else {
        1 + bit_length(n / 2)
    }
}

/// `a / b` rounded to the nearest integer, ties to the even one.
pub open spec fn round_half_even(a: nat, b: nat) -> nat {
    let q = a / b;
    let rem = a % b;
    if 2 * rem > b {
        q + 1
    } else if 2 * rem < b {
        q
    } else if q % 2 == 0 {
        q
    } else {
        q + 1
    }
}

/// The 53-bit significand of the binary64 quotient `512 / m`.
pub open spec fn scale_significand(m: nat) -> nat {
    round_half_even(pow2(52 + bit_length(m)), m)
}

/// `x` times the binary64 quotient `512 / m`, the product rounded to binary64
/// and then truncated toward zero.
pub open spec fn scaled_side(x: nat, m: nat) -> nat {
    let p = x * scale_significand(m);
    let r: nat = if bit_length(p) > 53 {
        (bit_length(p) - 53) as nat
    } else {
        0
    };
    round_half_even(p, pow2(r)) * pow2(r) / pow2(43 + bit_length(m))
}

proof fn lemma_pow2_127()
    ensures
        pow2(127) == 0x8000_0000_0000_0000_0000_0000_0000_0000,
        pow2(32) == 0x1_0000_0000,
        pow2(0) == 1,
        pow2(9) == 512,
{
    lemma2_to64();
    lemma2_to64_rest();
    lemma_pow2_adds(64, 63);
}

proof fn lemma_pow2_le(a: nat, b: nat)
    requires
        a <= b,
    ensures
        pow2(a) <= pow2(b),
{
    if a < b {
        lemma_pow2_strictly_increases(a, b);
    }
}

/// A number below `2^k` has at most `k` binary digits.
proof fn lemma_bit_length_le(n: nat, k: nat)
    requires
        n < pow2(k),
    ensures
        bit_length(n) <= k,
    decreases k,
{
    lemma_pow2_127();
    if n > 0 {
        if k == 0 {
            assert(false);
        } else {
            lemma_pow2_unfold(k);
            lemma_bit_length_le(n / 2, (k - 1) as nat);
        }
    }
}

/// A positive number with `b` binary digits is at least `2^(b - 1)`.
proof fn lemma_bit_length_ge(n: nat)
    requires
        n > 0,
    ensures
        bit_length(n) >= 1,
        pow2((bit_length(n) - 1) as nat) <= n,
    decreases n,
{
    lemma_pow2_127();
    assert(bit_length(n) == 1 + bit_length(n / 2));
    if n / 2 > 0 {
        lemma_bit_length_ge(n / 2);
        lemma_pow2_unfold((bit_length(n) - 1) as nat);
    } else {
        assert(bit_length(0) == 0);
    }
}

/// A number is below `2` to the power of its number of binary digits.
proof fn lemma_bit_length_lt(n: nat)
    ensures
        n < pow2(bit_length(n)),
    decreases n,
{
    lemma_pow2_127();
    if n > 0 {
        lemma_bit_length_lt(n / 2);
        lemma_pow2_unfold(bit_length(n));
    }
}

/// The rounded quotient exceeds the exact one by less than one.
proof fn lemma_round_half_even_bounds(a: nat, b: nat)
    requires
        b > 0,
    ensures
        round_half_even(a, b) * b <= a + b,
        2 * round_half_even(a, b) * b <= 2 * a + b,
        b == 1 ==> round_half_even(a, b) == a,
        round_half_even(a, b) <= a / b + 1,
{
    let q = a / b;
    let rem = a % b;
    assert(q * b + rem == a && rem < b) by (nonlinear_arith)
        requires
            b > 0,
            q == a / b,
            rem == a % b,
    ;
    assert((q + 1) * b == q * b + b) by (nonlinear_arith);
    assert(2 * round_half_even(a, b) * b == 2 * (round_half_even(a, b) * b)) by (nonlinear_arith);
}

/// The rounded quotient stays within any integer bound of the exact one.
proof fn lemma_round_half_even_le(a: nat, b: nat, k: nat)
    requires
        b > 0,
        a <= k * b,
    ensures
        round_half_even(a, b) <= k,
{
    let q = a / b;
    let rem = a % b;
    assert(q * b + rem == a && rem < b) by (nonlinear_arith)
        requires
            b > 0,
            q == a / b,
            rem == a % b,
    ;
    assert(q <= k) by (nonlinear_arith)
        requires
            q * b + rem == a,
            a <= k * b,
            b > 0,
            rem >= 0,
    {
        if q > k {
            assert(q * b >= (k + 1) * b);
        }
    }
    if q == k {
        assert(rem == 0) by (nonlinear_arith)
            requires
                q * b + rem == a,
                a <= k * b,
                q == k,
                rem >= 0,
        ;
    }
}

/// Scaling a side no longer than the longest one gives at most 512: the
/// binary64 product never rounds above 512.
pub proof fn lemma_scaled_side_at_most_512(x: nat, m: nat)
    requires
        0 < m,
        x <= m,
    ensures
        scaled_side(x, m) <= 512,
{
    let l = bit_length(m);
    let n = pow2(52 + l);
    let d = pow2(43 + l);
    let sig = scale_significand(m);
    let p = x * sig;
    lemma_pow2_127();
    lemma_bit_length_lt(m);
    lemma_bit_length_ge(m);
    lemma_round_half_even_bounds(n, m);
    lemma_pow2_adds(9, 43 + l);
    assert(9 + (43 + l) == 52 + l);
    lemma_pow2_pos(43 + l);
    assert(2 * p <= 2 * n + m) by (nonlinear_arith)
        requires
            x <= m,
            2 * sig * m <= 2 * n + m,
            p == x * sig,
    ;
    lemma_pow2_unfold(53 + l);
    lemma_pow2_le(l, 52 + l);
    assert(p < pow2(53 + l));
    lemma_bit_length_le(p, 53 + l);
    let r: nat = if bit_length(p) > 53 {
        (bit_length(p) - 53) as nat
    } else {
        0
    };
    let u = pow2(r);
    lemma_pow2_pos(r);
    let rounded = round_half_even(p, u);
    assert(rounded * u <= n) by {
        if p <= n {
            let k = pow2((52 + l - r) as nat);
            lemma_pow2_adds((52 + l - r) as nat, r);
            assert((52 + l - r) as nat + r == 52 + l);
            lemma_round_half_even_le(p, u, k);
            assert(rounded * u <= k * u) by (nonlinear_arith)
                requires
                    rounded <= k,
                    u > 0,
            ;
        } else {
            lemma_pow2_unfold(l);
            lemma_bit_length_lt(p);
            if bit_length(p) <= 52 + l {
                lemma_pow2_le(bit_length(p), 52 + l);
            }
            assert(r == l);
            lemma_pow2_adds(52, l);
            let e = (p - n) as nat;
            assert(2 * e < u);
            lemma_fundamental_div_mod_converse(p as int, u as int, pow2(52) as int, e as int);
            assert(rounded == pow2(52));
        }
    }
    assert(rounded * u / d <= 512) by (nonlinear_arith)
        requires
            rounded * u <= n,
            n == 512 * d,
            d > 0,
    {
        let t = rounded * u;
        let qq = t / d;
        assert(qq * d <= t);
        if qq > 512 {
            assert(qq * d >= 513 * d);
        }
    }
}

fn pow2_u128(n: u32) -> (p: u128)
    requires
        n <= 127,
    ensures
        p == pow2(n as nat),
{
    proof {
        lemma_pow2_127();
    }
    let mut p: u128 = 1;
    let mut i: u32 = 0;
    while i < n
        invariant
            i <= n <= 127,
            p == pow2(i as nat),
        decreases n - i,
    {
        proof {
            lemma_pow2_unfold((i + 1) as nat);
            lemma_pow2_le((i + 1) as nat, 127);
            lemma_pow2_127();
        }
        p = p * 2;
        i = i + 1;
    }
    p
}

fn bit_length_u128(x: u128) -> (n: u32)
    ensures
        n == bit_length(x as nat),
        n <= 128,
{
    proof {
        lemma_pow2_127();
        lemma_pow2_unfold(128);
        lemma_bit_length_le(x as nat, 128);
    }
    let mut y: u128 = x;
    let mut n: u32 = 0;
    while y > 0
        invariant
            bit_length(x as nat) == n + bit_length(y as nat),
            bit_length(x as nat) <= 128,
        decreases y,
    {
        y = y / 2;
        n = n + 1;
    }
    n
}

fn round_half_even_u128(a: u128, b: u128) -> (r: u128)
    requires
        b > 0,
        a < 0x8000_0000_0000_0000_0000_0000_0000_0000,
    ensures
        r == round_half_even(a as nat, b as nat),
{
    let q: u128 = a / b;
    let rem: u128 = a % b;
    assert(q <= a) by (nonlinear_arith)
        requires
            b > 0,
            q == a / b,
    ;
    if rem > b - rem {
        q + 1
    } else if rem < b - rem {
        q
    } else if q % 2 == 0 {
        q
    } else {
        q + 1
    }
}

/// `x` scaled by the binary64 quotient `512 / m`, as the display grid does.
pub fn scale_side(x: u32, m: u32) -> (s: u32)
    requires
        0 < m,
        x <= m,
    ensures
        s == scaled_side(x as nat, m as nat),
        s <= 512,
{
    proof {
        lemma_pow2_127();
        lemma_bit_length_le(m as nat, 32);
        lemma_bit_length_ge(m as nat);
        lemma_bit_length_lt(m as nat);
    }
    let l: u32 = bit_length_u128(m as u128);
    let num: u128 = pow2_u128(52 + l);
    proof {
        lemma_pow2_le(52 + l as nat, 84);
        lemma_pow2_le(84, 126);
        lemma_pow2_adds(63, 63);
        lemma_pow2_adds(32, 84);
        lemma_pow2_le(l as nat, 52 + l as nat);
        lemma_pow2_pos(43 + l as nat);
        lemma_round_half_even_bounds(num as nat, m as nat);
        lemma2_to64_rest();
    }
    let sig: u128 = round_half_even_u128(num, m as u128);
    assert(x * sig <= m * sig && m * sig <= num + m) by (nonlinear_arith)
        requires
            x <= m,
            sig * m <= num + m,
    ;
    let p: u128 = x as u128 * sig;
    let b: u32 = bit_length_u128(p);
    let r: u32 = if b > 53 {
        b - 53
    } else {
        0
    };
    proof {
        if b > 53 {
            lemma_bit_length_ge(p as nat);
            lemma_pow2_le(r as nat, (b - 1) as nat);
        }
        lemma_pow2_le(r as nat, 75);
        lemma_pow2_le(75, 84);
        lemma_pow2_pos(r as nat);
    }
    let unit: u128 = pow2_u128(r);
    proof {
        lemma_round_half_even_bounds(p as nat, unit as nat);
    }
    let mant: u128 = round_half_even_u128(p, unit);
    assert(mant * unit <= 2 * p) by {
        if r == 0 {
            assert(unit == 1);
            assert(mant == p);
            assert(mant * unit == mant) by (nonlinear_arith)
                requires
                    unit == 1,
            ;
        } else {
            assert(unit <= p);
            assert(mant * unit <= p + unit);
        }
    }
    let d: u128 = pow2_u128(43 + l);
    let v: u128 = mant * unit / d;
    proof {
        lemma_scaled_side_at_most_512(x as nat, m as nat);
    }
    assert(v == scaled_side(x as nat, m as nat));
    v as u32
}

} // verus!
