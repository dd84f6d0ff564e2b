//! Fixed-point decimal arithmetic for the market maker.
//!
//! Amounts are unsigned 128-bit integers; decimal values carry eighteen
//! fractional digits (`SCALE`).  Every operation is exact: products are formed
//! in 256 bits, quotients round down, and an operation whose true result does
//! not fit in 128 bits reports overflow instead of wrapping.

use vstd::prelude::*;

verus! {

use crate::error::ContractError;

use vstd::arithmetic::div_mod::{
    lemma_fundamental_div_mod, lemma_fundamental_div_mod_converse,
};
use vstd::arithmetic::div_mod::{
    lemma_div_pos_is_pos, lemma_div_is_ordered, lemma_div_by_multiple,
    lemma_mod_self_0, lemma_small_mod, lemma_mod_multiples_basic,
    lemma_div_nonincreasing, lemma_basic_div_specific_divisor,
};
use vstd::arithmetic::mul::{
    lemma_mul_inequality, lemma_mul_is_distributive_add_other_way,
    lemma_mul_is_commutative, lemma_mul_strict_inequality, lemma_mul_nonnegative, lemma_mul_by_zero_is_zero,
};

/// Number of distinct fixed-point values per unit: decimals carry 18
/// fractional digits.
pub const SCALE: u128 = 1_000_000_000_000_000_000;

/// Fee rates are expressed in basis points over this denominator.
pub const FEE_PRECISION: u16 = 10000;

/// Two to the sixty-fourth power, the limb radix of the wide multiplier.
pub const RADIX: u128 = 0x1_0000_0000_0000_0000;

/// Value of a 256-bit quantity held as a high and a low 128-bit half.
pub open spec fn wide_val(hi: u128, lo: u128) -> int {
    hi * 0x1_0000_0000_0000_0000_0000_0000_0000_0000int + lo
}

/// Exact 256-bit product of two 128-bit integers, as a (high, low) pair.
pub fn wide_mul(a: u128, b: u128) -> (r: (u128, u128))
    ensures
        wide_val(r.0, r.1) == a * b,
{
    let a1: u128 = a / RADIX;
    let a0: u128 = a % RADIX;
    let b1: u128 = b / RADIX;
    let b0: u128 = b % RADIX;
    proof {
        lemma_fundamental_div_mod(a as int, RADIX as int);
        lemma_fundamental_div_mod(b as int, RADIX as int);
        assert(a1 < RADIX && b1 < RADIX) by {
            lemma_limb_bound(a as int, a1 as int);
            lemma_limb_bound(b as int, b1 as int);
        }
        assert(a0 * b0 <= (RADIX - 1) * (RADIX - 1) && a1 * b0 <= (RADIX - 1) * (RADIX - 1)
            && a0 * b1 <= (RADIX - 1) * (RADIX - 1) && a1 * b1 <= (RADIX - 1) * (RADIX - 1)) by {
            lemma_mul_inequality(a0 as int, RADIX - 1, b0 as int);
            lemma_mul_inequality(b0 as int, RADIX - 1, RADIX - 1);
            lemma_mul_inequality(a1 as int, RADIX - 1, b0 as int);
            lemma_mul_inequality(a0 as int, RADIX - 1, b1 as int);
            lemma_mul_inequality(b1 as int, RADIX - 1, RADIX - 1);
            lemma_mul_inequality(a1 as int, RADIX - 1, b1 as int);
            lemma_mul_is_commutative(a0 as int, b0 as int);
            lemma_mul_is_commutative(a1 as int, b0 as int);
            lemma_mul_is_commutative(a0 as int, b1 as int);
            lemma_mul_is_commutative(a1 as int, b1 as int);
        }
    }
    let p00: u128 = a0 * b0;
    let p01: u128 = a0 * b1;
    let p10: u128 = a1 * b0;
    let p11: u128 = a1 * b1;
    let t: u128 = p00 / RADIX + p01 % RADIX + p10 % RADIX;
    proof {
        lemma_fundamental_div_mod(p00 as int, RADIX as int);
        lemma_fundamental_div_mod(p01 as int, RADIX as int);
        lemma_fundamental_div_mod(p10 as int, RADIX as int);
        lemma_fundamental_div_mod(t as int, RADIX as int);
        lemma_limb_bound(p00 as int, (p00 / RADIX) as int);
        lemma_limb_bound(p01 as int, (p01 / RADIX) as int);
        lemma_limb_bound(p10 as int, (p10 / RADIX) as int);
        lemma_limb_bound(t as int, (t / RADIX) as int);
    }
    let lo: u128 = (t % RADIX) * RADIX + p00 % RADIX;
    let hi: u128 = p11 + p01 / RADIX + p10 / RADIX + t / RADIX;
    proof {
        lemma_wide_mul_combine(
            a as int, b as int, a1 as int, a0 as int, b1 as int, b0 as int,
            p11 as int, p01 as int, p10 as int, p00 as int, t as int,
            hi as int, lo as int,
        );
    }
    (hi, lo)
}

/// Quotient limb of a division by the radix is itself below the radix when the
/// dividend is a 128-bit value.
proof fn lemma_limb_bound(x: int, q: int)
    requires
        0 <= x < 0x1_0000_0000_0000_0000_0000_0000_0000_0000int,
        q == x / 0x1_0000_0000_0000_0000,
    ensures
        0 <= q < 0x1_0000_0000_0000_0000,
{
    lemma_fundamental_div_mod(x, 0x1_0000_0000_0000_0000);
    if q >= 0x1_0000_0000_0000_0000 {
        lemma_mul_inequality(
            0x1_0000_0000_0000_0000,
            q,
            0x1_0000_0000_0000_0000,
        );
        lemma_mul_is_commutative(q, 0x1_0000_0000_0000_0000);
    }
    if q < 0 {
        vstd::arithmetic::div_mod::lemma_div_pos_is_pos(x, 0x1_0000_0000_0000_0000);
    }
}

/// Recombination identity behind `wide_mul`: the carry-propagated halves
/// reassemble to the full product.
proof fn lemma_wide_mul_combine(
    a: int, b: int, a1: int, a0: int, b1: int, b0: int,
    p11: int, p01: int, p10: int, p00: int, t: int,
    hi: int, lo: int,
)
    requires
        a == a1 * 0x1_0000_0000_0000_0000 + a0,
        b == b1 * 0x1_0000_0000_0000_0000 + b0,
        p00 == a0 * b0,
        p01 == a0 * b1,
        p10 == a1 * b0,
        p11 == a1 * b1,
        t == p00 / 0x1_0000_0000_0000_0000 + p01 % 0x1_0000_0000_0000_0000
            + p10 % 0x1_0000_0000_0000_0000,
        lo == (t % 0x1_0000_0000_0000_0000) * 0x1_0000_0000_0000_0000
            + p00 % 0x1_0000_0000_0000_0000,
        hi == p11 + p01 / 0x1_0000_0000_0000_0000 + p10 / 0x1_0000_0000_0000_0000
            + t / 0x1_0000_0000_0000_0000,
        0 <= p00, 0 <= p01, 0 <= p10, 0 <= t,
    ensures
        hi * 0x1_0000_0000_0000_0000_0000_0000_0000_0000int + lo == a * b,
{
    let k: int = 0x1_0000_0000_0000_0000;
    lemma_fundamental_div_mod(p00, k);
    lemma_fundamental_div_mod(p01, k);
    lemma_fundamental_div_mod(p10, k);
    lemma_fundamental_div_mod(t, k);
    assert(a * b == p11 * (k * k) + (p01 + p10) * k + p00) by (nonlinear_arith)
        requires
            a == a1 * k + a0,
            b == b1 * k + b0,
            p00 == a0 * b0,
            p01 == a0 * b1,
            p10 == a1 * b0,
            p11 == a1 * b1,
            k == 0x1_0000_0000_0000_0000,
    {}
    assert(hi * (k * k) + lo == p11 * (k * k) + (p01 + p10) * k + p00) by (nonlinear_arith)
        requires
            t == p00 / k + p01 % k + p10 % k,
            lo == (t % k) * k + p00 % k,
            hi == p11 + p01 / k + p10 / k + t / k,
            p00 == (p00 / k) * k + p00 % k,
            p01 == (p01 / k) * k + p01 % k,
            p10 == (p10 / k) * k + p10 % k,
            t == (t / k) * k + t % k,
            k == 0x1_0000_0000_0000_0000,
    {}
    assert(k * k == 0x1_0000_0000_0000_0000_0000_0000_0000_0000int) by (nonlinear_arith)
        requires k == 0x1_0000_0000_0000_0000,
    {}
}

/// Whether the 256-bit value `(ah, al)` is at most `(bh, bl)`.
pub fn wide_le(ah: u128, al: u128, bh: u128, bl: u128) -> (r: bool)
    ensures
        r == (wide_val(ah, al) <= wide_val(bh, bl)),
{
    proof {
        if ah < bh {
            lemma_mul_strict_inequality(
                ah as int, bh as int, 0x1_0000_0000_0000_0000_0000_0000_0000_0000int,
            );
        }
        if bh < ah {
            lemma_mul_strict_inequality(
                bh as int, ah as int, 0x1_0000_0000_0000_0000_0000_0000_0000_0000int,
            );
        }
    }
    if ah < bh {
        true
    } else if ah > bh {
        false
    } else {
        al <= bl
    }
}

/// Floor of `a * b / d`, exact over the full 128-bit range.
///
/// Returns `None` exactly when the true quotient does not fit in 128 bits.
pub fn mul_div_floor(a: u128, b: u128, d: u128) -> (r: Option<u128>)
    requires
        d > 0,
    ensures
        match r {
            Some(q) => q == a * b / d as int,
            None => a * b / d as int > u128::MAX,
        },
{
    let (ph, pl) = wide_mul(a, b);
    // The quotient fits in 128 bits exactly when a * b < d * 2^128.
    if wide_le(d, 0, ph, pl) {
        proof {
            assert(wide_val(d, 0) == d * 0x1_0000_0000_0000_0000_0000_0000_0000_0000int);
            lemma_div_ge_threshold(a * b, d as int);
        }
        return None;
    }
    let mut lo: u128 = 0;
    let mut hi: u128 = u128::MAX;
    proof {
        assert(0 * d == 0);
        lemma_mul_is_commutative(u128::MAX as int + 1, d as int);
    }
    while lo < hi
        invariant
            d > 0,
            wide_val(ph, pl) == a * b,
            lo <= hi,
            lo * d <= a * b,
            (hi + 1) * d > a * b,
        decreases hi - lo,
    {
        let mid: u128 = lo + (hi - lo) / 2 + (hi - lo) % 2;
        proof {
            lemma_fundamental_div_mod((hi - lo) as int, 2);
            assert(lo < mid <= hi);
        }
        let (mh, ml) = wide_mul(mid, d);
        if wide_le(mh, ml, ph, pl) {
            lo = mid;
        } else {
            proof {
                assert((mid - 1 + 1) * d == mid * d);
            }
            hi = mid - 1;
        }
    }
    proof {
        lemma_floor_characterization(a * b, d as int, lo as int);
    }
    Some(lo)
}

/// Truncating fixed-point power: `n`-fold product of `x` with itself, with the
/// running value rounded down to the grid after every step, starting from one.
pub open spec fn spow(x: int, n: nat) -> int
    decreases n,
{
    if n == 0 {
        SCALE as int
    } else {
        spow(x, (n - 1) as nat) * x / (SCALE as int)
    }
}

pub proof fn lemma_spow_nonneg(x: int, n: nat)
    requires
        0 <= x,
    ensures
        0 <= spow(x, n),
    decreases n,
{
    if n > 0 {
        lemma_spow_nonneg(x, (n - 1) as nat);
        lemma_mul_nonnegative(spow(x, (n - 1) as nat), x);
        lemma_div_pos_is_pos(spow(x, (n - 1) as nat) * x, SCALE as int);
    }
}

/// The truncating power is monotone in its base.
pub proof fn lemma_spow_base_mono(x: int, y: int, n: nat)
    requires
        0 <= x <= y,
    ensures
        spow(x, n) <= spow(y, n),
    decreases n,
{
    if n > 0 {
        let m: nat = (n - 1) as nat;
        lemma_spow_base_mono(x, y, m);
        lemma_spow_nonneg(x, m);
        lemma_mul_inequality(spow(x, m), spow(y, m), x);
        lemma_mul_is_commutative(spow(x, m), x);
        lemma_mul_is_commutative(spow(y, m), x);
        lemma_spow_nonneg(y, m);
        lemma_mul_inequality(x, y, spow(y, m));
        lemma_mul_is_commutative(x, spow(y, m));
        lemma_mul_is_commutative(y, spow(y, m));
        lemma_div_is_ordered(spow(x, m) * x, spow(y, m) * y, SCALE as int);
    }
}

/// One is a fixed point of the truncating power.
pub proof fn lemma_spow_scale(n: nat)
    ensures
        spow(SCALE as int, n) == SCALE as int,
    decreases n,
{
    if n > 0 {
        lemma_spow_scale((n - 1) as nat);
        lemma_div_by_multiple(SCALE as int, SCALE as int);
    }
}

/// Zero to any positive power is zero.
pub proof fn lemma_spow_zero(n: nat)
    requires
        n >= 1,
    ensures
        spow(0, n) == 0,
{
    let m: nat = (n - 1) as nat;
    assert(spow(0, m) * 0 == 0);
}

/// A base of at most one keeps every truncating power at most one.
pub proof fn lemma_spow_le_scale(x: int, n: nat)
    requires
        0 <= x <= SCALE,
    ensures
        spow(x, n) <= SCALE as int,
    decreases n,
{
    if n == 0 {
    } else {
        let m: nat = (n - 1) as nat;
        lemma_spow_le_scale(x, m);
        lemma_spow_nonneg(x, m);
        lemma_mul_inequality(spow(x, m), SCALE as int, x);
        lemma_mul_is_commutative(spow(x, m), x);
        lemma_mul_is_commutative(SCALE as int, x);
        lemma_mul_inequality(x, SCALE as int, SCALE as int);
        lemma_mul_is_commutative(x, SCALE as int);
        lemma_div_is_ordered(spow(x, m) * x, (SCALE as int) * (SCALE as int), SCALE as int);
        lemma_div_by_multiple(SCALE as int, SCALE as int);
    }
}

/// A base of at least one makes the truncating power at least the base and
/// non-decreasing in the exponent.
pub proof fn lemma_spow_ge_base(x: int, n: nat)
    requires
        x >= SCALE,
        n >= 1,
    ensures
        spow(x, n) >= x,
    decreases n,
{
    if n == 1 {
        lemma_div_by_multiple(x, SCALE as int);
        lemma_mul_is_commutative(SCALE as int, x);
    } else {
        let m: nat = (n - 1) as nat;
        lemma_spow_ge_base(x, m);
        lemma_mul_inequality(x, spow(x, m), x);
        lemma_mul_is_commutative(x, x);
        lemma_mul_inequality(SCALE as int, x, x);
        lemma_mul_is_commutative(SCALE as int, x);
        lemma_div_is_ordered((SCALE as int) * x, spow(x, m) * x, SCALE as int);
        lemma_div_by_multiple(x, SCALE as int);
        lemma_mul_is_commutative(x, SCALE as int);
    }
}

/// For a base of at least one the power grows with the exponent.
pub proof fn lemma_spow_exp_mono(x: int, m: nat, n: nat)
    requires
        x >= SCALE,
        m <= n,
    ensures
        spow(x, m) <= spow(x, n),
    decreases n - m,
{
    if m < n {
        lemma_spow_exp_mono(x, m, (n - 1) as nat);
        let p: nat = (n - 1) as nat;
        lemma_spow_nonneg(x, p);
        lemma_mul_inequality(SCALE as int, x, spow(x, p));
        lemma_mul_is_commutative(SCALE as int, spow(x, p));
        lemma_mul_is_commutative(x, spow(x, p));
        lemma_div_is_ordered(spow(x, p) * (SCALE as int), spow(x, p) * x, SCALE as int);
        lemma_mul_is_commutative(spow(x, p), SCALE as int);
        lemma_div_by_multiple(spow(x, p), SCALE as int);
    }
}

/// The truncating power, rejecting results that leave the 128-bit range.
pub fn pow_fp(x: u128, n: u64) -> (r: Option<u128>)
    ensures
        match r {
            Some(v) => v == spow(x as int, n as nat),
            None => spow(x as int, n as nat) > u128::MAX,
        },
{
    let mut acc: u128 = SCALE;
    let mut i: u64 = 0;
    while i < n
        invariant
            i <= n,
            acc == spow(x as int, i as nat),
            x <= SCALE ==> acc <= SCALE,
        decreases n - i,
    {
        proof {
            assert(spow(x as int, (i + 1) as nat) == spow(x as int, i as nat) * x / (
            SCALE as int));
        }
        match mul_div_floor(acc, x, SCALE) {
            Some(v) => {
                proof {
                    if x <= SCALE {
                        lemma_spow_le_scale(x as int, (i + 1) as nat);
                    }
                }
                acc = v;
            },
            None => {
                proof {
                    if x <= SCALE {
                        lemma_spow_le_scale(x as int, (i + 1) as nat);
                        assert(false);
                    }
                    lemma_spow_exp_mono(x as int, (i + 1) as nat, n as nat);
                }
                return None;
            },
        }
        i = i + 1;
    }
    Some(acc)
}

/// Whether `x` to the `n` stays at most `t`, computed without overflow.
fn pow_le(x: u128, n: u64, t: u128) -> (r: bool)
    ensures
        r == (spow(x as int, n as nat) <= t),
{
    match pow_fp(x, n) {
        Some(v) => v <= t,
        None => false,
    }
}

/// The rounded-down `q`-th root of `t` on the fixed-point grid: the largest
/// value whose truncating `q`-th power still fits under `t`.
pub open spec fn sroot(t: int, q: nat) -> int {
    choose|r: int| 0 <= r && #[trigger] spow(r, q) <= t && spow(r + 1, q) > t
}

/// A bracketed candidate is the root; the bracket pins it uniquely.
pub proof fn lemma_sroot_is(t: int, q: nat, r: int)
    requires
        q >= 1,
        0 <= r,
        spow(r, q) <= t,
        spow(r + 1, q) > t,
    ensures
        sroot(t, q) == r,
{
    assert(exists|rr: int| 0 <= rr && #[trigger] spow(rr, q) <= t && spow(rr + 1, q) > t) by {
        assert(0 <= r && spow(r, q) <= t && spow(r + 1, q) > t);
    }
    let w = sroot(t, q);
    if w < r {
        lemma_spow_base_mono(w + 1, r, q);
    }
    if r < w {
        lemma_spow_base_mono(r + 1, w, q);
    }
}

/// Rounded-down fixed-point `q`-th root.
pub fn root_fp(t: u128, q: u64) -> (r: u128)
    requires
        q >= 1,
    ensures
        r == sroot(t as int, q as nat),
        spow(r as int, q as nat) <= t,
        spow(r as int + 1, q as nat) > t,
{
    let mut lo: u128 = 0;
    let mut hi: u128 = if t > SCALE {
        t
    } else {
        SCALE
    };
    proof {
        lemma_spow_zero(q as nat);
        lemma_spow_ge_base(hi as int + 1, q as nat);
    }
    while lo < hi
        invariant
            q >= 1,
            lo <= hi,
            spow(lo as int, q as nat) <= t,
            spow(hi as int + 1, q as nat) > t,
        decreases hi - lo,
    {
        let mid: u128 = lo + (hi - lo) / 2 + (hi - lo) % 2;
        proof {
            lemma_fundamental_div_mod((hi - lo) as int, 2);
            assert(lo < mid <= hi);
        }
        if pow_le(mid, q, t) {
            lo = mid;
        } else {
            hi = mid - 1;
        }
    }
    proof {
        lemma_sroot_is(t as int, q as nat, lo as int);
    }
    lo
}

/// If `n >= d * 2^128` then `n / d` exceeds `u128::MAX`.
proof fn lemma_div_ge_threshold(n: int, d: int)
    requires
        d > 0,
        n >= d * 0x1_0000_0000_0000_0000_0000_0000_0000_0000int,
    ensures
        n / d > u128::MAX,
{
    let m: int = 0x1_0000_0000_0000_0000_0000_0000_0000_0000int;
    assert(n / d >= m) by (nonlinear_arith)
        requires d > 0, n >= d * m, m > 0,
    {}
}

/// `q` bracketed by `q * d <= n < (q + 1) * d` is the rounded-down quotient.
proof fn lemma_floor_characterization(n: int, d: int, q: int)
    requires
        d > 0,
        0 <= q,
        q * d <= n,
        (q + 1) * d > n,
    ensures
        q == n / d,
{
    lemma_mul_is_distributive_add_other_way(d, q, 1);
    lemma_fundamental_div_mod_converse(n, d, q, n - q * d);
}

/// Greatest common divisor by Euclid's scheme.
pub open spec fn sgcd(a: nat, b: nat) -> nat
    decreases b,
{
    if b == 0 {
        a
    } else {
        sgcd(b, a % b)
    }
}

/// The greatest common divisor of a pair that is not both zero is positive
/// and divides both members.
pub proof fn lemma_sgcd_divides(a: nat, b: nat)
    requires
        a > 0 || b > 0,
    ensures
        sgcd(a, b) > 0,
        a % sgcd(a, b) == 0,
        b % sgcd(a, b) == 0,
    decreases b,
{
    if b == 0 {
        lemma_mod_self_0(a as int);
        assert(0int % (a as int) == 0) by {
            lemma_small_mod(0, a);
        }
    } else {
        lemma_sgcd_divides(b, a % b);
        let g = sgcd(b, a % b);
        lemma_fundamental_div_mod(a as int, b as int);
        lemma_fundamental_div_mod(b as int, g as int);
        lemma_fundamental_div_mod((a % b) as int, g as int);
        let m = a as int / b as int;
        let kb = b as int / g as int;
        let kr = (a % b) as int / g as int;
        lemma_mul_is_commutative(b as int, m);
        lemma_mul_is_commutative(g as int, kb);
        lemma_mul_is_commutative(g as int, kr);
        assert(a as int == (m * kb + kr) * (g as int)) by (nonlinear_arith)
            requires
                a as int == m * (b as int) + (a % b) as int,
                b as int == kb * (g as int),
                (a % b) as int == kr * (g as int),
        {}
        lemma_mod_multiples_basic(m * kb + kr, g as int);
    }
}

/// A positive divisor of a positive number is at most that number, and the
/// quotient is positive.
pub proof fn lemma_divisor_bounds(x: nat, g: nat)
    requires
        x > 0,
        g > 0,
        x % g == 0,
    ensures
        g <= x,
        x / g >= 1,
        (x / g) * g == x,
{
    lemma_fundamental_div_mod(x as int, g as int);
    let q = x as int / g as int;
    assert(x as int == (g as int) * q);
    lemma_mul_is_commutative(g as int, q);
    if q <= 0 {
        assert(q * (g as int) <= 0) by (nonlinear_arith)
            requires q <= 0, g as int > 0,
        {}
        assert(false);
    }
    assert(q * (g as int) >= g as int) by (nonlinear_arith)
        requires q >= 1, g as int > 0,
    {}
}

/// Euclid's algorithm.
pub fn gcd(a: u64, b: u64) -> (g: u64)
    ensures
        g == sgcd(a as nat, b as nat),
{
    let mut x: u64 = a;
    let mut y: u64 = b;
    while y != 0
        invariant
            sgcd(x as nat, y as nat) == sgcd(a as nat, b as nat),
        decreases y,
    {
        let t: u64 = x % y;
        x = y;
        y = t;
    }
    x
}

/// Power of ten.
pub open spec fn spow10(e: nat) -> int
    decreases e,
{
    if e == 0 {
        1
    } else {
        10 * spow10((e - 1) as nat)
    }
}

pub proof fn lemma_spow10_pos(e: nat)
    ensures
        spow10(e) >= 1,
    decreases e,
{
    if e > 0 {
        lemma_spow10_pos((e - 1) as nat);
    }
}

pub proof fn lemma_spow10_mono(m: nat, n: nat)
    requires
        m <= n,
    ensures
        spow10(m) <= spow10(n),
    decreases n - m,
{
    if m < n {
        lemma_spow10_mono(m, (n - 1) as nat);
        lemma_spow10_pos((n - 1) as nat);
    }
}

/// Computes a power of ten, rejecting values outside the 128-bit range.
pub fn pow10(e: u32) -> (r: Option<u128>)
    ensures
        match r {
            Some(v) => v == spow10(e as nat),
            None => spow10(e as nat) > u128::MAX,
        },
{
    let mut acc: u128 = 1;
    let mut i: u32 = 0;
    while i < e
        invariant
            i <= e,
            acc == spow10(i as nat),
        decreases e - i,
    {
        if acc > u128::MAX / 10 {
            proof {
                assert(spow10((i + 1) as nat) == 10 * spow10(i as nat));
                lemma_spow10_mono((i + 1) as nat, e as nat);
            }
            return None;
        }
        acc = acc * 10;
        i = i + 1;
    }
    Some(acc)
}

/// Rescaling of a raw amount between two decimal precisions; scaling up
/// multiplies, scaling down divides and truncates.
pub open spec fn sadjust(amount: int, from_dec: nat, to_dec: nat) -> int {
    if to_dec >= from_dec {
        amount * spow10((to_dec - from_dec) as nat)
    } else {
        amount / spow10((from_dec - to_dec) as nat)
    }
}

/// Rescales a fixed-point amount between two decimal precisions.
///
/// Rounding down on a downscale is the deliberate policy: the integer
/// remainder is dropped in the pool's favour.
pub fn adjust_precision(amount: u128, from_dec: u32, to_dec: u32) -> (r: Result<
    u128,
    ContractError,
>)
    ensures
        r matches Ok(v) ==> v == sadjust(amount as int, from_dec as nat, to_dec as nat),
        r is Ok <==> sadjust(amount as int, from_dec as nat, to_dec as nat) <= u128::MAX,
        r is Err ==> r == Err::<u128, ContractError>(ContractError::Overflow),
{
    if to_dec == from_dec {
        proof {
            assert(sadjust(amount as int, from_dec as nat, to_dec as nat) == amount * 1);
        }
        Ok(amount)
    } else if to_dec > from_dec {
        if amount == 0 {
            proof {
                lemma_mul_by_zero_is_zero(spow10((to_dec - from_dec) as nat));
            }
            return Ok(0);
        }
        match pow10(to_dec - from_dec) {
            Some(p) => {
                proof {
                    lemma_spow10_pos((to_dec - from_dec) as nat);
                }
                match mul_div_floor(amount, p, 1) {
                    Some(v) => {
                        proof {
                            lemma_div_by_one_is_self(amount * p);
                        }
                        Ok(v)
                    },
                    None => {
                        proof {
                            lemma_div_by_one_is_self(amount * p);
                        }
                        Err(ContractError::Overflow)
                    },
                }
            },
            None => {
                proof {
                    lemma_mul_inequality(1, amount as int, spow10((to_dec - from_dec) as nat));
                    lemma_mul_is_commutative(1, spow10((to_dec - from_dec) as nat));
                    lemma_mul_is_commutative(amount as int, spow10((to_dec - from_dec) as nat));
                }
                Err(ContractError::Overflow)
            },
        }
    } else {
        match pow10(from_dec - to_dec) {
            Some(p) => {
                proof {
                    lemma_spow10_pos((from_dec - to_dec) as nat);
                    lemma_div_nonincreasing(amount as int, p as int);
                    lemma_div_pos_is_pos(amount as int, p as int);
                }
                Ok(amount / p)
            },
            None => {
                proof {
                    lemma_basic_div_specific_divisor(spow10((from_dec - to_dec) as nat));
                }
                Ok(0)
            },
        }
    }
}

/// `x / 1 == x`.
proof fn lemma_div_by_one_is_self(x: int)
    requires
        0 <= x,
    ensures
        x / 1 == x,
{
    lemma_fundamental_div_mod_converse(x, 1, x, 0);
}

/// The product of two non-negative values divided by one is itself.
pub proof fn lemma_mul_div_one(a: int, b: int)
    requires
        0 <= a,
        0 <= b,
    ensures
        a * b / 1 == a * b,
{
    lemma_mul_nonnegative(a, b);
    lemma_div_by_one_is_self(a * b);
}

/// Fixed-point ratio of the pre-trade to the post-trade balance.
pub open spec fn cfi_base(b_in: int, b_in_after: int) -> int {
    b_in * SCALE / b_in_after
}

/// Weight-ratio numerator after reduction by the greatest common divisor.
pub open spec fn cfi_p(w_in: nat, w_out: nat) -> nat {
    w_in / sgcd(w_in, w_out)
}

/// Weight-ratio denominator after reduction by the greatest common divisor.
pub open spec fn cfi_q(w_in: nat, w_out: nat) -> nat {
    w_out / sgcd(w_in, w_out)
}

/// The balance ratio raised to the reduced weight ratio, power and root both
/// rounded down on the fixed-point grid.
pub open spec fn cfi_ratio(b_in: int, b_in_after: int, w_in: nat, w_out: nat) -> int {
    sroot(spow(cfi_base(b_in, b_in_after), cfi_p(w_in, w_out)), cfi_q(w_in, w_out))
}

/// Raw 18-decimal magnitude of `b_out * (1 - ratio^(w_in/w_out))`.
pub open spec fn cfi_amount(b_in: int, b_in_after: int, w_in: nat, w_out: nat, b_out: int) -> int {
    let r = cfi_ratio(b_in, b_in_after, w_in, w_out);
    if r <= SCALE {
        b_out * (SCALE - r)
    } else {
        b_out * (r - SCALE)
    }
}

/// All intermediate values of the invariant solver fit in 128 bits.
pub open spec fn cfi_fits(b_in: int, b_in_after: int, w_in: nat, w_out: nat, b_out: int) -> bool {
    &&& cfi_base(b_in, b_in_after) <= u128::MAX
    &&& spow(cfi_base(b_in, b_in_after), cfi_p(w_in, w_out)) <= u128::MAX
    &&& cfi_amount(b_in, b_in_after, w_in, w_out, b_out) <= u128::MAX
}

/// Weighted constant-function invariant solver.
///
/// Evaluates `balance_out * |1 - (balance_in / balance_in_after) ^
/// (weight_in / weight_out)|` on the fixed-point grid and returns the
/// magnitude as a raw 18-decimal value.  The in-balance below the post-trade
/// balance prices an exact-in trade; above it, the same magnitude is the
/// required input of an exact-out trade.  The weight ratio is reduced before
/// exponentiation; power and root round down.  A zero post-trade balance or a
/// zero out-weight leaves the expression undefined.
pub fn solve_constant_function_invariant(
    balance_in: u128,
    balance_in_after: u128,
    weight_in: u32,
    balance_out: u128,
    weight_out: u32,
) -> (r: Result<u128, ContractError>)
    ensures
        r == Err::<u128, ContractError>(ContractError::MathUndefined) <==> (balance_in_after == 0
            || weight_out == 0),
        (balance_in_after > 0 && weight_out > 0) ==> {
            &&& (r is Ok <==> cfi_fits(
                balance_in as int,
                balance_in_after as int,
                weight_in as nat,
                weight_out as nat,
                balance_out as int,
            ))
            &&& (r matches Ok(v) ==> v == cfi_amount(
                balance_in as int,
                balance_in_after as int,
                weight_in as nat,
                weight_out as nat,
                balance_out as int,
            ))
            &&& (r is Err ==> r == Err::<u128, ContractError>(ContractError::Overflow))
        },
{
    if balance_in_after == 0 || weight_out == 0 {
        return Err(ContractError::MathUndefined);
    }
    let g: u64 = gcd(weight_in as u64, weight_out as u64);
    proof {
        lemma_sgcd_divides(weight_in as nat, weight_out as nat);
        lemma_divisor_bounds(weight_out as nat, g as nat);
    }
    let p: u64 = weight_in as u64 / g;
    let q: u64 = weight_out as u64 / g;
    let base: u128 = match mul_div_floor(balance_in, SCALE, balance_in_after) {
        Some(b) => b,
        None => {
            return Err(ContractError::Overflow);
        },
    };
    let t: u128 = match pow_fp(base, p) {
        Some(t) => t,
        None => {
            return Err(ContractError::Overflow);
        },
    };
    let rr: u128 = root_fp(t, q);
    let diff: u128 = if rr <= SCALE {
        SCALE - rr
    } else {
        rr - SCALE
    };
    match mul_div_floor(balance_out, diff, 1) {
        Some(v) => {
            proof {
                lemma_div_by_one_is_self(balance_out * diff);
            }
            Ok(v)
        },
        None => {
            proof {
                lemma_div_by_one_is_self(balance_out * diff);
            }
            Err(ContractError::Overflow)
        },
    }
}

/// Fee charged on a single-sided deposit: the share of the input that is
/// effectively swapped, `(1 - weight)`, times the fee rate.
pub open spec fn single_fee(amount_in: int, weight: int, fee_rate: int) -> int {
    amount_in * ((100 - weight) * fee_rate) / 1000000
}

/// Fixed-point ratio of the post-deposit to the pre-deposit balance.
pub open spec fn single_base(amount_in: int, balance: int, weight: int, fee_rate: int) -> int {
    (balance + amount_in - single_fee(amount_in, weight, fee_rate)) * SCALE / balance
}

/// The balance growth raised to the normalized weight `weight / 100`.
pub open spec fn single_ratio(amount_in: int, balance: int, weight: nat, fee_rate: int) -> int {
    sroot(
        spow(
            single_base(amount_in, balance, weight as int, fee_rate),
            weight / sgcd(weight, 100),
        ),
        100 as nat / sgcd(weight, 100),
    )
}

/// Shares minted for a single-sided deposit under the constant-function
/// model: `total_shares * (growth^weight - 1)`.
pub open spec fn single_minted(
    amount_in: int,
    balance: int,
    weight: nat,
    fee_rate: int,
    total_shares: int,
) -> int {
    total_shares * (single_ratio(amount_in, balance, weight, fee_rate) - SCALE) / (SCALE as int)
}

/// All intermediate values of the single-sided deposit formula fit in 128
/// bits.
pub open spec fn single_fits(
    amount_in: int,
    balance: int,
    weight: nat,
    fee_rate: int,
    total_shares: int,
) -> bool {
    &&& balance + amount_in - single_fee(amount_in, weight as int, fee_rate) <= u128::MAX
    &&& single_base(amount_in, balance, weight as int, fee_rate) <= u128::MAX
    &&& spow(
        single_base(amount_in, balance, weight as int, fee_rate),
        weight / sgcd(weight, 100),
    ) <= u128::MAX
    &&& single_minted(amount_in, balance, weight, fee_rate, total_shares) <= u128::MAX
}

/// Shares minted when a single asset is deposited into an active pool.
///
/// A fee proportional to `(1 - weight)` is charged on the input first; the
/// remainder grows the asset balance, and the pool mints
/// `total_shares * ((1 + input / balance) ^ (weight / 100) - 1)` shares.
/// The share ratio is dimensionless, so the token's own decimal precision
/// cancels out of the formula.  Returns the minted shares and the fee
/// charged.  An empty balance or an empty share supply leaves the formula
/// undefined: a pool that is active with zero supply breaches the pool
/// invariant and is not a valid input.
pub fn calc_minted_shares_given_single_asset_in(
    amount_in: u128,
    balance: u128,
    weight: u32,
    fee_rate: u32,
    total_shares: u128,
) -> (r: Result<(u128, u128), ContractError>)
    requires
        weight <= 100,
        fee_rate <= FEE_PRECISION as u32,
    ensures
        r == Err::<(u128, u128), ContractError>(ContractError::MathUndefined) <==> (balance == 0
            || total_shares == 0),
        (balance > 0 && total_shares > 0) ==> {
            &&& (r is Ok <==> single_fits(
                amount_in as int,
                balance as int,
                weight as nat,
                fee_rate as int,
                total_shares as int,
            ))
            &&& (r matches Ok(v) ==> v.0 == single_minted(
                amount_in as int,
                balance as int,
                weight as nat,
                fee_rate as int,
                total_shares as int,
            ) && v.1 == single_fee(amount_in as int, weight as int, fee_rate as int))
            &&& (r is Err ==> r == Err::<(u128, u128), ContractError>(ContractError::Overflow))
        },
{
    if balance == 0 || total_shares == 0 {
        return Err(ContractError::MathUndefined);
    }
    proof {
        lemma_mul_inequality((100 - weight) as int, 100, fee_rate as int);
        lemma_mul_inequality(fee_rate as int, 10000, 100);
        lemma_mul_is_commutative(fee_rate as int, 100);
        lemma_mul_is_commutative(10000, 100);
    }
    let mult: u128 = ((100 - weight) as u128) * (fee_rate as u128);
    let fee: u128 = match mul_div_floor(amount_in, mult, 1000000) {
        Some(f) => f,
        None => {
            proof {
                lemma_fee_quotient_small(amount_in as int, mult as int);
            }
            return Err(ContractError::Overflow);
        },
    };
    proof {
        lemma_fee_quotient_small(amount_in as int, mult as int);
    }
    let in_after: u128 = amount_in - fee;
    if in_after > u128::MAX - balance {
        return Err(ContractError::Overflow);
    }
    let total: u128 = balance + in_after;
    let base: u128 = match mul_div_floor(total, SCALE, balance) {
        Some(b) => b,
        None => {
            return Err(ContractError::Overflow);
        },
    };
    let g: u64 = gcd(weight as u64, 100);
    proof {
        lemma_sgcd_divides(weight as nat, 100);
        lemma_divisor_bounds(100, g as nat);
    }
    let p: u64 = weight as u64 / g;
    let q: u64 = 100 / g;
    let t: u128 = match pow_fp(base, p) {
        Some(t) => t,
        None => {
            return Err(ContractError::Overflow);
        },
    };
    let rr: u128 = root_fp(t, q);
    proof {
        lemma_mul_inequality(balance as int, total as int, SCALE as int);
        lemma_div_is_ordered(balance * SCALE, total * SCALE, balance as int);
        lemma_div_by_multiple(SCALE as int, balance as int);
        lemma_mul_is_commutative(SCALE as int, balance as int);
        assert(base >= SCALE);
        if p > 0 {
            lemma_spow_ge_base(base as int, p as nat);
        }
        assert(t >= SCALE);
        lemma_spow_scale(q as nat);
        if rr < SCALE {
            lemma_spow_base_mono(rr as int + 1, SCALE as int, q as nat);
            assert(false);
        }
    }
    match mul_div_floor(total_shares, rr - SCALE, SCALE) {
        Some(m) => Ok((m, fee)),
        None => Err(ContractError::Overflow),
    }
}

/// A fee multiplier of at most one million keeps the fee at most the input.
proof fn lemma_fee_quotient_small(amount: int, mult: int)
    requires
        0 <= amount,
        0 <= mult <= 1000000,
    ensures
        amount * mult / 1000000 <= amount,
{
    lemma_mul_inequality(mult, 1000000, amount);
    lemma_mul_is_commutative(mult, amount);
    lemma_mul_is_commutative(1000000, amount);
    lemma_div_is_ordered(amount * mult, amount * 1000000, 1000000);
    lemma_div_by_multiple(amount, 1000000);
}

} // verus!
