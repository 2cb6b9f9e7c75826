//! Fixed-point arithmetic for rates and amounts.
//!
//! Rates are held as integers counting `1 / RATE_SCALE`, amounts as integers
//! counting `1 / AMOUNT_SCALE` of a currency unit. Every product is truncated
//! towards zero, and every overflow of `u128` is reported instead of wrapped.
use vstd::prelude::*;

verus! {

/// One, as a fixed-point rate.
pub const RATE_SCALE: u128 = 1_000_000_000_000_000;

/// One currency unit, as an internal amount.
pub const AMOUNT_SCALE: u128 = 1_000_000_000_000;

/// The largest number of decimal digits an amount can be rounded to.
pub const MAX_DEC_PLACES: u32 = 12;

/// `x` raised to the `k`-th power in fixed point, truncating after each product.
pub open spec fn pow_spec(x: int, k: nat) -> int
    decreases k,
{
    if k == 0 {
        RATE_SCALE as int
    } else {
        pow_spec(x, (k - 1) as nat) * x / (RATE_SCALE as int)
    }
}

/// Whether every product formed while computing `pow_spec(x, k)` fits in `u128`.
pub open spec fn pow_fits(x: int, k: nat) -> bool {
    k == 0 || pow_spec(x, (k - 1) as nat) * x <= u128::MAX
}

/// Ten to the power `e`.
pub open spec fn pow10(e: nat) -> int
    decreases e,
{
    if e == 0 {
        1
    } else {
        10 * pow10((e - 1) as nat)
    }
}

/// `x` rounded to a multiple of `unit`, halves away from zero, counted in `unit`s.
pub open spec fn round_spec(x: int, unit: int) -> int {
    x / unit + if 2 * (x % unit) >= unit { 1int } else { 0int }
}

/// The internal amount of one unit at `dec` decimal digits.
pub open spec fn dec_unit(dec: nat) -> int {
    pow10((MAX_DEC_PLACES - dec) as nat)
}

/// Powers of ten are positive and grow with the exponent.
pub proof fn lemma_pow10_grows(e: nat, f: nat)
    requires
        e <= f,
    ensures
        1 <= pow10(e) <= pow10(f),
    decreases f,
{
    if e < f {
        lemma_pow10_grows(e, (f - 1) as nat);
    } else if f > 0 {
        lemma_pow10_grows(0, (f - 1) as nat);
    }
}

/// A unit at `dec` decimal digits lies between one and `AMOUNT_SCALE`.
pub proof fn lemma_dec_unit_bounds(dec: nat)
    requires
        dec <= MAX_DEC_PLACES,
    ensures
        1 <= dec_unit(dec) <= AMOUNT_SCALE,
{
    reveal_with_fuel(pow10, 13);
    lemma_pow10_grows((MAX_DEC_PLACES - dec) as nat, 12);
}

/// For a factor of at least one, the powers never decrease.
pub proof fn lemma_pow_grows(x: int, j: nat, k: nat)
    requires
        x >= RATE_SCALE,
        j <= k,
    ensures
        RATE_SCALE <= pow_spec(x, j) <= pow_spec(x, k),
    decreases k,
{
    if k > 0 {
        let jj: nat = if j < k { j } else { (k - 1) as nat };
        lemma_pow_grows(x, jj, (k - 1) as nat);
        let a = pow_spec(x, (k - 1) as nat);
        assert(a * x >= a * (RATE_SCALE as int)) by (nonlinear_arith)
            requires
                a >= 0,
                x >= RATE_SCALE,
        ;
        vstd::arithmetic::div_mod::lemma_div_is_ordered(
            a * (RATE_SCALE as int),
            a * x,
            RATE_SCALE as int,
        );
        vstd::arithmetic::div_mod::lemma_div_multiples_vanish(a, RATE_SCALE as int);
    }
}

/// One raised to any power is one.
pub proof fn lemma_pow_one(k: nat)
    ensures
        pow_spec(RATE_SCALE as int, k) == RATE_SCALE,
    decreases k,
{
    if k > 0 {
        lemma_pow_one((k - 1) as nat);
        vstd::arithmetic::div_mod::lemma_div_multiples_vanish(
            RATE_SCALE as int,
            RATE_SCALE as int,
        );
    }
}

/// The first power of `x` is `x` itself.
pub proof fn lemma_pow_first(x: int)
    requires
        x >= 0,
    ensures
        pow_spec(x, 1) == x,
{
    assert(pow_spec(x, 0) == RATE_SCALE);
    vstd::arithmetic::div_mod::lemma_div_multiples_vanish(x, RATE_SCALE as int);
    assert(RATE_SCALE * x == x * RATE_SCALE) by (nonlinear_arith);
}

/// `x` to the `k`-th power in fixed point, or `None` when a product leaves `u128`.
pub fn pow_fx(x: u128, k: u64) -> (r: Option<u128>)
    requires
        x >= RATE_SCALE,
    ensures
        r is Some <==> pow_fits(x as int, k as nat),
        r matches Some(v) ==> v == pow_spec(x as int, k as nat),
{
    if x == RATE_SCALE {
        proof {
            lemma_pow_one(k as nat);
            if k > 0 {
                lemma_pow_one((k - 1) as nat);
            }
        }
        return Some(RATE_SCALE);
    }
    let mut acc: u128 = RATE_SCALE;
    let mut i: u64 = 0;
    while i < k
        invariant
            x >= RATE_SCALE,
            i <= k,
            acc as int == pow_spec(x as int, i as nat),
            i > 0 ==> pow_spec(x as int, (i - 1) as nat) * x <= u128::MAX,
        decreases k - i,
    {
        match acc.checked_mul(x) {
            Some(prod) => {
                proof {
                    vstd::arithmetic::div_mod::lemma_div_is_ordered(
                        prod as int,
                        u128::MAX as int,
                        RATE_SCALE as int,
                    );
                }
                acc = prod / RATE_SCALE;
                i = i + 1;
            },
            None => {
                proof {
                    lemma_pow_grows(x as int, i as nat, (k - 1) as nat);
                    let a = pow_spec(x as int, i as nat);
                    let b = pow_spec(x as int, (k - 1) as nat);
                    assert(b * x >= a * x) by (nonlinear_arith)
                        requires
                            b >= a,
                            x >= 0,
                    ;
                }
                return None;
            },
        }
    }
    Some(acc)
}

/// Raising to a power keeps the order of factors of at least one.
pub proof fn lemma_pow_monotone(x: int, y: int, k: nat)
    requires
        RATE_SCALE <= x <= y,
    ensures
        pow_spec(x, k) <= pow_spec(y, k),
    decreases k,
{
    if k > 0 {
        lemma_pow_monotone(x, y, (k - 1) as nat);
        lemma_pow_grows(x, 0, (k - 1) as nat);
        let a = pow_spec(x, (k - 1) as nat);
        let b = pow_spec(y, (k - 1) as nat);
        assert(a * x <= b * y) by (nonlinear_arith)
            requires
                0 <= a <= b,
                0 <= x <= y,
        ;
        vstd::arithmetic::div_mod::lemma_div_is_ordered(a * x, b * y, RATE_SCALE as int);
    }
}

/// Whether `x` is the fixed-point `p`-th root of `a`: the largest factor whose
/// `p`-th power does not exceed `a`.
pub open spec fn is_root(a: int, p: nat, x: int) -> bool {
    RATE_SCALE <= x && pow_spec(x, p) <= a < pow_spec(x + 1, p)
}

/// The fixed-point `p`-th root of `a`.
pub open spec fn root_spec(a: int, p: nat) -> int {
    choose|x: int| is_root(a, p, x)
}

/// A root, where one exists, is unique.
pub proof fn lemma_root_unique(a: int, p: nat, x: int, y: int)
    requires
        is_root(a, p, x),
        is_root(a, p, y),
    ensures
        x == y,
{
    if x < y {
        lemma_pow_monotone(x + 1, y, p);
    } else if y < x {
        lemma_pow_monotone(y + 1, x, p);
    }
}

/// The fixed-point `p`-th root of `a`, found by bisection.
pub fn root_fx(a: u128, p: u64) -> (r: u128)
    requires
        RATE_SCALE <= a < u128::MAX / RATE_SCALE,
        p >= 1,
    ensures
        is_root(a as int, p as nat, r as int),
        r == root_spec(a as int, p as nat),
{
    let mut lo: u128 = RATE_SCALE;
    let mut hi: u128 = a + 1;
    proof {
        lemma_pow_one(p as nat);
        lemma_pow_grows((a + 1) as int, 1, p as nat);
        lemma_pow_first((a + 1) as int);
    }
    while hi - lo > 1
        invariant
            RATE_SCALE <= lo < hi <= a + 1,
            a < u128::MAX / RATE_SCALE,
            p >= 1,
            pow_spec(lo as int, p as nat) <= a < pow_spec(hi as int, p as nat),
        decreases hi - lo,
    {
        let mid: u128 = lo + (hi - lo) / 2;
        match pow_fx(mid, p) {
            Some(v) => {
                if v <= a {
                    lo = mid;
                } else {
                    hi = mid;
                }
            },
            None => {
                proof {
                    let b = pow_spec(mid as int, (p - 1) as nat);
                    assert(b * mid > u128::MAX);
                    vstd::arithmetic::div_mod::lemma_div_is_ordered(
                        u128::MAX as int,
                        b * mid,
                        RATE_SCALE as int,
                    );
                    assert(pow_spec(mid as int, p as nat) == b * mid / (RATE_SCALE as int));
                }
                hi = mid;
            },
        }
    }
    proof {
        assert(is_root(a as int, p as nat, lo as int));
        lemma_root_unique(a as int, p as nat, lo as int, root_spec(a as int, p as nat));
    }
    lo
}

/// `x` rounded to a whole number of `unit`s, halves away from zero.
pub fn round_units(x: u128, unit: u128) -> (r: u128)
    requires
        1 <= unit <= AMOUNT_SCALE,
    ensures
        r == round_spec(x as int, unit as int),
{
    let q = x / unit;
    if 2 * (x % unit) >= unit {
        proof {
            vstd::arithmetic::div_mod::lemma_div_is_ordered_by_denominator(x as int, 2, unit as int);
        }
        q + 1
    } else {
        q
    }
}

/// The internal amount of one unit at `dec` decimal digits.
pub fn dec_unit_fx(dec: u32) -> (r: u128)
    requires
        dec <= MAX_DEC_PLACES,
    ensures
        r == dec_unit(dec as nat),
        1 <= r <= AMOUNT_SCALE,
{
    let mut r: u128 = 1;
    let mut i: u32 = 0;
    proof {
        reveal_with_fuel(pow10, 13);
    }
    while i < MAX_DEC_PLACES - dec
        invariant
            dec <= MAX_DEC_PLACES,
            i <= MAX_DEC_PLACES - dec,
            r == pow10(i as nat),
            pow10(12) == 1_000_000_000_000,
        decreases MAX_DEC_PLACES - dec - i,
    {
        proof {
            lemma_pow10_grows((i + 1) as nat, 12);
        }
        r = 10 * r;
        i = i + 1;
    }
    proof {
        lemma_dec_unit_bounds(dec as nat);
    }
    r
}

/// A rounded amount lies within half a unit of the amount.
pub proof fn lemma_round_close(x: int, unit: int)
    requires
        x >= 0,
        unit >= 1,
    ensures
        -unit <= 2 * (unit * round_spec(x, unit) - x) <= unit,
        0 <= round_spec(x, unit),
        x <= u128::MAX ==> round_spec(x, unit) <= u128::MAX,
{
    vstd::arithmetic::div_mod::lemma_fundamental_div_mod(x, unit);
    let q = x / unit;
    let r = x % unit;
    assert(x == unit * q + r);
    assert(0 <= q) by {
        vstd::arithmetic::div_mod::lemma_div_pos_is_pos(x, unit);
    }
    assert(0 <= r < unit);
    if 2 * r >= unit {
        assert(round_spec(x, unit) == q + 1);
        assert(unit * (q + 1) == unit * q + unit) by (nonlinear_arith);
    } else {
        assert(round_spec(x, unit) == q);
    }
    if unit >= 2 {
        vstd::arithmetic::div_mod::lemma_div_is_ordered_by_denominator(x, 2, unit);
    }
}

/// Rounding a whole number of units gives that number back.
pub proof fn lemma_round_exact(n: int, unit: int)
    requires
        n >= 0,
        unit >= 1,
    ensures
        round_spec(n * unit, unit) == n,
{
    vstd::arithmetic::div_mod::lemma_div_multiples_vanish(n, unit);
    vstd::arithmetic::div_mod::lemma_mod_multiples_vanish(n, 0, unit);
    assert(unit * n == n * unit) by (nonlinear_arith);
    assert(0int % unit == 0);
}

} // verus!
