//! Payment and compounding frequencies, and the interest rates they give.
use vstd::prelude::*;

use crate::fixed::{
    pow_fits, pow_fx, pow_spec, root_fx, root_spec, RATE_SCALE,
};

verus! {

/// How often a payment falls due.
#[derive(Clone, Copy, PartialEq, Eq, Debug, Structural)]
pub enum PmtSchedule {
    Weekly,
    Biweekly,
    SemiMonthly,
    Monthly,
    Quarterly,
    SemiAnnually,
    Annually,
}

/// How often interest is compounded.
#[derive(Clone, Copy, PartialEq, Eq, Debug, Structural)]
pub enum Compounding {
    Daily,
    Monthly,
    Quarterly,
    SemiAnnually,
    Annually,
}

/// An annual rate is given in millionths of a percent: 7.0% is `7_000_000`.
pub const RATE_UNITS_PER_PERCENT: u128 = 1_000_000;

/// Payments per year.
pub open spec fn pmt_periods(s: PmtSchedule) -> nat {
    match s {
        PmtSchedule::Weekly => 52,
        PmtSchedule::Biweekly => 26,
        PmtSchedule::SemiMonthly => 24,
        PmtSchedule::Monthly => 12,
        PmtSchedule::Quarterly => 4,
        PmtSchedule::SemiAnnually => 2,
        PmtSchedule::Annually => 1,
    }
}

/// Compounding periods per year.
pub open spec fn compounding_periods(c: Compounding) -> nat {
    match c {
        Compounding::Daily => 365,
        Compounding::Monthly => 12,
        Compounding::Quarterly => 4,
        Compounding::SemiAnnually => 2,
        Compounding::Annually => 1,
    }
}

/// The number of compounding periods in a year.
pub fn get_compounding_periods(compound_type: Compounding) -> (r: u64)
    ensures
        r == compounding_periods(compound_type),
        1 <= r <= 365,
{
    match compound_type {
        Compounding::Daily => 365,
        Compounding::Monthly => 12,
        Compounding::Quarterly => 4,
        Compounding::SemiAnnually => 2,
        Compounding::Annually => 1,
    }
}

/// The number of payments in a year.
pub fn get_pmt_schedule(pmt_schedule: PmtSchedule) -> (r: u64)
    ensures
        r == pmt_periods(pmt_schedule),
        1 <= r <= 52,
{
    match pmt_schedule {
        PmtSchedule::Weekly => 52,
        PmtSchedule::Biweekly => 26,
        PmtSchedule::SemiMonthly => 24,
        PmtSchedule::Monthly => 12,
        PmtSchedule::Quarterly => 4,
        PmtSchedule::SemiAnnually => 2,
        PmtSchedule::Annually => 1,
    }
}

/// The rate of one compounding period: the annual percentage, over 100, over
/// the periods per year, truncated to a fixed-point rate.
pub open spec fn compounding_rate(annual_rate: int, c: Compounding) -> int {
    annual_rate * RATE_SCALE / (100 * RATE_UNITS_PER_PERCENT * compounding_periods(c))
}

/// The rate of one compounding period, as a fixed-point rate.
pub fn get_compounding_rate(annual_rate: u64, compound_type: Compounding) -> (r: u128)
    ensures
        r == compounding_rate(annual_rate as int, compound_type),
        r + RATE_SCALE <= u128::MAX,
{
    let c = get_compounding_periods(compound_type) as u128;
    proof {
        assert(annual_rate * RATE_SCALE <= u64::MAX * RATE_SCALE) by (nonlinear_arith)
            requires
                annual_rate <= u64::MAX,
        ;
    }
    let denom: u128 = c * 100_000_000;
    assert(denom == 100 * RATE_UNITS_PER_PERCENT * c);
    proof {
        let x = annual_rate * RATE_SCALE;
        vstd::arithmetic::div_mod::lemma_div_is_ordered_by_denominator(x, 1, denom as int);
    }
    (annual_rate as u128) * RATE_SCALE / denom
}

/// The rate of one payment period, `(1 + d) ^ (c / p) - 1` for the compounding
/// rate `d`: the `p`-th root of `(1 + d) ^ c`. Where the two frequencies agree
/// it is `d` itself. `None` where the growth over a year is beyond the range of
/// fixed-point rates.
pub open spec fn period_rate(annual_rate: int, c: Compounding, s: PmtSchedule) -> Option<int> {
    let d = compounding_rate(annual_rate, c);
    let cp = compounding_periods(c);
    let pp = pmt_periods(s);
    if cp == pp {
        Some(d)
    } else if pow_fits(RATE_SCALE + d, cp) && pow_spec(RATE_SCALE + d, cp) < u128::MAX
        / RATE_SCALE {
        Some(root_spec(pow_spec(RATE_SCALE + d, cp), pp) - RATE_SCALE)
    } else {
        None
    }
}

/// The interest rate of one payment period.
pub fn get_period_rate(annual_rate: u64, compound_type: Compounding, pmt_schedule: PmtSchedule) -> (r:
    Option<u128>)
    ensures
        r matches Some(v) ==> period_rate(annual_rate as int, compound_type, pmt_schedule) == Some(
            v as int,
        ),
        r is None ==> period_rate(annual_rate as int, compound_type, pmt_schedule) is None,
        r matches Some(v) ==> v + RATE_SCALE <= u128::MAX,
{
    let d = get_compounding_rate(annual_rate, compound_type);
    let c = get_compounding_periods(compound_type);
    let p = get_pmt_schedule(pmt_schedule);
    if c == p {
        return Some(d);
    }
    match pow_fx(RATE_SCALE + d, c) {
        Some(a) => {
            if a < u128::MAX / RATE_SCALE {
                proof {
                    crate::fixed::lemma_pow_grows((RATE_SCALE + d) as int, 0, c as nat);
                }
                let x = root_fx(a, p);
                proof {
                    crate::fixed::lemma_pow_grows(x as int, 1, p as nat);
                    crate::fixed::lemma_pow_first(x as int);
                }
                Some(x - RATE_SCALE)
            } else {
                None
            }
        },
        None => None,
    }
}

} // verus!
