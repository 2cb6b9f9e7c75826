//! The level payment of a loan and its schedule of payments.
use vstd::prelude::*;

use crate::date::{
    day_number, days_between, get_next_pmt_date, next_pmt_date_spec, PmtDate, MAX_YEAR,
};
use crate::fixed::{
    lemma_dec_unit_bounds, lemma_round_close, lemma_round_exact, dec_unit, dec_unit_fx, pow_fits, pow_fx, pow_spec, round_spec, round_units, AMOUNT_SCALE,
    MAX_DEC_PLACES, RATE_SCALE,
};
use crate::frequency::{
    compounding_rate, get_compounding_rate, get_period_rate, get_pmt_schedule, period_rate,
    pmt_periods, Compounding, PmtSchedule,
};

verus! {

/// The level payment, in units of `10^-dec` of a currency unit, for a loan of
/// `principal` such units over `term` years at `annual_rate` millionths of a
/// percent: `P * i * f / (f - 1)` with `f = (1 + i) ^ n`, for the payment
/// period rate `i` and `n` payments, rounded half away from zero. With a zero
/// rate the principal is spread evenly over the payments. `None` where a value
/// leaves the range of 128-bit fixed point.
pub open spec fn pmt_amount_spec(
    principal: int,
    term: int,
    annual_rate: int,
    s: PmtSchedule,
    c: Compounding,
    dec: nat,
) -> Option<int> {
    let unit = dec_unit(dec);
    let pi = principal * unit;
    let n = term * pmt_periods(s);
    match period_rate(annual_rate, c, s) {
        None => None,
        Some(i) => if i == 0 {
            Some(round_spec(pi / n, unit))
        } else if !pow_fits(RATE_SCALE + i, n as nat) || pi * i > u128::MAX {
            None
        } else {
            let f = pow_spec(RATE_SCALE + i, n as nat);
            let t = pi * i / (RATE_SCALE as int);
            if t * f > u128::MAX {
                None
            } else {
                Some(round_spec(t * f / (f - RATE_SCALE), unit))
            }
        },
    }
}

/// The level payment of a loan; see `pmt_amount_spec`.
pub fn get_pmt_amount(
    principal: &u64,
    term: &u32,
    annual_rate: &u64,
    pmt_schedule: &PmtSchedule,
    compound_type: &Compounding,
    dec_places: &u32,
) -> (r: Option<u128>)
    requires
        *term >= 1,
        *dec_places <= MAX_DEC_PLACES,
    ensures
        r matches Some(v) ==> pmt_amount_spec(
            *principal as int,
            *term as int,
            *annual_rate as int,
            *pmt_schedule,
            *compound_type,
            *dec_places as nat,
        ) == Some(v as int),
        r is None ==> pmt_amount_spec(
            *principal as int,
            *term as int,
            *annual_rate as int,
            *pmt_schedule,
            *compound_type,
            *dec_places as nat,
        ) is None,
{
    let unit = dec_unit_fx(*dec_places);
    proof {
        assert(*principal * unit <= u64::MAX * AMOUNT_SCALE) by (nonlinear_arith)
            requires
                *principal <= u64::MAX,
                unit <= AMOUNT_SCALE,
        ;
    }
    let pi: u128 = (*principal as u128) * unit;
    let n: u64 = (*term as u64) * get_pmt_schedule(*pmt_schedule);
    let i = match get_period_rate(*annual_rate, *compound_type, *pmt_schedule) {
        Some(i) => i,
        None => return None,
    };
    if i == 0 {
        return Some(round_units(pi / (n as u128), unit));
    }
    let f = match pow_fx(RATE_SCALE + i, n) {
        Some(f) => f,
        None => return None,
    };
    let t = match pi.checked_mul(i) {
        Some(x) => x / RATE_SCALE,
        None => return None,
    };
    let tf = match t.checked_mul(f) {
        Some(x) => x,
        None => return None,
    };
    proof {
        crate::fixed::lemma_pow_grows((RATE_SCALE + i) as int, 1, n as nat);
        crate::fixed::lemma_pow_first((RATE_SCALE + i) as int);
    }
    Some(round_units(tf / (f - RATE_SCALE), unit))
}

/// The most payments a schedule holds.
pub const MAX_PMTS: u32 = 500;

/// One scheduled payment. Amounts are in units of `10^-dec` of a currency
/// unit, for the loan's precision `dec`.
#[derive(Clone, Copy, PartialEq, Eq, Debug, Structural)]
pub struct LoanPayment {
    pub pmt_number: u32,
    pub pmt_date: PmtDate,
    pub pmt_amount: u128,
    pub pmt_interest_paid: u128,
    pub pmt_end_balance: u128,
}

impl LoanPayment {
    pub fn new(
        pmt_number: u32,
        pmt_date: PmtDate,
        pmt_amount: u128,
        pmt_interest_paid: u128,
        pmt_end_balance: u128,
    ) -> (r: Self)
        ensures
            r == (LoanPayment {
                pmt_number,
                pmt_date,
                pmt_amount,
                pmt_interest_paid,
                pmt_end_balance,
            }),
    {
        LoanPayment { pmt_number, pmt_date, pmt_amount, pmt_interest_paid, pmt_end_balance }
    }
}

/// The interest rate of the period from `begin` to `end`. With daily
/// compounding it is `(1 + d) ^ days - 1` for the daily rate `d` and the days
/// of the period (none, for a period that does not move forward); otherwise the
/// fixed rate of a payment period.
pub open spec fn period_interest_rate(
    annual_rate: int,
    c: Compounding,
    s: PmtSchedule,
    begin: PmtDate,
    end: PmtDate,
) -> Option<int> {
    if c == Compounding::Daily {
        let x = RATE_SCALE + compounding_rate(annual_rate, c);
        let diff = day_number(end) - day_number(begin);
        let days: nat = if diff < 0 {
            0
        } else {
            diff as nat
        };
        if pow_fits(x, days) {
            Some(pow_spec(x, days) - RATE_SCALE)
        } else {
            None
        }
    } else {
        period_rate(annual_rate, c, s)
    }
}

/// One period on a balance: the payment, the interest, and the balance after
/// it. Where the level payment exceeds the balance, the payment is resized to
/// retire the loan. `None` where a value leaves `u128`.
pub open spec fn pmt_step(pmt: int, rate: int, balance: int) -> Option<(int, int, int)> {
    if rate < 0 || balance * rate > u128::MAX {
        None
    } else {
        let interest = balance * rate / (RATE_SCALE as int);
        if balance + interest > u128::MAX {
            None
        } else if pmt <= balance {
            Some((pmt, interest, balance + interest - pmt))
        } else {
            Some((balance + interest, interest, 0))
        }
    }
}

/// The payments from the `k+1`-th on, for a period from `begin` to `end` that
/// opens on `balance` (internal amounts; `unit` is the internal amount of one
/// unit of the loan's precision, and `pmt` the internal level payment). The
/// schedule ends when the balance is paid off, after `MAX_PMTS` payments, or
/// where a rate, an amount or a date leaves the range this library holds.
pub open spec fn schedule_from(
    annual_rate: int,
    c: Compounding,
    s: PmtSchedule,
    unit: int,
    pmt: int,
    k: nat,
    begin: PmtDate,
    end: PmtDate,
    balance: int,
) -> Seq<LoanPayment>
    decreases MAX_PMTS - k,
{
    if k >= MAX_PMTS {
        seq![]
    } else {
        match period_interest_rate(annual_rate, c, s, begin, end) {
            None => seq![],
            Some(rate) => match pmt_step(pmt, rate, balance) {
                None => seq![],
                Some((p, i, e)) => {
                    let rec = LoanPayment {
                        pmt_number: (k + 1) as u32,
                        pmt_date: end,
                        pmt_amount: round_spec(p, unit) as u128,
                        pmt_interest_paid: round_spec(i, unit) as u128,
                        pmt_end_balance: round_spec(e, unit) as u128,
                    };
                    if e == 0 || end.year >= MAX_YEAR {
                        seq![rec]
                    } else {
                        seq![rec] + schedule_from(
                            annual_rate,
                            c,
                            s,
                            unit,
                            pmt,
                            k + 1,
                            end,
                            next_pmt_date_spec(end, s),
                            e,
                        )
                    }
                },
            },
        }
    }
}

/// The payment schedule of a loan whose level payment is `pmt_amount`, in
/// units of `10^-dec`.
pub open spec fn schedule_spec(
    principal: int,
    annual_rate: int,
    s: PmtSchedule,
    c: Compounding,
    loan_date: PmtDate,
    first_pmt_date: PmtDate,
    dec: nat,
    pmt_amount: int,
) -> Seq<LoanPayment> {
    let unit = dec_unit(dec);
    schedule_from(
        annual_rate,
        c,
        s,
        unit,
        pmt_amount * unit,
        0,
        loan_date,
        first_pmt_date,
        principal * unit,
    )
}

fn pmt_step_fx(pmt: u128, rate: u128, balance: u128) -> (r: Option<(u128, u128, u128)>)
    ensures
        r matches Some(v) ==> pmt_step(pmt as int, rate as int, balance as int) == Some(
            (v.0 as int, v.1 as int, v.2 as int),
        ),
        r is None ==> pmt_step(pmt as int, rate as int, balance as int) is None,
{
    let interest = match balance.checked_mul(rate) {
        Some(x) => x / RATE_SCALE,
        None => return None,
    };
    let total = match balance.checked_add(interest) {
        Some(x) => x,
        None => return None,
    };
    if pmt <= balance {
        Some((pmt, interest, total - pmt))
    } else {
        Some((total, interest, 0))
    }
}

/// The scheduled payments of a loan whose level payment is `pmt_amount`.
pub fn add_scheduled_pmts(
    principal: &u64,
    loan_date: &PmtDate,
    first_pmt_date: &PmtDate,
    annual_rate: &u64,
    pmt_schedule: &PmtSchedule,
    compound_type: &Compounding,
    dec_places: &u32,
    pmt_amount: u64,
) -> (r: Vec<LoanPayment>)
    requires
        loan_date.wf(),
        first_pmt_date.wf(),
        *dec_places <= MAX_DEC_PLACES,
    ensures
        r@ == schedule_spec(
            *principal as int,
            *annual_rate as int,
            *pmt_schedule,
            *compound_type,
            *loan_date,
            *first_pmt_date,
            *dec_places as nat,
            pmt_amount as int,
        ),
{
    let unit = dec_unit_fx(*dec_places);
    proof {
        assert(*principal * unit <= u64::MAX * AMOUNT_SCALE) by (nonlinear_arith)
            requires
                *principal <= u64::MAX,
                unit <= AMOUNT_SCALE,
        ;
        assert(pmt_amount * unit <= u64::MAX * AMOUNT_SCALE) by (nonlinear_arith)
            requires
                pmt_amount <= u64::MAX,
                unit <= AMOUNT_SCALE,
        ;
    }
    let pmt: u128 = (pmt_amount as u128) * unit;
    let daily = get_compounding_rate(*annual_rate, *compound_type);
    let fixed_rate = if *compound_type == Compounding::Daily {
        None
    } else {
        get_period_rate(*annual_rate, *compound_type, *pmt_schedule)
    };
    let ghost full = schedule_spec(
        *principal as int,
        *annual_rate as int,
        *pmt_schedule,
        *compound_type,
        *loan_date,
        *first_pmt_date,
        *dec_places as nat,
        pmt_amount as int,
    );
    let mut sched_pmt: Vec<LoanPayment> = Vec::new();
    let mut pmt_number: u32 = 0;
    let mut begin_date: PmtDate = *loan_date;
    let mut end_date: PmtDate = *first_pmt_date;
    let mut begin_balance: u128 = (*principal as u128) * unit;
    loop
        invariant_except_break
            sched_pmt@ + schedule_from(
                *annual_rate as int,
                *compound_type,
                *pmt_schedule,
                unit as int,
                pmt as int,
                pmt_number as nat,
                begin_date,
                end_date,
                begin_balance as int,
            ) == full,
        invariant
            pmt_number <= MAX_PMTS,
            begin_date.wf(),
            end_date.wf(),
            1 <= unit <= AMOUNT_SCALE,
            unit == dec_unit(*dec_places as nat),
            pmt == pmt_amount * unit,
            daily == compounding_rate(*annual_rate as int, *compound_type),
            daily + RATE_SCALE <= u128::MAX,
            *compound_type != Compounding::Daily ==> (match fixed_rate {
                Some(v) => period_rate(*annual_rate as int, *compound_type, *pmt_schedule)
                    == Some(v as int),
                None => period_rate(*annual_rate as int, *compound_type, *pmt_schedule) is None,
            }),
        ensures
            sched_pmt@ == full,
        decreases MAX_PMTS - pmt_number,
    {
        let ghost rest = schedule_from(
            *annual_rate as int,
            *compound_type,
            *pmt_schedule,
            unit as int,
            pmt as int,
            pmt_number as nat,
            begin_date,
            end_date,
            begin_balance as int,
        );
        if pmt_number >= MAX_PMTS {
            assert(sched_pmt@ + rest == sched_pmt@);
            break;
        }
        let rate: u128 = if *compound_type == Compounding::Daily {
            let diff = days_between(end_date, begin_date);
            let days: u64 = if diff < 0 {
                0
            } else {
                diff as u64
            };
            match pow_fx(RATE_SCALE + daily, days) {
                Some(v) => {
                    proof {
                        crate::fixed::lemma_pow_grows((RATE_SCALE + daily) as int, 0, days as nat);
                    }
                    v - RATE_SCALE
                },
                None => {
                    assert(sched_pmt@ + rest == sched_pmt@);
                    break;
                },
            }
        } else {
            match fixed_rate {
                Some(v) => v,
                None => {
                    assert(sched_pmt@ + rest == sched_pmt@);
                    break;
                },
            }
        };
        let (amount, interest, end_balance) = match pmt_step_fx(pmt, rate, begin_balance) {
            Some(v) => v,
            None => {
                assert(sched_pmt@ + rest == sched_pmt@);
                break;
            },
        };
        let rec = LoanPayment::new(
            pmt_number + 1,
            end_date,
            round_units(amount, unit),
            round_units(interest, unit),
            round_units(end_balance, unit),
        );
        let ghost before = sched_pmt@;
        sched_pmt.push(rec);
        if end_balance == 0 || end_date.year >= MAX_YEAR {
            assert(rest == seq![rec]);
            assert(sched_pmt@ == before + rest);
            break;
        }
        let next_date = get_next_pmt_date(&end_date, pmt_schedule);
        begin_date = end_date;
        end_date = next_date;
        begin_balance = end_balance;
        pmt_number = pmt_number + 1;
        proof {
            assert(before + rest == sched_pmt@ + schedule_from(
                *annual_rate as int,
                *compound_type,
                *pmt_schedule,
                unit as int,
                pmt as int,
                pmt_number as nat,
                begin_date,
                end_date,
                begin_balance as int,
            ));
        }
    }
    sched_pmt
}

/// The balance a payment of `recs` begins on: `first` for the first payment,
/// the ending balance of the one before for any other.
pub open spec fn beginning_balance(recs: Seq<LoanPayment>, first: int, i: int) -> int {
    if i == 0 {
        first
    } else {
        recs[i - 1].pmt_end_balance as int
    }
}

/// Whether payment `i` of `recs` ends on its beginning balance less what it
/// repays of the principal (the payment less the interest), within `tol` units.
pub open spec fn carries_balance(recs: Seq<LoanPayment>, first: int, i: int, tol: int) -> bool {
    let r = recs[i];
    let expected = beginning_balance(recs, first, i) - (r.pmt_amount - r.pmt_interest_paid);
    -tol <= r.pmt_end_balance - expected <= tol
}

proof fn lemma_carries_from(
    annual_rate: int,
    c: Compounding,
    s: PmtSchedule,
    unit: int,
    pmt: int,
    k: nat,
    begin: PmtDate,
    end: PmtDate,
    balance: int,
    i: int,
)
    requires
        unit >= 1,
        0 <= pmt,
        0 <= balance <= u128::MAX,
        0 <= i < schedule_from(annual_rate, c, s, unit, pmt, k, begin, end, balance).len(),
    ensures
        carries_balance(
            schedule_from(annual_rate, c, s, unit, pmt, k, begin, end, balance),
            round_spec(balance, unit),
            i,
            2,
        ),
    decreases MAX_PMTS - k,
{
    let recs = schedule_from(annual_rate, c, s, unit, pmt, k, begin, end, balance);
    let rate = period_interest_rate(annual_rate, c, s, begin, end)->Some_0;
    let (p, int_paid, e) = pmt_step(pmt, rate, balance)->Some_0;
    assert(0 <= balance * rate) by (nonlinear_arith)
        requires
            0 <= balance,
            0 <= rate,
    ;
    assert(0 <= int_paid) by {
        vstd::arithmetic::div_mod::lemma_div_pos_is_pos(balance * rate, RATE_SCALE as int);
    }
    assert(e == balance + int_paid - p);
    assert(0 <= p <= u128::MAX && 0 <= e <= u128::MAX && int_paid <= u128::MAX);
    lemma_round_close(p, unit);
    lemma_round_close(int_paid, unit);
    lemma_round_close(e, unit);
    lemma_round_close(balance, unit);
    if i == 0 {
        let d = recs[0].pmt_end_balance - (round_spec(balance, unit) - (recs[0].pmt_amount
            - recs[0].pmt_interest_paid));
        let rp = round_spec(p, unit);
        let ri = round_spec(int_paid, unit);
        let re = round_spec(e, unit);
        let rb = round_spec(balance, unit);
        assert(d == re - (rb - (rp - ri)));
        assert(-2 <= d <= 2) by (nonlinear_arith)
            requires
                unit >= 1,
                e == balance + int_paid - p,
                d == re - (rb - (rp - ri)),
                -unit <= 2 * (unit * rp - p) <= unit,
                -unit <= 2 * (unit * ri - int_paid) <= unit,
                -unit <= 2 * (unit * re - e) <= unit,
                -unit <= 2 * (unit * rb - balance) <= unit,
        ;
    } else {
        let next = next_pmt_date_spec(end, s);
        let rest = schedule_from(annual_rate, c, s, unit, pmt, k + 1, end, next, e);
        assert(recs == seq![recs[0]] + rest);
        lemma_carries_from(annual_rate, c, s, unit, pmt, k + 1, end, next, e, i - 1);
        assert(recs[i] == rest[i - 1]);
        if i > 1 {
            assert(recs[i - 1] == rest[i - 2]);
        }
    }
}

/// The balance carries from payment to payment: each payment ends on the
/// balance it began on less the principal it repays (its amount less its
/// interest), within two units of the loan's precision. The first payment
/// begins on the principal, every later one on the balance the one before
/// ended on.
pub proof fn law_balance_carries(
    principal: u64,
    annual_rate: u64,
    s: PmtSchedule,
    c: Compounding,
    loan_date: PmtDate,
    first_pmt_date: PmtDate,
    dec: nat,
    pmt_amount: u64,
    i: int,
)
    requires
        dec <= MAX_DEC_PLACES,
        0 <= i < schedule_spec(
            principal as int,
            annual_rate as int,
            s,
            c,
            loan_date,
            first_pmt_date,
            dec,
            pmt_amount as int,
        ).len(),
    ensures
        carries_balance(
            schedule_spec(
                principal as int,
                annual_rate as int,
                s,
                c,
                loan_date,
                first_pmt_date,
                dec,
                pmt_amount as int,
            ),
            principal as int,
            i,
            2,
        ),
{
    let unit = dec_unit(dec);
    lemma_dec_unit_bounds(dec);
    assert(principal * unit <= u64::MAX * AMOUNT_SCALE) by (nonlinear_arith)
        requires
            principal <= u64::MAX,
            1 <= unit <= AMOUNT_SCALE,
    ;
    assert(0 <= pmt_amount * unit) by (nonlinear_arith)
        requires
            pmt_amount >= 0,
            unit >= 1,
    ;
    lemma_round_exact(principal as int, unit);
    lemma_carries_from(
        annual_rate as int,
        c,
        s,
        unit,
        pmt_amount * unit,
        0,
        loan_date,
        first_pmt_date,
        principal * unit,
        i,
    );
}

/// Whether every period of the schedule from the `k+1`-th payment on stays in
/// the range this library holds: each rate, amount and next date can be formed.
pub open spec fn schedule_fits(
    annual_rate: int,
    c: Compounding,
    s: PmtSchedule,
    pmt: int,
    k: nat,
    begin: PmtDate,
    end: PmtDate,
    balance: int,
) -> bool
    decreases MAX_PMTS - k,
{
    if k >= MAX_PMTS {
        true
    } else {
        match period_interest_rate(annual_rate, c, s, begin, end) {
            None => false,
            Some(rate) => match pmt_step(pmt, rate, balance) {
                None => false,
                Some((p, i, e)) => if e == 0 {
                    true
                } else if end.year >= MAX_YEAR {
                    false
                } else {
                    schedule_fits(annual_rate, c, s, pmt, k + 1, end, next_pmt_date_spec(end, s), e)
                },
            },
        }
    }
}

proof fn lemma_ends_from(
    annual_rate: int,
    c: Compounding,
    s: PmtSchedule,
    unit: int,
    pmt: int,
    k: nat,
    begin: PmtDate,
    end: PmtDate,
    balance: int,
)
    requires
        k <= MAX_PMTS,
        unit >= 1,
    ensures
        ({
            let recs = schedule_from(annual_rate, c, s, unit, pmt, k, begin, end, balance);
            &&& recs.len() <= MAX_PMTS - k
            &&& forall|j: int| 0 <= j < recs.len() ==> #[trigger] recs[j].pmt_number == k + j + 1
            &&& schedule_fits(annual_rate, c, s, pmt, k, begin, end, balance) && k < MAX_PMTS
                ==> recs.len() >= 1 && (recs.len() < MAX_PMTS - k ==> recs[recs.len()
                - 1].pmt_end_balance == 0)
        }),
    decreases MAX_PMTS - k,
{
    let recs = schedule_from(annual_rate, c, s, unit, pmt, k, begin, end, balance);
    if k < MAX_PMTS {
        match period_interest_rate(annual_rate, c, s, begin, end) {
            None => {},
            Some(rate) => match pmt_step(pmt, rate, balance) {
                None => {},
                Some((p, i, e)) => {
                    if e == 0 {
                        assert(round_spec(0, unit) == 0) by {
                            lemma_round_exact(0, unit);
                        }
                    } else if end.year < MAX_YEAR {
                        let next = next_pmt_date_spec(end, s);
                        let rest = schedule_from(annual_rate, c, s, unit, pmt, k + 1, end, next, e);
                        lemma_ends_from(annual_rate, c, s, unit, pmt, k + 1, end, next, e);
                        assert(recs == seq![recs[0]] + rest);
                        assert forall|j: int| 0 <= j < recs.len() implies #[trigger] recs[j].pmt_number
                            == k + j + 1 by {
                            if j > 0 {
                                assert(recs[j] == rest[j - 1]);
                            }
                        }
                        if rest.len() > 0 {
                            assert(recs[recs.len() - 1] == rest[rest.len() - 1]);
                        }
                    }
                },
            },
        }
    }
}

/// A schedule holds at most `MAX_PMTS` payments, numbered from 1 in order.
/// Where every period stays in the range this library holds, it holds at
/// least one payment, and unless it stopped at `MAX_PMTS` payments (a payment
/// too small to retire the loan), its last payment ends on a zero balance.
pub proof fn law_schedule_ends(
    principal: u64,
    annual_rate: u64,
    s: PmtSchedule,
    c: Compounding,
    loan_date: PmtDate,
    first_pmt_date: PmtDate,
    dec: nat,
    pmt_amount: u64,
)
    requires
        dec <= MAX_DEC_PLACES,
    ensures
        ({
            let recs = schedule_spec(
                principal as int,
                annual_rate as int,
                s,
                c,
                loan_date,
                first_pmt_date,
                dec,
                pmt_amount as int,
            );
            let unit = dec_unit(dec);
            &&& recs.len() <= MAX_PMTS
            &&& forall|j: int| 0 <= j < recs.len() ==> #[trigger] recs[j].pmt_number == j + 1
            &&& schedule_fits(
                annual_rate as int,
                c,
                s,
                pmt_amount * unit,
                0,
                loan_date,
                first_pmt_date,
                principal * unit,
            ) ==> recs.len() >= 1 && (recs.len() < MAX_PMTS ==> recs[recs.len()
                - 1].pmt_end_balance == 0)
        }),
{
    let unit = dec_unit(dec);
    lemma_dec_unit_bounds(dec);
    lemma_ends_from(
        annual_rate as int,
        c,
        s,
        unit,
        pmt_amount * unit,
        0,
        loan_date,
        first_pmt_date,
        principal * unit,
    );
}

/// Making a loan twice from the same terms gives the same level payment and
/// the same schedule.
pub proof fn law_loan_deterministic(
    a: Loan,
    b: Loan,
    principal: u64,
    term: u32,
    annual_rate: u64,
    s: PmtSchedule,
    c: Compounding,
    loan_date: PmtDate,
    first_pmt_date: PmtDate,
    dec: nat,
)
    requires
        a.made_from(
            principal as int,
            term as int,
            annual_rate as int,
            s,
            c,
            loan_date,
            first_pmt_date,
            dec,
        ),
        b.made_from(
            principal as int,
            term as int,
            annual_rate as int,
            s,
            c,
            loan_date,
            first_pmt_date,
            dec,
        ),
    ensures
        a.level_payment() == b.level_payment(),
        a.scheduled() == b.scheduled(),
{
}

/// A loan, with its level payment and its schedule of payments computed once,
/// when it is made.
#[derive(Debug)]
pub struct Loan {
    pub principal: u64,
    pub term: u32,
    pub annual_rate: u64,
    pub pmt_schedule: PmtSchedule,
    pub compound_type: Compounding,
    pub loan_date: PmtDate,
    pub first_pmt_date: PmtDate,
    pub dec_places: u32,
    pub pmt_amount: u64,
    pub scheduled_pmts: Vec<LoanPayment>,
    pub actual_pmts: Vec<LoanPayment>,
}

impl Loan {
    /// The level payment, in units of `10^-dec_places`.
    pub open spec fn level_payment(&self) -> int {
        self.pmt_amount as int
    }

    /// The scheduled payments, in order.
    pub open spec fn scheduled(&self) -> Seq<LoanPayment> {
        self.scheduled_pmts@
    }

    /// The payments recorded as made.
    pub open spec fn actual(&self) -> Seq<LoanPayment> {
        self.actual_pmts@
    }

    /// Whether this loan holds the level payment and the schedule of the
    /// given terms.
    pub open spec fn made_from(
        &self,
        principal: int,
        term: int,
        annual_rate: int,
        s: PmtSchedule,
        c: Compounding,
        loan_date: PmtDate,
        first_pmt_date: PmtDate,
        dec: nat,
    ) -> bool {
        &&& pmt_amount_spec(principal, term, annual_rate, s, c, dec) == Some(self.level_payment())
        &&& self.scheduled() == schedule_spec(
            principal,
            annual_rate,
            s,
            c,
            loan_date,
            first_pmt_date,
            dec,
            self.level_payment(),
        )
    }

    /// A loan holds the level payment and the schedule of its own terms, and
    /// no payment recorded as made.
    pub open spec fn wf(&self) -> bool {
        &&& self.term >= 1
        &&& self.dec_places <= MAX_DEC_PLACES
        &&& self.made_from(
            self.principal as int,
            self.term as int,
            self.annual_rate as int,
            self.pmt_schedule,
            self.compound_type,
            self.loan_date,
            self.first_pmt_date,
            self.dec_places as nat,
        )
        &&& self.actual().len() == 0
    }

    /// Makes a loan and computes its level payment and its schedule.
    /// `principal` counts units of `10^-dec_places` of a currency unit, `term`
    /// is in years, and `annual_rate` in millionths of a percent. `None` where
    /// the level payment cannot be computed in the range of 128-bit fixed
    /// point, or exceeds `u64::MAX` units.
    pub fn new(
        principal: u64,
        term: u32,
        annual_rate: u64,
        pmt_schedule: PmtSchedule,
        compound_type: Compounding,
        loan_date: PmtDate,
        first_pmt_date: PmtDate,
        dec_places: u32,
    ) -> (r: Option<Loan>)
        requires
            term >= 1,
            dec_places <= MAX_DEC_PLACES,
            loan_date.wf(),
            first_pmt_date.wf(),
        ensures
            r is Some <==> (match pmt_amount_spec(
                principal as int,
                term as int,
                annual_rate as int,
                pmt_schedule,
                compound_type,
                dec_places as nat,
            ) {
                Some(v) => v <= u64::MAX,
                None => false,
            }),
            r matches Some(l) ==> {
                &&& l.wf()
                &&& l.made_from(
                    principal as int,
                    term as int,
                    annual_rate as int,
                    pmt_schedule,
                    compound_type,
                    loan_date,
                    first_pmt_date,
                    dec_places as nat,
                )
                &&& l.principal == principal
                &&& l.term == term
                &&& l.annual_rate == annual_rate
                &&& l.pmt_schedule == pmt_schedule
                &&& l.compound_type == compound_type
                &&& l.loan_date == loan_date
                &&& l.first_pmt_date == first_pmt_date
                &&& l.dec_places == dec_places
                &&& l.actual().len() == 0
            },
    {
        let pmt = match get_pmt_amount(
            &principal,
            &term,
            &annual_rate,
            &pmt_schedule,
            &compound_type,
            &dec_places,
        ) {
            Some(v) => v,
            None => return None,
        };
        if pmt > u64::MAX as u128 {
            return None;
        }
        let pmt_amount = pmt as u64;
        let scheduled_pmts = add_scheduled_pmts(
            &principal,
            &loan_date,
            &first_pmt_date,
            &annual_rate,
            &pmt_schedule,
            &compound_type,
            &dec_places,
            pmt_amount,
        );
        Some(
            Loan {
                principal,
                term,
                annual_rate,
                pmt_schedule,
                compound_type,
                loan_date,
                first_pmt_date,
                dec_places,
                pmt_amount,
                scheduled_pmts,
                actual_pmts: Vec::new(),
            },
        )
    }

    /// The level payment, in units of `10^-dec_places`.
    pub fn get_pmt_amount(&self) -> (r: u64)
        ensures
            r == self.level_payment(),
    {
        self.pmt_amount
    }

    /// The number of scheduled payments.
    pub fn get_pmt_count(&self) -> (r: usize)
        ensures
            r == self.scheduled().len(),
    {
        self.scheduled_pmts.len()
    }

    /// The scheduled payment of the given number, counted from 1.
    pub fn get_pmt_detail(&self, pmt_number: &usize) -> (r: Option<&LoanPayment>)
        ensures
            r is Some <==> 1 <= *pmt_number <= self.scheduled().len(),
            r matches Some(p) ==> *p == self.scheduled()[*pmt_number - 1],
    {
        if 1 <= *pmt_number && *pmt_number <= self.scheduled_pmts.len() {
            Some(&self.scheduled_pmts[*pmt_number - 1])
        } else {
            None
        }
    }

    /// All scheduled payments, in order.
    pub fn scheduled_payments(&self) -> (r: &Vec<LoanPayment>)
        ensures
            r@ == self.scheduled(),
    {
        &self.scheduled_pmts
    }
}

} // verus!
