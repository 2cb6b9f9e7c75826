use finance::{
    add_scheduled_pmts, get_compounding_periods, get_pmt_amount, get_pmt_schedule, Compounding,
    Loan, PmtDate, PmtSchedule,
};

fn date(y: i32, m: u32, d: u32) -> PmtDate {
    PmtDate::new(y, m, d).unwrap()
}

fn daily_loan() -> Loan {
    Loan::new(
        2_000_000_000,
        15,
        7_000_000,
        PmtSchedule::Monthly,
        Compounding::Daily,
        date(2024, 2, 15),
        date(2024, 4, 1),
        4,
    )
    .unwrap()
}

#[test]
fn periods_per_year() {
    assert_eq!(get_compounding_periods(Compounding::Daily), 365);
    assert_eq!(get_compounding_periods(Compounding::Monthly), 12);
    assert_eq!(get_compounding_periods(Compounding::Quarterly), 4);
    assert_eq!(get_compounding_periods(Compounding::SemiAnnually), 2);
    assert_eq!(get_compounding_periods(Compounding::Annually), 1);
    assert_eq!(get_pmt_schedule(PmtSchedule::Weekly), 52);
    assert_eq!(get_pmt_schedule(PmtSchedule::Biweekly), 26);
    assert_eq!(get_pmt_schedule(PmtSchedule::SemiMonthly), 24);
    assert_eq!(get_pmt_schedule(PmtSchedule::Monthly), 12);
    assert_eq!(get_pmt_schedule(PmtSchedule::Quarterly), 4);
    assert_eq!(get_pmt_schedule(PmtSchedule::SemiAnnually), 2);
    assert_eq!(get_pmt_schedule(PmtSchedule::Annually), 1);
}

#[test]
fn payment_amount_at_two_digits() {
    let p: u64 = 20_000_000;
    let amount = |c: Compounding| get_pmt_amount(&p, &15, &7_000_000, &PmtSchedule::Monthly, &c, &2);
    assert_eq!(amount(Compounding::Daily), Some(179987));
    assert_eq!(amount(Compounding::Annually), Some(177370));
}

#[test]
fn zero_rate_spreads_principal_evenly() {
    assert_eq!(
        get_pmt_amount(&1_200_000, &1, &0, &PmtSchedule::Monthly, &Compounding::Monthly, &2),
        Some(100_000)
    );
    let loan = Loan::new(
        1_200_000,
        1,
        0,
        PmtSchedule::Monthly,
        Compounding::Annually,
        date(2024, 1, 1),
        date(2024, 2, 1),
        2,
    )
    .unwrap();
    assert_eq!(loan.get_pmt_count(), 12);
    let last = loan.get_pmt_detail(&12).unwrap();
    assert_eq!(last.pmt_end_balance, 0);
    assert_eq!(last.pmt_interest_paid, 0);
}

#[test]
fn schedule_ends_paid_off() {
    let loan = daily_loan();
    let n = loan.get_pmt_count();
    assert!(n >= 1 && n <= 500);
    assert_eq!(loan.get_pmt_detail(&n).unwrap().pmt_end_balance, 0);
    for (i, p) in loan.scheduled_payments().iter().enumerate() {
        assert_eq!(p.pmt_number as usize, i + 1);
    }
}

#[test]
fn balance_carries_between_payments() {
    let loan = daily_loan();
    let mut begin = loan.principal as i128;
    for p in loan.scheduled_payments() {
        let expected = begin - (p.pmt_amount as i128 - p.pmt_interest_paid as i128);
        assert!((p.pmt_end_balance as i128 - expected).abs() <= 2);
        begin = p.pmt_end_balance as i128;
    }
}

#[test]
fn same_terms_same_schedule() {
    let a = daily_loan();
    let b = daily_loan();
    assert_eq!(a.get_pmt_amount(), b.get_pmt_amount());
    assert_eq!(a.scheduled_payments(), b.scheduled_payments());
}

#[test]
fn payment_below_interest_stops_at_cap() {
    // a first period of 24 years leaves a balance whose interest exceeds the payment
    let loan = Loan::new(
        2_000_000_000,
        15,
        7_000_000,
        PmtSchedule::Monthly,
        Compounding::Daily,
        date(2000, 1, 1),
        date(2024, 4, 1),
        4,
    )
    .unwrap();
    assert_eq!(loan.get_pmt_count(), 500);
    assert!(loan.get_pmt_detail(&500).unwrap().pmt_end_balance > 0);
}

#[test]
fn detail_out_of_range_is_none() {
    let loan = daily_loan();
    assert!(loan.get_pmt_detail(&0).is_none());
    assert!(loan.get_pmt_detail(&183).is_none());
    assert_eq!(loan.get_pmt_detail(&182).unwrap().pmt_number, 182);
}

#[test]
fn rate_beyond_range_gives_no_loan() {
    let loan = Loan::new(
        2_000_000_000,
        15,
        u64::MAX,
        PmtSchedule::Monthly,
        Compounding::Monthly,
        date(2024, 3, 1),
        date(2024, 4, 1),
        4,
    );
    assert!(loan.is_none());
}

#[test]
fn invalid_dates_are_refused() {
    assert!(PmtDate::new(2023, 2, 29).is_none());
    assert!(PmtDate::new(2024, 2, 29).is_some());
    assert!(PmtDate::new(2024, 13, 1).is_none());
    assert!(PmtDate::new(2024, 4, 31).is_none());
}

#[test]
fn schedule_with_given_payment() {
    // a level payment of 600.00 on 1200.00 at zero interest: two payments
    let recs = add_scheduled_pmts(
        &120_000,
        &date(2024, 1, 1),
        &date(2024, 1, 8),
        &0,
        &PmtSchedule::Weekly,
        &Compounding::Monthly,
        &2,
        60_000,
    );
    assert_eq!(recs.len(), 2);
    assert_eq!(recs[0].pmt_date, date(2024, 1, 8));
    assert_eq!(recs[1].pmt_date, date(2024, 1, 15));
    assert_eq!(recs[0].pmt_end_balance, 60_000);
    assert_eq!(recs[1].pmt_end_balance, 0);
}

#[test]
fn daily_interest_counts_days() {
    // 46 days from 2024-02-15 to 2024-04-01 at 7.0 percent on 200000
    let loan = daily_loan();
    let first = loan.get_pmt_detail(&1).unwrap();
    assert_eq!(first.pmt_interest_paid, 17_720_185);
    let second = loan.get_pmt_detail(&2).unwrap();
    assert_eq!(second.pmt_interest_paid, 11_537_298);
}

#[test]
fn semimonthly_and_weekly_schedules_step_dates() {
    let loan = Loan::new(
        2_000_000,
        1,
        5_000_000,
        PmtSchedule::SemiMonthly,
        Compounding::Monthly,
        date(2024, 1, 1),
        date(2024, 1, 15),
        2,
    )
    .unwrap();
    assert_eq!(loan.get_pmt_detail(&2).unwrap().pmt_date, date(2024, 2, 1));
    assert_eq!(loan.get_pmt_detail(&3).unwrap().pmt_date, date(2024, 2, 15));
    assert_eq!(loan.get_pmt_count(), 24);
    assert_eq!(loan.get_pmt_detail(&24).unwrap().pmt_end_balance, 0);
}
