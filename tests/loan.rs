use finance::{
    get_next_pmt_date, get_pmt_amount, Compounding, Loan, LoanPayment, PmtDate, PmtSchedule,
};

fn date(y: i32, m: u32, d: u32) -> PmtDate {
    PmtDate::new(y, m, d).unwrap()
}

fn amount_text(v: u128, dec: u32) -> String {
    let unit = 10u128.pow(dec);
    format!("{}.{:0w$}", v / unit, v % unit, w = dec as usize)
}

fn pmt_info(loan: &Loan, n: usize) -> String {
    match loan.get_pmt_detail(&n) {
        Some(p) => format!(
            "pmt number {}, date {:04}-{:02}-{:02}, payment ${}, interest paid ${}, ending balance ${}",
            p.pmt_number,
            p.pmt_date.year,
            p.pmt_date.month,
            p.pmt_date.day,
            amount_text(p.pmt_amount, loan.dec_places),
            amount_text(p.pmt_interest_paid, loan.dec_places),
            amount_text(p.pmt_end_balance, loan.dec_places)
        ),
        None => "No payment information.".to_string(),
    }
}

// 200000 currency units at four decimal digits
const PRINCIPAL_4: u64 = 2_000_000_000;
// 7.0 percent, in millionths of a percent
const RATE_7: u64 = 7_000_000;

#[test]
fn test_get_next_pmt_date() {
    let mut begin_date = date(2024, 2, 1);
    assert_eq!(get_next_pmt_date(&begin_date, &PmtSchedule::Weekly), date(2024, 2, 8));
    assert_eq!(get_next_pmt_date(&begin_date, &PmtSchedule::Biweekly), date(2024, 2, 15));
    assert_eq!(get_next_pmt_date(&begin_date, &PmtSchedule::SemiMonthly), date(2024, 2, 15));
    assert_eq!(get_next_pmt_date(&begin_date, &PmtSchedule::Monthly), date(2024, 3, 1));
    assert_eq!(get_next_pmt_date(&begin_date, &PmtSchedule::Quarterly), date(2024, 5, 1));
    assert_eq!(get_next_pmt_date(&begin_date, &PmtSchedule::SemiAnnually), date(2024, 8, 1));
    assert_eq!(get_next_pmt_date(&begin_date, &PmtSchedule::Annually), date(2025, 2, 1));

    begin_date = date(2023, 12, 15);
    assert_eq!(get_next_pmt_date(&begin_date, &PmtSchedule::SemiMonthly), date(2024, 1, 1));

    begin_date = date(2022, 8, 30);
    assert_eq!(get_next_pmt_date(&begin_date, &PmtSchedule::SemiAnnually), date(2023, 2, 28));

    begin_date = date(2022, 11, 30);
    assert_eq!(get_next_pmt_date(&begin_date, &PmtSchedule::Quarterly), date(2023, 2, 28));
}

#[test]
fn test_get_pmt_amount() {
    // 200000 at two decimal digits, 15 years, 7.0 percent
    let principal: u64 = 20_000_000;
    let term: u32 = 15;
    let annual_rate: u64 = RATE_7;
    let dec_places: u32 = 2;
    let schedules = [
        PmtSchedule::Weekly,
        PmtSchedule::Biweekly,
        PmtSchedule::SemiMonthly,
        PmtSchedule::Monthly,
        PmtSchedule::Quarterly,
        PmtSchedule::SemiAnnually,
        PmtSchedule::Annually,
    ];
    let expected: [(Compounding, [u128; 7]); 5] = [
        (Compounding::Daily, [41442, 82940, 89862, 179987, 543126, 1095839, 2230707]),
        (Compounding::Monthly, [41392, 82839, 89752, 179766, 542449, 1094446, 2227761]),
        (Compounding::Quarterly, [41288, 82631, 89527, 179314, 541067, 1091603, 2221747]),
        (Compounding::SemiAnnually, [41136, 82327, 89197, 178650, 539037, 1087427, 2212913]),
        (Compounding::Annually, [40843, 81739, 88560, 177370, 535124, 1079377, 2195892]),
    ];
    for (compounding, amounts) in expected.iter() {
        for (schedule, amount) in schedules.iter().zip(amounts.iter()) {
            assert_eq!(
                get_pmt_amount(&principal, &term, &annual_rate, schedule, compounding, &dec_places),
                Some(*amount)
            );
        }
    }
}

#[test]
fn test_daily_compound_loan() {
    let loan = Loan::new(
        PRINCIPAL_4,
        15,
        RATE_7,
        PmtSchedule::Monthly,
        Compounding::Daily,
        date(2024, 2, 15),
        date(2024, 4, 1),
        4,
    )
    .unwrap();

    assert_eq!(loan.get_pmt_amount(), 17998691);
    assert_eq!(loan.get_pmt_count(), 182);
    assert_eq!(pmt_info(&loan, 1), "pmt number 1, date 2024-04-01, payment $1799.8691, interest paid $1772.0185, ending balance $199972.1494");
    assert_eq!(pmt_info(&loan, 2), "pmt number 2, date 2024-05-01, payment $1799.8691, interest paid $1153.7298, ending balance $199326.0101");
    assert_eq!(pmt_info(&loan, 20), "pmt number 20, date 2025-11-01, payment $1799.8691, interest paid $1121.3342, ending balance $187390.9439");
    assert_eq!(pmt_info(&loan, 21), "pmt number 21, date 2025-12-01, payment $1799.8691, interest paid $1081.1432, ending balance $186672.2180");
    assert_eq!(pmt_info(&loan, 22), "pmt number 22, date 2026-01-01, payment $1799.8691, interest paid $1113.0032, ending balance $185985.3521");
    assert_eq!(pmt_info(&loan, 182), "pmt number 182, date 2039-05-01, payment $93.7322, interest paid $0.5377, ending balance $0.0000");
}

#[test]
fn test_monthly_compound_loan() {
    let loan = Loan::new(
        PRINCIPAL_4,
        15,
        RATE_7,
        PmtSchedule::Monthly,
        Compounding::Monthly,
        date(2024, 3, 1),
        date(2024, 4, 1),
        4,
    )
    .unwrap();

    assert_eq!(loan.get_pmt_amount(), 17976565);
    assert_eq!(loan.get_pmt_count(), 180);
    assert_eq!(pmt_info(&loan, 1), "pmt number 1, date 2024-04-01, payment $1797.6565, interest paid $1166.6667, ending balance $199369.0102");
    assert_eq!(pmt_info(&loan, 2), "pmt number 2, date 2024-05-01, payment $1797.6565, interest paid $1162.9859, ending balance $198734.3396");
    assert_eq!(pmt_info(&loan, 20), "pmt number 20, date 2025-11-01, payment $1797.6565, interest paid $1092.9361, ending balance $186655.7608");
    assert_eq!(pmt_info(&loan, 30), "pmt number 30, date 2026-09-01, payment $1797.6565, interest paid $1050.7314, ending balance $179378.4562");
    assert_eq!(pmt_info(&loan, 40), "pmt number 40, date 2027-07-01, payment $1797.6565, interest paid $1005.9991, ending balance $171665.3236");
    assert_eq!(pmt_info(&loan, 180), "pmt number 180, date 2039-03-01, payment $1797.6697, interest paid $10.4256, ending balance $0.0000");
}

#[test]
fn test_quarter_compound_loan() {
    let loan = Loan::new(
        PRINCIPAL_4,
        15,
        RATE_7,
        PmtSchedule::Monthly,
        Compounding::Quarterly,
        date(2024, 3, 1),
        date(2024, 4, 1),
        4,
    )
    .unwrap();

    assert_eq!(loan.get_pmt_amount(), 17931377);
    assert_eq!(loan.get_pmt_count(), 180);
    assert_eq!(pmt_info(&loan, 1), "pmt number 1, date 2024-04-01, payment $1793.1377, interest paid $1159.9265, ending balance $199366.7888");
    assert_eq!(pmt_info(&loan, 2), "pmt number 2, date 2024-05-01, payment $1793.1377, interest paid $1156.2541, ending balance $198729.9052");
    assert_eq!(pmt_info(&loan, 20), "pmt number 20, date 2025-11-01, payment $1793.1377, interest paid $1086.3865, ending balance $186613.1317");
    assert_eq!(pmt_info(&loan, 30), "pmt number 30, date 2026-09-01, payment $1793.1377, interest paid $1044.3111, ending balance $179316.2120");
    assert_eq!(pmt_info(&loan, 40), "pmt number 40, date 2027-07-01, payment $1793.1377, interest paid $999.7307, ending balance $171584.8806");
    assert_eq!(pmt_info(&loan, 180), "pmt number 180, date 2039-03-01, payment $1793.1302, interest paid $10.3395, ending balance $0.0000");
}

fn is_normal<T: Sized + Send + Sync + Unpin>() {}

#[test]
fn normal_types() {
    is_normal::<LoanPayment>();
}
