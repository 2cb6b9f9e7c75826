//! Loan amortization: level payment amounts and payment schedules, computed
//! in exact fixed-point integer arithmetic over a calendar of plain dates.

pub mod date;
pub mod fixed;
pub mod frequency;
pub mod loan;

pub use date::{get_next_pmt_date, PmtDate};
pub use frequency::{get_compounding_periods, get_pmt_schedule, Compounding, PmtSchedule};
pub use loan::{add_scheduled_pmts, get_pmt_amount, Loan, LoanPayment};
