//! Retention: which log file has outlived the days it is kept for.

use crate::outside::{date_days_before, days_before};
use crate::persistent::file::{file_name_of, persistent_file_name, today, writable, Date};
use vstd::prelude::*;

verus! {

/// The day that lies `policy_day` days before `today`, where the calendar
/// has it.
pub open spec fn retention_day(today: Date, policy_day: int) -> Option<Date> {
    match date_days_before(today.year as int, today.month as int, today.day as int, policy_day) {
        Some(found) => Some(
            Date { year: found.0 as i32, month: found.1 as u32, day: found.2 as u32 },
        ),
        None => None,
    }
}

/// The name of the log file that is due for removal on `today` when logs
/// are kept for `policy_day` days: the file of the day that lies that many
/// days back. There is none where the calendar has no such day, or where
/// that day cannot be written in a file name.
pub open spec fn retention_name(today: Date, policy_day: int) -> Option<Seq<char>> {
    match retention_day(today, policy_day) {
        Some(day) => if writable(day) {
            Some(file_name_of(day))
        } else {
            None
        },
        None => None,
    }
}

/// The characters of a text, where there is one.
pub open spec fn shown(name: Option<String>) -> Option<Seq<char>> {
    match name {
        Some(text) => Some(text@),
        None => None,
    }
}

/// The name of the log file that is due for removal on `today` when logs
/// are kept for `policy_day` days.
pub fn retention_target(today: Date, policy_day: i64) -> (name: Option<String>)
    ensures
        shown(name) == retention_name(today, policy_day as int),
{
    match days_before(today.year, today.month, today.day, policy_day) {
        Some((year, month, day)) => persistent_file_name(Date { year, month, day }),
        None => None,
    }
}

/// The name of the log file that is due for removal today when logs are
/// kept for `policy_day` days.
pub fn run_retention_policy(policy_day: i64) -> (name: Option<String>)
    ensures
        exists|today: Date| shown(name) == #[trigger] retention_name(today, policy_day as int),
{
    let now = today();
    retention_target(now, policy_day)
}

} // verus!
