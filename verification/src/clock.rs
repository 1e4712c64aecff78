//! The current date and time, from the system clock.

use vstd::prelude::*;
use crate::naming::is_date_text;

verus! {

/// Calls chrono's `Utc::now()` and formats it with `"%Y-%m-%d"`. The date
/// depends on the clock; what is stated is the shape chrono's formatting
/// gives any date of a year from 0 on (and `Utc::now` gives none before
/// 1970): the year zero-padded to four digits, with a `+` before it from
/// the year 10000 on, and the month and the day in two digits each.
#[verifier::external_body]
pub(crate) fn today_utc_date() -> (r: String)
    ensures
        is_date_text(r@),
{
    chrono::Utc::now().format("%Y-%m-%d").to_string()
}

/// Calls chrono's `Utc::now().timestamp()`: the seconds since the Unix
/// epoch. The value depends on the clock; what is stated is what chrono's
/// source guarantees of any value it returns: `Utc::now` stops with a panic
/// for a clock before the epoch, and its `DateTime::from_timestamp(..)
/// .unwrap()` accepts no time past chrono's last year, 262142, which is
/// fewer than 2^43 seconds after the epoch.
#[verifier::external_body]
pub(crate) fn now_timestamp() -> (r: i64)
    ensures
        0 <= r < 8_796_093_022_208,
{
    chrono::Utc::now().timestamp()
}

} // verus!
