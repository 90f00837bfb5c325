//! Due dates carried over to scheduled times.
use vstd::prelude::*;
use crate::text::{chars_of, contains, find_chars, str_concat, to_owned_string};

verus! {

/// The time of day a due date is scheduled at.
pub const NOON_SUFFIX: &'static str = "T12:00:00+00:00";

/// A date as a date-time at noon UTC; a value that already holds a time
/// (a `T`) stays as it is.
pub open spec fn noon_datetime_spec(date: Seq<char>) -> Seq<char> {
    if contains(date, seq!['T']) {
        date
    } else {
        date + NOON_SUFFIX@
    }
}

/// Converts `2026-04-08` to `2026-04-08T12:00:00+00:00` (see
/// [`noon_datetime_spec`]).
pub fn to_noon_datetime(date_str: &str) -> (r: String)
    ensures
        r@ == noon_datetime_spec(date_str@),
{
    let t = vec!['T'];
    assert(t@ =~= seq!['T']);
    if find_chars(&chars_of(date_str), &t).is_some() {
        to_owned_string(date_str)
    } else {
        str_concat(date_str, NOON_SUFFIX)
    }
}

} // verus!
