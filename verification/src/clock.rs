//! The time of day.

use vstd::prelude::*;

use crate::text;

verus! {

/// A year in at least four digits, signed where it takes more.
pub open spec fn year_text(year: nat) -> Seq<char> {
    if year <= 9999 {
        text::padded_decimal(year, 4)
    } else {
        "+"@ + text::decimal(year)
    }
}

/// A minute in UTC, such as `2024-05-31 17:04 UTC`.
pub open spec fn minute_text(year: nat, month: nat, day: nat, hour: nat, minute: nat) -> Seq<
    char,
> {
    year_text(year) + "-"@ + text::padded_decimal(month, 2) + "-"@ + text::padded_decimal(day, 2)
        + " "@ + text::padded_decimal(hour, 2) + ":"@ + text::padded_decimal(minute, 2) + " UTC"@
}

/// Whether `s` names a minute since the start of 1970.
pub open spec fn names_minute(s: Seq<char>) -> bool {
    exists|year: nat, month: nat, day: nat, hour: nat, minute: nat|
        {
            &&& s == #[trigger] minute_text(year, month, day, hour, minute)
            &&& 1970 <= year
            &&& 1 <= month <= 12
            &&& 1 <= day <= 31
            &&& hour < 24
            &&& minute < 60
        }
}

/// `chrono::Utc::now` and the `format` of its result: the present minute in
/// UTC, such as `2024-05-31 17:04 UTC`. Years beyond 9999 are written with a
/// sign. Which minute it is rests on the clock, which must not stand before
/// 1970, so only the form of the text is claimed.
#[verifier::external_body]
pub(crate) fn utc_minute() -> (r: String)
    ensures
        names_minute(r@),
{
    chrono::Utc::now().format("%Y-%m-%d %H:%M UTC").to_string()
}

} // verus!
