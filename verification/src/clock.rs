//! Human-facing labels for modification timestamps, carried as plain seconds
//! since the Unix epoch. The rendering is delegated to chrono, which converts
//! to local civil time; an absent timestamp, or one outside the range the
//! renderer accepts, keeps the fixed placeholder label.

use vstd::prelude::*;
use vstd::string::StringExecFns;

verus! {

/// Epoch seconds that the renderer is asked to handle: about 126,000 years
/// either side of the epoch, far inside chrono's documented calendar range
/// (roughly 262,000 years), with margin for any time-zone offset.
pub open spec fn renderable_epoch(secs: i64) -> bool {
    -4000000000000 <= secs <= 4000000000000
}

/// Relies on chrono: `DateTime::from_timestamp(secs, 0)` (defined for every
/// timestamp admitted here; it returns `None` only outside chrono's calendar
/// range), `with_timezone(&Local)` and `format("%d/%m/%Y %H:%M")`, which
/// renders two-digit day and month, a year zero-padded to at least four
/// digits, and two-digit hour and minute. The rendered text depends on the
/// machine's time zone, so only its shape is promised.
#[verifier::external_body]
fn timestamp_label(secs: i64) -> (r: String)
    requires
        renderable_epoch(secs),
    ensures
        r@.len() >= 16,
{
    let datetime = chrono::DateTime::from_timestamp(secs, 0).unwrap();
    datetime.with_timezone(&chrono::Local).format("%d/%m/%Y %H:%M").to_string()
}

/// Relies on chrono as `timestamp_label` does, with `format("%d/%m/%Y")`:
/// two-digit day and month and a year zero-padded to at least four digits.
#[verifier::external_body]
fn day_label(secs: i64) -> (r: String)
    requires
        renderable_epoch(secs),
    ensures
        r@.len() >= 10,
{
    let datetime = chrono::DateTime::from_timestamp(secs, 0).unwrap();
    datetime.with_timezone(&chrono::Local).format("%d/%m/%Y").to_string()
}

/// Label for an optional modification timestamp: the placeholder when the
/// metadata could not be read or the timestamp lies outside the renderable
/// range, else a local-time rendering (with or without the clock part) that
/// is never confusable with the placeholder.
pub fn modified_label(t: &Option<i64>, with_clock: bool) -> (r: String)
    ensures
        t is None ==> r@ == "-"@,
        ((*t) matches Some(s) && renderable_epoch(s)) ==> r@.len() >= 10 && r@ != "-"@,
        ((*t) matches Some(s) && renderable_epoch(s) && with_clock) ==> r@.len() >= 16,
{
    proof {
        reveal_strlit("-");
    }
    match t {
        None => String::from_str("-"),
        Some(s) => {
            if -4000000000000 <= *s && *s <= 4000000000000 {
                if with_clock {
                    timestamp_label(*s)
                } else {
                    day_label(*s)
                }
            } else {
                String::from_str("-")
            }
        },
    }
}

} // verus!
