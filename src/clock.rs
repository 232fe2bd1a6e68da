use vstd::prelude::*;

verus! {

/// The seconds since the Unix epoch that chrono can place on its calendar
/// (years -262143 to 262142), as `DateTime::from_timestamp` computes it.
pub open spec fn representable_timestamp(seconds: int) -> bool {
    -8_334_601_228_800 <= seconds <= 8_210_266_876_799
}

/// Relies on chrono's `DateTime::from_timestamp`, which returns `None` exactly
/// for seconds outside the calendar's range, then on `with_timezone(&Local)`
/// and `format("%Y-%m-%d")` for the date in the machine's time zone. The date
/// depends on that time zone, so nothing is stated of it.
#[verifier::external_body]
pub(crate) fn local_date_of(seconds: i64) -> (r: Option<String>)
    ensures
        r is Some <==> representable_timestamp(seconds as int),
{
    let utc = chrono::DateTime::from_timestamp(seconds, 0)?;
    Some(utc.with_timezone(&chrono::Local).format("%Y-%m-%d").to_string())
}

/// Relies on chrono's `Local::now` and `format("%Y-%m-%d")`: today's date in
/// the machine's time zone. It depends on the clock, so nothing is stated of it.
#[verifier::external_body]
pub(crate) fn local_today() -> (r: String) {
    chrono::Local::now().format("%Y-%m-%d").to_string()
}

} // verus!
