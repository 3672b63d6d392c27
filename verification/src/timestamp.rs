//! Wall-clock reading and `YYYYMMDDHHMMSS` timestamp formatting.
//!
//! The clock itself is read through the `time` crate; turning the six
//! datetime fields into the fourteen-digit timestamp string is done and
//! proved here.

use crate::digits::{
    all_digits, lemma_all_digits_concat, lemma_pad_digits_are_digits, pad_digits, pad_u64,
};
use vstd::prelude::*;

verus! {

/// The `YYYYMMDDHHMMSS` rendering of a datetime's six fields: each field
/// zero-padded, the year to four digits and the others to two.
pub open spec fn timestamp_seq(y: int, mo: int, d: int, h: int, mi: int, s: int) -> Seq<char> {
    pad_digits(y, 4) + pad_digits(mo, 2) + pad_digits(d, 2) + pad_digits(h, 2) + pad_digits(mi, 2)
        + pad_digits(s, 2)
}

#[verifier::external_type_specification]
#[verifier::external_body]
pub struct ExOffsetDateTime(::time::OffsetDateTime);

/// Relies on `time::OffsetDateTime::now_utc`: the current date and time in
/// UTC. Nothing is assumed of the value read: the clock may report any
/// instant.
#[verifier::external_body]
pub(crate) fn clock_now() -> ::time::OffsetDateTime {
    ::time::OffsetDateTime::now_utc()
}

/// Relies on `time::OffsetDateTime::to_calendar_date`: the year, month and
/// day of the date; months are numbered January = 1 up to December = 12,
/// and the day is always in 1..=31.
#[verifier::external_body]
pub(crate) fn calendar_date_of(dt: ::time::OffsetDateTime) -> (r: (i32, u8, u8))
    ensures
        1 <= r.1 <= 12,
        1 <= r.2 <= 31,
{
    let (year, month, day) = dt.to_calendar_date();
    (year, month as u8, day)
}

/// Relies on `time::OffsetDateTime::to_hms`: the clock hour, minute and
/// second, always below 24, 60 and 60 respectively.
#[verifier::external_body]
pub(crate) fn hms_of(dt: ::time::OffsetDateTime) -> (r: (u8, u8, u8))
    ensures
        r.0 < 24,
        r.1 < 60,
        r.2 < 60,
{
    dt.to_hms()
}

/// Formats a datetime, given by its six fields, as the fourteen digits
/// `YYYYMMDDHHMMSS`. This fails exactly when the year cannot be written
/// with four digits; no other field is ever wider than two digits here.
pub fn format_timestamp(y: i32, mo: u8, d: u8, h: u8, mi: u8, s: u8) -> (r: Option<String>)
    ensures
        r is Some <==> 0 <= y <= 9999,
        r matches Some(t) ==> {
            &&& t@ == timestamp_seq(y as int, mo as int, d as int, h as int, mi as int, s as int)
            &&& t@.len() == 14
            &&& all_digits(t@)
        },
{
    if y < 0 || y > 9999 {
        return None;
    }
    let mut out = pad_u64(y as u64, 4);
    out.append(pad_u64(mo as u64, 2).as_str());
    out.append(pad_u64(d as u64, 2).as_str());
    out.append(pad_u64(h as u64, 2).as_str());
    out.append(pad_u64(mi as u64, 2).as_str());
    out.append(pad_u64(s as u64, 2).as_str());
    proof {
        let yi = y as int;
        let moi = mo as int;
        let di = d as int;
        let hi = h as int;
        let mii = mi as int;
        let si = s as int;
        assert(out@ =~= timestamp_seq(yi, moi, di, hi, mii, si));
        lemma_pad_digits_are_digits(yi, 4);
        lemma_pad_digits_are_digits(moi, 2);
        lemma_pad_digits_are_digits(di, 2);
        lemma_pad_digits_are_digits(hi, 2);
        lemma_pad_digits_are_digits(mii, 2);
        lemma_pad_digits_are_digits(si, 2);
        lemma_all_digits_concat(pad_digits(yi, 4), pad_digits(moi, 2));
        lemma_all_digits_concat(pad_digits(yi, 4) + pad_digits(moi, 2), pad_digits(di, 2));
        lemma_all_digits_concat(
            pad_digits(yi, 4) + pad_digits(moi, 2) + pad_digits(di, 2),
            pad_digits(hi, 2),
        );
        lemma_all_digits_concat(
            pad_digits(yi, 4) + pad_digits(moi, 2) + pad_digits(di, 2) + pad_digits(hi, 2),
            pad_digits(mii, 2),
        );
        lemma_all_digits_concat(
            pad_digits(yi, 4) + pad_digits(moi, 2) + pad_digits(di, 2) + pad_digits(hi, 2)
                + pad_digits(mii, 2),
            pad_digits(si, 2),
        );
    }
    Some(out)
}

} // verus!
