use vstd::prelude::*;
use vstd::string::StrSliceExecFns;

use crate::error::AppError;
use crate::timestamp::days_in_month;
use crate::timestamp::days_in_month_exec;
use crate::timestamp::dv;
use crate::timestamp::is_digit;
use crate::timestamp::two_digits_at;

verus! {

/// A calendar date of the ledger's own: year, month and day as plain
/// values, with in-range month and day.
#[derive(Debug, Clone, Copy, PartialEq, Eq, Structural)]
pub struct Date {
    pub year: u32,
    pub month: u32,
    pub day: u32,
}

impl Date {
    /// In-range month and day for the year.
    pub open spec fn wf(self) -> bool {
        &&& 1 <= self.month <= 12
        &&& 1 <= self.day <= days_in_month(self.year as int, self.month as int)
    }
}

/// The `YYYY-MM-DD` shape: four digits, dash, two digits, dash, two
/// digits, and nothing more.
pub open spec fn date_shape(s: Seq<char>) -> bool {
    &&& s.len() == 10
    &&& is_digit(s[0]) && is_digit(s[1]) && is_digit(s[2]) && is_digit(s[3])
    &&& s[4] == '-'
    &&& is_digit(s[5]) && is_digit(s[6])
    &&& s[7] == '-'
    &&& is_digit(s[8]) && is_digit(s[9])
}

pub open spec fn date_of(s: Seq<char>) -> Date {
    Date {
        year: (dv(s, 0) * 1000 + dv(s, 1) * 100 + dv(s, 2) * 10 + dv(s, 3)) as u32,
        month: (dv(s, 5) * 10 + dv(s, 6)) as u32,
        day: (dv(s, 8) * 10 + dv(s, 9)) as u32,
    }
}

/// What parsing a `YYYY-MM-DD` string yields: the date when the shape
/// matches and the calendar fields are valid, nothing otherwise.
pub open spec fn parse_date_spec(s: Seq<char>) -> Option<Date> {
    if date_shape(s) && date_of(s).wf() {
        Some(date_of(s))
    } else {
        None
    }
}

/// Parse a `YYYY-MM-DD` date. Exactly the strings of that shape with a
/// valid calendar date are accepted.
pub fn parse_date(date: &str) -> (r: Result<Date, AppError>)
    ensures
        r is Ok <==> parse_date_spec(date@) is Some,
        r matches Ok(d) ==> parse_date_spec(date@) == Some(d) && d.wf(),
        r matches Err(e) ==> e.code@ == "INVALID_DATE"@ && e.message@
            == "Datum muss YYYY-MM-DD sein"@,
{
    let invalid = "Datum muss YYYY-MM-DD sein";
    let n = date.unicode_len();
    if n != 10 {
        return Err(AppError::new("INVALID_DATE", invalid));
    }
    let year = match two_digits_at(date, 0) {
        Some(hi) => match two_digits_at(date, 2) {
            Some(lo) => hi * 100 + lo,
            None => { return Err(AppError::new("INVALID_DATE", invalid)); },
        },
        None => { return Err(AppError::new("INVALID_DATE", invalid)); },
    };
    if date.get_char(4) != '-' {
        return Err(AppError::new("INVALID_DATE", invalid));
    }
    let month = match two_digits_at(date, 5) {
        Some(v) => v,
        None => { return Err(AppError::new("INVALID_DATE", invalid)); },
    };
    if date.get_char(7) != '-' {
        return Err(AppError::new("INVALID_DATE", invalid));
    }
    let day = match two_digits_at(date, 8) {
        Some(v) => v,
        None => { return Err(AppError::new("INVALID_DATE", invalid)); },
    };
    if month < 1 || month > 12 {
        return Err(AppError::new("INVALID_DATE", invalid));
    }
    if day < 1 || day > days_in_month_exec(year, month) {
        return Err(AppError::new("INVALID_DATE", invalid));
    }
    let d = Date { year, month, day };
    proof {
        assert(date_shape(date@));
        assert(d == date_of(date@));
    }
    Ok(d)
}

/// A month number must lie between one and twelve.
pub fn ensure_month(month: i32) -> (r: Result<(), AppError>)
    ensures
        r is Ok <==> 1 <= month <= 12,
        r matches Err(e) ==> e.code@ == "INVALID_MONTH"@ && e.message@
            == "Monat muss zwischen 1 und 12 sein"@,
{
    if !(1 <= month && month <= 12) {
        Err(AppError::new("INVALID_MONTH", "Monat muss zwischen 1 und 12 sein"))
    } else {
        Ok(())
    }
}

/// A month range must consist of two valid months in order.
pub fn ensure_month_range(month_from: i32, month_to: i32) -> (r: Result<(), AppError>)
    ensures
        r is Ok <==> 1 <= month_from <= 12 && 1 <= month_to <= 12 && month_from <= month_to,
        r matches Err(e) ==> e.code@ == (if !(1 <= month_from <= 12) || !(1 <= month_to <= 12) {
            "INVALID_MONTH"@
        } else {
            "INVALID_MONTH_RANGE"@
        }),
        r matches Err(e) ==> e.message@ == (if !(1 <= month_from <= 12) || !(1 <= month_to <= 12) {
            "Monat muss zwischen 1 und 12 sein"@
        } else {
            "Monatsbereich ungueltig"@
        }),
{
    match ensure_month(month_from) {
        Ok(_) => {},
        Err(e) => { return Err(e); },
    }
    match ensure_month(month_to) {
        Ok(_) => {},
        Err(e) => { return Err(e); },
    }
    if month_from > month_to {
        Err(AppError::new("INVALID_MONTH_RANGE", "Monatsbereich ungueltig"))
    } else {
        Ok(())
    }
}

} // verus!
