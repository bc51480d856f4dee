//! Calendar pieces: parsing a month given as a number or a name prefix,
//! and the last day of a month.

use vstd::prelude::*;

use crate::take_value::lemma_digits_value_monotone;
use crate::take_value::spec_digits_value;
use crate::take_value::spec_is_digit;
use crate::text::append_dec_u64;
use crate::text::lower_chars;
use crate::text::spec_dec;
use crate::text::str_starts_with;
use crate::text::str_to_lowercase;
use chrono::Datelike;
use vstd::string::StringExecFns;

verus! {

/// A calendar date, held as plain year, month and day numbers.
#[derive(Debug, Clone, Copy, PartialEq, Eq, Structural)]
pub struct Date {
    pub year: i32,
    pub month: u32,
    pub day: u32,
}

/// A month argument that could not be understood.
#[derive(Debug)]
pub enum MonthError {
    /// A number, but not between 1 and 12; carries the number.
    OutOfRange { value: u32 },
    /// Not a number and not the prefix of exactly one month name;
    /// carries the lowercased text.
    Invalid { text: String },
}

impl MonthError {
    /// The diagnostic for a bad month argument.
    pub fn message(&self) -> (r: String)
        ensures
            self matches MonthError::OutOfRange { value } ==> r@ == "month \""@ + spec_dec(
                value as nat,
            ) + "\" not in the range 1 through 12"@,
            self matches MonthError::Invalid { text } ==> r@ == "Invalid month \""@ + text@
                + "\""@,
    {
        match self {
            MonthError::OutOfRange { value } => {
                let mut s = String::from_str("month \"");
                append_dec_u64(&mut s, *value as u64);
                s.append("\" not in the range 1 through 12");
                s
            },
            MonthError::Invalid { text } => {
                let mut s = String::from_str("Invalid month \"");
                s.append(text.as_str());
                s.append("\"");
                s
            },
        }
    }
}

/// The digit portion of an unsigned number: everything after an
/// optional leading plus.
pub open spec fn spec_u32_digits(s: Seq<char>) -> Seq<char> {
    if s.len() > 0 && s[0] == '+' {
        s.subrange(1, s.len() as int)
    } else {
        s
    }
}

/// Does `s` read as an unsigned 32-bit number: an optional plus, then
/// one or more digits, with a value that fits?
pub open spec fn spec_u32_ok(s: Seq<char>) -> bool {
    &&& spec_u32_digits(s).len() > 0
    &&& (forall|i: int|
        0 <= i < spec_u32_digits(s).len() ==> spec_is_digit(#[trigger] spec_u32_digits(s)[i]))
    &&& spec_digits_value(spec_u32_digits(s)) <= u32::MAX
}

/// The value `s` reads as, when `spec_u32_ok(s)` holds.
pub open spec fn spec_u32_value(s: Seq<char>) -> nat {
    spec_digits_value(spec_u32_digits(s))
}

/// Read `s` as an unsigned 32-bit number, if it is one.
fn parse_u32(s: &str) -> (r: Option<u32>)
    ensures
        spec_u32_ok(s@) ==> (r matches Some(v) && v == spec_u32_value(s@)),
        !spec_u32_ok(s@) ==> r is None,
{
    let n = s.unicode_len();
    let has_sign = n > 0 && s.get_char(0) == '+';
    let start: usize = if has_sign {
        1
    } else {
        0
    };
    assert(s@.subrange(start as int, n as int) =~= spec_u32_digits(s@));
    if start == n {
        return None;
    }
    let mut v: u32 = 0;
    let mut i: usize = start;
    while i < n
        invariant
            start <= i <= n,
            n == s@.len(),
            start == if s@.len() > 0 && s@[0] == '+' {
                1int
            } else {
                0int
            },
            forall|k: int| start <= k < i ==> spec_is_digit(#[trigger] s@[k]),
            v == spec_digits_value(s@.subrange(start as int, i as int)),
        decreases n - i,
    {
        let c = s.get_char(i);
        let u = c as u32;
        if u < 48 || u > 57 {
            proof {
                assert(spec_u32_digits(s@)[i - start] == s@[i as int]);
            }
            return None;
        }
        let d = u - 48;
        if v > (u32::MAX - d) / 10 {
            proof {
                let pre = s@.subrange(start as int, i as int);
                let cur = s@.subrange(start as int, i + 1 as int);
                assert(cur.drop_last() =~= pre);
                assert(spec_digits_value(cur) == v * 10 + d);
                assert(v * 10 + d > u32::MAX) by (nonlinear_arith)
                    requires
                        v > (u32::MAX - d) / 10,
                        d <= 9,
                ;
                let whole = spec_u32_digits(s@);
                lemma_digits_value_monotone(whole, i + 1 - start, whole.len() as int);
                assert(whole.subrange(0, i + 1 - start) =~= cur);
                assert(whole.subrange(0, whole.len() as int) =~= whole);
            }
            return None;
        }
        proof {
            let pre = s@.subrange(start as int, i as int);
            let cur = s@.subrange(start as int, i + 1 as int);
            assert(cur.drop_last() =~= pre);
            assert(v * 10 + d <= u32::MAX) by (nonlinear_arith)
                requires
                    v <= (u32::MAX - d) / 10,
                    d <= 9,
            ;
        }
        v = v * 10 + d;
        i += 1;
    }
    assert(s@.subrange(start as int, n as int) =~= spec_u32_digits(s@));
    Some(v)
}

/// Month name number `i`, lowercased, for `i` from 1 through 12.
pub open spec fn spec_month_name(i: int) -> Seq<char> {
    if i == 1 {
        "january"@
    } else if i == 2 {
        "february"@
    } else if i == 3 {
        "march"@
    } else if i == 4 {
        "april"@
    } else if i == 5 {
        "may"@
    } else if i == 6 {
        "june"@
    } else if i == 7 {
        "july"@
    } else if i == 8 {
        "august"@
    } else if i == 9 {
        "september"@
    } else if i == 10 {
        "october"@
    } else if i == 11 {
        "november"@
    } else {
        "december"@
    }
}

/// Month name number `i`, lowercased.
fn month_name(i: usize) -> (r: &'static str)
    requires
        1 <= i <= 12,
    ensures
        r@ == spec_month_name(i as int),
{
    match i {
        1 => "january",
        2 => "february",
        3 => "march",
        4 => "april",
        5 => "may",
        6 => "june",
        7 => "july",
        8 => "august",
        9 => "september",
        10 => "october",
        11 => "november",
        _ => "december",
    }
}

/// Is `p` a prefix of `s`?
pub open spec fn spec_is_prefix(p: Seq<char>, s: Seq<char>) -> bool {
    p.len() <= s.len() && s.subrange(0, p.len() as int) == p
}

/// How many of the first `upto` month names have `lower` as a prefix.
pub open spec fn spec_match_count(lower: Seq<char>, upto: int) -> nat
    decreases upto,
{
    if upto <= 0 {
        0
    } else {
        spec_match_count(lower, upto - 1) + if spec_is_prefix(lower, spec_month_name(upto)) {
            1nat
        } else {
            0nat
        }
    }
}

/// The highest of the first `upto` month numbers whose name has `lower`
/// as a prefix; 0 if none has.
pub open spec fn spec_match_index(lower: Seq<char>, upto: int) -> int
    decreases upto,
{
    if upto <= 0 {
        0
    } else if spec_is_prefix(lower, spec_month_name(upto)) {
        upto
    } else {
        spec_match_index(lower, upto - 1)
    }
}

/// Parse a month argument: a number between 1 and 12, or a prefix of
/// exactly one month name, case-insensitively. A number out of range,
/// and a name prefix that fits none or several months, are errors.
pub fn parse_month(month: &str) -> (r: Result<u32, MonthError>)
    ensures
        spec_u32_ok(month@) && 1 <= spec_u32_value(month@) <= 12 ==> (r matches Ok(v) && v
            == spec_u32_value(month@)),
        spec_u32_ok(month@) && !(1 <= spec_u32_value(month@) <= 12) ==> (r matches Err(e) && e
            matches MonthError::OutOfRange { value } && value == spec_u32_value(month@)),
        !spec_u32_ok(month@) && spec_match_count(lower_chars(month@), 12) == 1 ==> (r matches Ok(v)
            && v == spec_match_index(lower_chars(month@), 12)),
        !spec_u32_ok(month@) && spec_match_count(lower_chars(month@), 12) != 1 ==> (r matches Err(
            e,
        ) && e matches MonthError::Invalid { text } && text@ == lower_chars(month@)),
    {
    if let Some(v) = parse_u32(month) {
        if 1 <= v && v <= 12 {
            return Ok(v);
        }
        return Err(MonthError::OutOfRange { value: v });
    }
    let lowered = str_to_lowercase(month);
    let mut count: usize = 0;
    let mut found: usize = 0;
    let mut i: usize = 1;
    while i <= 12
        invariant
            1 <= i <= 13,
            lowered@ == lower_chars(month@),
            count <= i - 1,
            found <= i - 1,
            count == spec_match_count(lowered@, i - 1),
            found == spec_match_index(lowered@, i - 1),
        decreases 13 - i,
    {
        let name = month_name(i);
        if str_starts_with(name, lowered.as_str()) {
            count += 1;
            found = i;
        }
        i += 1;
    }
    if count == 1 {
        Ok(found as u32)
    } else {
        Err(MonthError::Invalid { text: lowered })
    }
}

/// Is `year` a leap year of the Gregorian calendar?
pub open spec fn spec_is_leap(year: int) -> bool {
    (year % 4 == 0 && year % 100 != 0) || year % 400 == 0
}

/// The number of days of a month of the Gregorian calendar.
pub open spec fn spec_days_in_month(year: int, month: int) -> int {
    if month == 2 {
        if spec_is_leap(year) {
            29
        } else {
            28
        }
    } else if month == 4 || month == 6 || month == 9 || month == 11 {
        30
    } else {
        31
    }
}

/// Relies on chrono's `NaiveDate::from_ymd_opt` and `pred_opt`: the day
/// before the first of the given month is the last day of the month
/// before it, whose length the Gregorian rules give. The year bounds
/// keep both dates inside chrono's representable range.
#[verifier::external_body]
fn prev_day_of_first(year: i32, month: u32) -> (r: (i32, u32, u32))
    requires
        1 <= month <= 12,
        -262143 <= year <= 262142,
        !(year == -262143 && month == 1),
    ensures
        month == 1 ==> r == (((year - 1) as i32), 12u32, 31u32),
        month != 1 ==> r == (year, ((month - 1) as u32), spec_days_in_month(
            year as int,
            month - 1,
        ) as u32),
{
    let d = chrono::NaiveDate::from_ymd_opt(year, month, 1).unwrap().pred_opt().unwrap();
    (d.year(), d.month(), d.day())
}

/// The last day of the given month: the day before the first of the
/// month after it.
pub fn last_day_in_month(year: i32, month: u32) -> (r: Date)
    requires
        1 <= month <= 12,
        -262143 <= year <= 262141,
    ensures
        r == (Date { year, month, day: spec_days_in_month(year as int, month as int) as u32 }),
{
    let (y2, m2) = if month == 12 {
        (year + 1, 1)
    } else {
        (year, month + 1)
    };
    let (ry, rm, rd) = prev_day_of_first(y2, m2);
    Date { year: ry, month: rm, day: rd }
}

} // verus!
