//! The field value model: a closed tagged union of content value types
//! with per-type coercion from source text, and a normalized calendar
//! date-time.  Markdown stays raw source here; number fields hold their
//! validated decimal literal.
use crate::object_definition::{field_type_name, FieldType, InvalidFieldError};
use crate::text::{
    digit_val, is_digit, is_number_lit, is_number_lit_exec, pad2, pad2_exec, pad4, pad4_exec,
    str_eq,
};
use vstd::prelude::*;
use vstd::string::StrSliceExecFns;

verus! {

broadcast use vstd::seq::group_seq_axioms, vstd::std_specs::vec::group_vec_axioms;

pub open spec fn is_leap_year(y: int) -> bool {
    y % 4 == 0 && (y % 100 != 0 || y % 400 == 0)
}

pub open spec fn days_in_month(y: int, m: int) -> int {
    if m == 2 {
        if is_leap_year(y) {
            29
        } else {
            28
        }
    } else if m == 4 || m == 6 || m == 9 || m == 11 {
        30
    } else {
        31
    }
}

fn days_in_month_exec(y: u64, m: u64) -> (r: u64)
    ensures
        r == days_in_month(y as int, m as int),
{
    if m == 2 {
        if y % 4 == 0 && (y % 100 != 0 || y % 400 == 0) {
            29
        } else {
            28
        }
    } else if m == 4 || m == 6 || m == 9 || m == 11 {
        30
    } else {
        31
    }
}

fn days_in_year_exec(y: u64) -> (r: u64)
    ensures
        r == if is_leap_year(y as int) {
            366int
        } else {
            365int
        },
{
    if y % 4 == 0 && (y % 100 != 0 || y % 400 == 0) {
        366
    } else {
        365
    }
}

pub open spec fn days_in_year(y: int) -> int {
    if is_leap_year(y) {
        366
    } else {
        365
    }
}

/// Days between 1970-01-01 and the first day of year `y`.
pub open spec fn days_before_year(y: int) -> int
    decreases y - 1970,
{
    if y <= 1970 {
        0
    } else {
        days_before_year(y - 1) + days_in_year(y - 1)
    }
}

/// Days between the first day of year `y` and the first day of its
/// month `m`.
pub open spec fn days_before_month(y: int, m: int) -> int
    decreases m,
{
    if m <= 1 {
        0
    } else {
        days_before_month(y, m - 1) + days_in_month(y, m - 1)
    }
}

/// Leap days between 1970-01-01 and the first day of year `y`.
pub open spec fn leap_days_before(y: int) -> int {
    ((y - 1) / 4 - 492) - ((y - 1) / 100 - 19) + ((y - 1) / 400 - 4)
}

/// The day count before a year in closed form.
pub proof fn lemma_days_before_year_closed(y: int)
    requires
        1970 <= y,
    ensures
        days_before_year(y) == 365 * (y - 1970) + leap_days_before(y),
    decreases y - 1970,
{
    if y > 1970 {
        lemma_days_before_year_closed(y - 1);
        let a = y - 1;
        assert(a == 4 * (a / 4) + a % 4);
        assert(a - 1 == 4 * ((a - 1) / 4) + (a - 1) % 4);
        assert(a / 4 - (a - 1) / 4 == if a % 4 == 0 {
            1int
        } else {
            0int
        });
        assert(a == 100 * (a / 100) + a % 100);
        assert(a - 1 == 100 * ((a - 1) / 100) + (a - 1) % 100);
        assert(a / 100 - (a - 1) / 100 == if a % 100 == 0 {
            1int
        } else {
            0int
        });
        assert(a == 400 * (a / 400) + a % 400);
        assert(a - 1 == 400 * ((a - 1) / 400) + (a - 1) % 400);
        assert(a / 400 - (a - 1) / 400 == if a % 400 == 0 {
            1int
        } else {
            0int
        });
        vstd::arithmetic::div_mod::lemma_mod_mod(a, 4, 25);
        assert((a % 100) % 4 == a % 4);
        vstd::arithmetic::div_mod::lemma_mod_mod(a, 100, 4);
        assert((a % 400) % 100 == a % 100);
        assert(days_in_year(a) == 365 + if is_leap_year(a) {
            1int
        } else {
            0int
        });
    }
}

proof fn lemma_days_before_year_mono(y1: int, y2: int)
    requires
        1970 <= y1 <= y2,
    ensures
        days_before_year(y1) <= days_before_year(y2),
    decreases y2 - y1,
{
    if y1 < y2 {
        lemma_days_before_year_mono(y1, y2 - 1);
    }
}

/// A year's twelve months sum to its day count.
proof fn lemma_months_sum_to_year(y: int)
    ensures
        days_before_month(y, 13) == days_in_year(y),
{
    reveal_with_fuel(days_before_month, 13);
}

/// A normalized calendar instant: year, month, day, hour, minute and
/// second, kept within real calendar bounds.
#[derive(Debug, Clone, Copy, PartialEq, Eq, Structural)]
pub struct DateTime {
    year: u64,
    month: u64,
    day: u64,
    hour: u64,
    minute: u64,
    second: u64,
}

impl DateTime {
    /// Calendar validity: the invariant of every constructed value.
    pub open spec fn wf(&self) -> bool {
        Self::components_wf(
            self.spec_year(),
            self.spec_month(),
            self.spec_day(),
            self.spec_hour(),
            self.spec_minute(),
            self.spec_second(),
        )
    }

    pub closed spec fn spec_year(&self) -> u64 {
        self.year
    }

    pub closed spec fn spec_month(&self) -> u64 {
        self.month
    }

    pub closed spec fn spec_day(&self) -> u64 {
        self.day
    }

    pub closed spec fn spec_hour(&self) -> u64 {
        self.hour
    }

    pub closed spec fn spec_minute(&self) -> u64 {
        self.minute
    }

    pub closed spec fn spec_second(&self) -> u64 {
        self.second
    }

    /// Calendar validity of loose components.
    pub open spec fn components_wf(
        year: u64,
        month: u64,
        day: u64,
        hour: u64,
        minute: u64,
        second: u64,
    ) -> bool {
        &&& year <= 9999
        &&& 1 <= month <= 12
        &&& 1 <= day <= days_in_month(year as int, month as int)
        &&& hour <= 23
        &&& minute <= 59
        &&& second <= 59
    }

    /// Builds a date from components, validating calendar bounds.
    pub fn new(year: u64, month: u64, day: u64, hour: u64, minute: u64, second: u64) -> (r: Option<
        DateTime,
    >)
        ensures
            match r {
                Some(d) => {
                    &&& d.wf()
                    &&& d.spec_year() == year
                    &&& d.spec_month() == month
                    &&& d.spec_day() == day
                    &&& d.spec_hour() == hour
                    &&& d.spec_minute() == minute
                    &&& d.spec_second() == second
                },
                None => !Self::components_wf(year, month, day, hour, minute, second),
            },
    {
        if year <= 9999 && 1 <= month && month <= 12 && 1 <= day && day <= days_in_month_exec(
            year,
            month,
        ) && hour <= 23 && minute <= 59 && second <= 59 {
            Some(DateTime { year, month, day, hour, minute, second })
        } else {
            None
        }
    }
}

/// Shape of the accepted date literal: `MM/DD/YYYY`, optionally followed
/// by ` HH:MM:SS`.
pub open spec fn date_digits_ok(s: Seq<char>) -> bool {
    &&& (s.len() == 10 || s.len() == 19)
    &&& is_digit(s[0])
    &&& is_digit(s[1])
    &&& s[2] == '/'
    &&& is_digit(s[3])
    &&& is_digit(s[4])
    &&& s[5] == '/'
    &&& is_digit(s[6])
    &&& is_digit(s[7])
    &&& is_digit(s[8])
    &&& is_digit(s[9])
    &&& (s.len() == 19 ==> {
        &&& s[10] == ' '
        &&& is_digit(s[11])
        &&& is_digit(s[12])
        &&& s[13] == ':'
        &&& is_digit(s[14])
        &&& is_digit(s[15])
        &&& s[16] == ':'
        &&& is_digit(s[17])
        &&& is_digit(s[18])
    })
}

pub open spec fn val2(s: Seq<char>, i: int) -> int {
    digit_val(s[i]) * 10 + digit_val(s[i + 1])
}

pub open spec fn val4(s: Seq<char>, i: int) -> int {
    digit_val(s[i]) * 1000 + digit_val(s[i + 1]) * 100 + digit_val(s[i + 2]) * 10 + digit_val(
        s[i + 3],
    )
}

/// The date a well-shaped literal denotes.
pub closed spec fn date_of_lit(s: Seq<char>) -> DateTime {
    DateTime {
        year: val4(s, 6) as u64,
        month: val2(s, 0) as u64,
        day: val2(s, 3) as u64,
        hour: if s.len() == 19 {
            val2(s, 11) as u64
        } else {
            0
        },
        minute: if s.len() == 19 {
            val2(s, 14) as u64
        } else {
            0
        },
        second: if s.len() == 19 {
            val2(s, 17) as u64
        } else {
            0
        },
    }
}

/// The time-of-day components a literal carries (zero for the date-only
/// form).
pub open spec fn lit_hour(s: Seq<char>) -> int {
    if s.len() == 19 {
        val2(s, 11)
    } else {
        0
    }
}

pub open spec fn lit_minute(s: Seq<char>) -> int {
    if s.len() == 19 {
        val2(s, 14)
    } else {
        0
    }
}

pub open spec fn lit_second(s: Seq<char>) -> int {
    if s.len() == 19 {
        val2(s, 17)
    } else {
        0
    }
}

/// A literal is valid when it is well-shaped and denotes a real calendar
/// instant.
pub open spec fn date_lit_ok(s: Seq<char>) -> bool {
    date_digits_ok(s) && DateTime::components_wf(
        val4(s, 6) as u64,
        val2(s, 0) as u64,
        val2(s, 3) as u64,
        lit_hour(s) as u64,
        lit_minute(s) as u64,
        lit_second(s) as u64,
    )
}

impl DateTime {
    fn digit_at(s: &str, i: usize) -> (r: u64)
        requires
            i < s@.len(),
            is_digit(s@[i as int]),
        ensures
            r == digit_val(s@[i as int]),
            r <= 9,
    {
        ((s.get_char(i) as u32) - 48) as u64
    }

    fn sep_at(s: &str, i: usize, c: char) -> (r: bool)
        requires
            i < s@.len(),
        ensures
            r == (s@[i as int] == c),
    {
        s.get_char(i) == c
    }

    fn digit_ok(s: &str, i: usize) -> (r: bool)
        requires
            i < s@.len(),
        ensures
            r == is_digit(s@[i as int]),
    {
        let v = s.get_char(i) as u32;
        48 <= v && v <= 57
    }

    /// Parses the canonical textual format `MM/DD/YYYY[ HH:MM:SS]`.
    /// Succeeds exactly on valid literals; a malformed or impossible date
    /// is an invalid-date error carrying the raw text.
    pub fn from(s: &str) -> (r: Result<DateTime, InvalidFieldError>)
        ensures
            match r {
                Ok(d) => {
                    &&& date_lit_ok(s@)
                    &&& d == date_of_lit(s@)
                    &&& d.wf()
                    &&& d.spec_year() == val4(s@, 6)
                    &&& d.spec_month() == val2(s@, 0)
                    &&& d.spec_day() == val2(s@, 3)
                    &&& d.spec_hour() == lit_hour(s@)
                    &&& d.spec_minute() == lit_minute(s@)
                    &&& d.spec_second() == lit_second(s@)
                },
                Err(e) => !date_lit_ok(s@) && (e matches InvalidFieldError::InvalidDate(v) && v@
                    == s@),
            },
    {
        let n = s.unicode_len();
        let shape_ok: bool = if n != 10 && n != 19 {
            false
        } else {
            let mut ok = Self::digit_ok(s, 0) && Self::digit_ok(s, 1) && Self::sep_at(s, 2, '/')
                && Self::digit_ok(s, 3) && Self::digit_ok(s, 4) && Self::sep_at(s, 5, '/')
                && Self::digit_ok(s, 6) && Self::digit_ok(s, 7) && Self::digit_ok(s, 8)
                && Self::digit_ok(s, 9);
            if n == 19 {
                ok = ok && Self::sep_at(s, 10, ' ') && Self::digit_ok(s, 11) && Self::digit_ok(
                    s,
                    12,
                ) && Self::sep_at(s, 13, ':') && Self::digit_ok(s, 14) && Self::digit_ok(s, 15)
                    && Self::sep_at(s, 16, ':') && Self::digit_ok(s, 17) && Self::digit_ok(s, 18);
            }
            ok
        };
        if !shape_ok {
            return Err(InvalidFieldError::InvalidDate(s.to_owned()));
        }
        let month = Self::digit_at(s, 0) * 10 + Self::digit_at(s, 1);
        let day = Self::digit_at(s, 3) * 10 + Self::digit_at(s, 4);
        let year = Self::digit_at(s, 6) * 1000 + Self::digit_at(s, 7) * 100 + Self::digit_at(s, 8)
            * 10 + Self::digit_at(s, 9);
        let (hour, minute, second) = if n == 19 {
            (
                Self::digit_at(s, 11) * 10 + Self::digit_at(s, 12),
                Self::digit_at(s, 14) * 10 + Self::digit_at(s, 15),
                Self::digit_at(s, 17) * 10 + Self::digit_at(s, 18),
            )
        } else {
            (0u64, 0u64, 0u64)
        };
        match Self::new(year, month, day, hour, minute, second) {
            Some(d) => Ok(d),
            None => Err(InvalidFieldError::InvalidDate(s.to_owned())),
        }
    }

    /// The current moment, from the system clock, as a valid date.
    pub fn now() -> (r: DateTime)
        ensures
            r.wf(),
    {
        Self::from_epoch_seconds(now_epoch_seconds())
    }

    /// Seconds from the Unix epoch to this instant, over the calendar
    /// sums above.
    pub open spec fn epoch_seconds_of(&self) -> int {
        86400 * (days_before_year(self.spec_year() as int) + days_before_month(
            self.spec_year() as int,
            self.spec_month() as int,
        ) + self.spec_day() - 1) + 3600 * self.spec_hour() + 60 * self.spec_minute()
            + self.spec_second()
    }

    /// Converts seconds since the Unix epoch to the calendar date that
    /// denotes exactly that moment; seconds past the last representable
    /// instant (the end of year 9999) are clamped to it first.
    #[verifier::loop_isolation(false)]
    pub fn from_epoch_seconds(secs: u64) -> (r: DateTime)
        ensures
            r.wf(),
            r.epoch_seconds_of() == if secs > 253402300799 {
                253402300799int
            } else {
                secs as int
            },
    {
        let capped: u64 = if secs > 253402300799 {
            253402300799
        } else {
            secs
        };
        let days0: u64 = capped / 86400;
        let rem: u64 = capped % 86400;
        let hour: u64 = rem / 3600;
        let minute: u64 = (rem % 3600) / 60;
        let second: u64 = (rem % 3600) % 60;
        proof {
            assert(rem < 86400);
            assert(days0 <= 2932896) by (nonlinear_arith)
                requires
                    days0 == capped / 86400,
                    capped <= 253402300799,
            ;
            assert(hour <= 23) by (nonlinear_arith)
                requires
                    rem < 86400,
                    hour == rem / 3600,
            ;
            assert(minute <= 59) by (nonlinear_arith)
                requires
                    minute == (rem % 3600) / 60,
            ;
            assert(capped == 86400 * days0 + rem);
            assert(rem == 3600 * hour + rem % 3600);
            assert(rem % 3600 == 60 * minute + second);
        }
        let mut days: u64 = days0;
        let mut year: u64 = 1970;
        while days >= days_in_year_exec(year)
            invariant
                1970 <= year,
                days_before_year(year as int) + days == days0,
            decreases days,
        {
            proof {
                lemma_days_before_year_closed(10000);
                if year as int >= 10000 {
                    lemma_days_before_year_mono(10000, year as int);
                }
                assert(year < 10000);
            }
            days = days - days_in_year_exec(year);
            year = year + 1;
        }
        proof {
            lemma_days_before_year_closed(10000);
            if year as int >= 10000 {
                lemma_days_before_year_mono(10000, year as int);
            }
            assert(year <= 9999);
        }
        let ghost dy = days as int;
        let mut month: u64 = 1;
        while days >= days_in_month_exec(year, month)
            invariant
                1 <= month <= 12,
                days_before_month(year as int, month as int) + days == dy,
                dy < days_in_year(year as int),
            decreases 12 - month,
        {
            proof {
                lemma_months_sum_to_year(year as int);
                if month == 12 {
                    assert(days_before_month(year as int, 13) == days_before_month(
                        year as int,
                        12,
                    ) + days_in_month(year as int, 12));
                    assert(false);
                }
            }
            days = days - days_in_month_exec(year, month);
            month = month + 1;
        }
        let day: u64 = days + 1;
        let r = DateTime { year, month, day, hour, minute, second };
        proof {
            assert(r.epoch_seconds_of() == 86400 * days0 + rem);
        }
        r
    }

    /// Decides the validity invariant at run time.
    pub fn is_wf(&self) -> (r: bool)
        ensures
            r == self.wf(),
    {
        self.year <= 9999 && 1 <= self.month && self.month <= 12 && 1 <= self.day && self.day
            <= days_in_month_exec(self.year, self.month) && self.hour <= 23 && self.minute <= 59
            && self.second <= 59
    }

    pub fn year(&self) -> (r: u64)
        ensures
            r == self.spec_year(),
    {
        self.year
    }

    pub fn month(&self) -> (r: u64)
        ensures
            r == self.spec_month(),
    {
        self.month
    }

    pub fn day(&self) -> (r: u64)
        ensures
            r == self.spec_day(),
    {
        self.day
    }

    /// The display form handed to the template engine:
    /// `YYYY-MM-DD HH:MM:SS`.
    pub open spec fn display_model(&self) -> Seq<char> {
        pad4(self.spec_year() as int).add(seq!['-']).add(pad2(self.spec_month() as int)).add(
            seq!['-'],
        ).add(pad2(self.spec_day() as int)).add(seq![' ']).add(pad2(self.spec_hour() as int)).add(
            seq![':'],
        ).add(pad2(self.spec_minute() as int)).add(seq![':']).add(pad2(self.spec_second() as int))
    }

    pub fn display_text(&self) -> (r: String)
        requires
            self.wf(),
        ensures
            r@ == self.display_model(),
    {
        let mut out = pad4_exec(self.year);
        out.append("-");
        out.append(pad2_exec(self.month).as_str());
        out.append("-");
        out.append(pad2_exec(self.day).as_str());
        out.append(" ");
        out.append(pad2_exec(self.hour).as_str());
        out.append(":");
        out.append(pad2_exec(self.minute).as_str());
        out.append(":");
        out.append(pad2_exec(self.second).as_str());
        proof {
            reveal_strlit("-");
            reveal_strlit(" ");
            reveal_strlit(":");
            assert(out@ =~= self.display_model());
        }
        out
    }
}

/// Relies on std::time::SystemTime::now and duration_since: whole
/// seconds between the Unix epoch and the clock's current moment, or 0
/// when the clock reads earlier than the epoch.  Nothing can be promised
/// of a clock reading.
#[verifier::external_body]
fn now_epoch_seconds() -> u64 {
    match std::time::SystemTime::now().duration_since(std::time::SystemTime::UNIX_EPOCH) {
        Ok(d) => d.as_secs(),
        Err(_) => 0,
    }
}

/// One content record's field values, in declaration order.
#[derive(Debug)]
pub struct FieldValues {
    pub pairs: Vec<(String, FieldValue)>,
}

/// A typed content value: a scalar matching a declared field type, or a
/// nested sequence of child records.  Number values hold their validated
/// decimal literal text; markdown stays raw source until render time.
#[derive(Debug)]
pub enum FieldValue {
    String(String),
    Number(String),
    Date(DateTime),
    Markdown(String),
    Boolean(bool),
    Objects(Vec<FieldValues>),
}

impl FieldValues {
    pub fn new() -> (r: FieldValues)
        ensures
            r.pairs@ =~= Seq::<(String, FieldValue)>::empty(),
    {
        FieldValues { pairs: Vec::new() }
    }

    pub fn insert(&mut self, key: String, value: FieldValue)
        ensures
            final(self).pairs@ == old(self).pairs@.push((key, value)),
    {
        self.pairs.push((key, value));
    }
}

impl FieldValue {
    /// Coerces source text into a value of the declared type.  String
    /// and markdown fields always accept; number and boolean fields fail
    /// with a type mismatch naming the field, the expected type and the
    /// raw text; date fields fail with an invalid-date error.
    pub fn from_string(field: &str, field_type: FieldType, value: &str) -> (r: Result<
        FieldValue,
        InvalidFieldError,
    >)
        ensures
            match field_type {
                FieldType::String => r matches Ok(v) && (v matches FieldValue::String(s) && s@
                    == value@),
                FieldType::Markdown => r matches Ok(v) && (v matches FieldValue::Markdown(s) && s@
                    == value@),
                FieldType::Number => match r {
                    Ok(v) => is_number_lit(value@) && (v matches FieldValue::Number(s) && s@
                        == value@),
                    Err(e) => !is_number_lit(value@) && type_mismatch_err(
                        e,
                        field@,
                        field_type,
                        value@,
                    ),
                },
                FieldType::Boolean => match r {
                    Ok(v) => (value@ == "true"@ || value@ == "false"@) && (v matches
                        FieldValue::Boolean(b) && b == (value@ == "true"@)),
                    Err(e) => value@ != "true"@ && value@ != "false"@ && type_mismatch_err(
                        e,
                        field@,
                        field_type,
                        value@,
                    ),
                },
                FieldType::Date => match r {
                    Ok(v) => date_lit_ok(value@) && (v matches FieldValue::Date(d) && d
                        == date_of_lit(value@)),
                    Err(e) => !date_lit_ok(value@) && (e matches InvalidFieldError::InvalidDate(t)
                        && t@ == value@),
                },
            },
    {
        match field_type {
            FieldType::String => Ok(FieldValue::String(value.to_owned())),
            FieldType::Markdown => Ok(FieldValue::Markdown(value.to_owned())),
            FieldType::Number => {
                if is_number_lit_exec(value) {
                    Ok(FieldValue::Number(value.to_owned()))
                } else {
                    Err(InvalidFieldError::TypeMismatch {
                        field: field.to_owned(),
                        field_type: field_type.to_str().to_owned(),
                        value: value.to_owned(),
                    })
                }
            },
            FieldType::Boolean => {
                if str_eq(value, "true") {
                    Ok(FieldValue::Boolean(true))
                } else if str_eq(value, "false") {
                    Ok(FieldValue::Boolean(false))
                } else {
                    Err(InvalidFieldError::TypeMismatch {
                        field: field.to_owned(),
                        field_type: field_type.to_str().to_owned(),
                        value: value.to_owned(),
                    })
                }
            },
            FieldType::Date => {
                match DateTime::from(value) {
                    Ok(d) => Ok(FieldValue::Date(d)),
                    Err(e) => Err(e),
                }
            },
        }
    }
}

/// A type-mismatch error naming the field, the expected type and the
/// offending raw text.
pub open spec fn type_mismatch_err(
    e: InvalidFieldError,
    field: Seq<char>,
    t: FieldType,
    value: Seq<char>,
) -> bool {
    e matches InvalidFieldError::TypeMismatch { field: f, field_type: ft, value: v } && f@ == field
        && ft@ == field_type_name(t) && v@ == value
}

/// The zero value of each field type: empty text, the number zero, a
/// valid current moment, empty markdown, or false.
pub open spec fn is_default_of(t: FieldType, v: FieldValue) -> bool {
    match t {
        FieldType::String => v matches FieldValue::String(s) && s@ == Seq::<char>::empty(),
        FieldType::Number => v matches FieldValue::Number(s) && s@ == "0"@,
        FieldType::Date => v matches FieldValue::Date(d) && d.wf(),
        FieldType::Markdown => v matches FieldValue::Markdown(s) && s@ == Seq::<char>::empty(),
        FieldType::Boolean => v matches FieldValue::Boolean(b) && b == false,
    }
}

impl FieldType {
    /// The zero value a record gets for a declared field its source
    /// omits: empty text, the number zero, the current moment, empty
    /// markdown, or false.
    pub fn default_value(&self) -> (r: FieldValue)
        ensures
            is_default_of(*self, r),
    {
        match self {
            FieldType::String => FieldValue::String(String::new()),
            FieldType::Number => FieldValue::Number("0".to_owned()),
            FieldType::Date => FieldValue::Date(DateTime::now()),
            FieldType::Markdown => FieldValue::Markdown(String::new()),
            FieldType::Boolean => FieldValue::Boolean(false),
        }
    }
}

} // verus!
