//! The campaign settings: title, version, start date, times of day and
//! units of measure.
use vstd::prelude::*;
use vstd::string::*;
use chrono::Datelike;
use crate::text::{decimal, decimal_string, push_char, str_eq};
use crate::validation::{ErrorModel, ValidationError, ValidationResult, outcome_is};

verus! {

/// The campaign settings as edited; `F` holds the weather numbers and the
/// magnetic variation. Times are seconds after midnight.
#[derive(Debug, Clone, PartialEq)]
pub struct HeaderInternal<F> {
    pub original: bool,
    pub title: String,
    pub version: String,
    pub date_str: String,
    pub time: u32,
    pub dawn: u32,
    pub dusk: u32,
    pub mission_duration: u32,
    pub idle_time_min: u32,
    pub idle_time_max: u32,
    pub startup: u32,
    pub units: String,
    pub weather_high_prob: F,
    pub weather_low_prob: F,
    pub weather_reference_temp: F,
    pub mag_var: F,
    pub debug: bool,
}

/// The errors of campaign settings: dawn must come before dusk, and the
/// units must be "imperial" or "metric".
pub open spec fn header_errors(dawn: u32, dusk: u32, units: Seq<char>) -> Seq<ErrorModel> {
    (if dawn >= dusk {
        seq![("dawn"@, "Dawn time"@, "Dawn must be earlier than Dusk"@)]
    } else {
        Seq::empty()
    }) + (if units != "imperial"@ && units != "metric"@ {
        seq![("units"@, "Units of Measure"@, "Units must be 'imperial' or 'metric'"@)]
    } else {
        Seq::empty()
    })
}

impl<F> HeaderInternal<F> {
    /// Checks the settings.
    pub fn validate(&self) -> (res: ValidationResult)
        ensures
            outcome_is(res, header_errors(self.dawn, self.dusk, self.units@)),
    {
        let mut errors: Vec<ValidationError> = Vec::new();
        if self.dawn >= self.dusk {
            errors.push(ValidationError::new("dawn", "Dawn time", "Dawn must be earlier than Dusk"));
        }
        if !str_eq(self.units.as_str(), "imperial") && !str_eq(self.units.as_str(), "metric") {
            errors.push(
                ValidationError::new(
                    "units",
                    "Units of Measure",
                    "Units must be 'imperial' or 'metric'",
                ),
            );
        }
        assert(errors@.map_values(|e: ValidationError| e@) =~= header_errors(
            self.dawn,
            self.dusk,
            self.units@,
        ));
        ValidationResult::from_errors(errors)
    }
}


/// A calendar date.
#[derive(Debug, Clone, Copy, PartialEq, Eq, Structural)]
pub struct Date {
    pub day: u32,
    pub month: u32,
    pub year: i32,
}

/// A leap year of the proleptic Gregorian calendar.
pub open spec fn is_leap(y: int) -> bool {
    y % 4 == 0 && (y % 100 != 0 || y % 400 == 0)
}

/// The number of days of month `m` of year `y`.
pub open spec fn days_in_month(y: int, m: int) -> int {
    if m == 2 {
        if is_leap(y) {
            29
        } else {
            28
        }
    } else if m == 4 || m == 6 || m == 9 || m == 11 {
        30
    } else {
        31
    }
}

/// A day that exists, in the years chrono's dates cover (-262143 to 262142).
pub open spec fn valid_ymd(y: i32, m: u32, d: u32) -> bool {
    -262143 <= y <= 262142 && 1 <= m <= 12 && 1 <= d <= days_in_month(y as int, m as int)
}

/// `n` in decimal, zero-padded on the left to `width` digits.
pub open spec fn zero_padded(n: nat, width: nat) -> Seq<char> {
    let s = decimal(n);
    if s.len() >= width {
        s
    } else {
        Seq::new((width - s.len()) as nat, |i: int| '0') + s
    }
}

/// A year as `%Y` writes it: four digits from 0 to 9999, otherwise a sign
/// and at least four digits.
pub open spec fn year_text(y: int) -> Seq<char> {
    if 0 <= y <= 9999 {
        zero_padded(y as nat, 4)
    } else if y < 0 {
        seq!['-'] + zero_padded((-y) as nat, 4)
    } else {
        seq!['+'] + zero_padded(y as nat, 4)
    }
}

/// A date written as `%Y-%m-%d`.
pub open spec fn iso_date_text(y: int, m: nat, d: nat) -> Seq<char> {
    year_text(y) + seq!['-'] + zero_padded(m, 2) + seq!['-'] + zero_padded(d, 2)
}

/// The date, as (year, month, day), that chrono's `%Y-%m-%d` parser reads
/// from `s`, or `None` where it reports an error.
pub uninterp spec fn parsed_ymd(s: Seq<char>) -> Option<(i32, u32, u32)>;

/// Calls `chrono::NaiveDate::parse_from_str(s, "%Y-%m-%d")` and takes year,
/// month and day of the date read. The result is named `parsed_ymd`; a date
/// read is one that exists, and the text of an existing date written as
/// `%Y-%m-%d` reads back as that date.
#[verifier::external_body]
fn parse_iso_date(s: &str) -> (res: Option<(i32, u32, u32)>)
    ensures
        res == parsed_ymd(s@),
        res matches Some(t) ==> valid_ymd(t.0, t.1, t.2),
        forall|y: i32, m: u32, d: u32|
            valid_ymd(y, m, d) && s@ == iso_date_text(y as int, m as nat, d as nat) ==> res == Some(
                (y, m, d),
            ),
{
    chrono::NaiveDate::parse_from_str(s, "%Y-%m-%d").ok().map(|d| (d.year(), d.month(), d.day()))
}

/// `n` in decimal, zero-padded on the left to `width` digits.
pub(crate) fn zero_padded_string(n: u64, width: usize) -> (s: String)
    ensures
        s@ == zero_padded(n as nat, width as nat),
{
    let digits = decimal_string(n);
    let len = digits.unicode_len();
    let mut s = String::new();
    if len < width {
        let mut k: usize = 0;
        while k < width - len
            invariant
                len < width,
                k <= width - len,
                s@ == Seq::new(k as nat, |i: int| '0'),
            decreases width - len - k,
        {
            push_char(&mut s, '0');
            k = k + 1;
            assert(s@ =~= Seq::new(k as nat, |i: int| '0'));
        }
    }
    s.append(digits.as_str());
    assert(s@ =~= zero_padded(n as nat, width as nat));
    s
}

/// Whether year `y` is a leap year.
fn is_leap_year(y: i32) -> (res: bool)
    ensures
        res == is_leap(y as int),
{
    let a: i64 = if y >= 0 {
        y as i64
    } else {
        -(y as i64)
    };
    proof {
        let yi = y as int;
        assert(yi % 4 == 0 <==> a % 4 == 0) by (nonlinear_arith)
            requires
                a == yi || a == -yi,
        ;
        assert(yi % 100 == 0 <==> a % 100 == 0) by (nonlinear_arith)
            requires
                a == yi || a == -yi,
        ;
        assert(yi % 400 == 0 <==> a % 400 == 0) by (nonlinear_arith)
            requires
                a == yi || a == -yi,
        ;
    }
    a % 4 == 0 && (a % 100 != 0 || a % 400 == 0)
}

/// Whether the date exists.
pub fn is_valid_date(date: &Date) -> (res: bool)
    ensures
        res == valid_ymd(date.year, date.month, date.day),
{
    if date.year < -262143 || date.year > 262142 || date.month < 1 || date.month > 12
        || date.day < 1 {
        return false;
    }
    let days: u32 = if date.month == 2 {
        if is_leap_year(date.year) {
            29
        } else {
            28
        }
    } else if date.month == 4 || date.month == 6 || date.month == 9 || date.month == 11 {
        30
    } else {
        31
    };
    date.day <= days
}

/// The date written as `%Y-%m-%d` (as chrono writes a `NaiveDate`), or
/// `None` when the date does not exist.
pub fn date_str_of(date: &Date) -> (res: Option<String>)
    ensures
        match res {
            Some(s) => valid_ymd(date.year, date.month, date.day) && s@ == iso_date_text(
                date.year as int,
                date.month as nat,
                date.day as nat,
            ),
            None => !valid_ymd(date.year, date.month, date.day),
        },
{
    if !is_valid_date(date) {
        return None;
    }
    let y = date.year;
    let mut s = if y >= 0 && y <= 9999 {
        zero_padded_string(y as u64, 4)
    } else if y < 0 {
        let mut t = String::new();
        push_char(&mut t, '-');
        let digits = zero_padded_string((-(y as i64)) as u64, 4);
        t.append(digits.as_str());
        t
    } else {
        let mut t = String::new();
        push_char(&mut t, '+');
        let digits = zero_padded_string(y as u64, 4);
        t.append(digits.as_str());
        t
    };
    assert(s@ =~= year_text(y as int));
    push_char(&mut s, '-');
    let m = zero_padded_string(date.month as u64, 2);
    s.append(m.as_str());
    push_char(&mut s, '-');
    let d = zero_padded_string(date.day as u64, 2);
    s.append(d.as_str());
    assert(s@ =~= iso_date_text(date.year as int, date.month as nat, date.day as nat));
    Some(s)
}

/// The date that text written as `%Y-%m-%d` holds, read as chrono reads it;
/// `None` where chrono reports an error. Text written by `date_str_of` reads
/// back as the date it was written from.
pub fn date_of_str(s: &str) -> (res: Option<Date>)
    ensures
        match parsed_ymd(s@) {
            Some(t) => res == Some(Date { year: t.0, month: t.1, day: t.2 }) && valid_ymd(
                t.0,
                t.1,
                t.2,
            ),
            None => res is None,
        },
        forall|y: i32, m: u32, d: u32|
            valid_ymd(y, m, d) && s@ == iso_date_text(y as int, m as nat, d as nat) ==> res == Some(
                Date { year: y, month: m, day: d },
            ),
{
    match parse_iso_date(s) {
        Some((year, month, day)) => Some(Date { year, month, day }),
        None => None,
    }
}

/// The campaign settings as the campaign files hold them; `F` holds the
/// weather numbers and the magnetic variation.
#[derive(Debug, Clone, PartialEq)]
pub struct Header<F> {
    pub original: bool,
    pub title: String,
    pub version: String,
    pub mission: u8,
    pub date: Date,
    pub time: u32,
    pub dawn: u32,
    pub dusk: u32,
    pub mission_duration: u32,
    pub idle_time_min: u32,
    pub idle_time_max: u32,
    pub startup: u32,
    pub units: String,
    pub weather_high_prob: F,
    pub weather_low_prob: F,
    pub weather_reference_temp: F,
    pub mag_var: F,
    pub debug: bool,
}

/// The fields that the two forms of the settings share are equal.
pub open spec fn same_settings<F>(h: Header<F>, i: HeaderInternal<F>) -> bool {
    &&& h.original == i.original
    &&& h.title@ == i.title@
    &&& h.version@ == i.version@
    &&& h.time == i.time
    &&& h.dawn == i.dawn
    &&& h.dusk == i.dusk
    &&& h.mission_duration == i.mission_duration
    &&& h.idle_time_min == i.idle_time_min
    &&& h.idle_time_max == i.idle_time_max
    &&& h.startup == i.startup
    &&& h.units@ == i.units@
    &&& h.weather_high_prob == i.weather_high_prob
    &&& h.weather_low_prob == i.weather_low_prob
    &&& h.weather_reference_temp == i.weather_reference_temp
    &&& h.mag_var == i.mag_var
    &&& h.debug == i.debug
}

impl<F> HeaderInternal<F> {
    /// The settings for editing, the date written as `%Y-%m-%d`.
    pub fn from_header(h: Header<F>) -> (res: Self)
        requires
            valid_ymd(h.date.year, h.date.month, h.date.day),
        ensures
            same_settings(h, res),
            res.date_str@ == iso_date_text(h.date.year as int, h.date.month as nat, h.date.day as nat),
    {
        let date_str = match date_str_of(&h.date) {
            Some(s) => s,
            None => {
                assert(false);
                String::new()
            },
        };
        HeaderInternal {
            original: h.original,
            title: h.title,
            version: h.version,
            date_str,
            time: h.time,
            dawn: h.dawn,
            dusk: h.dusk,
            mission_duration: h.mission_duration,
            idle_time_min: h.idle_time_min,
            idle_time_max: h.idle_time_max,
            startup: h.startup,
            units: h.units,
            weather_high_prob: h.weather_high_prob,
            weather_low_prob: h.weather_low_prob,
            weather_reference_temp: h.weather_reference_temp,
            mag_var: h.mag_var,
            debug: h.debug,
        }
    }
}

impl<F> Header<F> {
    /// The settings a new campaign starts with: titled "New Campaign",
    /// version "V0.1", first mission, starting on the mission's date at
    /// 03:15, dawn at 05:30 and dusk at 19:08, missions of 90 minutes, idle
    /// time of 3 to 4 hours, 10 minutes startup, imperial units, debugging
    /// on. The weather chances, reference temperature and magnetic variation
    /// are the numbers given.
    pub fn new_from_mission(
        date: Date,
        weather_high_prob: F,
        weather_low_prob: F,
        weather_reference_temp: F,
        mag_var: F,
    ) -> (res: Self)
        ensures
            res.original,
            res.title@ == "New Campaign"@,
            res.version@ == "V0.1"@,
            res.mission == 1,
            res.date == date,
            res.time == 11700,
            res.dawn == 19800,
            res.dusk == 68880,
            res.mission_duration == 5400,
            res.idle_time_min == 10800,
            res.idle_time_max == 14400,
            res.startup == 600,
            res.units@ == "imperial"@,
            res.weather_high_prob == weather_high_prob,
            res.weather_low_prob == weather_low_prob,
            res.weather_reference_temp == weather_reference_temp,
            res.mag_var == mag_var,
            res.debug,
    {
        Header {
            original: true,
            title: "New Campaign".to_owned(),
            version: "V0.1".to_owned(),
            mission: 1,
            date,
            time: 11700,
            dawn: 19800,
            dusk: 68880,
            mission_duration: 5400,
            idle_time_min: 10800,
            idle_time_max: 14400,
            startup: 600,
            units: "imperial".to_owned(),
            weather_high_prob,
            weather_low_prob,
            weather_reference_temp,
            mag_var,
            debug: true,
        }
    }

    /// The settings as the campaign files hold them, the date read from
    /// its `%Y-%m-%d` text; the mission counter starts at 0.
    pub fn from_internal(i: HeaderInternal<F>) -> (res: Self)
        requires
            parsed_ymd(i.date_str@) is Some,
        ensures
            same_settings(res, i),
            res.mission == 0,
            parsed_ymd(i.date_str@) == Some((res.date.year, res.date.month, res.date.day)),
    {
        let date = match date_of_str(i.date_str.as_str()) {
            Some(d) => d,
            None => {
                assert(false);
                Date { day: 1, month: 1, year: 2000 }
            },
        };
        Header {
            original: i.original,
            title: i.title,
            version: i.version,
            mission: 0,
            date,
            time: i.time,
            dawn: i.dawn,
            dusk: i.dusk,
            mission_duration: i.mission_duration,
            idle_time_min: i.idle_time_min,
            idle_time_max: i.idle_time_max,
            startup: i.startup,
            units: i.units,
            weather_high_prob: i.weather_high_prob,
            weather_low_prob: i.weather_low_prob,
            weather_reference_temp: i.weather_reference_temp,
            mag_var: i.mag_var,
            debug: i.debug,
        }
    }

    /// The settings as the campaign files hold them, or `None` when the
    /// date text does not read as a date.
    pub fn try_from_internal(i: HeaderInternal<F>) -> (res: Option<Self>)
        ensures
            match parsed_ymd(i.date_str@) {
                Some(t) => res matches Some(h) && same_settings(h, i) && h.mission == 0 && (
                h.date.year, h.date.month, h.date.day) == t,
                None => res is None,
            },
    {
        match date_of_str(i.date_str.as_str()) {
            Some(_) => Some(Header::from_internal(i)),
            None => None,
        }
    }
}

} // verus!
