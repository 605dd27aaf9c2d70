use chrono::Datelike;
use vstd::prelude::*;

verus! {

/// First year that a calendar date can hold.
pub const MIN_YEAR: i32 = -262143;

/// Last year that a calendar date can hold.
pub const MAX_YEAR: i32 = 262142;

/// Day number of January 1 of `MIN_YEAR`.
pub const MIN_DAY: i32 = -95746129;

/// Day number of December 31 of `MAX_YEAR`.
pub const MAX_DAY: i32 = 95745399;

/// The proleptic Gregorian day number of a civil date, counted with
/// January 1 of year 1 as day 1.
pub uninterp spec fn civil_day_number(year: int, month: int, day: int) -> int;

/// The year of the civil date with the given day number.
pub uninterp spec fn year_of_day(days: int) -> int;

/// The month (1 to 12) of the civil date with the given day number.
pub uninterp spec fn month_of_day(days: int) -> int;

/// The day of month (1 to 31) of the civil date with the given day number.
pub uninterp spec fn day_of_month_of_day(days: int) -> int;

/// Days since the Monday of the week (0 for Monday, 6 for Sunday): day 1,
/// January 1 of year 1, is a Monday.
pub open spec fn weekday_of_day(days: int) -> int {
    (days - 1) % 7
}

/// The text "Mon D" (abbreviated month, day without padding) of a day number.
pub uninterp spec fn month_day_text(days: int) -> Seq<char>;

pub open spec fn is_leap_year(year: int) -> bool {
    year % 4 == 0 && (year % 100 != 0 || year % 400 == 0)
}

pub open spec fn days_in_month(year: int, month: int) -> int {
    if month == 2 {
        if is_leap_year(year) { 29 } else { 28 }
    } else if month == 4 || month == 6 || month == 9 || month == 11 {
        30
    } else {
        31
    }
}

/// A civil date exists and lies in the representable range.
pub open spec fn valid_ymd(year: int, month: int, day: int) -> bool {
    &&& MIN_YEAR <= year <= MAX_YEAR
    &&& 1 <= month <= 12
    &&& 1 <= day <= days_in_month(year, month)
}

pub open spec fn day_in_range(days: int) -> bool {
    MIN_DAY <= days <= MAX_DAY
}

/// A calendar date, held as its proleptic Gregorian day number
/// (January 1 of year 1 is day 1).
#[derive(Clone, Copy, Debug, PartialEq, Eq, Structural, Hash)]
pub struct Date {
    pub days: i32,
}

impl View for Date {
    type V = int;

    open spec fn view(&self) -> int {
        self.days as int
    }
}

/// Relies on chrono's `NaiveDate::from_ymd_opt`, which is `None` exactly for a
/// civil date that does not exist or lies out of range, and on
/// `num_days_from_ce` to read the day number of the date it returns.
#[verifier::external_body]
fn ymd_to_day_number(year: i32, month: u32, day: u32) -> (r: Option<i32>)
    ensures
        r.is_some() <==> valid_ymd(year as int, month as int, day as int),
        r.is_some() ==> r.unwrap() as int == civil_day_number(year as int, month as int, day as int),
        r.is_some() ==> day_in_range(r.unwrap() as int),
{
    chrono::NaiveDate::from_ymd_opt(year, month, day).map(|d| d.num_days_from_ce())
}

/// Relies on chrono's `Datelike::year` of the date with that day number; a
/// `NaiveDate` lies between years `MIN_YEAR` and `MAX_YEAR`.
#[verifier::external_body]
fn year_of(days: i32) -> (r: i32)
    requires
        day_in_range(days as int),
    ensures
        r as int == year_of_day(days as int),
        MIN_YEAR <= r <= MAX_YEAR,
{
    chrono::NaiveDate::from_num_days_from_ce_opt(days).unwrap().year()
}

/// Relies on chrono's `Datelike::month`, which ranges from 1 to 12.
#[verifier::external_body]
fn month_of(days: i32) -> (r: u32)
    requires
        day_in_range(days as int),
    ensures
        r as int == month_of_day(days as int),
        1 <= r <= 12,
{
    chrono::NaiveDate::from_num_days_from_ce_opt(days).unwrap().month()
}

/// Relies on chrono's `Datelike::day`, which ranges from 1 to 31.
#[verifier::external_body]
fn day_of(days: i32) -> (r: u32)
    requires
        day_in_range(days as int),
    ensures
        r as int == day_of_month_of_day(days as int),
        1 <= r <= 31,
{
    chrono::NaiveDate::from_num_days_from_ce_opt(days).unwrap().day()
}

/// Relies on chrono's `Weekday::num_days_from_monday` of the date's weekday,
/// 0 for Monday to 6 for Sunday, in the proleptic Gregorian calendar whose
/// day 1 (January 1 of year 1) is a Monday.
#[verifier::external_body]
fn weekday_index(days: i32) -> (r: u32)
    requires
        day_in_range(days as int),
    ensures
        r as int == weekday_of_day(days as int),
        r < 7,
{
    chrono::NaiveDate::from_num_days_from_ce_opt(days).unwrap().weekday().num_days_from_monday()
}

/// Relies on chrono's `NaiveDate::format` with the pattern `%b %-d`.
#[verifier::external_body]
fn month_day_string(days: i32) -> (r: String)
    requires
        day_in_range(days as int),
    ensures
        r@ == month_day_text(days as int),
{
    chrono::NaiveDate::from_num_days_from_ce_opt(days).unwrap().format("%b %-d").to_string()
}

/// Relies on chrono's `Local::now().date_naive()`: whatever day the clock
/// reads, as a representable date.
#[verifier::external_body]
fn local_today() -> (r: i32)
    ensures
        day_in_range(r as int),
{
    chrono::Local::now().date_naive().num_days_from_ce()
}

impl Date {
    /// The date `year-month-day`, or `None` where no such date exists.
    pub fn from_ymd_opt(year: i32, month: u32, day: u32) -> (r: Option<Date>)
        ensures
            r.is_some() <==> valid_ymd(year as int, month as int, day as int),
            r.is_some() ==> r.unwrap()@ == civil_day_number(year as int, month as int, day as int),
            r.is_some() ==> r.unwrap().valid(),
    {
        match ymd_to_day_number(year, month, day) {
            Some(days) => Some(Date { days }),
            None => None,
        }
    }

    /// The date lies in the representable range.
    pub open spec fn valid(&self) -> bool {
        day_in_range(self@)
    }

    /// The date with the given day number, where it is representable.
    pub fn from_day_number(days: i32) -> (r: Option<Date>)
        ensures
            r.is_some() <==> day_in_range(days as int),
            r.is_some() ==> r.unwrap()@ == days,
    {
        if MIN_DAY <= days && days <= MAX_DAY {
            Some(Date { days })
        } else {
            None
        }
    }

    /// Today's date on the local clock.
    pub fn today() -> (r: Date)
        ensures
            r.valid(),
    {
        Date { days: local_today() }
    }

    pub fn year(&self) -> (r: i32)
        requires
            self.valid(),
        ensures
            r as int == year_of_day(self@),
            MIN_YEAR <= r <= MAX_YEAR,
    {
        year_of(self.days)
    }

    pub fn month(&self) -> (r: u32)
        requires
            self.valid(),
        ensures
            r as int == month_of_day(self@),
            1 <= r <= 12,
    {
        month_of(self.days)
    }

    pub fn day(&self) -> (r: u32)
        requires
            self.valid(),
        ensures
            r as int == day_of_month_of_day(self@),
            1 <= r <= 31,
    {
        day_of(self.days)
    }

    /// Days since the Monday of the date's week: 0 for Monday up to 6 for Sunday.
    pub fn weekday_from_monday(&self) -> (r: u32)
        requires
            self.valid(),
        ensures
            r as int == weekday_of_day(self@),
            r < 7,
    {
        weekday_index(self.days)
    }

    /// The date written as abbreviated month and day, as in "Jan 6".
    pub fn format_month_day(&self) -> (r: String)
        requires
            self.valid(),
        ensures
            r@ == month_day_text(self@),
    {
        month_day_string(self.days)
    }

    /// The date `n` days later (earlier where `n` is negative).
    pub fn add_days(self, n: i64) -> (r: Date)
        requires
            self.valid(),
            day_in_range(self@ + n),
        ensures
            r@ == self@ + n,
            r.valid(),
    {
        Date { days: (self.days as i64 + n) as i32 }
    }

    /// The date `n` weeks later (earlier where `n` is negative).
    pub fn add_weeks(self, n: i64) -> (r: Date)
        requires
            self.valid(),
            day_in_range(self@ + 7 * n),
        ensures
            r@ == self@ + 7 * n,
            r.valid(),
    {
        let d: i64 = (n * 7) as i64;
        self.add_days(d)
    }

    /// Signed number of days from `earlier` to `self`.
    pub fn days_since(&self, earlier: &Date) -> (r: i64)
        ensures
            r == self@ - earlier@,
    {
        self.days as i64 - earlier.days as i64
    }

    pub fn is_before(&self, other: &Date) -> (r: bool)
        ensures
            r == (self@ < other@),
    {
        self.days < other.days
    }
}

} // verus!
