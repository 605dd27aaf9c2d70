use crate::date::{
    civil_day_number, day_in_range, month_day_text, valid_ymd, weekday_of_day, year_of_day, Date,
    MAX_DAY, MAX_YEAR, MIN_DAY, MIN_YEAR,
};
use crate::text::{concat_text, decimal_text, int_text};
use vstd::prelude::*;

verus! {

/// One week of a quarter, as the planning grid shows it.
#[derive(Clone, Debug, PartialEq, Eq)]
pub struct QuarterWeek {
    /// First day of the week.
    pub start_date: Date,
    /// Position of the week in the quarter, from 1.
    pub week_number: usize,
    /// Sprint of the quarter that holds the week, from 1.
    pub sprint_number: usize,
    pub total_weeks: usize,
    pub sprint_length_weeks: usize,
}

/// Week `i` (from 0) of a quarter that starts on day `start`.
pub open spec fn quarter_week_at(w: QuarterWeek, start: int, i: int, num_weeks: int, sprint_length: int) -> bool {
    &&& w.start_date@ == start + 7 * i
    &&& w.week_number == i + 1
    &&& w.sprint_number == i / sprint_length + 1
    &&& w.total_weeks == num_weeks
    &&& w.sprint_length_weeks == sprint_length
}

/// `weeks` lists the `num_weeks` weeks of a quarter that starts on day `start`.
pub open spec fn is_quarter_weeks(weeks: Seq<QuarterWeek>, start: int, num_weeks: int, sprint_length: int) -> bool {
    &&& weeks.len() == num_weeks
    &&& forall|i: int| 0 <= i < num_weeks ==> #[trigger] quarter_week_at(weeks[i], start, i, num_weeks, sprint_length)
}

/// `formatted` followed by " (W)" when asked for and the weekday (counted
/// in days from Monday) is a Wednesday.
pub fn with_wednesday_mark(formatted: String, weekday_from_monday: u32, include_weekday: bool) -> (r: String)
    ensures
        r@ == if include_weekday && weekday_from_monday == 2 {
            formatted@ + " (W)"@
        } else {
            formatted@
        },
{
    if include_weekday && weekday_from_monday == 2 {
        concat_text(formatted.as_str(), " (W)")
    } else {
        formatted
    }
}

impl QuarterWeek {
    /// "Week N".
    pub fn format_week_number(&self) -> (r: String)
        ensures
            r@ == "Week "@ + decimal_text(self.week_number as int),
    {
        let n = int_text(self.week_number as i128);
        concat_text("Week ", n.as_str())
    }

    /// "Sprint N".
    pub fn format_sprint_number(&self) -> (r: String)
        ensures
            r@ == "Sprint "@ + decimal_text(self.sprint_number as int),
    {
        let n = int_text(self.sprint_number as i128);
        concat_text("Sprint ", n.as_str())
    }

    /// The start date as "Jan 6", followed by " (W)" when asked for and the
    /// week starts on a Wednesday.
    pub fn format_date(&self, include_weekday: bool) -> (r: String)
        requires
            self.start_date.valid(),
        ensures
            r@ == if include_weekday && weekday_of_day(self.start_date@) == 2 {
                month_day_text(self.start_date@) + " (W)"@
            } else {
                month_day_text(self.start_date@)
            },
    {
        let formatted = self.start_date.format_month_day();
        with_wednesday_mark(formatted, self.start_date.weekday_from_monday(), include_weekday)
    }

    /// The week opens a sprint.
    pub fn is_sprint_start(&self) -> (r: bool)
        requires
            self.week_number >= 1,
        ensures
            r == if self.sprint_length_weeks == 0 {
                self.week_number == 1
            } else {
                (self.week_number - 1) % (self.sprint_length_weeks as int) == 0
            },
    {
        if self.sprint_length_weeks == 0 {
            self.week_number == 1
        } else {
            (self.week_number - 1) % self.sprint_length_weeks == 0
        }
    }
}

/// The weeks of a quarter that starts on `quarter_start`, with sprints of
/// `sprint_length_weeks` weeks counted from the quarter's first week.
pub fn generate_quarter_weeks(quarter_start: Date, num_weeks: usize, sprint_length_weeks: usize) -> (r: Vec<QuarterWeek>)
    requires
        quarter_start.valid(),
        sprint_length_weeks > 0,
        num_weeks > 0 ==> day_in_range(quarter_start@ + 7 * (num_weeks - 1)),
    ensures
        is_quarter_weeks(r@, quarter_start@, num_weeks as int, sprint_length_weeks as int),
{
    let mut weeks: Vec<QuarterWeek> = Vec::new();
    let mut week_index: usize = 0;
    while week_index < num_weeks
        invariant
            week_index <= num_weeks,
            quarter_start.valid(),
            sprint_length_weeks > 0,
            num_weeks > 0 ==> day_in_range(quarter_start@ + 7 * (num_weeks - 1)),
            weeks@.len() == week_index,
            forall|i: int| 0 <= i < week_index ==> #[trigger] quarter_week_at(weeks@[i], quarter_start@, i, num_weeks as int, sprint_length_weeks as int),
        decreases num_weeks - week_index,
    {
        let start_date = quarter_start.add_weeks(week_index as i64);
        weeks.push(QuarterWeek {
            start_date,
            week_number: week_index + 1,
            sprint_number: week_index / sprint_length_weeks + 1,
            total_weeks: num_weeks,
            sprint_length_weeks,
        });
        week_index += 1;
    }
    weeks
}

/// Week numbers of a generated quarter run 1, 2, ..., sprint numbers never
/// decrease, and the first week is in the first sprint.
pub proof fn lemma_quarter_weeks_ordered(weeks: Seq<QuarterWeek>, start: int, num_weeks: int, sprint_length: int)
    requires
        sprint_length > 0,
        is_quarter_weeks(weeks, start, num_weeks, sprint_length),
    ensures
        weeks.len() == num_weeks,
        forall|i: int| 0 <= i < num_weeks ==> (#[trigger] weeks[i]).week_number == i + 1,
        forall|i: int, j: int| 0 <= i < j < num_weeks ==> #[trigger] weeks[i].week_number < #[trigger] weeks[j].week_number,
        forall|i: int, j: int| 0 <= i <= j < num_weeks ==> #[trigger] weeks[i].sprint_number <= #[trigger] weeks[j].sprint_number,
        num_weeks > 0 ==> weeks[0].week_number == 1 && weeks[0].sprint_number == 1,
{
    assert forall|i: int| 0 <= i < num_weeks implies (#[trigger] weeks[i]).week_number == i + 1 by {
        assert(quarter_week_at(weeks[i], start, i, num_weeks, sprint_length));
    }
    assert forall|i: int, j: int| 0 <= i <= j < num_weeks implies #[trigger] weeks[i].sprint_number <= #[trigger] weeks[j].sprint_number by {
        assert(quarter_week_at(weeks[i], start, i, num_weeks, sprint_length));
        assert(quarter_week_at(weeks[j], start, j, num_weeks, sprint_length));
        vstd::arithmetic::div_mod::lemma_div_is_ordered(i, j, sprint_length);
    }
    if num_weeks > 0 {
        assert(quarter_week_at(weeks[0], start, 0, num_weeks, sprint_length));
        assert(0int / sprint_length == 0) by (nonlinear_arith)
            requires sprint_length > 0;
    }
}

/// The Monday on or after a representable day is representable too (the
/// last representable day is a Monday), and it is a Monday.
proof fn lemma_next_monday(d: int)
    requires
        day_in_range(d),
    ensures
        day_in_range(d + (7 - weekday_of_day(d)) % 7),
        weekday_of_day(d + (7 - weekday_of_day(d)) % 7) == 0,
{
    let w = weekday_of_day(d);
    let q = (d - 1) / 7;
    vstd::arithmetic::div_mod::lemma_fundamental_div_mod(d - 1, 7);
    vstd::arithmetic::div_mod::lemma_mod_bound(d - 1, 7);
    assert(d - 1 == 7 * q + w);
    assert(MAX_DAY - 1 == 7 * 13677914);
    if w == 0 {
        assert((7 - w) % 7 == 0);
        vstd::arithmetic::div_mod::lemma_fundamental_div_mod_converse(d - 1, 7, q, 0);
    } else {
        assert((7 - w) % 7 == 7 - w);
        assert(q < 13677914) by (nonlinear_arith)
            requires
                d - 1 == 7 * q + w,
                0 < w < 7,
                d <= MAX_DAY,
                MAX_DAY - 1 == 7 * 13677914,
        ;
        vstd::arithmetic::div_mod::lemma_fundamental_div_mod_converse(d + 7 - w - 1, 7, q + 1, 0);
    }
}

/// The first Monday on or after `date`.
pub fn find_first_monday(date: Date) -> (r: Date)
    requires
        date.valid(),
    ensures
        r@ == date@ + (7 - weekday_of_day(date@)) % 7,
        weekday_of_day(r@) == 0,
        r.valid(),
{
    proof {
        lemma_next_monday(date@);
    }
    let weekday = date.weekday_from_monday();
    let ahead: i64 = ((7 - weekday) % 7) as i64;
    date.add_days(ahead)
}

/// The Monday of the week that holds `date`.
pub fn get_week_start(date: Date) -> (r: Date)
    requires
        date.valid(),
        day_in_range(date@ - weekday_of_day(date@)),
    ensures
        r@ == date@ - weekday_of_day(date@),
        weekday_of_day(r@) == 0,
        r.valid(),
{
    proof {
        vstd::arithmetic::div_mod::lemma_fundamental_div_mod(date@ - 1, 7);
        vstd::arithmetic::div_mod::lemma_mod_bound(date@ - 1, 7);
        let q = (date@ - 1) / 7;
        vstd::arithmetic::div_mod::lemma_fundamental_div_mod_converse(date@ - weekday_of_day(date@) - 1, 7, q, 0);
    }
    let weekday = date.weekday_from_monday();
    date.add_days(-(weekday as i64))
}

/// `date` falls in the seven days from `week_start`.
pub fn is_date_in_week(date: Date, week_start: Date) -> (r: bool)
    ensures
        r == (week_start@ <= date@ <= week_start@ + 6),
{
    let offset = date.days_since(&week_start);
    0 <= offset && offset <= 6
}

/// Month that opens a quarter: 1, 4, 7 or 10.
pub open spec fn quarter_start_month(quarter: int) -> int {
    3 * (quarter - 1) + 1
}

/// Day number of the first day of quarter `quarter` of `year`.
pub open spec fn quarter_start_day(year: int, quarter: int) -> int {
    civil_day_number(year, quarter_start_month(quarter), 1)
}

/// First day of quarter `quarter` (1 to 4) of `year`: January, April, July
/// or October 1. `None` for another quarter number or a year out of range.
pub fn get_quarter_start_date(year: i32, quarter: u8) -> (r: Option<Date>)
    ensures
        r.is_some() <==> (1 <= quarter <= 4 && MIN_YEAR <= year <= MAX_YEAR),
        r.is_some() ==> r.unwrap()@ == quarter_start_day(year as int, quarter as int),
        r.is_some() ==> r.unwrap().valid(),
{
    let month: u32 = if quarter == 1 {
        1
    } else if quarter == 2 {
        4
    } else if quarter == 3 {
        7
    } else if quarter == 4 {
        10
    } else {
        return None;
    };
    Date::from_ymd_opt(year, month, 1)
}

/// The first day of every quarter is day 1 of January, April, July or
/// October, and exists for every year in range.
pub proof fn lemma_quarter_start_month(year: int, quarter: int)
    requires
        MIN_YEAR <= year <= MAX_YEAR,
        1 <= quarter <= 4,
    ensures
        valid_ymd(year, quarter_start_month(quarter), 1),
        quarter_start_month(quarter) == 1 || quarter_start_month(quarter) == 4
            || quarter_start_month(quarter) == 7 || quarter_start_month(quarter) == 10,
        quarter_start_day(year, quarter) == civil_day_number(year, quarter_start_month(quarter), 1),
{
}

/// The first quarter of `year` whose start is on or after `today`, as a
/// quarter number; 0 where every quarter of the year starts before `today`.
pub open spec fn first_quarter_from(year: int, today: int) -> int {
    if quarter_start_day(year, 1) >= today { 1 }
    else if quarter_start_day(year, 2) >= today { 2 }
    else if quarter_start_day(year, 3) >= today { 3 }
    else if quarter_start_day(year, 4) >= today { 4 }
    else { 0 }
}

/// "Q<quarter> <year>".
pub open spec fn quarter_name_text(quarter: int, year: int) -> Seq<char> {
    "Q"@ + decimal_text(quarter) + " "@ + decimal_text(year)
}

pub(crate) fn quarter_name(quarter: u8, year: i32) -> (r: String)
    ensures
        r@ == quarter_name_text(quarter as int, year as int),
{
    let q = int_text(quarter as i128);
    let y = int_text(year as i128);
    let head = concat_text("Q", q.as_str());
    let head = concat_text(head.as_str(), " ");
    concat_text(head.as_str(), y.as_str())
}

/// Index (from 0) of the first of `starts` on or after day `today`, or the
/// length of `starts` when every one is earlier.
pub open spec fn first_start_from(starts: Seq<Date>, today: int) -> int
    decreases starts.len(),
{
    if starts.len() == 0 {
        0
    } else if starts[0]@ >= today {
        0
    } else {
        1 + first_start_from(starts.drop_first(), today)
    }
}

/// The next quarter to plan from `today`, given the starts of the four
/// quarters of `year` and of the first quarter of the next year (if it can
/// be written): the first quarter of `year` that starts on or after `today`,
/// else the next year's first quarter. Gives (year, quarter, start,
/// "Q<quarter> <year>").
pub fn pick_next_quarter(today: Date, year: i32, starts: &Vec<Date>, next_year_start: Option<Date>) -> (r: Option<(i32, u8, Date, String)>)
    requires
        starts@.len() == 4,
        year < i32::MAX,
    ensures
        ({
            let k = first_start_from(starts@, today@);
            &&& k < 4 ==> r.is_some() && r.unwrap().0 == year && r.unwrap().1 == k + 1
                && r.unwrap().2 == starts@[k] && r.unwrap().3@ == quarter_name_text(k + 1, year as int)
            &&& k >= 4 ==> (r.is_some() <==> next_year_start.is_some())
            &&& k >= 4 && r.is_some() ==> r.unwrap().0 == year + 1 && r.unwrap().1 == 1
                && r.unwrap().2 == next_year_start.unwrap() && r.unwrap().3@ == quarter_name_text(1, year + 1)
        }),
{
    let mut i: usize = 0;
    proof {
        assert(starts@.skip(0) =~= starts@);
    }
    while i < 4
        invariant
            starts@.len() == 4,
            i <= 4,
            first_start_from(starts@, today@) == i + first_start_from(starts@.skip(i as int), today@),
        decreases 4 - i,
    {
        proof {
            assert(starts@.skip(i as int).drop_first() =~= starts@.skip(i as int + 1));
            assert(starts@.skip(i as int)[0] == starts@[i as int]);
        }
        if starts[i].days >= today.days {
            let quarter = (i + 1) as u8;
            let name = quarter_name(quarter, year);
            return Some((year, quarter, starts[i], name));
        }
        i += 1;
    }
    proof {
        assert(starts@.skip(4) =~= Seq::<Date>::empty());
    }
    match next_year_start {
        Some(start) => {
            let name = quarter_name(1, year + 1);
            Some((year + 1, 1, start, name))
        },
        None => None,
    }
}

/// The next quarter to plan from `today`: the first quarter of today's year
/// whose start is on or after `today`, else the first quarter of the next
/// year. Gives (year, quarter, start date, "Q<quarter> <year>"); `None` only
/// where that next year lies beyond the last representable year.
pub fn get_next_quarter_info(today: Date) -> (r: Option<(i32, u8, Date, String)>)
    requires
        today.valid(),
    ensures
        ({
            let y = year_of_day(today@);
            let q = first_quarter_from(y, today@);
            &&& r.is_some() <==> (q != 0 || y < MAX_YEAR)
            &&& r.is_some() && q != 0 ==> {
                let (ry, rq, start, name) = r.unwrap();
                &&& ry == y && rq == q
                &&& start@ == quarter_start_day(y, q)
                &&& name@ == quarter_name_text(q, y)
            }
            &&& r.is_some() && q == 0 ==> {
                let (ry, rq, start, name) = r.unwrap();
                &&& ry == y + 1 && rq == 1
                &&& start@ == quarter_start_day(y + 1, 1)
                &&& name@ == quarter_name_text(1, y + 1)
            }
        }),
        r.is_some() ==> r.unwrap().2.valid(),
{
    let year = today.year();
    let mut starts: Vec<Date> = Vec::new();
    let mut quarter: u8 = 1;
    while quarter <= 4
        invariant
            1 <= quarter <= 5,
            MIN_YEAR <= year <= MAX_YEAR,
            starts@.len() == quarter - 1,
            forall|k: int| 0 <= k < starts@.len() ==> (#[trigger] starts@[k])@ == quarter_start_day(year as int, k + 1)
                && starts@[k].valid(),
        decreases 5 - quarter,
    {
        match get_quarter_start_date(year, quarter) {
            Some(s) => starts.push(s),
            None => {
                assert(false);
            },
        }
        quarter += 1;
    }
    let next_year_start = if year < MAX_YEAR { get_quarter_start_date(year + 1, 1) } else { None };
    let r = pick_next_quarter(today, year, &starts, next_year_start);
    proof {
        let y = year as int;
        let s = starts@;
        reveal_with_fuel(first_start_from, 5);
        assert(s.drop_first().drop_first().drop_first().drop_first() =~= Seq::<Date>::empty());
        assert(s.drop_first()[0] == s[1]);
        assert(s.drop_first().drop_first()[0] == s[2]);
        assert(s.drop_first().drop_first().drop_first()[0] == s[3]);
        let k = first_start_from(s, today@);
        let q = first_quarter_from(y, today@);
        assert(s[0]@ == quarter_start_day(y, 1));
        assert(s[1]@ == quarter_start_day(y, 2));
        assert(s[2]@ == quarter_start_day(y, 3));
        assert(s[3]@ == quarter_start_day(y, 4));
        assert(k < 4 ==> q == k + 1);
        assert(k >= 4 ==> q == 0);
    }
    r
}

/// Rounding a negative quotient toward minus infinity through the quotient
/// of the negated numerator.
proof fn lemma_floor_div_negative(x: int, d: int)
    requires
        x < 0,
        d > 0,
    ensures
        -((-x + d - 1) / d) == x / d,
{
    let n = -x + d - 1;
    let q = n / d;
    let r = n % d;
    vstd::arithmetic::div_mod::lemma_fundamental_div_mod(n, d);
    vstd::arithmetic::div_mod::lemma_mod_bound(n, d);
    assert(x == (-q) * d + (d - 1 - r)) by (nonlinear_arith)
        requires
            n == d * q + r,
            n == -x + d - 1,
    ;
    vstd::arithmetic::div_mod::lemma_fundamental_div_mod_converse(x, d, -q, d - 1 - r);
}

/// First day of the sprint that holds the week starting on day `week`, with
/// sprints of `length` weeks laid end to end from day `anchor`.
pub open spec fn sprint_start_day(week: int, anchor: int, length: int) -> int {
    anchor + ((week - anchor) / 7) / length * length * 7
}

/// Last day of that sprint.
pub open spec fn sprint_end_day(week: int, anchor: int, length: int) -> int {
    sprint_start_day(week, anchor, length) + 7 * length - 1
}

/// The sprint boundaries of `week` can be written as dates.
pub open spec fn sprint_in_range(week: int, anchor: int, length: int) -> bool {
    day_in_range(sprint_start_day(week, anchor, length)) && day_in_range(sprint_end_day(week, anchor, length))
}

/// First and last day of the sprint that holds `week_start`, with sprints of
/// `sprint_length_weeks` weeks laid end to end from `anchor` (before and
/// after it alike).
pub fn get_sprint_boundaries(week_start: Date, anchor: Date, sprint_length_weeks: usize) -> (r: (Date, Date))
    requires
        week_start.valid(),
        anchor.valid(),
        sprint_length_weeks > 0,
        sprint_in_range(week_start@, anchor@, sprint_length_weeks as int),
    ensures
        r.0@ == sprint_start_day(week_start@, anchor@, sprint_length_weeks as int),
        r.1@ == sprint_end_day(week_start@, anchor@, sprint_length_weeks as int),
        r.0.valid(),
        r.1.valid(),
{
    let days = week_start.days_since(&anchor);
    let ghost len = sprint_length_weeks as int;
    // floor division by 7 and by the sprint length
    let week_index: i64 = if days >= 0 {
        days / 7
    } else {
        -((-days + 6) / 7)
    };
    assert(week_index == days / 7) by {
        if days < 0 {
            vstd::arithmetic::div_mod::lemma_fundamental_div_mod(days as int, 7);
            vstd::arithmetic::div_mod::lemma_fundamental_div_mod((-days + 6) as int, 7);
        }
    }
    assert(-(200_000_000i64) <= week_index <= 200_000_000i64) by {
        vstd::arithmetic::div_mod::lemma_fundamental_div_mod(days as int, 7);
    }
    let start_offset_weeks: i64;
    if sprint_length_weeks > 200_000_000 {
        // the sprint end could not be written as a date
        assert(false) by {
            let si = week_index as int / len;
            vstd::arithmetic::div_mod::lemma_fundamental_div_mod(week_index as int, len);
            assert(sprint_start_day(week_start@, anchor@, len) == anchor@ + si * len * 7);
            assert(sprint_end_day(week_start@, anchor@, len) == anchor@ + si * len * 7 + 7 * len - 1);
            assert(si * len <= week_index) by {
                vstd::arithmetic::div_mod::lemma_fundamental_div_mod(week_index as int, len);
                vstd::arithmetic::div_mod::lemma_mod_bound(week_index as int, len);
            }
            assert(si * len > week_index - len) by {
                vstd::arithmetic::div_mod::lemma_mod_bound(week_index as int, len);
            }
            assert(7 * (si * len) + 7 * len > 7 * week_index) by (nonlinear_arith)
                requires si * len > week_index - len;
            assert(si * len * 7 == 7 * (si * len)) by (nonlinear_arith);
        }
        start_offset_weeks = 0;
    } else {
        let len_i: i64 = sprint_length_weeks as i64;
        let sprint_index: i64 = if week_index >= 0 {
            week_index / len_i
        } else {
            -((-week_index + len_i - 1) / len_i)
        };
        assert(sprint_index == week_index as int / len) by {
            if week_index < 0 {
                lemma_floor_div_negative(week_index as int, len);
            }
        }
        assert(-(200_000_000i64) <= sprint_index * len_i <= 200_000_000i64) by {
            vstd::arithmetic::div_mod::lemma_fundamental_div_mod(week_index as int, len);
            vstd::arithmetic::div_mod::lemma_mod_bound(week_index as int, len);
        }
        start_offset_weeks = sprint_index * len_i;
    }
    let sprint_start = anchor.add_weeks(start_offset_weeks);
    let sprint_end = sprint_start.add_days(7 * (sprint_length_weeks as i64) - 1);
    (sprint_start, sprint_end)
}

} // verus!
