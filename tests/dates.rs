use planner::{
    find_first_monday, generate_quarter_weeks, get_quarter_start_date, get_sprint_boundaries,
    get_week_start, Date,
};

fn date(y: i32, m: u32, d: u32) -> Date {
    Date::from_ymd_opt(y, m, d).unwrap()
}

#[test]
fn test_find_first_monday() {
    let jan_1 = date(2025, 1, 1);
    let first_monday = find_first_monday(jan_1);
    assert_eq!(first_monday, date(2025, 1, 6));
    assert_eq!(first_monday.weekday_from_monday(), 0);
}

#[test]
fn test_get_quarter_start_date() {
    let q1 = get_quarter_start_date(2025, 1).unwrap();
    assert_eq!(q1.month(), 1);
    assert_eq!(q1.day(), 1);

    let q2 = get_quarter_start_date(2025, 2).unwrap();
    assert_eq!(q2.month(), 4);
    assert_eq!(q2.day(), 1);

    let q3 = get_quarter_start_date(2025, 3).unwrap();
    assert_eq!(q3.month(), 7);
    assert_eq!(q3.day(), 1);

    let q4 = get_quarter_start_date(2025, 4).unwrap();
    assert_eq!(q4.month(), 10);
    assert_eq!(q4.day(), 1);
}

#[test]
fn test_generate_quarter_weeks() {
    let start = date(2025, 1, 6);
    let weeks = generate_quarter_weeks(start, 13, 2);

    assert_eq!(weeks.len(), 13);
    assert_eq!(weeks[0].week_number, 1);
    assert_eq!(weeks[0].sprint_number, 1);
    assert_eq!(weeks[1].sprint_number, 1);
    assert_eq!(weeks[2].sprint_number, 2);
    assert_eq!(weeks[12].week_number, 13);
    assert_eq!(weeks[0].sprint_length_weeks, 2);
}

#[test]
fn test_get_week_start() {
    let wed = date(2025, 1, 8);
    let monday = get_week_start(wed);
    assert_eq!(monday, date(2025, 1, 6));
    assert_eq!(monday.weekday_from_monday(), 0);
}

#[test]
fn test_get_sprint_boundaries() {
    let quarter_start = date(2025, 1, 6);
    let sprint_length = 2;

    let week1 = date(2025, 1, 6);
    let (start, end) = get_sprint_boundaries(week1, quarter_start, sprint_length);
    assert_eq!(start, date(2025, 1, 6));
    assert_eq!(end, date(2025, 1, 19));

    let week2 = date(2025, 1, 13);
    let (start, end) = get_sprint_boundaries(week2, quarter_start, sprint_length);
    assert_eq!(start, date(2025, 1, 6));
    assert_eq!(end, date(2025, 1, 19));

    let week3 = date(2025, 1, 20);
    let (start, end) = get_sprint_boundaries(week3, quarter_start, sprint_length);
    assert_eq!(start, date(2025, 1, 20));
    assert_eq!(end, date(2025, 2, 2));
}
