use planner::{
    generate_quarter_weeks, get_next_quarter_info, get_quarter_start_date, is_date_in_week, Date,
    Id, PlanState, ProjectColor, Role,
};

fn date(y: i32, m: u32, d: u32) -> Date {
    Date::from_ymd_opt(y, m, d).unwrap()
}

#[test]
fn quarter_starts_on_the_first_of_the_month() {
    for year in [1999, 2024, 2025] {
        for quarter in 1..=4u8 {
            let start = get_quarter_start_date(year, quarter).unwrap();
            assert!([1, 4, 7, 10].contains(&start.month()));
            assert_eq!(start.day(), 1);
            assert_eq!(start.year(), year);
        }
    }
    assert!(get_quarter_start_date(2025, 0).is_none());
    assert!(get_quarter_start_date(2025, 5).is_none());
    assert!(get_quarter_start_date(400000, 1).is_none());
}

#[test]
fn quarter_weeks_are_ordered() {
    let weeks = generate_quarter_weeks(date(2025, 1, 6), 13, 3);
    assert_eq!(weeks.len(), 13);
    assert_eq!(weeks[0].week_number, 1);
    assert_eq!(weeks[0].sprint_number, 1);
    for i in 1..weeks.len() {
        assert_eq!(weeks[i].week_number, weeks[i - 1].week_number + 1);
        assert!(weeks[i].sprint_number >= weeks[i - 1].sprint_number);
        assert_eq!(weeks[i].start_date, weeks[i - 1].start_date.add_days(7));
    }
    assert_eq!(weeks[12].sprint_number, 5);
    assert!(weeks[3].is_sprint_start());
    assert!(!weeks[4].is_sprint_start());
    assert!(generate_quarter_weeks(date(2025, 1, 6), 0, 2).is_empty());
}

#[test]
fn week_labels() {
    let weeks = generate_quarter_weeks(date(2025, 1, 6), 13, 2);
    assert_eq!(weeks[11].format_week_number(), "Week 12");
    assert_eq!(weeks[11].format_sprint_number(), "Sprint 6");
    assert_eq!(weeks[0].format_date(true), "Jan 6");
    let wednesday = generate_quarter_weeks(date(2025, 1, 1), 1, 2);
    assert_eq!(wednesday[0].format_date(true), "Jan 1 (W)");
    assert_eq!(wednesday[0].format_date(false), "Jan 1");
}

#[test]
fn next_quarter_from_a_date() {
    let (year, quarter, start, name) = get_next_quarter_info(date(2025, 2, 10)).unwrap();
    assert_eq!((year, quarter), (2025, 2));
    assert_eq!(start, date(2025, 4, 1));
    assert_eq!(name, "Q2 2025");
    let (year, quarter, start, name) = get_next_quarter_info(date(2025, 1, 1)).unwrap();
    assert_eq!((year, quarter, start), (2025, 1, date(2025, 1, 1)));
    assert_eq!(name, "Q1 2025");
    let (year, quarter, start, name) = get_next_quarter_info(date(2025, 11, 3)).unwrap();
    assert_eq!((year, quarter, start), (2026, 1, date(2026, 1, 1)));
    assert_eq!(name, "Q1 2026");
    assert!(get_next_quarter_info(date(262142, 12, 1)).is_none());
}

#[test]
fn default_plan_covers_next_quarter() {
    let state = PlanState::for_next_quarter(date(2025, 5, 5));
    assert_eq!(state.quarter_name, "Q3 2025");
    assert_eq!(state.quarter_start_date, date(2025, 7, 1));
    assert_eq!(state.num_weeks, 13);
    let today = Date::today();
    assert!(today.year() > 2000);
    let _ = PlanState::default();
}

#[test]
fn dates_and_weeks() {
    let monday = date(2025, 1, 6);
    assert!(is_date_in_week(date(2025, 1, 12), monday));
    assert!(!is_date_in_week(date(2025, 1, 13), monday));
    assert!(!is_date_in_week(date(2025, 1, 5), monday));
    assert_eq!(date(2025, 1, 1).days, 739252);
    assert_eq!(date(2025, 3, 1).days_since(&date(2025, 2, 1)), 28);
    assert_eq!(date(2024, 3, 1).days_since(&date(2024, 2, 1)), 29);
    assert!(Date::from_ymd_opt(2025, 2, 29).is_none());
    assert_eq!(date(2025, 1, 8).weekday_from_monday(), 2);
    assert_eq!(Date::from_day_number(739252), Some(date(2025, 1, 1)));
}

#[test]
fn labels_of_roles_and_colours() {
    assert_eq!(Role::Engineering.short_name(), "SDE");
    assert_eq!(Role::Science.short_name(), "AS");
    assert_eq!(ProjectColor::Blue.to_hex(), "#5AC8FA");
    assert_eq!(ProjectColor::Indigo.to_css_var(), "var(--project-purple)");
}

#[test]
fn identifiers() {
    let a = Id::new_v4();
    let b = Id::new_v4();
    assert_ne!(a, b);
    assert_eq!(Id::from_u128(a.as_u128()), a);
}

#[test]
fn representable_range() {
    assert_eq!(date(262142, 12, 31).days, planner::MAX_DAY);
    assert_eq!(date(-262143, 1, 1).days, planner::MIN_DAY);
    assert!(Date::from_ymd_opt(262143, 1, 1).is_none());
    assert!(Date::from_ymd_opt(-262144, 12, 31).is_none());
    assert!(Date::from_day_number(planner::MAX_DAY + 1).is_none());
}

#[test]
fn picking_the_next_quarter_from_starts() {
    let starts = vec![date(2025, 1, 1), date(2025, 4, 1), date(2025, 7, 1), date(2025, 10, 1)];
    let next = Some(date(2026, 1, 1));
    let (y, q, s, name) = planner::pick_next_quarter(date(2025, 4, 1), 2025, &starts, next).unwrap();
    assert_eq!((y, q, s, name.as_str()), (2025, 2, date(2025, 4, 1), "Q2 2025"));
    let (y, q, s, name) = planner::pick_next_quarter(date(2025, 10, 2), 2025, &starts, next).unwrap();
    assert_eq!((y, q, s, name.as_str()), (2026, 1, date(2026, 1, 1), "Q1 2026"));
    assert!(planner::pick_next_quarter(date(2025, 10, 2), 2025, &starts, None).is_none());
}

#[test]
fn wednesday_mark() {
    assert_eq!(planner::with_wednesday_mark("Jan 1".to_string(), 2, true), "Jan 1 (W)");
    assert_eq!(planner::with_wednesday_mark("Jan 1".to_string(), 2, false), "Jan 1");
    assert_eq!(planner::with_wednesday_mark("Jan 6".to_string(), 0, true), "Jan 6");
}

#[test]
fn first_monday_at_the_end_of_the_range() {
    let monday = planner::find_first_monday(date(262142, 12, 27));
    assert_eq!(monday.days, planner::MAX_DAY);
    assert_eq!(monday.weekday_from_monday(), 0);
    assert_eq!(planner::get_week_start(date(2025, 1, 12)), date(2025, 1, 6));
}

#[test]
fn painting_updates_the_projects_the_cell_held() {
    let start = date(2025, 1, 6);
    let mut state = PlanState::new("Q".to_string(), start, 13);
    let a = planner::TechnicalProject::new("Alpha".to_string(), None, 100, 0, start);
    let b = planner::TechnicalProject::new("Beta".to_string(), None, 100, 0, start);
    let (aid, bid) = (a.id, b.id);
    state.technical_projects.push(a);
    state.technical_projects.push(b);
    let member = Id::new_v4();
    let anchor = date(2025, 1, 6);
    let paint = |state: &mut PlanState, p: Id, week: Date| {
        state.allocate_project_to_cell(&planner::SelectedProject::Technical(p), member, week, anchor, 2)
    };
    assert!(paint(&mut state, aid, date(2025, 1, 6)));
    assert!(paint(&mut state, aid, date(2025, 2, 3)));
    assert_eq!(state.get_technical_project(&aid).unwrap().expected_completion, Some(date(2025, 2, 16)));
    // Repainting the later week with Beta shrinks Alpha back to its first sprint.
    assert!(paint(&mut state, bid, date(2025, 2, 3)));
    let alpha = state.get_technical_project(&aid).unwrap();
    assert_eq!(alpha.start_date, date(2025, 1, 6));
    assert_eq!(alpha.expected_completion, Some(date(2025, 1, 19)));
    // Clearing Beta's only week leaves its dates as they were.
    let beta_before = state.get_technical_project(&bid).unwrap().clone();
    assert!(state.allocate_project_to_cell(&planner::SelectedProject::Nothing, member, date(2025, 2, 3), anchor, 2));
    assert_eq!(state.get_technical_project(&bid).unwrap(), &beta_before);
}
