use planner::{
    calculate_capacity_metrics, calculate_cell_class, create_sample_plan, get_capacity_status,
    is_blank_text, validate_plan, Allocation, Assignment, BadgeType, Date, ExportValidationError,
    Id, Plan, PlanExport, PlanState, Preferences, ProjectColor, RoadmapProject, Role,
    SelectedProject, TeamMember, TechnicalProject, ValidationError,
};

fn weeks(x: f32) -> u64 {
    (x * 100.0).round() as u64
}

fn date(y: i32, m: u32, d: u32) -> Date {
    Date::from_ymd_opt(y, m, d).unwrap()
}

fn technical(name: &str, roadmap: Option<Id>, start: Date) -> TechnicalProject {
    TechnicalProject::new(name.to_string(), roadmap, 300, 0, start)
}

fn full_week(member: Id, week: Date, project: Id) -> Allocation {
    let mut alloc = Allocation::new(member, week);
    alloc.assignments.push(Assignment::new(project, 100));
    alloc
}

#[test]
fn sprint_boundaries_follow_the_anchor() {
    let anchor = date(2025, 1, 6);
    assert_eq!(
        planner::get_sprint_boundaries(date(2025, 1, 6), anchor, 2),
        (date(2025, 1, 6), date(2025, 1, 19))
    );
    assert_eq!(
        planner::get_sprint_boundaries(date(2025, 1, 13), anchor, 2),
        (date(2025, 1, 6), date(2025, 1, 19))
    );
    assert_eq!(
        planner::get_sprint_boundaries(date(2025, 1, 20), anchor, 2),
        (date(2025, 1, 20), date(2025, 2, 2))
    );
}

#[test]
fn sprint_boundaries_before_the_anchor() {
    let anchor = date(2025, 1, 6);
    // The week just before the anchor closes the sprint that ends the day before it.
    assert_eq!(
        planner::get_sprint_boundaries(date(2024, 12, 30), anchor, 2),
        (date(2024, 12, 23), date(2025, 1, 5))
    );
    assert_eq!(
        planner::get_sprint_boundaries(date(2024, 12, 23), anchor, 3),
        (date(2024, 12, 16), date(2025, 1, 5))
    );
}

#[test]
fn capacity_status_table() {
    assert_eq!(get_capacity_status(weeks(0.0), weeks(0.0)), BadgeType::Neutral);
    assert_eq!(get_capacity_status(weeks(5.0), weeks(0.0)), BadgeType::Warning);
    assert_eq!(get_capacity_status(weeks(10.0), weeks(10.0)), BadgeType::Success);
    assert_eq!(get_capacity_status(weeks(10.4), weeks(10.0)), BadgeType::Success);
    assert_eq!(get_capacity_status(weeks(10.6), weeks(10.0)), BadgeType::Warning);
    assert_eq!(get_capacity_status(weeks(12.5), weeks(10.0)), BadgeType::Warning);
    assert_eq!(get_capacity_status(weeks(12.6), weeks(10.0)), BadgeType::Error);
    assert_eq!(get_capacity_status(u64::MAX, 1), BadgeType::Error);
}

#[test]
fn split_allocation_sums_to_a_full_week() {
    let p1 = Id::new_v4();
    let p2 = Id::new_v4();
    let mut alloc = Allocation::new(Id::new_v4(), date(2025, 1, 6));
    alloc.assignments.push(Assignment::new(p1, 60));
    alloc.assignments.push(Assignment::new(p2, 40));
    assert_eq!(alloc.total_percentage(), 100);
    assert!(alloc.is_valid());
    assert_eq!(alloc.project_percentage(p1), 60);
    assert!(alloc.has_project(p2));

    let mut partial = Allocation::new(Id::new_v4(), date(2025, 1, 6));
    partial.assignments.push(Assignment::new(p1, 60));
    assert!(!partial.is_valid());

    let mut zeros = Allocation::new(Id::new_v4(), date(2025, 1, 6));
    zeros.assignments.push(Assignment::new(p1, 0));
    assert!(!zeros.is_valid());
    assert!(!zeros.is_full());
}

#[test]
fn project_dates_follow_first_and_last_week() {
    let start = date(2025, 1, 1);
    let mut state = PlanState::new("Q1 2025".to_string(), start, 13);
    let project = technical("API", None, start);
    let pid = project.id;
    state.technical_projects.push(project);
    let member = Id::new_v4();
    state.allocations.push(full_week(member, date(2025, 1, 27), pid));
    state.allocations.push(full_week(member, date(2025, 1, 13), pid));
    let modified = state.metadata.modified_at;

    state.update_technical_project_dates(&pid, date(2025, 1, 6), 2);
    let p = state.get_technical_project(&pid).unwrap();
    assert_eq!(p.start_date, date(2025, 1, 6));
    assert_eq!(p.expected_completion, Some(date(2025, 2, 2)));
    assert!(state.metadata.modified_at >= modified);
    assert_eq!(
        state.get_project_allocation_date_range(&pid),
        Some((date(2025, 1, 13), date(2025, 1, 27)))
    );
    assert_eq!(state.get_project_allocation_date_range(&Id::new_v4()), None);
}

#[test]
fn unknown_project_dates_leave_the_plan_alone() {
    let start = date(2025, 1, 6);
    let mut state = PlanState::new("Q1 2025".to_string(), start, 13);
    let member = Id::new_v4();
    let ghost_project = Id::new_v4();
    state.allocations.push(full_week(member, start, ghost_project));
    let before = state.clone();
    state.update_technical_project_dates(&ghost_project, start, 2);
    assert_eq!(state, before);
}

#[test]
fn project_weeks_add_partial_assignments() {
    let start = date(2025, 1, 6);
    let mut state = PlanState::new("Q1 2025".to_string(), start, 13);
    let pid = Id::new_v4();
    let other = Id::new_v4();
    let member = Id::new_v4();
    state.allocations.push(full_week(member, date(2025, 1, 6), pid));
    state.allocations.push(full_week(member, date(2025, 1, 13), pid));
    let mut split = Allocation::new(member, date(2025, 1, 20));
    split.assignments.push(Assignment::new(pid, 50));
    split.assignments.push(Assignment::new(other, 50));
    state.allocations.push(split);
    assert_eq!(state.calculate_project_allocated_weeks(&pid), 250);
    assert_eq!(state.calculate_project_allocated_weeks(&Id::new_v4()), 0);
}

#[test]
fn assigned_members_are_sorted_and_distinct() {
    let start = date(2025, 1, 6);
    let mut state = PlanState::new("Q".to_string(), start, 13);
    let pid = Id::new_v4();
    let low = Id::from_u128(5);
    let high = Id::from_u128(9);
    state.allocations.push(full_week(high, date(2025, 1, 6), pid));
    state.allocations.push(full_week(low, date(2025, 1, 6), pid));
    state.allocations.push(full_week(high, date(2025, 1, 13), pid));
    assert_eq!(state.get_assigned_team_members(&pid), vec![low, high]);
    assert!(state.get_assigned_team_members(&Id::new_v4()).is_empty());
}

#[test]
fn member_project_names_are_distinct() {
    let start = date(2025, 1, 6);
    let mut state = PlanState::new("Q".to_string(), start, 13);
    let a = technical("Alpha", None, start);
    let b = technical("Beta", None, start);
    let (aid, bid) = (a.id, b.id);
    state.technical_projects.push(a);
    state.technical_projects.push(b);
    let member = Id::new_v4();
    state.allocations.push(full_week(member, date(2025, 1, 6), aid));
    state.allocations.push(full_week(member, date(2025, 1, 13), aid));
    let mut split = Allocation::new(member, date(2025, 1, 20));
    split.assignments.push(Assignment::new(bid, 50));
    split.assignments.push(Assignment::new(Id::new_v4(), 50));
    state.allocations.push(split);
    state.allocations.push(full_week(Id::new_v4(), date(2025, 1, 6), bid));

    let names = state.get_assigned_project_names_for_member(&member);
    assert_eq!(names, vec!["Alpha".to_string(), "Beta".to_string()]);
    assert!(state.get_assigned_project_names_for_member(&Id::new_v4()).is_empty());
}

#[test]
fn role_split_over_roadmap_projects() {
    let start = date(2025, 1, 6);
    let mut state = PlanState::new("Q".to_string(), start, 13);
    let roadmap_id = Id::new_v4();
    let t1 = technical("One", Some(roadmap_id), start);
    let t2 = technical("Two", Some(roadmap_id), start);
    let t3 = technical("Three", None, start);
    let (i1, i2, i3) = (t1.id, t2.id, t3.id);
    state.technical_projects.push(t1);
    state.technical_projects.push(t2);
    state.technical_projects.push(t3);
    let eng = TeamMember::new("E".to_string(), Role::Engineering, 1200);
    let sci = TeamMember::new("S".to_string(), Role::Science, 1200);
    let (eid, sid) = (eng.id, sci.id);
    state.allocations.push(full_week(eid, date(2025, 1, 6), i1));
    let mut split = Allocation::new(sid, date(2025, 1, 6));
    split.assignments.push(Assignment::new(i2, 30));
    split.assignments.push(Assignment::new(i3, 70));
    state.allocations.push(split);
    state.allocations.push(full_week(Id::new_v4(), date(2025, 1, 13), i1));
    let team = vec![eng.clone(), sci.clone()];
    let lookup = |id: &Id| team.iter().find(|m| &m.id == id).map(|m| m.role);
    assert_eq!(state.calculate_roadmap_allocated_weeks(&roadmap_id, lookup), (100, 30, 130));

    let plan = Plan {
        version: "1.0".to_string(),
        quarter: "Q".to_string(),
        quarter_start_date: start,
        weeks_in_quarter: 13,
        sprint_length_weeks: 2,
        sprint_anchor_date: start,
        team_name: "T".to_string(),
        team_members: vec![eng, sci],
        roadmap_projects: vec![],
        technical_projects: state.technical_projects.clone(),
        allocations: state.allocations.clone(),
    };
    assert_eq!(plan.calculate_roadmap_allocated_weeks(&roadmap_id), (100, 30, 130));
    assert_eq!(plan.get_team_member_allocations(&sid).len(), 1);
    assert_eq!(plan.calculate_total_allocated(), (100, 100, 200));
}

#[test]
fn painting_cells() {
    let start = date(2025, 1, 6);
    let mut state = PlanState::new("Q".to_string(), start, 13);
    let a = technical("Alpha", None, start);
    let b = technical("Beta", None, start);
    let (aid, bid) = (a.id, b.id);
    state.technical_projects.push(a);
    state.technical_projects.push(b);
    let member = Id::new_v4();
    let anchor = date(2025, 1, 6);

    assert!(state.allocate_project_to_cell(&SelectedProject::Technical(aid), member, date(2025, 1, 20), anchor, 2));
    assert_eq!(state.allocations.len(), 1);
    let pa = state.get_technical_project(&aid).unwrap();
    assert_eq!(pa.start_date, date(2025, 1, 20));
    assert_eq!(pa.expected_completion, Some(date(2025, 2, 2)));

    // Repainting the cell moves it to the other project.
    assert!(state.allocate_project_to_cell(&SelectedProject::Technical(bid), member, date(2025, 1, 20), anchor, 2));
    assert_eq!(state.allocations.len(), 1);
    assert_eq!(state.get_allocation(member, date(2025, 1, 20)).unwrap().assignments[0].technical_project_id, bid);
    assert_eq!(state.get_technical_project(&bid).unwrap().start_date, date(2025, 1, 20));

    // A project that does not exist is refused and nothing changes.
    let before = state.clone();
    assert!(!state.allocate_project_to_cell(&SelectedProject::Technical(Id::new_v4()), member, date(2025, 1, 20), anchor, 2));
    assert_eq!(state, before);

    // Clearing removes the cell.
    assert!(state.allocate_project_to_cell(&SelectedProject::Nothing, member, date(2025, 1, 20), anchor, 2));
    assert!(state.allocations.is_empty());
    assert!(state.get_allocation(member, date(2025, 1, 20)).is_none());
}

#[test]
fn replacing_a_cell() {
    let start = date(2025, 1, 6);
    let mut state = PlanState::new("Q".to_string(), start, 13);
    let member = Id::new_v4();
    let other = Id::new_v4();
    let p = Id::new_v4();
    state.allocations.push(full_week(other, start, p));
    state.allocations.push(full_week(member, start, p));
    state.replace_cell(member, start, vec![Assignment::new(p, 60), Assignment::new(Id::new_v4(), 40)]);
    assert_eq!(state.allocations.len(), 2);
    assert_eq!(state.allocations[0].team_member_id, other);
    assert_eq!(state.allocations[1].assignments.len(), 2);
    state.replace_cell(member, start, vec![]);
    assert_eq!(state.allocations.len(), 1);
}

#[test]
fn export_rejects_dangling_member() {
    let member = TeamMember::new("Alice".to_string(), Role::Engineering, 1200);
    let mut prefs = Preferences::new("Team".to_string());
    prefs.team_members.push(member.clone());
    let start = date(2025, 1, 6);
    let mut state = PlanState::new("Q1 2025".to_string(), start, 13);
    let project = technical("API", None, start);
    let pid = project.id;
    state.technical_projects.push(project);
    state.allocations.push(full_week(member.id, start, pid));
    let stranger = Id::new_v4();
    state.allocations.push(full_week(stranger, start, pid));
    let export = PlanExport::from_signals(prefs, state);
    assert_eq!(export.validate(), Err(ExportValidationError::InvalidTeamMemberReference(stranger)));
}

#[test]
fn export_validation_errors_in_order() {
    let member = TeamMember::new("Alice".to_string(), Role::Engineering, 1200);
    let mut prefs = Preferences::new("Team".to_string());
    prefs.team_members.push(member.clone());
    let start = date(2025, 1, 6);
    let state = PlanState::new("Q1 2025".to_string(), start, 13);
    let base = PlanExport::from_signals(prefs, state);
    assert_eq!(base.validate(), Ok(()));

    let mut e = base.clone();
    e.version = String::new();
    assert_eq!(e.validate(), Err(ExportValidationError::InvalidVersion));

    let mut e = base.clone();
    e.team_name = " \t ".to_string();
    assert_eq!(e.validate(), Err(ExportValidationError::EmptyTeamName));

    let mut e = base.clone();
    e.quarter_name = "  ".to_string();
    assert_eq!(e.validate(), Err(ExportValidationError::EmptyQuarterName));

    let mut e = base.clone();
    e.num_weeks = 0;
    assert_eq!(e.validate(), Err(ExportValidationError::InvalidNumWeeks));

    let missing = Id::new_v4();
    let mut e = base.clone();
    e.allocations.push(full_week(member.id, start, missing));
    assert_eq!(e.validate(), Err(ExportValidationError::InvalidTechnicalProjectReference(missing)));

    let roadmap = Id::new_v4();
    let mut e = base.clone();
    e.technical_projects.push(technical("API", Some(roadmap), start));
    assert_eq!(e.validate(), Err(ExportValidationError::InvalidRoadmapProjectReference(roadmap)));

    let mut e = base.clone();
    e.roadmap_projects.push(RoadmapProject::new("R".to_string(), 0, 0, start, start.add_weeks(4), ProjectColor::Teal));
    let rid = e.roadmap_projects[0].id;
    e.technical_projects.push(technical("API", Some(rid), start));
    assert_eq!(e.validate(), Ok(()));
}

#[test]
fn import_resets_sprint_settings() {
    let mut prefs = Preferences::new("Team".to_string());
    prefs.sprint_length_weeks = 3;
    prefs.sprint_anchor_date = date(2025, 3, 3);
    prefs.team_members.push(TeamMember::new("A".to_string(), Role::Science, 600));
    let state = PlanState::new("Q2 2025".to_string(), date(2025, 4, 7), 12);
    let (p2, s2) = PlanExport::from_signals(prefs.clone(), state.clone()).into_signals();
    assert_eq!(p2.team_members, prefs.team_members);
    assert_eq!(p2.sprint_length_weeks, 2);
    assert_eq!(p2.sprint_anchor_date, date(2024, 1, 1));
    assert_eq!(s2, state);
}

#[test]
fn plan_validation_reports_each_problem() {
    let start = date(2025, 1, 6);
    let member = TeamMember::new("Alice".to_string(), Role::Engineering, 100);
    let project = TechnicalProject::new("Later".to_string(), None, 100, 0, date(2025, 1, 20));
    let mut partial = Allocation::new(member.id, start);
    partial.assignments.push(Assignment::new(project.id, 60));
    let plan = Plan {
        version: "1.0".to_string(),
        quarter: "Q".to_string(),
        quarter_start_date: start,
        weeks_in_quarter: 13,
        sprint_length_weeks: 2,
        sprint_anchor_date: start,
        team_name: "T".to_string(),
        team_members: vec![member.clone()],
        roadmap_projects: vec![],
        technical_projects: vec![project.clone()],
        allocations: vec![partial, full_week(member.id, date(2025, 1, 13), project.id)],
    };
    let errors = validate_plan(&plan);
    assert_eq!(
        errors,
        vec![
            ValidationError::InvalidAllocationPercentage { engineer_id: member.id, week_start: start, total: 60 },
            ValidationError::OverAllocated { engineer_name: "Alice".to_string(), capacity: 100, allocated: 160 },
            ValidationError::BeforeStartDate {
                engineer_name: "Alice".to_string(),
                project_name: "Later".to_string(),
                week_start: start,
                project_start: date(2025, 1, 20),
            },
            ValidationError::BeforeStartDate {
                engineer_name: "Alice".to_string(),
                project_name: "Later".to_string(),
                week_start: date(2025, 1, 13),
                project_start: date(2025, 1, 20),
            },
        ]
    );
}

#[test]
fn sample_plan_is_consistent() {
    let (prefs, state) = create_sample_plan();
    assert_eq!(prefs.team_members.len(), 4);
    assert_eq!(state.technical_projects.len(), 5);
    assert_eq!(state.allocations.len(), 15);
    assert_eq!(state.quarter_start_date, date(2025, 1, 1));
    assert!(prefs.validate().is_ok());
    assert!(state.allocations.iter().all(|a| a.is_valid()));
    assert_eq!(PlanExport::from_signals(prefs, state).validate(), Ok(()));
}

#[test]
fn capacity_metrics_and_classes() {
    let (prefs, state) = create_sample_plan();
    let (capacity, allocated, class) = calculate_capacity_metrics(&state, &prefs);
    assert_eq!(capacity, 4200);
    assert_eq!(allocated, 1400);
    assert_eq!(class, "capacity-bar-fill warning");
    let empty = PlanState::new("Q".to_string(), date(2025, 1, 6), 13);
    assert_eq!(calculate_capacity_metrics(&empty, &prefs).2, "capacity-bar-fill");
    assert_eq!(calculate_cell_class(true, true, true), "grid-cell-error");
    assert_eq!(calculate_cell_class(false, true, true), "grid-cell-success");
    assert_eq!(calculate_cell_class(false, false, true), "grid-cell-drag-target");
    assert_eq!(calculate_cell_class(false, false, false), "");
}

#[test]
fn blank_text() {
    assert!(is_blank_text(""));
    assert!(is_blank_text(" \n\t"));
    assert!(!is_blank_text("  x "));
}
