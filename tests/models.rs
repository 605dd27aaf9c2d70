use planner::{
    get_capacity_status, Allocation, Assignment, BadgeType, Date, Id, Plan, Role, TeamMember,
};

/// Hundredths of a week (or of a percent) for an amount written in weeks.
fn weeks(x: f32) -> u64 {
    (x * 100.0).round() as u64
}

fn date(y: i32, m: u32, d: u32) -> Date {
    Date::from_ymd_opt(y, m, d).unwrap()
}

#[test]
fn test_allocation_new() {
    let member_id = Id::new_v4();
    let week = date(2025, 1, 6);
    let alloc = Allocation::new(member_id, week);

    assert_eq!(alloc.team_member_id, member_id);
    assert_eq!(alloc.week_start_date, week);
    assert!(alloc.assignments.is_empty());
}

#[test]
fn test_allocation_is_empty() {
    let member_id = Id::new_v4();
    let week = date(2025, 1, 6);

    let empty_alloc = Allocation::new(member_id, week);
    assert!(empty_alloc.is_empty());

    let mut full_alloc = Allocation::new(member_id, week);
    full_alloc.assignments.push(Assignment::new(Id::new_v4(), 100));
    assert!(!full_alloc.is_empty());
}

#[test]
fn test_allocation_total_percentage() {
    let member_id = Id::new_v4();
    let week = date(2025, 1, 6);

    let empty_alloc = Allocation::new(member_id, week);
    assert_eq!(empty_alloc.total_percentage(), 0);

    let mut full_alloc = Allocation::new(member_id, week);
    full_alloc.assignments.push(Assignment::new(Id::new_v4(), 100));
    assert_eq!(full_alloc.total_percentage(), 100);

    let mut split_alloc = Allocation::new(member_id, week);
    split_alloc.assignments.push(Assignment::new(Id::new_v4(), 50));
    split_alloc.assignments.push(Assignment::new(Id::new_v4(), 50));
    assert_eq!(split_alloc.total_percentage(), 100);

    let mut partial_alloc = Allocation::new(member_id, week);
    partial_alloc.assignments.push(Assignment::new(Id::new_v4(), 60));
    assert_eq!(partial_alloc.total_percentage(), 60);
}

#[test]
fn test_allocation_is_full() {
    let member_id = Id::new_v4();
    let week = date(2025, 1, 6);

    let empty_alloc = Allocation::new(member_id, week);
    assert!(!empty_alloc.is_full());

    let mut full_alloc = Allocation::new(member_id, week);
    full_alloc.assignments.push(Assignment::new(Id::new_v4(), 100));
    assert!(full_alloc.is_full());

    let mut split_alloc = Allocation::new(member_id, week);
    split_alloc.assignments.push(Assignment::new(Id::new_v4(), 50));
    split_alloc.assignments.push(Assignment::new(Id::new_v4(), 50));
    assert!(split_alloc.is_full());

    let mut partial_alloc = Allocation::new(member_id, week);
    partial_alloc.assignments.push(Assignment::new(Id::new_v4(), 60));
    assert!(!partial_alloc.is_full());
}

#[test]
fn test_allocation_is_valid() {
    let member_id = Id::new_v4();
    let week = date(2025, 1, 6);

    let empty_alloc = Allocation::new(member_id, week);
    assert!(empty_alloc.is_valid());

    let mut full_alloc = Allocation::new(member_id, week);
    full_alloc.assignments.push(Assignment::new(Id::new_v4(), 100));
    assert!(full_alloc.is_valid());

    let mut partial_alloc = Allocation::new(member_id, week);
    partial_alloc.assignments.push(Assignment::new(Id::new_v4(), 60));
    assert!(!partial_alloc.is_valid());
}

#[test]
fn test_capacity_status_neutral() {
    assert_eq!(get_capacity_status(weeks(0.0), weeks(0.0)), BadgeType::Neutral);
}

#[test]
fn test_capacity_status_warning_no_estimate() {
    assert_eq!(get_capacity_status(weeks(5.0), weeks(0.0)), BadgeType::Warning);
    assert_eq!(get_capacity_status(weeks(0.1), weeks(0.0)), BadgeType::Warning);
}

#[test]
fn test_capacity_status_success() {
    assert_eq!(get_capacity_status(weeks(10.0), weeks(10.0)), BadgeType::Success);
    assert_eq!(get_capacity_status(weeks(10.5), weeks(10.0)), BadgeType::Success);
    assert_eq!(get_capacity_status(weeks(9.5), weeks(10.0)), BadgeType::Success);
    assert_eq!(get_capacity_status(weeks(10.4), weeks(10.0)), BadgeType::Success);
}

#[test]
fn test_capacity_status_warning() {
    assert_eq!(get_capacity_status(weeks(10.6), weeks(10.0)), BadgeType::Warning);
    assert_eq!(get_capacity_status(weeks(9.4), weeks(10.0)), BadgeType::Warning);
    assert_eq!(get_capacity_status(weeks(12.5), weeks(10.0)), BadgeType::Warning);
    assert_eq!(get_capacity_status(weeks(7.5), weeks(10.0)), BadgeType::Warning);
}

#[test]
fn test_capacity_status_error() {
    assert_eq!(get_capacity_status(weeks(12.6), weeks(10.0)), BadgeType::Error);
    assert_eq!(get_capacity_status(weeks(7.4), weeks(10.0)), BadgeType::Error);
    assert_eq!(get_capacity_status(weeks(20.0), weeks(10.0)), BadgeType::Error);
    assert_eq!(get_capacity_status(weeks(1.0), weeks(10.0)), BadgeType::Error);
}

fn create_test_plan() -> Plan {
    let eng1 = TeamMember {
        id: Id::new_v4(),
        name: "Engineer 1".to_string(),
        role: Role::Engineering,
        capacity: weeks(10.0) as u32,
    };
    let eng2 = TeamMember {
        id: Id::new_v4(),
        name: "Engineer 2".to_string(),
        role: Role::Engineering,
        capacity: weeks(8.0) as u32,
    };
    let sci1 = TeamMember {
        id: Id::new_v4(),
        name: "Scientist 1".to_string(),
        role: Role::Science,
        capacity: weeks(6.0) as u32,
    };

    Plan {
        version: "1.0".to_string(),
        quarter: "Q1 2025".to_string(),
        quarter_start_date: date(2025, 1, 6),
        weeks_in_quarter: 13,
        sprint_length_weeks: 2,
        sprint_anchor_date: date(2025, 1, 6),
        team_name: "Test Team".to_string(),
        team_members: vec![eng1, eng2, sci1],
        roadmap_projects: vec![],
        technical_projects: vec![],
        allocations: vec![],
    }
}

#[test]
fn test_calculate_total_capacity() {
    let plan = create_test_plan();

    let (eng_cap, sci_cap, total_cap) = plan.calculate_total_capacity();

    assert_eq!(eng_cap, weeks(18.0));
    assert_eq!(sci_cap, weeks(6.0));
    assert_eq!(total_cap, weeks(24.0));
}

#[test]
fn test_calculate_total_capacity_empty_team() {
    let mut plan = create_test_plan();
    plan.team_members.clear();

    let (eng_cap, sci_cap, total_cap) = plan.calculate_total_capacity();

    assert_eq!(eng_cap, weeks(0.0));
    assert_eq!(sci_cap, weeks(0.0));
    assert_eq!(total_cap, weeks(0.0));
}

#[test]
fn test_calculate_total_allocated_no_allocations() {
    let plan = create_test_plan();

    let (eng_alloc, sci_alloc, total_alloc) = plan.calculate_total_allocated();

    assert_eq!(eng_alloc, weeks(0.0));
    assert_eq!(sci_alloc, weeks(0.0));
    assert_eq!(total_alloc, weeks(0.0));
}

#[test]
fn test_calculate_total_allocated_with_allocations() {
    let mut plan = create_test_plan();
    let eng1_id = plan.team_members[0].id;
    let sci1_id = plan.team_members[2].id;
    let project_id = Id::new_v4();

    let week1 = date(2025, 1, 6);
    let week2 = date(2025, 1, 13);

    let mut alloc1 = Allocation::new(eng1_id, week1);
    alloc1.assignments.push(Assignment::new(project_id, 100));
    plan.allocations.push(alloc1);

    let mut alloc2 = Allocation::new(eng1_id, week2);
    alloc2.assignments.push(Assignment::new(project_id, 100));
    plan.allocations.push(alloc2);

    let mut alloc3 = Allocation::new(sci1_id, week1);
    alloc3.assignments.push(Assignment::new(project_id, 50));
    plan.allocations.push(alloc3);

    let (eng_alloc, sci_alloc, total_alloc) = plan.calculate_total_allocated();

    assert_eq!(eng_alloc, weeks(2.0));
    assert_eq!(sci_alloc, weeks(0.5));
    assert_eq!(total_alloc, weeks(2.5));
}

#[test]
fn test_calculate_allocated_weeks_for_member() {
    let mut plan = create_test_plan();
    let eng1_id = plan.team_members[0].id;
    let eng2_id = plan.team_members[1].id;
    let project_id = Id::new_v4();

    for i in 0..3 {
        let week = date(2025, 1, 6 + i * 7);
        let mut alloc = Allocation::new(eng1_id, week);
        alloc.assignments.push(Assignment::new(project_id, 100));
        plan.allocations.push(alloc);
    }

    let week = date(2025, 1, 6);
    let mut alloc = Allocation::new(eng2_id, week);
    alloc.assignments.push(Assignment::new(project_id, 50));
    plan.allocations.push(alloc);

    assert_eq!(plan.calculate_allocated_weeks(&eng1_id), weeks(3.0));
    assert_eq!(plan.calculate_allocated_weeks(&eng2_id), weeks(0.5));
}

#[test]
fn plan_test_calculate_project_allocated_weeks() {
    let mut plan = create_test_plan();
    let eng1_id = plan.team_members[0].id;
    let project1_id = Id::new_v4();
    let project2_id = Id::new_v4();

    for i in 0..2 {
        let week = date(2025, 1, 6 + i * 7);
        let mut alloc = Allocation::new(eng1_id, week);
        alloc.assignments.push(Assignment::new(project1_id, 100));
        plan.allocations.push(alloc);
    }

    let week = date(2025, 1, 20);
    let mut alloc = Allocation::new(eng1_id, week);
    alloc.assignments.push(Assignment::new(project1_id, 50));
    alloc.assignments.push(Assignment::new(project2_id, 50));
    plan.allocations.push(alloc);

    assert_eq!(plan.calculate_project_allocated_weeks(&project1_id), weeks(2.5));
    assert_eq!(plan.calculate_project_allocated_weeks(&project2_id), weeks(0.5));
}
