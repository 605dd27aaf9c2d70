use planner::{
    Allocation, Assignment, Date, Id, PlanMetadata, PlanState, ProjectColor, RoadmapProject, Role,
    TeamMember, TechnicalProject,
};

fn weeks(x: f32) -> u64 {
    (x * 100.0).round() as u64
}

fn date(y: i32, m: u32, d: u32) -> Date {
    Date::from_ymd_opt(y, m, d).unwrap()
}

#[test]
fn plan_state_test_plan_state_creation() {
    let quarter_start = date(2025, 1, 6);
    let state = PlanState::new("Q1 2025".to_string(), quarter_start, 13);

    assert_eq!(state.quarter_name, "Q1 2025");
    assert_eq!(state.quarter_start_date, quarter_start);
    assert_eq!(state.num_weeks, 13);
    assert_eq!(state.roadmap_projects.len(), 0);
    assert_eq!(state.technical_projects.len(), 0);
    assert_eq!(state.allocations.len(), 0);
    assert_eq!(state.metadata.version, "1.0");
}

#[test]
fn plan_state_test_metadata_mark_modified() {
    let mut metadata = PlanMetadata::new();
    let created = metadata.created_at;
    let modified = metadata.modified_at;

    assert_eq!(created, modified);

    // Stamp again until the clock has moved on.
    let mut tries = 0;
    metadata.mark_modified();
    while metadata.modified_at == modified && tries < 10_000_000 {
        metadata.mark_modified();
        tries += 1;
    }

    assert_eq!(metadata.created_at, created);
    assert!(metadata.modified_at > modified);
}

fn create_test_state() -> (PlanState, Id, Id, Id, Id) {
    let quarter_start = date(2025, 1, 6);
    let mut state = PlanState::new("Q1 2025".to_string(), quarter_start, 13);

    let roadmap_id = Id::new_v4();
    state.roadmap_projects.push(RoadmapProject {
        id: roadmap_id,
        name: "Feature A".to_string(),
        eng_estimate: weeks(4.0) as u32,
        sci_estimate: weeks(2.0) as u32,
        start_date: quarter_start,
        launch_date: quarter_start.add_weeks(8),
        color: ProjectColor::Blue,
        notes: None,
    });

    let tech1_id = Id::new_v4();
    let tech2_id = Id::new_v4();
    state.technical_projects.push(TechnicalProject {
        id: tech1_id,
        name: "API Work".to_string(),
        roadmap_project_id: Some(roadmap_id),
        eng_estimate: weeks(3.0) as u32,
        sci_estimate: weeks(0.0) as u32,
        start_date: quarter_start,
        expected_completion: None,
        notes: None,
    });
    state.technical_projects.push(TechnicalProject {
        id: tech2_id,
        name: "ML Model".to_string(),
        roadmap_project_id: Some(roadmap_id),
        eng_estimate: weeks(0.0) as u32,
        sci_estimate: weeks(2.0) as u32,
        start_date: quarter_start,
        expected_completion: None,
        notes: None,
    });

    (state, roadmap_id, tech1_id, tech2_id, Id::new_v4())
}

#[test]
fn test_get_roadmap_project() {
    let (state, roadmap_id, _, _, _) = create_test_state();

    let project = state.get_roadmap_project(&roadmap_id);
    assert!(project.is_some());
    assert_eq!(project.unwrap().name, "Feature A");

    let nonexistent = state.get_roadmap_project(&Id::new_v4());
    assert!(nonexistent.is_none());
}

#[test]
fn test_get_technical_project() {
    let (state, _, tech1_id, _, _) = create_test_state();

    let project = state.get_technical_project(&tech1_id);
    assert!(project.is_some());
    assert_eq!(project.unwrap().name, "API Work");

    let nonexistent = state.get_technical_project(&Id::new_v4());
    assert!(nonexistent.is_none());
}

#[test]
fn plan_state_test_calculate_project_allocated_weeks() {
    let (mut state, _, tech1_id, tech2_id, _) = create_test_state();
    let member_id = Id::new_v4();

    let week1 = date(2025, 1, 6);
    let week2 = date(2025, 1, 13);
    let week3 = date(2025, 1, 20);

    let mut alloc1 = Allocation::new(member_id, week1);
    alloc1.assignments.push(Assignment::new(tech1_id, 100));
    state.allocations.push(alloc1);

    let mut alloc2 = Allocation::new(member_id, week2);
    alloc2.assignments.push(Assignment::new(tech1_id, 100));
    state.allocations.push(alloc2);

    let mut alloc3 = Allocation::new(member_id, week3);
    alloc3.assignments.push(Assignment::new(tech1_id, 50));
    alloc3.assignments.push(Assignment::new(tech2_id, 50));
    state.allocations.push(alloc3);

    assert_eq!(state.calculate_project_allocated_weeks(&tech1_id), weeks(2.5));
    assert_eq!(state.calculate_project_allocated_weeks(&tech2_id), weeks(0.5));
}

#[test]
fn test_calculate_team_member_allocated_weeks() {
    let (mut state, _, tech1_id, _, _) = create_test_state();
    let member1_id = Id::new_v4();
    let member2_id = Id::new_v4();

    for i in 0..3 {
        let week = date(2025, 1, 6 + i * 7);
        let mut alloc = Allocation::new(member1_id, week);
        alloc.assignments.push(Assignment::new(tech1_id, 100));
        state.allocations.push(alloc);
    }

    for i in 0..2 {
        let week = date(2025, 1, 6 + i * 7);
        let mut alloc = Allocation::new(member2_id, week);
        alloc.assignments.push(Assignment::new(tech1_id, 50));
        state.allocations.push(alloc);
    }

    assert_eq!(state.calculate_team_member_allocated_weeks(&member1_id), weeks(3.0));
    assert_eq!(state.calculate_team_member_allocated_weeks(&member2_id), weeks(1.0));
}

#[test]
fn test_update_technical_project_dates() {
    let (mut state, _, tech1_id, _, _) = create_test_state();
    let member_id = Id::new_v4();
    let sprint_anchor = date(2025, 1, 6);

    let week2 = date(2025, 1, 13);
    let week4 = date(2025, 1, 27);

    let mut alloc1 = Allocation::new(member_id, week2);
    alloc1.assignments.push(Assignment::new(tech1_id, 100));
    state.allocations.push(alloc1);

    let mut alloc2 = Allocation::new(member_id, week4);
    alloc2.assignments.push(Assignment::new(tech1_id, 100));
    state.allocations.push(alloc2);

    state.update_technical_project_dates(&tech1_id, sprint_anchor, 2);

    let project = state.get_technical_project(&tech1_id).unwrap();

    assert_eq!(project.start_date, date(2025, 1, 6));
    assert_eq!(project.expected_completion, Some(date(2025, 2, 2)));
}

#[test]
fn test_update_technical_project_dates_no_allocations() {
    let (mut state, _, tech1_id, _, _) = create_test_state();
    let original_start = state.get_technical_project(&tech1_id).unwrap().start_date;
    let sprint_anchor = date(2025, 1, 6);

    state.update_technical_project_dates(&tech1_id, sprint_anchor, 2);

    let project = state.get_technical_project(&tech1_id).unwrap();
    assert_eq!(project.start_date, original_start);
    assert_eq!(project.expected_completion, None);
}

#[test]
fn test_get_assigned_team_members() {
    let (mut state, _, tech1_id, tech2_id, _) = create_test_state();
    let member1_id = Id::new_v4();
    let member2_id = Id::new_v4();

    let week = date(2025, 1, 6);

    let mut alloc1 = Allocation::new(member1_id, week);
    alloc1.assignments.push(Assignment::new(tech1_id, 100));
    state.allocations.push(alloc1);

    let mut alloc2 = Allocation::new(member2_id, week);
    alloc2.assignments.push(Assignment::new(tech1_id, 50));
    alloc2.assignments.push(Assignment::new(tech2_id, 50));
    state.allocations.push(alloc2);

    let tech1_members = state.get_assigned_team_members(&tech1_id);
    assert_eq!(tech1_members.len(), 2);
    assert!(tech1_members.contains(&member1_id));
    assert!(tech1_members.contains(&member2_id));

    let tech2_members = state.get_assigned_team_members(&tech2_id);
    assert_eq!(tech2_members.len(), 1);
    assert!(tech2_members.contains(&member2_id));
}

#[test]
fn test_calculate_technical_project_allocated_by_role() {
    let (mut state, _, tech1_id, _, _) = create_test_state();

    let eng_id = Id::new_v4();
    let sci_id = Id::new_v4();
    let team_members = vec![
        TeamMember {
            id: eng_id,
            name: "Engineer".to_string(),
            role: Role::Engineering,
            capacity: weeks(10.0) as u32,
        },
        TeamMember {
            id: sci_id,
            name: "Scientist".to_string(),
            role: Role::Science,
            capacity: weeks(8.0) as u32,
        },
    ];

    let week1 = date(2025, 1, 6);
    let week2 = date(2025, 1, 13);

    let mut alloc1 = Allocation::new(eng_id, week1);
    alloc1.assignments.push(Assignment::new(tech1_id, 100));
    state.allocations.push(alloc1);

    let mut alloc2 = Allocation::new(eng_id, week2);
    alloc2.assignments.push(Assignment::new(tech1_id, 100));
    state.allocations.push(alloc2);

    let mut alloc3 = Allocation::new(sci_id, week1);
    alloc3.assignments.push(Assignment::new(tech1_id, 50));
    state.allocations.push(alloc3);

    let get_role = |member_id: &Id| -> Option<Role> {
        team_members.iter().find(|m| &m.id == member_id).map(|m| m.role)
    };

    let (eng_alloc, sci_alloc, total) =
        state.calculate_technical_project_allocated_by_role(&tech1_id, get_role);

    assert_eq!(eng_alloc, weeks(2.0));
    assert_eq!(sci_alloc, weeks(0.5));
    assert_eq!(total, weeks(2.5));
}
