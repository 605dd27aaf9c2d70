use planner::{
    Date, ExportValidationError, PlanExport, PlanState, Preferences, PreferencesValidationError,
    Role, TeamMember,
};

fn date(y: i32, m: u32, d: u32) -> Date {
    Date::from_ymd_opt(y, m, d).unwrap()
}

fn create_sample_export() -> PlanExport {
    let prefs = Preferences {
        schema_version: "1.0".to_string(),
        team_name: "Backend Team".to_string(),
        team_members: vec![TeamMember::new("Alice Kim".to_string(), Role::Engineering, 1200)],
        sprint_anchor_date: date(2024, 1, 1),
        sprint_length_weeks: 2,
        default_capacity: 1200,
    };

    let quarter_start = date(2025, 1, 6);
    let state = PlanState::new("Q1 2025".to_string(), quarter_start, 13);

    PlanExport::from_signals(prefs, state)
}

#[test]
fn test_plan_export_creation() {
    let export = create_sample_export();

    assert_eq!(export.version, "1.0");
    assert_eq!(export.team_name, "Backend Team");
    assert_eq!(export.team_members.len(), 1);
    assert_eq!(export.quarter_name, "Q1 2025");
    assert_eq!(export.num_weeks, 13);
}

#[test]
fn test_export_validation_valid() {
    let export = create_sample_export();
    assert!(export.validate().is_ok());
}

#[test]
fn test_export_validation_empty_team_name() {
    let mut export = create_sample_export();
    export.team_name = "".to_string();
    assert_eq!(export.validate(), Err(ExportValidationError::EmptyTeamName));
}

#[test]
fn test_export_validation_no_team_members() {
    let mut export = create_sample_export();
    export.team_members.clear();
    assert_eq!(export.validate(), Err(ExportValidationError::NoTeamMembers));
}

#[test]
fn test_export_round_trip() {
    let original_prefs = Preferences::default();
    let quarter_start = date(2025, 1, 6);
    let original_state = PlanState::new("Q1 2025".to_string(), quarter_start, 13);

    let export = PlanExport::from_signals(original_prefs.clone(), original_state.clone());
    let (restored_prefs, restored_state) = export.into_signals();

    assert_eq!(original_prefs.team_name, restored_prefs.team_name);
    assert_eq!(original_prefs.team_members, restored_prefs.team_members);
    assert_eq!(original_state.quarter_name, restored_state.quarter_name);
    assert_eq!(original_state.quarter_start_date, restored_state.quarter_start_date);
}

#[test]
fn test_preferences_creation() {
    let prefs = Preferences::new("Backend Team".to_string());
    assert_eq!(prefs.schema_version, "1.0");
    assert_eq!(prefs.team_name, "Backend Team");
    assert_eq!(prefs.team_members.len(), 0);
    assert_eq!(prefs.sprint_length_weeks, 2);
    assert_eq!(prefs.default_capacity, 1200);
}

#[test]
fn test_preferences_default() {
    let prefs = Preferences::default();
    assert_eq!(prefs.schema_version, "1.0");
    assert_eq!(prefs.team_name, "My Team");
    assert!(prefs.validate().is_ok());
}

#[test]
fn test_validation_empty_team_name() {
    let prefs = Preferences {
        team_name: "".to_string(),
        ..Default::default()
    };
    assert_eq!(prefs.validate(), Err(PreferencesValidationError::EmptyTeamName));
}

#[test]
fn test_validation_invalid_sprint_length() {
    let prefs_zero_weeks = Preferences {
        sprint_length_weeks: 0,
        ..Default::default()
    };
    assert!(matches!(
        prefs_zero_weeks.validate(),
        Err(PreferencesValidationError::InvalidSprintLength(0))
    ));

    let prefs_too_long = Preferences {
        sprint_length_weeks: 5,
        ..Default::default()
    };
    assert!(matches!(
        prefs_too_long.validate(),
        Err(PreferencesValidationError::InvalidSprintLength(5))
    ));
}

#[test]
fn test_validation_invalid_capacity() {
    let prefs_zero_capacity = Preferences {
        default_capacity: 0,
        ..Default::default()
    };
    assert!(matches!(
        prefs_zero_capacity.validate(),
        Err(PreferencesValidationError::InvalidDefaultCapacity(_))
    ));

    let prefs_negative_capacity = Preferences {
        default_capacity: -100,
        ..Default::default()
    };
    assert!(matches!(
        prefs_negative_capacity.validate(),
        Err(PreferencesValidationError::InvalidDefaultCapacity(_))
    ));
}
