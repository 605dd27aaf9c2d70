//! Planning engine for quarterly resource plans: calendar and sprint math,
//! allocation bookkeeping, capacity classification, project date propagation
//! and the export envelope with its integrity checks.
//!
//! Amounts of work are whole hundredths of a week; a percentage of a week is
//! therefore the same number of hundredths. Dates are day numbers of the
//! proleptic Gregorian calendar.

mod calendar;
mod date;
mod display;
mod ids;
mod ledger;
mod model;
mod plan;
mod plan_export;
mod plan_state;
mod preferences;
mod sample;
mod status;
mod sums;
mod text;
mod validation;

pub use calendar::{
    find_first_monday, first_quarter_from, first_start_from, pick_next_quarter, generate_quarter_weeks, get_next_quarter_info,
    get_quarter_start_date, get_sprint_boundaries, get_week_start, is_date_in_week,
    is_quarter_weeks, lemma_quarter_start_month, lemma_quarter_weeks_ordered, quarter_name_text,
    quarter_start_day, quarter_start_month, quarter_week_at, sprint_end_day, sprint_in_range,
    sprint_start_day, with_wednesday_mark, QuarterWeek,
};
pub use date::{
    civil_day_number, day_in_range, day_of_month_of_day, days_in_month, is_leap_year,
    month_day_text, month_of_day, valid_ymd, weekday_of_day, year_of_day, Date, MAX_DAY, MAX_YEAR,
    MIN_DAY, MIN_YEAR,
};
pub use display::{calculate_capacity_metrics, calculate_cell_class, capacity_bar_class};
pub use ids::Id;
pub use model::{
    assignment_percent, assignments_total, color_css_var, color_hex, mentions_project,
    project_percent, project_total, Allocation, Assignment, ProjectColor, RoadmapProject, Role,
    TeamMember, TechnicalProject,
};
pub use plan::{
    any_allocated, any_capacity, default_sprint_anchor, is_first_member, member_is, member_role,
    role_allocated, role_capacity, Plan,
};
pub use plan_export::{
    export_validation, first_unknown_member, first_unknown_project, first_unknown_project_in,
    first_unknown_roadmap, is_export_of, is_import_of, knows_member, lemma_export_round_trip,
    lemma_unknown_member_rejected, ExportValidationError, PlanExport,
};
pub use plan_state::{
    allocation_member_percent, allocation_mentions, allocation_project_percent, at_cell,
    cell_held, cell_held_before, dates_follow, painting_touches, same_identity, selected_id, cell_replaced, cells_unique, default_quarter, distinct_texts, has_roadmap, has_technical, is_earliest_week,
    is_first_roadmap, is_first_technical, is_latest_week, is_role_lookup, linked_allocated,
    linked_role_allocated, lists_text, looked_up_role, member_allocated, member_project_name,
    member_works_on, named_before, other_cell, project_allocated, project_allocated_in_role,
    project_has_allocations, project_weeks_in_range, role_project_percent, same_but_modified_time,
    strictly_sorted, weeks_in_sprint_range, with_sprint_dates, PlanMetadata, PlanState,
    SelectedProject,
};
pub use preferences::{
    default_anchor_day, default_schema_version, default_sprint_length, default_team_name,
    preferences_validation, Preferences, PreferencesValidationError, DEFAULT_CAPACITY,
    DEFAULT_SPRINT_LENGTH_WEEKS, PREFERENCES_SCHEMA_VERSION,
};
pub use sample::{
    create_sample_plan, lemma_resolved_references_pass, references_resolve, sample_facts,
    weeks_fully_assigned,
};
pub use status::{abs_diff, capacity_status, get_capacity_status, BadgeType};
pub use sums::{
    lemma_sum_of_item_bound, lemma_sum_of_le, lemma_sum_of_nonneg,
    lemma_sum_of_prefix_bound, lemma_sum_of_take_step, sum_of,
};
pub use text::{decimal_text, digit_char, digits_text, is_blank, is_blank_text, is_white_space};
pub use validation::{
    capacity_errors, early_errors_in, early_start_error, early_start_errors, first_member,
    first_technical, percentage_errors, plan_errors, starts_too_early, sum_of_allocated_fits,
    validate_plan, ValidationError,
};
