use crate::calendar::{first_quarter_from, get_next_quarter_info, quarter_start_day};
use crate::date::{year_of_day, Date, MAX_YEAR};
use crate::model::TeamMember;
use crate::text::{is_blank, is_blank_text};
use vstd::prelude::*;

verus! {

/// Schema version written into new preferences.
pub const PREFERENCES_SCHEMA_VERSION: &'static str = "1.0";

/// Sprint length of new preferences, in weeks.
pub const DEFAULT_SPRINT_LENGTH_WEEKS: usize = 2;

/// Capacity of new team members, in hundredths of a week.
pub const DEFAULT_CAPACITY: i32 = 1200;

/// Team name of default preferences.
pub fn default_team_name() -> (r: String)
    ensures
        r@ == "My Team"@,
{
    String::from_str("My Team")
}

/// Sprint length in weeks when none is recorded.
pub fn default_sprint_length() -> (r: usize)
    ensures
        r == 2,
{
    DEFAULT_SPRINT_LENGTH_WEEKS
}

/// Schema version when none is recorded.
pub fn default_schema_version() -> (r: String)
    ensures
        r@ == PREFERENCES_SCHEMA_VERSION@,
{
    String::from_str(PREFERENCES_SCHEMA_VERSION)
}

/// Team settings that outlive a quarter.
#[derive(Clone, Debug, PartialEq, Eq)]
pub struct Preferences {
    pub schema_version: String,
    pub team_name: String,
    pub team_members: Vec<TeamMember>,
    /// Day from which sprints are laid end to end.
    pub sprint_anchor_date: Date,
    pub sprint_length_weeks: usize,
    /// Capacity of new members, in hundredths of a week.
    pub default_capacity: i32,
}

/// Why preferences are refused.
#[derive(Clone, Copy, Debug, PartialEq, Eq, Structural)]
pub enum PreferencesValidationError {
    EmptyTeamName,
    InvalidSprintLength(usize),
    InvalidDefaultCapacity(i32),
}

/// Start of the quarter that new preferences anchor their sprints on when
/// created on day `today`: the next quarter to plan, or where none can be
/// written, the start of today's last quarter.
pub open spec fn default_anchor_day(today: int) -> int {
    let y = year_of_day(today);
    let q = first_quarter_from(y, today);
    if q != 0 {
        quarter_start_day(y, q)
    } else if y < MAX_YEAR {
        quarter_start_day(y + 1, 1)
    } else {
        quarter_start_day(y, 4)
    }
}

impl Preferences {
    /// Preferences for a team with no members yet, sprints of two weeks
    /// anchored on the start of the next quarter to plan from today.
    pub fn new(team_name: String) -> (r: Preferences)
        ensures
            r.team_name == team_name,
            r.schema_version@ == PREFERENCES_SCHEMA_VERSION@,
            r.team_members@.len() == 0,
            r.sprint_length_weeks == 2,
            r.default_capacity == DEFAULT_CAPACITY,
    {
        Preferences::new_as_of(team_name, Date::today())
    }

    /// As `new`, with `today` for the current date.
    pub fn new_as_of(team_name: String, today: Date) -> (r: Preferences)
        requires
            today.valid(),
        ensures
            r.team_name == team_name,
            r.schema_version@ == PREFERENCES_SCHEMA_VERSION@,
            r.team_members@.len() == 0,
            r.sprint_anchor_date@ == default_anchor_day(today@),
            r.sprint_length_weeks == 2,
            r.default_capacity == DEFAULT_CAPACITY,
    {
        let anchor = match get_next_quarter_info(today) {
            Some((_, _, start, _)) => start,
            None => {
                let year = today.year();
                match crate::calendar::get_quarter_start_date(year, 4) {
                    Some(start) => start,
                    None => today,
                }
            },
        };
        Preferences {
            schema_version: default_schema_version(),
            team_name,
            team_members: Vec::new(),
            sprint_anchor_date: anchor,
            sprint_length_weeks: DEFAULT_SPRINT_LENGTH_WEEKS,
            default_capacity: DEFAULT_CAPACITY,
        }
    }

    /// The team name is not blank, sprints last one to four weeks and the
    /// default capacity is positive; the first rule broken is reported.
    pub fn validate(&self) -> (r: Result<(), PreferencesValidationError>)
        ensures
            r == preferences_validation(*self),
    {
        if is_blank_text(self.team_name.as_str()) {
            return Err(PreferencesValidationError::EmptyTeamName);
        }
        if self.sprint_length_weeks == 0 || self.sprint_length_weeks > 4 {
            return Err(PreferencesValidationError::InvalidSprintLength(self.sprint_length_weeks));
        }
        if self.default_capacity <= 0 {
            return Err(PreferencesValidationError::InvalidDefaultCapacity(self.default_capacity));
        }
        Ok(())
    }
}

pub open spec fn preferences_validation(p: Preferences) -> Result<(), PreferencesValidationError> {
    if is_blank(p.team_name@) {
        Err(PreferencesValidationError::EmptyTeamName)
    } else if p.sprint_length_weeks == 0 || p.sprint_length_weeks > 4 {
        Err(PreferencesValidationError::InvalidSprintLength(p.sprint_length_weeks))
    } else if p.default_capacity <= 0 {
        Err(PreferencesValidationError::InvalidDefaultCapacity(p.default_capacity))
    } else {
        Ok(())
    }
}

impl Default for Preferences {
    fn default() -> (r: Preferences)
        ensures
            r.team_name@ == "My Team"@,
            r.schema_version@ == PREFERENCES_SCHEMA_VERSION@,
            r.team_members@.len() == 0,
            r.sprint_length_weeks == 2,
            r.default_capacity == DEFAULT_CAPACITY,
    {
        Preferences::new(default_team_name())
    }
}

} // verus!
