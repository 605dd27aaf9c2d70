use crate::date::{civil_day_number, Date};
use crate::ids::Id;
use crate::model::{Allocation, Assignment, RoadmapProject, TeamMember, TechnicalProject};
use crate::plan_state::{has_roadmap, has_technical, PlanMetadata, PlanState};
use crate::preferences::{
    default_schema_version, Preferences, DEFAULT_CAPACITY, PREFERENCES_SCHEMA_VERSION,
};
use crate::text::{is_blank, is_blank_text};
use vstd::prelude::*;

verus! {

/// A self-contained snapshot of a team and its quarter plan, for sharing.
#[derive(Clone, Debug, PartialEq, Eq)]
pub struct PlanExport {
    pub version: String,
    pub metadata: PlanMetadata,
    pub team_name: String,
    pub team_members: Vec<TeamMember>,
    pub quarter_name: String,
    pub quarter_start_date: Date,
    pub num_weeks: usize,
    pub roadmap_projects: Vec<RoadmapProject>,
    pub technical_projects: Vec<TechnicalProject>,
    pub allocations: Vec<Allocation>,
}

/// Why an export is refused; reference errors carry the dangling identifier.
#[derive(Clone, Copy, Debug, PartialEq, Eq, Structural)]
pub enum ExportValidationError {
    InvalidVersion,
    EmptyTeamName,
    NoTeamMembers,
    EmptyQuarterName,
    InvalidNumWeeks,
    InvalidTeamMemberReference(Id),
    InvalidTechnicalProjectReference(Id),
    InvalidRoadmapProjectReference(Id),
}

/// `e` snapshots the team of `prefs` and the plan `state`.
pub open spec fn is_export_of(e: PlanExport, prefs: Preferences, state: PlanState) -> bool {
    &&& e.version == state.metadata.version
    &&& e.metadata == state.metadata
    &&& e.team_name == prefs.team_name
    &&& e.team_members == prefs.team_members
    &&& e.quarter_name == state.quarter_name
    &&& e.quarter_start_date == state.quarter_start_date
    &&& e.num_weeks == state.num_weeks
    &&& e.roadmap_projects == state.roadmap_projects
    &&& e.technical_projects == state.technical_projects
    &&& e.allocations == state.allocations
}

/// `prefs` and `state` are what importing `e` gives: its team and plan, with
/// sprints reset to two weeks from January 1, 2024 and the default capacity.
pub open spec fn is_import_of(prefs: Preferences, state: PlanState, e: PlanExport) -> bool {
    &&& prefs.schema_version@ == PREFERENCES_SCHEMA_VERSION@
    &&& prefs.team_name == e.team_name
    &&& prefs.team_members == e.team_members
    &&& prefs.sprint_anchor_date@ == civil_day_number(2024, 1, 1)
    &&& prefs.sprint_length_weeks == 2
    &&& prefs.default_capacity == DEFAULT_CAPACITY
    &&& state.quarter_name == e.quarter_name
    &&& state.quarter_start_date == e.quarter_start_date
    &&& state.num_weeks == e.num_weeks
    &&& state.roadmap_projects == e.roadmap_projects
    &&& state.technical_projects == e.technical_projects
    &&& state.allocations == e.allocations
    &&& state.metadata == e.metadata
}

pub open spec fn knows_member(members: Seq<TeamMember>, id: Id) -> bool {
    exists|m: int| 0 <= m < members.len() && (#[trigger] members[m]).id == id
}

/// Member of the first allocation whose member is not on the team.
pub open spec fn first_unknown_member(allocations: Seq<Allocation>, members: Seq<TeamMember>) -> Option<Id>
    decreases allocations.len(),
{
    if allocations.len() == 0 {
        None
    } else if !knows_member(members, allocations[0].team_member_id) {
        Some(allocations[0].team_member_id)
    } else {
        first_unknown_member(allocations.drop_first(), members)
    }
}

/// Project of the first assignment whose technical project does not exist.
pub open spec fn first_unknown_project_in(assignments: Seq<Assignment>, projects: Seq<TechnicalProject>) -> Option<Id>
    decreases assignments.len(),
{
    if assignments.len() == 0 {
        None
    } else if !has_technical(projects, assignments[0].technical_project_id) {
        Some(assignments[0].technical_project_id)
    } else {
        first_unknown_project_in(assignments.drop_first(), projects)
    }
}

/// Project of the first assignment, over all allocations in order, whose
/// technical project does not exist.
pub open spec fn first_unknown_project(allocations: Seq<Allocation>, projects: Seq<TechnicalProject>) -> Option<Id>
    decreases allocations.len(),
{
    if allocations.len() == 0 {
        None
    } else {
        match first_unknown_project_in(allocations[0].assignments@, projects) {
            Some(id) => Some(id),
            None => first_unknown_project(allocations.drop_first(), projects),
        }
    }
}

/// Roadmap link of the first technical project whose roadmap project does not exist.
pub open spec fn first_unknown_roadmap(projects: Seq<TechnicalProject>, roadmap: Seq<RoadmapProject>) -> Option<Id>
    decreases projects.len(),
{
    if projects.len() == 0 {
        None
    } else {
        match projects[0].roadmap_project_id {
            Some(rid) => if !has_roadmap(roadmap, rid) {
                Some(rid)
            } else {
                first_unknown_roadmap(projects.drop_first(), roadmap)
            },
            None => first_unknown_roadmap(projects.drop_first(), roadmap),
        }
    }
}

/// Outcome of validating an export: the first rule broken, in the order
/// version, team name, team members, quarter name, number of weeks, member
/// references, technical project references, roadmap references.
pub open spec fn export_validation(e: PlanExport) -> Result<(), ExportValidationError> {
    if e.version@.len() == 0 {
        Err(ExportValidationError::InvalidVersion)
    } else if is_blank(e.team_name@) {
        Err(ExportValidationError::EmptyTeamName)
    } else if e.team_members@.len() == 0 {
        Err(ExportValidationError::NoTeamMembers)
    } else if is_blank(e.quarter_name@) {
        Err(ExportValidationError::EmptyQuarterName)
    } else if e.num_weeks == 0 {
        Err(ExportValidationError::InvalidNumWeeks)
    } else if first_unknown_member(e.allocations@, e.team_members@).is_some() {
        Err(ExportValidationError::InvalidTeamMemberReference(first_unknown_member(e.allocations@, e.team_members@).unwrap()))
    } else if first_unknown_project(e.allocations@, e.technical_projects@).is_some() {
        Err(ExportValidationError::InvalidTechnicalProjectReference(first_unknown_project(e.allocations@, e.technical_projects@).unwrap()))
    } else if first_unknown_roadmap(e.technical_projects@, e.roadmap_projects@).is_some() {
        Err(ExportValidationError::InvalidRoadmapProjectReference(first_unknown_roadmap(e.technical_projects@, e.roadmap_projects@).unwrap()))
    } else {
        Ok(())
    }
}

fn member_known(members: &Vec<TeamMember>, id: Id) -> (r: bool)
    ensures
        r == knows_member(members@, id),
{
    let mut i: usize = 0;
    while i < members.len()
        invariant
            i <= members@.len(),
            forall|m: int| 0 <= m < i ==> (#[trigger] members@[m]).id != id,
        decreases members@.len() - i,
    {
        if members[i].id == id {
            return true;
        }
        i += 1;
    }
    false
}

fn technical_known(projects: &Vec<TechnicalProject>, id: Id) -> (r: bool)
    ensures
        r == has_technical(projects@, id),
{
    let mut i: usize = 0;
    while i < projects.len()
        invariant
            i <= projects@.len(),
            forall|m: int| 0 <= m < i ==> (#[trigger] projects@[m]).id != id,
        decreases projects@.len() - i,
    {
        if projects[i].id == id {
            return true;
        }
        i += 1;
    }
    false
}

fn roadmap_known(projects: &Vec<RoadmapProject>, id: Id) -> (r: bool)
    ensures
        r == has_roadmap(projects@, id),
{
    let mut i: usize = 0;
    while i < projects.len()
        invariant
            i <= projects@.len(),
            forall|m: int| 0 <= m < i ==> (#[trigger] projects@[m]).id != id,
        decreases projects@.len() - i,
    {
        if projects[i].id == id {
            return true;
        }
        i += 1;
    }
    false
}

fn find_unknown_member(allocations: &Vec<Allocation>, members: &Vec<TeamMember>) -> (r: Option<Id>)
    ensures
        r == first_unknown_member(allocations@, members@),
{
    proof {
        assert(allocations@.skip(0) =~= allocations@);
    }
    let mut i: usize = 0;
    while i < allocations.len()
        invariant
            i <= allocations@.len(),
            first_unknown_member(allocations@, members@) == first_unknown_member(allocations@.skip(i as int), members@),
        decreases allocations@.len() - i,
    {
        proof {
            assert(allocations@.skip(i as int).drop_first() =~= allocations@.skip(i as int + 1));
            assert(allocations@.skip(i as int)[0] == allocations@[i as int]);
        }
        if !member_known(members, allocations[i].team_member_id) {
            return Some(allocations[i].team_member_id);
        }
        i += 1;
    }
    None
}

fn find_unknown_project_in(assignments: &Vec<Assignment>, projects: &Vec<TechnicalProject>) -> (r: Option<Id>)
    ensures
        r == first_unknown_project_in(assignments@, projects@),
{
    proof {
        assert(assignments@.skip(0) =~= assignments@);
    }
    let mut i: usize = 0;
    while i < assignments.len()
        invariant
            i <= assignments@.len(),
            first_unknown_project_in(assignments@, projects@) == first_unknown_project_in(assignments@.skip(i as int), projects@),
        decreases assignments@.len() - i,
    {
        proof {
            assert(assignments@.skip(i as int).drop_first() =~= assignments@.skip(i as int + 1));
            assert(assignments@.skip(i as int)[0] == assignments@[i as int]);
        }
        if !technical_known(projects, assignments[i].technical_project_id) {
            return Some(assignments[i].technical_project_id);
        }
        i += 1;
    }
    None
}

fn find_unknown_project(allocations: &Vec<Allocation>, projects: &Vec<TechnicalProject>) -> (r: Option<Id>)
    ensures
        r == first_unknown_project(allocations@, projects@),
{
    proof {
        assert(allocations@.skip(0) =~= allocations@);
    }
    let mut i: usize = 0;
    while i < allocations.len()
        invariant
            i <= allocations@.len(),
            first_unknown_project(allocations@, projects@) == first_unknown_project(allocations@.skip(i as int), projects@),
        decreases allocations@.len() - i,
    {
        proof {
            assert(allocations@.skip(i as int).drop_first() =~= allocations@.skip(i as int + 1));
            assert(allocations@.skip(i as int)[0] == allocations@[i as int]);
        }
        let found = find_unknown_project_in(&allocations[i].assignments, projects);
        if found.is_some() {
            return found;
        }
        i += 1;
    }
    None
}

fn find_unknown_roadmap(projects: &Vec<TechnicalProject>, roadmap: &Vec<RoadmapProject>) -> (r: Option<Id>)
    ensures
        r == first_unknown_roadmap(projects@, roadmap@),
{
    proof {
        assert(projects@.skip(0) =~= projects@);
    }
    let mut i: usize = 0;
    while i < projects.len()
        invariant
            i <= projects@.len(),
            first_unknown_roadmap(projects@, roadmap@) == first_unknown_roadmap(projects@.skip(i as int), roadmap@),
        decreases projects@.len() - i,
    {
        proof {
            assert(projects@.skip(i as int).drop_first() =~= projects@.skip(i as int + 1));
            assert(projects@.skip(i as int)[0] == projects@[i as int]);
        }
        match projects[i].roadmap_project_id {
            Some(rid) => {
                if !roadmap_known(roadmap, rid) {
                    return Some(rid);
                }
            },
            None => {},
        }
        i += 1;
    }
    None
}

impl PlanExport {
    /// Snapshot of a team and its plan.
    pub fn from_signals(prefs: Preferences, state: PlanState) -> (r: PlanExport)
        ensures
            is_export_of(r, prefs, state),
    {
        PlanExport {
            version: state.metadata.version.clone(),
            metadata: state.metadata,
            team_name: prefs.team_name,
            team_members: prefs.team_members,
            quarter_name: state.quarter_name,
            quarter_start_date: state.quarter_start_date,
            num_weeks: state.num_weeks,
            roadmap_projects: state.roadmap_projects,
            technical_projects: state.technical_projects,
            allocations: state.allocations,
        }
    }

    /// Splits the snapshot into team preferences and plan. Sprint settings
    /// are not carried over: they start again from two-week sprints anchored
    /// on January 1, 2024.
    pub fn into_signals(self) -> (r: (Preferences, PlanState))
        ensures
            is_import_of(r.0, r.1, self),
    {
        let anchor = Date::from_ymd_opt(2024, 1, 1);
        let anchor = match anchor {
            Some(d) => d,
            None => {
                assert(false);
                Date { days: 0 }
            },
        };
        let prefs = Preferences {
            schema_version: default_schema_version(),
            team_name: self.team_name,
            team_members: self.team_members,
            sprint_anchor_date: anchor,
            sprint_length_weeks: 2,
            default_capacity: DEFAULT_CAPACITY,
        };
        let state = PlanState {
            quarter_name: self.quarter_name,
            quarter_start_date: self.quarter_start_date,
            num_weeks: self.num_weeks,
            roadmap_projects: self.roadmap_projects,
            technical_projects: self.technical_projects,
            allocations: self.allocations,
            metadata: self.metadata,
        };
        (prefs, state)
    }

    /// Checks the snapshot and its references; reports the first problem.
    pub fn validate(&self) -> (r: Result<(), ExportValidationError>)
        ensures
            r == export_validation(*self),
    {
        if self.version.as_str().is_empty() {
            return Err(ExportValidationError::InvalidVersion);
        }
        if is_blank_text(self.team_name.as_str()) {
            return Err(ExportValidationError::EmptyTeamName);
        }
        if self.team_members.len() == 0 {
            return Err(ExportValidationError::NoTeamMembers);
        }
        if is_blank_text(self.quarter_name.as_str()) {
            return Err(ExportValidationError::EmptyQuarterName);
        }
        if self.num_weeks == 0 {
            return Err(ExportValidationError::InvalidNumWeeks);
        }
        match find_unknown_member(&self.allocations, &self.team_members) {
            Some(id) => return Err(ExportValidationError::InvalidTeamMemberReference(id)),
            None => {},
        }
        match find_unknown_project(&self.allocations, &self.technical_projects) {
            Some(id) => return Err(ExportValidationError::InvalidTechnicalProjectReference(id)),
            None => {},
        }
        match find_unknown_roadmap(&self.technical_projects, &self.roadmap_projects) {
            Some(id) => return Err(ExportValidationError::InvalidRoadmapProjectReference(id)),
            None => {},
        }
        Ok(())
    }
}

/// Exporting a team and plan and importing the snapshot again gives back the
/// team name and members, the quarter's name and start, the roadmap and
/// technical projects and the allocations as they were.
pub proof fn lemma_export_round_trip(prefs: Preferences, state: PlanState, e: PlanExport, prefs2: Preferences, state2: PlanState)
    requires
        is_export_of(e, prefs, state),
        is_import_of(prefs2, state2, e),
    ensures
        prefs2.team_name == prefs.team_name,
        prefs2.team_members == prefs.team_members,
        state2.quarter_name == state.quarter_name,
        state2.quarter_start_date == state.quarter_start_date,
        state2.num_weeks == state.num_weeks,
        state2.roadmap_projects == state.roadmap_projects,
        state2.technical_projects == state.technical_projects,
        state2.allocations == state.allocations,
        state2.metadata == state.metadata,
{
}

/// An allocation whose member is not on the team makes validation fail
/// with a member reference error, unless an earlier rule already failed.
pub proof fn lemma_unknown_member_rejected(e: PlanExport, k: int)
    requires
        0 <= k < e.allocations@.len(),
        !knows_member(e.team_members@, e.allocations@[k].team_member_id),
        e.version@.len() > 0,
        !is_blank(e.team_name@),
        e.team_members@.len() > 0,
        !is_blank(e.quarter_name@),
        e.num_weeks > 0,
    ensures
        export_validation(e) matches Err(ExportValidationError::InvalidTeamMemberReference(id))
            && !knows_member(e.team_members@, id),
{
    lemma_first_unknown_member(e.allocations@, e.team_members@, k);
}

/// Where some allocation's member is unknown, the first such member is found,
/// and it is indeed unknown.
proof fn lemma_first_unknown_member(allocations: Seq<Allocation>, members: Seq<TeamMember>, k: int)
    requires
        0 <= k < allocations.len(),
        !knows_member(members, allocations[k].team_member_id),
    ensures
        first_unknown_member(allocations, members).is_some(),
        !knows_member(members, first_unknown_member(allocations, members).unwrap()),
    decreases allocations.len(),
{
    if knows_member(members, allocations[0].team_member_id) {
        assert(k > 0);
        assert(allocations.drop_first()[k - 1] == allocations[k]);
        lemma_first_unknown_member(allocations.drop_first(), members, k - 1);
    }
}

} // verus!
