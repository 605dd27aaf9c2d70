use crate::calendar::{
    first_quarter_from, get_next_quarter_info, get_quarter_start_date, quarter_name,
    quarter_name_text, quarter_start_day, sprint_end_day, sprint_in_range, sprint_start_day,
};
use crate::date::{year_of_day, MAX_YEAR};
use crate::ledger::{
    apply_project_dates, member_allocated_weeks, project_allocated_weeks, project_date_range,
    project_role_totals, roadmap_index, roadmap_role_totals, technical_index,
};
use crate::date::Date;
use crate::ids::Id;
use crate::model::{
    assignments_total, mentions_project, project_total, Allocation, Assignment, ProjectColor,
    RoadmapProject, Role, TechnicalProject,
};
use crate::sums::sum_of;
use vstd::prelude::*;

verus! {

/// Relies on chrono's `Utc::now()` read as microseconds since the Unix epoch
/// (`timestamp_micros`). Nothing is promised of the value.
#[verifier::external_body]
fn now_micros() -> (r: i64) {
    chrono::Utc::now().timestamp_micros()
}

/// Format version and audit timestamps of a plan. Timestamps are
/// microseconds since the Unix epoch, UTC.
#[derive(Clone, Debug, PartialEq, Eq)]
pub struct PlanMetadata {
    pub version: String,
    pub created_at: i64,
    pub modified_at: i64,
}

impl PlanMetadata {
    /// Version "1.0", created and modified now.
    pub fn new() -> (r: PlanMetadata)
        ensures
            r.version@ == "1.0"@,
            r.created_at == r.modified_at,
    {
        let now = now_micros();
        PlanMetadata { version: String::from_str("1.0"), created_at: now, modified_at: now }
    }

    /// Stamps the current time as the last modification.
    pub fn mark_modified(&mut self)
        ensures
            final(self).version == old(self).version,
            final(self).created_at == old(self).created_at,
    {
        self.modified_at = now_micros();
    }
}

impl Default for PlanMetadata {
    fn default() -> (r: PlanMetadata)
        ensures
            r.version@ == "1.0"@,
            r.created_at == r.modified_at,
    {
        PlanMetadata::new()
    }
}

/// The same plan with only its modification time possibly changed.
pub open spec fn same_but_modified_time(a: PlanMetadata, b: PlanMetadata) -> bool {
    a.version == b.version && a.created_at == b.created_at
}

/// Index of the first item of `s` whose identifier is `id`, if any.
pub open spec fn is_first_roadmap(s: Seq<RoadmapProject>, id: Id, k: int) -> bool {
    0 <= k < s.len() && s[k].id == id && forall|j: int| 0 <= j < k ==> (#[trigger] s[j]).id != id
}

pub open spec fn has_roadmap(s: Seq<RoadmapProject>, id: Id) -> bool {
    exists|k: int| 0 <= k < s.len() && (#[trigger] s[k]).id == id
}

pub open spec fn is_first_technical(s: Seq<TechnicalProject>, id: Id, k: int) -> bool {
    0 <= k < s.len() && s[k].id == id && forall|j: int| 0 <= j < k ==> (#[trigger] s[j]).id != id
}

pub open spec fn has_technical(s: Seq<TechnicalProject>, id: Id) -> bool {
    exists|k: int| 0 <= k < s.len() && (#[trigger] s[k]).id == id
}

/// Percentage of a week that an allocation gives to a project, as a summand.
pub open spec fn allocation_project_percent(project_id: Id) -> spec_fn(Allocation) -> int {
    |a: Allocation| project_total(a.assignments@, project_id)
}

/// Hundredths of a week given to a project over a list of allocations.
pub open spec fn project_allocated(allocations: Seq<Allocation>, project_id: Id) -> int {
    sum_of(allocations, allocation_project_percent(project_id))
}

/// Percentage of a week that an allocation gives to its member's work when the
/// member is `member_id`, as a summand.
pub open spec fn allocation_member_percent(member_id: Id) -> spec_fn(Allocation) -> int {
    |a: Allocation| if a.team_member_id == member_id { assignments_total(a.assignments@) } else { 0 }
}

/// Hundredths of a week allocated to a member over a list of allocations.
pub open spec fn member_allocated(allocations: Seq<Allocation>, member_id: Id) -> int {
    sum_of(allocations, allocation_member_percent(member_id))
}

/// The allocation gives part of its week to the project.
pub open spec fn allocation_mentions(a: Allocation, project_id: Id) -> bool {
    mentions_project(a.assignments@, project_id)
}

/// Some allocation gives part of its week to the project.
pub open spec fn project_has_allocations(allocations: Seq<Allocation>, project_id: Id) -> bool {
    exists|k: int| 0 <= k < allocations.len() && allocation_mentions(#[trigger] allocations[k], project_id)
}

/// `day` is the earliest week start among allocations to the project.
pub open spec fn is_earliest_week(allocations: Seq<Allocation>, project_id: Id, day: int) -> bool {
    &&& exists|k: int| 0 <= k < allocations.len() && allocation_mentions(#[trigger] allocations[k], project_id)
        && allocations[k].week_start_date@ == day
    &&& forall|k: int| 0 <= k < allocations.len() && allocation_mentions(#[trigger] allocations[k], project_id)
        ==> day <= allocations[k].week_start_date@
}

/// `day` is the latest week start among allocations to the project.
pub open spec fn is_latest_week(allocations: Seq<Allocation>, project_id: Id, day: int) -> bool {
    &&& exists|k: int| 0 <= k < allocations.len() && allocation_mentions(#[trigger] allocations[k], project_id)
        && allocations[k].week_start_date@ == day
    &&& forall|k: int| 0 <= k < allocations.len() && allocation_mentions(#[trigger] allocations[k], project_id)
        ==> allocations[k].week_start_date@ <= day
}

/// Every allocation to the project lies on a representable date whose
/// sprint can be written as dates.
pub open spec fn project_weeks_in_range(allocations: Seq<Allocation>, project_id: Id, anchor: int, sprint_length: int) -> bool {
    forall|k: int| 0 <= k < allocations.len() && allocation_mentions(#[trigger] allocations[k], project_id)
        ==> allocations[k].week_start_date.valid() && sprint_in_range(allocations[k].week_start_date@, anchor, sprint_length)
}

/// `p` is `old` with its dates set to the start of the sprint of week
/// `first` and the end of the sprint of week `last`.
pub open spec fn with_sprint_dates(old: TechnicalProject, p: TechnicalProject, first: int, last: int, anchor: int, sprint_length: int) -> bool {
    &&& p.start_date@ == sprint_start_day(first, anchor, sprint_length)
    &&& p.expected_completion.is_some()
    &&& p.expected_completion.unwrap()@ == sprint_end_day(last, anchor, sprint_length)
    &&& p.id == old.id
    &&& p.name == old.name
    &&& p.roadmap_project_id == old.roadmap_project_id
    &&& p.eng_estimate == old.eng_estimate
    &&& p.sci_estimate == old.sci_estimate
    &&& p.notes == old.notes
}

/// Some allocation of `member_id` gives part of its week to the project.
pub open spec fn member_works_on(allocations: Seq<Allocation>, member_id: Id, project_id: Id) -> bool {
    exists|k: int| 0 <= k < allocations.len() && allocation_mentions(#[trigger] allocations[k], project_id)
        && allocations[k].team_member_id == member_id
}

/// Identifiers in strictly increasing order of their bits.
pub open spec fn strictly_sorted(ids: Seq<Id>) -> bool {
    forall|i: int, j: int| 0 <= i < j < ids.len() ==> (#[trigger] ids[i]).value < (#[trigger] ids[j]).value
}

/// Percentage of a week that an allocation gives to a project when `role`
/// is the role found for its member and matches `which`, as a summand.
pub open spec fn role_project_percent(project_id: Id, which: Role, roles: spec_fn(Id) -> Option<Role>) -> spec_fn(Allocation) -> int {
    |a: Allocation| if roles(a.team_member_id) == Some(which) { project_total(a.assignments@, project_id) } else { 0 }
}

/// The role that a deterministic lookup returns for a member.
pub open spec fn looked_up_role<F: Fn(&Id) -> Option<Role>>(lookup: F) -> spec_fn(Id) -> Option<Role> {
    |id: Id| choose|r: Option<Role>| lookup.ensures((&id,), r)
}

/// A lookup that can be called on every member and answers each alike.
pub open spec fn is_role_lookup<F: Fn(&Id) -> Option<Role>>(lookup: F) -> bool {
    &&& forall|id: &Id| #[trigger] lookup.requires((id,))
    &&& forall|id: &Id, r1: Option<Role>, r2: Option<Role>| #[trigger] lookup.ensures((id,), r1) && #[trigger] lookup.ensures((id,), r2) ==> r1 == r2
}

/// Hundredths of a week given to a project by members that the lookup
/// finds in role `which`.
pub open spec fn project_allocated_in_role(allocations: Seq<Allocation>, project_id: Id, which: Role, roles: spec_fn(Id) -> Option<Role>) -> int {
    sum_of(allocations, role_project_percent(project_id, which, roles))
}

/// Per linked technical project, the hundredths of a week given to it by
/// members in role `which`, as a summand.
pub open spec fn linked_role_allocated(allocations: Seq<Allocation>, roadmap_id: Id, which: Role, roles: spec_fn(Id) -> Option<Role>) -> spec_fn(TechnicalProject) -> int {
    |tp: TechnicalProject| if tp.roadmap_project_id == Some(roadmap_id) {
        project_allocated_in_role(allocations, tp.id, which, roles)
    } else {
        0
    }
}

/// Per linked technical project, all hundredths of a week given to it, as a summand.
pub open spec fn linked_allocated(allocations: Seq<Allocation>, roadmap_id: Id) -> spec_fn(TechnicalProject) -> int {
    |tp: TechnicalProject| if tp.roadmap_project_id == Some(roadmap_id) {
        project_allocated(allocations, tp.id)
    } else {
        0
    }
}

/// The allocation is not the one of member `member_id` in week `week`.
pub open spec fn other_cell(member_id: Id, week: Date) -> spec_fn(Allocation) -> bool {
    |a: Allocation| !(a.team_member_id == member_id && a.week_start_date == week)
}

/// The allocation is the one of member `member_id` in week `week`.
pub open spec fn at_cell(a: Allocation, member_id: Id, week: Date) -> bool {
    a.team_member_id == member_id && a.week_start_date == week
}

/// `after` is `before` once the cell of `member_id` in `week` is given
/// `assignments`: the other allocations in their order, then the cell's new
/// allocation unless `assignments` is empty.
pub open spec fn cell_replaced(before: Seq<Allocation>, after: Seq<Allocation>, member_id: Id, week: Date, assignments: Seq<Assignment>) -> bool {
    if assignments.len() == 0 {
        after == before.filter(other_cell(member_id, week))
    } else {
        &&& after.len() > 0
        &&& after.drop_last() == before.filter(other_cell(member_id, week))
        &&& after.last().team_member_id == member_id
        &&& after.last().week_start_date == week
        &&& after.last().assignments@ == assignments
    }
}

/// Among the first `i` allocations, one of the cell of `member_id` in `week`
/// gives part of its week to project `p`.
pub open spec fn cell_held_before(allocations: Seq<Allocation>, member_id: Id, week: Date, i: int, p: Id) -> bool {
    exists|k: int| 0 <= k < i && k < allocations.len() && at_cell(allocations[k], member_id, week)
        && #[trigger] allocation_mentions(allocations[k], p)
}

/// The cell of `member_id` in `week` gives part of its week to project `p`.
pub open spec fn cell_held(allocations: Seq<Allocation>, member_id: Id, week: Date, p: Id) -> bool {
    cell_held_before(allocations, member_id, week, allocations.len() as int, p)
}

/// The fields of a technical project that date propagation leaves alone.
pub open spec fn same_identity(a: TechnicalProject, b: TechnicalProject) -> bool {
    &&& a.id == b.id
    &&& a.name == b.name
    &&& a.roadmap_project_id == b.roadmap_project_id
    &&& a.eng_estimate == b.eng_estimate
    &&& a.sci_estimate == b.sci_estimate
    &&& a.notes == b.notes
}

/// In `new`, the first technical project with identifier `pid` in `old`
/// carries the dates that `allocations` give it: the start of the sprint of
/// its earliest week and the end of the sprint of its latest one; where no
/// allocation goes to it, it is as in `old`.
pub open spec fn dates_follow(old: Seq<TechnicalProject>, new: Seq<TechnicalProject>, allocations: Seq<Allocation>, pid: Id, anchor: int, sprint_length: int) -> bool {
    forall|k: int| #[trigger] is_first_technical(old, pid, k) ==>
        if project_has_allocations(allocations, pid) {
            exists|first: int, last: int| is_earliest_week(allocations, pid, first)
                && is_latest_week(allocations, pid, last)
                && with_sprint_dates(old[k], new[k], first, last, anchor, sprint_length)
        } else {
            new[k] == old[k]
        }
}

/// The project that a paint brush selection applies, if any.
pub open spec fn selected_id(selected: SelectedProject) -> Option<Id> {
    match selected {
        SelectedProject::Nothing => None,
        SelectedProject::Technical(pid) => Some(pid),
    }
}

/// Painting the cell of `member_id` in `week` touches project `p`: it is the
/// painted project, or the cell held it before.
pub open spec fn painting_touches(selected: SelectedProject, allocations: Seq<Allocation>, member_id: Id, week: Date, p: Id) -> bool {
    selected_id(selected) == Some(p) || cell_held(allocations, member_id, week, p)
}

spec fn listed_before(s: Seq<Id>, i: int, p: Id) -> bool {
    exists|x: int| 0 <= x < i && s[x] == p
}

/// No two allocations share a member and a week.
pub open spec fn cells_unique(allocations: Seq<Allocation>) -> bool {
    forall|i: int, j: int| 0 <= i < j < allocations.len() ==> !(#[trigger] allocations[i].team_member_id
        == #[trigger] allocations[j].team_member_id && allocations[i].week_start_date == allocations[j].week_start_date)
}

/// Every allocation lies on a representable date whose sprint can be written as dates.
pub open spec fn weeks_in_sprint_range(allocations: Seq<Allocation>, anchor: int, sprint_length: int) -> bool {
    forall|k: int| 0 <= k < allocations.len() ==> (#[trigger] allocations[k]).week_start_date.valid()
        && sprint_in_range(allocations[k].week_start_date@, anchor, sprint_length)
}

/// Project that the paint brush applies to a cell, if any.
#[derive(Clone, Copy, Debug, PartialEq, Eq, Structural)]
pub enum SelectedProject {
    /// Nothing selected: painting clears cells.
    Nothing,
    Technical(Id),
}

/// `name` is the name of the first technical project found for an assignment
/// of one of the member's allocations.
pub open spec fn member_project_name(allocations: Seq<Allocation>, projects: Seq<TechnicalProject>, member_id: Id, name: Seq<char>) -> bool {
    exists|k: int, j: int, p: int|
        0 <= k < allocations.len() && allocations[k].team_member_id == member_id
        && 0 <= j < allocations[k].assignments@.len()
        && is_first_technical(projects, (#[trigger] allocations[k].assignments@[j]).technical_project_id, p)
        && (#[trigger] projects[p]).name@ == name
}

/// Some string of the list reads `text`.
pub open spec fn lists_text(s: Seq<String>, text: Seq<char>) -> bool {
    exists|x: int| 0 <= x < s.len() && (#[trigger] s[x])@ == text
}

/// `name` is the name of the first technical project found for an assignment
/// of the member before assignment `j` of allocation `i`.
pub open spec fn named_before(allocations: Seq<Allocation>, projects: Seq<TechnicalProject>, member_id: Id, i: int, j: int, name: Seq<char>) -> bool {
    exists|k: int, jj: int, p: int|
        ((0 <= k < i) || (k == i && jj < j)) && allocations[k].team_member_id == member_id
        && 0 <= jj < allocations[k].assignments@.len()
        && is_first_technical(projects, (#[trigger] allocations[k].assignments@[jj]).technical_project_id, p)
        && (#[trigger] projects[p]).name@ == name
}

/// No two strings of the list read the same.
pub open spec fn distinct_texts(s: Seq<String>) -> bool {
    forall|i: int, j: int| 0 <= i < j < s.len() ==> (#[trigger] s[i])@ != (#[trigger] s[j])@
}

/// Planning data of one quarter.
#[derive(Clone, Debug, PartialEq, Eq)]
pub struct PlanState {
    pub quarter_name: String,
    /// First day of the quarter's first week.
    pub quarter_start_date: Date,
    pub num_weeks: usize,
    pub roadmap_projects: Vec<RoadmapProject>,
    pub technical_projects: Vec<TechnicalProject>,
    pub allocations: Vec<Allocation>,
    pub metadata: PlanMetadata,
}

impl PlanState {
    /// An empty plan for a quarter.
    pub fn new(quarter_name: String, quarter_start_date: Date, num_weeks: usize) -> (r: PlanState)
        ensures
            r.quarter_name == quarter_name,
            r.quarter_start_date == quarter_start_date,
            r.num_weeks == num_weeks,
            r.roadmap_projects@.len() == 0,
            r.technical_projects@.len() == 0,
            r.allocations@.len() == 0,
            r.metadata.version@ == "1.0"@,
    {
        PlanState {
            quarter_name,
            quarter_start_date,
            num_weeks,
            roadmap_projects: Vec::new(),
            technical_projects: Vec::new(),
            allocations: Vec::new(),
            metadata: PlanMetadata::new(),
        }
    }

    fn roadmap_index(&self, id: &Id) -> (r: Option<usize>)
        ensures
            r.is_none() <==> !has_roadmap(self.roadmap_projects@, *id),
            r.is_some() ==> is_first_roadmap(self.roadmap_projects@, *id, r.unwrap() as int),
    {
        roadmap_index(&self.roadmap_projects, id)
    }

    fn technical_index(&self, id: &Id) -> (r: Option<usize>)
        ensures
            r.is_none() <==> !has_technical(self.technical_projects@, *id),
            r.is_some() ==> is_first_technical(self.technical_projects@, *id, r.unwrap() as int),
    {
        technical_index(&self.technical_projects, id)
    }

    /// The first roadmap project with the identifier.
    pub fn get_roadmap_project(&self, id: &Id) -> (r: Option<&RoadmapProject>)
        ensures
            r.is_none() <==> !has_roadmap(self.roadmap_projects@, *id),
            r.is_some() ==> exists|k: int| is_first_roadmap(self.roadmap_projects@, *id, k)
                && *r.unwrap() == self.roadmap_projects@[k],
    {
        match self.roadmap_index(id) {
            Some(i) => Some(&self.roadmap_projects[i]),
            None => None,
        }
    }

    /// The first roadmap project with the identifier, for editing.
    pub fn get_roadmap_project_mut(&mut self, id: &Id) -> (r: Option<&mut RoadmapProject>)
        ensures
            r.is_none() <==> !has_roadmap(old(self).roadmap_projects@, *id),
            r.is_none() ==> *final(self) == *old(self),
            r.is_some() ==> exists|k: int| is_first_roadmap(old(self).roadmap_projects@, *id, k)
                && *r.unwrap() == old(self).roadmap_projects@[k]
                && final(self).roadmap_projects@ == old(self).roadmap_projects@.update(k, *final(r.unwrap()))
                && final(self).technical_projects == old(self).technical_projects
                && final(self).allocations == old(self).allocations
                && final(self).metadata == old(self).metadata
                && final(self).quarter_name == old(self).quarter_name
                && final(self).quarter_start_date == old(self).quarter_start_date
                && final(self).num_weeks == old(self).num_weeks,
    {
        match self.roadmap_index(id) {
            Some(i) => Some(&mut self.roadmap_projects[i]),
            None => None,
        }
    }

    /// The first technical project with the identifier.
    pub fn get_technical_project(&self, id: &Id) -> (r: Option<&TechnicalProject>)
        ensures
            r.is_none() <==> !has_technical(self.technical_projects@, *id),
            r.is_some() ==> exists|k: int| is_first_technical(self.technical_projects@, *id, k)
                && *r.unwrap() == self.technical_projects@[k],
    {
        match self.technical_index(id) {
            Some(i) => Some(&self.technical_projects[i]),
            None => None,
        }
    }

    /// The first technical project with the identifier, for editing.
    pub fn get_technical_project_mut(&mut self, id: &Id) -> (r: Option<&mut TechnicalProject>)
        ensures
            r.is_none() <==> !has_technical(old(self).technical_projects@, *id),
            r.is_none() ==> *final(self) == *old(self),
            r.is_some() ==> exists|k: int| is_first_technical(old(self).technical_projects@, *id, k)
                && *r.unwrap() == old(self).technical_projects@[k]
                && final(self).technical_projects@ == old(self).technical_projects@.update(k, *final(r.unwrap()))
                && final(self).roadmap_projects == old(self).roadmap_projects
                && final(self).allocations == old(self).allocations
                && final(self).metadata == old(self).metadata
                && final(self).quarter_name == old(self).quarter_name
                && final(self).quarter_start_date == old(self).quarter_start_date
                && final(self).num_weeks == old(self).num_weeks,
    {
        match self.technical_index(id) {
            Some(i) => Some(&mut self.technical_projects[i]),
            None => None,
        }
    }

    /// Hundredths of a week allocated to a technical project: each assignment
    /// to it adds its percentage.
    pub fn calculate_project_allocated_weeks(&self, technical_project_id: &Id) -> (r: u64)
        requires
            project_allocated(self.allocations@, *technical_project_id) <= u64::MAX,
        ensures
            r == project_allocated(self.allocations@, *technical_project_id),
    {
        project_allocated_weeks(&self.allocations, technical_project_id)
    }

    /// Hundredths of a week allocated to a team member: each of the member's
    /// allocations adds its total percentage.
    pub fn calculate_team_member_allocated_weeks(&self, team_member_id: &Id) -> (r: u64)
        requires
            member_allocated(self.allocations@, *team_member_id) <= u64::MAX,
        ensures
            r == member_allocated(self.allocations@, *team_member_id),
    {
        member_allocated_weeks(&self.allocations, team_member_id)
    }


    /// First and last week start among allocations to the project; `None`
    /// when the project has none.
    pub fn get_project_allocation_date_range(&self, technical_project_id: &Id) -> (r: Option<(Date, Date)>)
        ensures
            r.is_none() <==> !project_has_allocations(self.allocations@, *technical_project_id),
            r.is_some() ==> is_earliest_week(self.allocations@, *technical_project_id, r.unwrap().0@),
            r.is_some() ==> is_latest_week(self.allocations@, *technical_project_id, r.unwrap().1@),
            r.is_some() ==> exists|k: int| 0 <= k < self.allocations@.len()
                && allocation_mentions(#[trigger] self.allocations@[k], *technical_project_id)
                && self.allocations@[k].week_start_date == r.unwrap().0,
            r.is_some() ==> exists|k: int| 0 <= k < self.allocations@.len()
                && allocation_mentions(#[trigger] self.allocations@[k], *technical_project_id)
                && self.allocations@[k].week_start_date == r.unwrap().1,
    {
        project_date_range(&self.allocations, technical_project_id)
    }

    /// Sets the project's start date to the start of the sprint of its
    /// earliest allocated week and its expected completion to the end of the
    /// sprint of its latest one, then stamps the plan as modified. Leaves the
    /// plan as it is when the project has no allocation or does not exist.
    pub fn update_technical_project_dates(&mut self, technical_project_id: &Id, sprint_anchor_date: Date, sprint_length_weeks: usize)
        requires
            sprint_anchor_date.valid(),
            sprint_length_weeks > 0,
            project_weeks_in_range(old(self).allocations@, *technical_project_id, sprint_anchor_date@, sprint_length_weeks as int),
        ensures
            !project_has_allocations(old(self).allocations@, *technical_project_id)
                || !has_technical(old(self).technical_projects@, *technical_project_id) ==> *final(self) == *old(self),
            project_has_allocations(old(self).allocations@, *technical_project_id)
                && has_technical(old(self).technical_projects@, *technical_project_id) ==> exists|k: int, first: int, last: int|
                    is_first_technical(old(self).technical_projects@, *technical_project_id, k)
                    && is_earliest_week(old(self).allocations@, *technical_project_id, first)
                    && is_latest_week(old(self).allocations@, *technical_project_id, last)
                    && final(self).technical_projects@.len() == old(self).technical_projects@.len()
                    && with_sprint_dates(old(self).technical_projects@[k], final(self).technical_projects@[k],
                        first, last, sprint_anchor_date@, sprint_length_weeks as int)
                    && (forall|j: int| 0 <= j < old(self).technical_projects@.len() && j != k
                        ==> final(self).technical_projects@[j] == old(self).technical_projects@[j])
                    && same_but_modified_time(final(self).metadata, old(self).metadata)
                    && final(self).roadmap_projects == old(self).roadmap_projects
                    && final(self).allocations == old(self).allocations
                    && final(self).quarter_name == old(self).quarter_name
                    && final(self).quarter_start_date == old(self).quarter_start_date
                    && final(self).num_weeks == old(self).num_weeks,
    {
        let ghost before = self.technical_projects@;
        let ghost pid = *technical_project_id;
        let ghost anchor = sprint_anchor_date@;
        let ghost len = sprint_length_weeks as int;
        if apply_project_dates(&mut self.technical_projects, &self.allocations, technical_project_id, sprint_anchor_date, sprint_length_weeks) {
            self.metadata.mark_modified();
            proof {
                let (k, first, last) = choose|k: int, first: int, last: int|
                    is_first_technical(before, pid, k)
                    && is_earliest_week(self.allocations@, pid, first)
                    && is_latest_week(self.allocations@, pid, last)
                    && self.technical_projects@.len() == before.len()
                    && with_sprint_dates(before[k], self.technical_projects@[k], first, last, anchor, len)
                    && (forall|j: int| 0 <= j < before.len() && j != k ==> self.technical_projects@[j] == before[j]);
                assert(is_first_technical(before, pid, k));
            }
        }
    }

    /// Distinct members with an allocation to the project, in increasing order.
    pub fn get_assigned_team_members(&self, technical_project_id: &Id) -> (r: Vec<Id>)
        ensures
            strictly_sorted(r@),
            forall|m: Id| r@.contains(m) <==> member_works_on(self.allocations@, m, *technical_project_id),
    {
        let ghost pid = *technical_project_id;
        let ghost allocs = self.allocations@;
        let mut members: Vec<Id> = Vec::new();
        let mut i: usize = 0;
        while i < self.allocations.len()
            invariant
                pid == *technical_project_id,
                allocs == self.allocations@,
                i <= allocs.len(),
                strictly_sorted(members@),
                forall|m: Id| members@.contains(m) <==> exists|k: int| 0 <= k < i
                    && allocation_mentions(#[trigger] allocs[k], pid) && allocs[k].team_member_id == m,
            decreases allocs.len() - i,
        {
            let alloc = &self.allocations[i];
            if alloc.has_project(*technical_project_id) {
                let ghost before = members@;
                insert_sorted(&mut members, alloc.team_member_id);
                proof {
                    assert forall|m: Id| members@.contains(m) <==> exists|k: int| 0 <= k < i + 1
                        && allocation_mentions(#[trigger] allocs[k], pid) && allocs[k].team_member_id == m by {
                        if members@.contains(m) && m != allocs[i as int].team_member_id {
                            assert(before.contains(m));
                        }
                        if m == allocs[i as int].team_member_id {
                            assert(allocation_mentions(allocs[i as int], pid));
                        }
                    }
                }
            } else {
                proof {
                    assert forall|m: Id| members@.contains(m) <==> exists|k: int| 0 <= k < i + 1
                        && allocation_mentions(#[trigger] allocs[k], pid) && allocs[k].team_member_id == m by {
                        if exists|k: int| 0 <= k < i + 1 && allocation_mentions(#[trigger] allocs[k], pid) && allocs[k].team_member_id == m {
                            let k = choose|k: int| 0 <= k < i + 1 && allocation_mentions(#[trigger] allocs[k], pid) && allocs[k].team_member_id == m;
                            assert(k != i);
                        }
                    }
                }
            }
            i += 1;
        }
        members
    }

    /// Hundredths of a week given to a technical project, split by the role
    /// that `get_member_role` finds for each allocation's member: (engineering,
    /// science, both). Allocations of members without a role are left out.
    pub fn calculate_technical_project_allocated_by_role<F: Fn(&Id) -> Option<Role>>(
        &self,
        technical_project_id: &Id,
        get_member_role: F,
    ) -> (r: (u64, u64, u64))
        requires
            is_role_lookup(get_member_role),
            project_allocated(self.allocations@, *technical_project_id) <= u64::MAX,
        ensures
            r.0 == project_allocated_in_role(self.allocations@, *technical_project_id, Role::Engineering, looked_up_role(get_member_role)),
            r.1 == project_allocated_in_role(self.allocations@, *technical_project_id, Role::Science, looked_up_role(get_member_role)),
            r.2 == r.0 + r.1,
    {
        proof {
            lemma_role_lookup_agrees(get_member_role);
        }
        project_role_totals(&self.allocations, technical_project_id, get_member_role, Ghost(looked_up_role(get_member_role)))
    }

    /// Hundredths of a week given to the technical projects linked to a
    /// roadmap project, split by the role that `get_member_role` finds for
    /// each allocation's member: (engineering, science, both).
    pub fn calculate_roadmap_allocated_weeks<F: Fn(&Id) -> Option<Role>>(
        &self,
        roadmap_project_id: &Id,
        get_member_role: F,
    ) -> (r: (u64, u64, u64))
        requires
            is_role_lookup(get_member_role),
            sum_of(self.technical_projects@, linked_allocated(self.allocations@, *roadmap_project_id)) <= u64::MAX,
        ensures
            r.0 == sum_of(self.technical_projects@, linked_role_allocated(self.allocations@, *roadmap_project_id, Role::Engineering, looked_up_role(get_member_role))),
            r.1 == sum_of(self.technical_projects@, linked_role_allocated(self.allocations@, *roadmap_project_id, Role::Science, looked_up_role(get_member_role))),
            r.2 == r.0 + r.1,
    {
        proof {
            lemma_role_lookup_agrees(get_member_role);
        }
        roadmap_role_totals(&self.technical_projects, &self.allocations, roadmap_project_id, get_member_role, Ghost(looked_up_role(get_member_role)))
    }

    /// The allocation of a member in a week, if any.
    pub fn get_allocation(&self, team_member_id: Id, week_start: Date) -> (r: Option<&Allocation>)
        ensures
            r.is_none() <==> forall|k: int| 0 <= k < self.allocations@.len() ==> !at_cell(#[trigger] self.allocations@[k], team_member_id, week_start),
            r.is_some() ==> exists|k: int| 0 <= k < self.allocations@.len() && *r.unwrap() == self.allocations@[k]
                && at_cell(self.allocations@[k], team_member_id, week_start),
    {
        let mut i: usize = 0;
        while i < self.allocations.len()
            invariant
                i <= self.allocations@.len(),
                forall|k: int| 0 <= k < i ==> !at_cell(#[trigger] self.allocations@[k], team_member_id, week_start),
            decreases self.allocations@.len() - i,
        {
            if self.allocations[i].team_member_id == team_member_id && self.allocations[i].week_start_date == week_start {
                return Some(&self.allocations[i]);
            }
            i += 1;
        }
        None
    }

    /// Projects assigned in the cell of a member and week, in the order of
    /// the allocations and their assignments.
    fn cell_projects(&self, team_member_id: Id, week_start: Date) -> (r: Vec<Id>)
        ensures
            forall|p: Id| #[trigger] r@.contains(p) <==> cell_held(self.allocations@, team_member_id, week_start, p),
    {
        let ghost allocs = self.allocations@;
        let mut projects: Vec<Id> = Vec::new();
        let mut i: usize = 0;
        while i < self.allocations.len()
            invariant
                allocs == self.allocations@,
                i <= allocs.len(),
                forall|p: Id| #[trigger] projects@.contains(p) <==> cell_held_before(allocs, team_member_id, week_start, i as int, p),
            decreases allocs.len() - i,
        {
            let alloc = &self.allocations[i];
            let ghost before_cell = projects@;
            if alloc.team_member_id == team_member_id && alloc.week_start_date == week_start {
                let mut j: usize = 0;
                while j < alloc.assignments.len()
                    invariant
                        allocs == self.allocations@,
                        i < allocs.len(),
                        *alloc == allocs[i as int],
                        j <= alloc.assignments@.len(),
                        forall|p: Id| #[trigger] projects@.contains(p) <==> (before_cell.contains(p)
                            || exists|x: int| 0 <= x < j && (#[trigger] alloc.assignments@[x]).technical_project_id == p),
                    decreases alloc.assignments@.len() - j,
                {
                    let ghost prev = projects@;
                    let pid = alloc.assignments[j].technical_project_id;
                    projects.push(pid);
                    proof {
                        lemma_push_contains(prev, pid);
                        assert forall|p: Id| #[trigger] projects@.contains(p) <==> (before_cell.contains(p)
                            || exists|x: int| 0 <= x < j + 1 && (#[trigger] alloc.assignments@[x]).technical_project_id == p) by {
                            if p == pid {
                                assert(alloc.assignments@[j as int].technical_project_id == p);
                            }
                            if exists|x: int| 0 <= x < j + 1 && (#[trigger] alloc.assignments@[x]).technical_project_id == p {
                                let x = choose|x: int| 0 <= x < j + 1 && (#[trigger] alloc.assignments@[x]).technical_project_id == p;
                                if x < j {
                                    assert(prev.contains(p));
                                }
                            }
                        }
                    }
                    j += 1;
                }
                proof {
                    assert forall|p: Id| #[trigger] projects@.contains(p) <==> cell_held_before(allocs, team_member_id, week_start, i + 1, p) by {
                        if projects@.contains(p) && !before_cell.contains(p) {
                            let x = choose|x: int| 0 <= x < j && (#[trigger] alloc.assignments@[x]).technical_project_id == p;
                            assert(allocation_mentions(allocs[i as int], p));
                        }
                        if cell_held_before(allocs, team_member_id, week_start, i + 1, p) {
                            let k = choose|k: int| 0 <= k < i + 1 && k < allocs.len() && at_cell(allocs[k], team_member_id, week_start)
                                && #[trigger] allocation_mentions(allocs[k], p);
                            if k == i {
                                let x = choose|x: int| 0 <= x < allocs[k].assignments@.len()
                                    && (#[trigger] allocs[k].assignments@[x]).technical_project_id == p;
                                assert(alloc.assignments@[x].technical_project_id == p);
                            } else {
                                assert(cell_held_before(allocs, team_member_id, week_start, i as int, p));
                            }
                        }
                        if before_cell.contains(p) {
                            let k = choose|k: int| 0 <= k < i && k < allocs.len() && at_cell(allocs[k], team_member_id, week_start)
                                && #[trigger] allocation_mentions(allocs[k], p);
                            assert(k < i + 1);
                        }
                    }
                }
            } else {
                proof {
                    assert forall|p: Id| #[trigger] projects@.contains(p) <==> cell_held_before(allocs, team_member_id, week_start, i + 1, p) by {
                        if cell_held_before(allocs, team_member_id, week_start, i + 1, p) {
                            let k = choose|k: int| 0 <= k < i + 1 && k < allocs.len() && at_cell(allocs[k], team_member_id, week_start)
                                && #[trigger] allocation_mentions(allocs[k], p);
                            assert(k != i);
                            assert(cell_held_before(allocs, team_member_id, week_start, i as int, p));
                        }
                        if before_cell.contains(p) {
                            let k = choose|k: int| 0 <= k < i && k < allocs.len() && at_cell(allocs[k], team_member_id, week_start)
                                && #[trigger] allocation_mentions(allocs[k], p);
                            assert(k < i + 1);
                        }
                    }
                }
            }
            i += 1;
        }
        projects
    }

    /// Gives the cell of a member and week the assignments: removes any
    /// allocation of that cell, then adds one with the assignments unless
    /// there are none. The sum of the percentages is not checked here.
    pub fn replace_cell(&mut self, team_member_id: Id, week_start: Date, assignments: Vec<Assignment>)
        ensures
            cell_replaced(old(self).allocations@, final(self).allocations@, team_member_id, week_start, assignments@),
            cells_unique(old(self).allocations@) ==> cells_unique(final(self).allocations@),
            final(self).quarter_name == old(self).quarter_name,
            final(self).quarter_start_date == old(self).quarter_start_date,
            final(self).num_weeks == old(self).num_weeks,
            final(self).roadmap_projects == old(self).roadmap_projects,
            final(self).technical_projects == old(self).technical_projects,
            final(self).metadata == old(self).metadata,
    {
        let ghost orig = self.allocations@;
        let ghost keep = other_cell(team_member_id, week_start);
        let mut rest: Vec<Allocation> = Vec::new();
        std::mem::swap(&mut self.allocations, &mut rest);
        let ghost mut i: int = 0;
        while rest.len() > 0
            invariant
                keep == other_cell(team_member_id, week_start),
                0 <= i <= orig.len(),
                self.quarter_name == old(self).quarter_name,
                self.quarter_start_date == old(self).quarter_start_date,
                self.num_weeks == old(self).num_weeks,
                self.roadmap_projects == old(self).roadmap_projects,
                self.technical_projects == old(self).technical_projects,
                self.metadata == old(self).metadata,
                rest@ == orig.skip(i),
                rest@.len() == orig.len() - i,
                self.allocations@ == orig.take(i).filter(keep),
            decreases rest@.len(),
        {
            let a = rest.remove(0);
            let ghost t = orig.take(i + 1);
            proof {
                reveal(Seq::filter);
                assert(t.drop_last() =~= orig.take(i));
                assert(rest@ =~= orig.skip(i + 1));
                assert(a == orig[i]);
                assert(t.last() == a);
                assert(t.filter(keep) == (if keep(t.last()) {
                    t.drop_last().filter(keep).push(t.last())
                } else {
                    t.drop_last().filter(keep)
                }));
                assert(keep(a) == !(a.team_member_id == team_member_id && a.week_start_date == week_start));
            }
            if !(a.team_member_id == team_member_id && a.week_start_date == week_start) {
                self.allocations.push(a);
            }
            proof {
                i = i + 1;
            }
        }
        proof {
            assert(orig.take(i) =~= orig);
        }
        proof {
            if cells_unique(orig) {
                lemma_filter_unique(orig, keep);
            }
            assert forall|i: int| 0 <= i < orig.filter(keep).len() implies keep(#[trigger] orig.filter(keep)[i]) by {
                orig.lemma_filter_pred(keep, i);
            }
        }
        if assignments.len() > 0 {
            let ghost before = self.allocations@;
            self.allocations.push(Allocation { team_member_id, week_start_date: week_start, assignments });
            proof {
                assert(self.allocations@.drop_last() =~= before);
                let after = self.allocations@;
                if cells_unique(orig) {
                    assert forall|i: int, j: int| 0 <= i < j < after.len() implies !(#[trigger] after[i].team_member_id
                        == #[trigger] after[j].team_member_id && after[i].week_start_date == after[j].week_start_date) by {
                        if j == after.len() - 1 {
                            assert(after[i] == before[i]);
                            assert(keep(before[i]));
                        } else {
                            assert(after[i] == before[i]);
                            assert(after[j] == before[j]);
                        }
                    }
                }
            }
        }
    }

    /// Paints one cell. With nothing selected the cell is cleared; with a
    /// technical project that exists the cell is given to it in full.
    /// Afterwards the dates of the painted project and of every project that
    /// the cell held before are brought in line with their allocations.
    /// Returns false, changing nothing, when the selected project does not exist.
    pub fn allocate_project_to_cell(
        &mut self,
        selected_project: &SelectedProject,
        team_member_id: Id,
        week_start: Date,
        sprint_anchor: Date,
        sprint_length: usize,
    ) -> (r: bool)
        requires
            sprint_anchor.valid(),
            sprint_length > 0,
            week_start.valid(),
            sprint_in_range(week_start@, sprint_anchor@, sprint_length as int),
            weeks_in_sprint_range(old(self).allocations@, sprint_anchor@, sprint_length as int),
        ensures
            match *selected_project {
                SelectedProject::Nothing => {
                    &&& r
                    &&& cell_replaced(old(self).allocations@, final(self).allocations@, team_member_id, week_start, Seq::empty())
                },
                SelectedProject::Technical(pid) => if has_technical(old(self).technical_projects@, pid) {
                    &&& r
                    &&& cell_replaced(old(self).allocations@, final(self).allocations@, team_member_id, week_start,
                        seq![Assignment { technical_project_id: pid, percentage: 100 }])
                    &&& exists|k: int, first: int, last: int|
                        is_first_technical(old(self).technical_projects@, pid, k)
                        && is_earliest_week(final(self).allocations@, pid, first)
                        && is_latest_week(final(self).allocations@, pid, last)
                        && with_sprint_dates(old(self).technical_projects@[k], final(self).technical_projects@[k],
                            first, last, sprint_anchor@, sprint_length as int)
                } else {
                    &&& !r
                    &&& *final(self) == *old(self)
                },
            },
            final(self).technical_projects@.len() == old(self).technical_projects@.len(),
            forall|j: int| 0 <= j < old(self).technical_projects@.len()
                ==> (#[trigger] final(self).technical_projects@[j]).id == old(self).technical_projects@[j].id,
            final(self).roadmap_projects == old(self).roadmap_projects,
            final(self).quarter_name == old(self).quarter_name,
            final(self).quarter_start_date == old(self).quarter_start_date,
            final(self).num_weeks == old(self).num_weeks,
            weeks_in_sprint_range(final(self).allocations@, sprint_anchor@, sprint_length as int),
            cells_unique(old(self).allocations@) ==> cells_unique(final(self).allocations@),
            forall|p: Id| r && cell_held(old(self).allocations@, team_member_id, week_start, p)
                && selected_id(*selected_project) != Some(p)
                ==> #[trigger] dates_follow(old(self).technical_projects@, final(self).technical_projects@,
                    final(self).allocations@, p, sprint_anchor@, sprint_length as int),
            forall|j: int| 0 <= j < old(self).technical_projects@.len()
                && !(is_first_technical(old(self).technical_projects@, old(self).technical_projects@[j].id, j)
                    && painting_touches(*selected_project, old(self).allocations@, team_member_id, week_start,
                        old(self).technical_projects@[j].id))
                ==> #[trigger] final(self).technical_projects@[j] == old(self).technical_projects@[j],
    {
        let ghost anchor = sprint_anchor@;
        let ghost len = sprint_length as int;
        let painted: Option<Id> = match selected_project {
            SelectedProject::Nothing => None,
            SelectedProject::Technical(pid) => {
                if self.technical_index(pid).is_none() {
                    return false;
                }
                Some(*pid)
            },
        };
        let previous = self.cell_projects(team_member_id, week_start);
        let ghost old_allocs = self.allocations@;
        let mut cell: Vec<Assignment> = Vec::new();
        match painted {
            Some(pid) => cell.push(Assignment::new(pid, 100)),
            None => {},
        }
        proof {
            lemma_filter_keeps_range(old_allocs, other_cell(team_member_id, week_start), anchor, len);
        }
        self.replace_cell(team_member_id, week_start, cell);
        proof {
            let after = self.allocations@;
            if after.len() > old_allocs.filter(other_cell(team_member_id, week_start)).len() {
                assert forall|k: int| 0 <= k < after.len() implies (#[trigger] after[k]).week_start_date.valid()
                    && sprint_in_range(after[k].week_start_date@, anchor, len) by {
                    if k < after.len() - 1 {
                        assert(after[k] == after.drop_last()[k]);
                    }
                }
            }
        }
        let ghost tps_before = self.technical_projects@;
        let ghost after_cell = self.allocations@;
        let ghost prev_ids = previous@;
        let ghost mut selected_index: int = -1;
        match painted {
            Some(pid) => {
                proof {
                    let after = self.allocations@;
                    let last = after.len() - 1;
                    assert(after[last].assignments@[0].technical_project_id == pid);
                    assert(allocation_mentions(after[last], pid));
                    assert(project_has_allocations(after, pid));
                }
                self.update_technical_project_dates(&pid, sprint_anchor, sprint_length);
                proof {
                    selected_index = choose|k: int| is_first_technical(tps_before, pid, k);
                    let (k, first, last) = choose|k: int, first: int, last: int|
                        is_first_technical(tps_before, pid, k)
                        && is_earliest_week(after_cell, pid, first)
                        && is_latest_week(after_cell, pid, last)
                        && self.technical_projects@.len() == tps_before.len()
                        && with_sprint_dates(tps_before[k], self.technical_projects@[k], first, last, anchor, len)
                        && (forall|j: int| 0 <= j < tps_before.len() && j != k
                            ==> self.technical_projects@[j] == tps_before[j]);
                    assert(k == selected_index);
                    assert forall|j: int| 0 <= j < tps_before.len() implies same_identity(#[trigger] self.technical_projects@[j], tps_before[j]) by {
                        if j != k {
                            assert(self.technical_projects@[j] == tps_before[j]);
                        }
                    }
                }
            },
            None => {},
        }
        let ghost after_first = self.technical_projects@;
        let mut i: usize = 0;
        while i < previous.len()
            invariant
                anchor == sprint_anchor@,
                len == sprint_length as int,
                sprint_anchor.valid(),
                sprint_length > 0,
                prev_ids == previous@,
                i <= prev_ids.len(),
                weeks_in_sprint_range(self.allocations@, anchor, len),
                self.technical_projects@.len() == tps_before.len(),
                after_first.len() == tps_before.len(),
                forall|j: int| 0 <= j < tps_before.len() ==> same_identity(#[trigger] self.technical_projects@[j], tps_before[j]),
                painted.is_some() ==> 0 <= selected_index < tps_before.len()
                    && is_first_technical(tps_before, painted.unwrap(), selected_index)
                    && self.technical_projects@[selected_index] == after_first[selected_index],
                forall|p: Id| listed_before(prev_ids, i as int, p) && painted != Some(p)
                    ==> #[trigger] dates_follow(tps_before, self.technical_projects@, after_cell, p, anchor, len),
                forall|j: int| 0 <= j < tps_before.len()
                    && !(is_first_technical(tps_before, tps_before[j].id, j)
                        && (painted == Some(tps_before[j].id) || listed_before(prev_ids, i as int, tps_before[j].id)))
                    ==> #[trigger] self.technical_projects@[j] == tps_before[j],
                self.allocations@ == after_cell,
                self.roadmap_projects == old(self).roadmap_projects,
                self.quarter_name == old(self).quarter_name,
                self.quarter_start_date == old(self).quarter_start_date,
                self.num_weeks == old(self).num_weeks,
            decreases prev_ids.len() - i,
        {
            let prev = previous[i];
            let skip = match painted {
                Some(pid) => prev == pid,
                None => false,
            };
            let ghost tps_now = self.technical_projects@;
            if !skip {
                self.update_technical_project_dates(&prev, sprint_anchor, sprint_length);
                proof {
                    lemma_first_technical_same_ids(tps_before, tps_now, prev);
                    let tps_new = self.technical_projects@;
                    if project_has_allocations(after_cell, prev) && has_technical(tps_now, prev) {
                        let (k, first, last) = choose|k: int, first: int, last: int|
                            is_first_technical(tps_now, prev, k)
                            && is_earliest_week(after_cell, prev, first)
                            && is_latest_week(after_cell, prev, last)
                            && tps_new.len() == tps_now.len()
                            && with_sprint_dates(tps_now[k], tps_new[k], first, last, anchor, len)
                            && (forall|j: int| 0 <= j < tps_now.len() && j != k ==> tps_new[j] == tps_now[j]);
                        assert(is_first_technical(tps_before, prev, k));
                        assert(same_identity(tps_now[k], tps_before[k]));
                        assert(with_sprint_dates(tps_before[k], tps_new[k], first, last, anchor, len));
                        assert forall|j: int| 0 <= j < tps_before.len() implies same_identity(#[trigger] tps_new[j], tps_before[j]) by {
                            if j != k {
                                assert(tps_new[j] == tps_now[j]);
                            } else {
                                assert(same_identity(tps_now[j], tps_before[j]));
                            }
                        }
                        if painted.is_some() {
                            assert(tps_before[selected_index].id != prev);
                            assert(selected_index != k);
                            assert(tps_new[selected_index] == tps_now[selected_index]);
                        }
                        assert forall|p: Id| listed_before(prev_ids, i + 1, p) && painted != Some(p)
                            implies #[trigger] dates_follow(tps_before, tps_new, after_cell, p, anchor, len) by {
                            if p == prev {
                                assert forall|kk: int| #[trigger] is_first_technical(tps_before, p, kk) implies
                                    (if project_has_allocations(after_cell, p) {
                                        exists|f: int, l: int| is_earliest_week(after_cell, p, f)
                                            && is_latest_week(after_cell, p, l)
                                            && with_sprint_dates(tps_before[kk], tps_new[kk], f, l, anchor, len)
                                    } else {
                                        tps_new[kk] == tps_before[kk]
                                    }) by {
                                    lemma_first_technical_unique(tps_before, p, kk, k);
                                }
                            } else {
                                let x = choose|x: int| 0 <= x < i + 1 && prev_ids[x] == p;
                                assert(x != i);
                                assert(listed_before(prev_ids, i as int, p));
                                assert(dates_follow(tps_before, tps_now, after_cell, p, anchor, len));
                                assert forall|kk: int| #[trigger] is_first_technical(tps_before, p, kk) implies
                                    (if project_has_allocations(after_cell, p) {
                                        exists|f: int, l: int| is_earliest_week(after_cell, p, f)
                                            && is_latest_week(after_cell, p, l)
                                            && with_sprint_dates(tps_before[kk], tps_new[kk], f, l, anchor, len)
                                    } else {
                                        tps_new[kk] == tps_before[kk]
                                    }) by {
                                    assert(tps_before[kk].id == p);
                                    assert(kk != k);
                                    assert(tps_new[kk] == tps_now[kk]);
                                }
                            }
                        }
                        assert forall|j: int| 0 <= j < tps_before.len()
                            && !(is_first_technical(tps_before, tps_before[j].id, j)
                                && (painted == Some(tps_before[j].id) || listed_before(prev_ids, i + 1, tps_before[j].id)))
                            implies #[trigger] tps_new[j] == tps_before[j] by {
                            if j == k {
                                assert(prev_ids[i as int] == prev);
                                assert(listed_before(prev_ids, i + 1, prev));
                            }
                            if listed_before(prev_ids, i as int, tps_before[j].id) {
                                let x = choose|x: int| 0 <= x < i && prev_ids[x] == tps_before[j].id;
                                assert(listed_before(prev_ids, i + 1, tps_before[j].id));
                            }
                            assert(tps_new[j] == tps_now[j]);
                        }
                    } else {
                        assert(tps_new == tps_now);
                        assert forall|p: Id| listed_before(prev_ids, i + 1, p) && painted != Some(p)
                            implies #[trigger] dates_follow(tps_before, tps_new, after_cell, p, anchor, len) by {
                            if p == prev {
                                assert forall|kk: int| #[trigger] is_first_technical(tps_before, p, kk) implies
                                    (if project_has_allocations(after_cell, p) {
                                        exists|f: int, l: int| is_earliest_week(after_cell, p, f)
                                            && is_latest_week(after_cell, p, l)
                                            && with_sprint_dates(tps_before[kk], tps_new[kk], f, l, anchor, len)
                                    } else {
                                        tps_new[kk] == tps_before[kk]
                                    }) by {
                                    assert(has_technical(tps_now, p));
                                    if listed_before(prev_ids, i as int, p) {
                                        assert(dates_follow(tps_before, tps_now, after_cell, p, anchor, len));
                                    } else {
                                        assert(tps_now[kk] == tps_before[kk]);
                                    }
                                }
                            } else {
                                let x = choose|x: int| 0 <= x < i + 1 && prev_ids[x] == p;
                                assert(x != i);
                                assert(listed_before(prev_ids, i as int, p));
                            }
                        }
                        assert forall|j: int| 0 <= j < tps_before.len()
                            && !(is_first_technical(tps_before, tps_before[j].id, j)
                                && (painted == Some(tps_before[j].id) || listed_before(prev_ids, i + 1, tps_before[j].id)))
                            implies #[trigger] tps_new[j] == tps_before[j] by {
                            if listed_before(prev_ids, i as int, tps_before[j].id) {
                                let x = choose|x: int| 0 <= x < i && prev_ids[x] == tps_before[j].id;
                                assert(listed_before(prev_ids, i + 1, tps_before[j].id));
                            }
                            assert(tps_now[j] == tps_before[j]);
                        }
                    }
                }
            } else {
                proof {
                    assert forall|p: Id| listed_before(prev_ids, i + 1, p) && painted != Some(p)
                        implies #[trigger] dates_follow(tps_before, tps_now, after_cell, p, anchor, len) by {
                        let x = choose|x: int| 0 <= x < i + 1 && prev_ids[x] == p;
                        if x == i {
                            assert(prev_ids[i as int] == prev);
                        }
                        assert(listed_before(prev_ids, i as int, p));
                    }
                    assert forall|j: int| 0 <= j < tps_before.len()
                        && !(is_first_technical(tps_before, tps_before[j].id, j)
                            && (painted == Some(tps_before[j].id) || listed_before(prev_ids, i + 1, tps_before[j].id)))
                        implies #[trigger] tps_now[j] == tps_before[j] by {
                        if listed_before(prev_ids, i as int, tps_before[j].id) {
                            let x = choose|x: int| 0 <= x < i && prev_ids[x] == tps_before[j].id;
                            assert(listed_before(prev_ids, i + 1, tps_before[j].id));
                        }
                    }
                }
            }
            i += 1;
        }
        proof {
            assert forall|p: Id| cell_held(old(self).allocations@, team_member_id, week_start, p)
                implies listed_before(prev_ids, prev_ids.len() as int, p) by {
                assert(prev_ids.contains(p));
                let x = choose|x: int| 0 <= x < prev_ids.len() && prev_ids[x] == p;
            }
            assert forall|p: Id| listed_before(prev_ids, prev_ids.len() as int, p)
                implies cell_held(old(self).allocations@, team_member_id, week_start, p) by {
                let x = choose|x: int| 0 <= x < prev_ids.len() && prev_ids[x] == p;
                assert(prev_ids.contains(p));
            }
            if painted.is_some() {
                let pid = painted.unwrap();
                let (k, first, last) = choose|k: int, first: int, last: int|
                    is_first_technical(tps_before, pid, k)
                    && is_earliest_week(after_cell, pid, first)
                    && is_latest_week(after_cell, pid, last)
                    && after_first.len() == tps_before.len()
                    && with_sprint_dates(tps_before[k], after_first[k], first, last, anchor, len)
                    && (forall|j: int| 0 <= j < tps_before.len() && j != k
                        ==> after_first[j] == tps_before[j]);
                lemma_first_technical_unique(tps_before, pid, k, selected_index);
                assert(with_sprint_dates(tps_before[k], self.technical_projects@[k], first, last, anchor, len));
            }
        }
        true
    }

    /// Distinct names of the technical projects that a member is assigned to,
    /// in order of first appearance. Assignments to projects that do not
    /// exist are passed over.
    pub fn get_assigned_project_names_for_member(&self, team_member_id: &Id) -> (r: Vec<String>)
        ensures
            distinct_texts(r@),
            forall|name: Seq<char>| #[trigger] lists_text(r@, name)
                <==> member_project_name(self.allocations@, self.technical_projects@, *team_member_id, name),
    {
        let ghost allocs = self.allocations@;
        let ghost tps = self.technical_projects@;
        let ghost mid = *team_member_id;
        let mut names: Vec<String> = Vec::new();
        let mut i: usize = 0;
        while i < self.allocations.len()
            invariant
                allocs == self.allocations@,
                tps == self.technical_projects@,
                mid == *team_member_id,
                i <= allocs.len(),
                distinct_texts(names@),
                forall|name: Seq<char>| #[trigger] lists_text(names@, name) <==> named_before(allocs, tps, mid, i as int, 0, name),
            decreases allocs.len() - i,
        {
            let alloc = &self.allocations[i];
            if alloc.team_member_id == *team_member_id {
                let mut j: usize = 0;
                while j < alloc.assignments.len()
                    invariant
                        allocs == self.allocations@,
                        tps == self.technical_projects@,
                        mid == *team_member_id,
                        i < allocs.len(),
                        *alloc == allocs[i as int],
                        alloc.team_member_id == mid,
                        j <= alloc.assignments@.len(),
                        distinct_texts(names@),
                        forall|name: Seq<char>| #[trigger] lists_text(names@, name) <==> named_before(allocs, tps, mid, i as int, j as int, name),
                    decreases alloc.assignments@.len() - j,
                {
                    let pid = alloc.assignments[j].technical_project_id;
                    let ghost before = names@;
                    match self.technical_index(&pid) {
                        Some(p) => {
                            let name = &self.technical_projects[p].name;
                            let mut seen = false;
                            let mut x: usize = 0;
                            while x < names.len()
                                invariant
                                    x <= names@.len(),
                                    seen == exists|y: int| 0 <= y < x && (#[trigger] names@[y])@ == name@,
                                decreases names@.len() - x,
                            {
                                if names[x] == *name {
                                    seen = true;
                                }
                                x += 1;
                            }
                            if !seen {
                                names.push(name.clone());
                            }
                            proof {
                                assert(allocs[i as int].assignments@[j as int].technical_project_id == pid);
                                assert(is_first_technical(tps, pid, p as int));
                                assert forall|nm: Seq<char>| #[trigger] lists_text(names@, nm) <==> named_before(allocs, tps, mid, i as int, j + 1, nm) by {
                                    if lists_text(names@, nm) {
                                        let x = choose|x: int| 0 <= x < names@.len() && (#[trigger] names@[x])@ == nm;
                                        if x < before.len() {
                                            assert(before[x]@ == nm);
                                            assert(lists_text(before, nm));
                                            assert(named_before(allocs, tps, mid, i as int, j as int, nm));
                                            let (k, jj, q) = choose|k: int, jj: int, q: int|
                                                ((0 <= k < i) || (k == i && jj < j)) && allocs[k].team_member_id == mid
                                                && 0 <= jj < allocs[k].assignments@.len()
                                                && is_first_technical(tps, (#[trigger] allocs[k].assignments@[jj]).technical_project_id, q)
                                                && (#[trigger] tps[q]).name@ == nm;
                                            assert(tps[q].name@ == nm);
                                        } else {
                                            assert(tps[p as int].name@ == nm);
                                            assert(allocs[i as int].assignments@[j as int].technical_project_id == pid);
                                        }
                                        assert(named_before(allocs, tps, mid, i as int, j + 1, nm));
                                    }
                                    if named_before(allocs, tps, mid, i as int, j + 1, nm) {
                                        let (k, jj, q) = choose|k: int, jj: int, q: int|
                                            ((0 <= k < i) || (k == i && jj < j + 1)) && allocs[k].team_member_id == mid
                                            && 0 <= jj < allocs[k].assignments@.len()
                                            && is_first_technical(tps, (#[trigger] allocs[k].assignments@[jj]).technical_project_id, q)
                                            && (#[trigger] tps[q]).name@ == nm;
                                        if k == i && jj == j {
                                            assert(q == p);
                                            if seen {
                                                let y = choose|y: int| 0 <= y < before.len() && (#[trigger] before[y])@ == name@;
                                                assert(names@[y]@ == nm);
                                            } else {
                                                assert(names@[before.len() as int]@ == nm);
                                            }
                                            assert(lists_text(names@, nm));
                                        } else {
                                            assert(allocs[k].assignments@[jj].technical_project_id == allocs[k].assignments@[jj].technical_project_id);
                                            assert(tps[q].name@ == nm);
                                            assert(named_before(allocs, tps, mid, i as int, j as int, nm));
                                            assert(lists_text(before, nm));
                                            let y = choose|y: int| 0 <= y < before.len() && (#[trigger] before[y])@ == nm;
                                            assert(names@[y] == before[y]);
                                            assert(lists_text(names@, nm));
                                        }
                                    }
                                }
                            }
                        },
                        None => {
                            proof {
                                assert forall|nm: Seq<char>| #[trigger] lists_text(names@, nm) <==> named_before(allocs, tps, mid, i as int, j + 1, nm) by {
                                    if named_before(allocs, tps, mid, i as int, j + 1, nm) {
                                        let (k, jj, q) = choose|k: int, jj: int, q: int|
                                            ((0 <= k < i) || (k == i && jj < j + 1)) && allocs[k].team_member_id == mid
                                            && 0 <= jj < allocs[k].assignments@.len()
                                            && is_first_technical(tps, (#[trigger] allocs[k].assignments@[jj]).technical_project_id, q)
                                            && (#[trigger] tps[q]).name@ == nm;
                                        if k == i && jj == j {
                                            assert(allocs[k].assignments@[jj].technical_project_id == pid);
                                            assert(tps[q].id == pid);
                                            assert(false);
                                        }
                                    }
                                }
                            }
                        },
                    }
                    j += 1;
                }
            }
            i += 1;
        }
        names
    }

    /// Stamps the current time as the plan's last modification.
    pub fn mark_modified(&mut self)
        ensures
            same_but_modified_time(final(self).metadata, old(self).metadata),
            final(self).quarter_name == old(self).quarter_name,
            final(self).quarter_start_date == old(self).quarter_start_date,
            final(self).num_weeks == old(self).num_weeks,
            final(self).roadmap_projects == old(self).roadmap_projects,
            final(self).technical_projects == old(self).technical_projects,
            final(self).allocations == old(self).allocations,
    {
        self.metadata.mark_modified();
    }
}

/// Whatever a deterministic lookup returns is the role it is taken to give.
proof fn lemma_role_lookup_agrees<F: Fn(&Id) -> Option<Role>>(lookup: F)
    requires
        is_role_lookup(lookup),
    ensures
        forall|id: &Id, x: Option<Role>| #[trigger] lookup.ensures((id,), x) ==> x == looked_up_role(lookup)(*id),
{
    assert forall|id: &Id, x: Option<Role>| #[trigger] lookup.ensures((id,), x) implies x == looked_up_role(lookup)(*id) by {
        let c = choose|r: Option<Role>| lookup.ensures((id,), r);
        assert(lookup.ensures((id,), c));
    }
}

/// Lists with the same identifiers at each index have the same first index
/// for every identifier.
proof fn lemma_first_technical_same_ids(a: Seq<TechnicalProject>, b: Seq<TechnicalProject>, id: Id)
    requires
        a.len() == b.len(),
        forall|j: int| 0 <= j < a.len() ==> same_identity(#[trigger] b[j], a[j]),
    ensures
        forall|k: int| #[trigger] is_first_technical(a, id, k) <==> is_first_technical(b, id, k),
        has_technical(a, id) <==> has_technical(b, id),
{
    assert forall|k: int| #[trigger] is_first_technical(a, id, k) <==> is_first_technical(b, id, k) by {
        if 0 <= k < a.len() {
            assert(same_identity(b[k], a[k]));
            assert forall|j: int| 0 <= j < k implies (#[trigger] a[j]).id == b[j].id by {
                assert(same_identity(b[j], a[j]));
            }
        }
    }
    if has_technical(a, id) {
        let k = choose|k: int| 0 <= k < a.len() && (#[trigger] a[k]).id == id;
        assert(same_identity(b[k], a[k]));
    }
    if has_technical(b, id) {
        let k = choose|k: int| 0 <= k < b.len() && (#[trigger] b[k]).id == id;
        assert(same_identity(b[k], a[k]));
    }
}

/// An identifier has one first index.
proof fn lemma_first_technical_unique(a: Seq<TechnicalProject>, id: Id, k1: int, k2: int)
    requires
        is_first_technical(a, id, k1),
        is_first_technical(a, id, k2),
    ensures
        k1 == k2,
{
    if k1 < k2 {
        assert(a[k1].id == id);
    }
    if k2 < k1 {
        assert(a[k2].id == id);
    }
}

/// Appending to a list adds exactly the appended identifier.
proof fn lemma_push_contains(before: Seq<Id>, id: Id)
    ensures
        forall|m: Id| #[trigger] before.push(id).contains(m) <==> (before.contains(m) || m == id),
{
    let after = before.push(id);
    assert forall|m: Id| #[trigger] after.contains(m) <==> (before.contains(m) || m == id) by {
        if after.contains(m) {
            let k = choose|k: int| 0 <= k < after.len() && after[k] == m;
            if k < before.len() {
                assert(before[k] == m);
            }
        }
        if before.contains(m) {
            let k = choose|k: int| 0 <= k < before.len() && before[k] == m;
            assert(after[k] == m);
        }
        assert(after[before.len() as int] == id);
    }
}

/// Inserting into a list adds exactly the inserted identifier.
proof fn lemma_insert_contains(before: Seq<Id>, i: int, id: Id)
    requires
        0 <= i <= before.len(),
    ensures
        forall|m: Id| #[trigger] before.insert(i, id).contains(m) <==> (before.contains(m) || m == id),
{
    let after = before.insert(i, id);
    assert forall|m: Id| #[trigger] after.contains(m) <==> (before.contains(m) || m == id) by {
        if after.contains(m) {
            let k = choose|k: int| 0 <= k < after.len() && after[k] == m;
            if k < i {
                assert(before[k] == m);
            } else if k > i {
                assert(before[k - 1] == m);
            }
        }
        if before.contains(m) {
            let k = choose|k: int| 0 <= k < before.len() && before[k] == m;
            if k < i {
                assert(after[k] == m);
            } else {
                assert(after[k + 1] == m);
            }
        }
        assert(after[i] == id);
    }
}

/// Inserts `id` into a strictly increasing list unless it is already there.
fn insert_sorted(ids: &mut Vec<Id>, id: Id)
    requires
        strictly_sorted(old(ids)@),
    ensures
        strictly_sorted(final(ids)@),
        forall|m: Id| final(ids)@.contains(m) <==> (old(ids)@.contains(m) || m == id),
{
    let mut i: usize = 0;
    while i < ids.len() && ids[i].value < id.value
        invariant
            i <= ids@.len(),
            ids@ == old(ids)@,
            forall|k: int| 0 <= k < i ==> (#[trigger] ids@[k]).value < id.value,
        decreases ids@.len() - i,
    {
        i += 1;
    }
    if i < ids.len() && ids[i].value == id.value {
        proof {
            assert(ids@[i as int] == id);
            assert(ids@.contains(id));
        }
        return;
    }
    let ghost before = ids@;
    ids.insert(i, id);
    proof {
        assert(ids@ =~= before.take(i as int).push(id) + before.skip(i as int));
        assert forall|a: int, b: int| 0 <= a < b < ids@.len() implies (#[trigger] ids@[a]).value < (#[trigger] ids@[b]).value by {
            if b < i {
            } else if b == i {
            } else if a < i {
                assert(before[b - 1].value > id.value || before[b - 1].value >= before[i as int].value);
            } else if a == i {
                assert(before[i as int].value > id.value);
                assert(before[b - 1].value >= before[i as int].value);
            } else {
                assert(before[a - 1].value < before[b - 1].value);
            }
        }
        lemma_insert_contains(before, i as int, id);
    }
}

/// Every allocation that a filter keeps was in the list.
proof fn lemma_filter_within(s: Seq<Allocation>, keep: spec_fn(Allocation) -> bool)
    ensures
        forall|i: int| 0 <= i < s.filter(keep).len() ==> s.contains(#[trigger] s.filter(keep)[i]),
    decreases s.len(),
{
    reveal(Seq::filter);
    if s.len() > 0 {
        let t = s.drop_last();
        lemma_filter_within(t, keep);
        let out = s.filter(keep);
        assert forall|i: int| 0 <= i < out.len() implies s.contains(#[trigger] out[i]) by {
            if i < t.filter(keep).len() {
                assert(out[i] == t.filter(keep)[i]);
                assert(t.contains(out[i]));
                let j = choose|j: int| 0 <= j < t.len() && t[j] == out[i];
                assert(s[j] == out[i]);
            } else {
                assert(out[i] == s.last());
                assert(s[s.len() - 1] == out[i]);
            }
        }
    }
}

/// Dropping allocations keeps the cells apart.
proof fn lemma_filter_unique(s: Seq<Allocation>, keep: spec_fn(Allocation) -> bool)
    requires
        cells_unique(s),
    ensures
        cells_unique(s.filter(keep)),
    decreases s.len(),
{
    reveal(Seq::filter);
    if s.len() > 0 {
        let t = s.drop_last();
        assert forall|i: int, j: int| 0 <= i < j < t.len() implies !(#[trigger] t[i].team_member_id
            == #[trigger] t[j].team_member_id && t[i].week_start_date == t[j].week_start_date) by {
            assert(t[i] == s[i] && t[j] == s[j]);
        }
        lemma_filter_unique(t, keep);
        lemma_filter_within(t, keep);
        let ft = t.filter(keep);
        let out = s.filter(keep);
        if keep(s.last()) {
            assert(out == ft.push(s.last()));
            assert forall|i: int, j: int| 0 <= i < j < out.len() implies !(#[trigger] out[i].team_member_id
                == #[trigger] out[j].team_member_id && out[i].week_start_date == out[j].week_start_date) by {
                if j == out.len() - 1 {
                    assert(out[i] == ft[i]);
                    assert(t.contains(ft[i]));
                    let k = choose|k: int| 0 <= k < t.len() && t[k] == ft[i];
                    assert(s[k] == t[k]);
                    assert(out[j] == s[s.len() - 1]);
                } else {
                    assert(out[i] == ft[i] && out[j] == ft[j]);
                }
            }
        } else {
            assert(out == ft);
        }
    }
}

/// Weeks stay in range when allocations are dropped.
proof fn lemma_filter_keeps_range(s: Seq<Allocation>, keep: spec_fn(Allocation) -> bool, anchor: int, sprint_length: int)
    requires
        weeks_in_sprint_range(s, anchor, sprint_length),
    ensures
        weeks_in_sprint_range(s.filter(keep), anchor, sprint_length),
{
    lemma_filter_within(s, keep);
    let out = s.filter(keep);
    assert forall|k: int| 0 <= k < out.len() implies (#[trigger] out[k]).week_start_date.valid()
        && sprint_in_range(out[k].week_start_date@, anchor, sprint_length) by {
        assert(s.contains(out[k]));
        let j = choose|j: int| 0 <= j < s.len() && s[j] == out[k];
        assert(s[j].week_start_date.valid());
    }
}

/// Start and name of the quarter that a default plan covers when created on
/// day `today`: the next quarter to plan, or where none can be written,
/// today's last quarter.
pub open spec fn default_quarter(today: int) -> (int, int) {
    let y = year_of_day(today);
    let q = first_quarter_from(y, today);
    if q != 0 {
        (y, q)
    } else if y < MAX_YEAR {
        (y + 1, 1)
    } else {
        (y, 4)
    }
}

impl PlanState {
    /// An empty thirteen-week plan for the next quarter to plan from `today`.
    pub fn for_next_quarter(today: Date) -> (r: PlanState)
        requires
            today.valid(),
        ensures
            r.quarter_start_date@ == quarter_start_day(default_quarter(today@).0, default_quarter(today@).1),
            r.quarter_name@ == quarter_name_text(default_quarter(today@).1, default_quarter(today@).0),
            r.num_weeks == 13,
            r.roadmap_projects@.len() == 0,
            r.technical_projects@.len() == 0,
            r.allocations@.len() == 0,
            r.metadata.version@ == "1.0"@,
    {
        let (name, start) = match get_next_quarter_info(today) {
            Some((_, _, start, name)) => (name, start),
            None => {
                let year = today.year();
                match get_quarter_start_date(year, 4) {
                    Some(start) => (quarter_name(4, year), start),
                    None => (quarter_name(4, year), today),
                }
            },
        };
        PlanState::new(name, start, 13)
    }
}

impl Default for PlanState {
    /// An empty thirteen-week plan for the next quarter to plan from today.
    fn default() -> (r: PlanState)
        ensures
            r.num_weeks == 13,
            r.roadmap_projects@.len() == 0,
            r.technical_projects@.len() == 0,
            r.allocations@.len() == 0,
            r.metadata.version@ == "1.0"@,
    {
        PlanState::for_next_quarter(Date::today())
    }
}

impl TechnicalProject {
    /// Colour of the linked roadmap project; blue when unlinked or when the
    /// link dangles.
    pub fn get_color_from_state(&self, state: &PlanState) -> (r: ProjectColor)
        ensures
            match self.roadmap_project_id {
                Some(rid) => if has_roadmap(state.roadmap_projects@, rid) {
                    exists|k: int| is_first_roadmap(state.roadmap_projects@, rid, k)
                        && r == state.roadmap_projects@[k].color
                } else {
                    r == ProjectColor::Blue
                },
                None => r == ProjectColor::Blue,
            },
    {
        match self.roadmap_project_id {
            Some(rid) => match state.get_roadmap_project(&rid) {
                Some(rp) => rp.color,
                None => ProjectColor::Blue,
            },
            None => ProjectColor::Blue,
        }
    }
}

} // verus!
