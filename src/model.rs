use crate::date::Date;
use crate::ids::Id;
use crate::sums::{lemma_sum_of_prefix_bound, lemma_sum_of_take_step, sum_of};
use vstd::prelude::*;

verus! {

/// Role of a team member.
#[derive(Clone, Copy, Debug, PartialEq, Eq, Structural, Hash)]
pub enum Role {
    Engineering,
    Science,
}

impl Role {
    /// Short label for badges.
    pub fn short_name(&self) -> (r: &'static str)
        ensures
            r@ == (match self {
                Role::Engineering => "SDE"@,
                Role::Science => "AS"@,
            }),
    {
        match self {
            Role::Engineering => "SDE",
            Role::Science => "AS",
        }
    }
}

/// Colour that tells projects apart in the allocation grid.
#[derive(Clone, Copy, Debug, PartialEq, Eq, Structural, Hash)]
pub enum ProjectColor {
    Blue,
    Green,
    Yellow,
    Orange,
    Red,
    Purple,
    Pink,
    Teal,
    Indigo,
}

pub open spec fn color_hex(c: ProjectColor) -> Seq<char> {
    match c {
        ProjectColor::Blue => "#5AC8FA"@,
        ProjectColor::Green => "#4ADE80"@,
        ProjectColor::Yellow => "#FBBF24"@,
        ProjectColor::Orange => "#FB923C"@,
        ProjectColor::Red => "#F472B6"@,
        ProjectColor::Purple => "#A78BFA"@,
        ProjectColor::Pink => "#E879F9"@,
        ProjectColor::Teal => "#2DD4BF"@,
        ProjectColor::Indigo => "#818CF8"@,
    }
}

pub open spec fn color_css_var(c: ProjectColor) -> Seq<char> {
    match c {
        ProjectColor::Blue => "var(--project-cyan)"@,
        ProjectColor::Green => "var(--project-lime)"@,
        ProjectColor::Yellow => "var(--project-yellow)"@,
        ProjectColor::Orange => "var(--project-orange)"@,
        ProjectColor::Red => "var(--project-pink)"@,
        ProjectColor::Purple => "var(--project-violet)"@,
        ProjectColor::Pink => "var(--project-magenta)"@,
        ProjectColor::Teal => "var(--project-teal)"@,
        ProjectColor::Indigo => "var(--project-purple)"@,
    }
}

impl ProjectColor {
    /// CSS hex colour of the palette entry.
    pub fn to_hex(self) -> (r: &'static str)
        ensures
            r@ == color_hex(self),
    {
        match self {
            ProjectColor::Blue => "#5AC8FA",
            ProjectColor::Green => "#4ADE80",
            ProjectColor::Yellow => "#FBBF24",
            ProjectColor::Orange => "#FB923C",
            ProjectColor::Red => "#F472B6",
            ProjectColor::Purple => "#A78BFA",
            ProjectColor::Pink => "#E879F9",
            ProjectColor::Teal => "#2DD4BF",
            ProjectColor::Indigo => "#818CF8",
        }
    }

    /// CSS custom property of the palette entry.
    pub fn to_css_var(self) -> (r: &'static str)
        ensures
            r@ == color_css_var(self),
    {
        match self {
            ProjectColor::Blue => "var(--project-cyan)",
            ProjectColor::Green => "var(--project-lime)",
            ProjectColor::Yellow => "var(--project-yellow)",
            ProjectColor::Orange => "var(--project-orange)",
            ProjectColor::Red => "var(--project-pink)",
            ProjectColor::Purple => "var(--project-violet)",
            ProjectColor::Pink => "var(--project-magenta)",
            ProjectColor::Teal => "var(--project-teal)",
            ProjectColor::Indigo => "var(--project-purple)",
        }
    }
}

/// A member of the team. Capacity is in hundredths of a week per quarter.
#[derive(Clone, Debug, PartialEq, Eq)]
pub struct TeamMember {
    pub id: Id,
    pub name: String,
    pub role: Role,
    pub capacity: u32,
}

impl TeamMember {
    /// A member with a fresh identifier.
    pub fn new(name: String, role: Role, capacity: u32) -> (r: TeamMember)
        ensures
            r.name == name,
            r.role == role,
            r.capacity == capacity,
    {
        TeamMember { id: Id::new_v4(), name, role, capacity }
    }
}

/// A high-level initiative. Estimates are in hundredths of a week.
#[derive(Clone, Debug, PartialEq, Eq)]
pub struct RoadmapProject {
    pub id: Id,
    pub name: String,
    pub eng_estimate: u32,
    pub sci_estimate: u32,
    pub start_date: Date,
    pub launch_date: Date,
    pub color: ProjectColor,
    pub notes: Option<String>,
}

impl RoadmapProject {
    /// A roadmap project with a fresh identifier and no notes.
    pub fn new(
        name: String,
        eng_estimate: u32,
        sci_estimate: u32,
        start_date: Date,
        launch_date: Date,
        color: ProjectColor,
    ) -> (r: RoadmapProject)
        ensures
            r.name == name,
            r.eng_estimate == eng_estimate,
            r.sci_estimate == sci_estimate,
            r.start_date == start_date,
            r.launch_date == launch_date,
            r.color == color,
            r.notes.is_none(),
    {
        RoadmapProject {
            id: Id::new_v4(),
            name,
            eng_estimate,
            sci_estimate,
            start_date,
            launch_date,
            color,
            notes: None,
        }
    }

    /// Engineering plus science estimate.
    pub fn total_estimate(&self) -> (r: u64)
        ensures
            r == self.eng_estimate + self.sci_estimate,
    {
        self.eng_estimate as u64 + self.sci_estimate as u64
    }
}

/// A unit of implementation work, possibly linked to a roadmap project.
/// Estimates are in hundredths of a week.
#[derive(Clone, Debug, PartialEq, Eq)]
pub struct TechnicalProject {
    pub id: Id,
    pub name: String,
    pub roadmap_project_id: Option<Id>,
    pub eng_estimate: u32,
    pub sci_estimate: u32,
    pub start_date: Date,
    pub expected_completion: Option<Date>,
    pub notes: Option<String>,
}

impl TechnicalProject {
    /// A technical project with a fresh identifier, no expected completion and no notes.
    pub fn new(
        name: String,
        roadmap_project_id: Option<Id>,
        eng_estimate: u32,
        sci_estimate: u32,
        start_date: Date,
    ) -> (r: TechnicalProject)
        ensures
            r.name == name,
            r.roadmap_project_id == roadmap_project_id,
            r.eng_estimate == eng_estimate,
            r.sci_estimate == sci_estimate,
            r.start_date == start_date,
            r.expected_completion.is_none(),
            r.notes.is_none(),
    {
        TechnicalProject {
            id: Id::new_v4(),
            name,
            roadmap_project_id,
            eng_estimate,
            sci_estimate,
            start_date,
            expected_completion: None,
            notes: None,
        }
    }

    /// Engineering plus science estimate.
    pub fn total_estimate(&self) -> (r: u64)
        ensures
            r == self.eng_estimate + self.sci_estimate,
    {
        self.eng_estimate as u64 + self.sci_estimate as u64
    }
}

/// Share of a week (in percent) given to a technical project.
#[derive(Clone, Copy, Debug, PartialEq, Eq, Structural)]
pub struct Assignment {
    pub technical_project_id: Id,
    pub percentage: u32,
}

impl Assignment {
    pub fn new(technical_project_id: Id, percentage: u32) -> (r: Assignment)
        requires
            percentage <= 100,
        ensures
            r.technical_project_id == technical_project_id,
            r.percentage == percentage,
    {
        Assignment { technical_project_id, percentage }
    }
}

/// Percentage of an assignment, as a summand.
pub open spec fn assignment_percent() -> spec_fn(Assignment) -> int {
    |a: Assignment| a.percentage as int
}

/// Percentages of a list of assignments, added up.
pub open spec fn assignments_total(s: Seq<Assignment>) -> int {
    sum_of(s, assignment_percent())
}

/// Percentage that an assignment gives to one project, as a summand.
pub open spec fn project_percent(project_id: Id) -> spec_fn(Assignment) -> int {
    |a: Assignment| if a.technical_project_id == project_id { a.percentage as int } else { 0 }
}

/// Percentages given to one project in a list of assignments, added up.
pub open spec fn project_total(s: Seq<Assignment>, project_id: Id) -> int {
    sum_of(s, project_percent(project_id))
}

/// Some assignment in the list goes to the project.
pub open spec fn mentions_project(s: Seq<Assignment>, project_id: Id) -> bool {
    exists|k: int| 0 <= k < s.len() && (#[trigger] s[k]).technical_project_id == project_id
}

/// What one team member works on in one week.
#[derive(Clone, Debug, PartialEq, Eq)]
pub struct Allocation {
    pub team_member_id: Id,
    /// First day of the week.
    pub week_start_date: Date,
    /// Zero, one or two (a split week) assignments.
    pub assignments: Vec<Assignment>,
}

impl Allocation {
    /// An allocation with no assignment yet.
    pub fn new(team_member_id: Id, week_start_date: Date) -> (r: Allocation)
        ensures
            r.team_member_id == team_member_id,
            r.week_start_date == week_start_date,
            r.assignments@.len() == 0,
    {
        Allocation { team_member_id, week_start_date, assignments: Vec::new() }
    }

    /// Sum of the assignments' percentages.
    pub fn total_percentage(&self) -> (r: u64)
        requires
            assignments_total(self.assignments@) <= u64::MAX,
        ensures
            r == assignments_total(self.assignments@),
    {
                let mut total: u64 = 0;
        let mut i: usize = 0;
        while i < self.assignments.len()
            invariant
                i <= self.assignments@.len(),
                assignments_total(self.assignments@) <= u64::MAX,
                total == sum_of(self.assignments@.take(i as int), assignment_percent()),
            decreases self.assignments@.len() - i,
        {
            proof {
                lemma_sum_of_take_step(self.assignments@, assignment_percent(), i as int);
                assert forall|x: Assignment| #[trigger] assignment_percent()(x) >= 0 by {}
                lemma_sum_of_prefix_bound(self.assignments@, assignment_percent(), i as int + 1);
            }
            total = total + self.assignments[i].percentage as u64;
            i += 1;
        }
        proof {
            assert(self.assignments@.take(i as int) =~= self.assignments@);
        }
        total
    }

    /// The percentages add up to exactly `target`; the sum is not formed past
    /// the target, so no size of the list can overflow it.
    fn percentage_equals(&self, target: u64) -> (r: bool)
        ensures
            r == (assignments_total(self.assignments@) == target),
    {
                let mut total: u64 = 0;
        let mut i: usize = 0;
        while i < self.assignments.len()
            invariant
                i <= self.assignments@.len(),
                total == sum_of(self.assignments@.take(i as int), assignment_percent()),
                total <= target,
            decreases self.assignments@.len() - i,
        {
            proof {
                lemma_sum_of_take_step(self.assignments@, assignment_percent(), i as int);
            }
            let p = self.assignments[i].percentage as u64;
            if p > target - total {
                proof {
                    assert forall|x: Assignment| #[trigger] assignment_percent()(x) >= 0 by {}
                lemma_sum_of_prefix_bound(self.assignments@, assignment_percent(), i as int + 1);
                }
                return false;
            }
            total = total + p;
            i += 1;
        }
        proof {
            assert(self.assignments@.take(i as int) =~= self.assignments@);
        }
        total == target
    }

    /// Empty, or assigned in full (the percentages add up to 100).
    pub fn is_valid(&self) -> (r: bool)
        ensures
            r == (self.assignments@.len() == 0 || assignments_total(self.assignments@) == 100),
    {
        self.is_empty() || self.percentage_equals(100)
    }

    /// The percentages add up to 100.
    pub fn is_full(&self) -> (r: bool)
        ensures
            r == (assignments_total(self.assignments@) == 100),
    {
        self.percentage_equals(100)
    }

    /// No assignment.
    pub fn is_empty(&self) -> (r: bool)
        ensures
            r == (self.assignments@.len() == 0),
    {
        self.assignments.len() == 0
    }

    /// Percentage of the week given to one project.
    pub fn project_percentage(&self, project_id: Id) -> (r: u64)
        requires
            project_total(self.assignments@, project_id) <= u64::MAX,
        ensures
            r == project_total(self.assignments@, project_id),
    {
                let mut total: u64 = 0;
        let mut i: usize = 0;
        while i < self.assignments.len()
            invariant
                i <= self.assignments@.len(),
                project_total(self.assignments@, project_id) <= u64::MAX,
                total == sum_of(self.assignments@.take(i as int), project_percent(project_id)),
            decreases self.assignments@.len() - i,
        {
            proof {
                lemma_sum_of_take_step(self.assignments@, project_percent(project_id), i as int);
                assert forall|x: Assignment| #[trigger] project_percent(project_id)(x) >= 0 by {}
                lemma_sum_of_prefix_bound(self.assignments@, project_percent(project_id), i as int + 1);
            }
            if self.assignments[i].technical_project_id == project_id {
                total = total + self.assignments[i].percentage as u64;
            }
            i += 1;
        }
        proof {
            assert(self.assignments@.take(i as int) =~= self.assignments@);
        }
        total
    }

    /// Some assignment goes to the project.
    pub fn has_project(&self, project_id: Id) -> (r: bool)
        ensures
            r == mentions_project(self.assignments@, project_id),
    {
        let mut i: usize = 0;
        while i < self.assignments.len()
            invariant
                i <= self.assignments@.len(),
                forall|k: int| 0 <= k < i ==> (#[trigger] self.assignments@[k]).technical_project_id != project_id,
            decreases self.assignments@.len() - i,
        {
            if self.assignments[i].technical_project_id == project_id {
                return true;
            }
            i += 1;
        }
        false
    }
}

} // verus!
