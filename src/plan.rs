use crate::date::{civil_day_number, Date};
use crate::ids::Id;
use crate::ledger::{
    apply_project_dates, member_allocated_weeks, project_allocated_weeks, roadmap_index,
    roadmap_role_totals, technical_index,
};
use crate::model::{
    assignment_percent, assignments_total, Allocation, Assignment, RoadmapProject, Role, TeamMember,
    TechnicalProject,
};
use crate::plan_export::knows_member;
use crate::plan_state::{
    has_roadmap, has_technical, is_earliest_week, is_first_roadmap, is_first_technical,
    is_latest_week, linked_allocated, linked_role_allocated, member_allocated, project_allocated,
    project_has_allocations, project_weeks_in_range, with_sprint_dates,
};
use crate::sums::{lemma_sum_of_nonneg, lemma_sum_of_prefix_bound, lemma_sum_of_take_step, sum_of};
use vstd::prelude::*;

verus! {

/// A whole quarterly plan in one value: team, sprint settings and planning data.
#[derive(Clone, Debug, PartialEq, Eq)]
pub struct Plan {
    pub version: String,
    pub quarter: String,
    pub quarter_start_date: Date,
    pub weeks_in_quarter: usize,
    pub sprint_length_weeks: usize,
    pub sprint_anchor_date: Date,
    pub team_name: String,
    pub team_members: Vec<TeamMember>,
    pub roadmap_projects: Vec<RoadmapProject>,
    pub technical_projects: Vec<TechnicalProject>,
    pub allocations: Vec<Allocation>,
}

/// Sprint anchor when none is recorded: January 1, 2024.
pub fn default_sprint_anchor() -> (r: Date)
    ensures
        r@ == civil_day_number(2024, 1, 1),
        r.valid(),
{
    match Date::from_ymd_opt(2024, 1, 1) {
        Some(d) => d,
        None => {
            assert(false);
            Date { days: 0 }
        },
    }
}

pub open spec fn is_first_member(members: Seq<TeamMember>, id: Id, k: int) -> bool {
    0 <= k < members.len() && members[k].id == id && forall|j: int| 0 <= j < k ==> (#[trigger] members[j]).id != id
}

/// Role of the first member with the identifier, if any.
pub open spec fn member_role(members: Seq<TeamMember>, id: Id) -> Option<Role> {
    if knows_member(members, id) {
        Some(members[choose|k: int| is_first_member(members, id, k)].role)
    } else {
        None
    }
}

/// The allocation belongs to the member.
pub open spec fn member_is(member_id: Id) -> spec_fn(Allocation) -> bool {
    |a: Allocation| a.team_member_id == member_id
}

/// Capacity of a member counted when the member has role `which`, as a summand.
pub open spec fn role_capacity(which: Role) -> spec_fn(TeamMember) -> int {
    |m: TeamMember| if m.role == which { m.capacity as int } else { 0 }
}

/// Capacity of every member, as a summand.
pub open spec fn any_capacity() -> spec_fn(TeamMember) -> int {
    |m: TeamMember| m.capacity as int
}

/// Total percentage of an allocation whose member has role `which` on the team, as a summand.
pub open spec fn role_allocated(members: Seq<TeamMember>, which: Role) -> spec_fn(Allocation) -> int {
    |a: Allocation| if member_role(members, a.team_member_id) == Some(which) { assignments_total(a.assignments@) } else { 0 }
}

/// Total percentage of an allocation, as a summand.
pub open spec fn any_allocated() -> spec_fn(Allocation) -> int {
    |a: Allocation| assignments_total(a.assignments@)
}

fn member_index(members: &Vec<TeamMember>, id: &Id) -> (r: Option<usize>)
    ensures
        r.is_none() <==> !knows_member(members@, *id),
        r.is_some() ==> is_first_member(members@, *id, r.unwrap() as int),
{
    let mut i: usize = 0;
    while i < members.len()
        invariant
            i <= members@.len(),
            forall|j: int| 0 <= j < i ==> (#[trigger] members@[j]).id != *id,
        decreases members@.len() - i,
    {
        if members[i].id == *id {
            return Some(i);
        }
        i += 1;
    }
    None
}

proof fn lemma_first_member_unique(members: Seq<TeamMember>, id: Id, k: int)
    requires
        is_first_member(members, id, k),
    ensures
        knows_member(members, id),
        member_role(members, id) == Some(members[k].role),
{
    assert(members[k].id == id);
    let c = choose|c: int| is_first_member(members, id, c);
    assert(is_first_member(members, id, c));
    if c < k {
        assert(members[c].id != id);
    }
    if k < c {
        assert(members[k].id != id);
    }
}

fn role_of(members: &Vec<TeamMember>, id: &Id) -> (r: Option<Role>)
    ensures
        r == member_role(members@, *id),
{
    match member_index(members, id) {
        Some(i) => {
            proof {
                lemma_first_member_unique(members@, *id, i as int);
            }
            Some(members[i].role)
        },
        None => None,
    }
}

impl Plan {
    /// The first team member with the identifier.
    pub fn get_team_member(&self, id: &Id) -> (r: Option<&TeamMember>)
        ensures
            r.is_none() <==> !knows_member(self.team_members@, *id),
            r.is_some() ==> exists|k: int| is_first_member(self.team_members@, *id, k)
                && *r.unwrap() == self.team_members@[k],
    {
        match member_index(&self.team_members, id) {
            Some(i) => Some(&self.team_members[i]),
            None => None,
        }
    }

    /// The first roadmap project with the identifier.
    pub fn get_roadmap_project(&self, id: &Id) -> (r: Option<&RoadmapProject>)
        ensures
            r.is_none() <==> !has_roadmap(self.roadmap_projects@, *id),
            r.is_some() ==> exists|k: int| is_first_roadmap(self.roadmap_projects@, *id, k)
                && *r.unwrap() == self.roadmap_projects@[k],
    {
        match roadmap_index(&self.roadmap_projects, id) {
            Some(i) => Some(&self.roadmap_projects[i]),
            None => None,
        }
    }

    /// The first technical project with the identifier.
    pub fn get_technical_project(&self, id: &Id) -> (r: Option<&TechnicalProject>)
        ensures
            r.is_none() <==> !has_technical(self.technical_projects@, *id),
            r.is_some() ==> exists|k: int| is_first_technical(self.technical_projects@, *id, k)
                && *r.unwrap() == self.technical_projects@[k],
    {
        match technical_index(&self.technical_projects, id) {
            Some(i) => Some(&self.technical_projects[i]),
            None => None,
        }
    }

    /// The member's allocations, in plan order.
    pub fn get_team_member_allocations(&self, team_member_id: &Id) -> (r: Vec<&Allocation>)
        ensures
            r@.map_values(|a: &Allocation| *a) == self.allocations@.filter(member_is(*team_member_id)),
    {
        let ghost allocs = self.allocations@;
        let ghost keep = member_is(*team_member_id);
        let mut found: Vec<&Allocation> = Vec::new();
        let mut k: usize = 0;
        while k < self.allocations.len()
            invariant
                allocs == self.allocations@,
                keep == member_is(*team_member_id),
                k <= allocs.len(),
                found@.map_values(|a: &Allocation| *a) == allocs.take(k as int).filter(keep),
            decreases allocs.len() - k,
        {
            let ghost t = allocs.take(k as int + 1);
            proof {
                reveal(Seq::filter);
                assert(t.drop_last() =~= allocs.take(k as int));
                assert(t.last() == allocs[k as int]);
                assert(t.filter(keep) == (if keep(t.last()) {
                    t.drop_last().filter(keep).push(t.last())
                } else {
                    t.drop_last().filter(keep)
                }));
            }
            let ghost before = found@;
            if self.allocations[k].team_member_id == *team_member_id {
                found.push(&self.allocations[k]);
                proof {
                    assert(found@.map_values(|a: &Allocation| *a) =~= before.map_values(|a: &Allocation| *a).push(allocs[k as int]));
                }
            }
            k += 1;
        }
        proof {
            assert(allocs.take(k as int) =~= allocs);
        }
        found
    }

    /// Hundredths of a week allocated to a member.
    pub fn calculate_allocated_weeks(&self, team_member_id: &Id) -> (r: u64)
        requires
            member_allocated(self.allocations@, *team_member_id) <= u64::MAX,
        ensures
            r == member_allocated(self.allocations@, *team_member_id),
    {
        member_allocated_weeks(&self.allocations, team_member_id)
    }

    /// Hundredths of a week allocated to a technical project.
    pub fn calculate_project_allocated_weeks(&self, technical_project_id: &Id) -> (r: u64)
        requires
            project_allocated(self.allocations@, *technical_project_id) <= u64::MAX,
        ensures
            r == project_allocated(self.allocations@, *technical_project_id),
    {
        project_allocated_weeks(&self.allocations, technical_project_id)
    }

    /// Hundredths of a week given to the technical projects linked to a
    /// roadmap project, split by the role of each allocation's member on the
    /// team: (engineering, science, both). Allocations of members not on the
    /// team are left out.
    pub fn calculate_roadmap_allocated_weeks(&self, roadmap_project_id: &Id) -> (r: (u64, u64, u64))
        requires
            sum_of(self.technical_projects@, linked_allocated(self.allocations@, *roadmap_project_id)) <= u64::MAX,
        ensures
            r.0 == sum_of(self.technical_projects@, linked_role_allocated(self.allocations@, *roadmap_project_id,
                Role::Engineering, |id: Id| member_role(self.team_members@, id))),
            r.1 == sum_of(self.technical_projects@, linked_role_allocated(self.allocations@, *roadmap_project_id,
                Role::Science, |id: Id| member_role(self.team_members@, id))),
            r.2 == r.0 + r.1,
    {
        let members = &self.team_members;
        let lookup = |id: &Id| -> (r: Option<Role>)
            ensures
                r == member_role(members@, *id),
            { role_of(members, id) };
        roadmap_role_totals(&self.technical_projects, &self.allocations, roadmap_project_id, lookup,
            Ghost(|id: Id| member_role(self.team_members@, id)))
    }

    /// Capacity of the team by role: (engineering, science, both), in
    /// hundredths of a week.
    pub fn calculate_total_capacity(&self) -> (r: (u64, u64, u64))
        requires
            sum_of(self.team_members@, any_capacity()) <= u64::MAX,
        ensures
            r.0 == sum_of(self.team_members@, role_capacity(Role::Engineering)),
            r.1 == sum_of(self.team_members@, role_capacity(Role::Science)),
            r.2 == r.0 + r.1,
    {
        let ghost ms = self.team_members@;
        let ghost eng_f = role_capacity(Role::Engineering);
        let ghost sci_f = role_capacity(Role::Science);
        let ghost all_f = any_capacity();
        proof {
            assert forall|m: TeamMember| #[trigger] all_f(m) >= 0 by {}
        }
        let mut eng: u64 = 0;
        let mut sci: u64 = 0;
        let mut i: usize = 0;
        while i < self.team_members.len()
            invariant
                ms == self.team_members@,
                eng_f == role_capacity(Role::Engineering),
                sci_f == role_capacity(Role::Science),
                all_f == any_capacity(),
                forall|m: TeamMember| #[trigger] all_f(m) >= 0,
                i <= ms.len(),
                sum_of(ms, all_f) <= u64::MAX,
                eng == sum_of(ms.take(i as int), eng_f),
                sci == sum_of(ms.take(i as int), sci_f),
                eng + sci == sum_of(ms.take(i as int), all_f),
            decreases ms.len() - i,
        {
            proof {
                lemma_sum_of_take_step(ms, eng_f, i as int);
                lemma_sum_of_take_step(ms, sci_f, i as int);
                lemma_sum_of_take_step(ms, all_f, i as int);
                lemma_sum_of_prefix_bound(ms, all_f, i as int + 1);
            }
            let member = &self.team_members[i];
            match member.role {
                Role::Engineering => eng = eng + member.capacity as u64,
                Role::Science => sci = sci + member.capacity as u64,
            }
            i += 1;
        }
        proof {
            assert(ms.take(i as int) =~= ms);
        }
        (eng, sci, eng + sci)
    }

    /// Allocated hundredths of a week by the role of each allocation's member
    /// on the team: (engineering, science, both). Allocations of members not
    /// on the team are left out.
    pub fn calculate_total_allocated(&self) -> (r: (u64, u64, u64))
        requires
            sum_of(self.allocations@, any_allocated()) <= u64::MAX,
        ensures
            r.0 == sum_of(self.allocations@, role_allocated(self.team_members@, Role::Engineering)),
            r.1 == sum_of(self.allocations@, role_allocated(self.team_members@, Role::Science)),
            r.2 == r.0 + r.1,
    {
        let ghost allocs = self.allocations@;
        let ghost ms = self.team_members@;
        let ghost eng_f = role_allocated(ms, Role::Engineering);
        let ghost sci_f = role_allocated(ms, Role::Science);
        let ghost all_f = any_allocated();
        proof {
            assert forall|a: Allocation| #[trigger] all_f(a) >= 0 by {
                assert forall|x: Assignment| #[trigger] assignment_percent()(x) >= 0 by {}
                lemma_sum_of_nonneg(a.assignments@, assignment_percent());
            }
        }
        let mut eng: u64 = 0;
        let mut sci: u64 = 0;
        let mut i: usize = 0;
        while i < self.allocations.len()
            invariant
                allocs == self.allocations@,
                ms == self.team_members@,
                eng_f == role_allocated(ms, Role::Engineering),
                sci_f == role_allocated(ms, Role::Science),
                all_f == any_allocated(),
                forall|a: Allocation| #[trigger] all_f(a) >= 0,
                i <= allocs.len(),
                sum_of(allocs, all_f) <= u64::MAX,
                eng == sum_of(allocs.take(i as int), eng_f),
                sci == sum_of(allocs.take(i as int), sci_f),
                eng + sci <= sum_of(allocs.take(i as int), all_f),
            decreases allocs.len() - i,
        {
            proof {
                lemma_sum_of_take_step(allocs, eng_f, i as int);
                lemma_sum_of_take_step(allocs, sci_f, i as int);
                lemma_sum_of_take_step(allocs, all_f, i as int);
                lemma_sum_of_prefix_bound(allocs, all_f, i as int + 1);
            }
            let alloc = &self.allocations[i];
            match role_of(&self.team_members, &alloc.team_member_id) {
                Some(Role::Engineering) => {
                    let weeks = alloc.total_percentage();
                    eng = eng + weeks;
                },
                Some(Role::Science) => {
                    let weeks = alloc.total_percentage();
                    sci = sci + weeks;
                },
                None => {},
            }
            i += 1;
        }
        proof {
            assert(allocs.take(i as int) =~= allocs);
        }
        (eng, sci, eng + sci)
    }

    /// Brings a technical project's dates in line with its allocations, with
    /// the plan's sprint settings: start of the sprint of its earliest week,
    /// end of the sprint of its latest one. Leaves the plan as it is when the
    /// project has no allocation or does not exist.
    pub fn update_technical_project_dates(&mut self, technical_project_id: &Id)
        requires
            old(self).sprint_anchor_date.valid(),
            old(self).sprint_length_weeks > 0,
            project_weeks_in_range(old(self).allocations@, *technical_project_id,
                old(self).sprint_anchor_date@, old(self).sprint_length_weeks as int),
        ensures
            !project_has_allocations(old(self).allocations@, *technical_project_id)
                || !has_technical(old(self).technical_projects@, *technical_project_id) ==> *final(self) == *old(self),
            project_has_allocations(old(self).allocations@, *technical_project_id)
                && has_technical(old(self).technical_projects@, *technical_project_id) ==> exists|k: int, first: int, last: int|
                    is_first_technical(old(self).technical_projects@, *technical_project_id, k)
                    && is_earliest_week(old(self).allocations@, *technical_project_id, first)
                    && is_latest_week(old(self).allocations@, *technical_project_id, last)
                    && final(self).technical_projects@.len() == old(self).technical_projects@.len()
                    && with_sprint_dates(old(self).technical_projects@[k], final(self).technical_projects@[k],
                        first, last, old(self).sprint_anchor_date@, old(self).sprint_length_weeks as int)
                    && (forall|j: int| 0 <= j < old(self).technical_projects@.len() && j != k
                        ==> final(self).technical_projects@[j] == old(self).technical_projects@[j]),
            final(self).allocations == old(self).allocations,
            final(self).team_members == old(self).team_members,
            final(self).roadmap_projects == old(self).roadmap_projects,
            final(self).sprint_anchor_date == old(self).sprint_anchor_date,
            final(self).sprint_length_weeks == old(self).sprint_length_weeks,
    {
        let anchor = self.sprint_anchor_date;
        let length = self.sprint_length_weeks;
        let ghost before = self.technical_projects@;
        let ghost pid = *technical_project_id;
        if apply_project_dates(&mut self.technical_projects, &self.allocations, technical_project_id, anchor, length) {
            proof {
                let (k, first, last) = choose|k: int, first: int, last: int|
                    is_first_technical(before, pid, k)
                    && is_earliest_week(self.allocations@, pid, first)
                    && is_latest_week(self.allocations@, pid, last)
                    && self.technical_projects@.len() == before.len()
                    && with_sprint_dates(before[k], self.technical_projects@[k], first, last, anchor@, length as int)
                    && (forall|j: int| 0 <= j < before.len() && j != k ==> self.technical_projects@[j] == before[j]);
                assert(is_first_technical(before, pid, k));
            }
        }
    }
}

} // verus!
