use crate::calendar::get_sprint_boundaries;
use crate::date::Date;
use crate::ids::Id;
use crate::model::{
    project_percent, Allocation, Assignment, RoadmapProject, Role, TechnicalProject,
    assignment_percent,
};
use crate::plan_state::{
    allocation_member_percent, allocation_mentions, allocation_project_percent, has_roadmap,
    has_technical, is_earliest_week, is_first_roadmap, is_first_technical, is_latest_week,
    linked_allocated, linked_role_allocated, member_allocated, project_allocated,
    project_allocated_in_role, project_has_allocations, project_weeks_in_range,
    role_project_percent, with_sprint_dates,
};
use crate::sums::{lemma_sum_of_nonneg, lemma_sum_of_prefix_bound, lemma_sum_of_take_step, sum_of};
use vstd::prelude::*;

verus! {

pub(crate) fn technical_index(technical_projects: &Vec<TechnicalProject>, id: &Id) -> (r: Option<usize>)
    ensures
        r.is_none() <==> !has_technical(technical_projects@, *id),
        r.is_some() ==> is_first_technical(technical_projects@, *id, r.unwrap() as int),
{
    let mut i: usize = 0;
    while i < technical_projects.len()
        invariant
            i <= technical_projects@.len(),
            forall|j: int| 0 <= j < i ==> (#[trigger] technical_projects@[j]).id != *id,
        decreases technical_projects@.len() - i,
    {
        if technical_projects[i].id == *id {
            return Some(i);
        }
        i += 1;
    }
    None
}

pub(crate) fn roadmap_index(roadmap_projects: &Vec<RoadmapProject>, id: &Id) -> (r: Option<usize>)
    ensures
        r.is_none() <==> !has_roadmap(roadmap_projects@, *id),
        r.is_some() ==> is_first_roadmap(roadmap_projects@, *id, r.unwrap() as int),
{
    let mut i: usize = 0;
    while i < roadmap_projects.len()
        invariant
            i <= roadmap_projects@.len(),
            forall|j: int| 0 <= j < i ==> (#[trigger] roadmap_projects@[j]).id != *id,
        decreases roadmap_projects@.len() - i,
    {
        if roadmap_projects[i].id == *id {
            return Some(i);
        }
        i += 1;
    }
    None
}

/// Hundredths of a week allocated to a technical project: each assignment
/// to it adds its percentage.
pub(crate) fn project_allocated_weeks(allocations: &Vec<Allocation>, technical_project_id: &Id) -> (r: u64)
    requires
        project_allocated(allocations@, *technical_project_id) <= u64::MAX,
    ensures
        r == project_allocated(allocations@, *technical_project_id),
{
    let ghost pid = *technical_project_id;
    let mut total: u64 = 0;
    let mut i: usize = 0;
    while i < allocations.len()
        invariant
            pid == *technical_project_id,
            i <= allocations@.len(),
            project_allocated(allocations@, pid) <= u64::MAX,
            total == sum_of(allocations@.take(i as int), allocation_project_percent(pid)),
        decreases allocations@.len() - i,
    {
        proof {
            lemma_sum_of_take_step(allocations@, allocation_project_percent(pid), i as int);
            assert forall|a: Allocation| #[trigger] allocation_project_percent(pid)(a) >= 0 by {
                assert forall|x: Assignment| #[trigger] project_percent(pid)(x) >= 0 by {}
                lemma_sum_of_nonneg(a.assignments@, project_percent(pid));
            }
            lemma_sum_of_prefix_bound(allocations@, allocation_project_percent(pid), i as int + 1);
            lemma_sum_of_nonneg(allocations@.take(i as int), allocation_project_percent(pid));
        }
        let share = allocations[i].project_percentage(*technical_project_id);
        total = total + share;
        i += 1;
    }
    proof {
        assert(allocations@.take(i as int) =~= allocations@);
    }
    total
}

/// Hundredths of a week allocated to a team member: each of the member's
/// allocations adds its total percentage.
pub(crate) fn member_allocated_weeks(allocations: &Vec<Allocation>, team_member_id: &Id) -> (r: u64)
    requires
        member_allocated(allocations@, *team_member_id) <= u64::MAX,
    ensures
        r == member_allocated(allocations@, *team_member_id),
{
    let ghost mid = *team_member_id;
    let mut total: u64 = 0;
    let mut i: usize = 0;
    while i < allocations.len()
        invariant
            mid == *team_member_id,
            i <= allocations@.len(),
            member_allocated(allocations@, mid) <= u64::MAX,
            total == sum_of(allocations@.take(i as int), allocation_member_percent(mid)),
        decreases allocations@.len() - i,
    {
        proof {
            lemma_sum_of_take_step(allocations@, allocation_member_percent(mid), i as int);
            assert forall|a: Allocation| #[trigger] allocation_member_percent(mid)(a) >= 0 by {
                assert forall|x: Assignment| #[trigger] assignment_percent()(x) >= 0 by {}
                lemma_sum_of_nonneg(a.assignments@, assignment_percent());
            }
            lemma_sum_of_prefix_bound(allocations@, allocation_member_percent(mid), i as int + 1);
            lemma_sum_of_nonneg(allocations@.take(i as int), allocation_member_percent(mid));
        }
        if allocations[i].team_member_id == *team_member_id {
            let share = allocations[i].total_percentage();
            total = total + share;
        }
        i += 1;
    }
    proof {
        assert(allocations@.take(i as int) =~= allocations@);
    }
    total
}

/// First and last week start among allocations to the project; `None`
/// when the project has none.
pub(crate) fn project_date_range(allocations: &Vec<Allocation>, technical_project_id: &Id) -> (r: Option<(Date, Date)>)
    ensures
        r.is_none() <==> !project_has_allocations(allocations@, *technical_project_id),
        r.is_some() ==> is_earliest_week(allocations@, *technical_project_id, r.unwrap().0@),
        r.is_some() ==> is_latest_week(allocations@, *technical_project_id, r.unwrap().1@),
        r.is_some() ==> exists|k: int| 0 <= k < allocations@.len()
            && allocation_mentions(#[trigger] allocations@[k], *technical_project_id)
            && allocations@[k].week_start_date == r.unwrap().0,
        r.is_some() ==> exists|k: int| 0 <= k < allocations@.len()
            && allocation_mentions(#[trigger] allocations@[k], *technical_project_id)
            && allocations@[k].week_start_date == r.unwrap().1,
{
    let ghost pid = *technical_project_id;
    let ghost allocs = allocations@;
    let mut found: Option<(Date, Date)> = None;
    let mut i: usize = 0;
    while i < allocations.len()
        invariant
            pid == *technical_project_id,
            allocs == allocations@,
            i <= allocs.len(),
            found.is_none() ==> forall|k: int| 0 <= k < i ==> !allocation_mentions(#[trigger] allocs[k], pid),
            found.is_some() ==> exists|k: int| 0 <= k < i && allocation_mentions(#[trigger] allocs[k], pid)
                && allocs[k].week_start_date == found.unwrap().0,
            found.is_some() ==> exists|k: int| 0 <= k < i && allocation_mentions(#[trigger] allocs[k], pid)
                && allocs[k].week_start_date == found.unwrap().1,
            found.is_some() ==> forall|k: int| 0 <= k < i && allocation_mentions(#[trigger] allocs[k], pid)
                ==> found.unwrap().0@ <= allocs[k].week_start_date@ <= found.unwrap().1@,
        decreases allocs.len() - i,
    {
        let alloc = &allocations[i];
        if alloc.has_project(*technical_project_id) {
            let week = alloc.week_start_date;
            found = match found {
                None => Some((week, week)),
                Some((first, last)) => {
                    let f = if week.is_before(&first) { week } else { first };
                    let l = if last.is_before(&week) { week } else { last };
                    Some((f, l))
                },
            };
        }
        i += 1;
    }
    found
}

/// Hundredths of a week given to a technical project, split by the role
/// that `get_member_role` finds for each allocation's member: (engineering,
/// science, both). Allocations of members without a role are left out.
pub(crate) fn project_role_totals<F: Fn(&Id) -> Option<Role>>(
    allocations: &Vec<Allocation>,
    technical_project_id: &Id,
    get_member_role: F,
    Ghost(roles): Ghost<spec_fn(Id) -> Option<Role>>,
) -> (r: (u64, u64, u64))
    requires
        forall|id: &Id| #[trigger] get_member_role.requires((id,)),
        forall|id: &Id, x: Option<Role>| #[trigger] get_member_role.ensures((id,), x) ==> x == roles(*id),
        project_allocated(allocations@, *technical_project_id) <= u64::MAX,
    ensures
        r.0 == project_allocated_in_role(allocations@, *technical_project_id, Role::Engineering, roles),
        r.1 == project_allocated_in_role(allocations@, *technical_project_id, Role::Science, roles),
        r.2 == r.0 + r.1,
{
    let ghost pid = *technical_project_id;
    let ghost allocs = allocations@;
    let ghost eng_f = role_project_percent(pid, Role::Engineering, roles);
    let ghost sci_f = role_project_percent(pid, Role::Science, roles);
    let ghost all_f = allocation_project_percent(pid);
    let mut eng: u64 = 0;
    let mut sci: u64 = 0;
    let mut i: usize = 0;
    proof {
        assert forall|a: Allocation| #[trigger] all_f(a) >= 0 by {
            assert forall|x: Assignment| #[trigger] project_percent(pid)(x) >= 0 by {}
            lemma_sum_of_nonneg(a.assignments@, project_percent(pid));
        }
    }
    while i < allocations.len()
        invariant
            pid == *technical_project_id,
            allocs == allocations@,
                        eng_f == role_project_percent(pid, Role::Engineering, roles),
            sci_f == role_project_percent(pid, Role::Science, roles),
            all_f == allocation_project_percent(pid),
            forall|id: &Id| #[trigger] get_member_role.requires((id,)),
            forall|id: &Id, x: Option<Role>| #[trigger] get_member_role.ensures((id,), x) ==> x == roles(*id),
            forall|a: Allocation| #[trigger] all_f(a) >= 0,
            i <= allocs.len(),
            sum_of(allocs, all_f) <= u64::MAX,
            eng == sum_of(allocs.take(i as int), eng_f),
            sci == sum_of(allocs.take(i as int), sci_f),
            eng + sci <= sum_of(allocs.take(i as int), all_f),
        decreases allocs.len() - i,
    {
        let alloc = &allocations[i];
        let role = get_member_role(&alloc.team_member_id);
        proof {
            let m = alloc.team_member_id;
            assert(get_member_role.ensures((&m,), role));
            assert(roles(m) == role);
            lemma_sum_of_take_step(allocs, eng_f, i as int);
            lemma_sum_of_take_step(allocs, sci_f, i as int);
            lemma_sum_of_take_step(allocs, all_f, i as int);
            lemma_sum_of_prefix_bound(allocs, all_f, i as int + 1);
        }
        match role {
            Some(Role::Engineering) => {
                let share = alloc.project_percentage(*technical_project_id);
                eng = eng + share;
            },
            Some(Role::Science) => {
                let share = alloc.project_percentage(*technical_project_id);
                sci = sci + share;
            },
            None => {},
        }
        i += 1;
    }
    proof {
        assert(allocs.take(i as int) =~= allocs);
    }
    (eng, sci, eng + sci)
}

/// Hundredths of a week given to the technical projects linked to a
/// roadmap project, split by the role that `get_member_role` finds for
/// each allocation's member: (engineering, science, both).
pub(crate) fn roadmap_role_totals<F: Fn(&Id) -> Option<Role>>(
    technical_projects: &Vec<TechnicalProject>,
    allocations: &Vec<Allocation>,
    roadmap_project_id: &Id,
    get_member_role: F,
    Ghost(roles): Ghost<spec_fn(Id) -> Option<Role>>,
) -> (r: (u64, u64, u64))
    requires
        forall|id: &Id| #[trigger] get_member_role.requires((id,)),
        forall|id: &Id, x: Option<Role>| #[trigger] get_member_role.ensures((id,), x) ==> x == roles(*id),
        sum_of(technical_projects@, linked_allocated(allocations@, *roadmap_project_id)) <= u64::MAX,
    ensures
        r.0 == sum_of(technical_projects@, linked_role_allocated(allocations@, *roadmap_project_id, Role::Engineering, roles)),
        r.1 == sum_of(technical_projects@, linked_role_allocated(allocations@, *roadmap_project_id, Role::Science, roles)),
        r.2 == r.0 + r.1,
{
    let ghost rid = *roadmap_project_id;
    let ghost allocs = allocations@;
    let ghost tps = technical_projects@;
    let ghost eng_t = linked_role_allocated(allocs, rid, Role::Engineering, roles);
    let ghost sci_t = linked_role_allocated(allocs, rid, Role::Science, roles);
    let ghost all_t = linked_allocated(allocs, rid);
    proof {
        assert forall|tp: TechnicalProject| #[trigger] all_t(tp) >= 0 by {
            let f = allocation_project_percent(tp.id);
            assert forall|a: Allocation| #[trigger] f(a) >= 0 by {
                assert forall|x: Assignment| #[trigger] project_percent(tp.id)(x) >= 0 by {}
                lemma_sum_of_nonneg(a.assignments@, project_percent(tp.id));
            }
            lemma_sum_of_nonneg(allocs, f);
        }
    }
    let mut eng: u64 = 0;
    let mut sci: u64 = 0;
    let mut t: usize = 0;
    while t < technical_projects.len()
        invariant
            rid == *roadmap_project_id,
            allocs == allocations@,
            tps == technical_projects@,
            eng_t == linked_role_allocated(allocs, rid, Role::Engineering, roles),
            sci_t == linked_role_allocated(allocs, rid, Role::Science, roles),
            all_t == linked_allocated(allocs, rid),
            forall|id: &Id| #[trigger] get_member_role.requires((id,)),
            forall|id: &Id, x: Option<Role>| #[trigger] get_member_role.ensures((id,), x) ==> x == roles(*id),
            forall|tp: TechnicalProject| #[trigger] all_t(tp) >= 0,
            t <= tps.len(),
            sum_of(tps, all_t) <= u64::MAX,
            eng == sum_of(tps.take(t as int), eng_t),
            sci == sum_of(tps.take(t as int), sci_t),
            eng + sci <= sum_of(tps.take(t as int), all_t),
        decreases tps.len() - t,
    {
        proof {
            lemma_sum_of_take_step(tps, eng_t, t as int);
            lemma_sum_of_take_step(tps, sci_t, t as int);
            lemma_sum_of_take_step(tps, all_t, t as int);
            lemma_sum_of_prefix_bound(tps, all_t, t as int + 1);
        }
        let tp = &technical_projects[t];
        if tp.roadmap_project_id == Some(*roadmap_project_id) {
            let ghost pid = tp.id;
            let ghost eng_f = role_project_percent(pid, Role::Engineering, roles);
            let ghost sci_f = role_project_percent(pid, Role::Science, roles);
            let ghost all_f = allocation_project_percent(pid);
            let ghost eng0 = eng as int;
            let ghost sci0 = sci as int;
            proof {
                assert forall|a: Allocation| #[trigger] all_f(a) >= 0 by {
                    assert forall|x: Assignment| #[trigger] project_percent(pid)(x) >= 0 by {}
                    lemma_sum_of_nonneg(a.assignments@, project_percent(pid));
                }
                assert(all_t(tps[t as int]) == sum_of(allocs, all_f));
            }
            let mut i: usize = 0;
            while i < allocations.len()
                invariant
                    allocs == allocations@,
                    tps == technical_projects@,
                    t < tps.len(),
                    pid == tps[t as int].id,
                    tp.id == pid,
                        eng_f == role_project_percent(pid, Role::Engineering, roles),
                    sci_f == role_project_percent(pid, Role::Science, roles),
                    all_f == allocation_project_percent(pid),
                    forall|id: &Id| #[trigger] get_member_role.requires((id,)),
                    forall|id: &Id, x: Option<Role>| #[trigger] get_member_role.ensures((id,), x) ==> x == roles(*id),
                    forall|a: Allocation| #[trigger] all_f(a) >= 0,
                    i <= allocs.len(),
                    eng0 + sci0 + sum_of(allocs, all_f) <= u64::MAX,
                    eng == eng0 + sum_of(allocs.take(i as int), eng_f),
                    sci == sci0 + sum_of(allocs.take(i as int), sci_f),
                    sum_of(allocs.take(i as int), eng_f) + sum_of(allocs.take(i as int), sci_f) <= sum_of(allocs.take(i as int), all_f),
                decreases allocs.len() - i,
            {
                let alloc = &allocations[i];
                let role = get_member_role(&alloc.team_member_id);
                proof {
                    let m = alloc.team_member_id;
                    assert(get_member_role.ensures((&m,), role));
                    assert(roles(m) == role);
                    lemma_sum_of_take_step(allocs, eng_f, i as int);
                    lemma_sum_of_take_step(allocs, sci_f, i as int);
                    lemma_sum_of_take_step(allocs, all_f, i as int);
                    lemma_sum_of_prefix_bound(allocs, all_f, i as int + 1);
                }
                match role {
                    Some(Role::Engineering) => {
                        let share = alloc.project_percentage(tp.id);
                        eng = eng + share;
                    },
                    Some(Role::Science) => {
                        let share = alloc.project_percentage(tp.id);
                        sci = sci + share;
                    },
                    None => {},
                }
                i += 1;
            }
            proof {
                assert(allocs.take(i as int) =~= allocs);
                assert(eng_t(tps[t as int]) == sum_of(allocs, eng_f));
                assert(sci_t(tps[t as int]) == sum_of(allocs, sci_f));
            }
        }
        t += 1;
    }
    proof {
        assert(tps.take(t as int) =~= tps);
    }
    (eng, sci, eng + sci)
}

/// Sets the first technical project with the identifier to start at the
/// start of the sprint of its earliest allocated week and to end at the end
/// of the sprint of its latest one. Changes nothing, and returns false, when
/// the project has no allocation or does not exist.
pub(crate) fn apply_project_dates(
    technical_projects: &mut Vec<TechnicalProject>,
    allocations: &Vec<Allocation>,
    technical_project_id: &Id,
    sprint_anchor_date: Date,
    sprint_length_weeks: usize,
) -> (changed: bool)
    requires
        sprint_anchor_date.valid(),
        sprint_length_weeks > 0,
        project_weeks_in_range(allocations@, *technical_project_id, sprint_anchor_date@, sprint_length_weeks as int),
    ensures
        changed == (project_has_allocations(allocations@, *technical_project_id)
            && has_technical(old(technical_projects)@, *technical_project_id)),
        !changed ==> *final(technical_projects) == *old(technical_projects),
        changed ==> exists|k: int, first: int, last: int|
            is_first_technical(old(technical_projects)@, *technical_project_id, k)
            && is_earliest_week(allocations@, *technical_project_id, first)
            && is_latest_week(allocations@, *technical_project_id, last)
            && final(technical_projects)@.len() == old(technical_projects)@.len()
            && with_sprint_dates(old(technical_projects)@[k], final(technical_projects)@[k],
                first, last, sprint_anchor_date@, sprint_length_weeks as int)
            && (forall|j: int| 0 <= j < old(technical_projects)@.len() && j != k
                ==> final(technical_projects)@[j] == old(technical_projects)@[j]),
{
    let (first_week, last_week) = match project_date_range(allocations, technical_project_id) {
        Some(r) => r,
        None => return false,
    };
    let ghost allocs = allocations@;
    let ghost pid = *technical_project_id;
    proof {
        let k1 = choose|k: int| 0 <= k < allocs.len() && allocation_mentions(#[trigger] allocs[k], pid)
            && allocs[k].week_start_date == first_week;
        let k2 = choose|k: int| 0 <= k < allocs.len() && allocation_mentions(#[trigger] allocs[k], pid)
            && allocs[k].week_start_date == last_week;
        assert(allocation_mentions(allocs[k1], pid));
        assert(allocation_mentions(allocs[k2], pid));
    }
    let (first_sprint_start, _) = get_sprint_boundaries(first_week, sprint_anchor_date, sprint_length_weeks);
    let (_, last_sprint_end) = get_sprint_boundaries(last_week, sprint_anchor_date, sprint_length_weeks);
    let index = match technical_index(technical_projects, technical_project_id) {
        Some(i) => i,
        None => return false,
    };
    let ghost before = technical_projects@;
    technical_projects[index].start_date = first_sprint_start;
    technical_projects[index].expected_completion = Some(last_sprint_end);
    proof {
        assert(is_first_technical(before, pid, index as int));
        assert(with_sprint_dates(before[index as int], technical_projects@[index as int],
            first_week@, last_week@, sprint_anchor_date@, sprint_length_weeks as int));
    }
    true
}

} // verus!
