use crate::date::Date;
use crate::ids::Id;
use crate::ledger::{member_allocated_weeks, technical_index};
use crate::model::{
    assignment_percent, assignments_total, Allocation, Assignment, TeamMember, TechnicalProject,
};
use crate::plan::{any_allocated, is_first_member, Plan};
use crate::plan_export::knows_member;
use crate::plan_state::{
    allocation_member_percent, has_technical, is_first_technical, member_allocated,
};
use crate::sums::{lemma_sum_of_item_bound, lemma_sum_of_le, lemma_sum_of_nonneg};
use vstd::prelude::*;

verus! {

/// A problem found in a plan. Amounts are in hundredths of a week.
#[derive(Clone, Debug, PartialEq, Eq)]
pub enum ValidationError {
    /// A week whose assignments neither are empty nor add up to 100%.
    InvalidAllocationPercentage { engineer_id: Id, week_start: Date, total: u64 },
    /// A member allocated beyond their capacity.
    OverAllocated { engineer_name: String, capacity: u32, allocated: u64 },
    /// Work on a project in a week before the project starts.
    BeforeStartDate { engineer_name: String, project_name: String, week_start: Date, project_start: Date },
}

/// The first member with the identifier (meaningful where there is one).
pub open spec fn first_member(members: Seq<TeamMember>, id: Id) -> TeamMember {
    members[choose|k: int| is_first_member(members, id, k)]
}

/// The first technical project with the identifier (meaningful where there is one).
pub open spec fn first_technical(projects: Seq<TechnicalProject>, id: Id) -> TechnicalProject {
    projects[choose|k: int| is_first_technical(projects, id, k)]
}

/// Errors for weeks that are neither empty nor fully assigned, in plan order.
pub open spec fn percentage_errors(allocations: Seq<Allocation>) -> Seq<ValidationError>
    decreases allocations.len(),
{
    if allocations.len() == 0 {
        Seq::empty()
    } else {
        let a = allocations.last();
        let rest = percentage_errors(allocations.drop_last());
        if a.assignments@.len() != 0 && assignments_total(a.assignments@) != 100 {
            rest.push(ValidationError::InvalidAllocationPercentage {
                engineer_id: a.team_member_id,
                week_start: a.week_start_date,
                total: assignments_total(a.assignments@) as u64,
            })
        } else {
            rest
        }
    }
}

/// Errors for members allocated beyond their capacity, in team order.
pub open spec fn capacity_errors(members: Seq<TeamMember>, allocations: Seq<Allocation>) -> Seq<ValidationError>
    decreases members.len(),
{
    if members.len() == 0 {
        Seq::empty()
    } else {
        let m = members.last();
        let rest = capacity_errors(members.drop_last(), allocations);
        let allocated = member_allocated(allocations, m.id);
        if allocated > m.capacity {
            rest.push(ValidationError::OverAllocated { engineer_name: m.name, capacity: m.capacity, allocated: allocated as u64 })
        } else {
            rest
        }
    }
}

/// The assignment puts a known member on a known project in a week before
/// the project starts.
pub open spec fn starts_too_early(a: Allocation, x: Assignment, members: Seq<TeamMember>, projects: Seq<TechnicalProject>) -> bool {
    &&& has_technical(projects, x.technical_project_id)
    &&& a.week_start_date@ < first_technical(projects, x.technical_project_id).start_date@
    &&& knows_member(members, a.team_member_id)
}

pub open spec fn early_start_error(a: Allocation, x: Assignment, members: Seq<TeamMember>, projects: Seq<TechnicalProject>) -> ValidationError {
    ValidationError::BeforeStartDate {
        engineer_name: first_member(members, a.team_member_id).name,
        project_name: first_technical(projects, x.technical_project_id).name,
        week_start: a.week_start_date,
        project_start: first_technical(projects, x.technical_project_id).start_date,
    }
}

/// Early-start errors of the given assignments of one allocation, in order.
pub open spec fn early_errors_in(a: Allocation, assignments: Seq<Assignment>, members: Seq<TeamMember>, projects: Seq<TechnicalProject>) -> Seq<ValidationError>
    decreases assignments.len(),
{
    if assignments.len() == 0 {
        Seq::empty()
    } else {
        let rest = early_errors_in(a, assignments.drop_last(), members, projects);
        let x = assignments.last();
        if starts_too_early(a, x, members, projects) {
            rest.push(early_start_error(a, x, members, projects))
        } else {
            rest
        }
    }
}

/// Early-start errors over all allocations, in plan order.
pub open spec fn early_start_errors(allocations: Seq<Allocation>, members: Seq<TeamMember>, projects: Seq<TechnicalProject>) -> Seq<ValidationError>
    decreases allocations.len(),
{
    if allocations.len() == 0 {
        Seq::empty()
    } else {
        let a = allocations.last();
        early_start_errors(allocations.drop_last(), members, projects) + early_errors_in(a, a.assignments@, members, projects)
    }
}

/// Every problem of a plan: weeks not fully assigned, then over-allocated
/// members, then work before a project's start.
pub open spec fn plan_errors(plan: Plan) -> Seq<ValidationError> {
    percentage_errors(plan.allocations@)
        + capacity_errors(plan.team_members@, plan.allocations@)
        + early_start_errors(plan.allocations@, plan.team_members@, plan.technical_projects@)
}

proof fn lemma_first_member_is(members: Seq<TeamMember>, id: Id, k: int)
    requires
        is_first_member(members, id, k),
    ensures
        first_member(members, id) == members[k],
{
    let c = choose|c: int| is_first_member(members, id, c);
    assert(is_first_member(members, id, c));
    if c < k {
        assert(members[c].id != id);
    }
    if k < c {
        assert(members[k].id != id);
    }
}

proof fn lemma_first_technical_is(projects: Seq<TechnicalProject>, id: Id, k: int)
    requires
        is_first_technical(projects, id, k),
    ensures
        first_technical(projects, id) == projects[k],
{
    let c = choose|c: int| is_first_technical(projects, id, c);
    assert(is_first_technical(projects, id, c));
    if c < k {
        assert(projects[c].id != id);
    }
    if k < c {
        assert(projects[k].id != id);
    }
}

fn first_member_index(members: &Vec<TeamMember>, id: &Id) -> (r: Option<usize>)
    ensures
        r.is_none() <==> !knows_member(members@, *id),
        r.is_some() ==> is_first_member(members@, *id, r.unwrap() as int),
{
    let mut i: usize = 0;
    while i < members.len()
        invariant
            i <= members@.len(),
            forall|j: int| 0 <= j < i ==> (#[trigger] members@[j]).id != *id,
        decreases members@.len() - i,
    {
        if members[i].id == *id {
            return Some(i);
        }
        i += 1;
    }
    None
}

/// Finds every problem of a plan: weeks whose assignments are neither empty
/// nor 100%, members allocated beyond their capacity, and work on a project
/// in a week before the project starts.
pub fn validate_plan(plan: &Plan) -> (r: Vec<ValidationError>)
    requires
        sum_of_allocated_fits(*plan),
    ensures
        r@ == plan_errors(*plan),
{
    let ghost allocs = plan.allocations@;
    let ghost members = plan.team_members@;
    let ghost projects = plan.technical_projects@;
    proof {
        assert forall|a: Allocation| #[trigger] any_allocated()(a) >= 0 by {
            assert forall|x: Assignment| #[trigger] assignment_percent()(x) >= 0 by {}
            lemma_sum_of_nonneg(a.assignments@, assignment_percent());
        }
    }
    let mut errors: Vec<ValidationError> = Vec::new();

    let mut i: usize = 0;
    while i < plan.allocations.len()
        invariant
            allocs == plan.allocations@,
            i <= allocs.len(),
            forall|a: Allocation| #[trigger] any_allocated()(a) >= 0,
            sum_of_allocated_fits(*plan),
            errors@ == percentage_errors(allocs.take(i as int)),
        decreases allocs.len() - i,
    {
        let alloc = &plan.allocations[i];
        proof {
            assert(allocs.take(i as int + 1).drop_last() =~= allocs.take(i as int));
            lemma_sum_of_item_bound(allocs, any_allocated(), i as int);
        }
        if !alloc.is_valid() {
            let total = alloc.total_percentage();
            errors.push(ValidationError::InvalidAllocationPercentage {
                engineer_id: alloc.team_member_id,
                week_start: alloc.week_start_date,
                total,
            });
        }
        i += 1;
    }
    proof {
        assert(allocs.take(i as int) =~= allocs);
    }
    let ghost first_part = errors@;

    let mut m: usize = 0;
    while m < plan.team_members.len()
        invariant
            allocs == plan.allocations@,
            members == plan.team_members@,
            m <= members.len(),
            forall|a: Allocation| #[trigger] any_allocated()(a) >= 0,
            sum_of_allocated_fits(*plan),
            first_part == percentage_errors(allocs),
            errors@ == first_part + capacity_errors(members.take(m as int), allocs),
        decreases members.len() - m,
    {
        let member = &plan.team_members[m];
        proof {
            assert(members.take(m as int + 1).drop_last() =~= members.take(m as int));
            assert forall|a: Allocation| #[trigger] allocation_member_percent(member.id)(a) <= any_allocated()(a) by {}
            lemma_sum_of_le(allocs, allocation_member_percent(member.id), any_allocated());
        }
        let allocated = member_allocated_weeks(&plan.allocations, &member.id);
        if allocated > member.capacity as u64 {
            errors.push(ValidationError::OverAllocated {
                engineer_name: member.name.clone(),
                capacity: member.capacity,
                allocated,
            });
        }
        m += 1;
    }
    proof {
        assert(members.take(m as int) =~= members);
    }
    let ghost second_part = errors@;

    let mut k: usize = 0;
    while k < plan.allocations.len()
        invariant
            allocs == plan.allocations@,
            members == plan.team_members@,
            projects == plan.technical_projects@,
            k <= allocs.len(),
            second_part == percentage_errors(allocs) + capacity_errors(members, allocs),
            errors@ == second_part + early_start_errors(allocs.take(k as int), members, projects),
        decreases allocs.len() - k,
    {
        let alloc = &plan.allocations[k];
        let ghost before = errors@;
        let mut j: usize = 0;
        while j < alloc.assignments.len()
            invariant
                allocs == plan.allocations@,
                members == plan.team_members@,
                projects == plan.technical_projects@,
                k < allocs.len(),
                *alloc == allocs[k as int],
                j <= alloc.assignments@.len(),
                errors@ == before + early_errors_in(*alloc, alloc.assignments@.take(j as int), members, projects),
            decreases alloc.assignments@.len() - j,
        {
            let assignment = &alloc.assignments[j];
            proof {
                assert(alloc.assignments@.take(j as int + 1).drop_last() =~= alloc.assignments@.take(j as int));
                assert(alloc.assignments@.take(j as int + 1).last() == *assignment);
            }
            match technical_index(&plan.technical_projects, &assignment.technical_project_id) {
                Some(p) => {
                    let project = &plan.technical_projects[p];
                    proof {
                        lemma_first_technical_is(projects, assignment.technical_project_id, p as int);
                    }
                    if alloc.week_start_date.is_before(&project.start_date) {
                        match first_member_index(&plan.team_members, &alloc.team_member_id) {
                            Some(e) => {
                                proof {
                                    lemma_first_member_is(members, alloc.team_member_id, e as int);
                                }
                                errors.push(ValidationError::BeforeStartDate {
                                    engineer_name: plan.team_members[e].name.clone(),
                                    project_name: project.name.clone(),
                                    week_start: alloc.week_start_date,
                                    project_start: project.start_date,
                                });
                                proof {
                                    let ghost want = early_errors_in(*alloc, alloc.assignments@.take(j as int), members, projects)
                                        .push(early_start_error(*alloc, *assignment, members, projects));
                                    assert(errors@ =~= before + want);
                                }
                            },
                            None => {},
                        }
                    }
                },
                None => {},
            }
            j += 1;
        }
        proof {
            assert(alloc.assignments@.take(j as int) =~= alloc.assignments@);
            assert(allocs.take(k as int + 1).drop_last() =~= allocs.take(k as int));
            assert(allocs.take(k as int + 1).last() == *alloc);
            assert(errors@ =~= second_part + early_start_errors(allocs.take(k as int + 1), members, projects));
        }
        k += 1;
    }
    proof {
        assert(allocs.take(k as int) =~= allocs);
        assert(errors@ =~= plan_errors(*plan));
    }
    errors
}

/// All allocated percentages of the plan, added up, fit in 64 bits.
pub open spec fn sum_of_allocated_fits(plan: Plan) -> bool {
    crate::sums::sum_of(plan.allocations@, any_allocated()) <= u64::MAX
}

} // verus!
