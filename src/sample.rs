use crate::calendar::quarter_start_day;
use crate::date::{civil_day_number, valid_ymd, Date};
use crate::ids::Id;
use crate::model::{
    assignments_total, Allocation, Assignment, ProjectColor, RoadmapProject, Role, TeamMember,
    TechnicalProject,
};
use crate::plan_export::{
    first_unknown_member, first_unknown_project, first_unknown_project_in, first_unknown_roadmap,
    knows_member,
};
use crate::plan_state::{has_roadmap, has_technical, PlanState};
use crate::preferences::{default_schema_version, Preferences, DEFAULT_CAPACITY};
use crate::sums::sum_of;
use vstd::prelude::*;

verus! {

/// Every reference in the plan resolves: allocations name team members,
/// assignments name technical projects, roadmap links name roadmap projects.
pub open spec fn references_resolve(members: Seq<TeamMember>, state: PlanState) -> bool {
    let allocs = state.allocations@;
    &&& forall|k: int| 0 <= k < allocs.len() ==> knows_member(members, (#[trigger] allocs[k]).team_member_id)
    &&& forall|k: int, j: int| 0 <= k < allocs.len() && 0 <= j < allocs[k].assignments@.len()
        ==> has_technical(state.technical_projects@, (#[trigger] allocs[k].assignments@[j]).technical_project_id)
    &&& forall|t: int| 0 <= t < state.technical_projects@.len() && (#[trigger] state.technical_projects@[t]).roadmap_project_id.is_some()
        ==> has_roadmap(state.roadmap_projects@, state.technical_projects@[t].roadmap_project_id.unwrap())
}

/// Every week of the plan is empty or assigned in full.
pub open spec fn weeks_fully_assigned(allocations: Seq<Allocation>) -> bool {
    forall|k: int| 0 <= k < allocations.len() ==> (#[trigger] allocations[k]).assignments@.len() == 0
        || assignments_total(allocations[k].assignments@) == 100
}

/// Where every reference resolves, the reference checks of an export find
/// nothing dangling.
pub proof fn lemma_resolved_references_pass(members: Seq<TeamMember>, state: PlanState)
    requires
        references_resolve(members, state),
    ensures
        first_unknown_member(state.allocations@, members).is_none(),
        first_unknown_project(state.allocations@, state.technical_projects@).is_none(),
        first_unknown_roadmap(state.technical_projects@, state.roadmap_projects@).is_none(),
{
    lemma_members_pass(state.allocations@, members);
    lemma_projects_pass(state.allocations@, state.technical_projects@);
    lemma_roadmap_pass(state.technical_projects@, state.roadmap_projects@);
}

proof fn lemma_members_pass(allocs: Seq<Allocation>, members: Seq<TeamMember>)
    requires
        forall|k: int| 0 <= k < allocs.len() ==> knows_member(members, (#[trigger] allocs[k]).team_member_id),
    ensures
        first_unknown_member(allocs, members).is_none(),
    decreases allocs.len(),
{
    if allocs.len() > 0 {
        assert(knows_member(members, allocs[0].team_member_id));
        let rest = allocs.drop_first();
        assert forall|k: int| 0 <= k < rest.len() implies knows_member(members, (#[trigger] rest[k]).team_member_id) by {
            assert(rest[k] == allocs[k + 1]);
        }
        lemma_members_pass(rest, members);
    }
}

proof fn lemma_assignments_pass(assignments: Seq<Assignment>, projects: Seq<TechnicalProject>)
    requires
        forall|j: int| 0 <= j < assignments.len() ==> has_technical(projects, (#[trigger] assignments[j]).technical_project_id),
    ensures
        first_unknown_project_in(assignments, projects).is_none(),
    decreases assignments.len(),
{
    if assignments.len() > 0 {
        assert(has_technical(projects, assignments[0].technical_project_id));
        let rest = assignments.drop_first();
        assert forall|j: int| 0 <= j < rest.len() implies has_technical(projects, (#[trigger] rest[j]).technical_project_id) by {
            assert(rest[j] == assignments[j + 1]);
        }
        lemma_assignments_pass(rest, projects);
    }
}

proof fn lemma_projects_pass(allocs: Seq<Allocation>, projects: Seq<TechnicalProject>)
    requires
        forall|k: int, j: int| 0 <= k < allocs.len() && 0 <= j < allocs[k].assignments@.len()
            ==> has_technical(projects, (#[trigger] allocs[k].assignments@[j]).technical_project_id),
    ensures
        first_unknown_project(allocs, projects).is_none(),
    decreases allocs.len(),
{
    if allocs.len() > 0 {
        let a = allocs[0];
        assert forall|j: int| 0 <= j < a.assignments@.len() implies has_technical(projects, (#[trigger] a.assignments@[j]).technical_project_id) by {
            assert(allocs[0].assignments@[j] == a.assignments@[j]);
        }
        lemma_assignments_pass(a.assignments@, projects);
        let rest = allocs.drop_first();
        assert forall|k: int, j: int| 0 <= k < rest.len() && 0 <= j < rest[k].assignments@.len()
            implies has_technical(projects, (#[trigger] rest[k].assignments@[j]).technical_project_id) by {
            assert(rest[k] == allocs[k + 1]);
            assert(allocs[k + 1].assignments@[j] == rest[k].assignments@[j]);
        }
        lemma_projects_pass(rest, projects);
    }
}

proof fn lemma_roadmap_pass(projects: Seq<TechnicalProject>, roadmap: Seq<RoadmapProject>)
    requires
        forall|t: int| 0 <= t < projects.len() && (#[trigger] projects[t]).roadmap_project_id.is_some()
            ==> has_roadmap(roadmap, projects[t].roadmap_project_id.unwrap()),
    ensures
        first_unknown_roadmap(projects, roadmap).is_none(),
    decreases projects.len(),
{
    if projects.len() > 0 {
        assert(projects[0].roadmap_project_id.is_some() ==> has_roadmap(roadmap, projects[0].roadmap_project_id.unwrap()));
        let rest = projects.drop_first();
        assert forall|t: int| 0 <= t < rest.len() && (#[trigger] rest[t]).roadmap_project_id.is_some()
            implies has_roadmap(roadmap, rest[t].roadmap_project_id.unwrap()) by {
            assert(rest[t] == projects[t + 1]);
        }
        lemma_roadmap_pass(rest, roadmap);
    }
}

fn ymd(year: i32, month: u32, day: u32) -> (r: Date)
    requires
        valid_ymd(year as int, month as int, day as int),
    ensures
        r@ == civil_day_number(year as int, month as int, day as int),
        r.valid(),
{
    match Date::from_ymd_opt(year, month, day) {
        Some(d) => d,
        None => {
            assert(false);
            Date { days: 0 }
        },
    }
}

/// Allocations name known members and projects, and each week is empty or full.
pub open spec fn sample_facts(allocations: Seq<Allocation>, members: Seq<TeamMember>, projects: Seq<TechnicalProject>) -> bool {
    &&& forall|k: int| 0 <= k < allocations.len() ==> knows_member(members, (#[trigger] allocations[k]).team_member_id)
    &&& forall|k: int, j: int| 0 <= k < allocations.len() && 0 <= j < allocations[k].assignments@.len()
        ==> has_technical(projects, (#[trigger] allocations[k].assignments@[j]).technical_project_id)
    &&& weeks_fully_assigned(allocations)
}

/// Adds the allocation of one member and week: the whole week to `project`,
/// or an empty week.
fn push_week(
    allocations: &mut Vec<Allocation>,
    member: Id,
    week: Date,
    project: Option<Id>,
    Ghost(members): Ghost<Seq<TeamMember>>,
    Ghost(projects): Ghost<Seq<TechnicalProject>>,
)
    requires
        knows_member(members, member),
        project.is_some() ==> has_technical(projects, project.unwrap()),
        sample_facts(old(allocations)@, members, projects),
    ensures
        final(allocations)@.len() == old(allocations)@.len() + 1,
        sample_facts(final(allocations)@, members, projects),
{
    let mut alloc = Allocation::new(member, week);
    match project {
        Some(p) => alloc.assignments.push(Assignment::new(p, 100)),
        None => {},
    }
    proof {
        reveal_with_fuel(sum_of, 3);
        if project.is_some() {
            assert(alloc.assignments@.len() == 1);
            assert(alloc.assignments@.drop_last() =~= Seq::<Assignment>::empty());
            assert(assignments_total(alloc.assignments@) == 100);
        }
    }
    push_checked(allocations, alloc, Ghost(members), Ghost(projects));
}

/// Adds an allocation that keeps the sample's facts.
fn push_checked(
    allocations: &mut Vec<Allocation>,
    alloc: Allocation,
    Ghost(members): Ghost<Seq<TeamMember>>,
    Ghost(projects): Ghost<Seq<TechnicalProject>>,
)
    requires
        knows_member(members, alloc.team_member_id),
        forall|j: int| 0 <= j < alloc.assignments@.len() ==> has_technical(projects, (#[trigger] alloc.assignments@[j]).technical_project_id),
        alloc.assignments@.len() == 0 || assignments_total(alloc.assignments@) == 100,
        sample_facts(old(allocations)@, members, projects),
    ensures
        final(allocations)@.len() == old(allocations)@.len() + 1,
        sample_facts(final(allocations)@, members, projects),
{
    let ghost before = allocations@;
    allocations.push(alloc);
    proof {
        let after = allocations@;
        assert forall|k: int, j: int| 0 <= k < after.len() && 0 <= j < after[k].assignments@.len()
            implies has_technical(projects, (#[trigger] after[k].assignments@[j]).technical_project_id) by {
            if k < before.len() {
                assert(after[k] == before[k]);
            }
        }
        assert forall|k: int| 0 <= k < after.len() implies knows_member(members, (#[trigger] after[k]).team_member_id) by {
            if k < before.len() {
                assert(after[k] == before[k]);
            }
        }
        assert forall|k: int| 0 <= k < after.len() implies (#[trigger] after[k]).assignments@.len() == 0
            || assignments_total(after[k].assignments@) == 100 by {
            if k < before.len() {
                assert(after[k] == before[k]);
            }
        }
    }
}

/// Start of week `n` (from 0) of the first four weeks from January 1, 2025.
fn sample_week(n: u32) -> (r: Date)
    requires
        n < 4,
    ensures
        r@ == civil_day_number(2025, 1, 1 + 7 * n),
        r.valid(),
{
    ymd(2025, 1, 1 + 7 * n)
}

/// A sample team of four and a Q1 2025 plan with three roadmap projects,
/// five technical projects and the first weeks allocated.
pub fn create_sample_plan() -> (r: (Preferences, PlanState))
    ensures
        r.0.schema_version@ == crate::preferences::PREFERENCES_SCHEMA_VERSION@,
        r.0.team_name@ == "Engineering Team"@,
        r.0.team_members@.len() == 4,
        r.0.sprint_anchor_date@ == civil_day_number(2024, 1, 1),
        r.0.sprint_length_weeks == 2,
        r.0.default_capacity == DEFAULT_CAPACITY,
        r.1.quarter_name@ == "Q1 2025"@,
        r.1.quarter_start_date@ == quarter_start_day(2025, 1),
        r.1.num_weeks == 13,
        r.1.roadmap_projects@.len() == 3,
        r.1.technical_projects@.len() == 5,
        r.1.allocations@.len() == 15,
        references_resolve(r.0.team_members@, r.1),
        weeks_fully_assigned(r.1.allocations@),
{
    let quarter_start = match crate::calendar::get_quarter_start_date(2025, 1) {
        Some(d) => d,
        None => {
            assert(false);
            Date { days: 0 }
        },
    };
    let mut preferences = Preferences {
        schema_version: default_schema_version(),
        team_name: String::from_str("Engineering Team"),
        team_members: Vec::new(),
        sprint_anchor_date: ymd(2024, 1, 1),
        sprint_length_weeks: 2,
        default_capacity: DEFAULT_CAPACITY,
    };
    let mut plan_state = PlanState::new(String::from_str("Q1 2025"), quarter_start, 13);

    let alice = TeamMember::new(String::from_str("Alice Kim"), Role::Engineering, 1200);
    let bob = TeamMember::new(String::from_str("Bob Martinez"), Role::Engineering, 1200);
    let carol = TeamMember::new(String::from_str("Carol Smith"), Role::Science, 600);
    let dave = TeamMember::new(String::from_str("Dave Roberts"), Role::Engineering, 1200);
    let alice_id = alice.id;
    let bob_id = bob.id;
    let carol_id = carol.id;
    let dave_id = dave.id;
    preferences.team_members.push(alice);
    preferences.team_members.push(bob);
    preferences.team_members.push(carol);
    preferences.team_members.push(dave);

    let platform_project = RoadmapProject::new(
        String::from_str("Q1 Platform Improvements"), 2400, 800, ymd(2025, 1, 6), ymd(2025, 3, 31), ProjectColor::Blue);
    let payment_project = RoadmapProject::new(
        String::from_str("Payment Gateway"), 800, 0, ymd(2025, 1, 6), ymd(2025, 2, 28), ProjectColor::Green);
    let data_project = RoadmapProject::new(
        String::from_str("Data Pipeline Overhaul"), 1600, 600, ymd(2025, 1, 20), ymd(2025, 3, 31), ProjectColor::Yellow);
    let platform_roadmap_id = platform_project.id;
    let payment_roadmap_id = payment_project.id;
    let data_roadmap_id = data_project.id;
    plan_state.roadmap_projects.push(platform_project);
    plan_state.roadmap_projects.push(payment_project);
    plan_state.roadmap_projects.push(data_project);

    let auth_service = TechnicalProject::new(
        String::from_str("Auth Service Refactor"), Some(platform_roadmap_id), 600, 0, ymd(2025, 1, 6));
    let payment_api = TechnicalProject::new(
        String::from_str("Payment API Integration"), Some(payment_roadmap_id), 800, 0, ymd(2025, 1, 6));
    let ml_pipeline = TechnicalProject::new(
        String::from_str("ML Pipeline Optimization"), Some(platform_roadmap_id), 600, 600, ymd(2025, 1, 6));
    let data_pipeline = TechnicalProject::new(
        String::from_str("Data Pipeline Migration"), Some(data_roadmap_id), 600, 400, ymd(2025, 1, 20));
    let research = TechnicalProject::new(
        String::from_str("Algorithm Research"), Some(data_roadmap_id), 0, 600, ymd(2025, 1, 6));
    let auth_tech_id = auth_service.id;
    let payment_tech_id = payment_api.id;
    let ml_tech_id = ml_pipeline.id;
    let data_pipe_tech_id = data_pipeline.id;
    let research_tech_id = research.id;
    plan_state.technical_projects.push(auth_service);
    plan_state.technical_projects.push(payment_api);
    plan_state.technical_projects.push(ml_pipeline);
    plan_state.technical_projects.push(data_pipeline);
    plan_state.technical_projects.push(research);

    proof {
        assert(plan_state.allocations@.len() == 0);
    }
    let ghost members = preferences.team_members@;
    let ghost tps = plan_state.technical_projects@;
    let ghost rps = plan_state.roadmap_projects@;
    proof {
        assert(members[0].id == alice_id && members[1].id == bob_id && members[2].id == carol_id && members[3].id == dave_id);
        assert(knows_member(members, alice_id));
        assert(knows_member(members, bob_id));
        assert(knows_member(members, carol_id));
        assert(knows_member(members, dave_id));
        assert(tps[0].id == auth_tech_id && tps[1].id == payment_tech_id && tps[2].id == ml_tech_id
            && tps[3].id == data_pipe_tech_id && tps[4].id == research_tech_id);
        assert(has_technical(tps, auth_tech_id));
        assert(has_technical(tps, payment_tech_id));
        assert(has_technical(tps, ml_tech_id));
        assert(has_technical(tps, data_pipe_tech_id));
        assert(has_technical(tps, research_tech_id));
        assert(rps[0].id == platform_roadmap_id && rps[1].id == payment_roadmap_id && rps[2].id == data_roadmap_id);
        assert(has_roadmap(rps, platform_roadmap_id));
        assert(has_roadmap(rps, payment_roadmap_id));
        assert(has_roadmap(rps, data_roadmap_id));
    }

    let ghost projects = tps;
    let ghost qname = plan_state.quarter_name;
    let ghost qstart = plan_state.quarter_start_date;
    // Alice: the payment API for the first three weeks, then a split week.
    let mut week_num: u32 = 0;
    while week_num < 3
        invariant
            week_num <= 3,
            knows_member(members, alice_id),
            has_technical(projects, payment_tech_id),
            sample_facts(plan_state.allocations@, members, projects),
            plan_state.allocations@.len() == 0 + week_num,
            plan_state.quarter_name == qname,
            plan_state.quarter_start_date == qstart,
            plan_state.num_weeks == 13,
            plan_state.roadmap_projects@ == rps,
            plan_state.technical_projects@ == projects,
        decreases 3 - week_num,
    {
        push_week(&mut plan_state.allocations, alice_id, sample_week(week_num), Some(payment_tech_id), Ghost(members), Ghost(projects));
        week_num += 1;
    }
    let mut alice_split = Allocation::new(alice_id, sample_week(3));
    alice_split.assignments.push(Assignment::new(payment_tech_id, 60));
    alice_split.assignments.push(Assignment::new(data_pipe_tech_id, 40));
    proof {
        reveal_with_fuel(sum_of, 4);
        let s = alice_split.assignments@;
        assert(s.drop_last().drop_last() =~= Seq::<Assignment>::empty());
        assert(assignments_total(s) == 100);
        assert forall|j: int| 0 <= j < s.len() implies has_technical(projects, (#[trigger] s[j]).technical_project_id) by {}
    }
    push_checked(&mut plan_state.allocations, alice_split, Ghost(members), Ghost(projects));

    // Bob: the ML pipeline for four weeks.
    let mut week_num: u32 = 0;
    while week_num < 4
        invariant
            week_num <= 4,
            knows_member(members, bob_id),
            has_technical(projects, ml_tech_id),
            sample_facts(plan_state.allocations@, members, projects),
            plan_state.allocations@.len() == 4 + week_num,
            plan_state.quarter_name == qname,
            plan_state.quarter_start_date == qstart,
            plan_state.num_weeks == 13,
            plan_state.roadmap_projects@ == rps,
            plan_state.technical_projects@ == projects,
        decreases 4 - week_num,
    {
        push_week(&mut plan_state.allocations, bob_id, sample_week(week_num), Some(ml_tech_id), Ghost(members), Ghost(projects));
        week_num += 1;
    }

    // Carol: research for four weeks but the third, which stays unallocated.
    let mut week_num: u32 = 0;
    while week_num < 4
        invariant
            week_num <= 4,
            knows_member(members, carol_id),
            has_technical(projects, research_tech_id),
            sample_facts(plan_state.allocations@, members, projects),
            plan_state.allocations@.len() == 8 + week_num,
            plan_state.quarter_name == qname,
            plan_state.quarter_start_date == qstart,
            plan_state.num_weeks == 13,
            plan_state.roadmap_projects@ == rps,
            plan_state.technical_projects@ == projects,
        decreases 4 - week_num,
    {
        let project = if week_num != 2 { Some(research_tech_id) } else { None };
        push_week(&mut plan_state.allocations, carol_id, sample_week(week_num), project, Ghost(members), Ghost(projects));
        week_num += 1;
    }

    // Dave: the auth service for three weeks.
    let mut week_num: u32 = 0;
    while week_num < 3
        invariant
            week_num <= 3,
            knows_member(members, dave_id),
            has_technical(projects, auth_tech_id),
            sample_facts(plan_state.allocations@, members, projects),
            plan_state.allocations@.len() == 12 + week_num,
            plan_state.quarter_name == qname,
            plan_state.quarter_start_date == qstart,
            plan_state.num_weeks == 13,
            plan_state.roadmap_projects@ == rps,
            plan_state.technical_projects@ == projects,
        decreases 3 - week_num,
    {
        push_week(&mut plan_state.allocations, dave_id, sample_week(week_num), Some(auth_tech_id), Ghost(members), Ghost(projects));
        week_num += 1;
    }
    (preferences, plan_state)
}

} // verus!
