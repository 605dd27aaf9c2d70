use crate::model::{assignment_percent, Assignment, TeamMember};
use crate::plan::{any_allocated, any_capacity};
use crate::plan_state::PlanState;
use crate::preferences::Preferences;
use crate::sums::{lemma_sum_of_nonneg, lemma_sum_of_prefix_bound, lemma_sum_of_take_step, sum_of};
use vstd::prelude::*;

verus! {

/// CSS class of a grid cell: an error wins over a success, which wins over
/// being a drag target.
pub fn calculate_cell_class(is_error: bool, is_success: bool, is_drag_target: bool) -> (r: &'static str)
    ensures
        r@ == if is_error {
            "grid-cell-error"@
        } else if is_success {
            "grid-cell-success"@
        } else if is_drag_target {
            "grid-cell-drag-target"@
        } else {
            ""@
        },
{
    if is_error {
        "grid-cell-error"
    } else if is_success {
        "grid-cell-success"
    } else if is_drag_target {
        "grid-cell-drag-target"
    } else {
        ""
    }
}

/// Class of the team capacity bar for the allocated share of capacity:
/// plain when either is zero, a warning under 85%, a success up to 100%,
/// a warning up to 110%, danger beyond.
pub open spec fn capacity_bar_class(allocated: int, capacity: int) -> Seq<char> {
    if capacity == 0 || allocated == 0 {
        "capacity-bar-fill"@
    } else if 100 * allocated < 85 * capacity {
        "capacity-bar-fill warning"@
    } else if allocated <= capacity {
        "capacity-bar-fill success"@
    } else if 10 * allocated <= 11 * capacity {
        "capacity-bar-fill warning"@
    } else {
        "capacity-bar-fill danger"@
    }
}

fn bar_class(allocated: u64, capacity: u64) -> (r: &'static str)
    ensures
        r@ == capacity_bar_class(allocated as int, capacity as int),
{
    let a = allocated as u128;
    let c = capacity as u128;
    if capacity == 0 || allocated == 0 {
        "capacity-bar-fill"
    } else if 100 * a < 85 * c {
        "capacity-bar-fill warning"
    } else if a <= c {
        "capacity-bar-fill success"
    } else if 10 * a <= 11 * c {
        "capacity-bar-fill warning"
    } else {
        "capacity-bar-fill danger"
    }
}

/// Team capacity, allocated total (both in hundredths of a week) and the
/// class of the capacity bar.
pub fn calculate_capacity_metrics(plan: &PlanState, prefs: &Preferences) -> (r: (u64, u64, &'static str))
    requires
        sum_of(prefs.team_members@, any_capacity()) <= u64::MAX,
        sum_of(plan.allocations@, any_allocated()) <= u64::MAX,
    ensures
        r.0 == sum_of(prefs.team_members@, any_capacity()),
        r.1 == sum_of(plan.allocations@, any_allocated()),
        r.2@ == capacity_bar_class(r.1 as int, r.0 as int),
{
    let ghost ms = prefs.team_members@;
    let mut capacity: u64 = 0;
    let mut i: usize = 0;
    proof {
        assert forall|m: TeamMember| #[trigger] any_capacity()(m) >= 0 by {}
    }
    while i < prefs.team_members.len()
        invariant
            ms == prefs.team_members@,
            i <= ms.len(),
            forall|m: TeamMember| #[trigger] any_capacity()(m) >= 0,
            sum_of(ms, any_capacity()) <= u64::MAX,
            capacity == sum_of(ms.take(i as int), any_capacity()),
        decreases ms.len() - i,
    {
        proof {
            lemma_sum_of_take_step(ms, any_capacity(), i as int);
            lemma_sum_of_prefix_bound(ms, any_capacity(), i as int + 1);
        }
        capacity = capacity + prefs.team_members[i].capacity as u64;
        i += 1;
    }
    proof {
        assert(ms.take(i as int) =~= ms);
    }
    let ghost allocs = plan.allocations@;
    proof {
        assert forall|a: crate::model::Allocation| #[trigger] any_allocated()(a) >= 0 by {
            assert forall|x: Assignment| #[trigger] assignment_percent()(x) >= 0 by {}
            lemma_sum_of_nonneg(a.assignments@, assignment_percent());
        }
    }
    let mut allocated: u64 = 0;
    let mut k: usize = 0;
    while k < plan.allocations.len()
        invariant
            allocs == plan.allocations@,
            k <= allocs.len(),
            forall|a: crate::model::Allocation| #[trigger] any_allocated()(a) >= 0,
            sum_of(allocs, any_allocated()) <= u64::MAX,
            allocated == sum_of(allocs.take(k as int), any_allocated()),
        decreases allocs.len() - k,
    {
        proof {
            lemma_sum_of_take_step(allocs, any_allocated(), k as int);
            lemma_sum_of_prefix_bound(allocs, any_allocated(), k as int + 1);
            lemma_sum_of_nonneg(allocs.take(k as int), any_allocated());
        }
        let share = plan.allocations[k].total_percentage();
        allocated = allocated + share;
        k += 1;
    }
    proof {
        assert(allocs.take(k as int) =~= allocs);
    }
    (capacity, allocated, bar_class(allocated, capacity))
}

} // verus!
