use vstd::prelude::*;
use crate::total_order::{is_sorted_by_total_order, sort_by_total_order};

verus! {

broadcast use vstd::seq_lib::group_to_multiset_ensures;

/// Number of independent trials in one simulation.
pub const NUM_SIMULATIONS: usize = 1000;

/// Number of months a horizon of `years` compounds over: twelve a year, and
/// none at all for a horizon that is zero or negative.
pub open spec fn month_count(years: i32) -> nat {
    if years <= 0 {
        0
    } else {
        (years * 12) as nat
    }
}

/// Each consecutive pair of `path` is an input and a possible output of `step`.
pub open spec fn is_step_path<F: Fn(u64) -> u64>(step: F, path: Seq<u64>) -> bool {
    forall|k: int| 0 <= k < path.len() - 1 ==> #[trigger] call_ensures(step, (path[k],), path[k + 1])
}

/// Applying `step` to `start` `months` times in a row may give `end`.
pub open spec fn compounds_to<F: Fn(u64) -> u64>(step: F, start: u64, months: nat, end: u64) -> bool {
    exists|path: Seq<u64>|
        path.len() == months + 1 && path[0] == start && path[months as int] == end
            && #[trigger] is_step_path(step, path)
}

/// What a simulation returns: one terminal balance per trial, each reached from
/// `initial` by compounding over the horizon, in ascending total order.
pub open spec fn is_simulation_outcome<F: Fn(u64) -> u64>(
    step: F,
    initial: u64,
    years: i32,
    r: Seq<u64>,
) -> bool {
    &&& r.len() == NUM_SIMULATIONS
    &&& is_sorted_by_total_order(r)
    &&& forall|i: int| 0 <= i < r.len() ==> compounds_to(step, initial, month_count(years), #[trigger] r[i])
}

/// Compounding over no months leaves the balance where it started.
pub proof fn lemma_no_months_keeps_balance<F: Fn(u64) -> u64>(step: F, start: u64, end: u64)
    requires
        compounds_to(step, start, 0, end),
    ensures
        end == start,
{
}

/// Number of months a horizon of `years` compounds over.
pub fn months_for_years(years: i32) -> (r: u64)
    ensures
        r == month_count(years),
{
    if years <= 0 {
        0
    } else {
        years as u64 * 12
    }
}

/// Runs one trial: applies `step` to the balance once per month.
pub fn run_trial<F: Fn(u64) -> u64>(initial: u64, months: u64, step: &F) -> (r: u64)
    requires
        forall|b: u64| call_requires(*step, (b,)),
    ensures
        compounds_to(*step, initial, months as nat, r),
{
    let mut balance = initial;
    let mut m: u64 = 0;
    let ghost mut path: Seq<u64> = seq![initial];
    while m < months
        invariant
            m <= months,
            forall|b: u64| call_requires(*step, (b,)),
            path.len() == m + 1,
            path[0] == initial,
            path[m as int] == balance,
            is_step_path(*step, path),
        decreases months - m,
    {
        let next = step(balance);
        proof {
            let old_path = path;
            path = path.push(next);
            assert forall|k: int| 0 <= k < path.len() - 1 implies #[trigger] call_ensures(
                *step,
                (path[k],),
                path[k + 1],
            ) by {
                if k < old_path.len() - 1 {
                    assert(call_ensures(*step, (old_path[k],), old_path[k + 1]));
                }
            }
        }
        balance = next;
        m = m + 1;
    }
    balance
}

/// Runs every trial of a simulation, in the order they were drawn.
pub fn run_trials<F: Fn(u64) -> u64>(initial: u64, years: i32, step: &F) -> (r: Vec<u64>)
    requires
        forall|b: u64| call_requires(*step, (b,)),
    ensures
        r@.len() == NUM_SIMULATIONS,
        forall|i: int|
            0 <= i < r@.len() ==> compounds_to(*step, initial, month_count(years), #[trigger] r@[i]),
{
    let months = months_for_years(years);
    let mut results: Vec<u64> = Vec::with_capacity(NUM_SIMULATIONS);
    let mut t: usize = 0;
    while t < NUM_SIMULATIONS
        invariant
            t <= NUM_SIMULATIONS,
            results@.len() == t,
            months == month_count(years),
            forall|b: u64| call_requires(*step, (b,)),
            forall|i: int|
                0 <= i < t ==> compounds_to(*step, initial, month_count(years), #[trigger] results@[i]),
        decreases NUM_SIMULATIONS - t,
    {
        let balance = run_trial(initial, months, step);
        results.push(balance);
        t = t + 1;
    }
    results
}

/// Runs a whole simulation: every trial, then the outcomes sorted ascending.
pub fn run_simulation<F: Fn(u64) -> u64>(initial: u64, years: i32, step: &F) -> (r: Vec<u64>)
    requires
        forall|b: u64| call_requires(*step, (b,)),
    ensures
        is_simulation_outcome(*step, initial, years, r@),
        years <= 0 ==> forall|i: int| 0 <= i < r@.len() ==> #[trigger] r@[i] == initial,
{
    let mut results = run_trials(initial, years, step);
    let ghost trials = results@;
    sort_by_total_order(&mut results);
    proof {
        assert(results@.len() == results@.to_multiset().len());
        assert(trials.len() == trials.to_multiset().len());
        assert forall|i: int| 0 <= i < results@.len() implies compounds_to(
            *step,
            initial,
            month_count(years),
            #[trigger] results@[i],
        ) by {
            assert(results@.contains(results@[i]));
            assert(results@.to_multiset().count(results@[i]) > 0);
            assert(trials.to_multiset().count(results@[i]) > 0);
            assert(trials.contains(results@[i]));
            let j = choose|j: int| 0 <= j < trials.len() && trials[j] == results@[i];
            assert(compounds_to(*step, initial, month_count(years), trials[j]));
        }
        if years <= 0 {
            assert forall|i: int| 0 <= i < results@.len() implies #[trigger] results@[i] == initial by {
                lemma_no_months_keeps_balance(*step, initial, results@[i]);
            }
        }
    }
    results
}

/// Two simulations with the same inputs return the same number of balances,
/// and both in ascending order.
pub proof fn lemma_simulations_share_shape<F: Fn(u64) -> u64>(
    step: F,
    initial: u64,
    years: i32,
    a: Seq<u64>,
    b: Seq<u64>,
)
    requires
        is_simulation_outcome(step, initial, years, a),
        is_simulation_outcome(step, initial, years, b),
    ensures
        a.len() == b.len() == NUM_SIMULATIONS,
        is_sorted_by_total_order(a),
        is_sorted_by_total_order(b),
{
}

} // verus!
