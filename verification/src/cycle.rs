//! The scheduling cycle: which work is done in which cycle, and in what order.
use vstd::prelude::*;

verus! {

/// One piece of work in a scheduling cycle.
#[derive(Clone, Copy, Debug, PartialEq, Eq, Structural)]
pub enum Step {
    /// Take queued tasks and drop them: the kernel side dispatches by itself.
    Discard,
    /// Collect demurrage if it is due.
    Demurrage,
    /// Take queued tasks and submit their bids.
    Drain,
    /// Hold an auction and dispatch the winner.
    Dispatch,
    /// Close the treasuries of processes that are gone.
    CollectDead,
    /// Add up all tokens.
    Audit,
    /// Tell the kernel side of all treasuries.
    SyncTreasuries,
    /// Carry out transfer requests.
    Transfers,
    /// Sample CPU utilization if it is due.
    Sample,
    /// Report an exogenous event.
    ReportExogenous,
    /// Tell the central bank of the market.
    PublishTelemetry,
    /// Apply the policy of the central bank, unless the last sample shows an exogenous
    /// event.
    ApplyPolicy,
    /// Tell the kernel side how many tasks are pending.
    Notify,
}

/// The work of every cycle while the market is open, up to the auction.
pub open spec fn opening_steps() -> Seq<Step> {
    seq![Step::Demurrage, Step::Drain, Step::Dispatch]
}

/// The work of every thousandth cycle.
pub open spec fn upkeep_steps(cycle: u64) -> Seq<Step> {
    if cycle % 1000 == 0 {
        seq![Step::CollectDead, Step::Audit]
    } else {
        Seq::empty()
    }
}

/// The work of every hundredth cycle.
pub open spec fn kernel_steps(cycle: u64) -> Seq<Step> {
    if cycle % 100 == 0 {
        seq![Step::SyncTreasuries, Step::Transfers]
    } else {
        Seq::empty()
    }
}

/// The work of every five hundredth cycle.
pub open spec fn policy_steps(cycle: u64) -> Seq<Step> {
    if cycle % 500 == 0 {
        seq![Step::PublishTelemetry, Step::ApplyPolicy]
    } else {
        Seq::empty()
    }
}

/// The work of cycle number `cycle`, in order. While the market is closed the plan holds
/// no bidding, charging or dispatching.
pub open spec fn cycle_steps(cycle: u64, market_closed: bool) -> Seq<Step> {
    if market_closed {
        seq![Step::Discard, Step::Notify]
    } else {
        opening_steps() + upkeep_steps(cycle) + kernel_steps(cycle) + seq![
            Step::Sample,
            Step::ReportExogenous,
        ] + policy_steps(cycle) + seq![Step::Notify]
    }
}

/// The work of cycle number `cycle`, in order.
pub fn plan_cycle(cycle: u64, market_closed: bool) -> (steps: Vec<Step>)
    ensures
        steps@ == cycle_steps(cycle, market_closed),
{
    let mut steps: Vec<Step> = Vec::new();
    if market_closed {
        steps.push(Step::Discard);
        steps.push(Step::Notify);
        assert(steps@ =~= cycle_steps(cycle, market_closed));
        return steps;
    }
    steps.push(Step::Demurrage);
    steps.push(Step::Drain);
    steps.push(Step::Dispatch);
    if cycle % 1000 == 0 {
        steps.push(Step::CollectDead);
        steps.push(Step::Audit);
    }
    if cycle % 100 == 0 {
        steps.push(Step::SyncTreasuries);
        steps.push(Step::Transfers);
    }
    steps.push(Step::Sample);
    steps.push(Step::ReportExogenous);
    if cycle % 500 == 0 {
        steps.push(Step::PublishTelemetry);
        steps.push(Step::ApplyPolicy);
    }
    steps.push(Step::Notify);
    assert(steps@ =~= cycle_steps(cycle, market_closed));
    steps
}

/// Whether `step` is one of those for which the scheduler has a call that can change what
/// anybody holds: `apply_demurrage`, `begin_bid`, `dispatch_task` and `dispatch_failed`,
/// `gc_treasuries`, `process_transfers` and `apply_policy`, in this order.
pub open spec fn has_token_call(step: Step) -> bool {
    ||| step == Step::Demurrage
    ||| step == Step::Drain
    ||| step == Step::Dispatch
    ||| step == Step::CollectDead
    ||| step == Step::Transfers
    ||| step == Step::ApplyPolicy
}

/// The plan of a closed market holds none of the steps for which the scheduler has a call
/// that can change what anybody holds.
pub proof fn law_closed_market_plans_no_token_call(cycle: u64, i: int)
    requires
        0 <= i < cycle_steps(cycle, true).len(),
    ensures
        !has_token_call(cycle_steps(cycle, true)[i]),
{
}

/// Every cycle ends by telling the kernel side, and does so once.
pub proof fn law_every_cycle_notifies(cycle: u64, market_closed: bool, i: int)
    requires
        0 <= i < cycle_steps(cycle, market_closed).len(),
    ensures
        cycle_steps(cycle, market_closed)[i] == Step::Notify <==> i == cycle_steps(
            cycle,
            market_closed,
        ).len() - 1,
{
}

/// The plan of an open market: every cycle begins with demurrage, bidding and one auction
/// and ends by telling the kernel side. Upkeep follows the auction in every thousandth
/// cycle, the exchange with the kernel side in every hundredth; then comes the sample with
/// its report, and in every five hundredth cycle the central bank. Nothing else is planned.
pub proof fn law_open_market_plan(cycle: u64)
    ensures
        ({
            let plan = cycle_steps(cycle, false);
            let n = plan.len() as int;
            &&& n == 6 + (if cycle % 1000 == 0 {
                2int
            } else {
                0
            }) + (if cycle % 100 == 0 {
                2int
            } else {
                0
            }) + (if cycle % 500 == 0 {
                2int
            } else {
                0
            })
            &&& plan[0] == Step::Demurrage
            &&& plan[1] == Step::Drain
            &&& plan[2] == Step::Dispatch
            &&& cycle % 1000 == 0 ==> plan[3] == Step::CollectDead && plan[4] == Step::Audit
                && plan[5] == Step::SyncTreasuries && plan[6] == Step::Transfers
            &&& cycle % 100 == 0 && cycle % 1000 != 0 ==> plan[3] == Step::SyncTreasuries
                && plan[4] == Step::Transfers
            &&& cycle % 500 == 0 ==> plan[n - 5] == Step::Sample && plan[n - 4]
                == Step::ReportExogenous && plan[n - 3] == Step::PublishTelemetry && plan[n - 2]
                == Step::ApplyPolicy
            &&& cycle % 500 != 0 ==> plan[n - 3] == Step::Sample && plan[n - 2]
                == Step::ReportExogenous
            &&& plan[n - 1] == Step::Notify
        }),
{
}

/// Which steps the plan of an open market holds: the rare ones if and only if their turn
/// has come, the others in every cycle, each of them once and none of the closed market.
pub proof fn law_steps_at_their_turn(cycle: u64, i: int, j: int)
    ensures
        ({
            let plan = cycle_steps(cycle, false);
            &&& plan.contains(Step::Demurrage)
            &&& plan.contains(Step::Drain)
            &&& plan.contains(Step::Dispatch)
            &&& plan.contains(Step::Sample)
            &&& plan.contains(Step::ReportExogenous)
            &&& plan.contains(Step::Notify)
            &&& !plan.contains(Step::Discard)
            &&& plan.contains(Step::CollectDead) <==> cycle % 1000 == 0
            &&& plan.contains(Step::Audit) <==> cycle % 1000 == 0
            &&& plan.contains(Step::SyncTreasuries) <==> cycle % 100 == 0
            &&& plan.contains(Step::Transfers) <==> cycle % 100 == 0
            &&& plan.contains(Step::PublishTelemetry) <==> cycle % 500 == 0
            &&& plan.contains(Step::ApplyPolicy) <==> cycle % 500 == 0
            &&& 0 <= i < j < plan.len() ==> plan[i] != plan[j]
        }),
{
    let plan = cycle_steps(cycle, false);
    let n = plan.len() as int;
    law_open_market_plan(cycle);
    assert(plan[0] == Step::Demurrage);
    assert(plan[1] == Step::Drain);
    assert(plan[2] == Step::Dispatch);
    assert(plan[n - 1] == Step::Notify);
    if cycle % 1000 == 0 {
        assert(plan[3] == Step::CollectDead);
        assert(plan[4] == Step::Audit);
        assert(plan[5] == Step::SyncTreasuries);
        assert(plan[6] == Step::Transfers);
    } else if cycle % 100 == 0 {
        assert(plan[3] == Step::SyncTreasuries);
        assert(plan[4] == Step::Transfers);
    }
    if cycle % 500 == 0 {
        assert(plan[n - 5] == Step::Sample);
        assert(plan[n - 4] == Step::ReportExogenous);
        assert(plan[n - 3] == Step::PublishTelemetry);
        assert(plan[n - 2] == Step::ApplyPolicy);
    } else {
        assert(plan[n - 3] == Step::Sample);
        assert(plan[n - 2] == Step::ReportExogenous);
    }
}

/// The plan of a closed market is the same in every cycle: queued tasks are dropped and the
/// kernel side is told, and nothing else.
pub proof fn law_closed_market_plan(cycle: u64)
    ensures
        cycle_steps(cycle, true).len() == 2,
        cycle_steps(cycle, true)[0] == Step::Discard,
        cycle_steps(cycle, true)[1] == Step::Notify,
{
}

} // verus!
