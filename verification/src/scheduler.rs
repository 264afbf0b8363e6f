//! The scheduler: bids, auctions, accounts and telemetry together.
use std::collections::BTreeMap;
use vstd::prelude::*;

use crate::agent::{BidPhase, BiddingAgent, Profile};
use crate::bank::{
    class_size, law_funding_conserves, law_grants_are_shares, law_haircut_bounds,
    law_haircut_conserves, law_haircut_reaches_everybody, law_refund_undoes_charge,
    law_transfer_conserves, law_transfer_moves_amount, Bank, BankState, SupplyAudit,
};
use crate::breaker::{Breaker, BreakerCheck, BreakerState, TRIP_MEMORY_NS};
use crate::central_bank::{
    describes, listed_pids, top_starved, worst_off, NumaSnapshot, PolicyDecision, Redistribution,
    TelemetrySnapshot,
};
use crate::class::{
    class_from_name, class_ipo, class_of_comm, class_text, classify_process, funded_class,
    law_funded_by_reported_name, CLASS_UNKNOWN, IPO_BASELINE,
};
use crate::cycle::{cycle_steps, plan_cycle, Step};
use crate::dispatch::{choose_cpu, dispatch_record, make_dispatch, target_cpu, DispatchedTask};
use crate::ledger::{
    ascending_keys, holdings, lemma_holdings_nonnegative, lemma_holdings_submap, Treasury,
};
use crate::order_book::{
    law_resubmission_restores, OrderBook, OrderBookState, Rank, Task,
};
use crate::proc_stat::{CounterOverflow, CpuTimes};
use crate::task::QueuedTask;
use crate::telemetry::{
    elapsed_ms, market_set, millis_between, shadow_set, IpcSample, Telemetry, TelemetryState,
};
use crate::transfers::{
    below_limit, law_noting_a_transfer, law_ten_transfers_a_second, noted, sent_by, TransferLog,
    MAX_TRANSFERS_PER_SECOND, TRANSFER_WINDOW_NS,
};
use crate::window::{
    law_forgetting_is_harmless, lemma_recent_len, lemma_recent_push, recent_count, recent_only,
};
use crate::wire::{
    key_pid, law_only_the_request_counts, law_pid_reads_back, law_transfer_reads_back,
    number_bytes, pid_from_key, pid_layout, read_transfer, transfer_in, Endian, MapEntry,
    MarketState, TransferRequest, TreasuryEntry,
};

verus! {

broadcast use vstd::laws_cmp::group_laws_cmp;

/// Nanoseconds in a microsecond.
pub const NSEC_PER_USEC: u64 = 1_000;

/// Tokens that each CPU adds to the supply.
pub const TOKENS_PER_CORE: u64 = 1_000_000;

/// Milliseconds after which demurrage is due again.
pub const DEMURRAGE_INTERVAL_MS: u64 = 1;

/// Lowest demurrage rate that the kernel side is told, in thousandths of a percent.
pub const DEMURRAGE_RATE_MIN: u32 = 1;

/// Highest demurrage rate that the kernel side is told, in thousandths of a percent.
pub const DEMURRAGE_RATE_MAX: u32 = 100;

/// What a bid is to be computed from.
#[derive(Clone, Copy, Debug, PartialEq, Eq, Structural)]
pub struct BidRequest {
    /// Process that bids.
    pub pid: i32,
    /// Whether it has just been admitted.
    pub admitted: bool,
    /// How the bid is to be made.
    pub phase: BidPhase,
    /// Settings of its controller.
    pub profile: Profile,
    /// How long the task has been waiting.
    pub latency_ns: u64,
    /// Tokens that it holds.
    pub balance: u64,
}

/// What a scheduler holds.
#[verifier::ext_equal]
pub struct SchedulerState {
    /// The pending bids.
    pub book: OrderBookState,
    /// The token accounts.
    pub bank: BankState,
    /// The bidding agent of each admitted process.
    pub agents: Map<i32, BiddingAgent>,
    /// The circuit breaker.
    pub breaker: BreakerState,
    /// Shadow core telemetry.
    pub telemetry: TelemetryState,
    /// Whether tasks stay on the CPU that they last ran on.
    pub percpu_local: bool,
    /// Time slice in nanoseconds.
    pub slice_ns: u64,
    /// Shortest time slice in nanoseconds.
    pub slice_ns_min: u64,
    /// Cycles begun so far.
    pub cycle: u64,
    /// Page faults when they were first read.
    pub init_page_faults: u64,
    /// When demurrage was last collected, in nanoseconds.
    pub last_demurrage: u64,
    /// Tokens that new processes of an ordinary class are entitled to.
    pub ipo_baseline: u64,
    /// When each parent made its latest transfers.
    pub transfer_log: Map<i32, Seq<u64>>,
}

/// Accounts and transfer log after a request of `child` was looked at at `now`: it is
/// carried out if the accounts allow it and the parent is below its limit.
pub open spec fn transfer_handled(
    bank: BankState,
    log: Map<i32, Seq<u64>>,
    child: i32,
    request: TransferRequest,
    now: u64,
) -> (BankState, Map<i32, Seq<u64>>) {
    let parent = request.parent_pid;
    if bank.transfer_allowed(parent, child, request.amount) && below_limit(log, parent, now) {
        (bank.transferred(parent, child, request.amount), noted(log, parent, now))
    } else {
        (bank, log)
    }
}

/// Accounts and transfer log after all of `requests` were looked at in order at `now`. The
/// key of a request is the process id of the child, its value that of the parent and the
/// amount.
pub open spec fn transfers_applied(
    bank: BankState,
    log: Map<i32, Seq<u64>>,
    requests: Seq<MapEntry>,
    endian: Endian,
    now: u64,
) -> (BankState, Map<i32, Seq<u64>>)
    decreases requests.len(),
{
    if requests.len() == 0 {
        (bank, log)
    } else {
        let before = transfers_applied(bank, log, requests.drop_last(), endian, now);
        match transfer_in(requests.last().value@, endian) {
            Some(request) => transfer_handled(
                before.0,
                before.1,
                key_pid(requests.last().key@, endian),
                request,
                now,
            ),
            None => before,
        }
    }
}

/// A demurrage rate held within the bounds of what the kernel side is told.
pub open spec fn bounded_rate(rate: u32) -> u32 {
    if rate < DEMURRAGE_RATE_MIN {
        DEMURRAGE_RATE_MIN
    } else if rate > DEMURRAGE_RATE_MAX {
        DEMURRAGE_RATE_MAX
    } else {
        rate
    }
}

/// After tokens were handed out as `list` says, in order. Names that no class has are
/// passed over.
pub open spec fn policy_applied(bank: BankState, list: Seq<Redistribution>) -> BankState
    decreases list.len(),
{
    if list.len() == 0 {
        bank
    } else {
        let before = policy_applied(bank, list.drop_last());
        match funded_class(list.last().target_class@) {
            Some(class) => before.funded(class, list.last().tokens),
            None => before,
        }
    }
}

/// Whether the class of every process is one of the five.
pub open spec fn known_classes(bank: BankState) -> bool {
    forall|pid: i32| #[trigger]
        bank.treasuries.contains_key(pid) ==> bank.treasuries[pid].process_class <= CLASS_UNKNOWN
}

impl SchedulerState {
    /// Every token is accounted for, every admitted process has an agent and no
    /// other has one, every class is one of the five, and the parts are in order.
    pub open spec fn wf(self) -> bool {
        &&& self.book.wf()
        &&& self.bank.wf()
        &&& self.breaker.wf()
        &&& self.telemetry.wf()
        &&& self.agents.dom() == self.bank.treasuries.dom()
        &&& forall|pid: i32| #[trigger] self.agents.contains_key(pid) ==> self.agents[pid].wf()
        &&& known_classes(self.bank)
    }

    /// After `pid` was admitted with the class of `comm`, unless it was before.
    pub open spec fn with_process(self, pid: i32, comm: Seq<u8>) -> SchedulerState {
        if self.bank.treasuries.contains_key(pid) {
            self
        } else {
            let class = class_of_comm(comm);
            SchedulerState {
                bank: self.bank.admitted(pid, class, self.ipo_baseline),
                agents: self.agents.insert(pid, BiddingAgent::fresh(class)),
                ..self
            }
        }
    }

    /// After the agent of `pid` took the step of one bid.
    pub open spec fn bid_begun(self, pid: i32, comm: Seq<u8>) -> SchedulerState {
        let ready = self.with_process(pid, comm);
        SchedulerState {
            agents: ready.agents.insert(pid, ready.agents[pid].stepped()),
            ..ready
        }
    }

    /// After the treasuries and agents of `dead` were closed and their transfers forgotten.
    pub open spec fn without(self, dead: Set<i32>) -> SchedulerState {
        SchedulerState {
            bank: self.bank.with_treasuries(self.bank.treasuries.remove_keys(dead)),
            agents: self.agents.remove_keys(dead),
            transfer_log: self.transfer_log.remove_keys(dead),
            ..self
        }
    }

    /// After `decision` was applied: a policy that sets a baseline sets it for new
    /// processes, and tokens are handed out as it says. While the last sample shows an
    /// exogenous event no policy is applied.
    pub open spec fn governed(self, decision: PolicyDecision) -> SchedulerState {
        if self.telemetry.exogenous() {
            self
        } else {
            SchedulerState {
                bank: policy_applied(self.bank, decision.redistribute@),
                ipo_baseline: match decision.ipo_baseline {
                    Some(baseline) => baseline,
                    None => self.ipo_baseline,
                },
                ..self
            }
        }
    }

    /// The market state that the kernel side is told. `demurrage_rate` is in thousandths
    /// of a percent per millisecond.
    pub open spec fn market_state(self, tripped: bool, demurrage_rate: u32) -> MarketState {
        MarketState {
            current_clearing_price: 0,
            total_tokens_in_circulation: (self.bank.total_supply - self.bank.reserve) as u64,
            circuit_breaker_tripped: if tripped {
                1
            } else {
                0
            },
            current_demurrage_rate: bounded_rate(demurrage_rate),
        }
    }

    /// After a haircut: all bids are dropped and excess balances are slashed.
    pub open spec fn haircut(self) -> SchedulerState {
        SchedulerState { book: self.book.emptied(), bank: self.bank.slashed(), ..self }
    }

    /// After the circuit breaker tripped at `now`.
    pub open spec fn tripped(self, now: u64) -> SchedulerState {
        SchedulerState { breaker: self.breaker.tripped(now), ..self.haircut() }
    }

    /// The whole milliseconds that demurrage is due for at `now`: none where it is too
    /// early.
    pub open spec fn demurrage_due(self, now: u64) -> Option<u64> {
        let elapsed = millis_between(self.last_demurrage as int, now as int);
        if elapsed < DEMURRAGE_INTERVAL_MS {
            None
        } else {
            Some(elapsed as u64)
        }
    }

    /// Tasks that the kernel side is told are pending: none while the market is
    /// closed.
    pub open spec fn pending(self) -> nat {
        if self.breaker.active {
            0
        } else {
            self.book.bids.len()
        }
    }
}

/// The market scheduler.
pub struct Scheduler {
    order_book: OrderBook,
    bank: Bank,
    agents: BTreeMap<i32, BiddingAgent>,
    breaker: Breaker,
    telemetry: Telemetry,
    percpu_local: bool,
    slice_ns: u64,
    slice_ns_min: u64,
    schedule_cycle: u64,
    init_page_faults: u64,
    last_demurrage: u64,
    ipo_baseline: u64,
    transfer_log: TransferLog,
}

impl View for Scheduler {
    type V = SchedulerState;

    closed spec fn view(&self) -> SchedulerState {
        SchedulerState {
            book: self.order_book@,
            bank: self.bank@,
            agents: self.agents@,
            breaker: self.breaker@,
            telemetry: self.telemetry@,
            percpu_local: self.percpu_local,
            slice_ns: self.slice_ns,
            slice_ns_min: self.slice_ns_min,
            cycle: self.schedule_cycle,
            init_page_faults: self.init_page_faults,
            last_demurrage: self.last_demurrage,
            ipo_baseline: self.ipo_baseline,
            transfer_log: self.transfer_log@,
        }
    }
}

impl Scheduler {
    /// A scheduler for a machine with `nr_cpus` CPUs. All tokens start in the reserve.
    pub fn init(
        nr_cpus: u64,
        slice_us: u64,
        slice_us_min: u64,
        percpu_local: bool,
        now: u64,
    ) -> (scheduler: Scheduler)
        requires
            nr_cpus * TOKENS_PER_CORE <= u64::MAX,
            slice_us * NSEC_PER_USEC <= u64::MAX,
            slice_us_min * NSEC_PER_USEC <= u64::MAX,
        ensures
            scheduler@.wf(),
            scheduler@ == (SchedulerState {
                book: OrderBookState { bids: Map::empty(), sequence: 0 },
                bank: BankState::opened((nr_cpus * TOKENS_PER_CORE) as u64),
                agents: Map::empty(),
                breaker: BreakerState::idle(now),
                telemetry: TelemetryState {
                    shadow_cpus: shadow_set(nr_cpus),
                    market_cpus: market_set(nr_cpus),
                    history: Seq::empty(),
                    last_sample: now as int,
                    prev_times: Map::empty(),
                },
                percpu_local,
                slice_ns: (slice_us * NSEC_PER_USEC) as u64,
                slice_ns_min: (slice_us_min * NSEC_PER_USEC) as u64,
                cycle: 0,
                init_page_faults: 0,
                last_demurrage: now,
                ipo_baseline: IPO_BASELINE,
                transfer_log: Map::empty(),
            }),
            scheduler@.bank.total_supply == nr_cpus * 1_000_000,
            scheduler@.bank.reserve == nr_cpus * 1_000_000,
            scheduler@.bank.treasuries == Map::<i32, Treasury>::empty(),
            scheduler@.slice_ns == slice_us * 1_000,
            scheduler@.slice_ns_min == slice_us_min * 1_000,
            scheduler@.ipo_baseline == 1_000,
            !scheduler@.breaker.active,
    {
        Scheduler {
            order_book: OrderBook::new(),
            bank: Bank::new(nr_cpus * TOKENS_PER_CORE),
            agents: BTreeMap::new(),
            breaker: Breaker::new(now),
            telemetry: Telemetry::new(nr_cpus, now),
            percpu_local,
            slice_ns: slice_us * NSEC_PER_USEC,
            slice_ns_min: slice_us_min * NSEC_PER_USEC,
            schedule_cycle: 0,
            init_page_faults: 0,
            last_demurrage: now,
            ipo_baseline: IPO_BASELINE,
            transfer_log: TransferLog::new(),
        }
    }

    /// Time slice in nanoseconds.
    pub fn slice_ns(&self) -> (slice: u64)
        ensures
            slice == self@.slice_ns,
    {
        self.slice_ns
    }

    /// Begins the bid of a queued task: admits its process if it is new, takes the
    /// step of one bid, and says what the bid is to be computed from.
    pub fn begin_bid(&mut self, task: &QueuedTask) -> (request: BidRequest)
        requires
            old(self)@.wf(),
        ensures
            final(self)@.wf(),
            final(self)@ == old(self)@.bid_begun(task.pid, task.name()),
            request == ({
                let ready = old(self)@.with_process(task.pid, task.name());
                BidRequest {
                    pid: task.pid,
                    admitted: !old(self)@.bank.treasuries.contains_key(task.pid),
                    phase: ready.agents[task.pid].phase(),
                    profile: ready.agents[task.pid].profile,
                    latency_ns: task.starvation_ns,
                    balance: ready.bank.treasuries[task.pid].balance,
                }
            }),
    {
        let pid: i32 = task.pid;
        let ghost ready = self@.with_process(pid, task.name());
        let mut admitted = false;
        let mut agent = match self.agents.get(&pid) {
            Some(agent) => {
                assert(self@.agents.contains_key(pid));
                *agent
            },
            None => {
                assert(!self@.agents.contains_key(pid));
                let class: u8 = classify_process(task);
                self.bank.open_treasury(pid, class, self.ipo_baseline);
                admitted = true;
                BiddingAgent::new_for_class(class)
            },
        };
        let profile = agent.profile;
        let phase = agent.step();
        self.agents.insert(pid, agent);
        proof {
            assert(self@.agents =~= old(self)@.bid_begun(pid, task.name()).agents);
            assert(self@.bank.treasuries.dom() =~= self@.agents.dom());
        }
        let balance: u64 = match self.bank.treasury(pid) {
            Some(t) => t.balance,
            None => 0,
        };
        BidRequest { pid, admitted, phase, profile, latency_ns: task.starvation_ns, balance }
    }

    /// Submits the bid of a queued task to the order book.
    pub fn submit_bid(&mut self, task: QueuedTask, bid_amount: u64, now: u64)
        requires
            old(self)@.wf(),
        ensures
            final(self)@.wf(),
            final(self)@ == (SchedulerState {
                book: old(self)@.book.submitted(
                    Task { qtask: task, bid_amount, enqueue_time: now },
                ),
                ..old(self)@
            }),
    {
        self.order_book.submit_bid(Task { qtask: task, bid_amount, enqueue_time: now });
    }

    /// Whether an auction can be held now: one with bids must be counted.
    pub fn auction_fits(&self) -> (fits: bool)
        ensures
            fits == (self@.book.bids.len() > 0 ==> self@.book.sequence < u64::MAX),
    {
        self.order_book.len() == 0 || self.order_book.sequence() < u64::MAX
    }

    /// Holds an auction: takes out the best bid, with the price that it clears at.
    pub fn clear_market(&mut self) -> (outcome: Option<(Task, u64)>)
        requires
            old(self)@.wf(),
            old(self)@.book.bids.len() > 0 ==> old(self)@.book.sequence < u64::MAX,
        ensures
            final(self)@.wf(),
            match outcome {
                Some((winner, price)) => {
                    &&& old(self)@.book.wins(winner.rank())
                    &&& old(self)@.book.bids[winner.rank()] == winner
                    &&& price == winner.bid_amount
                    &&& final(self)@ == (SchedulerState {
                        book: old(self)@.book.cleared(winner.rank()),
                        ..old(self)@
                    })
                },
                None => {
                    &&& old(self)@.book.bids == Map::<Rank, Task>::empty()
                    &&& final(self)@ == old(self)@
                },
            },
    {
        self.order_book.clear_market()
    }

    /// Whether the kernel side is to be asked for a CPU before a dispatch.
    pub fn selects_cpu(&self) -> (selects: bool)
        ensures
            selects == !self@.percpu_local,
    {
        !self.percpu_local
    }

    /// Whether the spending record of the winner of an auction has room for its price.
    pub fn spend_fits(&self, winner: &Task, clearing_price: u64) -> (fits: bool)
        ensures
            fits == self@.bank.spend_fits(winner.qtask.pid, clearing_price),
    {
        self.bank.spend_fits(winner.qtask.pid, clearing_price)
    }

    /// Charges the winner of the last auction and makes its dispatch record. `selected` is
    /// the CPU that the kernel side selected, or negative. Returns the record and what the
    /// winner paid.
    pub fn dispatch_task(
        &mut self,
        winner: &Task,
        clearing_price: u64,
        selected: i32,
    ) -> (outcome: (DispatchedTask, u64))
        requires
            old(self)@.wf(),
            old(self)@.bank.spend_fits(winner.qtask.pid, clearing_price),
        ensures
            final(self)@.wf(),
            final(self)@ == (SchedulerState {
                bank: old(self)@.bank.charged(winner.qtask.pid, clearing_price),
                ..old(self)@
            }),
            outcome.1 == old(self)@.bank.cost(winner.qtask.pid, clearing_price),
            outcome.0 == dispatch_record(
                *winner,
                clearing_price,
                old(self)@.book.sequence as u64,
                old(self)@.slice_ns_min,
                target_cpu(old(self)@.percpu_local, winner.qtask.cpu, selected),
            ),
    {
        let cpu: i32 = choose_cpu(self.percpu_local, winner.qtask.cpu, selected);
        let dispatched = make_dispatch(
            winner,
            clearing_price,
            self.order_book.sequence(),
            self.slice_ns_min,
            cpu,
        );
        let paid: u64 = self.bank.charge(winner.qtask.pid, clearing_price);
        assert(self@.bank.treasuries.dom() =~= self@.agents.dom());
        (dispatched, paid)
    }

    /// Takes back a dispatch that the kernel side refused: refunds what the winner paid and
    /// submits its bid again.
    pub fn dispatch_failed(&mut self, winner: Task, paid: u64)
        requires
            old(self)@.wf(),
        ensures
            final(self)@.wf(),
            final(self)@ == (SchedulerState {
                bank: old(self)@.bank.refunded(winner.qtask.pid, paid),
                book: old(self)@.book.submitted(winner),
                ..old(self)@
            }),
    {
        self.bank.refund(winner.qtask.pid, paid);
        self.order_book.submit_bid(winner);
        assert(self@.bank.treasuries.dom() =~= self@.agents.dom());
    }

    /// The admitted processes in ascending order.
    pub fn pids(&self) -> (pids: Vec<i32>)
        ensures
            ascending_keys(pids@, self@.bank.treasuries),
    {
        self.bank.pids()
    }

    /// The treasury of `pid`, if it was admitted.
    pub fn treasury(&self, pid: i32) -> (treasury: Option<Treasury>)
        ensures
            self@.bank.treasuries.contains_key(pid) ==> treasury == Some(
                self@.bank.treasuries[pid],
            ),
            !self@.bank.treasuries.contains_key(pid) ==> treasury is None,
    {
        self.bank.treasury(pid)
    }

    /// Tokens that no process holds.
    pub fn reserve(&self) -> (reserve: u64)
        ensures
            reserve == self@.bank.reserve,
    {
        self.bank.reserve()
    }

    /// All tokens there are.
    pub fn total_supply(&self) -> (total: u64)
        ensures
            total == self@.bank.total_supply,
    {
        self.bank.total_supply()
    }

    /// What the kernel side is told of the treasury of `pid` at `now`.
    pub fn treasury_entry(&self, pid: i32, now: u64) -> (entry: Option<TreasuryEntry>)
        requires
            self@.wf(),
        ensures
            !self@.bank.treasuries.contains_key(pid) ==> entry is None,
            self@.bank.treasuries.contains_key(pid) ==> entry == Some(
                TreasuryEntry {
                    balance: self@.bank.treasuries[pid].balance,
                    last_update_ts: now,
                    total_spent: self@.bank.treasuries[pid].total_spent,
                    ipo_complete: if self@.agents[pid].tuning is None {
                        1
                    } else {
                        0
                    },
                    process_class: self@.bank.treasuries[pid].process_class,
                },
            ),
    {
        let t = match self.bank.treasury(pid) {
            Some(t) => t,
            None => {
                return None;
            },
        };
        assert(self@.agents.contains_key(pid));
        let ipo_complete: u8 = match self.agents.get(&pid) {
            Some(agent) => if agent.is_tuned() {
                1
            } else {
                0
            },
            None => 1,
        };
        Some(
            TreasuryEntry {
                balance: t.balance,
                last_update_ts: now,
                total_spent: t.total_spent,
                ipo_complete,
                process_class: t.process_class,
            },
        )
    }

    /// Closes the treasuries and agents of processes that are gone, and forgets their
    /// transfers.
    pub fn gc_treasuries(&mut self, dead: &Vec<i32>)
        requires
            old(self)@.wf(),
        ensures
            final(self)@.wf(),
            final(self)@ == old(self)@.without(dead@.to_set()),
    {
        let ghost start = self@;
        let mut i: usize = 0;
        proof {
            assert(dead@.take(0).to_set() =~= Set::<i32>::empty());
            assert(start.bank.treasuries.remove_keys(Set::<i32>::empty())
                =~= start.bank.treasuries);
            assert(start.agents.remove_keys(Set::<i32>::empty()) =~= start.agents);
            assert(start.transfer_log.remove_keys(Set::<i32>::empty()) =~= start.transfer_log);
        }
        while i < dead.len()
            invariant
                i <= dead.len(),
                start.wf(),
                self@.wf(),
                self@.bank.treasuries == start.bank.treasuries.remove_keys(
                    dead@.take(i as int).to_set(),
                ),
                self@.bank.total_supply == start.bank.total_supply,
                self@.agents == start.agents.remove_keys(dead@.take(i as int).to_set()),
                self@.transfer_log == start.transfer_log.remove_keys(
                    dead@.take(i as int).to_set(),
                ),
                self@ == (SchedulerState {
                    bank: self@.bank,
                    agents: self@.agents,
                    transfer_log: self@.transfer_log,
                    ..start
                }),
            decreases dead.len() - i,
        {
            let pid: i32 = dead[i];
            let ghost before = self@;
            let _ = self.bank.liquidate(pid);
            let _ = self.agents.remove(&pid);
            self.transfer_log.forget(pid);
            proof {
                assert(dead@.take(i + 1) =~= dead@.take(i as int).push(pid));
                dead@.take(i as int).lemma_push_to_set_commute(pid);
                assert(self@.bank.treasuries =~= before.bank.treasuries.remove(pid));
                assert(self@.bank.treasuries =~= start.bank.treasuries.remove_keys(
                    dead@.take(i + 1).to_set(),
                ));
                assert(self@.agents =~= start.agents.remove_keys(dead@.take(i + 1).to_set()));
                assert(self@.transfer_log =~= start.transfer_log.remove_keys(
                    dead@.take(i + 1).to_set(),
                ));
                assert(self@.agents.dom() =~= self@.bank.treasuries.dom());
            }
            i = i + 1;
        }
        assert(dead@.take(i as int) =~= dead@);
    }

    /// The balances of all processes, in ascending order of process id.
    pub fn balances(&self) -> (balances: Vec<(i32, u64)>)
        ensures
            ascending_keys(
                balances@.map_values(|entry: (i32, u64)| entry.0),
                self@.bank.treasuries,
            ),
            forall|i: int|
                0 <= i < balances@.len() ==> (#[trigger] balances@[i]).1
                    == self@.bank.treasuries[balances@[i].0].balance,
    {
        let pids: Vec<i32> = self.bank.pids();
        let mut balances: Vec<(i32, u64)> = Vec::new();
        let mut i: usize = 0;
        while i < pids.len()
            invariant
                i <= pids.len(),
                ascending_keys(pids@, self@.bank.treasuries),
                balances@.len() == i,
                forall|j: int| 0 <= j < i ==> (#[trigger] balances@[j]).0 == pids@[j],
                forall|j: int|
                    0 <= j < i ==> (#[trigger] balances@[j]).1
                        == self@.bank.treasuries[balances@[j].0].balance,
            decreases pids.len() - i,
        {
            let pid: i32 = pids[i];
            if let Some(t) = self.bank.treasury(pid) {
                balances.push((pid, t.balance));
            }
            i = i + 1;
        }
        assert(balances@.map_values(|entry: (i32, u64)| entry.0) =~= pids@);
        balances
    }

    /// The whole milliseconds that demurrage is due for: none where it is too early.
    pub fn demurrage_due(&self, now: u64) -> (due: Option<u64>)
        ensures
            due == self@.demurrage_due(now),
    {
        let elapsed: u64 = elapsed_ms(self.last_demurrage, now);
        if elapsed < DEMURRAGE_INTERVAL_MS {
            None
        } else {
            Some(elapsed)
        }
    }

    /// Collects demurrage into the reserve: of each process its tax, as far as its
    /// balance goes.
    pub fn apply_demurrage(&mut self, taxes: &BTreeMap<i32, u64>, now: u64)
        requires
            old(self)@.wf(),
        ensures
            final(self)@.wf(),
            final(self)@ == (SchedulerState {
                bank: old(self)@.bank.taxed(taxes@),
                last_demurrage: now,
                ..old(self)@
            }),
    {
        self.bank.levy(taxes);
        self.last_demurrage = now;
        assert(self@.bank.treasuries.dom() =~= self@.agents.dom());
    }

    /// Looks at pending transfer requests in order at `now` and carries out those that the
    /// accounts and the limit of the parent allow. Returns the children whose requests are
    /// done with, carried out or not.
    pub fn process_transfers(
        &mut self,
        requests: &Vec<MapEntry>,
        endian: Endian,
        now: u64,
    ) -> (processed: Vec<i32>)
        requires
            old(self)@.wf(),
            forall|i: int| 0 <= i < requests@.len() ==> (#[trigger] requests@[i]).key@.len() >= 4,
        ensures
            final(self)@.wf(),
            final(self)@ == ({
                let after = transfers_applied(
                    old(self)@.bank,
                    old(self)@.transfer_log,
                    requests@,
                    endian,
                    now,
                );
                SchedulerState { bank: after.0, transfer_log: after.1, ..old(self)@ }
            }),
            processed@ == requests@.map_values(|r: MapEntry| key_pid(r.key@, endian)),
    {
        let ghost start = self@;
        let mut processed: Vec<i32> = Vec::new();
        let mut i: usize = 0;
        assert(requests@.take(0) =~= Seq::<MapEntry>::empty());
        while i < requests.len()
            invariant
                i <= requests.len(),
                self@.wf(),
                forall|j: int|
                    0 <= j < requests@.len() ==> (#[trigger] requests@[j]).key@.len() >= 4,
                self@ == ({
                    let after = transfers_applied(
                        start.bank,
                        start.transfer_log,
                        requests@.take(i as int),
                        endian,
                        now,
                    );
                    SchedulerState { bank: after.0, transfer_log: after.1, ..start }
                }),
                processed@.len() == i,
                forall|j: int|
                    0 <= j < i ==> #[trigger] processed@[j] == key_pid(requests@[j].key@, endian),
            decreases requests.len() - i,
        {
            let raw: &MapEntry = &requests[i];
            proof {
                assert(requests@.take(i + 1).drop_last() =~= requests@.take(i as int));
                assert(requests@.take(i + 1).last() == *raw);
            }
            assert(requests@[i as int].key@.len() >= 4);
            let child: i32 = pid_from_key(raw.key.as_slice(), endian);
            if let Some(request) = read_transfer(raw.value.as_slice(), endian) {
                let parent: i32 = request.parent_pid;
                if self.transfer_log.may_send(parent, now) {
                    if self.bank.transfer(parent, child, request.amount) {
                        self.transfer_log.note(parent, now);
                    }
                    assert(self@.bank.treasuries.dom() =~= self@.agents.dom());
                }
            }
            processed.push(child);
            i = i + 1;
        }
        assert(requests@.take(i as int) =~= requests@);
        assert(processed@ =~= requests@.map_values(|r: MapEntry| key_pid(r.key@, endian)));
        processed
    }

    /// The market state that the kernel side is told. `demurrage_rate` is in thousandths of
    /// a percent per millisecond, and is held within its bounds.
    pub fn market_state(&self, tripped: bool, demurrage_rate: u32) -> (state: MarketState)
        requires
            self@.wf(),
        ensures
            state == self@.market_state(tripped, demurrage_rate),
            state.total_tokens_in_circulation == holdings(self@.bank.treasuries),
    {
        MarketState {
            current_clearing_price: 0,
            total_tokens_in_circulation: self.bank.circulating(),
            circuit_breaker_tripped: if tripped {
                1
            } else {
                0
            },
            current_demurrage_rate: if demurrage_rate < DEMURRAGE_RATE_MIN {
                DEMURRAGE_RATE_MIN
            } else if demurrage_rate > DEMURRAGE_RATE_MAX {
                DEMURRAGE_RATE_MAX
            } else {
                demurrage_rate
            },
        }
    }

    /// Drops all bids and slashes balances above the baseline of their class.
    pub fn haircut_protocol(&mut self)
        requires
            old(self)@.wf(),
        ensures
            final(self)@.wf(),
            final(self)@ == old(self)@.haircut(),
    {
        self.order_book.clear();
        self.bank.haircut();
        assert(self@.bank.treasuries.dom() =~= self@.agents.dom());
    }

    /// Whether the circuit breaker can trip at `now` within the range of its counters.
    pub fn trip_fits(&self, now: u64) -> (fits: bool)
        ensures
            fits == self@.breaker.can_trip(now),
    {
        self.breaker.trip_fits(now)
    }

    /// Trips the circuit breaker at `now`: closes the market and gives it a haircut.
    /// Returns the market state that the kernel side is told, as it was before the
    /// haircut.
    pub fn trip_circuit_breaker(&mut self, now: u64, demurrage_rate: u32) -> (state: MarketState)
        requires
            old(self)@.wf(),
            old(self)@.breaker.can_trip(now),
        ensures
            final(self)@.wf(),
            final(self)@ == old(self)@.tripped(now),
            state == old(self)@.market_state(true, demurrage_rate),
    {
        self.breaker.trip(now);
        let state = self.market_state(true, demurrage_rate);
        self.haircut_protocol();
        state
    }

    /// Looks at the circuit breaker at `now`: opens a market that was closed long
    /// enough, and says what is to be done.
    pub fn check_circuit_breaker(&mut self, now: u64) -> (verdict: BreakerCheck)
        requires
            old(self)@.wf(),
        ensures
            final(self)@.wf(),
            verdict == old(self)@.breaker.verdict(now),
            final(self)@ == (SchedulerState {
                breaker: old(self)@.breaker.checked(now),
                ..old(self)@
            }),
    {
        self.breaker.check(now)
    }

    /// Context switches since they were last counted, where there are `total` now.
    pub fn switches_since(&self, total: u64) -> (switches: u64)
        ensures
            switches == if total > self@.breaker.last_total {
                total - self@.breaker.last_total
            } else {
                0
            },
    {
        self.breaker.switches_since(total)
    }

    /// Notes that `total` context switches were counted at `now`.
    pub fn note_switches(&mut self, now: u64, total: u64)
        requires
            old(self)@.wf(),
        ensures
            final(self)@.wf(),
            final(self)@ == (SchedulerState {
                breaker: old(self)@.breaker.counted(now, total),
                ..old(self)@
            }),
    {
        self.breaker.note_count(now, total);
    }

    /// Whether the market is closed.
    pub fn market_closed(&self) -> (closed: bool)
        ensures
            closed == self@.breaker.active,
    {
        self.breaker.is_active()
    }

    /// The control group of the shadow core telemetry.
    pub fn shadow_cpus(&self) -> (cpus: &Vec<u32>)
        ensures
            cpus@ == self@.telemetry.shadow_cpus,
    {
        self.telemetry.shadow_cpus()
    }

    /// All CPUs outside the control group.
    pub fn market_cpus(&self) -> (cpus: &Vec<u32>)
        ensures
            cpus@ == self@.telemetry.market_cpus,
    {
        self.telemetry.market_cpus()
    }

    /// Whether `cpu` belongs to the control group.
    pub fn is_shadow(&self, cpu: u32) -> (shadow: bool)
        ensures
            shadow == self@.telemetry.shadow_cpus.contains(cpu),
    {
        self.telemetry.is_shadow(cpu)
    }

    /// The utilization samples, oldest first.
    pub fn ipc_history(&self) -> (samples: Vec<IpcSample>)
        ensures
            samples@ == self@.telemetry.history,
    {
        self.telemetry.history()
    }

    /// Whether it is time to read CPU times again.
    pub fn sample_due(&self, now: u64) -> (due: bool)
        ensures
            due == self@.telemetry.sample_due(now),
    {
        self.telemetry.sample_due(now)
    }

    /// Takes in the CPU times that were read at `now`: an error, and nothing taken
    /// in, where the ticks do not fit in `u64`.
    pub fn sample_ipc(&mut self, now: u64, current: BTreeMap<u32, CpuTimes>) -> (outcome: Result<
        (),
        CounterOverflow,
    >)
        requires
            old(self)@.wf(),
        ensures
            final(self)@.wf(),
            match outcome {
                Ok(_) => old(self)@.telemetry.sample_fits(current@) && final(self)@ == (
                SchedulerState {
                    telemetry: old(self)@.telemetry.sampled(now, current@),
                    ..old(self)@
                }),
                Err(_) => !old(self)@.telemetry.sample_fits(current@) && final(self)@
                    == old(self)@,
            },
    {
        self.telemetry.record(now, current)
    }

    /// Whether market and shadow utilization both fell sharply at the last sample.
    pub fn is_exogenous_event(&self) -> (exogenous: bool)
        ensures
            exogenous == self@.telemetry.exogenous(),
    {
        self.telemetry.is_exogenous_event()
    }

    /// The number of processes of `class`.
    pub fn count_class(&self, class: u8) -> (count: u64)
        ensures
            count == class_size(self@.bank.treasuries, class),
    {
        self.bank.count_class(class)
    }

    /// What the central bank is told of the market at `now`, with `timestamp` as the time
    /// of the snapshot.
    pub fn build_telemetry_snapshot(
        &self,
        timestamp: u64,
        now: u64,
    ) -> (snapshot: TelemetrySnapshot)
        requires
            self@.wf(),
        ensures
            snapshot.timestamp == timestamp,
            snapshot.numa_nodes@ == seq![
                NumaSnapshot {
                    id: 0,
                    avg_clearing_price: 0,
                    tokens_in_circulation: (self@.bank.total_supply - self@.bank.reserve) as u64,
                },
            ],
            worst_off(listed_pids(snapshot.top_starved@), self@.bank.treasuries),
            forall|i: int|
                0 <= i < snapshot.top_starved@.len() ==> describes(
                    #[trigger] snapshot.top_starved@[i],
                    self@.bank.treasuries,
                ),
            snapshot.reserve_balance == self@.bank.reserve,
            snapshot.total_supply == self@.bank.total_supply,
            snapshot.circuit_breaker_trips_last_60s == self@.breaker.recent_trips(now),
    {
        let mut numa_nodes: Vec<NumaSnapshot> = Vec::new();
        numa_nodes.push(
            NumaSnapshot {
                id: 0,
                avg_clearing_price: 0,
                tokens_in_circulation: self.bank.circulating(),
            },
        );
        TelemetrySnapshot {
            timestamp,
            numa_nodes,
            top_starved: top_starved(&self.bank),
            reserve_balance: self.bank.reserve(),
            total_supply: self.bank.total_supply(),
            circuit_breaker_trips_last_60s: self.breaker.recent_trips(now),
        }
    }

    /// Whether a policy may be applied: not while the last sample shows an exogenous event.
    pub fn policy_allowed(&self) -> (allowed: bool)
        ensures
            allowed == !self@.telemetry.exogenous(),
    {
        !self.telemetry.is_exogenous_event()
    }

    /// Applies a policy unless the last sample shows an exogenous event, and says whether
    /// it did. The policy's baseline holds for processes that are admitted from then on.
    /// Its demurrage rate is left to the caller.
    pub fn apply_policy(&mut self, decision: &PolicyDecision) -> (applied: bool)
        requires
            old(self)@.wf(),
        ensures
            final(self)@.wf(),
            applied == !old(self)@.telemetry.exogenous(),
            final(self)@ == old(self)@.governed(*decision),
    {
        if !self.policy_allowed() {
            return false;
        }
        self.redistribute(&decision.redistribute);
        if let Some(baseline) = decision.ipo_baseline {
            self.ipo_baseline = baseline;
        }
        true
    }

    /// Hands tokens out as a policy says, in order. Names that no class has are passed
    /// over.
    fn redistribute(&mut self, list: &Vec<Redistribution>)
        requires
            old(self)@.wf(),
        ensures
            final(self)@.wf(),
            final(self)@ == (SchedulerState {
                bank: policy_applied(old(self)@.bank, list@),
                ..old(self)@
            }),
    {
        let ghost start = self@;
        let mut i: usize = 0;
        assert(list@.take(0) =~= Seq::<Redistribution>::empty());
        while i < list.len()
            invariant
                i <= list.len(),
                self@.wf(),
                self@ == (SchedulerState {
                    bank: policy_applied(start.bank, list@.take(i as int)),
                    ..start
                }),
            decreases list.len() - i,
        {
            proof {
                assert(list@.take(i + 1).drop_last() =~= list@.take(i as int));
                assert(list@.take(i + 1).last() == list@[i as int]);
            }
            if let Some(class) = class_from_name(list[i].target_class.as_str()) {
                self.bank.fund(class, list[i].tokens);
                assert(self@.bank.treasuries.dom() =~= self@.agents.dom());
            }
            i = i + 1;
        }
        assert(list@.take(i as int) =~= list@);
    }

    /// Adds up all tokens.
    pub fn audit_token_supply(&self) -> (audit: SupplyAudit)
        requires
            self@.wf(),
        ensures
            audit.in_treasuries == holdings(self@.bank.treasuries),
            audit.reserve == self@.bank.reserve,
            audit.total == audit.in_treasuries + audit.reserve,
            audit.expected == self@.bank.total_supply,
            audit.total == audit.expected,
    {
        self.bank.audit()
    }

    /// Whether another cycle can be counted.
    pub fn cycle_fits(&self) -> (fits: bool)
        ensures
            fits == (self@.cycle < u64::MAX),
    {
        self.schedule_cycle < u64::MAX
    }

    /// Begins the next cycle.
    pub fn begin_cycle(&mut self)
        requires
            old(self)@.wf(),
            old(self)@.cycle < u64::MAX,
        ensures
            final(self)@.wf(),
            final(self)@ == (SchedulerState { cycle: (old(self)@.cycle + 1) as u64, ..old(self)@ }),
    {
        self.schedule_cycle = self.schedule_cycle + 1;
    }

    /// The work of the present cycle once the circuit breaker was looked at, in order.
    pub fn schedule(&self) -> (steps: Vec<Step>)
        ensures
            steps@ == cycle_steps(self@.cycle, self@.breaker.active),
    {
        plan_cycle(self.schedule_cycle, self.breaker.is_active())
    }

    /// Tasks that the kernel side is told are pending.
    pub fn pending(&self) -> (pending: u64)
        ensures
            pending == self@.pending(),
    {
        if self.breaker.is_active() {
            0
        } else {
            self.order_book.len() as u64
        }
    }

    /// Whether a reading of page faults is not below the first one.
    pub fn page_faults_fit(&self, page_faults: u64) -> (fits: bool)
        ensures
            fits == (page_faults >= self@.init_page_faults),
    {
        page_faults >= self.init_page_faults
    }

    /// Page faults since they were first read. The first reading that is not zero is
    /// the one that counts from.
    pub fn page_faults_since_start(&mut self, page_faults: u64) -> (since: u64)
        requires
            old(self)@.wf(),
            page_faults >= old(self)@.init_page_faults,
        ensures
            final(self)@.wf(),
            final(self)@ == (SchedulerState {
                init_page_faults: if old(self)@.init_page_faults == 0 {
                    page_faults
                } else {
                    old(self)@.init_page_faults
                },
                ..old(self)@
            }),
            since == page_faults - final(self)@.init_page_faults,
    {
        if self.init_page_faults == 0 {
            self.init_page_faults = page_faults;
        }
        page_faults - self.init_page_faults
    }
}

/// Transfer requests, whatever they ask for, leave the reserve, the sum of all
/// balances and the supply as they are.
pub proof fn law_transfers_conserve(
    bank: BankState,
    log: Map<i32, Seq<u64>>,
    requests: Seq<MapEntry>,
    endian: Endian,
    now: u64,
)
    requires
        bank.wf(),
    ensures
        ({
            let after = transfers_applied(bank, log, requests, endian, now).0;
            &&& after.wf()
            &&& after.reserve == bank.reserve
            &&& after.total_supply == bank.total_supply
            &&& holdings(after.treasuries) == holdings(bank.treasuries)
        }),
    decreases requests.len(),
{
    if requests.len() > 0 {
        law_transfers_conserve(bank, log, requests.drop_last(), endian, now);
        let before = transfers_applied(bank, log, requests.drop_last(), endian, now).0;
        if let Some(request) = transfer_in(requests.last().value@, endian) {
            law_transfer_conserves(
                before,
                request.parent_pid,
                key_pid(requests.last().key@, endian),
                request.amount,
            );
        }
    }
}

/// Any number of requests leave a parent within its limit.
pub proof fn law_transfers_stay_within_limit(
    bank: BankState,
    log: Map<i32, Seq<u64>>,
    requests: Seq<MapEntry>,
    endian: Endian,
    now: u64,
    parent: i32,
)
    requires
        recent_count(sent_by(log, parent), now, TRANSFER_WINDOW_NS) <= MAX_TRANSFERS_PER_SECOND,
    ensures
        recent_count(
            sent_by(transfers_applied(bank, log, requests, endian, now).1, parent),
            now,
            TRANSFER_WINDOW_NS,
        ) <= MAX_TRANSFERS_PER_SECOND,
    decreases requests.len(),
{
    if requests.len() > 0 {
        law_transfers_stay_within_limit(bank, log, requests.drop_last(), endian, now, parent);
        let before = transfers_applied(bank, log, requests.drop_last(), endian, now).1;
        if let Some(request) = transfer_in(requests.last().value@, endian) {
            if request.parent_pid == parent {
                let sent = sent_by(before, parent);
                law_forgetting_is_harmless(sent, now, now, TRANSFER_WINDOW_NS);
                lemma_recent_push(
                    recent_only(sent, now, TRANSFER_WINDOW_NS),
                    now,
                    now,
                    TRANSFER_WINDOW_NS,
                );
            }
        }
    }
}

/// A parent at its limit transfers nothing more at that time, whatever it asks for.
pub proof fn law_limit_stops_transfers(
    bank: BankState,
    log: Map<i32, Seq<u64>>,
    child: i32,
    request: TransferRequest,
    now: u64,
)
    requires
        !below_limit(log, request.parent_pid, now),
    ensures
        transfer_handled(bank, log, child, request, now) == (bank, log),
{
}

/// An exogenous event changes no policy: nobody gains or loses, and the baseline stays.
pub proof fn law_exogenous_event_changes_no_policy(s: SchedulerState, decision: PolicyDecision)
    requires
        s.telemetry.exogenous(),
    ensures
        s.governed(decision) == s,
{
}

/// A policy's baseline holds for the processes admitted after it, and changes nothing for
/// those admitted before: a new process receives what the baseline entitles its class to,
/// as far as the reserve goes.
pub proof fn law_baseline_holds_for_new_processes(
    s: SchedulerState,
    decision: PolicyDecision,
    baseline: u64,
    pid: i32,
    comm: Seq<u8>,
)
    requires
        s.wf(),
        !s.telemetry.exogenous(),
        decision.ipo_baseline == Some(baseline),
        !s.bank.treasuries.contains_key(pid),
    ensures
        s.governed(decision).bank == policy_applied(s.bank, decision.redistribute@),
        class_ipo(class_of_comm(comm), baseline) <= s.governed(decision).bank.reserve
            ==> s.governed(decision).bid_begun(pid, comm).bank.treasuries[pid].balance == class_ipo(
            class_of_comm(comm),
            baseline,
        ),
{
    law_policy_cannot_mint(s.bank, decision.redistribute@);
}

/// A policy, whatever it says, cannot mint tokens: it keeps the supply and only
/// draws on the reserve, it takes nothing from anybody, and it changes nobody's class.
pub proof fn law_policy_cannot_mint(bank: BankState, list: Seq<Redistribution>)
    requires
        bank.wf(),
    ensures
        policy_applied(bank, list).wf(),
        policy_applied(bank, list).total_supply == bank.total_supply,
        policy_applied(bank, list).reserve <= bank.reserve,
        policy_applied(bank, list).treasuries.dom() == bank.treasuries.dom(),
        forall|pid: i32| #[trigger]
            bank.treasuries.contains_key(pid) ==> policy_applied(
                bank,
                list,
            ).treasuries[pid].balance >= bank.treasuries[pid].balance,
        forall|pid: i32| #[trigger]
            bank.treasuries.contains_key(pid) ==> policy_applied(
                bank,
                list,
            ).treasuries[pid].process_class == bank.treasuries[pid].process_class,
    decreases list.len(),
{
    if list.len() > 0 {
        law_policy_cannot_mint(bank, list.drop_last());
        let before = policy_applied(bank, list.drop_last());
        if let Some(class) = funded_class(list.last().target_class@) {
            let tokens = list.last().tokens;
            law_funding_conserves(before, class, tokens);
            assert forall|pid: i32| #[trigger] bank.treasuries.contains_key(pid) implies
                policy_applied(bank, list).treasuries[pid].balance
                >= bank.treasuries[pid].balance by {
                assert(before.treasuries.contains_key(pid));
                law_grants_are_shares(before, class, tokens, pid);
            }
        }
    }
}

/// Each entry of a policy funds every process whose class is reported under the name that
/// the entry gives, and nobody else: those get their grants, and the others keep what they
/// hold.
pub proof fn law_policy_funds_reported_class(
    s: SchedulerState,
    list: Seq<Redistribution>,
    entry: Redistribution,
    pid: i32,
)
    requires
        s.wf(),
        s.bank.treasuries.contains_key(pid),
    ensures
        ({
            let before = policy_applied(s.bank, list);
            let after = policy_applied(s.bank, list.push(entry));
            let class = s.bank.treasuries[pid].process_class;
            after.treasuries[pid].balance == before.treasuries[pid].balance + if class_text(class)
                == entry.target_class@ {
                before.grant(class, entry.tokens, pid)
            } else {
                0
            }
        }),
{
    let before = policy_applied(s.bank, list);
    law_policy_cannot_mint(s.bank, list);
    assert(before.treasuries.contains_key(pid));
    law_funded_by_reported_name(s.bank.treasuries[pid].process_class, entry.target_class@);
    assert(list.push(entry).drop_last() =~= list);
    if let Some(funded) = funded_class(entry.target_class@) {
        law_grants_are_shares(before, funded, entry.tokens, pid);
    }
}

/// A dispatch that fails is as if it had never been tried, but for the number of
/// auctions: the bid is pending again and every account is as it was.
pub proof fn law_failed_dispatch_restores(s: SchedulerState, winner: Rank)
    requires
        s.wf(),
        s.book.wins(winner),
        s.bank.spend_fits(s.book.bids[winner].qtask.pid, s.book.bids[winner].bid_amount),
    ensures
        ({
            let task = s.book.bids[winner];
            let pid = task.qtask.pid;
            let price = task.bid_amount;
            let paid = s.bank.cost(pid, price) as u64;
            let after = SchedulerState {
                book: s.book.cleared(winner).submitted(task),
                bank: s.bank.charged(pid, price).refunded(pid, paid),
                ..s
            };
            &&& after == (SchedulerState {
                book: OrderBookState {
                    bids: s.book.bids,
                    sequence: s.book.sequence + 1,
                },
                ..s
            })
            &&& after.book.wins(winner)
        }),
{
    law_resubmission_restores(s.book, winner);
    law_refund_undoes_charge(
        s.bank,
        s.book.bids[winner].qtask.pid,
        s.book.bids[winner].bid_amount,
    );
}

/// Processes that are gone leave all their tokens to the reserve, and nobody else
/// gains or loses.
pub proof fn law_dead_leave_tokens_to_reserve(s: SchedulerState, dead: Set<i32>)
    requires
        s.wf(),
    ensures
        s.without(dead).wf(),
        s.without(dead).bank.total_supply == s.bank.total_supply,
        s.without(dead).bank.reserve >= s.bank.reserve,
        forall|pid: i32| #[trigger]
            s.without(dead).bank.treasuries.contains_key(pid) <==> s.bank.treasuries.contains_key(
                pid,
            ) && !dead.contains(pid),
        forall|pid: i32| #[trigger]
            s.without(dead).bank.treasuries.contains_key(pid)
                ==> s.without(dead).bank.treasuries[pid] == s.bank.treasuries[pid],
{
    let before = s.bank.treasuries;
    let after = before.remove_keys(dead);
    lemma_holdings_submap(before, after);
    lemma_holdings_nonnegative(after);
    assert(after.dom() =~= s.agents.remove_keys(dead).dom());
    assert forall|pid: i32| #[trigger] s.without(dead).agents.contains_key(pid) implies s.without(
        dead,
    ).agents[pid].wf() by {
        assert(s.agents.contains_key(pid));
    }
}

/// A process that bids has a treasury and an agent from then on. It is admitted once:
/// further bids leave its account and all others alone.
pub proof fn law_admitted_once(s: SchedulerState, pid: i32, comm: Seq<u8>, later: Seq<u8>)
    requires
        s.wf(),
    ensures
        s.bid_begun(pid, comm).bank.treasuries.contains_key(pid),
        s.bid_begun(pid, comm).agents.contains_key(pid),
        s.bid_begun(pid, comm).bid_begun(pid, later).bank == s.bid_begun(pid, comm).bank,
        s.bank.treasuries.contains_key(pid) ==> s.bid_begun(pid, comm).bank == s.bank,
        forall|other: i32|
            other != pid && #[trigger] s.bank.treasuries.contains_key(other) ==> s.bid_begun(
                pid,
                comm,
            ).bank.treasuries[other] == s.bank.treasuries[other],
{
}

/// Demurrage is collected for every whole millisecond that has passed, and not before
/// one has.
pub proof fn law_demurrage_is_spaced(s: SchedulerState, now: u64)
    ensures
        s.demurrage_due(now) is Some <==> now >= s.last_demurrage + 1_000_000,
        s.demurrage_due(now) matches Some(elapsed) ==> elapsed * 1_000_000 <= now
            - s.last_demurrage < (elapsed + 1) * 1_000_000,
{
}

/// While the market is closed after a trip, no bid is pending and nobody holds more
/// than before. The kernel side is told that the market is closed, and at which rate.
pub proof fn law_trip_closes_market(s: SchedulerState, now: u64, rate: u32)
    requires
        s.wf(),
        s.breaker.can_trip(now),
    ensures
        s.tripped(now).wf(),
        s.tripped(now).breaker.active,
        s.tripped(now).book.bids.len() == 0,
        s.tripped(now).pending() == 0,
        s.tripped(now).bank.total_supply == s.bank.total_supply,
        s.market_state(true, rate).circuit_breaker_tripped == 1,
        s.market_state(false, rate).circuit_breaker_tripped == 0,
        1 <= s.market_state(true, rate).current_demurrage_rate <= 100,
        1 <= rate <= 100 ==> s.market_state(true, rate).current_demurrage_rate == rate,
        forall|pid: i32| #[trigger]
            s.bank.treasuries.contains_key(pid) ==> s.tripped(now).bank.treasuries[pid].balance
                <= s.bank.treasuries[pid].balance,
{
    law_haircut_conserves(s.bank);
    lemma_recent_len(s.breaker.trip_times, now, TRIP_MEMORY_NS);
    assert(s.tripped(now).bank.treasuries.dom() =~= s.agents.dom());
    assert forall|pid: i32| #[trigger] s.bank.treasuries.contains_key(pid) implies s.tripped(
        now,
    ).bank.treasuries[pid].balance <= s.bank.treasuries[pid].balance by {
        law_haircut_bounds(s.bank, pid);
    }
}

/// A bid concerns its process alone. A new process is admitted with the class of its
/// command name, and its agent has made one bid: a daemon or an unknown process has taken
/// its first sample. A known process keeps its account, and its agent goes on. No other
/// agent and no other part of the scheduler changes.
pub proof fn law_bid_concerns_one_process(s: SchedulerState, pid: i32, comm: Seq<u8>, other: i32)
    requires
        s.wf(),
    ensures
        ({
            let after = s.bid_begun(pid, comm);
            let class = class_of_comm(comm);
            &&& !s.bank.treasuries.contains_key(pid) ==> {
                &&& after.bank.treasuries[pid].process_class == class
                &&& after.bank.treasuries[pid].total_spent == 0
                &&& after.bank.reserve + after.bank.treasuries[pid].balance == s.bank.reserve
                &&& class == 2 || class == 4 ==> after.agents[pid].tuning == Some(1usize)
                &&& class == 0 || class == 1 ==> after.agents[pid].tuning is None
                &&& after.agents[pid].profile == BiddingAgent::fresh(class).profile
            }
            &&& s.bank.treasuries.contains_key(pid) ==> {
                &&& after.bank == s.bank
                &&& after.agents[pid] == s.agents[pid].stepped()
            }
            &&& other != pid ==> (after.agents.contains_key(other) <==> s.agents.contains_key(
                other,
            )) && after.agents[other] == s.agents[other]
            &&& after == (SchedulerState { bank: after.bank, agents: after.agents, ..s })
        }),
{
    lemma_holdings_nonnegative(s.bank.treasuries);
}

/// A new process gets what the present baseline entitles its class to: twice of it for an
/// interactive command, half of it for a batch command and all of it for any other, as long
/// as the reserve holds that much.
pub proof fn law_first_bid_pays_entitlement(s: SchedulerState, pid: i32, comm: Seq<u8>)
    requires
        s.wf(),
        !s.bank.treasuries.contains_key(pid),
        2 * s.ipo_baseline <= s.bank.reserve,
    ensures
        ({
            let balance = s.bid_begun(pid, comm).bank.treasuries[pid].balance;
            let class = class_of_comm(comm);
            &&& class == 0 ==> balance == 2 * s.ipo_baseline
            &&& class == 1 ==> 0 <= s.ipo_baseline - 2 * balance <= 1
            &&& class != 0 && class != 1 ==> balance == s.ipo_baseline
        }),
{
    lemma_holdings_nonnegative(s.bank.treasuries);
}

/// What the kernel side is told: the tokens that processes hold, which with the reserve
/// make up the supply; 1 for a closed market and 0 for an open one; and the demurrage rate,
/// held to between 1 and 100. The clearing price is not tracked.
pub proof fn law_kernel_side_is_told(s: SchedulerState, tripped: bool, rate: u32)
    requires
        s.wf(),
    ensures
        ({
            let state = s.market_state(tripped, rate);
            &&& state.current_clearing_price == 0
            &&& state.total_tokens_in_circulation + s.bank.reserve == s.bank.total_supply
            &&& state.total_tokens_in_circulation == holdings(s.bank.treasuries)
            &&& state.circuit_breaker_tripped == 1 <==> tripped
            &&& state.circuit_breaker_tripped == 0 <==> !tripped
            &&& 1 <= rate <= 100 ==> state.current_demurrage_rate == rate
            &&& rate < 1 ==> state.current_demurrage_rate == 1
            &&& rate > 100 ==> state.current_demurrage_rate == 100
        }),
{
    lemma_holdings_nonnegative(s.bank.treasuries);
}

/// All bids are pending while the market is open, and none while it is closed.
pub proof fn law_pending_bids(s: SchedulerState)
    ensures
        s.breaker.active ==> s.pending() == 0,
        !s.breaker.active ==> s.pending() == s.book.bids.len(),
{
}

/// A transfer request is carried out if and only if parent and child are admitted, the
/// parent holds the amount, and fewer than ten of its transfers lie less than a second
/// back. The amount then leaves the parent, reaches the child and is noted; a request to
/// oneself is noted and moves nothing. A request that is not carried out changes nothing.
pub proof fn law_request_is_carried_out(
    bank: BankState,
    log: Map<i32, Seq<u64>>,
    requests: Seq<MapEntry>,
    entry: MapEntry,
    endian: Endian,
    now: u64,
    parent: i32,
    child: i32,
    amount: u64,
)
    requires
        bank.wf(),
        entry.key@ == pid_layout(child, endian),
        entry.value@ == pid_layout(parent, endian) + number_bytes(amount as nat, 8, endian),
    ensures
        ({
            let before = transfers_applied(bank, log, requests, endian, now);
            let after = transfers_applied(bank, log, requests.push(entry), endian, now);
            let m = before.0.treasuries;
            let recent = before.1.contains_key(parent) && before.1[parent].filter(
                |t: u64| now < t + 1_000_000_000,
            ).len() >= 10;
            let allowed = m.contains_key(parent) && m.contains_key(child) && m[parent].balance
                >= amount && !recent;
            &&& !allowed ==> after == before
            &&& allowed ==> {
                &&& after.1.contains_key(parent)
                &&& after.1[parent].len() > 0
                &&& after.1[parent].last() == now
                &&& parent == child ==> after.0 == before.0
                &&& parent != child ==> {
                    &&& after.0.treasuries[parent].balance + amount == m[parent].balance
                    &&& after.0.treasuries[child].balance == m[child].balance + amount
                }
            }
        }),
{
    let before = transfers_applied(bank, log, requests, endian, now);
    assert(requests.push(entry).drop_last() =~= requests);
    law_transfers_conserve(bank, log, requests, endian, now);
    law_pid_reads_back(child, endian);
    law_transfer_reads_back(TransferRequest { parent_pid: parent, amount }, endian);
    law_transfer_moves_amount(before.0, parent, child, parent, amount);
    law_ten_transfers_a_second(before.1, parent, now);
    law_noting_a_transfer(before.1, parent, child, now);
}

/// A request touches nobody but its parent and its child, and only the parent's limit; one
/// whose bytes are too few changes nothing.
pub proof fn law_request_touches_two_processes(
    bank: BankState,
    log: Map<i32, Seq<u64>>,
    requests: Seq<MapEntry>,
    entry: MapEntry,
    endian: Endian,
    now: u64,
    other: i32,
)
    requires
        bank.wf(),
    ensures
        ({
            let before = transfers_applied(bank, log, requests, endian, now);
            let after = transfers_applied(bank, log, requests.push(entry), endian, now);
            &&& entry.value@.len() < 12 ==> after == before
            &&& transfer_in(entry.value@, endian) matches Some(request) ==> {
                &&& other != request.parent_pid && other != key_pid(entry.key@, endian)
                    ==> after.0.treasuries[other] == before.0.treasuries[other]
                &&& other != request.parent_pid ==> (after.1.contains_key(other)
                    <==> before.1.contains_key(other)) && after.1[other] == before.1[other]
            }
            &&& after.0.treasuries.dom() == before.0.treasuries.dom()
        }),
{
    let before = transfers_applied(bank, log, requests, endian, now);
    assert(requests.push(entry).drop_last() =~= requests);
    law_transfers_conserve(bank, log, requests, endian, now);
    law_only_the_request_counts(entry.value@, entry.key@, endian);
    if let Some(request) = transfer_in(entry.value@, endian) {
        let child = key_pid(entry.key@, endian);
        law_transfer_moves_amount(before.0, request.parent_pid, child, other, request.amount);
        law_noting_a_transfer(before.1, request.parent_pid, other, now);
    }
}

/// A policy that sets a baseline sets it, and one that does not keeps it. Beyond that and
/// the accounts it changes nothing: no bid, no agent and no measurement.
pub proof fn law_policy_sets_baseline(s: SchedulerState, decision: PolicyDecision)
    requires
        !s.telemetry.exogenous(),
    ensures
        ({
            let after = s.governed(decision);
            &&& decision.ipo_baseline matches Some(baseline) ==> after.ipo_baseline == baseline
            &&& decision.ipo_baseline is None ==> after.ipo_baseline == s.ipo_baseline
            &&& decision.redistribute@.len() == 0 ==> after.bank == s.bank
            &&& after == (SchedulerState {
                bank: after.bank,
                ipo_baseline: after.ipo_baseline,
                ..s
            })
        }),
{
}

/// A trip concerns the breaker, the bids and the accounts: the market closes for 100
/// milliseconds, all bids are dropped, and of what a process without a special class holds
/// above 1,000 tokens nine tenths go to the reserve. Agents, telemetry and limits stay.
pub proof fn law_trip_gives_a_haircut(s: SchedulerState, now: u64, pid: i32)
    requires
        s.wf(),
        s.breaker.can_trip(now),
    ensures
        ({
            let after = s.tripped(now);
            let held = s.bank.treasuries[pid].balance;
            let taken = held - after.bank.treasuries[pid].balance;
            let class = s.bank.treasuries[pid].process_class;
            &&& after.breaker.until matches Some(until) && until == now + 100_000_000
            &&& after.breaker == s.breaker.tripped(now)
            &&& after.book.bids == Map::<Rank, Task>::empty()
            &&& after.book.sequence == s.book.sequence
            &&& s.bank.treasuries.contains_key(pid) && (class == 2 || class == 4) && held > 1_000
                ==> 10 * taken <= 9 * (held - 1_000) < 10 * (taken + 1)
            &&& s.bank.treasuries.contains_key(pid) && class == 0 && held > 2_000 ==> 10 * taken
                <= 9 * (held - 2_000) < 10 * (taken + 1)
            &&& s.bank.treasuries.contains_key(pid) && class == 1 && held > 500 ==> 10 * taken <= 9
                * (held - 500) < 10 * (taken + 1)
            &&& after == (SchedulerState {
                breaker: after.breaker,
                book: after.book,
                bank: after.bank,
                ..s
            })
        }),
{
    if s.bank.treasuries.contains_key(pid) {
        law_haircut_reaches_everybody(s.bank, pid);
    }
}

/// A haircut by itself drops all bids and gives every account the haircut that a trip does,
/// and leaves the breaker alone.
pub proof fn law_haircut_without_a_trip(s: SchedulerState, now: u64)
    ensures
        s.haircut().book.bids == Map::<Rank, Task>::empty(),
        s.haircut().book.sequence == s.book.sequence,
        s.haircut().bank == s.tripped(now).bank,
        s.haircut().breaker == s.breaker,
        s.haircut() == (SchedulerState {
            book: s.haircut().book,
            bank: s.haircut().bank,
            ..s
        }),
{
}

/// Of processes that are gone nothing is left: no treasury, no agent and no transfer. All
/// that is known of others stays.
pub proof fn law_dead_are_forgotten(s: SchedulerState, dead: Set<i32>, pid: i32)
    ensures
        dead.contains(pid) ==> {
            &&& !s.without(dead).bank.treasuries.contains_key(pid)
            &&& !s.without(dead).agents.contains_key(pid)
            &&& !s.without(dead).transfer_log.contains_key(pid)
        },
        !dead.contains(pid) ==> {
            &&& s.without(dead).agents.contains_key(pid) <==> s.agents.contains_key(pid)
            &&& s.without(dead).agents[pid] == s.agents[pid] || !s.agents.contains_key(pid)
            &&& s.without(dead).transfer_log.contains_key(pid) <==> s.transfer_log.contains_key(pid)
            &&& s.without(dead).transfer_log[pid] == s.transfer_log[pid]
                || !s.transfer_log.contains_key(pid)
        },
        s.without(dead) == (SchedulerState {
            bank: s.without(dead).bank,
            agents: s.without(dead).agents,
            transfer_log: s.without(dead).transfer_log,
            ..s
        }),
{
}

} // verus!
