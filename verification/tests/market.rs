use std::collections::BTreeMap;

use scx_agentic::agent::BidPhase;
use scx_agentic::breaker::BreakerCheck;
use scx_agentic::central_bank::{PolicyDecision, RateChange, Redistribution};
use scx_agentic::class::{CLASS_BATCH, CLASS_INTERACTIVE, CLASS_UNKNOWN};
use scx_agentic::cycle::Step;
use scx_agentic::dispatch::RL_CPU_ANY;
use scx_agentic::proc_stat::CpuTimes;
use scx_agentic::scheduler::Scheduler;
use scx_agentic::task::QueuedTask;
use scx_agentic::wire::{pid_key, Endian, MapEntry};

const MS: u64 = 1_000_000;

fn comm_field(name: &str) -> [u8; 16] {
    let mut field = [0u8; 16];
    field[..name.len()].copy_from_slice(name.as_bytes());
    field
}

fn queued(pid: i32, comm: &str) -> QueuedTask {
    QueuedTask {
        pid,
        cpu: 2,
        nr_cpus_allowed: 4,
        flags: 9,
        start_ts: 0,
        stop_ts: 0,
        exec_runtime: 0,
        weight: 100,
        vtime: 0,
        enq_cnt: 1_000 + pid as u64,
        comm: comm_field(comm),
        bid_amount: 0,
        treasury_balance: 0,
        starvation_ns: 5_000,
        class_hint: 4,
        numa_node: 0,
    }
}

fn scheduler(percpu_local: bool) -> Scheduler {
    Scheduler::init(4, 20_000, 1_000, percpu_local, 0)
}

fn balance(s: &Scheduler, pid: i32) -> u64 {
    s.treasury(pid).unwrap().balance
}

fn assert_conserved(s: &Scheduler) {
    let audit = s.audit_token_supply();
    assert_eq!(audit.total, audit.expected);
    assert_eq!(audit.expected, 4_000_000);
}

fn policy(redistribute: Vec<Redistribution>) -> PolicyDecision {
    PolicyDecision { rate: RateChange::Keep, ipo_baseline: None, redistribute }
}

fn request(child: i32, parent: i32, amount: u64) -> MapEntry {
    let mut value = pid_key(parent, Endian::Little);
    value.extend_from_slice(&amount.to_le_bytes());
    MapEntry { key: pid_key(child, Endian::Little), value }
}

#[test]
fn a_new_scheduler_holds_a_million_tokens_per_cpu() {
    let s = scheduler(false);
    assert_eq!(s.slice_ns(), 20_000_000);
    assert_eq!(s.total_supply(), 4_000_000);
    assert_eq!(s.reserve(), 4_000_000);
    assert_eq!(*s.shadow_cpus(), vec![3]);
    assert_eq!(*s.market_cpus(), vec![0, 1, 2]);
    assert!(s.is_shadow(3));
    assert!(s.pids().is_empty());
    assert!(!s.market_closed());
    assert_eq!(s.pending(), 0);
    assert_conserved(&s);
}

#[test]
fn a_first_bid_admits_the_process() {
    let mut s = scheduler(false);
    let r = s.begin_bid(&queued(5, "firefox"));
    assert!(r.admitted);
    assert_eq!(r.pid, 5);
    assert_eq!(r.phase, BidPhase::Steady);
    assert_eq!(r.profile.target_latency_ns, 1_000_000);
    assert_eq!(r.latency_ns, 5_000);
    assert_eq!(r.balance, 2_000);
    assert_eq!(s.reserve(), 3_998_000);
    let r = s.begin_bid(&queued(5, "gcc"));
    assert!(!r.admitted);
    assert_eq!(r.balance, 2_000);
    assert_eq!(s.treasury(5).unwrap().process_class, CLASS_INTERACTIVE);
    assert_eq!(s.count_class(CLASS_INTERACTIVE), 1);
    assert_eq!(s.count_class(CLASS_BATCH), 0);
    assert_conserved(&s);
}

#[test]
fn an_unknown_process_tunes_over_its_bids() {
    let mut s = scheduler(false);
    let task = queued(6, "mystery");
    for _ in 0..99 {
        assert_eq!(s.begin_bid(&task).phase, BidPhase::Explore);
    }
    assert_eq!(s.treasury_entry(6, 1).unwrap().ipo_complete, 0);
    assert_eq!(s.begin_bid(&task).phase, BidPhase::Settle);
    assert_eq!(s.treasury_entry(6, 1).unwrap().ipo_complete, 1);
    assert_eq!(s.begin_bid(&task).phase, BidPhase::Steady);
}

#[test]
fn the_highest_bidder_is_dispatched_and_charged() {
    let mut s = scheduler(false);
    for (pid, bid) in [(1, 40), (2, 90), (3, 60)] {
        s.begin_bid(&queued(pid, "bash"));
        s.submit_bid(queued(pid, "bash"), bid, 10);
    }
    assert_eq!(s.pending(), 3);
    let (winner, price) = s.clear_market().unwrap();
    assert_eq!(winner.qtask.pid, 2);
    assert_eq!(price, 90);
    assert!(s.selects_cpu());
    assert!(s.spend_fits(&winner, price));
    let (d, paid) = s.dispatch_task(&winner, price, -1);
    assert_eq!(paid, 90);
    assert_eq!(d.pid, 2);
    assert_eq!(d.cpu, RL_CPU_ANY);
    assert_eq!(d.flags, 9);
    assert_eq!(d.enq_cnt, 1_002);
    assert_eq!(d.slice_ns, 9_000_000);
    assert_eq!(d.vtime, u64::MAX - 90);
    assert_eq!(d.clearing_price, 90);
    assert_eq!(d.sequence, 1);
    assert_eq!(balance(&s, 2), 910);
    assert_eq!(s.treasury(2).unwrap().total_spent, 90);
    assert_eq!(s.pending(), 2);
    let (winner, price) = s.clear_market().unwrap();
    assert_eq!(winner.qtask.pid, 3);
    assert_eq!(s.dispatch_task(&winner, price, 1).0.cpu, 1);
    assert_eq!(s.dispatch_task(&winner, price, 1).0.sequence, 2);
    assert_conserved(&s);
}

#[test]
fn local_dispatch_keeps_the_cpu() {
    let mut s = scheduler(true);
    assert!(!s.selects_cpu());
    s.begin_bid(&queued(1, "bash"));
    s.submit_bid(queued(1, "bash"), 3, 10);
    let (winner, price) = s.clear_market().unwrap();
    let (d, _) = s.dispatch_task(&winner, price, 0);
    assert_eq!(d.cpu, 2);
    assert_eq!(d.slice_ns, 1_000_000);
    assert!(s.clear_market().is_none());
}

#[test]
fn a_failed_dispatch_is_undone() {
    let mut s = scheduler(false);
    s.begin_bid(&queued(1, "bash"));
    s.submit_bid(queued(1, "bash"), 300, 10);
    let reserve = s.reserve();
    let (winner, price) = s.clear_market().unwrap();
    let (_, paid) = s.dispatch_task(&winner, price, 0);
    assert_eq!(paid, 300);
    assert_eq!(s.reserve(), reserve + 300);
    s.dispatch_failed(winner, paid);
    assert_eq!(s.reserve(), reserve);
    assert_eq!(balance(&s, 1), 1_000);
    assert_eq!(s.treasury(1).unwrap().total_spent, 0);
    assert_eq!(s.pending(), 1);
    let (again, _) = s.clear_market().unwrap();
    assert_eq!(again.qtask.pid, 1);
    assert_eq!(again.bid_amount, 300);
    assert_conserved(&s);
}

#[test]
fn dead_processes_leave_their_tokens() {
    let mut s = scheduler(false);
    for pid in [1, 2, 3] {
        s.begin_bid(&queued(pid, "bash"));
    }
    s.gc_treasuries(&vec![3, 1, 3, 44]);
    assert_eq!(s.pids(), vec![2]);
    assert_eq!(s.reserve(), 3_999_000);
    assert!(s.treasury_entry(1, 0).is_none());
    assert!(s.begin_bid(&queued(1, "gcc")).admitted);
    assert_eq!(balance(&s, 1), 500);
    assert_conserved(&s);
}

#[test]
fn demurrage_is_due_every_millisecond() {
    let mut s = scheduler(false);
    s.begin_bid(&queued(1, "bash"));
    s.begin_bid(&queued(-2, "gcc"));
    assert_eq!(s.balances(), vec![(-2, 500), (1, 1_000)]);
    assert_eq!(s.demurrage_due(MS - 1), None);
    assert_eq!(s.demurrage_due(7 * MS + 5), Some(7));
    let mut taxes: BTreeMap<i32, u64> = BTreeMap::new();
    taxes.insert(1, 7);
    taxes.insert(-2, 600);
    s.apply_demurrage(&taxes, 7 * MS);
    assert_eq!(s.balances(), vec![(-2, 0), (1, 993)]);
    assert_eq!(s.demurrage_due(8 * MS - 1), None);
    assert_eq!(s.demurrage_due(8 * MS), Some(1));
    assert_conserved(&s);
}

#[test]
fn transfer_requests_are_processed_in_order() {
    let mut s = scheduler(false);
    for pid in [1, 2, 3] {
        s.begin_bid(&queued(pid, "bash"));
    }
    let mut short = request(3, 1, 5);
    short.value.truncate(11);
    let requests = vec![
        request(2, 1, 900),
        request(3, 1, 200),
        request(3, 2, 1_900),
        request(9, 2, 1),
        short,
    ];
    let processed = s.process_transfers(&requests, Endian::Little, 0);
    assert_eq!(processed, vec![2, 3, 3, 9, 3]);
    assert_eq!(s.balances(), vec![(1, 100), (2, 0), (3, 2_900)]);
    assert_eq!(s.reserve(), 3_997_000);
    assert_conserved(&s);
}

#[test]
fn a_trip_closes_the_market() {
    let mut s = scheduler(false);
    for pid in [1, 2] {
        s.begin_bid(&queued(pid, "firefox"));
        s.submit_bid(queued(pid, "firefox"), 10, 0);
    }
    s.apply_policy(&policy(vec![Redistribution {
        target_class: "interactive".to_string(),
        tokens: 2_000,
    }]));
    assert_eq!(balance(&s, 1), 3_000);
    assert_eq!(s.check_circuit_breaker(10 * MS), BreakerCheck::Measure(10));
    assert_eq!(s.switches_since(50), 50);
    assert!(s.trip_fits(10 * MS));
    let state = s.trip_circuit_breaker(10 * MS, 10);
    s.note_switches(10 * MS, 50);
    assert_eq!(state.current_clearing_price, 0);
    assert_eq!(state.total_tokens_in_circulation, 6_000);
    assert_eq!(state.circuit_breaker_tripped, 1);
    assert_eq!(state.current_demurrage_rate, 10);
    assert_eq!(balance(&s, 1), 2_100);
    assert!(s.market_closed());
    assert_eq!(s.pending(), 0);
    assert!(s.clear_market().is_none());
    s.begin_cycle();
    assert_eq!(s.schedule(), vec![Step::Discard, Step::Notify]);
    assert_eq!(s.check_circuit_breaker(109 * MS), BreakerCheck::Holding);
    assert_eq!(s.check_circuit_breaker(110 * MS), BreakerCheck::Released);
    assert!(!s.market_closed());
    assert_eq!(s.market_state(false, 10).circuit_breaker_tripped, 0);
    assert_eq!(s.market_state(false, 10).total_tokens_in_circulation, 4_200);
    assert_eq!(s.build_telemetry_snapshot(0, 110 * MS).circuit_breaker_trips_last_60s, 1);
    assert_eq!(s.build_telemetry_snapshot(0, 60_011 * MS).circuit_breaker_trips_last_60s, 0);
    assert_eq!(s.switches_since(60), 10);
    assert_conserved(&s);
}

#[test]
fn a_haircut_spares_the_baseline() {
    let mut s = scheduler(false);
    s.begin_bid(&queued(1, "bash"));
    s.begin_bid(&queued(2, "gcc"));
    s.submit_bid(queued(1, "bash"), 10, 0);
    s.process_transfers(&vec![request(2, 1, 600)], Endian::Little, 0);
    s.haircut_protocol();
    assert_eq!(s.balances(), vec![(1, 400), (2, 560)]);
    assert_eq!(s.pending(), 0);
    assert_conserved(&s);
}

#[test]
fn policies_fund_classes_from_the_reserve() {
    let mut s = scheduler(false);
    s.begin_bid(&queued(1, "gcc"));
    s.begin_bid(&queued(2, "make"));
    s.begin_bid(&queued(3, "nginx"));
    s.begin_bid(&queued(4, "bash"));
    s.begin_bid(&queued(5, "vim"));
    let list = vec![
        Redistribution { target_class: "batch".to_string(), tokens: 101 },
        Redistribution { target_class: "unknown".to_string(), tokens: 1_000 },
        Redistribution { target_class: "realtime".to_string(), tokens: 1_000 },
        Redistribution { target_class: "other".to_string(), tokens: 1_000 },
        Redistribution { target_class: "daemon".to_string(), tokens: 7 },
        Redistribution { target_class: "interactive".to_string(), tokens: 9 },
    ];
    assert!(s.apply_policy(&policy(list)));
    assert_eq!(s.balances(), vec![(1, 550), (2, 550), (3, 1_007), (4, 1_500), (5, 1_500)]);
    assert_conserved(&s);
    s.apply_policy(&policy(vec![Redistribution {
        target_class: "daemon".to_string(),
        tokens: u64::MAX,
    }]));
    assert_eq!(s.reserve(), 0);
    assert_conserved(&s);
}

#[test]
fn snapshots_tell_the_state_of_the_market() {
    let mut s = scheduler(false);
    s.begin_bid(&queued(1, "gcc"));
    s.begin_bid(&queued(2, "bash"));
    s.submit_bid(queued(1, "gcc"), 100, 0);
    let (winner, price) = s.clear_market().unwrap();
    s.dispatch_task(&winner, price, 0);
    let snap = s.build_telemetry_snapshot(77, 5);
    assert_eq!(snap.timestamp, 77);
    assert_eq!(snap.numa_nodes.len(), 1);
    assert_eq!(snap.numa_nodes[0].id, 0);
    assert_eq!(snap.numa_nodes[0].avg_clearing_price, 0);
    assert_eq!(snap.numa_nodes[0].tokens_in_circulation, 1_400);
    assert_eq!(snap.top_starved.len(), 1);
    assert_eq!(snap.top_starved[0].pid, 1);
    assert_eq!(snap.top_starved[0].balance, 400);
    assert_eq!(snap.reserve_balance, 3_998_600);
    assert_eq!(snap.total_supply, 4_000_000);
    assert_eq!(snap.circuit_breaker_trips_last_60s, 0);
}

#[test]
fn treasury_entries_tell_the_kernel_side() {
    let mut s = scheduler(false);
    s.begin_bid(&queued(1, "bash"));
    s.submit_bid(queued(1, "bash"), 25, 0);
    let (winner, price) = s.clear_market().unwrap();
    s.dispatch_task(&winner, price, 0);
    let entry = s.treasury_entry(1, 123).unwrap();
    assert_eq!(entry.balance, 975);
    assert_eq!(entry.last_update_ts, 123);
    assert_eq!(entry.total_spent, 25);
    assert_eq!(entry.ipo_complete, 0);
    assert_eq!(entry.process_class, CLASS_UNKNOWN);
    assert!(s.treasury_entry(2, 123).is_none());
}

#[test]
fn cycles_are_counted() {
    let mut s = scheduler(false);
    assert!(s.cycle_fits());
    assert!(s.auction_fits());
    for _ in 0..100 {
        s.begin_cycle();
    }
    assert!(s.schedule().contains(&Step::Transfers));
    s.begin_cycle();
    assert!(!s.schedule().contains(&Step::Transfers));
}

#[test]
fn telemetry_runs_through_the_scheduler() {
    let mut s = scheduler(false);
    assert!(!s.sample_due(99 * MS));
    assert!(s.sample_due(100 * MS));
    let mut times: BTreeMap<u32, CpuTimes> = BTreeMap::new();
    times.insert(0, CpuTimes { busy: 1, total: 2 });
    s.sample_ipc(100 * MS, times.clone()).unwrap();
    times.insert(0, CpuTimes { busy: 4, total: 8 });
    times.insert(3, CpuTimes { busy: 1, total: 9 });
    s.sample_ipc(200 * MS, times).unwrap();
    let history = s.ipc_history();
    assert_eq!(history.len(), 1);
    assert_eq!((history[0].market_util.busy, history[0].market_util.total), (3, 6));
    assert_eq!((history[0].shadow_util.busy, history[0].shadow_util.total), (1, 9));
    assert!(!s.is_exogenous_event());
}

#[test]
fn page_faults_are_counted_from_the_first_reading() {
    let mut s = scheduler(false);
    assert!(s.page_faults_fit(0));
    assert_eq!(s.page_faults_since_start(0), 0);
    assert_eq!(s.page_faults_since_start(40), 0);
    assert_eq!(s.page_faults_since_start(55), 15);
    assert!(!s.page_faults_fit(39));
}

#[test]
fn tokens_are_conserved_over_a_long_run() {
    let mut s = scheduler(false);
    let comms = ["firefox", "gcc", "nginx", "bash"];
    for round in 0..400u64 {
        let pid = (round % 23) as i32;
        let r = s.begin_bid(&queued(pid, comms[(round % 4) as usize]));
        s.submit_bid(queued(pid, "x"), r.balance / 3 + 1, round);
        if let Some((winner, price)) = s.clear_market() {
            let before = s.balances();
            let (_, paid) = s.dispatch_task(&winner, price, 0);
            if round % 5 == 0 {
                s.dispatch_failed(winner, paid);
                assert_eq!(s.balances(), before);
            }
        }
        if round % 7 == 0 {
            let taxes: BTreeMap<i32, u64> =
                s.balances().into_iter().map(|(p, b)| (p, b / 9 + round)).collect();
            s.apply_demurrage(&taxes, round);
        }
        if round % 11 == 0 {
            s.process_transfers(&vec![request(pid, pid + 1, 50)], Endian::Little, round);
        }
        if round % 13 == 0 {
            s.gc_treasuries(&vec![pid]);
        }
        if round % 17 == 0 {
            s.apply_policy(&policy(vec![Redistribution {
                target_class: "batch".to_string(),
                tokens: 10_000 * round,
            }]));
        }
        if round % 101 == 100 {
            s.trip_circuit_breaker(round, 10);
        }
        assert_conserved(&s);
    }
}

#[test]
fn a_failed_dispatch_refunds_only_what_was_paid() {
    let mut s = scheduler(false);
    s.begin_bid(&queued(7, "bash"));
    s.submit_bid(queued(7, "bash"), 1_000, 1);
    let (winner, price) = s.clear_market().unwrap();
    s.dispatch_task(&winner, price, 0);
    assert_eq!(balance(&s, 7), 0);
    let reserve = s.reserve();
    // The balance is empty: the winner pays nothing and gets nothing back.
    s.submit_bid(queued(7, "bash"), 1, 2);
    let (winner, price) = s.clear_market().unwrap();
    let (_, paid) = s.dispatch_task(&winner, price, 0);
    assert_eq!(paid, 0);
    s.dispatch_failed(winner, paid);
    assert_eq!(balance(&s, 7), 0);
    assert_eq!(s.treasury(7).unwrap().total_spent, 1_000);
    assert_eq!(s.reserve(), reserve);
    assert_eq!(s.pending(), 1);
    let (again, price) = s.clear_market().unwrap();
    assert_eq!((again.qtask.pid, price, again.enqueue_time), (7, 1, 2));
    assert_conserved(&s);
}

#[test]
fn the_kernel_side_is_told_the_rate() {
    let mut s = scheduler(false);
    s.begin_bid(&queued(1, "bash"));
    assert_eq!(s.market_state(true, 100).current_demurrage_rate, 100);
    assert_eq!(s.market_state(true, 10).current_demurrage_rate, 10);
    assert_eq!(s.market_state(true, 1).current_demurrage_rate, 1);
    assert_eq!(s.market_state(true, 0).current_demurrage_rate, 1);
    assert_eq!(s.market_state(true, 101).current_demurrage_rate, 100);
    assert_eq!(s.trip_circuit_breaker(0, 42).current_demurrage_rate, 42);
}

#[test]
fn a_policy_sets_the_baseline_of_new_processes() {
    let mut s = scheduler(false);
    s.begin_bid(&queued(1, "bash"));
    let decision =
        PolicyDecision { rate: RateChange::Keep, ipo_baseline: Some(3_000), redistribute: vec![] };
    assert!(s.apply_policy(&decision));
    assert_eq!(balance(&s, 1), 1_000);
    assert_eq!(s.begin_bid(&queued(1, "bash")).balance, 1_000);
    assert_eq!(s.begin_bid(&queued(2, "bash")).balance, 3_000);
    assert_eq!(s.begin_bid(&queued(3, "firefox")).balance, 6_000);
    assert_eq!(s.begin_bid(&queued(4, "gcc")).balance, 1_500);
    assert!(s.apply_policy(&policy(vec![])));
    assert_eq!(s.begin_bid(&queued(5, "bash")).balance, 3_000);
    assert_conserved(&s);
}

#[test]
fn an_exogenous_event_changes_no_policy() {
    let mut s = scheduler(false);
    s.begin_bid(&queued(1, "gcc"));
    assert!(s.policy_allowed());
    for (at, market, shadow, total) in [(1, 0, 0, 1), (2, 90, 90, 101), (3, 100, 100, 201)] {
        let mut times: BTreeMap<u32, CpuTimes> = BTreeMap::new();
        times.insert(0, CpuTimes { busy: market, total });
        times.insert(3, CpuTimes { busy: shadow, total });
        s.sample_ipc(at, times).unwrap();
    }
    assert!(s.is_exogenous_event());
    assert!(!s.policy_allowed());
    let decision = PolicyDecision {
        rate: RateChange::Raise,
        ipo_baseline: Some(5),
        redistribute: vec![Redistribution { target_class: "batch".to_string(), tokens: 100 }],
    };
    assert!(!s.apply_policy(&decision));
    assert_eq!(balance(&s, 1), 500);
    assert_eq!(s.begin_bid(&queued(2, "bash")).balance, 1_000);
}

#[test]
fn a_parent_makes_ten_transfers_a_second() {
    let mut s = scheduler(false);
    for pid in 1..=21 {
        s.begin_bid(&queued(pid, "bash"));
    }
    let requests: Vec<MapEntry> = (11..=21).map(|child| request(child, 1, 1)).collect();
    let processed = s.process_transfers(&requests, Endian::Little, 0);
    assert_eq!(processed.len(), 11);
    assert_eq!(balance(&s, 1), 990);
    assert_eq!(balance(&s, 20), 1_001);
    assert_eq!(balance(&s, 21), 1_000);
    // Other parents have their own limit, and requests that fail do not count.
    s.process_transfers(&vec![request(21, 2, 5_000), request(21, 2, 3)], Endian::Little, 1);
    assert_eq!(balance(&s, 2), 997);
    s.process_transfers(&vec![request(21, 1, 1)], Endian::Little, 999_999_999);
    assert_eq!(balance(&s, 1), 990);
    s.process_transfers(&vec![request(21, 1, 1)], Endian::Little, 1_000 * MS);
    assert_eq!(balance(&s, 1), 989);
    // A process that is gone takes its record with it.
    let requests: Vec<MapEntry> = (0..11).map(|_| request(21, 3, 1)).collect();
    s.process_transfers(&requests, Endian::Little, 2_000 * MS);
    assert_eq!(balance(&s, 3), 990);
    s.gc_treasuries(&vec![3]);
    s.begin_bid(&queued(3, "bash"));
    s.process_transfers(&requests, Endian::Little, 2_000 * MS);
    assert_eq!(balance(&s, 3), 990);
    assert_conserved(&s);
}
