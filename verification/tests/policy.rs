use scx_agentic::agent::{BidPhase, BiddingAgent, Profile, ESC_SAMPLES_NEEDED};
use scx_agentic::bank::Bank;
use scx_agentic::breaker::{Breaker, BreakerCheck};
use scx_agentic::central_bank::{
    decide, fallback_heuristic, top_starved, PolicyDecision, RateChange, StarvedProcess,
    TelemetrySnapshot,
};
use scx_agentic::class::{
    CLASS_BATCH, CLASS_DAEMON, CLASS_INTERACTIVE, CLASS_REALTIME, CLASS_UNKNOWN, IPO_BASELINE,
};
use scx_agentic::cycle::{plan_cycle, Step};

const MS: u64 = 1_000_000;

fn starved(class: &str) -> StarvedProcess {
    StarvedProcess {
        pid: 1,
        comm: "pid:1".to_string(),
        starvation_ms: 0,
        class: class.to_string(),
        balance: 3,
    }
}

fn snapshot(reserve: u64, supply: u64, classes: &[&str]) -> TelemetrySnapshot {
    TelemetrySnapshot {
        timestamp: 0,
        numa_nodes: vec![],
        top_starved: classes.iter().map(|c| starved(c)).collect(),
        reserve_balance: reserve,
        total_supply: supply,
        circuit_breaker_trips_last_60s: 0,
    }
}

#[test]
fn agents_have_the_profile_of_their_class() {
    assert_eq!(
        BiddingAgent::new_for_class(CLASS_INTERACTIVE).profile,
        Profile {
            target_latency_ns: 1_000_000,
            kp_milli: 500,
            ki_milli: 10,
            kd_milli: 100,
            multiplier_milli: 200
        }
    );
    assert_eq!(
        BiddingAgent::new_for_class(CLASS_BATCH).profile,
        Profile {
            target_latency_ns: 50_000_000,
            kp_milli: 100,
            ki_milli: 1,
            kd_milli: 50,
            multiplier_milli: 50
        }
    );
    let other = Profile {
        target_latency_ns: 5_000_000,
        kp_milli: 300,
        ki_milli: 5,
        kd_milli: 80,
        multiplier_milli: 100,
    };
    for class in [CLASS_DAEMON, CLASS_REALTIME, CLASS_UNKNOWN, 77] {
        assert_eq!(BiddingAgent::new_for_class(class).profile, other);
    }
}

#[test]
fn unknown_and_daemon_agents_tune_once() {
    for class in [CLASS_UNKNOWN, CLASS_DAEMON] {
        let mut agent = BiddingAgent::new_for_class(class);
        assert!(!agent.is_tuned());
        for _ in 0..ESC_SAMPLES_NEEDED - 1 {
            assert_eq!(agent.step(), BidPhase::Explore);
            assert!(!agent.is_tuned());
        }
        assert_eq!(agent.step(), BidPhase::Settle);
        assert!(agent.is_tuned());
        for _ in 0..300 {
            assert_eq!(agent.step(), BidPhase::Steady);
        }
        assert!(agent.is_tuned());
    }
    for class in [CLASS_INTERACTIVE, CLASS_BATCH, CLASS_REALTIME] {
        let mut agent = BiddingAgent::new_for_class(class);
        assert!(agent.is_tuned());
        assert_eq!(agent.step(), BidPhase::Steady);
    }
}

#[test]
fn the_breaker_measures_every_ten_milliseconds() {
    let mut breaker = Breaker::new(5 * MS);
    assert_eq!(breaker.check(14 * MS), BreakerCheck::Idle);
    assert_eq!(breaker.check(15 * MS - 1), BreakerCheck::Idle);
    assert_eq!(breaker.check(15 * MS), BreakerCheck::Measure(10));
    assert_eq!(breaker.check(40 * MS + 7), BreakerCheck::Measure(35));
    assert_eq!(breaker.switches_since(90), 90);
    breaker.note_count(40 * MS, 90);
    assert_eq!(breaker.check(41 * MS), BreakerCheck::Idle);
    assert_eq!(breaker.switches_since(100), 10);
    assert_eq!(breaker.switches_since(80), 0);
}

#[test]
fn a_tripped_breaker_holds_for_a_tenth_of_a_second() {
    let mut breaker = Breaker::new(0);
    assert!(breaker.trip_fits(20 * MS));
    breaker.trip(20 * MS);
    assert!(breaker.is_active());
    assert_eq!(breaker.check(20 * MS), BreakerCheck::Holding);
    assert_eq!(breaker.check(120 * MS - 1), BreakerCheck::Holding);
    assert!(breaker.is_active());
    assert_eq!(breaker.check(120 * MS), BreakerCheck::Released);
    assert!(!breaker.is_active());
    assert_eq!(breaker.check(120 * MS), BreakerCheck::Measure(120));
    assert!(!breaker.trip_fits(u64::MAX));
}

#[test]
fn trips_are_counted_for_sixty_seconds() {
    let mut breaker = Breaker::new(0);
    assert_eq!(breaker.recent_trips(0), 0);
    for at in [0, 300, 700] {
        breaker.trip(at * MS);
        let _ = breaker.check((at + 100) * MS);
    }
    assert_eq!(breaker.recent_trips(1_000 * MS), 3);
    assert_eq!(breaker.recent_trips(60_000 * MS), 3);
    assert_eq!(breaker.recent_trips(60_000 * MS + 1), 2);
    assert_eq!(breaker.recent_trips(60_500 * MS), 1);
    assert_eq!(breaker.recent_trips(1_000_000 * MS), 0);
    breaker.trip(60_400 * MS);
    assert_eq!(breaker.recent_trips(60_400 * MS), 2);
    assert_eq!(breaker.recent_trips(120_400 * MS), 1);
    assert_eq!(breaker.recent_trips(120_401 * MS), 0);
}

#[test]
fn trips_and_releases_alternate() {
    let mut breaker = Breaker::new(0);
    let mut trips = 0;
    let mut releases = 0;
    for step in 1..2_000u64 {
        match breaker.check(step * 7 * MS) {
            BreakerCheck::Released => releases += 1,
            BreakerCheck::Measure(_) => {
                if step % 5 == 0 {
                    breaker.trip(step * 7 * MS);
                    trips += 1;
                }
                breaker.note_count(step * 7 * MS, step);
            }
            BreakerCheck::Holding | BreakerCheck::Idle => {}
        }
        assert_eq!(trips - releases, i32::from(breaker.is_active()));
    }
    assert!(trips > 10);
}

#[test]
fn the_rate_follows_the_reserve() {
    assert_eq!(fallback_heuristic(&snapshot(99, 1_000, &[])).rate, RateChange::Raise);
    assert_eq!(fallback_heuristic(&snapshot(100, 1_000, &[])).rate, RateChange::Keep);
    assert_eq!(fallback_heuristic(&snapshot(500, 1_000, &[])).rate, RateChange::Keep);
    assert_eq!(fallback_heuristic(&snapshot(501, 1_000, &[])).rate, RateChange::Lower);
    assert_eq!(fallback_heuristic(&snapshot(0, 0, &[])).rate, RateChange::Raise);
    assert_eq!(fallback_heuristic(&snapshot(1, 0, &[])).rate, RateChange::Lower);
    let max = u64::MAX;
    assert_eq!(fallback_heuristic(&snapshot(max, max, &[])).rate, RateChange::Lower);
    for supply in [1u64, 7, 64_000_000] {
        for reserve in [0, supply / 10, supply / 10 + 1, supply / 2, supply / 2 + 1, supply] {
            let ratio = reserve as f64 / supply as f64;
            let expected = if ratio < 0.10 {
                RateChange::Raise
            } else if ratio > 0.50 {
                RateChange::Lower
            } else {
                RateChange::Keep
            };
            assert_eq!(fallback_heuristic(&snapshot(reserve, supply, &[])).rate, expected);
        }
    }
}

#[test]
fn starved_interactive_processes_get_a_hundredth() {
    let decision = fallback_heuristic(&snapshot(12_345, 1_000_000, &["batch", "interactive"]));
    assert_eq!(decision.redistribute.len(), 1);
    assert_eq!(decision.redistribute[0].target_class, "interactive");
    assert_eq!(decision.redistribute[0].tokens, 123);
    assert_eq!(decision.ipo_baseline, None);
    assert!(fallback_heuristic(&snapshot(12_345, 1_000_000, &["batch"])).redistribute.is_empty());
    assert!(fallback_heuristic(&snapshot(12_345, 1_000_000, &[])).redistribute.is_empty());
    assert!(fallback_heuristic(&snapshot(99, 1_000_000, &["interactive"])).redistribute.is_empty());
    assert_eq!(
        fallback_heuristic(&snapshot(100, 1_000_000, &["interactive"])).redistribute[0].tokens,
        1
    );
}

#[test]
fn policies_agree_with_real_arithmetic() {
    let mut x: u64 = 88_172_645_463_325_252;
    for _ in 0..50_000 {
        x ^= x << 13;
        x ^= x >> 7;
        x ^= x << 17;
        let supply = x % (1 << 49) + 1_000;
        for reserve in [supply / 10, supply / 10 + 1, supply / 2, supply / 2 + 1, x % supply] {
            let decision = fallback_heuristic(&snapshot(reserve, supply, &["interactive"]));
            let ratio = reserve as f64 / supply as f64;
            let expected = if ratio < 0.10 {
                RateChange::Raise
            } else if ratio > 0.50 {
                RateChange::Lower
            } else {
                RateChange::Keep
            };
            assert_eq!(decision.rate, expected);
            let budget = (reserve as f64 * 0.01) as u64;
            let granted = decision.redistribute.first().map_or(0, |r| r.tokens);
            assert_eq!(granted, budget);
        }
    }
}

#[test]
fn without_a_snapshot_nothing_changes() {
    let decision = decide(&None);
    assert_eq!(decision.rate, RateChange::Keep);
    assert_eq!(decision.ipo_baseline, None);
    assert!(decision.redistribute.is_empty());
    let default = PolicyDecision::default();
    assert_eq!(default.rate, RateChange::Keep);
    assert!(default.redistribute.is_empty());
    let decision = decide(&Some(snapshot(10_000, 1_000_000, &["interactive"])));
    assert_eq!(decision.rate, RateChange::Raise);
    assert_eq!(decision.redistribute[0].tokens, 100);
}

#[test]
fn the_worst_off_are_reported_first() {
    let mut bank = Bank::new(1_000_000);
    bank.open_treasury(10, CLASS_DAEMON, IPO_BASELINE);
    bank.open_treasury(-4, CLASS_BATCH, IPO_BASELINE);
    assert!(top_starved(&bank).is_empty());
    bank.charge(-4, 1);
    for pid in 20..27 {
        bank.open_treasury(pid, CLASS_INTERACTIVE, IPO_BASELINE);
    }
    bank.charge(20, 1_900);
    bank.charge(21, 1_950);
    bank.charge(22, 1_900);
    bank.charge(23, 1_501);
    bank.charge(24, 1_500);
    bank.charge(25, 2_000);
    bank.open_treasury(1, CLASS_REALTIME, IPO_BASELINE);
    let top = top_starved(&bank);
    let got: Vec<(i32, u64)> = top.iter().map(|p| (p.pid, p.balance)).collect();
    assert_eq!(got, vec![(1, 0), (25, 0), (21, 50), (20, 100), (22, 100)]);
    assert_eq!(top[0].comm, "pid:1");
    assert_eq!(top[0].class, "realtime");
    assert_eq!(top[1].class, "interactive");
    assert_eq!(top[1].starvation_ms, 0);
}

#[test]
fn fewer_starved_processes_are_all_reported() {
    let mut bank = Bank::new(1_000_000);
    bank.open_treasury(-4, CLASS_BATCH, IPO_BASELINE);
    bank.open_treasury(7, CLASS_UNKNOWN, IPO_BASELINE);
    bank.charge(-4, 1);
    let top = top_starved(&bank);
    assert_eq!(top.len(), 1);
    assert_eq!(top[0].pid, -4);
    assert_eq!(top[0].comm, "pid:-4");
    assert_eq!(top[0].class, "batch");
    assert_eq!(top[0].balance, 499);
}

#[test]
fn cycles_have_their_work_in_order() {
    assert_eq!(plan_cycle(1_000, true), vec![Step::Discard, Step::Notify]);
    assert_eq!(
        plan_cycle(1, false),
        vec![
            Step::Demurrage,
            Step::Drain,
            Step::Dispatch,
            Step::Sample,
            Step::ReportExogenous,
            Step::Notify
        ]
    );
    assert_eq!(
        plan_cycle(100, false),
        vec![
            Step::Demurrage,
            Step::Drain,
            Step::Dispatch,
            Step::SyncTreasuries,
            Step::Transfers,
            Step::Sample,
            Step::ReportExogenous,
            Step::Notify
        ]
    );
    assert_eq!(
        plan_cycle(3_000, false),
        vec![
            Step::Demurrage,
            Step::Drain,
            Step::Dispatch,
            Step::CollectDead,
            Step::Audit,
            Step::SyncTreasuries,
            Step::Transfers,
            Step::Sample,
            Step::ReportExogenous,
            Step::PublishTelemetry,
            Step::ApplyPolicy,
            Step::Notify
        ]
    );
    assert!(plan_cycle(1_500, false).contains(&Step::PublishTelemetry));
    assert!(!plan_cycle(1_500, false).contains(&Step::Audit));
}
