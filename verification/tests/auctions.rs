use std::cmp::Ordering;

use scx_agentic::dispatch::{choose_cpu, make_dispatch, DispatchedTask, RL_CPU_ANY};
use scx_agentic::order_book::{OrderBook, Task};
use scx_agentic::task::QueuedTask;

fn comm_field(name: &str) -> [u8; 16] {
    let mut field = [0u8; 16];
    field[..name.len()].copy_from_slice(name.as_bytes());
    field
}

fn queued(pid: i32) -> QueuedTask {
    QueuedTask {
        pid,
        cpu: 3,
        nr_cpus_allowed: 8,
        flags: 0x55,
        start_ts: 1,
        stop_ts: 2,
        exec_runtime: 3,
        weight: 100,
        vtime: 4,
        enq_cnt: 77,
        comm: comm_field("bash"),
        bid_amount: 9,
        treasury_balance: 10,
        starvation_ns: 11,
        class_hint: 0,
        numa_node: 0,
    }
}

fn bid(pid: i32, bid_amount: u64, enqueue_time: u64) -> Task {
    Task { qtask: queued(pid), bid_amount, enqueue_time }
}

#[test]
fn bids_are_ordered_by_amount_then_age_then_pid() {
    assert_eq!(bid(1, 10, 5).cmp(&bid(2, 9, 1)), Ordering::Less);
    assert_eq!(bid(1, 9, 1).cmp(&bid(2, 10, 5)), Ordering::Greater);
    assert_eq!(bid(2, 10, 1).cmp(&bid(1, 10, 2)), Ordering::Less);
    assert_eq!(bid(2, 10, 2).cmp(&bid(1, 10, 1)), Ordering::Greater);
    assert_eq!(bid(1, 10, 2).cmp(&bid(2, 10, 2)), Ordering::Less);
    assert_eq!(bid(2, 10, 2).cmp(&bid(1, 10, 2)), Ordering::Greater);
    assert_eq!(bid(1, 10, 2).cmp(&bid(1, 10, 2)), Ordering::Equal);
    assert_eq!(bid(1, 10, 2).partial_cmp(&bid(1, 11, 2)), Some(Ordering::Greater));
    assert!(bid(1, 10, 2) < bid(1, 9, 2));
}

#[test]
fn the_market_clears_best_bid_first() {
    let mut book = OrderBook::new();
    assert_eq!(book.len(), 0);
    assert!(book.clear_market().is_none());
    assert_eq!(book.sequence(), 0);
    book.submit_bid(bid(1, 50, 100));
    book.submit_bid(bid(2, 70, 300));
    book.submit_bid(bid(3, 70, 200));
    book.submit_bid(bid(5, 50, 100));
    book.submit_bid(bid(4, 0, 1));
    assert_eq!(book.len(), 5);
    let mut order: Vec<(i32, u64)> = Vec::new();
    while let Some((winner, price)) = book.clear_market() {
        assert_eq!(price, winner.bid_amount);
        order.push((winner.qtask.pid, price));
    }
    assert_eq!(order, vec![(3, 70), (2, 70), (1, 50), (5, 50), (4, 0)]);
    assert_eq!(book.sequence(), 5);
    assert_eq!(book.len(), 0);
}

#[test]
fn a_bid_of_equal_rank_stays_in_place() {
    let mut book = OrderBook::new();
    let mut first = bid(1, 10, 5);
    first.qtask.enq_cnt = 1;
    let mut second = bid(1, 10, 5);
    second.qtask.enq_cnt = 2;
    book.submit_bid(first);
    book.submit_bid(second);
    assert_eq!(book.len(), 1);
    let (winner, _) = book.clear_market().unwrap();
    assert_eq!(winner.qtask.enq_cnt, 1);
}

#[test]
fn a_resubmitted_winner_wins_again() {
    let mut book = OrderBook::new();
    book.submit_bid(bid(1, 10, 5));
    book.submit_bid(bid(2, 20, 5));
    let (winner, _) = book.clear_market().unwrap();
    assert_eq!(winner.qtask.pid, 2);
    book.submit_bid(winner);
    let (again, _) = book.clear_market().unwrap();
    assert_eq!(again.qtask.pid, 2);
    assert_eq!(book.sequence(), 2);
}

#[test]
fn clearing_drops_bids_and_keeps_the_count() {
    let mut book = OrderBook::new();
    book.submit_bid(bid(1, 10, 5));
    book.submit_bid(bid(2, 20, 5));
    let _ = book.clear_market();
    book.clear();
    assert_eq!(book.len(), 0);
    assert_eq!(book.sequence(), 1);
    assert!(book.clear_market().is_none());
}

#[test]
fn a_dispatch_record_starts_from_the_queued_task() {
    let record = DispatchedTask::new(&queued(42));
    assert_eq!(
        record,
        DispatchedTask {
            pid: 42,
            cpu: 3,
            flags: 0x55,
            slice_ns: 0,
            vtime: 0,
            enq_cnt: 77,
            clearing_price: 0,
            sequence: 0,
        }
    );
}

#[test]
fn a_dispatch_record_carries_the_market_outcome() {
    let winner = bid(42, 150, 9);
    let record = make_dispatch(&winner, 150, 6, 1_000_000, 5);
    assert_eq!(record.pid, 42);
    assert_eq!(record.cpu, 5);
    assert_eq!(record.flags, 0x55);
    assert_eq!(record.enq_cnt, 77);
    assert_eq!(record.slice_ns, 15_000_000);
    assert_eq!(record.vtime, u64::MAX - 150);
    assert_eq!(record.clearing_price, 150);
    assert_eq!(record.sequence, 6);
}

#[test]
fn slices_are_bounded_below_and_saturate() {
    assert_eq!(make_dispatch(&bid(1, 5, 0), 5, 1, 1_000_000, 0).slice_ns, 1_000_000);
    assert_eq!(make_dispatch(&bid(1, 10, 0), 10, 1, 1_000_000, 0).slice_ns, 1_000_000);
    assert_eq!(make_dispatch(&bid(1, 11, 0), 11, 1, 1_000_000, 0).slice_ns, 1_100_000);
    let max = u64::MAX;
    assert_eq!(make_dispatch(&bid(1, max, 0), max, 1, 1, 0).slice_ns, max);
    assert_eq!(make_dispatch(&bid(1, max, 0), max, 1, 1, 0).vtime, 0);
}

#[test]
fn the_cpu_is_local_or_selected_or_any() {
    assert_eq!(RL_CPU_ANY, 1 << 20);
    assert_eq!(choose_cpu(true, 3, 7), 3);
    assert_eq!(choose_cpu(true, 3, -1), 3);
    assert_eq!(choose_cpu(false, 3, 7), 7);
    assert_eq!(choose_cpu(false, 3, 0), 0);
    assert_eq!(choose_cpu(false, 3, -1), RL_CPU_ANY);
}

#[test]
fn auctions_are_numbered_and_bids_come_out_in_order() {
    let mut book = OrderBook::new();
    let mut x: u64 = 42;
    let mut number = 0;
    for round in 0..300u64 {
        x = x.wrapping_mul(6_364_136_223_846_793_005).wrapping_add(1);
        book.submit_bid(bid((round % 17) as i32, x >> 58, round));
        if round % 3 == 0 {
            let (winner, _) = book.clear_market().unwrap();
            number += 1;
            assert_eq!(book.sequence(), number);
            if round % 2 == 0 {
                book.submit_bid(winner);
            }
        }
    }
    let mut left = book.len();
    let mut last: Option<Task> = None;
    while let Some((winner, _)) = book.clear_market() {
        number += 1;
        left -= 1;
        assert_eq!(book.sequence(), number);
        if let Some(before) = last {
            assert!(before < winner);
        }
        last = Some(winner);
    }
    assert_eq!(left, 0);
}
