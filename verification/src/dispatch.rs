//! Dispatch records: what the kernel side is told about the task to run next.
use vstd::prelude::*;

use crate::order_book::Task;
use crate::task::QueuedTask;

verus! {

/// CPU time that one token buys, in nanoseconds.
pub const NSEC_PER_TOKEN: u64 = 100_000;

/// CPU number that lets the kernel side pick any CPU.
pub const RL_CPU_ANY: i32 = 1_048_576;

/// A task that is handed to the kernel side to run.
#[derive(Clone, Copy, Debug, PartialEq, Eq, Structural)]
pub struct DispatchedTask {
    /// Process id.
    pub pid: i32,
    /// CPU to run on.
    pub cpu: i32,
    /// Enqueue flags.
    pub flags: u64,
    /// Time slice in nanoseconds.
    pub slice_ns: u64,
    /// Position in the dispatch queue: a smaller one goes first.
    pub vtime: u64,
    /// Generation counter of the queued task.
    pub enq_cnt: u64,
    /// Price that the task was auctioned at.
    pub clearing_price: u64,
    /// Number of the auction.
    pub sequence: u64,
}

/// The time slice that `price` tokens buy, no shorter than `slice_min` and no longer
/// than 64 bits can tell.
pub open spec fn slice_for(price: u64, slice_min: u64) -> int {
    let bought = if price * 100_000 <= u64::MAX {
        price * 100_000
    } else {
        u64::MAX as int
    };
    if bought >= slice_min {
        bought
    } else {
        slice_min as int
    }
}

/// The CPU that a task is sent to: with local dispatch the one it last ran on, else
/// the selected one, or any where none was selected.
pub open spec fn target_cpu(percpu_local: bool, last_cpu: i32, selected: i32) -> i32 {
    if percpu_local {
        last_cpu
    } else if selected >= 0 {
        selected
    } else {
        RL_CPU_ANY
    }
}

/// The dispatch record of a task that won auction number `sequence` at `price`.
pub open spec fn dispatch_record(
    winner: Task,
    price: u64,
    sequence: u64,
    slice_min: u64,
    cpu: i32,
) -> DispatchedTask {
    DispatchedTask {
        pid: winner.qtask.pid,
        cpu,
        flags: winner.qtask.flags,
        slice_ns: slice_for(price, slice_min) as u64,
        vtime: (u64::MAX - winner.bid_amount) as u64,
        enq_cnt: winner.qtask.enq_cnt,
        clearing_price: price,
        sequence,
    }
}

impl DispatchedTask {
    /// A dispatch record for `task` that has nothing of the market in it yet.
    pub fn new(task: &QueuedTask) -> (dispatched: DispatchedTask)
        ensures
            dispatched == (DispatchedTask {
                pid: task.pid,
                cpu: task.cpu,
                flags: task.flags,
                slice_ns: 0,
                vtime: 0,
                enq_cnt: task.enq_cnt,
                clearing_price: 0,
                sequence: 0,
            }),
    {
        DispatchedTask {
            pid: task.pid,
            cpu: task.cpu,
            flags: task.flags,
            slice_ns: 0,
            vtime: 0,
            enq_cnt: task.enq_cnt,
            clearing_price: 0,
            sequence: 0,
        }
    }
}

/// The CPU that a task is sent to.
pub fn choose_cpu(percpu_local: bool, last_cpu: i32, selected: i32) -> (cpu: i32)
    ensures
        cpu == target_cpu(percpu_local, last_cpu, selected),
{
    if percpu_local {
        last_cpu
    } else if selected >= 0 {
        selected
    } else {
        RL_CPU_ANY
    }
}

/// The dispatch record of a task that won auction number `sequence` at `price`.
pub fn make_dispatch(
    winner: &Task,
    price: u64,
    sequence: u64,
    slice_min: u64,
    cpu: i32,
) -> (dispatched: DispatchedTask)
    ensures
        dispatched == dispatch_record(*winner, price, sequence, slice_min, cpu),
{
    let mut dispatched = DispatchedTask::new(&winner.qtask);
    let bought: u64 = match price.checked_mul(NSEC_PER_TOKEN) {
        Some(slice) => slice,
        None => u64::MAX,
    };
    dispatched.slice_ns = if bought >= slice_min {
        bought
    } else {
        slice_min
    };
    dispatched.vtime = u64::MAX - winner.bid_amount;
    dispatched.clearing_price = price;
    dispatched.sequence = sequence;
    dispatched.cpu = cpu;
    dispatched
}

/// A dispatch record forwards the process id, the flags and the generation counter
/// of the queued task, and the CPU, the price and the auction number, as they are.
pub proof fn law_dispatch_forwards_task(
    winner: Task,
    price: u64,
    sequence: u64,
    slice_min: u64,
    cpu: i32,
)
    ensures
        dispatch_record(winner, price, sequence, slice_min, cpu).pid == winner.qtask.pid,
        dispatch_record(winner, price, sequence, slice_min, cpu).flags == winner.qtask.flags,
        dispatch_record(winner, price, sequence, slice_min, cpu).enq_cnt == winner.qtask.enq_cnt,
        dispatch_record(winner, price, sequence, slice_min, cpu).cpu == cpu,
        dispatch_record(winner, price, sequence, slice_min, cpu).clearing_price == price,
        dispatch_record(winner, price, sequence, slice_min, cpu).sequence == sequence,
{
}

/// A higher price never buys a shorter slice, and no slice is below the minimum.
pub proof fn law_slices_grow_with_price(low: u64, high: u64, slice_min: u64)
    requires
        low <= high,
    ensures
        slice_min <= slice_for(low, slice_min) <= slice_for(high, slice_min) <= u64::MAX,
{
}

/// A higher bid goes first in the dispatch queue.
pub proof fn law_higher_bid_dispatches_first(
    a: Task,
    b: Task,
    price_a: u64,
    price_b: u64,
    sequence_a: u64,
    sequence_b: u64,
    slice_min: u64,
    cpu_a: i32,
    cpu_b: i32,
)
    ensures
        a.bid_amount > b.bid_amount <==> dispatch_record(
            a,
            price_a,
            sequence_a,
            slice_min,
            cpu_a,
        ).vtime < dispatch_record(b, price_b, sequence_b, slice_min, cpu_b).vtime,
{
}

/// A token buys 100 microseconds: between the shortest slice and what 64 bits can tell, the
/// slice of a dispatch record is the price times 100,000 nanoseconds. A price that buys
/// less gives the shortest slice, one that buys more gives all that 64 bits can tell.
pub proof fn law_price_buys_time(
    winner: Task,
    price: u64,
    sequence: u64,
    slice_min: u64,
    cpu: i32,
)
    ensures
        ({
            let slice = dispatch_record(winner, price, sequence, slice_min, cpu).slice_ns;
            &&& slice_min <= price * 100_000 <= u64::MAX ==> slice == price * 100_000
            &&& price * 100_000 < slice_min ==> slice == slice_min
            &&& price * 100_000 > u64::MAX ==> slice == u64::MAX
        }),
{
}

/// Above the shortest slice, one more token buys exactly 100 microseconds more.
pub proof fn law_one_more_token_buys_time(
    winner: Task,
    price: u64,
    sequence: u64,
    slice_min: u64,
    cpu: i32,
)
    requires
        slice_min <= price * 100_000,
        (price + 1) * 100_000 <= u64::MAX,
    ensures
        dispatch_record(winner, (price + 1) as u64, sequence, slice_min, cpu).slice_ns
            == dispatch_record(winner, price, sequence, slice_min, cpu).slice_ns + 100_000,
{
}

/// The place in the dispatch queue and the bid always add up to the largest number of 64
/// bits, whatever the price, the auction and the CPU.
pub proof fn law_bid_sets_queue_place(
    winner: Task,
    price: u64,
    sequence: u64,
    slice_min: u64,
    cpu: i32,
)
    ensures
        dispatch_record(winner, price, sequence, slice_min, cpu).vtime + winner.bid_amount
            == u64::MAX,
{
}

/// With local dispatch a task stays on the CPU that it last ran on, whatever was selected.
/// Else a selected CPU is taken, wherever the task last ran, and where none was selected
/// the number is the one that stands for any CPU.
pub proof fn law_cpu_choice(last_cpu: i32, other_cpu: i32, selected: i32, other_selected: i32)
    ensures
        target_cpu(true, last_cpu, selected) == last_cpu,
        target_cpu(true, last_cpu, selected) == target_cpu(true, last_cpu, other_selected),
        target_cpu(false, last_cpu, selected) == target_cpu(false, other_cpu, selected),
        selected >= 0 ==> target_cpu(false, last_cpu, selected) == selected,
        selected < 0 ==> target_cpu(false, last_cpu, selected) == 1_048_576,
{
}

} // verus!
