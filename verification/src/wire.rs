//! The byte layout of the records shared with the kernel side.
use vstd::prelude::*;

use crate::dispatch::{dispatch_record, DispatchedTask};
use crate::order_book::Task;
use crate::task::QueuedTask;

verus! {

/// The order in which a machine lays out the bytes of a number.
#[derive(Clone, Copy, Debug, PartialEq, Eq, Structural)]
pub enum Endian {
    /// Least significant byte first.
    Little,
    /// Most significant byte first.
    Big,
}

/// NUMA nodes that the kernel side keeps market states for.
pub const MAX_NUMA_NODES: u32 = 8;

/// 256 to the power of `width`.
pub open spec fn byte_range(width: nat) -> nat
    decreases width,
{
    if width == 0 {
        1
    } else {
        256 * byte_range((width - 1) as nat)
    }
}

/// The `width` low bytes of `n`, least significant first.
pub open spec fn low_bytes(n: nat, width: nat) -> Seq<u8>
    decreases width,
{
    if width == 0 {
        Seq::empty()
    } else {
        seq![(n % 256) as u8] + low_bytes(n / 256, (width - 1) as nat)
    }
}

/// The number whose bytes are `s`, least significant first.
pub open spec fn low_value(s: Seq<u8>) -> nat
    decreases s.len(),
{
    if s.len() == 0 {
        0
    } else {
        s[0] as nat + 256 * low_value(s.skip(1))
    }
}

/// `n` in `width` bytes.
pub open spec fn number_bytes(n: nat, width: nat, endian: Endian) -> Seq<u8> {
    match endian {
        Endian::Little => low_bytes(n, width),
        Endian::Big => low_bytes(n, width).reverse(),
    }
}

/// The number whose bytes are `s`.
pub open spec fn number_value(s: Seq<u8>, endian: Endian) -> nat {
    match endian {
        Endian::Little => low_value(s),
        Endian::Big => low_value(s.reverse()),
    }
}

/// `low_bytes` gives as many bytes as it is asked for.
proof fn lemma_low_bytes_len(n: nat, width: nat)
    ensures
        low_bytes(n, width).len() == width,
    decreases width,
{
    if width > 0 {
        lemma_low_bytes_len(n / 256, (width - 1) as nat);
    }
}

/// Bytes stand for a number below the range of their width.
proof fn lemma_low_value_bound(s: Seq<u8>)
    ensures
        low_value(s) < byte_range(s.len()),
    decreases s.len(),
{
    if s.len() > 0 {
        lemma_low_value_bound(s.skip(1));
    }
}

/// Reading back the bytes of a number that fits gives the number.
proof fn lemma_low_round_trip(n: nat, width: nat)
    requires
        n < byte_range(width),
    ensures
        low_value(low_bytes(n, width)) == n,
    decreases width,
{
    lemma_low_bytes_len(n, width);
    if width > 0 {
        let rest = low_bytes(n / 256, (width - 1) as nat);
        lemma_low_round_trip(n / 256, (width - 1) as nat);
        assert(low_bytes(n, width).skip(1) =~= rest);
    }
}

/// Reading a number back from its bytes gives the number, in either byte order.
pub proof fn law_number_reads_back(n: nat, width: nat, endian: Endian)
    requires
        n < byte_range(width),
    ensures
        number_bytes(n, width, endian).len() == width,
        number_value(number_bytes(n, width, endian), endian) == n,
{
    lemma_low_bytes_len(n, width);
    lemma_low_round_trip(n, width);
    assert(low_bytes(n, width).reverse().reverse() =~= low_bytes(n, width));
}

/// The widths in use and their ranges.
proof fn lemma_byte_ranges()
    ensures
        byte_range(1) == 0x100,
        byte_range(4) == 0x1_0000_0000,
        byte_range(8) == 0x1_0000_0000_0000_0000,
{
    reveal_with_fuel(byte_range, 9);
}

/// The `width` low bytes of `n`, least significant first.
fn split_bytes(n: u64, width: usize) -> (bytes: Vec<u8>)
    ensures
        bytes@ == low_bytes(n as nat, width as nat),
{
    let mut bytes: Vec<u8> = Vec::new();
    let mut rest: u64 = n;
    let mut i: usize = 0;
    while i < width
        invariant
            i <= width,
            bytes@ + low_bytes(rest as nat, (width - i) as nat) == low_bytes(
                n as nat,
                width as nat,
            ),
        decreases width - i,
    {
        let ghost before = bytes@;
        bytes.push((rest % 256) as u8);
        proof {
            let tail = low_bytes((rest / 256) as nat, (width - i - 1) as nat);
            assert(bytes@ + tail =~= before + low_bytes(rest as nat, (width - i) as nat));
        }
        rest = rest / 256;
        i = i + 1;
    }
    assert(bytes@ =~= low_bytes(n as nat, width as nat));
    bytes
}

/// Appends `n` in `width` bytes to `out`.
fn put_number(out: &mut Vec<u8>, n: u64, width: usize, endian: Endian)
    ensures
        final(out)@ == old(out)@ + number_bytes(n as nat, width as nat, endian),
{
    let bytes: Vec<u8> = split_bytes(n, width);
    let ghost start = out@;
    let ghost target = number_bytes(n as nat, width as nat, endian);
    let mut i: usize = 0;
    while i < bytes.len()
        invariant
            i <= bytes.len(),
            bytes@ == low_bytes(n as nat, width as nat),
            target == number_bytes(n as nat, width as nat, endian),
            out@ == start + target.take(i as int),
        decreases bytes.len() - i,
    {
        let b: u8 = match endian {
            Endian::Little => bytes[i],
            Endian::Big => bytes[bytes.len() - 1 - i],
        };
        out.push(b);
        assert(b == target[i as int]);
        assert(out@ =~= start + target.take(i + 1));
        i = i + 1;
    }
    assert(target.take(i as int) =~= target);
}

/// The number in the `width` bytes from `at` on.
fn get_number(bytes: &[u8], at: usize, width: usize, endian: Endian) -> (n: u64)
    requires
        width <= 8,
        at + width <= bytes.len(),
    ensures
        n == number_value(bytes@.subrange(at as int, at + width), endian),
        n < byte_range(width as nat),
{
    let ghost field = bytes@.subrange(at as int, at + width);
    let ghost low = match endian {
        Endian::Little => field,
        Endian::Big => field.reverse(),
    };
    let mut n: u64 = 0;
    let mut i: usize = width;
    proof {
        lemma_byte_ranges();
        reveal_with_fuel(byte_range, 9);
        lemma_low_value_bound(low);
        assert(low.skip(width as int) =~= Seq::<u8>::empty());
    }
    while i > 0
        invariant
            i <= width,
            width <= 8,
            at + width <= bytes.len(),
            field == bytes@.subrange(at as int, at + width),
            low == (match endian {
                Endian::Little => field,
                Endian::Big => field.reverse(),
            }),
            n == low_value(low.skip(i as int)),
        decreases i,
    {
        i = i - 1;
        let b: u8 = match endian {
            Endian::Little => bytes[at + i],
            Endian::Big => bytes[at + (width - 1 - i)],
        };
        proof {
            assert(b == low[i as int]);
            assert(low.skip(i as int).skip(1) =~= low.skip(i + 1));
            lemma_low_value_bound(low.skip(i as int));
            lemma_byte_ranges();
            reveal_with_fuel(byte_range, 9);
            assert(low_value(low.skip(i as int)) < byte_range(8));
        }
        n = n * 256 + b as u64;
    }
    assert(low.skip(0) =~= low);
    n
}

/// What the kernel side is told of one treasury.
#[derive(Clone, Copy, Debug, PartialEq, Eq, Structural)]
pub struct TreasuryEntry {
    /// Tokens that the process holds.
    pub balance: u64,
    /// When this entry was written, in nanoseconds.
    pub last_update_ts: u64,
    /// Tokens that the process has spent.
    pub total_spent: u64,
    /// 1 once the bid multiplier of the process is settled.
    pub ipo_complete: u8,
    /// Class of the process.
    pub process_class: u8,
}

/// What the kernel side is told of the market.
#[derive(Clone, Copy, Debug, PartialEq, Eq, Structural)]
pub struct MarketState {
    /// Price of the last auction. The scheduler does not track it and writes 0.
    pub current_clearing_price: u64,
    /// Tokens that processes hold.
    pub total_tokens_in_circulation: u64,
    /// 1 while the market is closed.
    pub circuit_breaker_tripped: u32,
    /// Demurrage rate in thousandths of a percent per millisecond.
    pub current_demurrage_rate: u32,
}

/// A request of a parent to transfer tokens to a child.
#[derive(Clone, Copy, Debug, PartialEq, Eq, Structural)]
pub struct TransferRequest {
    /// Process that gives.
    pub parent_pid: i32,
    /// Tokens to transfer.
    pub amount: u64,
}

impl TreasuryEntry {
    /// The bytes of this entry: its fields in order and six bytes of padding.
    pub open spec fn layout(self, endian: Endian) -> Seq<u8> {
        number_bytes(self.balance as nat, 8, endian) + number_bytes(
            self.last_update_ts as nat,
            8,
            endian,
        ) + number_bytes(self.total_spent as nat, 8, endian) + seq![
            self.ipo_complete,
            self.process_class,
            0,
            0,
            0,
            0,
            0,
            0,
        ]
    }

    /// The bytes of this entry.
    pub fn to_bytes(&self, endian: Endian) -> (bytes: Vec<u8>)
        ensures
            bytes@ == self.layout(endian),
            bytes@.len() == 32,
    {
        let mut bytes: Vec<u8> = Vec::new();
        put_number(&mut bytes, self.balance, 8, endian);
        put_number(&mut bytes, self.last_update_ts, 8, endian);
        put_number(&mut bytes, self.total_spent, 8, endian);
        bytes.push(self.ipo_complete);
        bytes.push(self.process_class);
        bytes.push(0);
        bytes.push(0);
        bytes.push(0);
        bytes.push(0);
        bytes.push(0);
        bytes.push(0);
        proof {
            lemma_byte_ranges();
            law_number_reads_back(self.balance as nat, 8, endian);
            law_number_reads_back(self.last_update_ts as nat, 8, endian);
            law_number_reads_back(self.total_spent as nat, 8, endian);
            assert(bytes@ =~= self.layout(endian));
        }
        bytes
    }
}

impl MarketState {
    /// The bytes of this state: its fields in order.
    pub open spec fn layout(self, endian: Endian) -> Seq<u8> {
        number_bytes(self.current_clearing_price as nat, 8, endian) + number_bytes(
            self.total_tokens_in_circulation as nat,
            8,
            endian,
        ) + number_bytes(self.circuit_breaker_tripped as nat, 4, endian) + number_bytes(
            self.current_demurrage_rate as nat,
            4,
            endian,
        )
    }

    /// The bytes of this state.
    pub fn to_bytes(&self, endian: Endian) -> (bytes: Vec<u8>)
        ensures
            bytes@ == self.layout(endian),
            bytes@.len() == 24,
    {
        let mut bytes: Vec<u8> = Vec::new();
        put_number(&mut bytes, self.current_clearing_price, 8, endian);
        put_number(&mut bytes, self.total_tokens_in_circulation, 8, endian);
        put_number(&mut bytes, self.circuit_breaker_tripped as u64, 4, endian);
        put_number(&mut bytes, self.current_demurrage_rate as u64, 4, endian);
        proof {
            lemma_byte_ranges();
            law_number_reads_back(self.current_clearing_price as nat, 8, endian);
            law_number_reads_back(self.total_tokens_in_circulation as nat, 8, endian);
            law_number_reads_back(self.circuit_breaker_tripped as nat, 4, endian);
            law_number_reads_back(self.current_demurrage_rate as nat, 4, endian);
            assert(bytes@ =~= self.layout(endian));
        }
        bytes
    }
}

/// Bytes of a queued task.
pub const QUEUED_BYTES: usize = 120;

/// Bytes of a dispatched task.
pub const DISPATCHED_BYTES: usize = 56;

/// The unsigned number in the `width` bytes of `record` from `at` on.
pub open spec fn field(record: Seq<u8>, at: int, width: int, endian: Endian) -> nat {
    number_value(record.subrange(at, at + width), endian)
}

/// The signed number in the four bytes of `record` from `at` on.
pub open spec fn signed_field(record: Seq<u8>, at: int, endian: Endian) -> i32 {
    (field(record, at, 4, endian) as u32) as i32
}

/// Whether `record` is the queued task `task`: its fields in order, without gaps.
pub open spec fn holds_queued(record: Seq<u8>, endian: Endian, task: QueuedTask) -> bool {
    &&& task.pid == signed_field(record, 0, endian)
    &&& task.cpu == signed_field(record, 4, endian)
    &&& task.nr_cpus_allowed == field(record, 8, 8, endian)
    &&& task.flags == field(record, 16, 8, endian)
    &&& task.start_ts == field(record, 24, 8, endian)
    &&& task.stop_ts == field(record, 32, 8, endian)
    &&& task.exec_runtime == field(record, 40, 8, endian)
    &&& task.weight == field(record, 48, 8, endian)
    &&& task.vtime == field(record, 56, 8, endian)
    &&& task.enq_cnt == field(record, 64, 8, endian)
    &&& task.comm@ == record.subrange(72, 88)
    &&& task.bid_amount == field(record, 88, 8, endian)
    &&& task.treasury_balance == field(record, 96, 8, endian)
    &&& task.starvation_ns == field(record, 104, 8, endian)
    &&& task.class_hint == field(record, 112, 4, endian)
    &&& task.numa_node == field(record, 116, 4, endian)
}

/// The bytes of a dispatched task: its fields in order, without gaps.
pub open spec fn dispatched_layout(task: DispatchedTask, endian: Endian) -> Seq<u8> {
    pid_layout(task.pid, endian) + pid_layout(task.cpu, endian) + number_bytes(
        task.flags as nat,
        8,
        endian,
    ) + number_bytes(task.slice_ns as nat, 8, endian) + number_bytes(task.vtime as nat, 8, endian)
        + number_bytes(task.enq_cnt as nat, 8, endian) + number_bytes(
        task.clearing_price as nat,
        8,
        endian,
    ) + number_bytes(task.sequence as nat, 8, endian)
}

/// The signed number in the four bytes from `at` on.
fn get_signed(record: &[u8], at: usize, endian: Endian) -> (n: i32)
    requires
        at + 4 <= record.len(),
    ensures
        n == signed_field(record@, at as int, endian),
{
    proof {
        lemma_byte_ranges();
    }
    get_number(record, at, 4, endian) as u32 as i32
}

/// Reads a queued task: none where the record is too short.
pub fn read_queued(record: &[u8], endian: Endian) -> (task: Option<QueuedTask>)
    ensures
        match task {
            Some(t) => record@.len() >= QUEUED_BYTES && holds_queued(record@, endian, t),
            None => record@.len() < QUEUED_BYTES,
        },
{
    if record.len() < QUEUED_BYTES {
        return None;
    }
    proof {
        lemma_byte_ranges();
    }
    let comm: [u8; 16] = [
        record[72],
        record[73],
        record[74],
        record[75],
        record[76],
        record[77],
        record[78],
        record[79],
        record[80],
        record[81],
        record[82],
        record[83],
        record[84],
        record[85],
        record[86],
        record[87],
    ];
    assert(comm@ =~= record@.subrange(72, 88));
    Some(
        QueuedTask {
            pid: get_signed(record, 0, endian),
            cpu: get_signed(record, 4, endian),
            nr_cpus_allowed: get_number(record, 8, 8, endian),
            flags: get_number(record, 16, 8, endian),
            start_ts: get_number(record, 24, 8, endian),
            stop_ts: get_number(record, 32, 8, endian),
            exec_runtime: get_number(record, 40, 8, endian),
            weight: get_number(record, 48, 8, endian),
            vtime: get_number(record, 56, 8, endian),
            enq_cnt: get_number(record, 64, 8, endian),
            comm,
            bid_amount: get_number(record, 88, 8, endian),
            treasury_balance: get_number(record, 96, 8, endian),
            starvation_ns: get_number(record, 104, 8, endian),
            class_hint: get_number(record, 112, 4, endian) as u32,
            numa_node: get_number(record, 116, 4, endian) as u32,
        },
    )
}

/// The bytes of a dispatched task.
pub fn dispatched_bytes(task: &DispatchedTask, endian: Endian) -> (bytes: Vec<u8>)
    ensures
        bytes@ == dispatched_layout(*task, endian),
        bytes@.len() == DISPATCHED_BYTES,
        bytes@.len() == 56,
{
    let mut bytes: Vec<u8> = Vec::new();
    put_number(&mut bytes, (task.pid as u32) as u64, 4, endian);
    put_number(&mut bytes, (task.cpu as u32) as u64, 4, endian);
    put_number(&mut bytes, task.flags, 8, endian);
    put_number(&mut bytes, task.slice_ns, 8, endian);
    put_number(&mut bytes, task.vtime, 8, endian);
    put_number(&mut bytes, task.enq_cnt, 8, endian);
    put_number(&mut bytes, task.clearing_price, 8, endian);
    put_number(&mut bytes, task.sequence, 8, endian);
    proof {
        law_dispatched_reads_back(*task, endian);
        assert(bytes@ =~= dispatched_layout(*task, endian));
    }
    bytes
}

/// Every field of a dispatched task is read back from its place: above all the
/// generation counter, the flags and the CPU reach the kernel side as they are.
pub proof fn law_dispatched_reads_back(task: DispatchedTask, endian: Endian)
    ensures
        ({
            let record = dispatched_layout(task, endian);
            &&& record.len() == DISPATCHED_BYTES
            &&& signed_field(record, 0, endian) == task.pid
            &&& signed_field(record, 4, endian) == task.cpu
            &&& field(record, 8, 8, endian) == task.flags
            &&& field(record, 16, 8, endian) == task.slice_ns
            &&& field(record, 24, 8, endian) == task.vtime
            &&& field(record, 32, 8, endian) == task.enq_cnt
            &&& field(record, 40, 8, endian) == task.clearing_price
            &&& field(record, 48, 8, endian) == task.sequence
        }),
{
    lemma_byte_ranges();
    law_pid_reads_back(task.pid, endian);
    law_pid_reads_back(task.cpu, endian);
    law_number_reads_back(task.flags as nat, 8, endian);
    law_number_reads_back(task.slice_ns as nat, 8, endian);
    law_number_reads_back(task.vtime as nat, 8, endian);
    law_number_reads_back(task.enq_cnt as nat, 8, endian);
    law_number_reads_back(task.clearing_price as nat, 8, endian);
    law_number_reads_back(task.sequence as nat, 8, endian);
    let record = dispatched_layout(task, endian);
    assert(pid_layout(task.pid, endian).subrange(0, 4) =~= pid_layout(task.pid, endian));
    assert(pid_layout(task.cpu, endian).subrange(0, 4) =~= pid_layout(task.cpu, endian));
    assert(record.subrange(0, 4) =~= pid_layout(task.pid, endian));
    assert(record.subrange(4, 8) =~= pid_layout(task.cpu, endian));
    assert(record.subrange(8, 16) =~= number_bytes(task.flags as nat, 8, endian));
    assert(record.subrange(16, 24) =~= number_bytes(task.slice_ns as nat, 8, endian));
    assert(record.subrange(24, 32) =~= number_bytes(task.vtime as nat, 8, endian));
    assert(record.subrange(32, 40) =~= number_bytes(task.enq_cnt as nat, 8, endian));
    assert(record.subrange(40, 48) =~= number_bytes(task.clearing_price as nat, 8, endian));
    assert(record.subrange(48, 56) =~= number_bytes(task.sequence as nat, 8, endian));
}

/// From the record of a queued task to the record of its dispatch, the process id, the
/// flags and the generation counter are the same numbers.
pub proof fn law_generation_survives(
    queued: Seq<u8>,
    endian: Endian,
    winner: Task,
    price: u64,
    sequence: u64,
    slice_min: u64,
    cpu: i32,
)
    requires
        holds_queued(queued, endian, winner.qtask),
    ensures
        ({
            let record = dispatched_layout(
                dispatch_record(winner, price, sequence, slice_min, cpu),
                endian,
            );
            &&& signed_field(record, 0, endian) == signed_field(queued, 0, endian)
            &&& signed_field(record, 4, endian) == cpu
            &&& field(record, 8, 8, endian) == field(queued, 16, 8, endian)
            &&& field(record, 32, 8, endian) == field(queued, 64, 8, endian)
        }),
{
    law_dispatched_reads_back(dispatch_record(winner, price, sequence, slice_min, cpu), endian);
}

/// The bytes of a signed 32-bit number, as a map key.
pub open spec fn pid_layout(pid: i32, endian: Endian) -> Seq<u8> {
    number_bytes((pid as u32) as nat, 4, endian)
}

/// The process id that a map key begins with.
pub open spec fn key_pid(key: Seq<u8>, endian: Endian) -> i32 {
    (number_value(key.subrange(0, 4), endian) as u32) as i32
}

/// The transfer request that a map value holds: none where it is too short.
pub open spec fn transfer_in(value: Seq<u8>, endian: Endian) -> Option<TransferRequest> {
    if value.len() >= 12 {
        Some(
            TransferRequest {
                parent_pid: (number_value(value.subrange(0, 4), endian) as u32) as i32,
                amount: number_value(value.subrange(4, 12), endian) as u64,
            },
        )
    } else {
        None
    }
}

/// The counter that one CPU's value holds: 0 where it is too short.
pub open spec fn counter_in(value: Seq<u8>, endian: Endian) -> nat {
    if value.len() >= 8 {
        number_value(value.subrange(0, 8), endian)
    } else {
        0
    }
}

/// The sum of the counters of all CPUs.
pub open spec fn counter_sum(values: Seq<Vec<u8>>, endian: Endian) -> nat
    decreases values.len(),
{
    if values.len() == 0 {
        0
    } else {
        counter_sum(values.drop_last(), endian) + counter_in(values.last()@, endian)
    }
}

/// The map key of `pid`.
pub fn pid_key(pid: i32, endian: Endian) -> (key: Vec<u8>)
    ensures
        key@ == pid_layout(pid, endian),
        key@.len() == 4,
{
    let mut key: Vec<u8> = Vec::new();
    put_number(&mut key, (pid as u32) as u64, 4, endian);
    proof {
        lemma_byte_ranges();
        law_number_reads_back((pid as u32) as nat, 4, endian);
        assert(key@ =~= pid_layout(pid, endian));
    }
    key
}

/// The map key of an unsigned index: a CPU or a NUMA node.
pub fn index_key(index: u32, endian: Endian) -> (key: Vec<u8>)
    ensures
        key@ == number_bytes(index as nat, 4, endian),
        key@.len() == 4,
{
    let mut key: Vec<u8> = Vec::new();
    put_number(&mut key, index as u64, 4, endian);
    proof {
        lemma_byte_ranges();
        law_number_reads_back(index as nat, 4, endian);
        assert(key@ =~= number_bytes(index as nat, 4, endian));
    }
    key
}

/// A map entry: the bytes of its key and of its value.
#[derive(Debug)]
pub struct MapEntry {
    /// The key.
    pub key: Vec<u8>,
    /// The value.
    pub value: Vec<u8>,
}

/// The map entries that tell all NUMA nodes of the market state.
pub fn market_entries(state: &MarketState, endian: Endian) -> (entries: Vec<MapEntry>)
    ensures
        entries@.len() == MAX_NUMA_NODES,
        entries@.len() == 8,
        forall|i: int|
            0 <= i < entries@.len() ==> (#[trigger] entries@[i]).key@ == number_bytes(
                i as nat,
                4,
                endian,
            ) && entries@[i].value@ == state.layout(endian),
{
    let mut entries: Vec<MapEntry> = Vec::new();
    let mut node: u32 = 0;
    while node < MAX_NUMA_NODES
        invariant
            node <= MAX_NUMA_NODES,
            entries@.len() == node,
            forall|i: int|
                0 <= i < entries@.len() ==> (#[trigger] entries@[i]).key@ == number_bytes(
                    i as nat,
                    4,
                    endian,
                ) && entries@[i].value@ == state.layout(endian),
        decreases MAX_NUMA_NODES - node,
    {
        entries.push(MapEntry { key: index_key(node, endian), value: state.to_bytes(endian) });
        node = node + 1;
    }
    entries
}

/// The process id that a map key begins with.
pub fn pid_from_key(key: &[u8], endian: Endian) -> (pid: i32)
    requires
        key@.len() >= 4,
    ensures
        pid == key_pid(key@, endian),
{
    proof {
        lemma_byte_ranges();
    }
    get_number(key, 0, 4, endian) as u32 as i32
}

/// The transfer request that a map value holds: none where it is too short.
pub fn read_transfer(value: &[u8], endian: Endian) -> (request: Option<TransferRequest>)
    ensures
        request == transfer_in(value@, endian),
{
    if value.len() < 12 {
        return None;
    }
    proof {
        lemma_byte_ranges();
    }
    Some(
        TransferRequest {
            parent_pid: get_number(value, 0, 4, endian) as u32 as i32,
            amount: get_number(value, 4, 8, endian),
        },
    )
}

/// Context switches on all CPUs: the sum of their counters, or none where it exceeds
/// the range of `u64`.
pub fn read_csw_total(values: &Vec<Vec<u8>>, endian: Endian) -> (sum: Option<u64>)
    ensures
        match sum {
            Some(n) => n == counter_sum(values@, endian),
            None => counter_sum(values@, endian) > u64::MAX,
        },
{
    let mut sum: u64 = 0;
    let mut i: usize = 0;
    assert(values@.take(0) =~= Seq::<Vec<u8>>::empty());
    while i < values.len()
        invariant
            i <= values.len(),
            sum == counter_sum(values@.take(i as int), endian),
        decreases values.len() - i,
    {
        let value: &Vec<u8> = &values[i];
        let n: u64 = if value.len() >= 8 {
            get_number(value.as_slice(), 0, 8, endian)
        } else {
            0
        };
        proof {
            assert(values@.take(i + 1).drop_last() =~= values@.take(i as int));
            assert(values@.take(i + 1).last() == *value);
            lemma_counter_sum_grows(values@, i + 1, endian);
        }
        match sum.checked_add(n) {
            Some(next) => {
                sum = next;
            },
            None => {
                return None;
            },
        }
        i = i + 1;
    }
    assert(values@.take(i as int) =~= values@);
    Some(sum)
}

/// The sum over some of the CPUs is no more than the sum over all.
proof fn lemma_counter_sum_grows(values: Seq<Vec<u8>>, n: int, endian: Endian)
    requires
        0 <= n <= values.len(),
    ensures
        counter_sum(values.take(n), endian) <= counter_sum(values, endian),
    decreases values.len(),
{
    if n < values.len() {
        lemma_counter_sum_grows(values.drop_last(), n, endian);
        assert(values.drop_last().take(n) =~= values.take(n));
    } else {
        assert(values.take(n) =~= values);
    }
}

/// A process id is read back from its own key.
pub proof fn law_pid_reads_back(pid: i32, endian: Endian)
    ensures
        pid_layout(pid, endian).len() == 4,
        key_pid(pid_layout(pid, endian), endian) == pid,
{
    lemma_byte_ranges();
    law_number_reads_back((pid as u32) as nat, 4, endian);
    assert(pid_layout(pid, endian).subrange(0, 4) =~= pid_layout(pid, endian));
    assert((pid as u32) as i32 == pid) by (bit_vector);
}

/// A transfer request is read back from the bytes of its two fields.
pub proof fn law_transfer_reads_back(request: TransferRequest, endian: Endian)
    ensures
        transfer_in(
            pid_layout(request.parent_pid, endian) + number_bytes(
                request.amount as nat,
                8,
                endian,
            ),
            endian,
        ) == Some(request),
{
    lemma_byte_ranges();
    law_pid_reads_back(request.parent_pid, endian);
    law_number_reads_back(request.amount as nat, 8, endian);
    let head = pid_layout(request.parent_pid, endian);
    let tail = number_bytes(request.amount as nat, 8, endian);
    assert((head + tail).subrange(0, 4) =~= head);
    assert(head.subrange(0, 4) =~= head);
    assert((head + tail).subrange(4, 12) =~= tail);
}

/// Every field of a treasury entry is read back from its place in the layout.
pub proof fn law_treasury_entry_reads_back(entry: TreasuryEntry, endian: Endian)
    ensures
        entry.layout(endian).len() == 32,
        number_value(entry.layout(endian).subrange(0, 8), endian) == entry.balance,
        number_value(entry.layout(endian).subrange(8, 16), endian) == entry.last_update_ts,
        number_value(entry.layout(endian).subrange(16, 24), endian) == entry.total_spent,
        entry.layout(endian)[24] == entry.ipo_complete,
        entry.layout(endian)[25] == entry.process_class,
        forall|i: int| 26 <= i < 32 ==> entry.layout(endian)[i] == 0,
{
    lemma_byte_ranges();
    law_number_reads_back(entry.balance as nat, 8, endian);
    law_number_reads_back(entry.last_update_ts as nat, 8, endian);
    law_number_reads_back(entry.total_spent as nat, 8, endian);
    let all = entry.layout(endian);
    assert(all.subrange(0, 8) =~= number_bytes(entry.balance as nat, 8, endian));
    assert(all.subrange(8, 16) =~= number_bytes(entry.last_update_ts as nat, 8, endian));
    assert(all.subrange(16, 24) =~= number_bytes(entry.total_spent as nat, 8, endian));
}

/// Every field of the market state is read back from its place in the layout.
pub proof fn law_market_state_reads_back(state: MarketState, endian: Endian)
    ensures
        state.layout(endian).len() == 24,
        number_value(state.layout(endian).subrange(0, 8), endian) == state.current_clearing_price,
        number_value(state.layout(endian).subrange(8, 16), endian)
            == state.total_tokens_in_circulation,
        number_value(state.layout(endian).subrange(16, 20), endian)
            == state.circuit_breaker_tripped,
        number_value(state.layout(endian).subrange(20, 24), endian)
            == state.current_demurrage_rate,
{
    lemma_byte_ranges();
    law_number_reads_back(state.current_clearing_price as nat, 8, endian);
    law_number_reads_back(state.total_tokens_in_circulation as nat, 8, endian);
    law_number_reads_back(state.circuit_breaker_tripped as nat, 4, endian);
    law_number_reads_back(state.current_demurrage_rate as nat, 4, endian);
    let all = state.layout(endian);
    assert(all.subrange(0, 8) =~= number_bytes(state.current_clearing_price as nat, 8, endian));
    assert(all.subrange(8, 16) =~= number_bytes(
        state.total_tokens_in_circulation as nat,
        8,
        endian,
    ));
    assert(all.subrange(16, 20) =~= number_bytes(
        state.circuit_breaker_tripped as nat,
        4,
        endian,
    ));
    assert(all.subrange(20, 24) =~= number_bytes(state.current_demurrage_rate as nat, 4, endian));
}

/// Which byte stands where: byte `i` of a number is its digit of weight 256 to the power of
/// `i`, counted from the front where the least significant byte comes first and from the
/// back where the most significant one does.
pub proof fn law_bytes_in_order(n: nat, width: nat, i: nat)
    requires
        i < width,
    ensures
        number_bytes(n, width, Endian::Little).len() == width,
        number_bytes(n, width, Endian::Big).len() == width,
        number_bytes(n, width, Endian::Little)[i as int] as int == (n as int
            / vstd::arithmetic::power::pow(256, i)) % 256,
        number_bytes(n, width, Endian::Big)[width - 1 - i] as int == (n as int
            / vstd::arithmetic::power::pow(256, i)) % 256,
    decreases width,
{
    lemma_low_bytes_len(n, width);
    vstd::arithmetic::power::lemma_pow_positive(256, i);
    let rest = low_bytes(n / 256, (width - 1) as nat);
    if i == 0 {
        vstd::arithmetic::power::lemma_pow0(256);
        assert(n as int / 1 == n);
        assert(low_bytes(n, width)[0] == (n % 256) as u8);
    } else {
        let k = (i - 1) as nat;
        law_bytes_in_order(n / 256, (width - 1) as nat, k);
        assert(low_bytes(n, width)[i as int] == rest[k as int]);
        vstd::arithmetic::power::lemma_pow_positive(256, k);
        assert(vstd::arithmetic::power::pow(256, i) == 256 * vstd::arithmetic::power::pow(256, k))
            by {
            reveal(vstd::arithmetic::power::pow);
        }
        vstd::arithmetic::div_mod::lemma_div_denominator(
            n as int,
            256,
            vstd::arithmetic::power::pow(256, k),
        );
    }
}

/// Writing back a number that was read from bytes gives these bytes.
pub proof fn law_bytes_are_written_back(s: Seq<u8>, endian: Endian)
    ensures
        number_bytes(number_value(s, endian), s.len(), endian) == s,
{
    match endian {
        Endian::Little => {
            lemma_low_written_back(s);
        },
        Endian::Big => {
            lemma_low_written_back(s.reverse());
            assert(s.reverse().reverse() =~= s);
        },
    }
}

/// Writing back a number that was read least significant byte first.
proof fn lemma_low_written_back(s: Seq<u8>)
    ensures
        low_bytes(low_value(s), s.len()) == s,
    decreases s.len(),
{
    if s.len() > 0 {
        let rest = s.skip(1);
        lemma_low_written_back(rest);
        let n = low_value(s);
        assert(n % 256 == s[0]);
        assert(n / 256 == low_value(rest));
        assert(seq![s[0]] + rest =~= s);
    } else {
        assert(low_bytes(low_value(s), 0) =~= s);
    }
}

/// A queued task is read back from the bytes of its fields, one after the other: every field
/// is the number that was written, and the command name is the sixteen bytes of its field.
/// The whole takes 120 bytes.
#[verifier::rlimit(40)]
pub proof fn law_queued_reads_back(task: QueuedTask, got: QueuedTask, endian: Endian)
    requires
        holds_queued(
            pid_layout(task.pid, endian) + pid_layout(task.cpu, endian) + number_bytes(
                task.nr_cpus_allowed as nat,
                8,
                endian,
            ) + number_bytes(task.flags as nat, 8, endian) + number_bytes(
                task.start_ts as nat,
                8,
                endian,
            ) + number_bytes(task.stop_ts as nat, 8, endian) + number_bytes(
                task.exec_runtime as nat,
                8,
                endian,
            ) + number_bytes(task.weight as nat, 8, endian) + number_bytes(
                task.vtime as nat,
                8,
                endian,
            ) + number_bytes(task.enq_cnt as nat, 8, endian) + task.comm@ + number_bytes(
                task.bid_amount as nat,
                8,
                endian,
            ) + number_bytes(task.treasury_balance as nat, 8, endian) + number_bytes(
                task.starvation_ns as nat,
                8,
                endian,
            ) + number_bytes(task.class_hint as nat, 4, endian) + number_bytes(
                task.numa_node as nat,
                4,
                endian,
            ),
            endian,
            got,
        ),
    ensures
        got.pid == task.pid,
        got.cpu == task.cpu,
        got.nr_cpus_allowed == task.nr_cpus_allowed,
        got.flags == task.flags,
        got.start_ts == task.start_ts,
        got.stop_ts == task.stop_ts,
        got.exec_runtime == task.exec_runtime,
        got.weight == task.weight,
        got.vtime == task.vtime,
        got.enq_cnt == task.enq_cnt,
        got.comm@ == task.comm@,
        got.bid_amount == task.bid_amount,
        got.treasury_balance == task.treasury_balance,
        got.starvation_ns == task.starvation_ns,
        got.class_hint == task.class_hint,
        got.numa_node == task.numa_node,
        QUEUED_BYTES == 120,
{
    lemma_byte_ranges();
    law_pid_reads_back(task.pid, endian);
    law_pid_reads_back(task.cpu, endian);
    law_number_reads_back(task.nr_cpus_allowed as nat, 8, endian);
    law_number_reads_back(task.flags as nat, 8, endian);
    law_number_reads_back(task.start_ts as nat, 8, endian);
    law_number_reads_back(task.stop_ts as nat, 8, endian);
    law_number_reads_back(task.exec_runtime as nat, 8, endian);
    law_number_reads_back(task.weight as nat, 8, endian);
    law_number_reads_back(task.vtime as nat, 8, endian);
    law_number_reads_back(task.enq_cnt as nat, 8, endian);
    law_number_reads_back(task.bid_amount as nat, 8, endian);
    law_number_reads_back(task.treasury_balance as nat, 8, endian);
    law_number_reads_back(task.starvation_ns as nat, 8, endian);
    law_number_reads_back(task.class_hint as nat, 4, endian);
    law_number_reads_back(task.numa_node as nat, 4, endian);
    let r0 = pid_layout(task.pid, endian);
    let r1 = r0 + pid_layout(task.cpu, endian);
    let r2 = r1 + number_bytes(task.nr_cpus_allowed as nat, 8, endian);
    let r3 = r2 + number_bytes(task.flags as nat, 8, endian);
    let r4 = r3 + number_bytes(task.start_ts as nat, 8, endian);
    let r5 = r4 + number_bytes(task.stop_ts as nat, 8, endian);
    let r6 = r5 + number_bytes(task.exec_runtime as nat, 8, endian);
    let r7 = r6 + number_bytes(task.weight as nat, 8, endian);
    let r8 = r7 + number_bytes(task.vtime as nat, 8, endian);
    let r9 = r8 + number_bytes(task.enq_cnt as nat, 8, endian);
    let r10 = r9 + task.comm@;
    let r11 = r10 + number_bytes(task.bid_amount as nat, 8, endian);
    let r12 = r11 + number_bytes(task.treasury_balance as nat, 8, endian);
    let r13 = r12 + number_bytes(task.starvation_ns as nat, 8, endian);
    let r14 = r13 + number_bytes(task.class_hint as nat, 4, endian);
    let record = r14 + number_bytes(task.numa_node as nat, 4, endian);
    assert(pid_layout(task.pid, endian).subrange(0, 4) =~= pid_layout(task.pid, endian));
    assert(pid_layout(task.cpu, endian).subrange(0, 4) =~= pid_layout(task.cpu, endian));
    assert(record.subrange(0, 4) =~= pid_layout(task.pid, endian));
    assert(record.subrange(4, 8) =~= pid_layout(task.cpu, endian));
    assert(record.subrange(8, 16) =~= number_bytes(task.nr_cpus_allowed as nat, 8, endian));
    assert(record.subrange(16, 24) =~= number_bytes(task.flags as nat, 8, endian));
    assert(record.subrange(24, 32) =~= number_bytes(task.start_ts as nat, 8, endian));
    assert(record.subrange(32, 40) =~= number_bytes(task.stop_ts as nat, 8, endian));
    assert(record.subrange(40, 48) =~= number_bytes(task.exec_runtime as nat, 8, endian));
    assert(record.subrange(48, 56) =~= number_bytes(task.weight as nat, 8, endian));
    assert(record.subrange(56, 64) =~= number_bytes(task.vtime as nat, 8, endian));
    assert(record.subrange(64, 72) =~= number_bytes(task.enq_cnt as nat, 8, endian));
    assert(record.subrange(72, 88) =~= task.comm@);
    assert(record.subrange(88, 96) =~= number_bytes(task.bid_amount as nat, 8, endian));
    assert(record.subrange(96, 104) =~= number_bytes(task.treasury_balance as nat, 8, endian));
    assert(record.subrange(104, 112) =~= number_bytes(task.starvation_ns as nat, 8, endian));
    assert(record.subrange(112, 116) =~= number_bytes(task.class_hint as nat, 4, endian));
    assert(record.subrange(116, 120) =~= number_bytes(task.numa_node as nat, 4, endian));
}

/// A value too short for a request holds none, and what follows the twelve bytes of a
/// request does not matter. Likewise a key counts with its first four bytes.
pub proof fn law_only_the_request_counts(value: Seq<u8>, key: Seq<u8>, endian: Endian)
    ensures
        transfer_in(value, endian) is None <==> value.len() < 12,
        value.len() >= 12 ==> transfer_in(value, endian) == transfer_in(value.take(12), endian),
        key.len() >= 4 ==> key_pid(key, endian) == key_pid(key.take(4), endian),
{
    if value.len() >= 12 {
        assert(value.take(12).subrange(0, 4) =~= value.subrange(0, 4));
        assert(value.take(12).subrange(4, 12) =~= value.subrange(4, 12));
    }
    if key.len() >= 4 {
        assert(key.take(4).subrange(0, 4) =~= key.subrange(0, 4));
    }
}

/// The counters of all CPUs add up: each adds the number in the first eight bytes of its
/// value, and a value that is shorter adds nothing.
pub proof fn law_counters_add_up(values: Seq<Vec<u8>>, value: Vec<u8>, n: u64, endian: Endian)
    ensures
        counter_sum(Seq::empty(), endian) == 0,
        value@.len() < 8 ==> counter_sum(values.push(value), endian) == counter_sum(values, endian),
        value@.len() >= 8 && value@.take(8) == number_bytes(n as nat, 8, endian) ==> counter_sum(
            values.push(value),
            endian,
        ) == counter_sum(values, endian) + n,
{
    lemma_byte_ranges();
    law_number_reads_back(n as nat, 8, endian);
    assert(values.push(value).drop_last() =~= values);
    if value@.len() >= 8 {
        assert(value@.take(8) =~= value@.subrange(0, 8));
    }
}

/// A process id is laid out in four bytes as the number that it is, or, where it is
/// negative, as that number and 2 to the power of 32.
pub proof fn law_pid_bytes(pid: i32, endian: Endian)
    ensures
        pid >= 0 ==> pid_layout(pid, endian) == number_bytes(pid as nat, 4, endian),
        pid < 0 ==> pid_layout(pid, endian) == number_bytes(
            (pid + 0x1_0000_0000) as nat,
            4,
            endian,
        ),
{
    assert(pid >= 0 ==> (pid as u32) == pid) by (bit_vector);
    assert(pid < 0 ==> (pid as u32) == pid + 0x1_0000_0000) by (bit_vector);
}

} // verus!
