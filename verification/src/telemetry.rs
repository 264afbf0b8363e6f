//! Shadow core telemetry: how busy the market cores are against a control group.
use std::collections::{BTreeMap, VecDeque};
use vstd::prelude::*;

use crate::proc_stat::{CounterOverflow, CpuTimes};

verus! {

broadcast use vstd::laws_cmp::group_laws_cmp;

/// Nanoseconds in a millisecond.
pub const NSEC_PER_MSEC: u64 = 1_000_000;

/// Milliseconds between two samples.
pub const IPC_SAMPLE_INTERVAL_MS: u64 = 100;

/// Samples that are kept.
pub const IPC_HISTORY_SIZE: usize = 60;

/// A utilization: busy ticks out of all ticks. No ticks at all count as idle.
#[derive(Clone, Copy, Debug, PartialEq, Eq, Structural)]
pub struct Util {
    /// Busy ticks.
    pub busy: u64,
    /// All ticks.
    pub total: u64,
}

/// One sample of market and shadow utilization.
#[derive(Clone, Copy, Debug, PartialEq, Eq, Structural)]
pub struct IpcSample {
    /// Utilization of the market cores.
    pub market_util: Util,
    /// Utilization of the shadow cores.
    pub shadow_util: Util,
    /// When the sample was taken, in nanoseconds.
    pub timestamp: u64,
}

/// Whole milliseconds from `since` to `now`, both in nanoseconds.
pub open spec fn millis_between(since: int, now: int) -> int {
    if now > since {
        (now - since) / 1_000_000
    } else {
        0
    }
}

/// `a - b`, but not below zero.
pub open spec fn growth(a: u64, b: u64) -> int {
    if a > b {
        a - b
    } else {
        0
    }
}

/// What a CPU had counted in `table`: nothing where it is not listed.
pub open spec fn times_in(table: Map<u32, CpuTimes>, cpu: u32) -> CpuTimes {
    if table.contains_key(cpu) {
        table[cpu]
    } else {
        CpuTimes { busy: 0, total: 0 }
    }
}

/// Busy ticks that `cpus` have counted between `before` and `now`. A CPU that is
/// not listed now counts for nothing.
pub open spec fn busy_growth(
    cpus: Seq<u32>,
    before: Map<u32, CpuTimes>,
    now: Map<u32, CpuTimes>,
) -> int
    decreases cpus.len(),
{
    if cpus.len() == 0 {
        0
    } else {
        let cpu = cpus.last();
        busy_growth(cpus.drop_last(), before, now) + if now.contains_key(cpu) {
            growth(now[cpu].busy, times_in(before, cpu).busy)
        } else {
            0
        }
    }
}

/// Ticks that `cpus` have counted between `before` and `now`. A CPU that is not
/// listed now counts for nothing.
pub open spec fn total_growth(
    cpus: Seq<u32>,
    before: Map<u32, CpuTimes>,
    now: Map<u32, CpuTimes>,
) -> int
    decreases cpus.len(),
{
    if cpus.len() == 0 {
        0
    } else {
        let cpu = cpus.last();
        total_growth(cpus.drop_last(), before, now) + if now.contains_key(cpu) {
            growth(now[cpu].total, times_in(before, cpu).total)
        } else {
            0
        }
    }
}

/// Whether the ticks that `cpus` have counted fit in `u64`.
pub open spec fn growth_fits(
    cpus: Seq<u32>,
    before: Map<u32, CpuTimes>,
    now: Map<u32, CpuTimes>,
) -> bool {
    &&& busy_growth(cpus, before, now) <= u64::MAX
    &&& total_growth(cpus, before, now) <= u64::MAX
}

/// The utilization of `cpus` between `before` and `now`.
pub open spec fn util_between(
    cpus: Seq<u32>,
    before: Map<u32, CpuTimes>,
    now: Map<u32, CpuTimes>,
) -> Util {
    Util {
        busy: busy_growth(cpus, before, now) as u64,
        total: total_growth(cpus, before, now) as u64,
    }
}

/// Whether utilization fell by more than a fifth of what it was. Written without
/// fractions: `after.busy / after.total` is below four fifths of
/// `before.busy / before.total`.
pub open spec fn drops_sharply(before: Util, after: Util) -> bool {
    &&& before.total > 0
    &&& before.busy > 0
    &&& after.total == 0 || 5 * (after.busy * before.total) < 4 * (before.busy * after.total)
}

/// `history` with `sample` at its end; a full history loses its oldest sample.
pub open spec fn remembered(history: Seq<IpcSample>, sample: IpcSample) -> Seq<IpcSample> {
    if history.len() >= IPC_HISTORY_SIZE {
        history.skip(1).push(sample)
    } else {
        history.push(sample)
    }
}

/// The shadow cores of a machine with `nr_cpus` CPUs: the last one, if there is
/// more than one. CPU numbers have 32 bits.
pub open spec fn shadow_set(nr_cpus: u64) -> Seq<u32> {
    if nr_cpus > 1 {
        seq![((nr_cpus - 1) as u64) as u32]
    } else {
        Seq::empty()
    }
}

/// The number of market cores of a machine with `nr_cpus` CPUs.
pub open spec fn market_size(nr_cpus: u64) -> nat {
    if nr_cpus > 1 && nr_cpus as u32 > 0 {
        (nr_cpus as u32 - 1) as nat
    } else {
        (nr_cpus as u32) as nat
    }
}

/// The market cores of a machine with `nr_cpus` CPUs: all that are no shadow core.
pub open spec fn market_set(nr_cpus: u64) -> Seq<u32> {
    Seq::new(market_size(nr_cpus), |i: int| i as u32)
}

/// What the telemetry holds.
#[verifier::ext_equal]
pub struct TelemetryState {
    /// The control group.
    pub shadow_cpus: Seq<u32>,
    /// All other CPUs.
    pub market_cpus: Seq<u32>,
    /// Samples, oldest first.
    pub history: Seq<IpcSample>,
    /// When CPU times were last read, in nanoseconds.
    pub last_sample: int,
    /// The CPU times that were last read.
    pub prev_times: Map<u32, CpuTimes>,
}

impl TelemetryState {
    /// The history does not outgrow its size.
    pub open spec fn wf(self) -> bool {
        &&& self.history.len() <= IPC_HISTORY_SIZE
        &&& 0 <= self.last_sample <= u64::MAX
    }

    /// Whether it is time to read CPU times again.
    pub open spec fn sample_due(self, now: u64) -> bool {
        millis_between(self.last_sample, now as int) >= IPC_SAMPLE_INTERVAL_MS
    }

    /// Whether a sample can be made of the CPU times `current`.
    pub open spec fn sample_fits(self, current: Map<u32, CpuTimes>) -> bool {
        self.prev_times.dom().len() > 0 ==> {
            &&& growth_fits(self.market_cpus, self.prev_times, current)
            &&& growth_fits(self.shadow_cpus, self.prev_times, current)
        }
    }

    /// The sample that the CPU times `current` make.
    pub open spec fn sample(self, now: u64, current: Map<u32, CpuTimes>) -> IpcSample {
        IpcSample {
            market_util: util_between(self.market_cpus, self.prev_times, current),
            shadow_util: util_between(self.shadow_cpus, self.prev_times, current),
            timestamp: now,
        }
    }

    /// After the CPU times `current` were read at `now`. The first reading makes no
    /// sample.
    pub open spec fn sampled(self, now: u64, current: Map<u32, CpuTimes>) -> TelemetryState {
        TelemetryState {
            history: if self.prev_times.dom().len() > 0 {
                remembered(self.history, self.sample(now, current))
            } else {
                self.history
            },
            last_sample: now as int,
            prev_times: current,
            ..self
        }
    }

    /// Whether market and shadow utilization both fell sharply at the last sample:
    /// the cause then lies outside the market.
    pub open spec fn exogenous(self) -> bool {
        let n = self.history.len() as int;
        &&& n >= 2
        &&& drops_sharply(self.history[n - 2].market_util, self.history[n - 1].market_util)
        &&& drops_sharply(self.history[n - 2].shadow_util, self.history[n - 1].shadow_util)
    }
}

/// Shadow and market cores, and the utilization samples taken on them.
pub struct Telemetry {
    shadow_cpus: Vec<u32>,
    market_cpus: Vec<u32>,
    ipc_history: VecDeque<IpcSample>,
    last_ipc_sample: u64,
    prev_cpu_times: BTreeMap<u32, CpuTimes>,
}

impl View for Telemetry {
    type V = TelemetryState;

    closed spec fn view(&self) -> TelemetryState {
        TelemetryState {
            shadow_cpus: self.shadow_cpus@,
            market_cpus: self.market_cpus@,
            history: self.ipc_history@,
            last_sample: self.last_ipc_sample as int,
            prev_times: self.prev_cpu_times@,
        }
    }
}

/// Whole milliseconds from `since` to `now`, both in nanoseconds.
pub fn elapsed_ms(since: u64, now: u64) -> (millis: u64)
    ensures
        millis == millis_between(since as int, now as int),
{
    if now > since {
        (now - since) / NSEC_PER_MSEC
    } else {
        0
    }
}

/// Whether utilization fell by more than a fifth of what it was.
pub fn is_sharp_drop(before: Util, after: Util) -> (drops: bool)
    ensures
        drops == drops_sharply(before, after),
{
    if before.total == 0 || before.busy == 0 {
        return false;
    }
    if after.total == 0 {
        return true;
    }
    proof {
        lemma_product_fits(after.busy, before.total);
        lemma_product_fits(before.busy, after.total);
    }
    let low: u128 = after.busy as u128 * before.total as u128;
    let high: u128 = before.busy as u128 * after.total as u128;
    low < high && low / 4 < high - low
}

/// The product of two 64-bit numbers has at most 128 bits.
proof fn lemma_product_fits(a: u64, b: u64)
    ensures
        0 <= a * b <= u128::MAX,
{
    assert(0 <= a * b <= 0xffff_ffff_ffff_ffff * 0xffff_ffff_ffff_ffff) by (nonlinear_arith)
        requires
            0 <= a <= 0xffff_ffff_ffff_ffff,
            0 <= b <= 0xffff_ffff_ffff_ffff,
    ;
}

/// Some of the CPUs count no more ticks than all of them.
proof fn lemma_growth_monotone(
    cpus: Seq<u32>,
    n: int,
    before: Map<u32, CpuTimes>,
    now: Map<u32, CpuTimes>,
)
    requires
        0 <= n <= cpus.len(),
    ensures
        0 <= busy_growth(cpus.take(n), before, now) <= busy_growth(cpus, before, now),
        0 <= total_growth(cpus.take(n), before, now) <= total_growth(cpus, before, now),
    decreases cpus.len(),
{
    if n < cpus.len() {
        lemma_growth_monotone(cpus.drop_last(), n, before, now);
        assert(cpus.drop_last().take(n) =~= cpus.take(n));
    } else {
        assert(cpus.take(n) =~= cpus);
        if n > 0 {
            lemma_growth_monotone(cpus.drop_last(), n - 1, before, now);
        }
    }
}

/// The utilization of `cpus` between two readings: an error where the ticks do not
/// fit in `u64`.
pub fn compute_util(
    cpus: &Vec<u32>,
    before: &BTreeMap<u32, CpuTimes>,
    current: &BTreeMap<u32, CpuTimes>,
) -> (util: Result<Util, CounterOverflow>)
    ensures
        match util {
            Ok(u) => growth_fits(cpus@, before@, current@) && u == util_between(
                cpus@,
                before@,
                current@,
            ),
            Err(_) => !growth_fits(cpus@, before@, current@),
        },
{
    let mut busy: u64 = 0;
    let mut total: u64 = 0;
    let mut i: usize = 0;
    assert(cpus@.take(0) =~= Seq::<u32>::empty());
    while i < cpus.len()
        invariant
            i <= cpus.len(),
            busy == busy_growth(cpus@.take(i as int), before@, current@),
            total == total_growth(cpus@.take(i as int), before@, current@),
        decreases cpus.len() - i,
    {
        let cpu: u32 = cpus[i];
        proof {
            assert(cpus@.take(i + 1).drop_last() =~= cpus@.take(i as int));
            assert(cpus@.take(i + 1).last() == cpu);
            lemma_growth_monotone(cpus@, i + 1, before@, current@);
        }
        if let Some(now) = current.get(&cpu) {
            let prev = match before.get(&cpu) {
                Some(p) => *p,
                None => CpuTimes { busy: 0, total: 0 },
            };
            let busy_delta: u64 = now.busy.saturating_sub(prev.busy);
            let total_delta: u64 = now.total.saturating_sub(prev.total);
            busy = match busy.checked_add(busy_delta) {
                Some(sum) => sum,
                None => {
                    return Err(CounterOverflow);
                },
            };
            total = match total.checked_add(total_delta) {
                Some(sum) => sum,
                None => {
                    return Err(CounterOverflow);
                },
            };
        }
        i = i + 1;
    }
    assert(cpus@.take(i as int) =~= cpus@);
    Ok(Util { busy, total })
}

impl Telemetry {
    /// Telemetry for a machine with `nr_cpus` CPUs, without samples.
    pub fn new(nr_cpus: u64, now: u64) -> (telemetry: Telemetry)
        ensures
            telemetry@ == (TelemetryState {
                shadow_cpus: shadow_set(nr_cpus),
                market_cpus: market_set(nr_cpus),
                history: Seq::empty(),
                last_sample: now as int,
                prev_times: Map::empty(),
            }),
            telemetry@.wf(),
    {
        let count: u32 = nr_cpus as u32;
        let mut shadow_cpus: Vec<u32> = Vec::new();
        if nr_cpus > 1 {
            let last: u32 = (nr_cpus - 1) as u32;
            shadow_cpus.push(last);
            proof {
                assert(nr_cpus > 1 && nr_cpus as u32 > 0 ==> ((nr_cpus - 1) as u64) as u32
                    == nr_cpus as u32 - 1) by (bit_vector);
            }
        }
        assert(shadow_cpus@ =~= shadow_set(nr_cpus));
        let mut market_cpus: Vec<u32> = Vec::new();
        let mut cpu: u32 = 0;
        while cpu < count
            invariant
                cpu <= count,
                count == nr_cpus as u32,
                shadow_cpus@ == shadow_set(nr_cpus),
                nr_cpus > 1 && count > 0 ==> shadow_cpus@[0] == count - 1,
                cpu <= market_size(nr_cpus) ==> market_cpus@ == Seq::new(
                    cpu as nat,
                    |i: int| i as u32,
                ),
                cpu > market_size(nr_cpus) ==> market_cpus@ == market_set(nr_cpus),
            decreases count - cpu,
        {
            if shadow_cpus.len() == 0 || shadow_cpus[0] != cpu {
                market_cpus.push(cpu);
                assert(market_cpus@ =~= Seq::new((cpu + 1) as nat, |i: int| i as u32));
            }
            cpu = cpu + 1;
        }
        assert(market_cpus@ =~= market_set(nr_cpus));
        Telemetry {
            shadow_cpus,
            market_cpus,
            ipc_history: VecDeque::with_capacity(IPC_HISTORY_SIZE),
            last_ipc_sample: now,
            prev_cpu_times: BTreeMap::new(),
        }
    }

    /// The control group.
    pub fn shadow_cpus(&self) -> (cpus: &Vec<u32>)
        ensures
            cpus@ == self@.shadow_cpus,
    {
        &self.shadow_cpus
    }

    /// All CPUs outside the control group.
    pub fn market_cpus(&self) -> (cpus: &Vec<u32>)
        ensures
            cpus@ == self@.market_cpus,
    {
        &self.market_cpus
    }

    /// Whether `cpu` belongs to the control group.
    pub fn is_shadow(&self, cpu: u32) -> (shadow: bool)
        ensures
            shadow == self@.shadow_cpus.contains(cpu),
    {
        let mut i: usize = 0;
        while i < self.shadow_cpus.len()
            invariant
                i <= self.shadow_cpus.len(),
                forall|j: int| 0 <= j < i ==> self@.shadow_cpus[j] != cpu,
            decreases self.shadow_cpus.len() - i,
        {
            if self.shadow_cpus[i] == cpu {
                assert(self@.shadow_cpus[i as int] == cpu);
                return true;
            }
            i = i + 1;
        }
        false
    }

    /// The samples, oldest first.
    pub fn history(&self) -> (samples: Vec<IpcSample>)
        ensures
            samples@ == self@.history,
    {
        let mut samples: Vec<IpcSample> = Vec::new();
        let mut i: usize = 0;
        while i < self.ipc_history.len()
            invariant
                i <= self.ipc_history.len(),
                samples@ == self@.history.take(i as int),
            decreases self.ipc_history.len() - i,
        {
            samples.push(self.ipc_history[i]);
            assert(samples@ =~= self@.history.take(i + 1));
            i = i + 1;
        }
        assert(self@.history.take(i as int) =~= self@.history);
        samples
    }

    /// Whether it is time to read CPU times again.
    pub fn sample_due(&self, now: u64) -> (due: bool)
        ensures
            due == self@.sample_due(now),
    {
        elapsed_ms(self.last_ipc_sample, now) >= IPC_SAMPLE_INTERVAL_MS
    }

    /// Takes in the CPU times that were read at `now`: an error, and nothing taken
    /// in, where the ticks do not fit in `u64`.
    pub fn record(&mut self, now: u64, current: BTreeMap<u32, CpuTimes>) -> (outcome: Result<
        (),
        CounterOverflow,
    >)
        requires
            old(self)@.wf(),
        ensures
            final(self)@.wf(),
            match outcome {
                Ok(_) => old(self)@.sample_fits(current@) && final(self)@ == old(self)@.sampled(
                    now,
                    current@,
                ),
                Err(_) => !old(self)@.sample_fits(current@) && final(self)@ == old(self)@,
            },
    {
        if !self.prev_cpu_times.is_empty() {
            proof {
                assert(self@.prev_times.dom().len() > 0) by {
                    if self@.prev_times.dom().len() == 0 {
                        assert(self@.prev_times.dom() =~= Set::<u32>::empty());
                        assert(self@.prev_times =~= Map::<u32, CpuTimes>::empty());
                    }
                }
            }
            let market_util = match compute_util(
                &self.market_cpus,
                &self.prev_cpu_times,
                &current,
            ) {
                Ok(util) => util,
                Err(e) => {
                    return Err(e);
                },
            };
            let shadow_util = match compute_util(
                &self.shadow_cpus,
                &self.prev_cpu_times,
                &current,
            ) {
                Ok(util) => util,
                Err(e) => {
                    return Err(e);
                },
            };
            if self.ipc_history.len() >= IPC_HISTORY_SIZE {
                let _ = self.ipc_history.pop_front();
                assert(self.ipc_history@ =~= old(self)@.history.skip(1));
            }
            self.ipc_history.push_back(IpcSample { market_util, shadow_util, timestamp: now });
        }
        self.prev_cpu_times = current;
        self.last_ipc_sample = now;
        Ok(())
    }

    /// Whether market and shadow utilization both fell sharply at the last sample.
    pub fn is_exogenous_event(&self) -> (exogenous: bool)
        ensures
            exogenous == self@.exogenous(),
    {
        let n: usize = self.ipc_history.len();
        if n < 2 {
            return false;
        }
        let prev = self.ipc_history[n - 2];
        let curr = self.ipc_history[n - 1];
        is_sharp_drop(prev.market_util, curr.market_util) && is_sharp_drop(
            prev.shadow_util,
            curr.shadow_util,
        )
    }
}

/// Every CPU is a market core or a shadow core, and none is both. The last CPU is the
/// shadow core, unless it is the only one; the market cores are listed in order.
pub proof fn law_cpus_are_partitioned(nr_cpus: u64, cpu: u32)
    requires
        nr_cpus <= u32::MAX,
    ensures
        cpu < nr_cpus <==> market_set(nr_cpus).contains(cpu) || shadow_set(nr_cpus).contains(cpu),
        !(market_set(nr_cpus).contains(cpu) && shadow_set(nr_cpus).contains(cpu)),
        nr_cpus > 1 ==> shadow_set(nr_cpus).len() == 1,
        nr_cpus > 1 ==> shadow_set(nr_cpus)[0] == nr_cpus - 1,
        nr_cpus <= 1 ==> shadow_set(nr_cpus).len() == 0,
        market_set(nr_cpus).len() + shadow_set(nr_cpus).len() == nr_cpus,
        cpu < market_set(nr_cpus).len() ==> market_set(nr_cpus)[cpu as int] == cpu,
{
    assert(nr_cpus as u32 == nr_cpus);
    if nr_cpus > 1 {
        assert(shadow_set(nr_cpus)[0] == nr_cpus - 1);
    }
    if cpu < market_size(nr_cpus) {
        assert(market_set(nr_cpus)[cpu as int] == cpu);
    }
}

/// Taking in a sample keeps the history bounded and ends it with that sample; the
/// samples before it keep their order.
pub proof fn law_history_is_bounded(s: TelemetryState, now: u64, current: Map<u32, CpuTimes>)
    requires
        s.wf(),
        s.prev_times.dom().len() > 0,
    ensures
        s.sampled(now, current).wf(),
        s.sampled(now, current).history.last() == s.sample(now, current),
        s.sampled(now, current).history.drop_last() == s.history.skip(
            if s.history.len() >= 60 {
                1
            } else {
                0
            },
        ),
        s.sampled(now, current).history.len() <= 60,
{
    if s.history.len() >= IPC_HISTORY_SIZE {
        assert(s.sampled(now, current).history.drop_last() =~= s.history.skip(1));
    } else {
        assert(s.sampled(now, current).history.drop_last() =~= s.history.skip(0));
    }
}

/// A sample is due if and only if 100 milliseconds have passed since the last reading.
pub proof fn law_samples_are_spaced(s: TelemetryState, now: u64)
    requires
        s.wf(),
    ensures
        s.sample_due(now) <==> now >= s.last_sample + 100_000_000,
{
}

/// Whole milliseconds are those that have passed to the end; no time has passed to a
/// moment that is not later.
pub proof fn law_whole_milliseconds(since: u64, now: u64)
    ensures
        ({
            let millis = millis_between(since as int, now as int);
            &&& now >= since ==> millis * 1_000_000 <= now - since < (millis + 1) * 1_000_000
            &&& now < since ==> millis == 0
        }),
{
}

/// The ticks of a group of CPUs add up CPU by CPU. A CPU adds what its counter has grown
/// by since the reading before, or all of it where it was not read before. It adds nothing
/// where its counter fell, or where it is not read now.
pub proof fn law_ticks_add_up(
    cpus: Seq<u32>,
    cpu: u32,
    before: Map<u32, CpuTimes>,
    now: Map<u32, CpuTimes>,
)
    ensures
        busy_growth(Seq::empty(), before, now) == 0,
        total_growth(Seq::empty(), before, now) == 0,
        ({
            let busy = busy_growth(cpus.push(cpu), before, now) - busy_growth(cpus, before, now);
            let total = total_growth(cpus.push(cpu), before, now) - total_growth(
                cpus,
                before,
                now,
            );
            &&& !now.contains_key(cpu) ==> busy == 0 && total == 0
            &&& now.contains_key(cpu) && !before.contains_key(cpu) ==> busy == now[cpu].busy
                && total == now[cpu].total
            &&& now.contains_key(cpu) && before.contains_key(cpu) ==> {
                &&& now[cpu].busy >= before[cpu].busy ==> busy + before[cpu].busy == now[cpu].busy
                &&& now[cpu].busy < before[cpu].busy ==> busy == 0
                &&& now[cpu].total >= before[cpu].total ==> total + before[cpu].total
                    == now[cpu].total
                &&& now[cpu].total < before[cpu].total ==> total == 0
            }
        }),
{
    assert(cpus.push(cpu).drop_last() =~= cpus);
}

/// A sample can be made of the first reading whatever it holds, and of a later one if and
/// only if the busy ticks and all ticks of either group stay within 64 bits.
pub proof fn law_when_a_sample_fits(s: TelemetryState, current: Map<u32, CpuTimes>)
    ensures
        s.prev_times.dom().len() == 0 ==> s.sample_fits(current),
        s.prev_times.dom().len() > 0 ==> (s.sample_fits(current) <==> {
            &&& busy_growth(s.market_cpus, s.prev_times, current) <= u64::MAX
            &&& total_growth(s.market_cpus, s.prev_times, current) <= u64::MAX
            &&& busy_growth(s.shadow_cpus, s.prev_times, current) <= u64::MAX
            &&& total_growth(s.shadow_cpus, s.prev_times, current) <= u64::MAX
        }),
{
}

/// A reading is kept for the next one, with its time. The first makes no sample; each later
/// one adds the ticks of market and shadow cores since the reading before it.
pub proof fn law_readings_make_samples(s: TelemetryState, now: u64, current: Map<u32, CpuTimes>)
    requires
        s.wf(),
        s.sample_fits(current),
    ensures
        ({
            let after = s.sampled(now, current);
            let last = after.history.last();
            &&& after.prev_times == current
            &&& after.last_sample == now
            &&& after.market_cpus == s.market_cpus
            &&& after.shadow_cpus == s.shadow_cpus
            &&& s.prev_times.dom().len() == 0 ==> after.history == s.history
            &&& s.prev_times.dom().len() > 0 ==> {
                &&& last.timestamp == now
                &&& last.market_util.busy == busy_growth(s.market_cpus, s.prev_times, current)
                &&& last.market_util.total == total_growth(s.market_cpus, s.prev_times, current)
                &&& last.shadow_util.busy == busy_growth(s.shadow_cpus, s.prev_times, current)
                &&& last.shadow_util.total == total_growth(s.shadow_cpus, s.prev_times, current)
            }
        }),
{
    lemma_growth_monotone(s.market_cpus, 0, s.prev_times, current);
    lemma_growth_monotone(s.shadow_cpus, 0, s.prev_times, current);
}

/// A sharp drop is one to below four fifths: with ticks on both sides, five times the new
/// share is below four times the old one. Out of the same number of ticks, five times the
/// new busy ticks are below four times the old ones. An idle group cannot drop, a busy one
/// drops sharply where it counts no ticks any more, and one that stays as it is does not.
pub proof fn law_sharp_drop_is_over_a_fifth(before: Util, after: Util)
    ensures
        before.total > 0 && after.total > 0 ==> (drops_sharply(before, after) <==> (after.busy
            * before.total) * 5 < (before.busy * after.total) * 4),
        before.total > 0 && after.total == before.total ==> (drops_sharply(before, after)
            <==> after.busy * 5 < before.busy * 4),
        before.total == 0 || before.busy == 0 ==> !drops_sharply(before, after),
        before.total > 0 && before.busy > 0 && after.total == 0 ==> drops_sharply(before, after),
        !drops_sharply(before, before),
{
    let low = after.busy * before.total;
    let high = before.busy * after.total;
    assert(low >= 0) by (nonlinear_arith)
        requires
            low == after.busy * before.total,
            after.busy >= 0,
            before.total >= 0,
    ;
    assert(before.busy == 0 ==> high == 0) by (nonlinear_arith)
        requires
            high == before.busy * after.total,
    ;
    assert(before.busy * before.total >= 0) by (nonlinear_arith)
        requires
            before.busy >= 0,
            before.total >= 0,
    ;
    if before.total > 0 && after.total == before.total {
        let t = before.total;
        assert(5 * (after.busy * t) < 4 * (before.busy * t) <==> after.busy * 5 < before.busy * 4)
            by (nonlinear_arith)
            requires
                t > 0,
        ;
    }
}

/// An exogenous event is one that hits both groups at the last sample: each of the two has
/// lost more than a fifth of its utilization. Where either group stays as it was, or where
/// there are fewer than two samples, there is none.
pub proof fn law_exogenous_event_hits_both_groups(s: TelemetryState)
    ensures
        s.history.len() < 2 ==> !s.exogenous(),
        s.history.len() >= 2 ==> {
            let a = s.history[s.history.len() - 2];
            let b = s.history[s.history.len() - 1];
            &&& a.market_util == b.market_util ==> !s.exogenous()
            &&& a.shadow_util == b.shadow_util ==> !s.exogenous()
            &&& a.market_util.total > 0 && b.market_util.total > 0 && a.shadow_util.total > 0
                && b.shadow_util.total > 0 ==> (s.exogenous() <==> {
                &&& (b.market_util.busy * a.market_util.total) * 5 < (a.market_util.busy
                    * b.market_util.total) * 4
                &&& (b.shadow_util.busy * a.shadow_util.total) * 5 < (a.shadow_util.busy
                    * b.shadow_util.total) * 4
            })
            &&& s.exogenous() ==> {
                &&& a.market_util.busy > 0 && a.market_util.total > 0
                &&& a.shadow_util.busy > 0 && a.shadow_util.total > 0
                &&& b.market_util.total > 0 ==> (b.market_util.busy * a.market_util.total) * 5 < (
                a.market_util.busy * b.market_util.total) * 4
                &&& b.shadow_util.total > 0 ==> (b.shadow_util.busy * a.shadow_util.total) * 5 < (
                a.shadow_util.busy * b.shadow_util.total) * 4
            }
        },
{
    if s.history.len() >= 2 {
        let a = s.history[s.history.len() - 2];
        let b = s.history[s.history.len() - 1];
        law_sharp_drop_is_over_a_fifth(a.market_util, b.market_util);
        law_sharp_drop_is_over_a_fifth(a.shadow_util, b.shadow_util);
        law_sharp_drop_is_over_a_fifth(a.market_util, a.market_util);
        law_sharp_drop_is_over_a_fifth(a.shadow_util, a.shadow_util);
    }
}

/// Whether the last sample shows an exogenous event depends on the last two samples alone,
/// and a sharp drop of both groups, to no ticks at all included, always shows one.
pub proof fn law_exogenous_event_is_seen(s: TelemetryState)
    requires
        s.history.len() >= 2,
        drops_sharply(
            s.history[s.history.len() - 2].market_util,
            s.history[s.history.len() - 1].market_util,
        ),
        drops_sharply(
            s.history[s.history.len() - 2].shadow_util,
            s.history[s.history.len() - 1].shadow_util,
        ),
    ensures
        s.exogenous(),
{
}

/// CPU numbers have 32 bits, and what a larger count has beyond them is cut off: the shadow
/// core is the last CPU, and the market cores are counted up from 0, without the last one
/// where that is the shadow core.
pub proof fn law_cpu_numbers_have_32_bits(nr_cpus: u64, i: int)
    ensures
        ({
            let low = nr_cpus % 0x1_0000_0000;
            &&& nr_cpus > 1 ==> shadow_set(nr_cpus).len() == 1 && shadow_set(nr_cpus)[0] as int == (
            nr_cpus - 1) % 0x1_0000_0000
            &&& nr_cpus <= 1 ==> shadow_set(nr_cpus).len() == 0
            &&& nr_cpus <= 1 || low == 0 ==> market_set(nr_cpus).len() == low
            &&& nr_cpus > 1 && low > 0 ==> market_set(nr_cpus).len() == low - 1
            &&& 0 <= i < market_set(nr_cpus).len() ==> market_set(nr_cpus)[i] == i
        }),
{
    assert(nr_cpus as u32 == nr_cpus % 0x1_0000_0000) by (bit_vector);
    if nr_cpus > 1 {
        let last = (nr_cpus - 1) as u64;
        assert(last as u32 == last % 0x1_0000_0000) by (bit_vector);
    }
}

} // verus!
