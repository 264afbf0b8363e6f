//! The circuit breaker: closes the market for a while when context switches spike.
use vstd::prelude::*;

use crate::telemetry::{elapsed_ms, millis_between, NSEC_PER_MSEC};
use crate::window::{
    count_recent, is_recent, keep_recent, law_forgetting_is_harmless, law_recent_is_within_span,
    lemma_recent_len, lemma_recent_push, recent_count, recent_only,
};

verus! {

/// Milliseconds for which a tripped breaker closes the market.
pub const CIRCUIT_BREAKER_DURATION_MS: u64 = 100;

/// Milliseconds between two measurements of the context-switch rate.
pub const CIRCUIT_BREAKER_CHECK_INTERVAL_MS: u64 = 10;

/// Nanoseconds for which trips are remembered: 60 seconds.
pub const TRIP_MEMORY_NS: u64 = 60_000_000_000;

/// What is to be done about the breaker now.
#[derive(Clone, Copy, Debug, PartialEq, Eq, Structural)]
pub enum BreakerCheck {
    /// The market was closed and has just been opened again.
    Released,
    /// The market stays closed.
    Holding,
    /// It is too early to measure.
    Idle,
    /// The context-switch rate is to be measured over this many milliseconds.
    Measure(u64),
}

/// State of the circuit breaker. Times are in nanoseconds.
#[verifier::ext_equal]
pub struct BreakerState {
    /// Whether the market is closed.
    pub active: bool,
    /// When a closed market is to be opened again.
    pub until: Option<u64>,
    /// When context switches were last counted.
    pub last_check: u64,
    /// Context switches at that time.
    pub last_total: u64,
    /// How often the breaker has tripped.
    pub trips: u32,
    /// When it tripped, oldest first. Trips that lay more than 60 seconds back when it
    /// tripped again are left out.
    pub trip_times: Seq<u64>,
}

impl BreakerState {
    /// The market is closed exactly while a time to open it is set, and no more trips
    /// are remembered than there were.
    pub open spec fn wf(self) -> bool {
        &&& self.active <==> self.until is Some
        &&& self.trip_times.len() <= self.trips
    }

    /// An open market whose context switches were last counted at `now`.
    pub open spec fn idle(now: u64) -> BreakerState {
        BreakerState {
            active: false,
            until: None,
            last_check: now,
            last_total: 0,
            trips: 0,
            trip_times: Seq::empty(),
        }
    }

    /// What is to be done about the breaker at `now`.
    pub open spec fn verdict(self, now: u64) -> BreakerCheck {
        match self.until {
            Some(until) => if now >= until {
                BreakerCheck::Released
            } else {
                BreakerCheck::Holding
            },
            None => {
                let elapsed = millis_between(self.last_check as int, now as int);
                if elapsed < CIRCUIT_BREAKER_CHECK_INTERVAL_MS {
                    BreakerCheck::Idle
                } else {
                    BreakerCheck::Measure(elapsed as u64)
                }
            },
        }
    }

    /// After the breaker was looked at at `now`.
    pub open spec fn checked(self, now: u64) -> BreakerState {
        if self.verdict(now) == BreakerCheck::Released {
            BreakerState { active: false, until: None, ..self }
        } else {
            self
        }
    }

    /// After the breaker tripped at `now`.
    pub open spec fn tripped(self, now: u64) -> BreakerState {
        BreakerState {
            active: true,
            until: Some((now + 100_000_000) as u64),
            trips: (self.trips + 1) as u32,
            trip_times: recent_only(self.trip_times, now, TRIP_MEMORY_NS).push(now),
            ..self
        }
    }

    /// After `total` context switches were counted at `now`.
    pub open spec fn counted(self, now: u64, total: u64) -> BreakerState {
        BreakerState { last_check: now, last_total: total, ..self }
    }

    /// Whether the breaker can trip at `now` within the range of its counters.
    pub open spec fn can_trip(self, now: u64) -> bool {
        &&& now + 100_000_000 <= u64::MAX
        &&& self.trips < u32::MAX
    }

    /// The number of trips in the 60 seconds before `now`.
    pub open spec fn recent_trips(self, now: u64) -> nat {
        recent_count(self.trip_times, now, TRIP_MEMORY_NS)
    }
}

/// The circuit breaker.
pub struct Breaker {
    active: bool,
    until: Option<u64>,
    last_check: u64,
    last_total: u64,
    trips: u32,
    trip_times: Vec<u64>,
}

impl View for Breaker {
    type V = BreakerState;

    closed spec fn view(&self) -> BreakerState {
        BreakerState {
            active: self.active,
            until: self.until,
            last_check: self.last_check,
            last_total: self.last_total,
            trips: self.trips,
            trip_times: self.trip_times@,
        }
    }
}

impl Breaker {
    /// An open market whose context switches were last counted at `now`.
    pub fn new(now: u64) -> (breaker: Breaker)
        ensures
            breaker@ == BreakerState::idle(now),
            breaker@.wf(),
    {
        Breaker {
            active: false,
            until: None,
            last_check: now,
            last_total: 0,
            trips: 0,
            trip_times: Vec::new(),
        }
    }

    /// Whether the market is closed.
    pub fn is_active(&self) -> (active: bool)
        ensures
            active == self@.active,
    {
        self.active
    }

    /// Opens a market that was closed long enough, and says what is to be done.
    pub fn check(&mut self, now: u64) -> (verdict: BreakerCheck)
        requires
            old(self)@.wf(),
        ensures
            verdict == old(self)@.verdict(now),
            final(self)@ == old(self)@.checked(now),
            final(self)@.wf(),
    {
        match self.until {
            Some(until) => {
                if now >= until {
                    self.active = false;
                    self.until = None;
                    BreakerCheck::Released
                } else {
                    BreakerCheck::Holding
                }
            },
            None => {
                let elapsed: u64 = elapsed_ms(self.last_check, now);
                if elapsed < CIRCUIT_BREAKER_CHECK_INTERVAL_MS {
                    BreakerCheck::Idle
                } else {
                    BreakerCheck::Measure(elapsed)
                }
            },
        }
    }

    /// Context switches since they were last counted, where there are `total` now.
    pub fn switches_since(&self, total: u64) -> (switches: u64)
        ensures
            switches == if total > self@.last_total {
                total - self@.last_total
            } else {
                0
            },
    {
        total.saturating_sub(self.last_total)
    }

    /// Whether the breaker can trip at `now` within the range of its counters.
    pub fn trip_fits(&self, now: u64) -> (fits: bool)
        ensures
            fits == self@.can_trip(now),
    {
        now <= u64::MAX - CIRCUIT_BREAKER_DURATION_MS * NSEC_PER_MSEC && self.trips < u32::MAX
    }

    /// Closes the market from `now` on.
    pub fn trip(&mut self, now: u64)
        requires
            old(self)@.wf(),
            old(self)@.can_trip(now),
        ensures
            final(self)@ == old(self)@.tripped(now),
            final(self)@.wf(),
    {
        proof {
            lemma_recent_len(self.trip_times@, now, TRIP_MEMORY_NS);
        }
        self.active = true;
        self.until = Some(now + CIRCUIT_BREAKER_DURATION_MS * NSEC_PER_MSEC);
        self.trips = self.trips + 1;
        let mut kept: Vec<u64> = keep_recent(&self.trip_times, now, TRIP_MEMORY_NS);
        kept.push(now);
        self.trip_times = kept;
    }

    /// The number of trips in the 60 seconds before `now`.
    pub fn recent_trips(&self, now: u64) -> (count: u32)
        requires
            self@.wf(),
        ensures
            count == self@.recent_trips(now),
    {
        proof {
            lemma_recent_len(self.trip_times@, now, TRIP_MEMORY_NS);
        }
        count_recent(&self.trip_times, now, TRIP_MEMORY_NS) as u32
    }

    /// Notes that `total` context switches were counted at `now`.
    pub fn note_count(&mut self, now: u64, total: u64)
        ensures
            final(self)@ == old(self)@.counted(now, total),
            old(self)@.wf() ==> final(self)@.wf(),
    {
        self.last_check = now;
        self.last_total = total;
    }
}

/// A tripped breaker keeps the market closed for its whole duration and opens it at
/// the first look after that.
pub proof fn law_breaker_holds_then_releases(breaker: BreakerState, tripped_at: u64, now: u64)
    requires
        breaker.can_trip(tripped_at),
    ensures
        breaker.tripped(tripped_at).active,
        now < tripped_at + 100_000_000 ==> breaker.tripped(tripped_at).verdict(now)
            == BreakerCheck::Holding && breaker.tripped(tripped_at).checked(now)
            == breaker.tripped(tripped_at),
        now >= tripped_at + 100_000_000 ==> breaker.tripped(tripped_at).verdict(now)
            == BreakerCheck::Released && !breaker.tripped(tripped_at).checked(now).active,
{
}

/// A breaker is measured only while the market is open, and only after the interval.
pub proof fn law_measured_only_when_open(breaker: BreakerState, now: u64)
    requires
        breaker.wf(),
        breaker.verdict(now) is Measure,
    ensures
        !breaker.active,
        breaker.checked(now) == breaker,
        now >= breaker.last_check + 10_000_000,
        breaker.verdict(now)->0 >= CIRCUIT_BREAKER_CHECK_INTERVAL_MS,
{
}

/// Something that happens to the breaker.
pub enum BreakerEvent {
    /// It is looked at, at this time.
    Look(u64),
    /// It trips, at this time.
    Trip(u64),
    /// Context switches are counted, at this time and with this total.
    Count(u64, u64),
}

impl BreakerState {
    /// Whether `event` can happen now: only an open market is closed.
    pub open spec fn permits(self, event: BreakerEvent) -> bool {
        match event {
            BreakerEvent::Trip(now) => !self.active && self.can_trip(now),
            _ => true,
        }
    }

    /// After `event`.
    pub open spec fn after_event(self, event: BreakerEvent) -> BreakerState {
        match event {
            BreakerEvent::Look(now) => self.checked(now),
            BreakerEvent::Trip(now) => self.tripped(now),
            BreakerEvent::Count(now, total) => self.counted(now, total),
        }
    }

    /// After all of `events`, in order.
    pub open spec fn after_events(self, events: Seq<BreakerEvent>) -> BreakerState
        decreases events.len(),
    {
        if events.len() == 0 {
            self
        } else {
            self.after_events(events.drop_last()).after_event(events.last())
        }
    }

    /// Whether all of `events` can happen one after the other.
    pub open spec fn permits_all(self, events: Seq<BreakerEvent>) -> bool
        decreases events.len(),
    {
        events.len() > 0 ==> self.permits_all(events.drop_last()) && self.after_events(
            events.drop_last(),
        ).permits(events.last())
    }

    /// How often the market is opened again in the course of `events`.
    pub open spec fn releases(self, events: Seq<BreakerEvent>) -> nat
        decreases events.len(),
    {
        if events.len() == 0 {
            0
        } else {
            let before = self.after_events(events.drop_last());
            self.releases(events.drop_last()) + if events.last() matches BreakerEvent::Look(now)
                && before.verdict(now) == BreakerCheck::Released {
                1nat
            } else {
                0nat
            }
        }
    }
}

/// When the breaker trips in the course of `events`.
pub open spec fn trip_events(events: Seq<BreakerEvent>) -> Seq<u64>
    decreases events.len(),
{
    if events.len() == 0 {
        Seq::empty()
    } else {
        match events.last() {
            BreakerEvent::Trip(now) => trip_events(events.drop_last()).push(now),
            _ => trip_events(events.drop_last()),
        }
    }
}

/// Over any run, every trip is followed by a release before the next one: trips less
/// releases is 1 while the market is closed and 0 while it is open.
pub proof fn law_trips_and_releases_alternate(start: u64, events: Seq<BreakerEvent>)
    requires
        BreakerState::idle(start).permits_all(events),
    ensures
        ({
            let s = BreakerState::idle(start);
            &&& s.after_events(events).wf()
            &&& s.after_events(events).trips == trip_events(events).len()
            &&& trip_events(events).len() - s.releases(events) == if s.after_events(
                events,
            ).active {
                1int
            } else {
                0int
            }
        }),
    decreases events.len(),
{
    if events.len() > 0 {
        law_trips_and_releases_alternate(start, events.drop_last());
        let before = BreakerState::idle(start).after_events(events.drop_last());
        if let BreakerEvent::Trip(now) = events.last() {
            lemma_recent_len(before.trip_times, now, TRIP_MEMORY_NS);
        }
    }
}

/// A trip counts for 60 seconds, and forgetting older ones changes no count.
pub proof fn law_trip_counts_for_a_minute(breaker: BreakerState, tripped_at: u64, now: u64)
    requires
        tripped_at <= now,
    ensures
        breaker.tripped(tripped_at).recent_trips(now) == breaker.recent_trips(now)
            + if is_recent(tripped_at, now, TRIP_MEMORY_NS) {
            1nat
        } else {
            0nat
        },
{
    law_forgetting_is_harmless(breaker.trip_times, tripped_at, now, TRIP_MEMORY_NS);
    lemma_recent_push(
        recent_only(breaker.trip_times, tripped_at, TRIP_MEMORY_NS),
        tripped_at,
        now,
        TRIP_MEMORY_NS,
    );
}

/// Over any run that ends by `now`, the reported trips are those of all trips that lie
/// no more than 60 seconds before `now`.
pub proof fn law_recent_trips_over_any_run(start: u64, events: Seq<BreakerEvent>, now: u64)
    requires
        forall|i: int|
            0 <= i < trip_events(events).len() ==> #[trigger] trip_events(events)[i] <= now,
    ensures
        BreakerState::idle(start).after_events(events).recent_trips(now) == recent_count(
            trip_events(events),
            now,
            TRIP_MEMORY_NS,
        ),
    decreases events.len(),
{
    if events.len() > 0 {
        let rest = events.drop_last();
        let before = BreakerState::idle(start).after_events(rest);
        match events.last() {
            BreakerEvent::Trip(t) => {
                let all = trip_events(events);
                assert(all[all.len() - 1] == t);
                assert forall|i: int|
                    0 <= i < trip_events(rest).len() implies #[trigger] trip_events(rest)[i]
                    <= now by {
                    assert(all[i] == trip_events(rest)[i]);
                }
                law_recent_trips_over_any_run(start, rest, now);
                law_trip_counts_for_a_minute(before, t, now);
                lemma_recent_push(trip_events(rest), t, now, TRIP_MEMORY_NS);
            },
            _ => {
                assert(trip_events(events) == trip_events(rest));
                assert forall|i: int|
                    0 <= i < trip_events(rest).len() implies #[trigger] trip_events(rest)[i]
                    <= now by {
                    assert(trip_events(events)[i] <= now);
                }
                law_recent_trips_over_any_run(start, rest, now);
            },
        }
    }
}

/// A new breaker leaves the market open, has counted nothing and never tripped.
pub proof fn law_new_breaker_is_idle(start: u64, now: u64)
    ensures
        !BreakerState::idle(start).active,
        BreakerState::idle(start).until is None,
        BreakerState::idle(start).last_check == start,
        BreakerState::idle(start).last_total == 0,
        BreakerState::idle(start).trips == 0,
        BreakerState::idle(start).recent_trips(now) == 0,
{
}

/// While the market is open, the rate is measured if and only if ten milliseconds have
/// passed since context switches were last counted, and over the whole milliseconds that
/// have passed since then.
pub proof fn law_measured_every_ten_milliseconds(breaker: BreakerState, now: u64)
    requires
        breaker.until is None,
    ensures
        now < breaker.last_check + 10_000_000 <==> breaker.verdict(now) == BreakerCheck::Idle,
        now >= breaker.last_check + 10_000_000 <==> breaker.verdict(now) is Measure,
        breaker.verdict(now) matches BreakerCheck::Measure(elapsed) ==> elapsed * 1_000_000 <= now
            - breaker.last_check < (elapsed + 1) * 1_000_000,
        breaker.checked(now) == breaker,
{
}

/// While the market is closed, it opens if and only if its time has come, whatever was
/// counted before; opening it changes nothing else.
pub proof fn law_opened_at_its_time(breaker: BreakerState, now: u64, until: u64)
    requires
        breaker.until == Some(until),
    ensures
        now < until ==> breaker.verdict(now) == BreakerCheck::Holding && breaker.checked(now)
            == breaker,
        now >= until ==> {
            let after = breaker.checked(now);
            &&& breaker.verdict(now) == BreakerCheck::Released
            &&& !after.active
            &&& after.until is None
            &&& after.last_check == breaker.last_check
            &&& after.last_total == breaker.last_total
            &&& after.trips == breaker.trips
            &&& after.trip_times == breaker.trip_times
        },
{
}

/// A trip closes the market for 100 milliseconds, is counted, and is remembered together
/// with the trips that lie no more than 60 seconds back. It counts no context switches.
pub proof fn law_trip_closes_for_a_tenth_of_a_second(breaker: BreakerState, now: u64)
    requires
        breaker.can_trip(now),
    ensures
        ({
            let after = breaker.tripped(now);
            &&& after.active
            &&& after.until matches Some(until) && until == now + 100_000_000
            &&& after.trips == breaker.trips + 1
            &&& after.trip_times == breaker.trip_times.filter(
                |t: u64| now <= t + 60_000_000_000,
            ).push(now)
            &&& after.last_check == breaker.last_check
            &&& after.last_total == breaker.last_total
        }),
{
    law_recent_is_within_span(breaker.trip_times, now, TRIP_MEMORY_NS);
    let within = |t: u64| now <= t + TRIP_MEMORY_NS;
    let minute = |t: u64| now <= t + 60_000_000_000;
    assert(within =~= minute);
}

/// The breaker can trip unless the time to open the market again, or the number of trips,
/// would leave its range.
pub proof fn law_when_a_trip_fits(breaker: BreakerState, now: u64)
    ensures
        breaker.can_trip(now) <==> now + 100_000_000 <= u64::MAX && breaker.trips + 1 <= u32::MAX,
{
}

/// The trips that are reported are the remembered ones of the last 60 seconds.
pub proof fn law_reported_trips(breaker: BreakerState, now: u64)
    ensures
        breaker.recent_trips(now) == breaker.trip_times.filter(
            |t: u64| now <= t + 60_000_000_000,
        ).len(),
{
    law_recent_is_within_span(breaker.trip_times, now, TRIP_MEMORY_NS);
    let within = |t: u64| now <= t + TRIP_MEMORY_NS;
    let minute = |t: u64| now <= t + 60_000_000_000;
    assert(within =~= minute);
}

/// Counting context switches notes time and total and changes nothing else.
pub proof fn law_counting_notes_the_total(breaker: BreakerState, now: u64, total: u64)
    ensures
        ({
            let after = breaker.counted(now, total);
            &&& after.last_check == now
            &&& after.last_total == total
            &&& after.active == breaker.active
            &&& after.until == breaker.until
            &&& after.trips == breaker.trips
            &&& after.trip_times == breaker.trip_times
        }),
{
}

} // verus!
