//! The limit on transfers: how many a parent may make within one second.
use std::collections::BTreeMap;
use vstd::prelude::*;

use crate::window::{
    count_recent, keep_recent, law_forgetting_is_harmless, law_recent_is_within_span,
    lemma_recent_fades, lemma_recent_len, lemma_recent_push, recent_count, recent_only,
};

verus! {

broadcast use vstd::laws_cmp::group_laws_cmp;

/// Transfers that a parent may make within one second.
pub const MAX_TRANSFERS_PER_SECOND: usize = 10;

/// The longest time between two transfers of one second, in nanoseconds.
pub const TRANSFER_WINDOW_NS: u64 = 999_999_999;

/// When `parent` made its transfers, as far as they are remembered.
pub open spec fn sent_by(log: Map<i32, Seq<u64>>, parent: i32) -> Seq<u64> {
    if log.contains_key(parent) {
        log[parent]
    } else {
        Seq::empty()
    }
}

/// Whether `parent` may make one more transfer at `now`.
pub open spec fn below_limit(log: Map<i32, Seq<u64>>, parent: i32, now: u64) -> bool {
    recent_count(sent_by(log, parent), now, TRANSFER_WINDOW_NS) < MAX_TRANSFERS_PER_SECOND
}

/// After `parent` made a transfer at `now`. What is more than a second old is forgotten.
pub open spec fn noted(log: Map<i32, Seq<u64>>, parent: i32, now: u64) -> Map<i32, Seq<u64>> {
    log.insert(
        parent,
        recent_only(sent_by(log, parent), now, TRANSFER_WINDOW_NS).push(now),
    )
}

/// When each parent made its latest transfers.
pub struct TransferLog {
    sent: BTreeMap<i32, Vec<u64>>,
}

impl View for TransferLog {
    type V = Map<i32, Seq<u64>>;

    closed spec fn view(&self) -> Map<i32, Seq<u64>> {
        self.sent@.map_values(|times: Vec<u64>| times@)
    }
}

impl TransferLog {
    /// A log without transfers.
    pub fn new() -> (log: TransferLog)
        ensures
            log@ == Map::<i32, Seq<u64>>::empty(),
    {
        let log = TransferLog { sent: BTreeMap::new() };
        assert(log@ =~= Map::<i32, Seq<u64>>::empty());
        log
    }

    /// Whether `parent` may make one more transfer at `now`.
    pub fn may_send(&self, parent: i32, now: u64) -> (may: bool)
        ensures
            may == below_limit(self@, parent, now),
    {
        match self.sent.get(&parent) {
            Some(times) => count_recent(times, now, TRANSFER_WINDOW_NS) < MAX_TRANSFERS_PER_SECOND,
            None => true,
        }
    }

    /// Notes that `parent` made a transfer at `now`.
    pub fn note(&mut self, parent: i32, now: u64)
        ensures
            final(self)@ == noted(old(self)@, parent, now),
    {
        let mut times: Vec<u64> = match self.sent.get(&parent) {
            Some(times) => keep_recent(times, now, TRANSFER_WINDOW_NS),
            None => Vec::new(),
        };
        times.push(now);
        self.sent.insert(parent, times);
        assert(self@ =~= noted(old(self)@, parent, now));
    }

    /// Forgets the transfers of `pid`.
    pub fn forget(&mut self, pid: i32)
        ensures
            final(self)@ == old(self)@.remove(pid),
    {
        let _ = self.sent.remove(&pid);
        assert(self@ =~= old(self)@.remove(pid));
    }
}

/// After `parent` made transfers at all of `times`, in order.
pub open spec fn noted_all(log: Map<i32, Seq<u64>>, parent: i32, times: Seq<u64>) -> Map<
    i32,
    Seq<u64>,
>
    decreases times.len(),
{
    if times.len() == 0 {
        log
    } else {
        noted(noted_all(log, parent, times.drop_last()), parent, times.last())
    }
}

/// Whether each of `times` was below the limit when its turn came.
pub open spec fn all_below_limit(log: Map<i32, Seq<u64>>, parent: i32, times: Seq<u64>) -> bool
    decreases times.len(),
{
    times.len() > 0 ==> all_below_limit(log, parent, times.drop_last()) && below_limit(
        noted_all(log, parent, times.drop_last()),
        parent,
        times.last(),
    )
}

/// The log counts every transfer of the last second, whatever it has forgotten.
proof fn lemma_log_counts_all(parent: i32, times: Seq<u64>, now: u64)
    requires
        forall|i: int| 0 <= i < times.len() ==> #[trigger] times[i] <= now,
    ensures
        recent_count(
            sent_by(noted_all(Map::empty(), parent, times), parent),
            now,
            TRANSFER_WINDOW_NS,
        ) == recent_count(times, now, TRANSFER_WINDOW_NS),
    decreases times.len(),
{
    if times.len() > 0 {
        let rest = times.drop_last();
        let t = times.last();
        assert forall|i: int| 0 <= i < rest.len() implies #[trigger] rest[i] <= now by {
            assert(rest[i] == times[i]);
        }
        lemma_log_counts_all(parent, rest, now);
        let sent = sent_by(noted_all(Map::empty(), parent, rest), parent);
        assert(times[times.len() - 1] <= now);
        law_forgetting_is_harmless(sent, t, now, TRANSFER_WINDOW_NS);
        lemma_recent_push(recent_only(sent, t, TRANSFER_WINDOW_NS), t, now, TRANSFER_WINDOW_NS);
    }
}

/// A parent makes at most ten transfers within any one second: of all its transfers,
/// each made below the limit, no more than ten lie less than a second before any time
/// from the last of them on.
pub proof fn law_at_most_ten_per_second(parent: i32, times: Seq<u64>, now: u64)
    requires
        forall|i: int, j: int| 0 <= i <= j < times.len() ==> times[i] <= times[j],
        times.len() > 0 ==> times.last() <= now,
        all_below_limit(Map::empty(), parent, times),
    ensures
        recent_count(times, now, TRANSFER_WINDOW_NS) <= MAX_TRANSFERS_PER_SECOND,
{
    if times.len() > 0 {
        let rest = times.drop_last();
        let t = times.last();
        assert forall|i: int| 0 <= i < rest.len() implies #[trigger] rest[i] <= t by {
            assert(rest[i] == times[i]);
        }
        lemma_log_counts_all(parent, rest, t);
        lemma_recent_push(rest, t, t, TRANSFER_WINDOW_NS);
        assert(rest.push(t) =~= times);
        lemma_recent_fades(times, t, now, TRANSFER_WINDOW_NS);
    }
}

/// What is remembered of a parent is bounded by the limit.
pub proof fn law_memory_is_bounded(log: Map<i32, Seq<u64>>, parent: i32, now: u64)
    requires
        below_limit(log, parent, now),
    ensures
        noted(log, parent, now)[parent].len() <= MAX_TRANSFERS_PER_SECOND,
{
    lemma_recent_len(sent_by(log, parent), now, TRANSFER_WINDOW_NS);
}

/// A parent may transfer at `now` if and only if fewer than ten of its transfers lie less
/// than a second back.
pub proof fn law_ten_transfers_a_second(log: Map<i32, Seq<u64>>, parent: i32, now: u64)
    ensures
        log.contains_key(parent) ==> (below_limit(log, parent, now) <==> log[parent].filter(
            |t: u64| now < t + 1_000_000_000,
        ).len() < 10),
        !log.contains_key(parent) ==> below_limit(log, parent, now),
{
    if log.contains_key(parent) {
        law_recent_is_within_span(log[parent], now, TRANSFER_WINDOW_NS);
        let within = |t: u64| now <= t + TRANSFER_WINDOW_NS;
        let under = |t: u64| now < t + 1_000_000_000;
        assert(within =~= under);
    }
}

/// Noting a transfer adds its time to what is known of that parent, drops only what lies a
/// second or more back, and leaves all other parents alone.
pub proof fn law_noting_a_transfer(log: Map<i32, Seq<u64>>, parent: i32, other: i32, now: u64)
    ensures
        ({
            let known = if log.contains_key(parent) {
                log[parent]
            } else {
                Seq::empty()
            };
            let after = noted(log, parent, now);
            &&& after.contains_key(parent)
            &&& after[parent] == known.filter(|t: u64| now < t + 1_000_000_000).push(now)
            &&& other != parent ==> (after.contains_key(other) <==> log.contains_key(other))
                && after[other] == log[other]
        }),
{
    let known = sent_by(log, parent);
    law_recent_is_within_span(known, now, TRANSFER_WINDOW_NS);
    let within = |t: u64| now <= t + TRANSFER_WINDOW_NS;
    let under = |t: u64| now < t + 1_000_000_000;
    assert(within =~= under);
}

} // verus!
