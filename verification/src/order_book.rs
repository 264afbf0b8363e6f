//! The order book: pending bids, and the auction that picks the next task to run.
use core::cmp::Ordering;
use std::collections::BTreeMap;
use vstd::prelude::*;
use vstd::std_specs::cmp::OrdSpec;
use vstd::std_specs::iter::IteratorSpec;

use crate::task::QueuedTask;

verus! {

broadcast use vstd::laws_cmp::group_laws_cmp;

/// A task with its bid.
#[derive(Debug, PartialEq, Eq)]
pub struct Task {
    /// The waiting task.
    pub qtask: QueuedTask,
    /// Tokens that it offers.
    pub bid_amount: u64,
    /// When the bid was made.
    pub enqueue_time: u64,
}

/// Where a bid stands in the order book: a smaller rank goes first.
pub type Rank = (u64, u64, i32);

/// Whether rank `a` goes before rank `b`.
pub open spec fn rank_before(a: Rank, b: Rank) -> bool {
    ||| a.0 < b.0
    ||| a.0 == b.0 && a.1 < b.1
    ||| a.0 == b.0 && a.1 == b.1 && a.2 < b.2
}

impl Task {
    /// The rank of this bid: a higher bid goes first, then the older one, then the
    /// smaller process id.
    pub open spec fn rank(self) -> Rank {
        ((u64::MAX - self.bid_amount) as u64, self.enqueue_time, self.qtask.pid)
    }

    /// Whether this bid beats `other`.
    pub open spec fn beats(self, other: Task) -> bool {
        ||| self.bid_amount > other.bid_amount
        ||| self.bid_amount == other.bid_amount && self.enqueue_time < other.enqueue_time
        ||| self.bid_amount == other.bid_amount && self.enqueue_time == other.enqueue_time
            && self.qtask.pid < other.qtask.pid
    }

    /// How this bid compares with `other`: less where it goes first.
    pub open spec fn bid_order(self, other: Task) -> Ordering {
        if self.beats(other) {
            Ordering::Less
        } else if other.beats(self) {
            Ordering::Greater
        } else {
            Ordering::Equal
        }
    }

    /// Compares two bids: highest bid first, on a tie the oldest, then by process id.
    pub fn cmp(&self, other: &Task) -> (order: Ordering)
        ensures
            order == self.bid_order(*other),
    {
        if self.bid_amount > other.bid_amount {
            Ordering::Less
        } else if self.bid_amount < other.bid_amount {
            Ordering::Greater
        } else if self.enqueue_time < other.enqueue_time {
            Ordering::Less
        } else if self.enqueue_time > other.enqueue_time {
            Ordering::Greater
        } else if self.qtask.pid < other.qtask.pid {
            Ordering::Less
        } else if self.qtask.pid > other.qtask.pid {
            Ordering::Greater
        } else {
            Ordering::Equal
        }
    }

    /// The rank of this bid.
    fn key(&self) -> (key: Rank)
        ensures
            key == self.rank(),
    {
        (u64::MAX - self.bid_amount, self.enqueue_time, self.qtask.pid)
    }
}

impl PartialOrd for Task {
    fn partial_cmp(&self, other: &Task) -> (order: Option<Ordering>) {
        Some(Task::cmp(self, other))
    }
}

impl vstd::std_specs::cmp::PartialOrdSpecImpl for Task {
    open spec fn obeys_partial_cmp_spec() -> bool {
        true
    }

    open spec fn partial_cmp_spec(&self, other: &Task) -> Option<Ordering> {
        Some(self.bid_order(*other))
    }
}

/// What an order book holds.
#[verifier::ext_equal]
pub struct OrderBookState {
    /// The pending bids by rank.
    pub bids: Map<Rank, Task>,
    /// Number of auctions held so far.
    pub sequence: int,
}

impl OrderBookState {
    /// Every bid stands under its own rank.
    pub open spec fn ranked(self) -> bool {
        &&& self.bids.dom().finite()
        &&& forall|rank: Rank| #[trigger]
            self.bids.contains_key(rank) ==> self.bids[rank].rank() == rank
    }

    /// Every bid stands under its own rank, and auctions are counted within 64 bits.
    pub open spec fn wf(self) -> bool {
        &&& self.ranked()
        &&& 0 <= self.sequence <= u64::MAX
    }

    /// Whether the bid at `rank` wins the next auction.
    pub open spec fn wins(self, rank: Rank) -> bool {
        &&& self.bids.contains_key(rank)
        &&& forall|other: Rank| #[trigger]
            self.bids.contains_key(other) && other != rank ==> rank_before(rank, other)
    }

    /// After `task` was submitted: a bid of the same rank stays in its place.
    pub open spec fn submitted(self, task: Task) -> OrderBookState {
        if self.bids.contains_key(task.rank()) {
            self
        } else {
            OrderBookState { bids: self.bids.insert(task.rank(), task), sequence: self.sequence }
        }
    }

    /// After the bid at `rank` won an auction.
    pub open spec fn cleared(self, rank: Rank) -> OrderBookState {
        OrderBookState { bids: self.bids.remove(rank), sequence: self.sequence + 1 }
    }

    /// After all bids were dropped.
    pub open spec fn emptied(self) -> OrderBookState {
        OrderBookState { bids: Map::empty(), sequence: self.sequence }
    }
}

/// Pending bids, best first.
pub struct OrderBook {
    book: BTreeMap<Rank, Task>,
    sequence: u64,
}

impl View for OrderBook {
    type V = OrderBookState;

    closed spec fn view(&self) -> OrderBookState {
        OrderBookState { bids: self.book@, sequence: self.sequence as int }
    }
}

impl OrderBook {
    /// An order book without bids.
    pub fn new() -> (book: OrderBook)
        ensures
            book@ == (OrderBookState { bids: Map::empty(), sequence: 0 }),
            book@.wf(),
    {
        OrderBook { book: BTreeMap::new(), sequence: 0 }
    }

    /// Submits a bid. Where a bid of the same rank is pending, that one stays.
    pub fn submit_bid(&mut self, task: Task)
        requires
            old(self)@.wf(),
        ensures
            final(self)@ == old(self)@.submitted(task),
            final(self)@.wf(),
    {
        let key: Rank = task.key();
        if !self.book.contains_key(&key) {
            self.book.insert(key, task);
        }
    }

    /// Holds an auction: takes the best bid out, with the price that it clears at.
    pub fn clear_market(&mut self) -> (outcome: Option<(Task, u64)>)
        requires
            old(self)@.wf(),
            old(self)@.bids.len() > 0 ==> old(self)@.sequence < u64::MAX,
        ensures
            final(self)@.wf(),
            match outcome {
                Some((winner, price)) => {
                    &&& old(self)@.wins(winner.rank())
                    &&& old(self)@.bids[winner.rank()] == winner
                    &&& price == winner.bid_amount
                    &&& final(self)@ == old(self)@.cleared(winner.rank())
                },
                None => {
                    &&& old(self)@.bids == Map::<Rank, Task>::empty()
                    &&& final(self)@ == old(self)@
                },
            },
    {
        let key: Rank = match self.best() {
            Some(key) => key,
            None => {
                return None;
            },
        };
        match self.book.remove(&key) {
            Some(winner) => {
                self.sequence = self.sequence + 1;
                let price: u64 = winner.bid_amount;
                Some((winner, price))
            },
            None => None,
        }
    }

    /// The rank of the best bid.
    fn best(&self) -> (best: Option<Rank>)
        ensures
            match best {
                Some(rank) => self@.wins(rank) && self@.bids.len() > 0,
                None => self@.bids == Map::<Rank, Task>::empty(),
            },
    {
        let ghost all: Seq<&Rank> = self.book.keys().remaining();
        proof {
            assert(vstd::laws_cmp::obeys_cmp::<Rank>());
            assert(vstd::laws_cmp::obeys_cmp::<&Rank>());
            assert(vstd::std_specs::btree::increasing_seq(all));
            assert forall|rank: Rank| #[trigger] self@.bids.contains_key(rank) implies exists|
                i: int,
            | 0 <= i < all.len() && *all[i] == rank by {
                assert(all.unref().to_set().contains(rank));
                let i = choose|i: int| 0 <= i < all.unref().len() && all.unref()[i] == rank;
                assert(*all[i] == rank);
            }
        }
        for key in it: self.book.keys()
            invariant
                it.index() == 0,
                it.seq() == all,
                all == self.book.keys().remaining(),
                vstd::std_specs::btree::increasing_seq(all),
                forall|rank: Rank| #[trigger]
                    self@.bids.contains_key(rank) ==> exists|i: int|
                        0 <= i < all.len() && *all[i] == rank,
        {
            proof {
                assert(all[0] == key);
                assert(all.unref()[0] == *key);
                assert(all.unref().to_set().contains(*key));
                assert forall|other: Rank| #[trigger]
                    self@.bids.contains_key(other) && other != *key implies rank_before(
                    *key,
                    other,
                ) by {
                    let i = choose|i: int| 0 <= i < all.len() && *all[i] == other;
                    assert(OrdSpec::cmp_spec(&all[0], &all[i]) is Less);
                }
            }
            return Some(*key);
        }
        assert(self@.bids =~= Map::<Rank, Task>::empty());
        None
    }

    /// Number of auctions held so far.
    pub fn sequence(&self) -> (sequence: u64)
        ensures
            sequence == self@.sequence,
    {
        self.sequence
    }

    /// Number of pending bids.
    pub fn len(&self) -> (len: usize)
        ensures
            len == self@.bids.len(),
    {
        self.book.len()
    }

    /// Drops all bids.
    pub fn clear(&mut self)
        ensures
            final(self)@ == old(self)@.emptied(),
            old(self)@.wf() ==> final(self)@.wf(),
    {
        self.book.clear();
    }
}

/// Bids are ranked in the order in which they beat each other.
pub proof fn law_rank_follows_bids(a: Task, b: Task)
    ensures
        a.beats(b) <==> rank_before(a.rank(), b.rank()),
        a.rank() == b.rank() <==> a.bid_order(b) == Ordering::Equal,
{
}

/// Bids are totally ordered: of two bids of different rank exactly one beats the
/// other, and beating is transitive.
pub proof fn law_bids_totally_ordered(a: Task, b: Task, c: Task)
    ensures
        !a.beats(a),
        !(a.beats(b) && b.beats(a)),
        a.rank() != b.rank() ==> a.beats(b) || b.beats(a),
        a.beats(b) && b.beats(c) ==> a.beats(c),
{
}

/// The highest bidder wins; among equal bids the oldest, then the smallest process id.
pub proof fn law_best_bid_wins(s: OrderBookState, winner: Rank, other: Rank)
    requires
        s.wf(),
        s.wins(winner),
        s.bids.contains_key(other),
        other != winner,
    ensures
        s.bids[winner].beats(s.bids[other]),
        s.bids[winner].bid_amount >= s.bids[other].bid_amount,
        s.bids[winner].bid_amount == s.bids[other].bid_amount ==> s.bids[winner].enqueue_time
            <= s.bids[other].enqueue_time,
        s.bids[winner].bid_amount == s.bids[other].bid_amount && s.bids[winner].enqueue_time
            == s.bids[other].enqueue_time ==> s.bids[winner].qtask.pid
            < s.bids[other].qtask.pid,
{
}

/// The bid that is as high as any, and the oldest of those, and of the smallest process id
/// among the oldest, wins.
pub proof fn law_winner_is_found(s: OrderBookState, best: Rank)
    requires
        s.wf(),
        s.bids.contains_key(best),
        forall|other: Rank| #[trigger]
            s.bids.contains_key(other) && other != best ==> {
                let a = s.bids[best];
                let b = s.bids[other];
                ||| a.bid_amount > b.bid_amount
                ||| a.bid_amount == b.bid_amount && a.enqueue_time < b.enqueue_time
                ||| a.bid_amount == b.bid_amount && a.enqueue_time == b.enqueue_time && a.qtask.pid
                    < b.qtask.pid
            },
    ensures
        s.wins(best),
{
    assert(s.bids[best].rank() == best);
    assert forall|other: Rank| #[trigger]
        s.bids.contains_key(other) && other != best implies rank_before(best, other) by {
        assert(s.bids[other].rank() == other);
    }
}

/// How two bids compare: by amount, the higher first; then by time, the older first; then
/// by process id, the smaller first. They compare as equal, and have the same place in the
/// book, only where all three agree.
pub proof fn law_bids_compare(a: Task, b: Task)
    ensures
        a.bid_amount > b.bid_amount ==> a.bid_order(b) == Ordering::Less,
        a.bid_amount < b.bid_amount ==> a.bid_order(b) == Ordering::Greater,
        a.bid_amount == b.bid_amount && a.enqueue_time < b.enqueue_time ==> a.bid_order(b)
            == Ordering::Less,
        a.bid_amount == b.bid_amount && a.enqueue_time > b.enqueue_time ==> a.bid_order(b)
            == Ordering::Greater,
        a.bid_amount == b.bid_amount && a.enqueue_time == b.enqueue_time && a.qtask.pid
            < b.qtask.pid ==> a.bid_order(b) == Ordering::Less,
        a.bid_amount == b.bid_amount && a.enqueue_time == b.enqueue_time && a.qtask.pid
            > b.qtask.pid ==> a.bid_order(b) == Ordering::Greater,
        a.bid_order(b) == Ordering::Equal <==> a.bid_amount == b.bid_amount && a.enqueue_time
            == b.enqueue_time && a.qtask.pid == b.qtask.pid,
        a.rank() == b.rank() <==> a.bid_amount == b.bid_amount && a.enqueue_time == b.enqueue_time
            && a.qtask.pid == b.qtask.pid,
{
}

/// A submitted bid is pending from then on, under its own place, and all other bids stay as
/// they are. Only a bid that agrees with it in amount, time and process id keeps its place.
pub proof fn law_submission_adds_one_bid(s: OrderBookState, task: Task, rank: Rank)
    ensures
        ({
            let after = s.submitted(task);
            &&& after.bids.contains_key(task.rank())
            &&& !s.bids.contains_key(task.rank()) ==> after.bids[task.rank()] == task
            &&& s.bids.contains_key(rank) ==> after.bids.contains_key(rank) && after.bids[rank]
                == s.bids[rank]
            &&& after.bids.contains_key(rank) ==> s.bids.contains_key(rank) || rank == task.rank()
            &&& after.sequence == s.sequence
        }),
{
}

/// An auction takes out the bid that won it and no other, and counts one more.
pub proof fn law_auction_takes_one_bid(s: OrderBookState, winner: Rank, other: Rank)
    ensures
        !s.cleared(winner).bids.contains_key(winner),
        other != winner ==> (s.cleared(winner).bids.contains_key(other) <==> s.bids.contains_key(
            other,
        )) && s.cleared(winner).bids[other] == s.bids[other],
        s.cleared(winner).sequence == s.sequence + 1,
{
}

/// Dropping all bids leaves none pending and does not count as an auction.
pub proof fn law_dropping_leaves_no_bid(s: OrderBookState, rank: Rank)
    ensures
        !s.emptied().bids.contains_key(rank),
        s.emptied().bids.len() == 0,
        s.emptied().sequence == s.sequence,
{
}

/// An auction has only one winner.
pub proof fn law_one_winner(s: OrderBookState, a: Rank, b: Rank)
    requires
        s.wins(a),
        s.wins(b),
    ensures
        a == b,
{
}

/// Winners of successive auctions come out best first.
pub proof fn law_winners_in_order(s: OrderBookState, first: Rank, second: Rank)
    requires
        s.wf(),
        s.wins(first),
        s.cleared(first).wins(second),
    ensures
        s.bids[first].beats(s.bids[second]),
        s.bids[first].bid_amount >= s.bids[second].bid_amount,
{
    assert(s.bids.contains_key(second));
}

/// A bid that was won and submitted again wins again, and only the number of
/// auctions has changed.
pub proof fn law_resubmission_restores(s: OrderBookState, winner: Rank)
    requires
        s.wf(),
        s.wins(winner),
    ensures
        s.cleared(winner).submitted(s.bids[winner]).bids == s.bids,
        s.cleared(winner).submitted(s.bids[winner]).wins(winner),
{
    assert(s.cleared(winner).submitted(s.bids[winner]).bids =~= s.bids);
}

impl OrderBookState {
    /// Whether successive auctions are won by `ranks`, in order.
    pub open spec fn won_by(self, ranks: Seq<Rank>) -> bool
        decreases ranks.len(),
    {
        ranks.len() > 0 ==> self.wins(ranks[0]) && self.cleared(ranks[0]).won_by(ranks.skip(1))
    }

    /// Whether `event` can happen now: an auction is won by the best bid.
    pub open spec fn permits(self, event: BookEvent) -> bool {
        match event {
            BookEvent::Auction(rank) => self.wins(rank),
            _ => true,
        }
    }

    /// After `event`.
    pub open spec fn after_event(self, event: BookEvent) -> OrderBookState {
        match event {
            BookEvent::Bid(task) => self.submitted(task),
            BookEvent::Auction(rank) => self.cleared(rank),
            BookEvent::Drop => self.emptied(),
        }
    }

    /// After all of `events`, in order.
    pub open spec fn after_events(self, events: Seq<BookEvent>) -> OrderBookState
        decreases events.len(),
    {
        if events.len() == 0 {
            self
        } else {
            self.after_events(events.drop_last()).after_event(events.last())
        }
    }

    /// Whether all of `events` can happen one after the other.
    pub open spec fn permits_all(self, events: Seq<BookEvent>) -> bool
        decreases events.len(),
    {
        events.len() > 0 ==> self.permits_all(events.drop_last()) && self.after_events(
            events.drop_last(),
        ).permits(events.last())
    }
}

/// Something that happens to an order book.
pub enum BookEvent {
    /// A bid is submitted, for the first time or after a refused dispatch.
    Bid(Task),
    /// An auction is won by the bid at this rank.
    Auction(Rank),
    /// All bids are dropped.
    Drop,
}

/// The number of auctions among `events`.
pub open spec fn auctions(events: Seq<BookEvent>) -> nat
    decreases events.len(),
{
    if events.len() == 0 {
        0
    } else {
        auctions(events.drop_last()) + if events.last() is Auction {
            1nat
        } else {
            0nat
        }
    }
}

/// Auctions are numbered one after the other over any run, refused dispatches included:
/// after any events the number is that of the auctions held, so that the first auction
/// has number 1 and each next one the next number.
pub proof fn law_auctions_are_numbered(events: Seq<BookEvent>)
    requires
        (OrderBookState { bids: Map::empty(), sequence: 0 }).permits_all(events),
    ensures
        (OrderBookState { bids: Map::empty(), sequence: 0 }).after_events(events).sequence
            == auctions(events),
        events.len() > 0 && events.last() is Auction ==> auctions(events) == auctions(
            events.drop_last(),
        ) + 1,
    decreases events.len(),
{
    if events.len() > 0 {
        law_auctions_are_numbered(events.drop_last());
    }
}

/// Any number of bids come out best first, each of them once, and each as it was
/// submitted. Where as many auctions are held as there are bids, all of them come out.
pub proof fn law_bids_come_out_best_first(s: OrderBookState, ranks: Seq<Rank>)
    requires
        s.ranked(),
        s.won_by(ranks),
    ensures
        forall|i: int| 0 <= i < ranks.len() ==> s.bids.contains_key(#[trigger] ranks[i]),
        forall|i: int, j: int|
            0 <= i < j < ranks.len() ==> s.bids[#[trigger] ranks[i]].beats(
                s.bids[#[trigger] ranks[j]],
            ),
        ranks.no_duplicates(),
        ranks.len() <= s.bids.len(),
        ranks.len() == s.bids.len() ==> ranks.to_set() == s.bids.dom(),
    decreases ranks.len(),
{
    if ranks.len() > 0 {
        let first = ranks[0];
        let rest = ranks.skip(1);
        let after = s.cleared(first);
        law_bids_come_out_best_first(after, rest);
        assert forall|i: int| 0 <= i < ranks.len() implies s.bids.contains_key(
            #[trigger] ranks[i],
        ) by {
            if i > 0 {
                assert(rest[i - 1] == ranks[i]);
            }
        }
        assert forall|i: int, j: int|
            0 <= i < j < ranks.len() implies s.bids[#[trigger] ranks[i]].beats(
            s.bids[#[trigger] ranks[j]],
        ) by {
            assert(rest[j - 1] == ranks[j]);
            assert(after.bids.contains_key(rest[j - 1]));
            if i > 0 {
                assert(rest[i - 1] == ranks[i]);
                assert(after.bids.contains_key(rest[i - 1]));
            }
        }
        assert forall|i: int, j: int|
            0 <= i < ranks.len() && 0 <= j < ranks.len() && i != j implies ranks[i]
            != ranks[j] by {
            if i < j {
                assert(s.bids[ranks[i]].beats(s.bids[ranks[j]]));
            } else {
                assert(s.bids[ranks[j]].beats(s.bids[ranks[i]]));
            }
        }
        if ranks.len() == s.bids.len() {
            assert(ranks.to_set() =~= s.bids.dom()) by {
                assert forall|rank: Rank|
                    s.bids.contains_key(rank) implies ranks.contains(rank) by {
                    if rank == first {
                        assert(ranks[0] == rank);
                    } else {
                        assert(after.bids.contains_key(rank));
                        assert(rest.to_set().contains(rank));
                        let i = choose|i: int| 0 <= i < rest.len() && rest[i] == rank;
                        assert(ranks[i + 1] == rank);
                    }
                }
            }
        }
    } else if s.bids.len() == 0 {
        assert(ranks.to_set() =~= s.bids.dom());
    }
}

} // verus!
