//! The central bank: what it is told of the market, and the policy it decides on.
use std::collections::BTreeMap;
use vstd::prelude::*;
use vstd::std_specs::cmp::OrdSpec;
use vstd::std_specs::iter::IteratorSpec;

use crate::bank::Bank;
use crate::class::{class_name, class_text};
use crate::ledger::{ascending_keys, walk_bound, Treasury};
use crate::text::{decimal, push_signed, same_text, signed_decimal};

verus! {

broadcast use vstd::laws_cmp::group_laws_cmp;

/// A process with a balance below this is starved.
pub const STARVATION_BALANCE: u64 = 500;

/// Starved processes that are reported.
pub const TOP_STARVED: usize = 5;

/// A process that has run low on tokens.
#[derive(Debug)]
pub struct StarvedProcess {
    /// Process id.
    pub pid: i32,
    /// Label of the process, made of its process id: its command name is not tracked.
    pub comm: String,
    /// How long it has been waiting, in milliseconds. This is not tracked, and always 0.
    pub starvation_ms: u64,
    /// Name of its class.
    pub class: String,
    /// Tokens that it holds.
    pub balance: u64,
}

/// The market on one NUMA node.
#[derive(Clone, Copy, Debug, PartialEq, Eq, Structural)]
pub struct NumaSnapshot {
    /// The node.
    pub id: u32,
    /// Average price of its auctions. This is not tracked, and always 0.
    pub avg_clearing_price: u64,
    /// Tokens that processes hold.
    pub tokens_in_circulation: u64,
}

/// What the central bank is told of the market.
#[derive(Debug)]
pub struct TelemetrySnapshot {
    /// When the snapshot was taken, in nanoseconds.
    pub timestamp: u64,
    /// The NUMA nodes.
    pub numa_nodes: Vec<NumaSnapshot>,
    /// The processes that are worst off.
    pub top_starved: Vec<StarvedProcess>,
    /// Tokens in the reserve.
    pub reserve_balance: u64,
    /// All tokens there are.
    pub total_supply: u64,
    /// How often the circuit breaker has tripped in the last 60 seconds.
    pub circuit_breaker_trips_last_60s: u32,
}

/// What is to become of the demurrage rate.
#[derive(Clone, Copy, Debug, PartialEq, Eq, Structural)]
pub enum RateChange {
    /// It stays.
    Keep,
    /// It rises by a twentieth, up to its upper bound.
    Raise,
    /// It falls by a twentieth, down to its lower bound.
    Lower,
}

/// Tokens that are to be handed out to a class.
#[derive(Debug)]
pub struct Redistribution {
    /// Name of the class.
    pub target_class: String,
    /// Tokens for the whole class.
    pub tokens: u64,
}

/// A policy.
#[derive(Debug)]
pub struct PolicyDecision {
    /// What is to become of the demurrage rate.
    pub rate: RateChange,
    /// Baseline for new processes.
    pub ipo_baseline: Option<u64>,
    /// Tokens to hand out.
    pub redistribute: Vec<Redistribution>,
}

impl Default for PolicyDecision {
    fn default() -> (decision: PolicyDecision)
        ensures
            decision.rate == RateChange::Keep,
            decision.ipo_baseline is None,
            decision.redistribute@.len() == 0,
    {
        PolicyDecision { rate: RateChange::Keep, ipo_baseline: None, redistribute: Vec::new() }
    }
}

/// The supply that ratios are taken of: an empty supply counts as one token.
pub open spec fn ratio_base(total_supply: u64) -> int {
    if total_supply > 1 {
        total_supply as int
    } else {
        1
    }
}

/// The rate that suits a reserve: a reserve below a tenth of the supply calls for a
/// higher rate, one above half of it for a lower rate.
pub open spec fn rate_for(reserve: u64, total_supply: u64) -> RateChange {
    if reserve * 10 < ratio_base(total_supply) {
        RateChange::Raise
    } else if reserve * 2 > ratio_base(total_supply) {
        RateChange::Lower
    } else {
        RateChange::Keep
    }
}

/// Whether one of `list` is an interactive process.
pub open spec fn interactive_starves(list: Seq<StarvedProcess>) -> bool {
    exists|i: int| 0 <= i < list.len() && (#[trigger] list[i]).class@ == "interactive"@
}

/// The tokens that starved interactive processes are to get: a hundredth of the
/// reserve, rounded down.
pub open spec fn relief_budget(snapshot: TelemetrySnapshot) -> int {
    if interactive_starves(snapshot.top_starved@) {
        snapshot.reserve_balance as int / 100
    } else {
        0
    }
}

/// Decides on a policy without outside advice: the rate follows the reserve, and
/// starved interactive processes get a hundredth of it.
pub fn fallback_heuristic(snapshot: &TelemetrySnapshot) -> (decision: PolicyDecision)
    ensures
        follows_fallback(decision, *snapshot),
{
    let mut decision = PolicyDecision::default();
    let base: u128 = if snapshot.total_supply > 1 {
        snapshot.total_supply as u128
    } else {
        1
    };
    let reserve: u128 = snapshot.reserve_balance as u128;
    if reserve * 10 < base {
        decision.rate = RateChange::Raise;
    } else if reserve * 2 > base {
        decision.rate = RateChange::Lower;
    }
    if has_interactive(&snapshot.top_starved) {
        let budget: u64 = snapshot.reserve_balance / 100;
        if budget > 0 {
            decision.redistribute.push(
                Redistribution { target_class: "interactive".to_owned(), tokens: budget },
            );
        }
    }
    decision
}

/// Whether `decision` is what the fallback makes of `snapshot`.
pub open spec fn follows_fallback(decision: PolicyDecision, snapshot: TelemetrySnapshot) -> bool {
    &&& decision.rate == rate_for(snapshot.reserve_balance, snapshot.total_supply)
    &&& decision.ipo_baseline is None
    &&& relief_budget(snapshot) > 0 ==> {
        &&& decision.redistribute@.len() == 1
        &&& decision.redistribute@[0].target_class@ == "interactive"@
        &&& decision.redistribute@[0].tokens == relief_budget(snapshot)
    }
    &&& relief_budget(snapshot) == 0 ==> decision.redistribute@.len() == 0
}

/// Decides on a policy: nothing changes before the first snapshot.
pub fn decide(snapshot: &Option<TelemetrySnapshot>) -> (decision: PolicyDecision)
    ensures
        match *snapshot {
            Some(s) => follows_fallback(decision, s),
            None => decision.rate == RateChange::Keep && decision.ipo_baseline is None
                && decision.redistribute@.len() == 0,
        },
{
    match snapshot {
        Some(s) => fallback_heuristic(s),
        None => PolicyDecision::default(),
    }
}

/// Whether one of `list` is an interactive process.
fn has_interactive(list: &Vec<StarvedProcess>) -> (found: bool)
    ensures
        found == interactive_starves(list@),
{
    let mut i: usize = 0;
    while i < list.len()
        invariant
            i <= list.len(),
            forall|j: int| 0 <= j < i ==> (#[trigger] list@[j]).class@ != "interactive"@,
        decreases list.len() - i,
    {
        if same_text(list[i].class.as_str(), "interactive") {
            return true;
        }
        i = i + 1;
    }
    false
}

/// The processes with a balance below the starvation balance.
pub open spec fn starved_set(m: Map<i32, Treasury>) -> Set<i32> {
    m.dom().filter(|pid: i32| m[pid].balance < STARVATION_BALANCE)
}

/// Whether `a` is worse off than `b`: by balance, then by process id.
pub open spec fn worse_off(m: Map<i32, Treasury>, a: i32, b: i32) -> bool {
    m[a].balance < m[b].balance || m[a].balance == m[b].balance && a < b
}

/// Whether `list` holds starved processes only, worst off first.
pub open spec fn starved_in_order(list: Seq<i32>, m: Map<i32, Treasury>) -> bool {
    &&& forall|i: int| 0 <= i < list.len() ==> starved_set(m).contains(#[trigger] list[i])
    &&& forall|i: int, j: int| 0 <= i < j < list.len() ==> worse_off(m, list[i], list[j])
}

/// Whether `list` holds the starved processes that are worst off, worst off first:
/// as many as are reported, or all where there are fewer.
pub open spec fn worst_off(list: Seq<i32>, m: Map<i32, Treasury>) -> bool {
    &&& starved_in_order(list, m)
    &&& list.len() == if starved_set(m).len() < TOP_STARVED {
        starved_set(m).len()
    } else {
        TOP_STARVED as nat
    }
    &&& forall|pid: i32, i: int|
        #![trigger starved_set(m).contains(pid), list[i]]
        starved_set(m).contains(pid) && !list.contains(pid) && 0 <= i < list.len() ==> worse_off(
            m,
            list[i],
            pid,
        )
}

/// What is reported of a starved process.
pub open spec fn describes(p: StarvedProcess, m: Map<i32, Treasury>) -> bool {
    &&& p.comm@ == "pid:"@ + signed_decimal(p.pid as int)
    &&& p.starvation_ms == 0
    &&& p.class@ == class_text(m[p.pid].process_class)
    &&& p.balance == m[p.pid].balance
}

/// The process ids of `list`.
pub open spec fn listed_pids(list: Seq<StarvedProcess>) -> Seq<i32> {
    list.map_values(|p: StarvedProcess| p.pid)
}

/// All starved processes, worst off first.
fn starved_pids(bank: &Bank) -> (list: Vec<i32>)
    ensures
        starved_in_order(list@, bank@.treasuries),
        list@.to_set() == starved_set(bank@.treasuries),
        list@.no_duplicates(),
        list@.len() == starved_set(bank@.treasuries).len(),
{
    let ghost m = bank@.treasuries;
    let pids: Vec<i32> = bank.pids();
    let mut ranks: BTreeMap<(u64, i32), u8> = BTreeMap::new();
    let mut i: usize = 0;
    proof {
        assert forall|pid: i32| #[trigger] m.contains_key(pid) implies pid >= walk_bound(
            pids@,
            0,
        ) by {
            assert(pids@.contains(pid));
            let j = choose|j: int| 0 <= j < pids@.len() && pids@[j] == pid;
        }
    }
    while i < pids.len()
        invariant
            i <= pids.len(),
            m == bank@.treasuries,
            ascending_keys(pids@, m),
            forall|key: (u64, i32)| #[trigger]
                ranks@.contains_key(key) <==> m.contains_key(key.1) && m[key.1].balance == key.0
                    && key.0 < STARVATION_BALANCE && key.1 < walk_bound(pids@, i as int),
        decreases pids.len() - i,
    {
        let pid: i32 = pids[i];
        proof {
            assert forall|p: i32| #[trigger] m.contains_key(p) implies (p < walk_bound(
                pids@,
                i + 1,
            ) <==> p < walk_bound(pids@, i as int) || p == pid) by {
                assert(pids@.contains(p));
                let j = choose|j: int| 0 <= j < pids@.len() && pids@[j] == p;
            }
        }
        if let Some(t) = bank.treasury(pid) {
            if t.balance < STARVATION_BALANCE {
                ranks.insert((t.balance, pid), t.process_class);
            }
        }
        i = i + 1;
    }
    let order: Vec<(u64, i32)> = ranks_in_order(&ranks);
    let mut list: Vec<i32> = Vec::new();
    let mut j: usize = 0;
    while j < order.len()
        invariant
            j <= order.len(),
            list@.len() == j,
            forall|k: int| 0 <= k < j ==> #[trigger] list@[k] == order@[k].1,
        decreases order.len() - j,
    {
        list.push(order[j].1);
        j = j + 1;
    }
    proof {
        assert forall|k: int| 0 <= k < list@.len() implies starved_set(m).contains(
            #[trigger] list@[k],
        ) && m[list@[k]].balance == order@[k].0 by {
            assert(ranks@.contains_key(order@[k]));
        }
        assert forall|k: int, l: int| 0 <= k < l < list@.len() implies worse_off(
            m,
            list@[k],
            list@[l],
        ) by {
            assert(starved_set(m).contains(list@[k]));
            assert(starved_set(m).contains(list@[l]));
        }
        assert forall|pid: i32| starved_set(m).contains(pid) implies list@.contains(pid) by {
            assert(ranks@.contains_key((m[pid].balance, pid)));
            let k = choose|k: int| 0 <= k < order@.len() && order@[k] == (m[pid].balance, pid);
            assert(list@[k] == pid);
        }
        assert(list@.to_set() =~= starved_set(m));
        list@.unique_seq_to_set();
    }
    list
}

/// The keys of `ranks` in order: by the first number, then by the second.
fn ranks_in_order(ranks: &BTreeMap<(u64, i32), u8>) -> (order: Vec<(u64, i32)>)
    ensures
        forall|i: int| 0 <= i < order@.len() ==> ranks@.contains_key(#[trigger] order@[i]),
        forall|key: (u64, i32)| #[trigger] ranks@.contains_key(key) ==> order@.contains(key),
        forall|i: int, j: int|
            0 <= i < j < order@.len() ==> order@[i].0 < order@[j].0 || order@[i].0 == order@[j].0
                && order@[i].1 < order@[j].1,
{
    let mut order: Vec<(u64, i32)> = Vec::new();
    let ghost all: Seq<&(u64, i32)> = ranks.keys().remaining();
    for key in it: ranks.keys()
        invariant
            it.seq() == all,
            all == ranks.keys().remaining(),
            order@.len() == it.index(),
            forall|i: int| 0 <= i < order@.len() ==> order@[i] == *all[i],
    {
        order.push(*key);
    }
    proof {
        assert(order@ =~= all.unref());
        assert(vstd::laws_cmp::obeys_cmp::<(u64, i32)>());
        assert(vstd::laws_cmp::obeys_cmp::<&(u64, i32)>());
        assert(vstd::std_specs::btree::increasing_seq(all));
        assert forall|i: int| 0 <= i < order@.len() implies ranks@.contains_key(
            #[trigger] order@[i],
        ) by {
            assert(all.unref().to_set().contains(order@[i]));
        }
        assert forall|key: (u64, i32)| #[trigger] ranks@.contains_key(key) implies order@.contains(
            key,
        ) by {
            assert(all.unref().to_set().contains(key));
        }
        assert forall|i: int, j: int| 0 <= i < j < order@.len() implies order@[i].0 < order@[j].0
            || order@[i].0 == order@[j].0 && order@[i].1 < order@[j].1 by {
            assert(OrdSpec::cmp_spec(&all[i], &all[j]) is Less);
        }
    }
    order
}

/// The starved processes that are worst off.
pub fn top_starved(bank: &Bank) -> (top: Vec<StarvedProcess>)
    ensures
        worst_off(listed_pids(top@), bank@.treasuries),
        forall|i: int| 0 <= i < top@.len() ==> describes(#[trigger] top@[i], bank@.treasuries),
{
    let ghost m = bank@.treasuries;
    let list: Vec<i32> = starved_pids(bank);
    let mut top: Vec<StarvedProcess> = Vec::new();
    let mut i: usize = 0;
    while i < list.len() && i < TOP_STARVED
        invariant
            i <= list.len(),
            i <= TOP_STARVED,
            m == bank@.treasuries,
            starved_in_order(list@, m),
            top@.len() == i,
            forall|j: int| 0 <= j < i ==> (#[trigger] top@[j]).pid == list@[j],
            forall|j: int| 0 <= j < i ==> describes(#[trigger] top@[j], m),
        decreases list.len() - i,
    {
        let pid: i32 = list[i];
        assert(starved_set(m).contains(list@[i as int]));
        if let Some(t) = bank.treasury(pid) {
            let mut comm: String = "pid:".to_owned();
            push_signed(&mut comm, pid);
            top.push(
                StarvedProcess {
                    pid,
                    comm,
                    starvation_ms: 0,
                    class: class_name(t.process_class).to_owned(),
                    balance: t.balance,
                },
            );
        }
        i = i + 1;
    }
    proof {
        let ids = listed_pids(top@);
        assert(ids =~= list@.take(i as int));
        assert forall|pid: i32, j: int|
            #![trigger starved_set(m).contains(pid), ids[j]]
            starved_set(m).contains(pid) && !ids.contains(pid) && 0 <= j < ids.len() implies
            worse_off(m, ids[j], pid) by {
            assert(list@.to_set().contains(pid));
            let k = choose|k: int| 0 <= k < list@.len() && list@[k] == pid;
            if k < i {
                assert(ids[k] == pid);
            }
        }
    }
    top
}

/// There is only one list of the processes that are worst off.
pub proof fn law_worst_off_is_unique(a: Seq<i32>, b: Seq<i32>, m: Map<i32, Treasury>)
    requires
        worst_off(a, m),
        worst_off(b, m),
    ensures
        a == b,
{
    assert forall|n: int| 0 <= n <= a.len() implies #[trigger] a.take(n) == b.take(n) by {
        lemma_same_prefix(a, b, m, n);
    }
    assert(a.take(a.len() as int) =~= a);
    assert(b.take(a.len() as int) =~= b);
}

/// Two lists of the processes that are worst off agree up to any length.
proof fn lemma_same_prefix(a: Seq<i32>, b: Seq<i32>, m: Map<i32, Treasury>, n: int)
    requires
        worst_off(a, m),
        worst_off(b, m),
        0 <= n <= a.len(),
    ensures
        a.take(n) == b.take(n),
    decreases n,
{
    if n > 0 {
        lemma_same_prefix(a, b, m, n - 1);
        let x = a[n - 1];
        let y = b[n - 1];
        assert(starved_set(m).contains(a[n - 1]));
        assert(starved_set(m).contains(b[n - 1]));
        lemma_not_worse(a, b, m, n - 1);
        lemma_not_worse(b, a, m, n - 1);
        assert(a.take(n) =~= a.take(n - 1).push(x));
        assert(b.take(n) =~= b.take(n - 1).push(y));
    }
}

/// Where two lists agree up to `n`, the next of one is not worse off than the next
/// of the other.
proof fn lemma_not_worse(a: Seq<i32>, b: Seq<i32>, m: Map<i32, Treasury>, n: int)
    requires
        worst_off(a, m),
        worst_off(b, m),
        0 <= n < a.len(),
        a.take(n) == b.take(n),
    ensures
        !worse_off(m, a[n], b[n]),
{
    assert(starved_set(m).contains(a[n]));
    if worse_off(m, a[n], b[n]) {
        if b.contains(a[n]) {
            let k = choose|k: int| 0 <= k < b.len() && b[k] == a[n];
            if k < n {
                assert(a.take(n)[k] == a[k]);
                assert(b.take(n)[k] == b[k]);
                assert(worse_off(m, a[k], a[n]));
            } else if k > n {
                assert(worse_off(m, b[n], b[k]));
            }
        } else {
            assert(worse_off(m, b[n], a[n]));
        }
    }
}

/// A fallback policy hands out no more than a hundredth of the reserve.
pub proof fn law_relief_is_bounded(snapshot: TelemetrySnapshot)
    ensures
        0 <= relief_budget(snapshot) * 100 <= snapshot.reserve_balance,
{
}

/// The rate is raised only where the reserve is below a tenth of the supply, lowered only
/// where it is above half of it, and kept in between. Without any supply an empty reserve
/// counts as low and any other as high.
pub proof fn law_rate_follows_reserve(reserve: u64, total_supply: u64)
    ensures
        total_supply > 0 ==> {
            &&& rate_for(reserve, total_supply) == RateChange::Raise <==> reserve * 10
                < total_supply
            &&& rate_for(reserve, total_supply) == RateChange::Lower <==> reserve * 2
                > total_supply
            &&& rate_for(reserve, total_supply) == RateChange::Keep <==> reserve * 10
                >= total_supply && reserve * 2 <= total_supply
        },
        total_supply == 0 ==> {
            &&& rate_for(reserve, total_supply) == RateChange::Raise <==> reserve == 0
            &&& rate_for(reserve, total_supply) == RateChange::Lower <==> reserve > 0
        },
{
}

/// What a fallback policy says: tokens are handed out if and only if an interactive process
/// is among the starved ones and the reserve holds at least a hundred. They then go to the
/// interactive class alone, and are a hundredth of the reserve, rounded down. The baseline
/// stays, and the rate follows the reserve.
pub proof fn law_fallback_relieves_interactive(
    decision: PolicyDecision,
    snapshot: TelemetrySnapshot,
    i: int,
)
    requires
        follows_fallback(decision, snapshot),
    ensures
        ({
            let list = decision.redistribute@;
            let reserve = snapshot.reserve_balance;
            &&& decision.ipo_baseline is None
            &&& snapshot.total_supply > 0 ==> {
                &&& decision.rate == RateChange::Raise <==> reserve * 10 < snapshot.total_supply
                &&& decision.rate == RateChange::Lower <==> reserve * 2 > snapshot.total_supply
            }
            &&& snapshot.total_supply == 0 ==> {
                &&& decision.rate == RateChange::Raise <==> reserve == 0
                &&& decision.rate == RateChange::Lower <==> reserve > 0
            }
            &&& reserve < 100 ==> list.len() == 0
            &&& 0 <= i < snapshot.top_starved@.len() && snapshot.top_starved@[i].class@
                == "interactive"@ && reserve >= 100 ==> list.len() == 1
            &&& (forall|j: int|
                0 <= j < snapshot.top_starved@.len() ==> (
                #[trigger] snapshot.top_starved@[j]).class@ != "interactive"@) ==> list.len() == 0
            &&& list.len() > 0 ==> {
                &&& list.len() == 1
                &&& list[0].target_class@ == "interactive"@
                &&& 100 * list[0].tokens <= reserve < 100 * (list[0].tokens + 1)
            }
        }),
{
    law_rate_follows_reserve(snapshot.reserve_balance, snapshot.total_supply);
    if 0 <= i < snapshot.top_starved@.len() && snapshot.top_starved@[i].class@ == "interactive"@ {
        assert(interactive_starves(snapshot.top_starved@));
    }
}

/// Which processes are reported as starved: at most five, each with less than 500 tokens,
/// poorest first and on a tie by process id. A process with less than 500 tokens is left
/// out only where five are reported, none of which holds more than it does.
pub proof fn law_poorest_five_are_reported(list: Seq<i32>, m: Map<i32, Treasury>, pid: i32)
    requires
        m.dom().finite(),
        worst_off(list, m),
    ensures
        list.len() <= 5,
        forall|i: int|
            0 <= i < list.len() ==> m.contains_key(#[trigger] list[i]) && m[list[i]].balance < 500,
        forall|i: int, j: int|
            0 <= i < j < list.len() ==> m[#[trigger] list[i]].balance
                < m[#[trigger] list[j]].balance || m[list[i]].balance == m[list[j]].balance
                && list[i] < list[j],
        m.contains_key(pid) && m[pid].balance < 500 && !list.contains(pid) ==> {
            &&& list.len() == 5
            &&& forall|i: int|
                0 <= i < list.len() ==> m[#[trigger] list[i]].balance < m[pid].balance
                    || m[list[i]].balance == m[pid].balance && list[i] < pid
        },
{
    let starved = starved_set(m);
    assert(starved.subset_of(m.dom()));
    vstd::set_lib::lemma_set_subset_finite(m.dom(), starved);
    assert forall|i: int| 0 <= i < list.len() implies m.contains_key(#[trigger] list[i])
        && m[list[i]].balance < 500 by {
        assert(starved.contains(list[i]));
    }
    assert forall|i: int, j: int| 0 <= i < j < list.len() implies m[#[trigger] list[i]].balance
        < m[#[trigger] list[j]].balance || m[list[i]].balance == m[list[j]].balance && list[i]
        < list[j] by {
        assert(worse_off(m, list[i], list[j]));
    }
    if m.contains_key(pid) && m[pid].balance < 500 && !list.contains(pid) {
        assert(starved.contains(pid));
        assert(list.no_duplicates());
        list.unique_seq_to_set();
        assert forall|other: i32| list.to_set().contains(other) implies starved.remove(
            pid,
        ).contains(other) by {
            let k = choose|k: int| 0 <= k < list.len() && list[k] == other;
            assert(starved.contains(list[k]));
        }
        assert(list.to_set().subset_of(starved.remove(pid)));
        vstd::set_lib::lemma_len_subset(list.to_set(), starved.remove(pid));
        assert forall|i: int| 0 <= i < list.len() implies m[#[trigger] list[i]].balance
            < m[pid].balance || m[list[i]].balance == m[pid].balance && list[i] < pid by {
            assert(worse_off(m, list[i], pid));
        }
    }
}

/// A starved process is reported with its own balance and the name of its class; its label
/// is `pid:` and its process id.
pub proof fn law_starved_process_is_described(p: StarvedProcess, m: Map<i32, Treasury>)
    requires
        describes(p, m),
    ensures
        p.balance == m[p.pid].balance,
        p.class@ == class_text(m[p.pid].process_class),
        p.starvation_ms == 0,
        p.comm@.take(4) == "pid:"@,
        p.pid >= 0 ==> p.comm@.skip(4) == decimal(p.pid as nat),
        p.pid < 0 ==> p.comm@[4] == '-' && p.comm@.skip(5) == decimal((-p.pid) as nat),
{
    reveal_strlit("pid:");
    assert("pid:"@.len() == 4);
    let number = signed_decimal(p.pid as int);
    assert(("pid:"@ + number).take(4) =~= "pid:"@);
    assert(("pid:"@ + number).skip(4) =~= number);
    if p.pid < 0 {
        assert(("pid:"@ + number).skip(5) =~= decimal((-p.pid) as nat));
    }
}

} // verus!
