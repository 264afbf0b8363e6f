//! Sums and walks over the token balances of a set of processes.
use std::collections::BTreeMap;
use vstd::prelude::*;
use vstd::std_specs::cmp::OrdSpec;
use vstd::std_specs::iter::IteratorSpec;

use crate::class::IPO_BASELINE;

verus! {

broadcast use vstd::laws_cmp::group_laws_cmp;

/// The account of one process.
#[derive(Clone, Copy, Debug, PartialEq, Eq, Structural)]
pub struct Treasury {
    /// Tokens that the process holds.
    pub balance: u64,
    /// Tokens that the process has paid for CPU time and not been refunded.
    pub total_spent: u64,
    /// Class of the process.
    pub process_class: u8,
}

impl Treasury {
    /// A treasury of class `class_hint` with the ordinary baseline.
    pub fn new(class_hint: u8) -> (treasury: Treasury)
        ensures
            treasury.balance == IPO_BASELINE,
            treasury.balance == 1_000,
            treasury.total_spent == 0,
            treasury.process_class == class_hint,
    {
        Treasury { balance: IPO_BASELINE, total_spent: 0, process_class: class_hint }
    }
}

/// The tokens that all treasuries of `m` hold together.
pub open spec fn holdings(m: Map<i32, Treasury>) -> int
    decreases m.dom().len(),
{
    if m.dom().finite() && !m.dom().is_empty() {
        let pid = m.dom().choose();
        m[pid].balance + holdings(m.remove(pid))
    } else {
        0
    }
}

/// One past the largest process id.
pub open spec fn pid_end() -> int {
    i32::MAX + 1
}

/// `before`, with the processes below `bound` as they are in `after`.
pub open spec fn updated_below(
    before: Map<i32, Treasury>,
    after: Map<i32, Treasury>,
    bound: int,
) -> Map<i32, Treasury> {
    Map::new(
        |pid: i32| before.contains_key(pid),
        |pid: i32| if pid < bound { after[pid] } else { before[pid] },
    )
}

/// Whether `pids` lists the keys of `m` in ascending order.
pub open spec fn ascending_keys<V>(pids: Seq<i32>, m: Map<i32, V>) -> bool {
    &&& forall|i: int, j: int| 0 <= i < j < pids.len() ==> pids[i] < pids[j]
    &&& forall|i: int| 0 <= i < pids.len() ==> m.contains_key(#[trigger] pids[i])
    &&& forall|pid: i32| #[trigger] m.contains_key(pid) ==> pids.contains(pid)
}

/// The process id that a walk over `pids` reaches at position `i`, or the end.
pub open spec fn walk_bound(pids: Seq<i32>, i: int) -> int {
    if i < pids.len() {
        pids[i] as int
    } else {
        pid_end()
    }
}

/// Taking one process out of a map takes its balance out of the holdings.
pub proof fn lemma_holdings_remove(m: Map<i32, Treasury>, pid: i32)
    requires
        m.dom().finite(),
        m.contains_key(pid),
    ensures
        holdings(m) == m[pid].balance + holdings(m.remove(pid)),
    decreases m.dom().len(),
{
    let first = m.dom().choose();
    assert(m.dom().contains(first));
    if first != pid {
        lemma_holdings_remove(m.remove(first), pid);
        lemma_holdings_remove(m.remove(pid), first);
        assert(m.remove(first).remove(pid) =~= m.remove(pid).remove(first));
    }
}

/// Holdings are never negative.
pub proof fn lemma_holdings_nonnegative(m: Map<i32, Treasury>)
    ensures
        holdings(m) >= 0,
    decreases m.dom().len(),
{
    if m.dom().finite() && !m.dom().is_empty() {
        let first = m.dom().choose();
        assert(m.dom().contains(first));
        lemma_holdings_nonnegative(m.remove(first));
    }
}

/// One balance is no more than all of them.
pub proof fn lemma_balance_within_holdings(m: Map<i32, Treasury>, pid: i32)
    requires
        m.dom().finite(),
        m.contains_key(pid),
    ensures
        m[pid].balance <= holdings(m),
{
    lemma_holdings_remove(m, pid);
    lemma_holdings_nonnegative(m.remove(pid));
}

/// Two balances are no more than all of them.
pub proof fn lemma_two_balances_within_holdings(m: Map<i32, Treasury>, a: i32, b: i32)
    requires
        m.dom().finite(),
        m.contains_key(a),
        m.contains_key(b),
        a != b,
    ensures
        m[a].balance + m[b].balance <= holdings(m),
{
    lemma_holdings_remove(m, a);
    lemma_balance_within_holdings(m.remove(a), b);
}

/// Writing one treasury changes the holdings by the change of its balance.
pub proof fn lemma_holdings_insert(m: Map<i32, Treasury>, pid: i32, treasury: Treasury)
    requires
        m.dom().finite(),
    ensures
        m.insert(pid, treasury).dom().finite(),
        m.contains_key(pid) ==> holdings(m.insert(pid, treasury)) == holdings(m) - m[pid].balance
            + treasury.balance,
        !m.contains_key(pid) ==> holdings(m.insert(pid, treasury)) == holdings(m)
            + treasury.balance,
{
    lemma_holdings_remove(m.insert(pid, treasury), pid);
    assert(m.insert(pid, treasury).remove(pid) =~= m.remove(pid));
    if m.contains_key(pid) {
        lemma_holdings_remove(m, pid);
    } else {
        assert(m.remove(pid) =~= m);
    }
}

/// Where no balance grows, the holdings do not grow.
pub proof fn lemma_holdings_shrink(before: Map<i32, Treasury>, after: Map<i32, Treasury>)
    requires
        before.dom().finite(),
        after.dom() == before.dom(),
        forall|pid: i32| #[trigger]
            before.contains_key(pid) ==> after[pid].balance <= before[pid].balance,
    ensures
        holdings(after) <= holdings(before),
    decreases before.dom().len(),
{
    if before.dom().is_empty() {
        assert(holdings(after) == 0);
        assert(holdings(before) == 0);
    } else {
        let first = before.dom().choose();
        assert(before.dom().contains(first));
        assert(before.contains_key(first));
        lemma_holdings_remove(before, first);
        lemma_holdings_remove(after, first);
        assert forall|pid: i32| #[trigger] before.remove(first).contains_key(pid) implies
            after.remove(first)[pid].balance <= before.remove(first)[pid].balance by {
            assert(before.contains_key(pid));
        }
        assert(after.remove(first).dom() =~= before.remove(first).dom());
        lemma_holdings_shrink(before.remove(first), after.remove(first));
    }
}

/// Where treasuries are taken out and no other changes, the holdings do not grow.
pub proof fn lemma_holdings_submap(before: Map<i32, Treasury>, after: Map<i32, Treasury>)
    requires
        before.dom().finite(),
        after.submap_of(before),
    ensures
        after.dom().finite(),
        holdings(after) <= holdings(before),
    decreases before.dom().len(),
{
    if before.dom().is_empty() {
        assert(after =~= before);
    } else {
        let first = before.dom().choose();
        assert(before.dom().contains(first));
        lemma_holdings_remove(before, first);
        if after.contains_key(first) {
            assert(after[first] == before[first]);
            assert(after.remove(first).submap_of(before.remove(first)));
            lemma_holdings_submap(before.remove(first), after.remove(first));
            assert(after.dom() =~= after.remove(first).dom().insert(first));
            lemma_holdings_remove(after, first);
        } else {
            assert(after.submap_of(before.remove(first)));
            lemma_holdings_submap(before.remove(first), after);
        }
    }
}

/// Before the first process nothing is updated; past the last everything is.
pub proof fn lemma_updated_ends(
    before: Map<i32, Treasury>,
    after: Map<i32, Treasury>,
    pids: Seq<i32>,
)
    requires
        after.dom() == before.dom(),
        ascending_keys(pids, before),
    ensures
        updated_below(before, after, walk_bound(pids, 0)) == before,
        updated_below(before, after, walk_bound(pids, pids.len() as int)) == after,
{
    assert forall|pid: i32| #[trigger] before.contains_key(pid) implies pid >= walk_bound(
        pids,
        0,
    ) by {
        assert(pids.contains(pid));
        let i = choose|i: int| 0 <= i < pids.len() && pids[i] == pid;
    }
    assert(updated_below(before, after, walk_bound(pids, 0)) =~= before);
    assert(updated_below(before, after, pid_end()) =~= after);
}

/// One step of a walk updates the process that it has reached and no other.
pub proof fn lemma_updated_step(
    before: Map<i32, Treasury>,
    after: Map<i32, Treasury>,
    pids: Seq<i32>,
    i: int,
)
    requires
        before.dom().finite(),
        after.dom() == before.dom(),
        ascending_keys(pids, before),
        0 <= i < pids.len(),
    ensures
        updated_below(before, after, walk_bound(pids, i)).dom() == before.dom(),
        updated_below(before, after, walk_bound(pids, i))[pids[i]] == before[pids[i]],
        updated_below(before, after, walk_bound(pids, i)).insert(pids[i], after[pids[i]])
            == updated_below(before, after, walk_bound(pids, i + 1)),
{
    let reached = updated_below(before, after, walk_bound(pids, i));
    let next = updated_below(before, after, walk_bound(pids, i + 1));
    assert(before.contains_key(pids[i]));
    assert(reached.dom() =~= before.dom());
    assert forall|pid: i32| #[trigger] before.contains_key(pid) implies (pid < walk_bound(
        pids,
        i + 1,
    ) <==> pid <= pids[i]) by {
        assert(pids.contains(pid));
        let j = choose|j: int| 0 <= j < pids.len() && pids[j] == pid;
    }
    assert(reached.insert(pids[i], after[pids[i]]) =~= next);
}

/// The keys of `m` in ascending order.
pub fn keys_in_order<V>(m: &BTreeMap<i32, V>) -> (pids: Vec<i32>)
    ensures
        ascending_keys(pids@, m@),
        pids@.len() == m@.len(),
{
    let mut pids: Vec<i32> = Vec::new();
    let ghost all: Seq<&i32> = m.keys().remaining();
    for pid in it: m.keys()
        invariant
            it.seq() == all,
            all == m.keys().remaining(),
            pids@.len() == it.index(),
            forall|i: int| 0 <= i < pids@.len() ==> pids@[i] == *all[i],
    {
        pids.push(*pid);
    }
    proof {
        assert(pids@ =~= all.unref());
        assert(vstd::laws_cmp::obeys_cmp::<i32>());
        assert(vstd::laws_cmp::obeys_cmp::<&i32>());
        assert(vstd::std_specs::btree::increasing_seq(all));
        assert forall|i: int, j: int| 0 <= i < j < pids@.len() implies pids@[i] < pids@[j] by {
            assert(OrdSpec::cmp_spec(&all[i], &all[j]) is Less);
        }
        assert forall|i: int| 0 <= i < pids@.len() implies m@.contains_key(#[trigger] pids@[i]) by {
            assert(all.unref().to_set().contains(pids@[i]));
        }
        assert forall|pid: i32| #[trigger] m@.contains_key(pid) implies pids@.contains(pid) by {
            assert(all.unref().to_set().contains(pid));
        }
    }
    pids
}

/// Holdings are the sum of all balances: none where there is no treasury, and each treasury
/// that is added adds its balance.
pub proof fn law_holdings_add_up(m: Map<i32, Treasury>, pid: i32, treasury: Treasury)
    requires
        m.dom().finite(),
        !m.contains_key(pid),
    ensures
        holdings(Map::empty()) == 0,
        holdings(m.insert(pid, treasury)) == holdings(m) + treasury.balance,
{
    lemma_holdings_insert(m, pid, treasury);
}

/// A list of the keys in ascending order holds every key once and nothing else.
pub proof fn law_keys_in_order<V>(pids: Seq<i32>, m: Map<i32, V>, pid: i32)
    requires
        ascending_keys(pids, m),
    ensures
        pids.contains(pid) <==> m.contains_key(pid),
        pids.no_duplicates(),
        forall|i: int, j: int| 0 <= i < j < pids.len() ==> pids[i] < pids[j],
{
}

} // verus!
