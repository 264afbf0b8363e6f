//! The bank: every token of a fixed supply is either in a treasury or in the reserve.
use std::collections::BTreeMap;
use vstd::prelude::*;

use crate::class::{class_ipo, ipo_for_class, IPO_BASELINE};
use crate::ledger::{
    ascending_keys, holdings, keys_in_order, lemma_balance_within_holdings, lemma_holdings_insert,
    lemma_holdings_nonnegative, lemma_holdings_remove, lemma_holdings_shrink,
    lemma_two_balances_within_holdings, lemma_updated_ends, lemma_updated_step, pid_end,
    updated_below, walk_bound, Treasury,
};

verus! {

broadcast use vstd::laws_cmp::group_laws_cmp;

/// What a bank holds.
#[verifier::ext_equal]
pub struct BankState {
    /// The treasury of each admitted process.
    pub treasuries: Map<i32, Treasury>,
    /// Tokens that no process holds.
    pub reserve: int,
    /// All tokens there are.
    pub total_supply: int,
}

/// The smaller of two numbers.
pub open spec fn lesser(a: int, b: int) -> int {
    if a <= b {
        a
    } else {
        b
    }
}

/// The balance that a haircut leaves alone: the standard baseline of the class.
pub open spec fn sheltered(class: u8) -> u64 {
    class_ipo(class, IPO_BASELINE)
}

/// The part of a balance of `class` above its standard baseline that a haircut takes:
/// nine tenths, rounded down.
pub open spec fn haircut_slash(balance: u64, class: u8) -> int {
    if balance > sheltered(class) {
        (balance - sheltered(class)) * 9 / 10
    } else {
        0
    }
}

/// The tax on `pid` under `taxes`: nothing where it is not listed.
pub open spec fn tax_due(taxes: Map<i32, u64>, pid: i32) -> int {
    if taxes.contains_key(pid) {
        taxes[pid] as int
    } else {
        0
    }
}

/// The processes of `class` with a process id below `bound`.
pub open spec fn members_below(m: Map<i32, Treasury>, class: u8, bound: int) -> Set<i32> {
    m.dom().filter(|pid: i32| m[pid].process_class == class && pid < bound)
}

/// The number of processes of `class`.
pub open spec fn class_size(m: Map<i32, Treasury>, class: u8) -> int {
    members_below(m, class, pid_end()).len() as int
}

/// What each process of `class` is to get of `tokens`.
pub open spec fn equal_share(m: Map<i32, Treasury>, class: u8, tokens: u64) -> int {
    tokens as int / if class_size(m, class) > 0 {
        class_size(m, class)
    } else {
        1
    }
}

/// What is paid out of `reserve` to the first `n` processes that are to get
/// `share` each.
pub open spec fn paid_out(reserve: int, share: int, n: int) -> int {
    lesser(reserve, n * share)
}

impl BankState {
    /// Every token is accounted for.
    pub open spec fn wf(self) -> bool {
        &&& self.treasuries.dom().finite()
        &&& self.reserve >= 0
        &&& holdings(self.treasuries) + self.reserve == self.total_supply
        &&& self.total_supply <= u64::MAX
    }

    /// A bank whose whole supply is in the reserve.
    pub open spec fn opened(total_supply: u64) -> BankState {
        BankState {
            treasuries: Map::empty(),
            reserve: total_supply as int,
            total_supply: total_supply as int,
        }
    }

    /// This bank with other treasuries; what they hold less goes to the reserve.
    pub open spec fn with_treasuries(self, treasuries: Map<i32, Treasury>) -> BankState {
        BankState {
            treasuries,
            reserve: self.reserve + holdings(self.treasuries) - holdings(treasuries),
            total_supply: self.total_supply,
        }
    }

    /// What a new process of `class` receives: what `baseline` entitles it to, as far as
    /// the reserve goes.
    pub open spec fn ipo(self, class: u8, baseline: u64) -> int {
        lesser(class_ipo(class, baseline) as int, self.reserve)
    }

    /// After `pid` was admitted with `class` under `baseline`.
    pub open spec fn admitted(self, pid: i32, class: u8, baseline: u64) -> BankState {
        BankState {
            treasuries: self.treasuries.insert(
                pid,
                Treasury {
                    balance: self.ipo(class, baseline) as u64,
                    total_spent: 0,
                    process_class: class,
                },
            ),
            reserve: self.reserve - self.ipo(class, baseline),
            total_supply: self.total_supply,
        }
    }

    /// What `pid` can pay of `price`.
    pub open spec fn cost(self, pid: i32, price: u64) -> int {
        if self.treasuries.contains_key(pid) {
            lesser(price as int, self.treasuries[pid].balance as int)
        } else {
            0
        }
    }

    /// Whether the spending record of `pid` has room for `price`.
    pub open spec fn spend_fits(self, pid: i32, price: u64) -> bool {
        self.treasuries.contains_key(pid) ==> self.treasuries[pid].total_spent + self.cost(
            pid,
            price,
        ) <= u64::MAX
    }

    /// After `pid` paid `price` to the reserve, as far as its balance goes.
    pub open spec fn charged(self, pid: i32, price: u64) -> BankState {
        if self.treasuries.contains_key(pid) {
            let t = self.treasuries[pid];
            BankState {
                treasuries: self.treasuries.insert(
                    pid,
                    Treasury {
                        balance: (t.balance - self.cost(pid, price)) as u64,
                        total_spent: (t.total_spent + self.cost(pid, price)) as u64,
                        process_class: t.process_class,
                    },
                ),
                reserve: self.reserve + self.cost(pid, price),
                total_supply: self.total_supply,
            }
        } else {
            self
        }
    }

    /// What the reserve gives back to `pid` for `paid` tokens that it paid: no more than
    /// it has spent, and no more than the reserve holds.
    pub open spec fn refund_due(self, pid: i32, paid: u64) -> int {
        if self.treasuries.contains_key(pid) {
            lesser(lesser(paid as int, self.treasuries[pid].total_spent as int), self.reserve)
        } else {
            0
        }
    }

    /// After `pid` was given back the `paid` tokens that it paid.
    pub open spec fn refunded(self, pid: i32, paid: u64) -> BankState {
        if self.treasuries.contains_key(pid) {
            let t = self.treasuries[pid];
            BankState {
                treasuries: self.treasuries.insert(
                    pid,
                    Treasury {
                        balance: (t.balance + self.refund_due(pid, paid)) as u64,
                        total_spent: (t.total_spent - self.refund_due(pid, paid)) as u64,
                        process_class: t.process_class,
                    },
                ),
                reserve: self.reserve - self.refund_due(pid, paid),
                total_supply: self.total_supply,
            }
        } else {
            self
        }
    }

    /// After the treasury of `pid` was emptied into the reserve and closed.
    pub open spec fn liquidated(self, pid: i32) -> BankState {
        if self.treasuries.contains_key(pid) {
            BankState {
                treasuries: self.treasuries.remove(pid),
                reserve: self.reserve + self.treasuries[pid].balance,
                total_supply: self.total_supply,
            }
        } else {
            self
        }
    }

    /// Whether `parent` can transfer `amount` to `child`.
    pub open spec fn transfer_allowed(self, parent: i32, child: i32, amount: u64) -> bool {
        &&& self.treasuries.contains_key(parent)
        &&& self.treasuries.contains_key(child)
        &&& self.treasuries[parent].balance >= amount
    }

    /// After a request to transfer `amount` from `parent` to `child`.
    pub open spec fn transferred(self, parent: i32, child: i32, amount: u64) -> BankState {
        if self.transfer_allowed(parent, child, amount) && parent != child {
            let p = self.treasuries[parent];
            let c = self.treasuries[child];
            BankState {
                treasuries: self.treasuries.insert(
                    parent,
                    Treasury { balance: (p.balance - amount) as u64, ..p },
                ).insert(child, Treasury { balance: (c.balance + amount) as u64, ..c }),
                reserve: self.reserve,
                total_supply: self.total_supply,
            }
        } else {
            self
        }
    }

    /// The treasuries after each paid its tax, as far as its balance goes.
    pub open spec fn taxed_treasuries(self, taxes: Map<i32, u64>) -> Map<i32, Treasury> {
        Map::new(
            |pid: i32| self.treasuries.contains_key(pid),
            |pid: i32|
                {
                    let t = self.treasuries[pid];
                    Treasury {
                        balance: (t.balance - lesser(
                            t.balance as int,
                            tax_due(taxes, pid),
                        )) as u64,
                        ..t
                    }
                },
        )
    }

    /// After `taxes` were collected into the reserve.
    pub open spec fn taxed(self, taxes: Map<i32, u64>) -> BankState {
        self.with_treasuries(self.taxed_treasuries(taxes))
    }

    /// The treasuries after a haircut.
    pub open spec fn slashed_treasuries(self) -> Map<i32, Treasury> {
        Map::new(
            |pid: i32| self.treasuries.contains_key(pid),
            |pid: i32|
                {
                    let t = self.treasuries[pid];
                    Treasury {
                        balance: (t.balance - haircut_slash(t.balance, t.process_class)) as u64,
                        ..t
                    }
                },
        )
    }

    /// After a haircut into the reserve.
    pub open spec fn slashed(self) -> BankState {
        self.with_treasuries(self.slashed_treasuries())
    }

    /// What `pid` gets when `tokens` are handed out to `class`: an equal share, as
    /// far as the reserve goes once the processes with smaller ids were paid.
    pub open spec fn grant(self, class: u8, tokens: u64, pid: i32) -> int {
        let share = equal_share(self.treasuries, class, tokens);
        let earlier = members_below(self.treasuries, class, pid as int).len() as int;
        if self.treasuries[pid].process_class == class {
            lesser(share, self.reserve - paid_out(self.reserve, share, earlier))
        } else {
            0
        }
    }

    /// The treasuries after `tokens` were handed out to `class`.
    pub open spec fn funded_treasuries(self, class: u8, tokens: u64) -> Map<i32, Treasury> {
        Map::new(
            |pid: i32| self.treasuries.contains_key(pid),
            |pid: i32|
                {
                    let t = self.treasuries[pid];
                    Treasury { balance: (t.balance + self.grant(class, tokens, pid)) as u64, ..t }
                },
        )
    }

    /// After `tokens` were handed out to the processes of `class`.
    pub open spec fn funded(self, class: u8, tokens: u64) -> BankState {
        BankState {
            treasuries: self.funded_treasuries(class, tokens),
            reserve: self.reserve - paid_out(
                self.reserve,
                equal_share(self.treasuries, class, tokens),
                class_size(self.treasuries, class),
            ),
            total_supply: self.total_supply,
        }
    }
}

/// Admitting a process moves tokens from the reserve and keeps the supply.
pub proof fn law_admission_conserves(s: BankState, pid: i32, class: u8, baseline: u64)
    requires
        s.wf(),
        !s.treasuries.contains_key(pid),
    ensures
        s.admitted(pid, class, baseline).wf(),
{
    lemma_holdings_nonnegative(s.treasuries);
    lemma_holdings_insert(s.treasuries, pid, s.admitted(pid, class, baseline).treasuries[pid]);
}

/// Charging a process moves tokens to the reserve and keeps the supply.
pub proof fn law_charge_conserves(s: BankState, pid: i32, price: u64)
    requires
        s.wf(),
        s.spend_fits(pid, price),
    ensures
        s.charged(pid, price).wf(),
{
    if s.treasuries.contains_key(pid) {
        lemma_holdings_insert(s.treasuries, pid, s.charged(pid, price).treasuries[pid]);
    }
}

/// A refund moves tokens from the reserve and keeps the supply.
pub proof fn law_refund_conserves(s: BankState, pid: i32, paid: u64)
    requires
        s.wf(),
    ensures
        s.refunded(pid, paid).wf(),
{
    if s.treasuries.contains_key(pid) {
        lemma_balance_within_holdings(s.treasuries, pid);
        lemma_holdings_insert(s.treasuries, pid, s.refunded(pid, paid).treasuries[pid]);
    }
}

/// Closing a treasury moves its tokens to the reserve and keeps the supply.
pub proof fn law_liquidation_conserves(s: BankState, pid: i32)
    requires
        s.wf(),
    ensures
        s.liquidated(pid).wf(),
{
    if s.treasuries.contains_key(pid) {
        lemma_holdings_remove(s.treasuries, pid);
    }
}

/// A transfer request leaves the reserve, the sum of all balances and the supply
/// as they are.
pub proof fn law_transfer_conserves(s: BankState, parent: i32, child: i32, amount: u64)
    requires
        s.wf(),
    ensures
        s.transferred(parent, child, amount).wf(),
        s.transferred(parent, child, amount).reserve == s.reserve,
        holdings(s.transferred(parent, child, amount).treasuries) == holdings(s.treasuries),
{
    if s.transfer_allowed(parent, child, amount) && parent != child {
        let p = s.treasuries[parent];
        let c = s.treasuries[child];
        let debited = Treasury { balance: (p.balance - amount) as u64, ..p };
        lemma_two_balances_within_holdings(s.treasuries, parent, child);
        lemma_holdings_insert(s.treasuries, parent, debited);
        lemma_holdings_insert(
            s.treasuries.insert(parent, debited),
            child,
            Treasury { balance: (c.balance + amount) as u64, ..c },
        );
    }
}

/// Taxes move tokens to the reserve and keep the supply, however high they are.
pub proof fn law_taxes_conserve(s: BankState, taxes: Map<i32, u64>)
    requires
        s.wf(),
    ensures
        s.taxed(taxes).wf(),
        s.taxed(taxes).reserve >= s.reserve,
{
    let after = s.taxed_treasuries(taxes);
    assert(after.dom() =~= s.treasuries.dom());
    lemma_holdings_shrink(s.treasuries, after);
    lemma_holdings_nonnegative(after);
}

/// A haircut moves tokens to the reserve and keeps the supply.
pub proof fn law_haircut_conserves(s: BankState)
    requires
        s.wf(),
    ensures
        s.slashed().wf(),
        s.slashed().reserve >= s.reserve,
{
    let after = s.slashed_treasuries();
    assert(after.dom() =~= s.treasuries.dom());
    lemma_holdings_shrink(s.treasuries, after);
    lemma_holdings_nonnegative(after);
}

/// Adding one process to a count of class members, or none.
proof fn lemma_members_step(m: Map<i32, Treasury>, class: u8, pid: i32)
    requires
        m.dom().finite(),
    ensures
        members_below(m, class, pid as int).finite(),
        members_below(m, class, pid + 1).finite(),
        m.contains_key(pid) && m[pid].process_class == class ==> members_below(
            m,
            class,
            pid + 1,
        ).len() == members_below(m, class, pid as int).len() + 1,
        !(m.contains_key(pid) && m[pid].process_class == class) ==> members_below(
            m,
            class,
            pid + 1,
        ) == members_below(m, class, pid as int),
{
    let below = members_below(m, class, pid as int);
    let upto = members_below(m, class, pid + 1);
    if m.contains_key(pid) && m[pid].process_class == class {
        assert(upto =~= below.insert(pid));
    } else {
        assert(upto =~= below);
    }
}

/// Paying one more process a share, as far as the reserve goes.
proof fn lemma_paid_out_step(reserve: int, share: int, n: int)
    requires
        reserve >= 0,
        share >= 0,
        n >= 0,
    ensures
        0 <= paid_out(reserve, share, n) <= reserve,
        paid_out(reserve, share, n + 1) == paid_out(reserve, share, n) + lesser(
            share,
            reserve - paid_out(reserve, share, n),
        ),
{
    assert(n * share >= 0) by (nonlinear_arith)
        requires
            n >= 0,
            share >= 0,
    ;
    assert((n + 1) * share == n * share + share) by (nonlinear_arith);
}

/// Handing tokens out process by process: the holdings grow by what was paid out.
proof fn lemma_funding_below(s: BankState, class: u8, tokens: u64, bound: int)
    requires
        s.wf(),
        i32::MIN <= bound <= pid_end(),
    ensures
        ({
            let m = s.treasuries;
            let after = updated_below(m, s.funded_treasuries(class, tokens), bound);
            let share = equal_share(m, class, tokens);
            let n = members_below(m, class, bound).len() as int;
            &&& share >= 0
            &&& members_below(m, class, bound).finite()
            &&& after.dom() == m.dom()
            &&& holdings(after) == holdings(m) + paid_out(s.reserve, share, n)
            &&& 0 <= paid_out(s.reserve, share, n) <= s.reserve
            &&& forall|pid: i32|
                pid < bound && #[trigger] m.contains_key(pid) ==> m[pid].balance + s.grant(
                    class,
                    tokens,
                    pid,
                ) <= u64::MAX && s.grant(class, tokens, pid) >= 0
        }),
    decreases bound - i32::MIN,
{
    let m = s.treasuries;
    let target = s.funded_treasuries(class, tokens);
    let share = equal_share(m, class, tokens);
    let size = if class_size(m, class) > 0 {
        class_size(m, class)
    } else {
        1
    };
    assert(tokens as int / size >= 0) by (nonlinear_arith)
        requires
            size > 0,
            tokens >= 0,
    ;
    let after = updated_below(m, target, bound);
    assert(after.dom() =~= m.dom());
    if bound == i32::MIN {
        assert(members_below(m, class, bound) =~= Set::empty());
        assert(after =~= m);
        assert(0 * share == 0);
    } else {
        let pid = (bound - 1) as i32;
        lemma_funding_below(s, class, tokens, pid as int);
        lemma_members_step(m, class, pid);
        let before = updated_below(m, target, pid as int);
        let n = members_below(m, class, pid as int).len() as int;
        lemma_paid_out_step(s.reserve, share, n);
        if m.contains_key(pid) {
            assert(after =~= before.insert(pid, target[pid]));
            lemma_holdings_insert(before, pid, target[pid]);
            lemma_balance_within_holdings(before, pid);
            assert(before[pid] == m[pid]);
        } else {
            assert(after =~= before);
        }
    }
}

/// Handing tokens out to a class moves them from the reserve and keeps the
/// supply: no decision can mint tokens.
pub proof fn law_funding_conserves(s: BankState, class: u8, tokens: u64)
    requires
        s.wf(),
    ensures
        s.funded(class, tokens).wf(),
        s.funded(class, tokens).reserve <= s.reserve,
        s.reserve - s.funded(class, tokens).reserve <= tokens,
        s.treasuries.dom() == s.funded(class, tokens).treasuries.dom(),
        forall|pid: i32| #[trigger]
            s.treasuries.contains_key(pid) ==> s.funded(class, tokens).treasuries[pid].balance
                == s.treasuries[pid].balance + s.grant(class, tokens, pid),
{
    let m = s.treasuries;
    lemma_funding_below(s, class, tokens, pid_end());
    assert(updated_below(m, s.funded_treasuries(class, tokens), pid_end())
        =~= s.funded_treasuries(class, tokens));
    assert(s.funded(class, tokens).treasuries.dom() =~= m.dom());
    let n = class_size(m, class);
    let share = equal_share(m, class, tokens);
    if n > 0 {
        assert(n * (tokens as int / n) <= tokens) by (nonlinear_arith)
            requires
                n > 0,
                tokens >= 0,
        ;
    } else {
        assert(n * share == 0) by (nonlinear_arith)
            requires
                n == 0,
        ;
    }
}

/// What a process is granted is never negative and never more than an equal share;
/// only processes of the class are granted anything.
pub proof fn law_grants_are_shares(s: BankState, class: u8, tokens: u64, pid: i32)
    requires
        s.wf(),
        s.treasuries.contains_key(pid),
    ensures
        0 <= s.grant(class, tokens, pid) <= equal_share(s.treasuries, class, tokens),
        s.treasuries[pid].process_class != class ==> s.grant(class, tokens, pid) == 0,
        s.funded(class, tokens).treasuries[pid].balance == s.treasuries[pid].balance + s.grant(
            class,
            tokens,
            pid,
        ),
{
    lemma_funding_below(s, class, tokens, pid_end());
}

/// Refunding what a charge took restores the bank, whatever the process could pay.
pub proof fn law_refund_undoes_charge(s: BankState, pid: i32, price: u64)
    requires
        s.wf(),
        s.spend_fits(pid, price),
    ensures
        s.charged(pid, price).refunded(pid, s.cost(pid, price) as u64) == s,
{
    assert(s.charged(pid, price).refunded(pid, s.cost(pid, price) as u64).treasuries
        =~= s.treasuries);
}

/// A haircut leaves nobody with more, and takes nobody below the standard baseline of
/// their class who was not below it before.
pub proof fn law_haircut_bounds(s: BankState, pid: i32)
    requires
        s.treasuries.contains_key(pid),
    ensures
        s.slashed().treasuries.contains_key(pid),
        s.slashed().treasuries[pid].balance <= s.treasuries[pid].balance,
        s.treasuries[pid].balance >= sheltered(s.treasuries[pid].process_class)
            ==> s.slashed().treasuries[pid].balance >= sheltered(s.treasuries[pid].process_class),
        s.treasuries[pid].balance <= sheltered(s.treasuries[pid].process_class)
            ==> s.slashed().treasuries[pid] == s.treasuries[pid],
{
}

/// A tax leaves nobody with more and changes nothing but balances.
pub proof fn law_tax_bounds(s: BankState, taxes: Map<i32, u64>, pid: i32)
    requires
        s.treasuries.contains_key(pid),
    ensures
        s.taxed(taxes).treasuries.contains_key(pid),
        s.taxed(taxes).treasuries[pid].balance <= s.treasuries[pid].balance,
        s.taxed(taxes).treasuries[pid].total_spent == s.treasuries[pid].total_spent,
        s.taxed(taxes).treasuries[pid].process_class == s.treasuries[pid].process_class,
{
}

/// Something that happens to the accounts.
pub enum MarketEvent {
    /// A process is admitted with a class under a baseline.
    Admission(i32, u8, u64),
    /// A process is charged a price.
    Charge(i32, u64),
    /// A process is given back what it paid.
    Refund(i32, u64),
    /// The treasury of a process is closed.
    Liquidation(i32),
    /// A parent asks to transfer an amount to a child.
    Transfer(i32, i32, u64),
    /// Taxes are collected.
    Taxes(Map<i32, u64>),
    /// Excess balances are slashed.
    Haircut,
    /// Tokens are handed out to a class.
    Funding(u8, u64),
}

impl BankState {
    /// Whether `event` can happen now: nobody is admitted twice, and spending records
    /// stay within 64 bits.
    pub open spec fn permits(self, event: MarketEvent) -> bool {
        match event {
            MarketEvent::Admission(pid, class, baseline) => !self.treasuries.contains_key(pid),
            MarketEvent::Charge(pid, price) => self.spend_fits(pid, price),
            _ => true,
        }
    }

    /// After `event`.
    pub open spec fn after_event(self, event: MarketEvent) -> BankState {
        match event {
            MarketEvent::Admission(pid, class, baseline) => self.admitted(pid, class, baseline),
            MarketEvent::Charge(pid, price) => self.charged(pid, price),
            MarketEvent::Refund(pid, paid) => self.refunded(pid, paid),
            MarketEvent::Liquidation(pid) => self.liquidated(pid),
            MarketEvent::Transfer(parent, child, amount) => self.transferred(
                parent,
                child,
                amount,
            ),
            MarketEvent::Taxes(taxes) => self.taxed(taxes),
            MarketEvent::Haircut => self.slashed(),
            MarketEvent::Funding(class, tokens) => self.funded(class, tokens),
        }
    }

    /// After all of `events`, in order.
    pub open spec fn after_events(self, events: Seq<MarketEvent>) -> BankState
        decreases events.len(),
    {
        if events.len() == 0 {
            self
        } else {
            self.after_events(events.drop_last()).after_event(events.last())
        }
    }

    /// Whether all of `events` can happen one after the other.
    pub open spec fn permits_all(self, events: Seq<MarketEvent>) -> bool
        decreases events.len(),
    {
        events.len() > 0 ==> self.permits_all(events.drop_last()) && self.after_events(
            events.drop_last(),
        ).permits(events.last())
    }
}

/// The token supply is conserved at all times: whatever happens to the accounts, the
/// balances and the reserve add up to the supply that there was at the start.
pub proof fn law_supply_is_conserved(s: BankState, events: Seq<MarketEvent>)
    requires
        s.wf(),
        s.permits_all(events),
    ensures
        s.after_events(events).wf(),
        s.after_events(events).total_supply == s.total_supply,
        holdings(s.after_events(events).treasuries) + s.after_events(events).reserve
            == s.total_supply,
    decreases events.len(),
{
    if events.len() > 0 {
        law_supply_is_conserved(s, events.drop_last());
        let before = s.after_events(events.drop_last());
        match events.last() {
            MarketEvent::Admission(pid, class, baseline) => law_admission_conserves(
                before,
                pid,
                class,
                baseline,
            ),
            MarketEvent::Charge(pid, price) => law_charge_conserves(before, pid, price),
            MarketEvent::Refund(pid, paid) => law_refund_conserves(before, pid, paid),
            MarketEvent::Liquidation(pid) => law_liquidation_conserves(before, pid),
            MarketEvent::Transfer(parent, child, amount) => law_transfer_conserves(
                before,
                parent,
                child,
                amount,
            ),
            MarketEvent::Taxes(taxes) => law_taxes_conserve(before, taxes),
            MarketEvent::Haircut => law_haircut_conserves(before),
            MarketEvent::Funding(class, tokens) => law_funding_conserves(before, class, tokens),
        }
    }
}

/// Counting class members along a walk over all processes.
proof fn lemma_members_walk(m: Map<i32, Treasury>, class: u8, pids: Seq<i32>, i: int)
    requires
        m.dom().finite(),
        ascending_keys(pids, m),
        0 <= i <= pids.len(),
    ensures
        i == 0 ==> members_below(m, class, walk_bound(pids, i)) == Set::<i32>::empty(),
        members_below(m, class, walk_bound(pids, i)).finite(),
        members_below(m, class, walk_bound(pids, i)).len() <= i,
        i < pids.len() ==> members_below(m, class, walk_bound(pids, i + 1)).len()
            == members_below(m, class, walk_bound(pids, i)).len() + if m[pids[i]].process_class
            == class {
            1nat
        } else {
            0nat
        },
    decreases i,
{
    if i == 0 {
        assert forall|pid: i32| #[trigger] m.contains_key(pid) implies pid >= walk_bound(
            pids,
            0,
        ) by {
            assert(pids.contains(pid));
            let j = choose|j: int| 0 <= j < pids.len() && pids[j] == pid;
        }
        assert(members_below(m, class, walk_bound(pids, 0)) =~= Set::<i32>::empty());
    } else {
        lemma_members_walk(m, class, pids, i - 1);
    }
    if i < pids.len() {
        lemma_members_step(m, class, pids[i]);
        assert forall|pid: i32| #[trigger] m.contains_key(pid) implies (pid < walk_bound(
            pids,
            i + 1,
        ) <==> pid < pids[i] + 1) by {
            assert(pids.contains(pid));
            let j = choose|j: int| 0 <= j < pids.len() && pids[j] == pid;
        }
        assert(members_below(m, class, walk_bound(pids, i + 1)) =~= members_below(
            m,
            class,
            pids[i] + 1,
        ));
    }
}

/// The token accounts of all processes.
pub struct Bank {
    treasuries: BTreeMap<i32, Treasury>,
    reserve: u64,
    total_supply: u64,
}

impl View for Bank {
    type V = BankState;

    closed spec fn view(&self) -> BankState {
        BankState {
            treasuries: self.treasuries@,
            reserve: self.reserve as int,
            total_supply: self.total_supply as int,
        }
    }
}

/// The outcome of adding up all tokens.
#[derive(Clone, Copy, Debug, PartialEq, Eq, Structural)]
pub struct SupplyAudit {
    /// Tokens in treasuries.
    pub in_treasuries: u64,
    /// Tokens in the reserve.
    pub reserve: u64,
    /// Tokens found.
    pub total: u64,
    /// Tokens that there should be.
    pub expected: u64,
}

impl Bank {
    /// Opens a bank whose whole supply is in the reserve.
    pub fn new(total_supply: u64) -> (bank: Bank)
        ensures
            bank@ == BankState::opened(total_supply),
            bank@.wf(),
    {
        Bank { treasuries: BTreeMap::new(), reserve: total_supply, total_supply }
    }

    /// Tokens that no process holds.
    pub fn reserve(&self) -> (reserve: u64)
        ensures
            reserve == self@.reserve,
    {
        self.reserve
    }

    /// All tokens there are.
    pub fn total_supply(&self) -> (total: u64)
        ensures
            total == self@.total_supply,
    {
        self.total_supply
    }

    /// Tokens that processes hold.
    pub fn circulating(&self) -> (tokens: u64)
        requires
            self@.wf(),
        ensures
            tokens == self@.total_supply - self@.reserve,
            tokens == holdings(self@.treasuries),
    {
        proof {
            lemma_holdings_nonnegative(self@.treasuries);
        }
        self.total_supply - self.reserve
    }

    /// The treasury of `pid`, if it was admitted.
    pub fn treasury(&self, pid: i32) -> (treasury: Option<Treasury>)
        ensures
            self@.treasuries.contains_key(pid) ==> treasury == Some(self@.treasuries[pid]),
            !self@.treasuries.contains_key(pid) ==> treasury is None,
    {
        match self.treasuries.get(&pid) {
            Some(t) => Some(*t),
            None => None,
        }
    }

    /// The admitted processes in ascending order.
    pub fn pids(&self) -> (pids: Vec<i32>)
        ensures
            ascending_keys(pids@, self@.treasuries),
            pids@.len() == self@.treasuries.len(),
    {
        keys_in_order(&self.treasuries)
    }

    /// Admits `pid` with what `baseline` entitles `class` to, as far as the reserve goes.
    pub fn open_treasury(&mut self, pid: i32, class: u8, baseline: u64)
        requires
            old(self)@.wf(),
            !old(self)@.treasuries.contains_key(pid),
        ensures
            final(self)@ == old(self)@.admitted(pid, class, baseline),
            final(self)@.wf(),
    {
        proof {
            law_admission_conserves(self@, pid, class, baseline);
        }
        let entitled: u64 = ipo_for_class(class, baseline);
        let ipo: u64 = if entitled <= self.reserve {
            entitled
        } else {
            self.reserve
        };
        self.reserve = self.reserve - ipo;
        let mut treasury = Treasury::new(class);
        treasury.balance = ipo;
        self.treasuries.insert(pid, treasury);
    }

    /// Whether the spending record of `pid` has room for `price`.
    pub fn spend_fits(&self, pid: i32, price: u64) -> (fits: bool)
        ensures
            fits == self@.spend_fits(pid, price),
    {
        match self.treasury(pid) {
            Some(t) => {
                let cost: u64 = if price <= t.balance {
                    price
                } else {
                    t.balance
                };
                t.total_spent <= u64::MAX - cost
            },
            None => true,
        }
    }

    /// Makes `pid` pay `price` to the reserve, as far as its balance goes, and returns
    /// what it paid.
    pub fn charge(&mut self, pid: i32, price: u64) -> (paid: u64)
        requires
            old(self)@.wf(),
            old(self)@.spend_fits(pid, price),
        ensures
            paid == old(self)@.cost(pid, price),
            final(self)@ == old(self)@.charged(pid, price),
            final(self)@.wf(),
    {
        proof {
            law_charge_conserves(self@, pid, price);
            lemma_holdings_nonnegative(self@.charged(pid, price).treasuries);
        }
        match self.treasury(pid) {
            Some(t) => {
                let cost: u64 = if price <= t.balance {
                    price
                } else {
                    t.balance
                };
                self.treasuries.insert(
                    pid,
                    Treasury {
                        balance: t.balance - cost,
                        total_spent: t.total_spent + cost,
                        process_class: t.process_class,
                    },
                );
                self.reserve = self.reserve + cost;
                cost
            },
            None => 0,
        }
    }

    /// Gives back to `pid` the `paid` tokens that it paid: no more than it has spent, and
    /// no more than the reserve holds.
    pub fn refund(&mut self, pid: i32, paid: u64)
        requires
            old(self)@.wf(),
        ensures
            final(self)@ == old(self)@.refunded(pid, paid),
            final(self)@.wf(),
    {
        proof {
            law_refund_conserves(self@, pid, paid);
        }
        if let Some(t) = self.treasury(pid) {
            let claim: u64 = if paid <= t.total_spent {
                paid
            } else {
                t.total_spent
            };
            let refund: u64 = if claim <= self.reserve {
                claim
            } else {
                self.reserve
            };
            proof {
                lemma_balance_within_holdings(self@.treasuries, pid);
            }
            self.treasuries.insert(
                pid,
                Treasury {
                    balance: t.balance + refund,
                    total_spent: t.total_spent - refund,
                    process_class: t.process_class,
                },
            );
            self.reserve = self.reserve - refund;
        }
    }

    /// Closes the treasury of `pid` into the reserve and says whether there was one.
    pub fn liquidate(&mut self, pid: i32) -> (existed: bool)
        requires
            old(self)@.wf(),
        ensures
            existed == old(self)@.treasuries.contains_key(pid),
            final(self)@ == old(self)@.liquidated(pid),
            final(self)@.wf(),
    {
        proof {
            law_liquidation_conserves(self@, pid);
            lemma_holdings_nonnegative(self@.liquidated(pid).treasuries);
        }
        match self.treasuries.remove(&pid) {
            Some(t) => {
                self.reserve = self.reserve + t.balance;
                true
            },
            None => {
                assert(self@.treasuries =~= old(self)@.treasuries);
                false
            },
        }
    }

    /// Moves `amount` from `parent` to `child` if both were admitted and `parent`
    /// holds that much, and says whether it did.
    pub fn transfer(&mut self, parent: i32, child: i32, amount: u64) -> (allowed: bool)
        requires
            old(self)@.wf(),
        ensures
            allowed == old(self)@.transfer_allowed(parent, child, amount),
            final(self)@ == old(self)@.transferred(parent, child, amount),
            final(self)@.wf(),
    {
        proof {
            law_transfer_conserves(self@, parent, child, amount);
        }
        let p = match self.treasury(parent) {
            Some(t) => t,
            None => {
                return false;
            },
        };
        if p.balance < amount {
            return false;
        }
        let c = match self.treasury(child) {
            Some(t) => t,
            None => {
                return false;
            },
        };
        if parent != child {
            proof {
                lemma_two_balances_within_holdings(self@.treasuries, parent, child);
            }
            self.treasuries.insert(
                parent,
                Treasury {
                    balance: p.balance - amount,
                    total_spent: p.total_spent,
                    process_class: p.process_class,
                },
            );
            self.treasuries.insert(
                child,
                Treasury {
                    balance: c.balance + amount,
                    total_spent: c.total_spent,
                    process_class: c.process_class,
                },
            );
        }
        true
    }

    /// Writes the treasury that a walk over all processes has reached, and keeps the
    /// reserve in step.
    fn rewrite(&mut self, pid: i32, treasury: Treasury, reserve: u64)
        ensures
            final(self)@.treasuries == old(self)@.treasuries.insert(pid, treasury),
            final(self)@.reserve == reserve,
            final(self)@.total_supply == old(self)@.total_supply,
    {
        self.treasuries.insert(pid, treasury);
        self.reserve = reserve;
    }

    /// Collects `taxes` from each listed process, as far as its balance goes.
    pub fn levy(&mut self, taxes: &BTreeMap<i32, u64>)
        requires
            old(self)@.wf(),
        ensures
            final(self)@ == old(self)@.taxed(taxes@),
            final(self)@.wf(),
    {
        let ghost start = self@;
        let ghost before = start.treasuries;
        let ghost after = start.taxed_treasuries(taxes@);
        let pids: Vec<i32> = self.pids();
        proof {
            assert(after.dom() =~= before.dom());
            law_taxes_conserve(start, taxes@);
            lemma_updated_ends(before, after, pids@);
        }
        let mut i: usize = 0;
        while i < pids.len()
            invariant
                i <= pids.len(),
                start.wf(),
                before == start.treasuries,
                after == start.taxed_treasuries(taxes@),
                after.dom() == before.dom(),
                ascending_keys(pids@, before),
                self@.treasuries == updated_below(before, after, walk_bound(pids@, i as int)),
                self@.total_supply == start.total_supply,
                self@.wf(),
            decreases pids.len() - i,
        {
            let pid: i32 = pids[i];
            proof {
                lemma_updated_step(before, after, pids@, i as int);
                lemma_balance_within_holdings(self@.treasuries, pid);
                lemma_holdings_insert(self@.treasuries, pid, after[pid]);
                lemma_holdings_nonnegative(self@.treasuries.insert(pid, after[pid]));
            }
            if let Some(t) = self.treasury(pid) {
                let due: u64 = match taxes.get(&pid) {
                    Some(tax) => *tax,
                    None => 0,
                };
                let tax: u64 = if due <= t.balance {
                    due
                } else {
                    t.balance
                };
                let treasury = Treasury {
                    balance: t.balance - tax,
                    total_spent: t.total_spent,
                    process_class: t.process_class,
                };
                assert(treasury == after[pid]);
                let reserve: u64 = self.reserve + tax;
                self.rewrite(pid, treasury, reserve);
            }
            i = i + 1;
        }
    }

    /// Takes nine tenths of what each process holds above the standard baseline of its
    /// class.
    pub fn haircut(&mut self)
        requires
            old(self)@.wf(),
        ensures
            final(self)@ == old(self)@.slashed(),
            final(self)@.wf(),
    {
        let ghost start = self@;
        let ghost before = start.treasuries;
        let ghost after = start.slashed_treasuries();
        let pids: Vec<i32> = self.pids();
        proof {
            assert(after.dom() =~= before.dom());
            law_haircut_conserves(start);
            lemma_updated_ends(before, after, pids@);
        }
        let mut i: usize = 0;
        while i < pids.len()
            invariant
                i <= pids.len(),
                start.wf(),
                before == start.treasuries,
                after == start.slashed_treasuries(),
                after.dom() == before.dom(),
                ascending_keys(pids@, before),
                self@.treasuries == updated_below(before, after, walk_bound(pids@, i as int)),
                self@.total_supply == start.total_supply,
                self@.wf(),
            decreases pids.len() - i,
        {
            let pid: i32 = pids[i];
            proof {
                lemma_updated_step(before, after, pids@, i as int);
                lemma_balance_within_holdings(self@.treasuries, pid);
                lemma_holdings_insert(self@.treasuries, pid, after[pid]);
                lemma_holdings_nonnegative(self@.treasuries.insert(pid, after[pid]));
            }
            if let Some(t) = self.treasury(pid) {
                let slash: u64 = slash_for(t.balance, t.process_class);
                let treasury = Treasury {
                    balance: t.balance - slash,
                    total_spent: t.total_spent,
                    process_class: t.process_class,
                };
                assert(treasury == after[pid]);
                let reserve: u64 = self.reserve + slash;
                self.rewrite(pid, treasury, reserve);
            }
            i = i + 1;
        }
    }

    /// The number of processes of `class`.
    pub fn count_class(&self, class: u8) -> (count: u64)
        ensures
            count == class_size(self@.treasuries, class),
    {
        let pids: Vec<i32> = self.pids();
        let mut count: u64 = 0;
        let mut i: usize = 0;
        proof {
            lemma_members_walk(self@.treasuries, class, pids@, 0);
        }
        while i < pids.len()
            invariant
                i <= pids.len(),
                self@.treasuries.dom().finite(),
                ascending_keys(pids@, self@.treasuries),
                count == members_below(
                    self@.treasuries,
                    class,
                    walk_bound(pids@, i as int),
                ).len(),
                count <= i,
            decreases pids.len() - i,
        {
            proof {
                lemma_members_walk(self@.treasuries, class, pids@, i as int);
            }
            if let Some(t) = self.treasury(pids[i]) {
                if t.process_class == class {
                    count = count + 1;
                }
            }
            i = i + 1;
        }
        count
    }

    /// Hands `tokens` out to the processes of `class` in equal shares, in ascending
    /// order of process id, as far as the reserve goes.
    pub fn fund(&mut self, class: u8, tokens: u64)
        requires
            old(self)@.wf(),
        ensures
            final(self)@ == old(self)@.funded(class, tokens),
            final(self)@.wf(),
    {
        let ghost start = self@;
        let ghost before = start.treasuries;
        let ghost after = start.funded_treasuries(class, tokens);
        let pids: Vec<i32> = self.pids();
        let count: u64 = self.count_class(class);
        let share: u64 = if count > 0 {
            tokens / count
        } else {
            tokens
        };
        proof {
            assert(share == equal_share(before, class, tokens));
            assert(after.dom() =~= before.dom());
            law_funding_conserves(start, class, tokens);
            lemma_updated_ends(before, after, pids@);
            lemma_members_walk(before, class, pids@, 0);
            lemma_paid_out_step(start.reserve, share as int, 0);
        }
        let mut i: usize = 0;
        while i < pids.len()
            invariant
                i <= pids.len(),
                start.wf(),
                before == start.treasuries,
                after == start.funded_treasuries(class, tokens),
                after.dom() == before.dom(),
                ascending_keys(pids@, before),
                share == equal_share(before, class, tokens),
                self@.treasuries == updated_below(before, after, walk_bound(pids@, i as int)),
                self@.total_supply == start.total_supply,
                self@.wf(),
                self@.reserve == start.reserve - paid_out(
                    start.reserve,
                    share as int,
                    members_below(before, class, walk_bound(pids@, i as int)).len() as int,
                ),
            decreases pids.len() - i,
        {
            let pid: i32 = pids[i];
            proof {
                lemma_updated_step(before, after, pids@, i as int);
                lemma_members_walk(before, class, pids@, i as int);
                lemma_paid_out_step(
                    start.reserve,
                    share as int,
                    members_below(before, class, walk_bound(pids@, i as int)).len() as int,
                );
                lemma_balance_within_holdings(self@.treasuries, pid);
                lemma_holdings_insert(self@.treasuries, pid, after[pid]);
                lemma_holdings_nonnegative(self@.treasuries.insert(pid, after[pid]));
            }
            if let Some(t) = self.treasury(pid) {
                if t.process_class == class {
                    let available: u64 = if share <= self.reserve {
                        share
                    } else {
                        self.reserve
                    };
                    let treasury = Treasury {
                        balance: t.balance + available,
                        total_spent: t.total_spent,
                        process_class: t.process_class,
                    };
                    assert(treasury == after[pid]);
                    let reserve: u64 = self.reserve - available;
                    self.rewrite(pid, treasury, reserve);
                } else {
                    assert(after[pid] == before[pid]);
                    assert(self@.treasuries.insert(pid, after[pid]) =~= self@.treasuries);
                }
            }
            i = i + 1;
        }
    }

    /// Adds up all tokens.
    pub fn audit(&self) -> (audit: SupplyAudit)
        requires
            self@.wf(),
        ensures
            audit.in_treasuries == holdings(self@.treasuries),
            audit.reserve == self@.reserve,
            audit.total == audit.in_treasuries + audit.reserve,
            audit.expected == self@.total_supply,
            audit.total == audit.expected,
    {
        let pids: Vec<i32> = self.pids();
        let ghost m = self@.treasuries;
        let ghost mut rest = m;
        let mut sum: u64 = 0;
        let mut i: usize = 0;
        proof {
            lemma_updated_ends(m, m, pids@);
        }
        while i < pids.len()
            invariant
                i <= pids.len(),
                m == self@.treasuries,
                self@.wf(),
                ascending_keys(pids@, m),
                rest.dom().finite(),
                forall|pid: i32| #[trigger]
                    rest.contains_key(pid) <==> m.contains_key(pid) && pid >= walk_bound(
                        pids@,
                        i as int,
                    ),
                forall|pid: i32| #[trigger] rest.contains_key(pid) ==> rest[pid] == m[pid],
                sum + holdings(rest) == holdings(m),
            decreases pids.len() - i,
        {
            let pid: i32 = pids[i];
            proof {
                assert(rest.contains_key(pid));
                lemma_holdings_remove(rest, pid);
                lemma_holdings_nonnegative(rest.remove(pid));
                assert forall|p: i32| #[trigger] m.contains_key(p) implies (p >= walk_bound(
                    pids@,
                    i + 1,
                ) <==> p > pid) by {
                    assert(pids@.contains(p));
                    let j = choose|j: int| 0 <= j < pids@.len() && pids@[j] == p;
                }
                rest = rest.remove(pid);
            }
            if let Some(t) = self.treasury(pid) {
                sum = sum + t.balance;
            }
            i = i + 1;
        }
        proof {
            assert(rest.dom() =~= Set::<i32>::empty());
        }
        SupplyAudit {
            in_treasuries: sum,
            reserve: self.reserve,
            total: sum + self.reserve,
            expected: self.total_supply,
        }
    }
}

/// The part of a balance of `class` above its standard baseline that a haircut takes.
pub fn slash_for(balance: u64, class: u8) -> (slash: u64)
    ensures
        slash == haircut_slash(balance, class),
{
    let baseline: u64 = ipo_for_class(class, IPO_BASELINE);
    if balance > baseline {
        let excess: u64 = balance - baseline;
        // Nine tenths rounded down, without leaving the range of `u64`.
        (excess / 10) * 9 + (excess % 10) * 9 / 10
    } else {
        0
    }
}

/// A new process gets its entitlement out of the reserve: twice the baseline for an
/// interactive process, half of it for a batch process, nothing for a real-time process
/// and the baseline for any other. Where the reserve holds less, it gets all of it. It has
/// spent nothing, and nobody else is touched.
pub proof fn law_admission_pays_entitlement(
    s: BankState,
    pid: i32,
    other: i32,
    class: u8,
    baseline: u64,
)
    requires
        s.wf(),
        !s.treasuries.contains_key(pid),
    ensures
        ({
            let after = s.admitted(pid, class, baseline);
            let t = after.treasuries[pid];
            &&& after.treasuries.contains_key(pid)
            &&& t.total_spent == 0
            &&& t.process_class == class
            &&& after.reserve + t.balance == s.reserve
            &&& after.total_supply == s.total_supply
            &&& class == 0 && 2 * baseline <= s.reserve ==> t.balance == 2 * baseline
            &&& class == 0 && 2 * baseline > s.reserve ==> after.reserve == 0
            &&& class == 1 && baseline / 2 <= s.reserve ==> 0 <= baseline - 2 * t.balance <= 1
            &&& class == 1 && baseline / 2 > s.reserve ==> after.reserve == 0
            &&& class == 3 ==> t.balance == 0
            &&& (class == 2 || class >= 4) && baseline <= s.reserve ==> t.balance == baseline
            &&& (class == 2 || class >= 4) && baseline > s.reserve ==> after.reserve == 0
            &&& other != pid ==> (after.treasuries.contains_key(other)
                <==> s.treasuries.contains_key(other)) && after.treasuries[other]
                == s.treasuries[other]
        }),
{
    lemma_holdings_nonnegative(s.treasuries);
}

/// A charge takes the price, or the whole balance where that is less, and what it takes
/// leaves the balance, joins the spending record and joins the reserve. Nobody else is
/// touched, and a process without a treasury pays nothing.
pub proof fn law_charge_takes_price(s: BankState, pid: i32, other: i32, price: u64)
    requires
        s.wf(),
        s.spend_fits(pid, price),
    ensures
        ({
            let t = s.treasuries[pid];
            let after = s.charged(pid, price);
            let a = after.treasuries[pid];
            let paid = s.cost(pid, price);
            &&& s.treasuries.contains_key(pid) ==> {
                &&& after.treasuries.contains_key(pid)
                &&& price <= t.balance ==> paid == price
                &&& price > t.balance ==> paid == t.balance
                &&& a.balance + paid == t.balance
                &&& a.total_spent == t.total_spent + paid
                &&& a.process_class == t.process_class
                &&& after.reserve == s.reserve + paid
                &&& after.total_supply == s.total_supply
            }
            &&& !s.treasuries.contains_key(pid) ==> paid == 0 && after == s
            &&& other != pid ==> (after.treasuries.contains_key(other)
                <==> s.treasuries.contains_key(other)) && after.treasuries[other]
                == s.treasuries[other]
        }),
{
}

/// A spending record has room for a price if and only if what is paid of it keeps the
/// record within 64 bits.
pub proof fn law_spending_record_has_room(s: BankState, pid: i32, price: u64)
    ensures
        !s.treasuries.contains_key(pid) ==> s.spend_fits(pid, price),
        s.treasuries.contains_key(pid) && price <= s.treasuries[pid].balance ==> (s.spend_fits(
            pid,
            price,
        ) <==> s.treasuries[pid].total_spent + price <= u64::MAX),
        s.treasuries.contains_key(pid) && price > s.treasuries[pid].balance ==> (s.spend_fits(
            pid,
            price,
        ) <==> s.treasuries[pid].total_spent + s.treasuries[pid].balance <= u64::MAX),
{
}

/// A refund moves tokens from the reserve back to the balance and off the spending record:
/// all that was paid where record and reserve cover it, and else as much as both cover.
/// Nobody else is touched.
pub proof fn law_refund_gives_back(s: BankState, pid: i32, other: i32, paid: u64)
    requires
        s.wf(),
    ensures
        ({
            let t = s.treasuries[pid];
            let after = s.refunded(pid, paid);
            let a = after.treasuries[pid];
            &&& s.treasuries.contains_key(pid) ==> {
                &&& after.treasuries.contains_key(pid)
                &&& a.balance - t.balance == t.total_spent - a.total_spent
                &&& a.balance - t.balance == s.reserve - after.reserve
                &&& a.balance >= t.balance
                &&& a.balance <= t.balance + paid
                &&& a.balance < t.balance + paid ==> a.total_spent == 0 || after.reserve == 0
                &&& a.process_class == t.process_class
                &&& after.total_supply == s.total_supply
            }
            &&& !s.treasuries.contains_key(pid) ==> after == s
            &&& other != pid ==> (after.treasuries.contains_key(other)
                <==> s.treasuries.contains_key(other)) && after.treasuries[other]
                == s.treasuries[other]
        }),
{
    if s.treasuries.contains_key(pid) {
        lemma_balance_within_holdings(s.treasuries, pid);
    }
}

/// Closing a treasury moves its whole balance to the reserve; nobody else is touched.
pub proof fn law_liquidation_returns_balance(s: BankState, pid: i32, other: i32)
    ensures
        ({
            let after = s.liquidated(pid);
            &&& !after.treasuries.contains_key(pid)
            &&& s.treasuries.contains_key(pid) ==> after.reserve == s.reserve
                + s.treasuries[pid].balance
            &&& !s.treasuries.contains_key(pid) ==> after.reserve == s.reserve
            &&& after.total_supply == s.total_supply
            &&& other != pid ==> (after.treasuries.contains_key(other)
                <==> s.treasuries.contains_key(other)) && after.treasuries[other]
                == s.treasuries[other]
        }),
{
}

/// A transfer is allowed if and only if both processes have a treasury and the parent holds
/// the amount. It then takes the amount from the parent and gives it to the child; spending
/// records, classes and everybody else stay, and so does all where it is not allowed or
/// where parent and child are one.
pub proof fn law_transfer_moves_amount(
    s: BankState,
    parent: i32,
    child: i32,
    other: i32,
    amount: u64,
)
    requires
        s.wf(),
    ensures
        ({
            let m = s.treasuries;
            let after = s.transferred(parent, child, amount);
            let holds = m.contains_key(parent) && m.contains_key(child) && m[parent].balance
                >= amount;
            &&& s.transfer_allowed(parent, child, amount) <==> holds
            &&& holds && parent != child ==> {
                &&& after.treasuries[parent].balance + amount == m[parent].balance
                &&& after.treasuries[child].balance == m[child].balance + amount
                &&& after.treasuries[parent].total_spent == m[parent].total_spent
                &&& after.treasuries[child].total_spent == m[child].total_spent
                &&& after.treasuries[parent].process_class == m[parent].process_class
                &&& after.treasuries[child].process_class == m[child].process_class
            }
            &&& !holds || parent == child ==> after == s
            &&& after.reserve == s.reserve
            &&& after.total_supply == s.total_supply
            &&& after.treasuries.dom() == m.dom()
            &&& other != parent && other != child ==> after.treasuries[other] == m[other]
        }),
{
    if s.transfer_allowed(parent, child, amount) && parent != child {
        lemma_two_balances_within_holdings(s.treasuries, parent, child);
        assert(s.transferred(parent, child, amount).treasuries.dom() =~= s.treasuries.dom());
    }
}

/// Every process that is listed pays its tax, whatever its class: the balance afterwards
/// and the tax add up to the balance before, or nothing is left where the tax is higher.
/// One that is not listed keeps its balance. What is paid goes to the reserve.
pub proof fn law_taxes_take_what_is_due(s: BankState, taxes: Map<i32, u64>, pid: i32)
    requires
        s.wf(),
        s.treasuries.contains_key(pid),
    ensures
        ({
            let before = s.treasuries[pid];
            let after = s.taxed(taxes).treasuries[pid];
            &&& taxes.contains_key(pid) && taxes[pid] <= before.balance ==> after.balance
                + taxes[pid] == before.balance
            &&& taxes.contains_key(pid) && taxes[pid] > before.balance ==> after.balance == 0
            &&& !taxes.contains_key(pid) ==> after.balance == before.balance
            &&& after.total_spent == before.total_spent
            &&& after.process_class == before.process_class
            &&& s.taxed(taxes).treasuries.dom() == s.treasuries.dom()
            &&& s.taxed(taxes).total_supply == s.total_supply
            &&& s.taxed(taxes).reserve + holdings(s.taxed(taxes).treasuries) == s.reserve
                + holdings(s.treasuries)
        }),
{
    assert(s.taxed(taxes).treasuries.dom() =~= s.treasuries.dom());
}

/// A tax on one process alone moves exactly that tax to the reserve.
pub proof fn law_single_tax_reaches_reserve(s: BankState, pid: i32, tax: u64)
    requires
        s.wf(),
        s.treasuries.contains_key(pid),
        tax <= s.treasuries[pid].balance,
    ensures
        s.taxed(map![pid => tax]).reserve == s.reserve + tax,
{
    let after = s.taxed(map![pid => tax]);
    let t = s.treasuries[pid];
    assert(after.treasuries =~= s.treasuries.insert(
        pid,
        Treasury { balance: (t.balance - tax) as u64, ..t },
    ));
    lemma_holdings_insert(s.treasuries, pid, after.treasuries[pid]);
}

/// A haircut takes nine tenths, rounded down, of what a process holds above the standard
/// baseline of its class: 2,000 tokens for an interactive process, 500 for a batch process,
/// none for a real-time process and 1,000 for any other. It takes nothing from a process
/// that holds no more than that.
pub proof fn law_haircut_takes_nine_tenths(balance: u64, class: u8)
    ensures
        ({
            let baseline = if class == 0 {
                2_000int
            } else if class == 1 {
                500
            } else if class == 3 {
                0
            } else {
                1_000
            };
            let taken = haircut_slash(balance, class);
            &&& balance > baseline ==> 10 * taken <= 9 * (balance - baseline) < 10 * (taken + 1)
            &&& balance <= baseline ==> taken == 0
        }),
{
}

/// A haircut takes from every treasury what its balance and class call for, changes nothing
/// else in it, and moves all of it to the reserve.
pub proof fn law_haircut_reaches_everybody(s: BankState, pid: i32)
    requires
        s.wf(),
        s.treasuries.contains_key(pid),
    ensures
        ({
            let before = s.treasuries[pid];
            let after = s.slashed().treasuries[pid];
            let taken = before.balance - after.balance;
            &&& (before.process_class == 2 || before.process_class >= 4) && before.balance > 1_000
                ==> 10 * taken <= 9 * (before.balance - 1_000) < 10 * (taken + 1)
            &&& before.process_class == 0 && before.balance > 2_000 ==> 10 * taken <= 9 * (
            before.balance - 2_000) < 10 * (taken + 1)
            &&& before.process_class == 1 && before.balance > 500 ==> 10 * taken <= 9 * (
            before.balance - 500) < 10 * (taken + 1)
            &&& before.process_class == 3 ==> 10 * taken <= 9 * before.balance < 10 * (taken + 1)
            &&& after.total_spent == before.total_spent
            &&& after.process_class == before.process_class
            &&& s.slashed().treasuries.dom() == s.treasuries.dom()
            &&& s.slashed().total_supply == s.total_supply
            &&& s.slashed().reserve + holdings(s.slashed().treasuries) == s.reserve + holdings(
                s.treasuries,
            )
        }),
{
    law_haircut_takes_nine_tenths(
        s.treasuries[pid].balance,
        s.treasuries[pid].process_class,
    );
    assert(s.slashed().treasuries.dom() =~= s.treasuries.dom());
}

/// The processes of a class are those with that class in their treasury, and its size is
/// their number.
pub proof fn law_class_size_counts(m: Map<i32, Treasury>, class: u8, members: Set<i32>)
    requires
        forall|pid: i32| #[trigger]
            members.contains(pid) <==> m.contains_key(pid) && m[pid].process_class == class,
    ensures
        class_size(m, class) == members.len(),
{
    assert(members_below(m, class, pid_end()) =~= members);
}

/// Where several processes share, an equal share is the largest whole number of tokens that
/// all of them can get.
proof fn lemma_share_bounds(m: Map<i32, Treasury>, class: u8, tokens: u64)
    requires
        class_size(m, class) > 0,
    ensures
        ({
            let n = class_size(m, class);
            let share = equal_share(m, class, tokens);
            share >= 0 && n * share <= tokens < n * (share + 1)
        }),
{
    let n = class_size(m, class);
    vstd::arithmetic::div_mod::lemma_fundamental_div_mod(tokens as int, n);
    vstd::arithmetic::div_mod::lemma_div_pos_is_pos(tokens as int, n);
    let share = tokens as int / n;
    assert(n * (share + 1) == n * share + n) by (nonlinear_arith);
}

/// Fewer members come before a process than before a later one.
proof fn lemma_members_before(m: Map<i32, Treasury>, class: u8, p: i32, bound: int)
    requires
        m.dom().finite(),
        m.contains_key(p),
        m[p].process_class == class,
        p < bound,
    ensures
        members_below(m, class, p as int).len() + 1 <= members_below(m, class, bound).len(),
{
    lemma_members_step(m, class, p);
    assert(members_below(m, class, p + 1).subset_of(members_below(m, class, bound)));
    assert(members_below(m, class, bound).subset_of(m.dom()));
    vstd::set_lib::lemma_set_subset_finite(m.dom(), members_below(m, class, bound));
    vstd::set_lib::lemma_len_subset(
        members_below(m, class, p + 1),
        members_below(m, class, bound),
    );
}

/// Tokens for a class are split into equal whole shares: `n` processes get the largest
/// number of which `n` fit into the tokens. A reserve that covers the tokens pays all of
/// these shares and no more. One that does not pays in order of process id until it is
/// empty: whoever gets anything follows on processes that got their full share.
pub proof fn law_funding_shares_equally(
    s: BankState,
    class: u8,
    tokens: u64,
    members: Set<i32>,
    p: i32,
    q: i32,
)
    requires
        s.wf(),
        forall|pid: i32| #[trigger]
            members.contains(pid) <==> s.treasuries.contains_key(pid)
                && s.treasuries[pid].process_class == class,
        members.contains(p),
        members.contains(q),
        p < q,
    ensures
        ({
            let n = members.len() as int;
            let after = s.funded(class, tokens);
            let got_p = after.treasuries[p].balance - s.treasuries[p].balance;
            let got_q = after.treasuries[q].balance - s.treasuries[q].balance;
            &&& n * got_p <= tokens
            &&& n * got_q <= tokens
            &&& tokens <= s.reserve ==> got_p == got_q && tokens < n * (got_p + 1)
            &&& tokens <= s.reserve ==> after.reserve == s.reserve - n * got_p
            &&& got_q > 0 ==> tokens < n * (got_p + 1)
            &&& n * (got_q + 1) <= tokens ==> after.reserve == 0
            &&& got_p >= got_q >= 0
        }),
{
    let m = s.treasuries;
    law_class_size_counts(m, class, members);
    assert(members_below(m, class, pid_end()) =~= members);
    lemma_members_before(m, class, p, q as int);
    lemma_members_before(m, class, q, pid_end());
    lemma_share_bounds(m, class, tokens);
    law_grants_are_shares(s, class, tokens, p);
    law_grants_are_shares(s, class, tokens, q);
    let n = members.len() as int;
    let share = equal_share(m, class, tokens);
    let before_p = members_below(m, class, p as int).len() as int;
    let before_q = members_below(m, class, q as int).len() as int;
    let got_p = s.grant(class, tokens, p);
    let got_q = s.grant(class, tokens, q);
    assert(before_p * share + share <= before_q * share && before_q * share + share <= n * share)
        by (nonlinear_arith)
        requires
            before_p + 1 <= before_q,
            before_q + 1 <= n,
            share >= 0,
    ;
    assert(0 <= before_p * share) by (nonlinear_arith)
        requires
            before_p >= 0,
            share >= 0,
    ;
    assert(n * got_p <= n * share && n * got_q <= n * share) by (nonlinear_arith)
        requires
            got_p <= share,
            got_q <= share,
            n >= 0,
    ;
}

/// The only process of a class gets all tokens that the reserve holds of those handed out.
pub proof fn law_funding_single_member(s: BankState, class: u8, tokens: u64, p: i32)
    requires
        s.wf(),
        s.treasuries.contains_key(p),
        s.treasuries[p].process_class == class,
        forall|pid: i32| #[trigger]
            s.treasuries.contains_key(pid) && s.treasuries[pid].process_class == class ==> pid == p,
    ensures
        ({
            let after = s.funded(class, tokens);
            let got = after.treasuries[p].balance - s.treasuries[p].balance;
            &&& tokens <= s.reserve ==> got == tokens
            &&& tokens > s.reserve ==> got == s.reserve
            &&& after.reserve == s.reserve - got
        }),
{
    let m = s.treasuries;
    law_class_size_counts(m, class, set![p]);
    assert(set![p].len() == 1);
    lemma_share_bounds(m, class, tokens);
    lemma_members_before(m, class, p, pid_end());
    assert(members_below(m, class, pid_end()) =~= set![p]);
    law_grants_are_shares(s, class, tokens, p);
    let share = equal_share(m, class, tokens);
    assert(share == tokens) by (nonlinear_arith)
        requires
            1 * share <= tokens < 1 * (share + 1),
    ;
    assert(0 * share == 0);
}

/// Handing tokens out to a class leaves the processes of all other classes as they are,
/// changes nothing but balances, and draws nothing where the class has no process.
pub proof fn law_funding_leaves_others(s: BankState, class: u8, tokens: u64, pid: i32)
    requires
        s.wf(),
        s.treasuries.contains_key(pid),
    ensures
        ({
            let before = s.treasuries[pid];
            let after = s.funded(class, tokens).treasuries[pid];
            &&& before.process_class != class ==> after == before
            &&& after.total_spent == before.total_spent
            &&& after.process_class == before.process_class
            &&& s.funded(class, tokens).total_supply == s.total_supply
            &&& (forall|p: i32| #[trigger]
                s.treasuries.contains_key(p) ==> s.treasuries[p].process_class != class)
                ==> s.funded(class, tokens).reserve == s.reserve
        }),
{
    law_grants_are_shares(s, class, tokens, pid);
    if forall|p: i32| #[trigger]
        s.treasuries.contains_key(p) ==> s.treasuries[p].process_class != class {
        law_class_size_counts(s.treasuries, class, Set::empty());
        assert(0 * equal_share(s.treasuries, class, tokens) == 0);
    }
}

/// A bank opens with its whole supply in the reserve and without any treasury.
pub proof fn law_bank_opens_with_full_reserve(total_supply: u64, pid: i32)
    ensures
        BankState::opened(total_supply).reserve == total_supply,
        BankState::opened(total_supply).total_supply == total_supply,
        !BankState::opened(total_supply).treasuries.contains_key(pid),
{
}

} // verus!
