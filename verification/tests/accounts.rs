use std::collections::BTreeMap;

use scx_agentic::bank::{slash_for, Bank, SupplyAudit};
use scx_agentic::class::{
    CLASS_BATCH, CLASS_DAEMON, CLASS_INTERACTIVE, CLASS_REALTIME, CLASS_UNKNOWN, IPO_BASELINE,
};
use scx_agentic::ledger::Treasury;

fn balance(bank: &Bank, pid: i32) -> u64 {
    bank.treasury(pid).unwrap().balance
}

fn spent(bank: &Bank, pid: i32) -> u64 {
    bank.treasury(pid).unwrap().total_spent
}

fn assert_conserved(bank: &Bank) {
    let audit = bank.audit();
    assert_eq!(audit.total, audit.expected);
    assert_eq!(audit.in_treasuries + audit.reserve, bank.total_supply());
    assert_eq!(bank.circulating(), audit.in_treasuries);
}

#[test]
fn a_new_treasury_holds_the_baseline() {
    let t = Treasury::new(CLASS_BATCH);
    assert_eq!(t.balance, IPO_BASELINE);
    assert_eq!(t.total_spent, 0);
    assert_eq!(t.process_class, CLASS_BATCH);
}

#[test]
fn a_new_bank_holds_everything_in_reserve() {
    let bank = Bank::new(4_000_000);
    assert_eq!(bank.reserve(), 4_000_000);
    assert_eq!(bank.total_supply(), 4_000_000);
    assert_eq!(bank.circulating(), 0);
    assert!(bank.pids().is_empty());
    assert_eq!(
        bank.audit(),
        SupplyAudit { in_treasuries: 0, reserve: 4_000_000, total: 4_000_000, expected: 4_000_000 }
    );
}

#[test]
fn admission_draws_on_the_reserve() {
    let mut bank = Bank::new(10_000);
    bank.open_treasury(1, CLASS_INTERACTIVE, IPO_BASELINE);
    bank.open_treasury(2, CLASS_BATCH, IPO_BASELINE);
    bank.open_treasury(3, CLASS_UNKNOWN, IPO_BASELINE);
    bank.open_treasury(4, CLASS_REALTIME, IPO_BASELINE);
    assert_eq!(balance(&bank, 1), 2_000);
    assert_eq!(balance(&bank, 2), 500);
    assert_eq!(balance(&bank, 3), 1_000);
    assert_eq!(balance(&bank, 4), 0);
    assert_eq!(bank.reserve(), 6_500);
    assert_eq!(bank.pids(), vec![1, 2, 3, 4]);
    assert_eq!(bank.treasury(5), None);
    assert_conserved(&bank);
}

#[test]
fn admission_gives_no_more_than_the_reserve_holds() {
    let mut bank = Bank::new(2_300);
    bank.open_treasury(1, CLASS_INTERACTIVE, IPO_BASELINE);
    bank.open_treasury(2, CLASS_BATCH, IPO_BASELINE);
    bank.open_treasury(3, CLASS_DAEMON, IPO_BASELINE);
    assert_eq!(balance(&bank, 1), 2_000);
    assert_eq!(balance(&bank, 2), 300);
    assert_eq!(balance(&bank, 3), 0);
    assert_eq!(bank.reserve(), 0);
    assert_conserved(&bank);
}

#[test]
fn a_charge_goes_to_the_reserve() {
    let mut bank = Bank::new(10_000);
    bank.open_treasury(7, CLASS_DAEMON, IPO_BASELINE);
    assert_eq!(bank.charge(7, 150), 150);
    assert_eq!(balance(&bank, 7), 850);
    assert_eq!(spent(&bank, 7), 150);
    assert_eq!(bank.reserve(), 9_150);
    assert_eq!(bank.charge(7, 5_000), 850);
    assert_eq!(balance(&bank, 7), 0);
    assert_eq!(spent(&bank, 7), 1_000);
    assert_eq!(bank.reserve(), 10_000);
    assert_eq!(bank.charge(8, 5_000), 0);
    assert_eq!(bank.reserve(), 10_000);
    assert!(bank.spend_fits(7, u64::MAX));
    assert_conserved(&bank);
}

#[test]
fn a_refund_restores_what_was_paid() {
    let mut bank = Bank::new(10_000);
    bank.open_treasury(7, CLASS_DAEMON, IPO_BASELINE);
    for price in [0, 400, 1_000, 1_001, u64::MAX] {
        let paid = bank.charge(7, price);
        assert_eq!(paid, price.min(1_000));
        bank.refund(7, paid);
        assert_eq!(balance(&bank, 7), 1_000);
        assert_eq!(spent(&bank, 7), 0);
        assert_eq!(bank.reserve(), 9_000);
    }
    // A process without tokens pays nothing and gets nothing back.
    bank.charge(7, 1_000);
    let paid = bank.charge(7, 1);
    assert_eq!(paid, 0);
    bank.refund(7, paid);
    assert_eq!(balance(&bank, 7), 0);
    assert_eq!(spent(&bank, 7), 1_000);
    assert_eq!(bank.reserve(), 10_000);
    assert_conserved(&bank);
}

#[test]
fn another_baseline_changes_admission_only() {
    let mut bank = Bank::new(100_000);
    bank.open_treasury(1, CLASS_INTERACTIVE, 3_001);
    bank.open_treasury(2, CLASS_BATCH, 3_001);
    bank.open_treasury(3, CLASS_UNKNOWN, 3_001);
    bank.open_treasury(4, CLASS_REALTIME, 3_001);
    assert_eq!(balance(&bank, 1), 6_002);
    assert_eq!(balance(&bank, 2), 1_500);
    assert_eq!(balance(&bank, 3), 3_001);
    assert_eq!(balance(&bank, 4), 0);
    bank.haircut();
    assert_eq!(balance(&bank, 3), 1_201);
    bank.open_treasury(5, CLASS_INTERACTIVE, u64::MAX);
    assert_eq!(bank.reserve(), 0);
    assert_conserved(&bank);
}

#[test]
fn a_refund_is_capped_by_spending_and_reserve() {
    let mut bank = Bank::new(1_000);
    bank.open_treasury(7, CLASS_DAEMON, IPO_BASELINE);
    bank.charge(7, 30);
    bank.refund(7, 500);
    assert_eq!(balance(&bank, 7), 1_000);
    assert_eq!(bank.reserve(), 0);

    // The tokens that pid 1 spent are held by pid 2: nothing is minted.
    let mut bank = Bank::new(1_500);
    bank.open_treasury(1, CLASS_UNKNOWN, IPO_BASELINE);
    bank.charge(1, 1_000);
    bank.open_treasury(2, CLASS_INTERACTIVE, IPO_BASELINE);
    assert_eq!(bank.reserve(), 0);
    bank.refund(1, 1_000);
    assert_eq!(balance(&bank, 1), 0);
    assert_eq!(spent(&bank, 1), 1_000);
    assert_conserved(&bank);
    bank.refund(99, 1_000);
    assert_conserved(&bank);
}

#[test]
fn a_closed_treasury_returns_its_tokens() {
    let mut bank = Bank::new(10_000);
    bank.open_treasury(7, CLASS_DAEMON, IPO_BASELINE);
    assert!(bank.liquidate(7));
    assert_eq!(bank.treasury(7), None);
    assert_eq!(bank.reserve(), 10_000);
    assert!(!bank.liquidate(7));
    assert_conserved(&bank);
}

#[test]
fn transfers_move_tokens_between_treasuries() {
    let mut bank = Bank::new(10_000);
    bank.open_treasury(1, CLASS_DAEMON, IPO_BASELINE);
    bank.open_treasury(2, CLASS_DAEMON, IPO_BASELINE);
    assert!(bank.transfer(1, 2, 300));
    assert_eq!(balance(&bank, 1), 700);
    assert_eq!(balance(&bank, 2), 1_300);
    assert_eq!(bank.reserve(), 8_000);
    assert!(!bank.transfer(1, 2, 701));
    assert!(!bank.transfer(3, 2, 1));
    assert!(!bank.transfer(1, 3, 1));
    assert!(bank.transfer(1, 1, 700));
    assert!(!bank.transfer(1, 1, 701));
    assert_eq!(balance(&bank, 1), 700);
    assert_eq!(balance(&bank, 2), 1_300);
    assert_eq!(spent(&bank, 1), 0);
    assert_conserved(&bank);
}

#[test]
fn taxes_are_capped_by_the_balance() {
    let mut bank = Bank::new(10_000);
    bank.open_treasury(1, CLASS_DAEMON, IPO_BASELINE);
    bank.open_treasury(2, CLASS_BATCH, IPO_BASELINE);
    bank.open_treasury(3, CLASS_UNKNOWN, IPO_BASELINE);
    let mut taxes: BTreeMap<i32, u64> = BTreeMap::new();
    taxes.insert(1, 10);
    taxes.insert(2, 1_000_000);
    taxes.insert(9, 5);
    bank.levy(&taxes);
    assert_eq!(balance(&bank, 1), 990);
    assert_eq!(balance(&bank, 2), 0);
    assert_eq!(balance(&bank, 3), 1_000);
    assert_eq!(bank.reserve(), 8_010);
    assert_eq!(spent(&bank, 1), 0);
    assert_conserved(&bank);
}

#[test]
fn a_haircut_takes_nine_tenths_of_the_excess() {
    assert_eq!(slash_for(2_000, CLASS_INTERACTIVE), 0);
    assert_eq!(slash_for(2_001, CLASS_INTERACTIVE), 0);
    assert_eq!(slash_for(2_002, CLASS_INTERACTIVE), 1);
    assert_eq!(slash_for(2_010, CLASS_INTERACTIVE), 9);
    assert_eq!(slash_for(1_500, CLASS_BATCH), 900);
    assert_eq!(slash_for(999, CLASS_UNKNOWN), 0);
    assert_eq!(slash_for(7, CLASS_REALTIME), 6);
    assert_eq!(slash_for(u64::MAX, CLASS_REALTIME), 16_602_069_666_338_596_453);
    for excess in 0..20_000u64 {
        assert_eq!(slash_for(1_000 + excess, CLASS_DAEMON), (excess as f64 * 0.90) as u64);
    }

    let mut bank = Bank::new(100_000);
    bank.open_treasury(1, CLASS_DAEMON, IPO_BASELINE);
    bank.open_treasury(2, CLASS_INTERACTIVE, IPO_BASELINE);
    bank.open_treasury(3, CLASS_BATCH, IPO_BASELINE);
    bank.fund(CLASS_DAEMON, 5_005);
    bank.charge(3, 100);
    bank.haircut();
    assert_eq!(balance(&bank, 1), 1_501);
    assert_eq!(balance(&bank, 2), 2_000);
    assert_eq!(balance(&bank, 3), 400);
    assert_conserved(&bank);
}

#[test]
fn a_haircut_agrees_with_real_arithmetic() {
    let mut x: u64 = 88_172_645_463_325_252;
    for _ in 0..200_000 {
        x ^= x << 13;
        x ^= x >> 7;
        x ^= x << 17;
        let excess = x % (1 << 49);
        assert_eq!(slash_for(1_000 + excess, CLASS_DAEMON), (excess as f64 * 0.90) as u64);
        let tens = excess / 10 * 10;
        assert_eq!(slash_for(1_000 + tens, CLASS_DAEMON), (tens as f64 * 0.90) as u64);
    }
}

#[test]
fn class_members_are_counted() {
    let mut bank = Bank::new(100_000);
    assert_eq!(bank.count_class(CLASS_BATCH), 0);
    for pid in [5, -3, 8] {
        bank.open_treasury(pid, CLASS_BATCH, IPO_BASELINE);
    }
    bank.open_treasury(6, CLASS_DAEMON, IPO_BASELINE);
    assert_eq!(bank.count_class(CLASS_BATCH), 3);
    assert_eq!(bank.count_class(CLASS_DAEMON), 1);
    assert_eq!(bank.count_class(CLASS_INTERACTIVE), 0);
    assert_eq!(bank.pids(), vec![-3, 5, 6, 8]);
}

#[test]
fn funds_are_shared_equally() {
    let mut bank = Bank::new(100_000);
    for pid in [1, 2, 3] {
        bank.open_treasury(pid, CLASS_BATCH, IPO_BASELINE);
    }
    bank.open_treasury(4, CLASS_DAEMON, IPO_BASELINE);
    let reserve = bank.reserve();
    bank.fund(CLASS_BATCH, 100);
    for pid in [1, 2, 3] {
        assert_eq!(balance(&bank, pid), 533);
    }
    assert_eq!(balance(&bank, 4), 1_000);
    assert_eq!(bank.reserve(), reserve - 99);
    bank.fund(CLASS_INTERACTIVE, 1_000);
    assert_eq!(bank.reserve(), reserve - 99);
    assert_conserved(&bank);
}

#[test]
fn funds_stop_when_the_reserve_is_empty() {
    let mut bank = Bank::new(1_750);
    for pid in [30, 10, 20] {
        bank.open_treasury(pid, CLASS_BATCH, IPO_BASELINE);
    }
    assert_eq!(bank.reserve(), 250);
    bank.fund(CLASS_BATCH, 600);
    assert_eq!(balance(&bank, 10), 700);
    assert_eq!(balance(&bank, 20), 550);
    assert_eq!(balance(&bank, 30), 500);
    assert_eq!(bank.reserve(), 0);
    bank.fund(CLASS_BATCH, u64::MAX);
    assert_eq!(bank.reserve(), 0);
    assert_conserved(&bank);
}
