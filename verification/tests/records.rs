use scx_agentic::text::{parse_unsigned, push_decimal, push_signed, same_text};
use scx_agentic::dispatch::{make_dispatch, DispatchedTask};
use scx_agentic::order_book::Task;
use scx_agentic::wire::{
    dispatched_bytes, index_key, market_entries, pid_from_key, pid_key, read_csw_total,
    read_queued, read_transfer, Endian, MarketState, TransferRequest, TreasuryEntry,
};

fn native() -> Endian {
    if 1u16.to_ne_bytes()[0] == 1 {
        Endian::Little
    } else {
        Endian::Big
    }
}

#[test]
fn a_treasury_entry_has_its_layout() {
    let entry = TreasuryEntry {
        balance: 0x0102_0304_0506_0708,
        last_update_ts: 5,
        total_spent: 0x100,
        ipo_complete: 1,
        process_class: 4,
    };
    let little = entry.to_bytes(Endian::Little);
    assert_eq!(little.len(), 32);
    assert_eq!(little[0..8], [8, 7, 6, 5, 4, 3, 2, 1]);
    assert_eq!(little[8..16], [5, 0, 0, 0, 0, 0, 0, 0]);
    assert_eq!(little[16..24], [0, 1, 0, 0, 0, 0, 0, 0]);
    assert_eq!(little[24..32], [1, 4, 0, 0, 0, 0, 0, 0]);
    let big = entry.to_bytes(Endian::Big);
    assert_eq!(big[0..8], [1, 2, 3, 4, 5, 6, 7, 8]);
    assert_eq!(big[24..32], [1, 4, 0, 0, 0, 0, 0, 0]);
    assert_eq!(entry.to_bytes(native())[0..8], entry.balance.to_ne_bytes());
}

#[test]
fn market_entries_cover_all_nodes() {
    let state = MarketState {
        current_clearing_price: 0,
        total_tokens_in_circulation: 0x0a0b,
        circuit_breaker_tripped: 1,
        current_demurrage_rate: 10,
    };
    let bytes = state.to_bytes(Endian::Little);
    assert_eq!(bytes.len(), 24);
    assert_eq!(
        bytes,
        vec![0, 0, 0, 0, 0, 0, 0, 0, 0x0b, 0x0a, 0, 0, 0, 0, 0, 0, 1, 0, 0, 0, 10, 0, 0, 0]
    );
    let entries = market_entries(&state, native());
    assert_eq!(entries.len(), 8);
    for node in 0..8u32 {
        assert_eq!(entries[node as usize].key, node.to_ne_bytes().to_vec());
        assert_eq!(entries[node as usize].value, state.to_bytes(native()));
    }
}

#[test]
fn pids_survive_their_keys() {
    for pid in [0, 1, -1, 4_242, i32::MIN, i32::MAX] {
        for endian in [Endian::Little, Endian::Big] {
            assert_eq!(pid_from_key(&pid_key(pid, endian), endian), pid);
        }
        assert_eq!(pid_key(pid, native()), pid.to_ne_bytes().to_vec());
    }
    assert_eq!(index_key(0x01020304, Endian::Big), vec![1, 2, 3, 4]);
    assert_eq!(index_key(0x01020304, Endian::Little), vec![4, 3, 2, 1]);
    assert_eq!(pid_from_key(&[2, 0, 0, 0, 9, 9], Endian::Little), 2);
}

#[test]
fn transfers_are_read_from_their_bytes() {
    let mut value = (-7i32).to_ne_bytes().to_vec();
    value.extend_from_slice(&123_456_789_012u64.to_ne_bytes());
    assert_eq!(
        read_transfer(&value, native()),
        Some(TransferRequest { parent_pid: -7, amount: 123_456_789_012 })
    );
    value.push(0xff);
    assert_eq!(
        read_transfer(&value, native()),
        Some(TransferRequest { parent_pid: -7, amount: 123_456_789_012 })
    );
    assert_eq!(read_transfer(&value[..11], native()), None);
    assert_eq!(read_transfer(&[], native()), None);
}

#[test]
fn context_switches_are_added_up() {
    assert_eq!(read_csw_total(&vec![], native()), Some(0));
    let values = vec![
        5u64.to_ne_bytes().to_vec(),
        vec![1, 2, 3],
        700u64.to_ne_bytes().to_vec(),
        [1u64.to_ne_bytes().to_vec(), vec![9]].concat(),
    ];
    assert_eq!(read_csw_total(&values, native()), Some(706));
    let values = vec![u64::MAX.to_ne_bytes().to_vec(), 1u64.to_ne_bytes().to_vec()];
    assert_eq!(read_csw_total(&values, native()), None);
    let values = vec![u64::MAX.to_ne_bytes().to_vec(), 0u64.to_ne_bytes().to_vec()];
    assert_eq!(read_csw_total(&values, native()), Some(u64::MAX));
}

#[test]
fn decimals_are_written_and_read() {
    for n in [0u64, 7, 10, 99, 100, 1_234_567_890, u64::MAX] {
        let mut out = String::new();
        push_decimal(&mut out, n);
        assert_eq!(out, n.to_string());
        let chars: Vec<char> = out.chars().collect();
        assert_eq!(parse_unsigned(&chars, u64::MAX), Some(n));
    }
    for n in [0i32, -1, 42, i32::MIN, i32::MAX] {
        let mut out = "pid:".to_string();
        push_signed(&mut out, n);
        assert_eq!(out, format!("pid:{}", n));
    }
}

#[test]
fn numbers_are_read_as_the_standard_library_reads_them() {
    for text in [
        "", "+", "-", "0", "+0", "-0", "007", "+12", "++1", "1 ", " 1", "1_0", "12a", "4294967295",
        "4294967296", "18446744073709551615", "18446744073709551616", "99999999999999999999999",
    ] {
        let chars: Vec<char> = text.chars().collect();
        assert_eq!(parse_unsigned(&chars, u64::MAX), text.parse::<u64>().ok());
        assert_eq!(
            parse_unsigned(&chars, u32::MAX as u64),
            text.parse::<u32>().ok().map(u64::from)
        );
    }
}

#[test]
fn texts_are_compared_by_content() {
    assert!(same_text("", ""));
    assert!(same_text("gnome-shell", "gnome-shell"));
    assert!(!same_text("gnome-shell", "gnome-shel"));
    assert!(!same_text("abc", "abd"));
    assert!(same_text("é", "\u{e9}"));
}

#[test]
fn queued_tasks_are_read_from_their_bytes() {
    let mut record: Vec<u8> = Vec::new();
    record.extend_from_slice(&(-5i32).to_ne_bytes());
    record.extend_from_slice(&3i32.to_ne_bytes());
    for n in 1..9u64 {
        record.extend_from_slice(&(n << 40).to_ne_bytes());
    }
    record.extend_from_slice(b"gnome-shell\0\0\0\0\0");
    for n in 9..12u64 {
        record.extend_from_slice(&n.to_ne_bytes());
    }
    record.extend_from_slice(&12u32.to_ne_bytes());
    record.extend_from_slice(&13u32.to_ne_bytes());
    assert_eq!(record.len(), 120);
    let task = read_queued(&record, native()).unwrap();
    assert_eq!((task.pid, task.cpu), (-5, 3));
    assert_eq!(task.nr_cpus_allowed, 1 << 40);
    assert_eq!(task.flags, 2 << 40);
    assert_eq!(task.start_ts, 3 << 40);
    assert_eq!(task.stop_ts, 4 << 40);
    assert_eq!(task.exec_runtime, 5 << 40);
    assert_eq!(task.weight, 6 << 40);
    assert_eq!(task.vtime, 7 << 40);
    assert_eq!(task.enq_cnt, 8 << 40);
    assert_eq!(&task.comm, b"gnome-shell\0\0\0\0\0");
    assert_eq!((task.bid_amount, task.treasury_balance, task.starvation_ns), (9, 10, 11));
    assert_eq!((task.class_hint, task.numa_node), (12, 13));
    assert!(read_queued(&record[..119], native()).is_none());
    record.push(1);
    assert_eq!(read_queued(&record, native()), Some(task));
}

#[test]
fn dispatched_tasks_are_written_in_order() {
    let task = DispatchedTask {
        pid: -2,
        cpu: 1 << 20,
        flags: 0x11,
        slice_ns: 0x22,
        vtime: u64::MAX,
        enq_cnt: 0x0102_0304_0506_0708,
        clearing_price: 0x33,
        sequence: 0x44,
    };
    let mut expected: Vec<u8> = Vec::new();
    expected.extend_from_slice(&task.pid.to_ne_bytes());
    expected.extend_from_slice(&task.cpu.to_ne_bytes());
    for n in [
        task.flags,
        task.slice_ns,
        task.vtime,
        task.enq_cnt,
        task.clearing_price,
        task.sequence,
    ] {
        expected.extend_from_slice(&n.to_ne_bytes());
    }
    assert_eq!(expected.len(), 56);
    assert_eq!(dispatched_bytes(&task, native()), expected);
    assert_eq!(dispatched_bytes(&task, Endian::Big)[32..40], [1, 2, 3, 4, 5, 6, 7, 8]);
}

#[test]
fn the_generation_counter_survives_from_record_to_record() {
    let mut queued: Vec<u8> = (0..120u8).map(|n| n.wrapping_mul(37)).collect();
    queued[72] = 0;
    for endian in [Endian::Little, Endian::Big] {
        let qtask = read_queued(&queued, endian).unwrap();
        let winner = Task { qtask, bid_amount: 12, enqueue_time: 3 };
        let record = dispatched_bytes(&make_dispatch(&winner, 12, 1, 0, 6), endian);
        assert_eq!(record[0..4], queued[0..4]);
        assert_eq!(record[8..16], queued[16..24]);
        assert_eq!(record[32..40], queued[64..72]);
    }
}
