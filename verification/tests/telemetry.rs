use std::collections::BTreeMap;

use scx_agentic::proc_stat::{
    read_cpu_line, read_cpu_times, split_words, CounterOverflow, CpuTimes,
};
use scx_agentic::telemetry::{
    compute_util, elapsed_ms, is_sharp_drop, IpcSample, Telemetry, Util, IPC_HISTORY_SIZE,
};

fn lines(text: &str) -> Vec<String> {
    text.lines().map(|l| l.to_string()).collect()
}

fn words(text: &str) -> Vec<String> {
    let chars: Vec<char> = text.chars().collect();
    split_words(&chars).into_iter().map(|w| w.into_iter().collect()).collect()
}

fn table(entries: &[(u32, u64, u64)]) -> BTreeMap<u32, CpuTimes> {
    entries.iter().map(|&(cpu, busy, total)| (cpu, CpuTimes { busy, total })).collect()
}

fn util(busy: u64, total: u64) -> Util {
    Util { busy, total }
}

#[test]
fn words_are_split_as_the_standard_library_splits_them() {
    for text in [
        "",
        " ",
        "a",
        " a  b\tc\n",
        "cpu0 1 2",
        "x\u{a0}y\u{3000}z",
        "\u{200b}a b",
        "\u{2028}a\u{2009}b\u{85}",
        "\u{1c}a\u{1f}b",
    ] {
        let expected: Vec<String> = text.split_whitespace().map(|w| w.to_string()).collect();
        assert_eq!(words(text), expected);
    }
}

#[test]
fn white_space_is_that_of_the_standard_library() {
    for code in 0..0x11_0000u32 {
        if let Some(c) = char::from_u32(code) {
            assert_eq!(split_words(&[c]).is_empty(), c.is_whitespace());
        }
    }
}

#[test]
fn a_cpu_line_is_added_up() {
    assert_eq!(
        read_cpu_line("cpu12 10 20 30 40 50 60 70 80 90 100"),
        Ok(Some((12, CpuTimes { busy: 270, total: 360 })))
    );
    assert_eq!(
        read_cpu_line("cpu0 1 2 3 4 5 6 7"),
        Ok(Some((0, CpuTimes { busy: 19, total: 28 })))
    );
}

#[test]
fn other_lines_are_skipped() {
    for line in [
        "",
        "cp",
        "cpu  1 2 3 4 5 6 7 8",
        "cpu 1 2 3 4 5 6 7 8",
        "cpu\t1 2 3 4 5 6 7 8",
        "cpux 1 2 3 4 5 6 7 8",
        "cpu-1 1 2 3 4 5 6 7 8",
        "cpu4294967296 1 2 3 4 5 6 7 8",
        "cpu1 1 2 3 4 5 6",
        "cpu1 1 2 3 4 5 6 x",
        "intr 1 2 3 4 5 6 7 8",
        " cpu1 1 2 3 4 5 6 7 8",
    ] {
        assert_eq!(read_cpu_line(line), Ok(None));
    }
    // A word that is no number is left out, and the numbers close up.
    assert_eq!(
        read_cpu_line("cpu+1 1 x 2 3 4 5 6 7"),
        Ok(Some((1, CpuTimes { busy: 1 + 2 + 3 + 6 + 7, total: 1 + 2 + 3 + 6 + 7 + 4 + 5 })))
    );
}

#[test]
fn counters_that_do_not_fit_are_an_error() {
    let max = u64::MAX.to_string();
    let line = format!("cpu1 {} 1 0 0 0 0 0 0", max);
    assert_eq!(read_cpu_line(&line), Err(CounterOverflow));
    let line = format!("cpu1 {} 0 0 0 0 0 0 0", max);
    assert_eq!(
        read_cpu_line(&line),
        Ok(Some((1, CpuTimes { busy: u64::MAX, total: u64::MAX })))
    );
    let line = format!("cpu1 {} 0 0 0 1 0 0 0", max);
    assert_eq!(read_cpu_times(&vec![line]), Err(CounterOverflow));
}

#[test]
fn the_stat_file_gives_a_table() {
    let text = "cpu  30 0 30 40 0 0 0 0\n\
                cpu0 10 0 10 20 0 0 0 0\n\
                cpu1 20 0 20 20 0 0 0 5\n\
                cpu0 11 0 10 20 0 0 0 0\n\
                intr 9 9 9 9 9 9 9 9\n";
    let read = read_cpu_times(&lines(text)).unwrap();
    assert_eq!(read, table(&[(0, 21, 41), (1, 45, 65)]));
    assert_eq!(read_cpu_times(&vec![]).unwrap(), BTreeMap::new());
}

#[test]
fn utilization_counts_growth_only() {
    let before = table(&[(0, 100, 200), (1, 50, 60)]);
    let now = table(&[(0, 130, 300), (1, 40, 70), (2, 5, 9)]);
    assert_eq!(compute_util(&vec![0, 1], &before, &now), Ok(util(30, 110)));
    assert_eq!(compute_util(&vec![2], &before, &now), Ok(util(5, 9)));
    assert_eq!(compute_util(&vec![3], &before, &now), Ok(util(0, 0)));
    assert_eq!(compute_util(&vec![], &before, &now), Ok(util(0, 0)));
    let huge = table(&[(0, u64::MAX, u64::MAX), (1, 1, 1)]);
    assert_eq!(compute_util(&vec![0, 1], &BTreeMap::new(), &huge), Err(CounterOverflow));
    assert_eq!(
        compute_util(&vec![0], &BTreeMap::new(), &huge),
        Ok(util(u64::MAX, u64::MAX))
    );
}

#[test]
fn a_drop_is_sharp_above_a_fifth() {
    assert!(!is_sharp_drop(util(100, 100), util(80, 100)));
    assert!(is_sharp_drop(util(100, 100), util(79, 100)));
    assert!(!is_sharp_drop(util(50, 100), util(40, 100)));
    assert!(is_sharp_drop(util(50, 100), util(39, 100)));
    assert!(!is_sharp_drop(util(50, 100), util(60, 100)));
    assert!(!is_sharp_drop(util(0, 100), util(0, 100)));
    assert!(!is_sharp_drop(util(0, 0), util(0, 0)));
    assert!(is_sharp_drop(util(1, 100), util(0, 0)));
    assert!(is_sharp_drop(util(1, 100), util(0, 100)));
    let max = u64::MAX;
    assert!(!is_sharp_drop(util(max, max), util(max, max)));
    assert!(is_sharp_drop(util(max, max), util(max / 5 * 4 - 1, max)));
}

#[test]
fn milliseconds_are_whole_and_never_negative() {
    assert_eq!(elapsed_ms(0, 999_999), 0);
    assert_eq!(elapsed_ms(0, 1_000_000), 1);
    assert_eq!(elapsed_ms(5_000_000, 1_000_000), 0);
    assert_eq!(elapsed_ms(1, 100_000_000), 99);
}

#[test]
fn the_last_cpu_is_the_shadow_core() {
    let t = Telemetry::new(4, 0);
    assert_eq!(*t.shadow_cpus(), vec![3]);
    assert_eq!(*t.market_cpus(), vec![0, 1, 2]);
    assert!(t.is_shadow(3));
    assert!(!t.is_shadow(0));
    let t = Telemetry::new(1, 0);
    assert!(t.shadow_cpus().is_empty());
    assert_eq!(*t.market_cpus(), vec![0]);
    assert!(!t.is_shadow(0));
    let t = Telemetry::new(0, 0);
    assert!(t.shadow_cpus().is_empty());
    assert!(t.market_cpus().is_empty());
}

#[test]
fn samples_start_with_the_second_reading() {
    let mut t = Telemetry::new(2, 1_000_000);
    assert!(!t.sample_due(100_999_999));
    assert!(t.sample_due(101_000_000));
    t.record(101_000_000, table(&[(0, 10, 20), (1, 1, 20)])).unwrap();
    assert!(t.history().is_empty());
    assert!(!t.sample_due(200_999_999));
    assert!(t.sample_due(201_000_000));
    t.record(201_000_000, table(&[(0, 18, 30), (1, 6, 30)])).unwrap();
    assert_eq!(
        t.history(),
        vec![IpcSample {
            market_util: util(8, 10),
            shadow_util: util(5, 10),
            timestamp: 201_000_000
        }]
    );
    assert!(!t.is_exogenous_event());
}

#[test]
fn a_reading_that_does_not_fit_changes_nothing() {
    let mut t = Telemetry::new(3, 0);
    t.record(1, table(&[(0, 0, 1)])).unwrap();
    let huge = table(&[(0, u64::MAX, u64::MAX), (1, 1, 1)]);
    assert_eq!(t.record(2, huge), Err(CounterOverflow));
    assert!(t.history().is_empty());
    assert!(!t.sample_due(100_000_000));
    assert!(t.sample_due(100_000_001));
}

#[test]
fn exogenous_events_hit_market_and_shadow() {
    let mut t = Telemetry::new(2, 0);
    t.record(1, table(&[(0, 0, 0), (1, 0, 0), (9, 1, 1)])).unwrap();
    t.record(2, table(&[(0, 90, 100), (1, 80, 100)])).unwrap();
    assert!(!t.is_exogenous_event());
    // Only the market falls.
    t.record(3, table(&[(0, 140, 200), (1, 160, 200)])).unwrap();
    assert!(!t.is_exogenous_event());
    // Both fall by more than a fifth.
    t.record(4, table(&[(0, 179, 300), (1, 220, 300)])).unwrap();
    assert!(t.is_exogenous_event());
    // Nothing was read: both fall to zero.
    t.record(5, BTreeMap::new()).unwrap();
    assert!(t.is_exogenous_event());
}

#[test]
fn the_history_keeps_the_newest_samples() {
    let mut t = Telemetry::new(1, 0);
    for i in 0..100u64 {
        t.record(i, table(&[(0, i, 2 * i)])).unwrap();
    }
    let history = t.history();
    assert_eq!(history.len(), IPC_HISTORY_SIZE);
    assert_eq!(history[0].timestamp, 40);
    assert_eq!(history[59].timestamp, 99);
}
