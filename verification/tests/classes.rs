use scx_agentic::class::{
    class_from_name, class_name, classify_process, ipo_for_class, CLASS_BATCH, CLASS_DAEMON,
    CLASS_INTERACTIVE, CLASS_REALTIME, CLASS_UNKNOWN, IPO_BASELINE,
};
use scx_agentic::task::QueuedTask;

fn task(comm: [u8; 16]) -> QueuedTask {
    QueuedTask {
        pid: 1,
        cpu: 0,
        nr_cpus_allowed: 1,
        flags: 0,
        start_ts: 0,
        stop_ts: 0,
        exec_runtime: 0,
        weight: 100,
        vtime: 0,
        enq_cnt: 0,
        comm,
        bid_amount: 0,
        treasury_balance: 0,
        starvation_ns: 0,
        class_hint: 0,
        numa_node: 0,
    }
}

fn named(name: &str) -> QueuedTask {
    let mut comm = [0u8; 16];
    comm[..name.len()].copy_from_slice(name.as_bytes());
    task(comm)
}

#[test]
fn commands_fall_into_their_classes() {
    for comm in ["Xwayland", "firefox", "chrome", "gnome-shell", "pipewire", "pulseaudio"] {
        assert_eq!(classify_process(&named(comm)), CLASS_INTERACTIVE);
    }
    for comm in ["gcc", "cc1", "make", "cargo", "rustc", "ffmpeg", "x264"] {
        assert_eq!(classify_process(&named(comm)), CLASS_BATCH);
    }
    for comm in ["postgres", "mysqld", "nginx", "apache2", "systemd"] {
        assert_eq!(classify_process(&named(comm)), CLASS_DAEMON);
    }
    for comm in ["", "Firefox", "firefox ", "gccx", "bash"] {
        assert_eq!(classify_process(&named(comm)), CLASS_UNKNOWN);
    }
}

#[test]
fn a_command_name_ends_at_its_first_zero() {
    let mut comm = *b"gcc\0firefox\0\0\0\0\0";
    assert_eq!(task(comm).comm_name(), b"gcc".to_vec());
    assert_eq!(classify_process(&task(comm)), CLASS_BATCH);
    comm[3] = b'x';
    assert_eq!(task(comm).comm_name(), b"gccxfirefox".to_vec());
    assert_eq!(classify_process(&task(comm)), CLASS_UNKNOWN);
    assert_eq!(task([b'a'; 16]).comm_name(), vec![b'a'; 16]);
    assert!(task([0; 16]).comm_name().is_empty());
    assert_eq!(classify_process(&task([0xff; 16])), CLASS_UNKNOWN);
}

#[test]
fn classes_grant_their_baselines() {
    assert_eq!(ipo_for_class(CLASS_INTERACTIVE, IPO_BASELINE), 2_000);
    assert_eq!(ipo_for_class(CLASS_BATCH, IPO_BASELINE), 500);
    assert_eq!(ipo_for_class(CLASS_DAEMON, IPO_BASELINE), 1_000);
    assert_eq!(ipo_for_class(CLASS_REALTIME, IPO_BASELINE), 0);
    assert_eq!(ipo_for_class(CLASS_UNKNOWN, IPO_BASELINE), 1_000);
    assert_eq!(ipo_for_class(200, IPO_BASELINE), 1_000);
    assert_eq!(ipo_for_class(CLASS_INTERACTIVE, 7), 14);
    assert_eq!(ipo_for_class(CLASS_BATCH, 7), 3);
    assert_eq!(ipo_for_class(CLASS_DAEMON, 7), 7);
    assert_eq!(ipo_for_class(CLASS_REALTIME, 7), 0);
    assert_eq!(ipo_for_class(CLASS_INTERACTIVE, u64::MAX), u64::MAX);
}

#[test]
fn classes_are_funded_under_their_names() {
    assert_eq!(class_name(CLASS_INTERACTIVE), "interactive");
    assert_eq!(class_name(CLASS_BATCH), "batch");
    assert_eq!(class_name(CLASS_DAEMON), "daemon");
    assert_eq!(class_name(CLASS_REALTIME), "realtime");
    assert_eq!(class_name(CLASS_UNKNOWN), "unknown");
    assert_eq!(class_name(9), "unknown");
    assert_eq!(class_from_name("interactive"), Some(CLASS_INTERACTIVE));
    assert_eq!(class_from_name("batch"), Some(CLASS_BATCH));
    assert_eq!(class_from_name("daemon"), Some(CLASS_DAEMON));
    assert_eq!(class_from_name("realtime"), Some(CLASS_REALTIME));
    assert_eq!(class_from_name("unknown"), Some(CLASS_UNKNOWN));
    assert_eq!(class_from_name("other"), None);
    assert_eq!(class_from_name(""), None);
    assert_eq!(class_from_name("Interactive"), None);
}
