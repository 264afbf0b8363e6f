//! Process classes: how a process is classified and what its class grants it.
use vstd::prelude::*;
use vstd::string::StrSliceExecFns;

use crate::task::QueuedTask;
use crate::text::same_text;

verus! {

/// User-facing programs: interfaces, browsers, audio servers.
pub const CLASS_INTERACTIVE: u8 = 0;

/// Compilers, encoders and other bulk jobs.
pub const CLASS_BATCH: u8 = 1;

/// Databases and servers.
pub const CLASS_DAEMON: u8 = 2;

/// Real-time tasks, which take no part in the market.
pub const CLASS_REALTIME: u8 = 3;

/// Everything that is not recognised.
pub const CLASS_UNKNOWN: u8 = 4;

/// Tokens that a process of an ordinary class is entitled to, unless a policy sets
/// another baseline for new processes.
pub const IPO_BASELINE: u64 = 1_000;

/// Whether the bytes of a command name are the characters of `name`, which are ASCII.
pub open spec fn is_named(comm: Seq<u8>, name: Seq<char>) -> bool {
    &&& comm.len() == name.len()
    &&& forall|i: int| 0 <= i < comm.len() ==> #[trigger] comm[i] as u32 == name[i] as u32
}

/// Command names of the interactive class.
pub open spec fn interactive_comm(comm: Seq<u8>) -> bool {
    ||| is_named(comm, "Xwayland"@)
    ||| is_named(comm, "firefox"@)
    ||| is_named(comm, "chrome"@)
    ||| is_named(comm, "gnome-shell"@)
    ||| is_named(comm, "pipewire"@)
    ||| is_named(comm, "pulseaudio"@)
}

/// Command names of the batch class.
pub open spec fn batch_comm(comm: Seq<u8>) -> bool {
    ||| is_named(comm, "gcc"@)
    ||| is_named(comm, "cc1"@)
    ||| is_named(comm, "make"@)
    ||| is_named(comm, "cargo"@)
    ||| is_named(comm, "rustc"@)
    ||| is_named(comm, "ffmpeg"@)
    ||| is_named(comm, "x264"@)
}

/// Command names of the daemon class.
pub open spec fn daemon_comm(comm: Seq<u8>) -> bool {
    ||| is_named(comm, "postgres"@)
    ||| is_named(comm, "mysqld"@)
    ||| is_named(comm, "nginx"@)
    ||| is_named(comm, "apache2"@)
    ||| is_named(comm, "systemd"@)
}

/// The class of a process with command name `comm`.
pub open spec fn class_of_comm(comm: Seq<u8>) -> u8 {
    if interactive_comm(comm) {
        CLASS_INTERACTIVE
    } else if batch_comm(comm) {
        CLASS_BATCH
    } else if daemon_comm(comm) {
        CLASS_DAEMON
    } else {
        CLASS_UNKNOWN
    }
}

/// The tokens that `class` is entitled to where an ordinary class is entitled to
/// `baseline`, as far as 64 bits can tell.
pub open spec fn class_ipo(class: u8, baseline: u64) -> u64 {
    if class == CLASS_INTERACTIVE {
        if baseline * 2 <= u64::MAX {
            (baseline * 2) as u64
        } else {
            u64::MAX
        }
    } else if class == CLASS_BATCH {
        baseline / 2
    } else if class == CLASS_REALTIME {
        0
    } else {
        baseline
    }
}

/// The name under which `class` is reported.
pub open spec fn class_text(class: u8) -> Seq<char> {
    if class == CLASS_INTERACTIVE {
        "interactive"@
    } else if class == CLASS_BATCH {
        "batch"@
    } else if class == CLASS_DAEMON {
        "daemon"@
    } else if class == CLASS_REALTIME {
        "realtime"@
    } else {
        "unknown"@
    }
}

/// The class that a policy directs tokens to under the name `name`.
pub open spec fn funded_class(name: Seq<char>) -> Option<u8> {
    if name == "interactive"@ {
        Some(CLASS_INTERACTIVE)
    } else if name == "batch"@ {
        Some(CLASS_BATCH)
    } else if name == "daemon"@ {
        Some(CLASS_DAEMON)
    } else if name == "realtime"@ {
        Some(CLASS_REALTIME)
    } else if name == "unknown"@ {
        Some(CLASS_UNKNOWN)
    } else {
        None
    }
}

/// Whether the bytes of a command name are the characters of `name`.
fn named(comm: &Vec<u8>, name: &str) -> (is: bool)
    ensures
        is == is_named(comm@, name@),
{
    if comm.len() != name.unicode_len() {
        return false;
    }
    let mut i: usize = 0;
    while i < comm.len()
        invariant
            i <= comm.len(),
            comm@.len() == name@.len(),
            forall|j: int| 0 <= j < i ==> #[trigger] comm@[j] as u32 == name@[j] as u32,
        decreases comm.len() - i,
    {
        if comm[i] as u32 != name.get_char(i) as u32 {
            assert(comm@[i as int] as u32 != name@[i as int] as u32);
            return false;
        }
        i = i + 1;
    }
    true
}

/// Classifies a process by its command name.
pub fn classify_process(task: &QueuedTask) -> (class: u8)
    ensures
        class == class_of_comm(task.name()),
{
    let comm: Vec<u8> = task.comm_name();
    if named(&comm, "Xwayland") || named(&comm, "firefox") || named(&comm, "chrome") || named(
        &comm,
        "gnome-shell",
    ) || named(&comm, "pipewire") || named(&comm, "pulseaudio") {
        CLASS_INTERACTIVE
    } else if named(&comm, "gcc") || named(&comm, "cc1") || named(&comm, "make") || named(
        &comm,
        "cargo",
    ) || named(&comm, "rustc") || named(&comm, "ffmpeg") || named(&comm, "x264") {
        CLASS_BATCH
    } else if named(&comm, "postgres") || named(&comm, "mysqld") || named(&comm, "nginx") || named(
        &comm,
        "apache2",
    ) || named(&comm, "systemd") {
        CLASS_DAEMON
    } else {
        CLASS_UNKNOWN
    }
}

/// The tokens that `class` is entitled to where an ordinary class is entitled to
/// `baseline`.
pub fn ipo_for_class(class: u8, baseline: u64) -> (ipo: u64)
    ensures
        ipo == class_ipo(class, baseline),
{
    if class == CLASS_INTERACTIVE {
        match baseline.checked_mul(2) {
            Some(ipo) => ipo,
            None => u64::MAX,
        }
    } else if class == CLASS_BATCH {
        baseline / 2
    } else if class == CLASS_REALTIME {
        0
    } else {
        baseline
    }
}

/// The name under which `class` is reported.
pub fn class_name(class: u8) -> (name: &'static str)
    ensures
        name@ == class_text(class),
{
    if class == CLASS_INTERACTIVE {
        "interactive"
    } else if class == CLASS_BATCH {
        "batch"
    } else if class == CLASS_DAEMON {
        "daemon"
    } else if class == CLASS_REALTIME {
        "realtime"
    } else {
        "unknown"
    }
}

/// The class that a policy directs tokens to under the name `name`.
pub fn class_from_name(name: &str) -> (class: Option<u8>)
    ensures
        class == funded_class(name@),
{
    if same_text(name, "interactive") {
        Some(CLASS_INTERACTIVE)
    } else if same_text(name, "batch") {
        Some(CLASS_BATCH)
    } else if same_text(name, "daemon") {
        Some(CLASS_DAEMON)
    } else if same_text(name, "realtime") {
        Some(CLASS_REALTIME)
    } else if same_text(name, "unknown") {
        Some(CLASS_UNKNOWN)
    } else {
        None
    }
}

/// Every class is funded under the name it is reported under, and under no other.
pub proof fn law_funded_by_reported_name(class: u8, name: Seq<char>)
    requires
        class <= CLASS_UNKNOWN,
    ensures
        funded_class(name) == Some(class) <==> class_text(class) == name,
{
    reveal_strlit("interactive");
    reveal_strlit("batch");
    reveal_strlit("daemon");
    reveal_strlit("realtime");
    reveal_strlit("unknown");
    assert("interactive"@.len() == 11 && "batch"@.len() == 5 && "daemon"@.len() == 6);
    assert("realtime"@.len() == 8 && "unknown"@.len() == 7);
}

/// The classes are numbered as the kernel side numbers them.
pub proof fn law_class_numbers()
    ensures
        CLASS_INTERACTIVE == 0,
        CLASS_BATCH == 1,
        CLASS_DAEMON == 2,
        CLASS_REALTIME == 3,
        CLASS_UNKNOWN == 4,
{
}

/// Characters of the same number are the same.
proof fn lemma_same_char(a: char, b: char)
    requires
        a as u32 == b as u32,
    ensures
        a == b,
{
}

/// Bytes that write `name` are named so, and under no other name.
proof fn lemma_named_once(comm: Seq<u8>, name: Seq<char>, other: Seq<char>)
    requires
        comm.len() == name.len(),
        forall|i: int| 0 <= i < comm.len() ==> #[trigger] comm[i] as u32 == name[i] as u32,
    ensures
        is_named(comm, other) <==> name == other,
{
    if is_named(comm, other) {
        assert forall|i: int| 0 <= i < name.len() implies name[i] == other[i] by {
            assert(comm[i] as u32 == name[i] as u32);
            lemma_same_char(name[i], other[i]);
        }
        assert(name =~= other);
    }
}

/// A process is classified by its whole command name, character by character: the six
/// interactive names, the seven batch names and the five daemon names have their classes,
/// and every other name is unknown.
pub proof fn law_classified_by_whole_name(comm: Seq<u8>, name: Seq<char>)
    requires
        comm.len() == name.len(),
        forall|i: int| 0 <= i < comm.len() ==> #[trigger] comm[i] as u32 == name[i] as u32,
    ensures
        class_of_comm(comm) == 0 <==> {
            ||| name == "Xwayland"@
            ||| name == "firefox"@
            ||| name == "chrome"@
            ||| name == "gnome-shell"@
            ||| name == "pipewire"@
            ||| name == "pulseaudio"@
        },
        class_of_comm(comm) == 1 <==> {
            ||| name == "gcc"@
            ||| name == "cc1"@
            ||| name == "make"@
            ||| name == "cargo"@
            ||| name == "rustc"@
            ||| name == "ffmpeg"@
            ||| name == "x264"@
        },
        class_of_comm(comm) == 2 <==> {
            ||| name == "postgres"@
            ||| name == "mysqld"@
            ||| name == "nginx"@
            ||| name == "apache2"@
            ||| name == "systemd"@
        },
        class_of_comm(comm) <= 2 || class_of_comm(comm) == 4,
{
    lemma_named_once(comm, name, "Xwayland"@);
    lemma_named_once(comm, name, "firefox"@);
    lemma_named_once(comm, name, "chrome"@);
    lemma_named_once(comm, name, "gnome-shell"@);
    lemma_named_once(comm, name, "pipewire"@);
    lemma_named_once(comm, name, "pulseaudio"@);
    lemma_named_once(comm, name, "gcc"@);
    lemma_named_once(comm, name, "cc1"@);
    lemma_named_once(comm, name, "make"@);
    lemma_named_once(comm, name, "cargo"@);
    lemma_named_once(comm, name, "rustc"@);
    lemma_named_once(comm, name, "ffmpeg"@);
    lemma_named_once(comm, name, "x264"@);
    lemma_named_once(comm, name, "postgres"@);
    lemma_named_once(comm, name, "mysqld"@);
    lemma_named_once(comm, name, "nginx"@);
    lemma_named_once(comm, name, "apache2"@);
    lemma_named_once(comm, name, "systemd"@);
    reveal_strlit("Xwayland");
    assert("Xwayland"@.len() == 8 && "Xwayland"@[1] == 'w');
    reveal_strlit("firefox");
    assert("firefox"@.len() == 7 && "firefox"@[1] == 'i');
    reveal_strlit("chrome");
    assert("chrome"@.len() == 6 && "chrome"@[1] == 'h');
    reveal_strlit("gnome-shell");
    assert("gnome-shell"@.len() == 11 && "gnome-shell"@[1] == 'n');
    reveal_strlit("pipewire");
    assert("pipewire"@.len() == 8 && "pipewire"@[1] == 'i');
    reveal_strlit("pulseaudio");
    assert("pulseaudio"@.len() == 10 && "pulseaudio"@[1] == 'u');
    reveal_strlit("gcc");
    assert("gcc"@.len() == 3 && "gcc"@[1] == 'c');
    reveal_strlit("cc1");
    assert("cc1"@.len() == 3 && "cc1"@[1] == 'c');
    reveal_strlit("make");
    assert("make"@.len() == 4 && "make"@[1] == 'a');
    reveal_strlit("cargo");
    assert("cargo"@.len() == 5 && "cargo"@[1] == 'a');
    reveal_strlit("rustc");
    assert("rustc"@.len() == 5 && "rustc"@[1] == 'u');
    reveal_strlit("ffmpeg");
    assert("ffmpeg"@.len() == 6 && "ffmpeg"@[1] == 'f');
    reveal_strlit("x264");
    assert("x264"@.len() == 4 && "x264"@[1] == '2');
    reveal_strlit("postgres");
    assert("postgres"@.len() == 8 && "postgres"@[1] == 'o');
    reveal_strlit("mysqld");
    assert("mysqld"@.len() == 6 && "mysqld"@[1] == 'y');
    reveal_strlit("nginx");
    assert("nginx"@.len() == 5 && "nginx"@[1] == 'g');
    reveal_strlit("apache2");
    assert("apache2"@.len() == 7 && "apache2"@[1] == 'p');
    reveal_strlit("systemd");
    assert("systemd"@.len() == 7 && "systemd"@[1] == 'y');
}

/// An interactive process is entitled to twice the baseline, a batch process to half of it
/// rounded down, a real-time process to nothing, and every other to the baseline. Only
/// where twice the baseline leaves 64 bits does an interactive process get less.
pub proof fn law_entitlement_by_class(class: u8, baseline: u64)
    ensures
        class == 0 && baseline + baseline <= u64::MAX ==> class_ipo(class, baseline) == baseline
            + baseline,
        class == 0 && baseline + baseline > u64::MAX ==> class_ipo(class, baseline) == u64::MAX,
        class == 1 ==> 0 <= baseline - 2 * class_ipo(class, baseline) <= 1,
        class == 3 ==> class_ipo(class, baseline) == 0,
        class == 2 || class >= 4 ==> class_ipo(class, baseline) == baseline,
{
}

/// Every class is reported under a name of its own, and numbers that are no class are
/// reported as unknown.
pub proof fn law_reported_names(class: u8, other: u8)
    ensures
        class == 0 ==> class_text(class) == "interactive"@,
        class == 1 ==> class_text(class) == "batch"@,
        class == 2 ==> class_text(class) == "daemon"@,
        class == 3 ==> class_text(class) == "realtime"@,
        class >= 4 ==> class_text(class) == "unknown"@,
        class < other <= 4 ==> class_text(class) != class_text(other),
{
    reveal_strlit("interactive");
    reveal_strlit("batch");
    reveal_strlit("daemon");
    reveal_strlit("realtime");
    reveal_strlit("unknown");
    assert("interactive"@.len() == 11 && "batch"@.len() == 5 && "daemon"@.len() == 6);
    assert("realtime"@.len() == 8 && "unknown"@.len() == 7);
}

} // verus!
