//! Tasks as the kernel side queues them.
use vstd::prelude::*;

verus! {

/// A task that waits to be scheduled.
#[derive(Clone, Copy, Debug, PartialEq, Eq)]
pub struct QueuedTask {
    /// Process id.
    pub pid: i32,
    /// CPU that the task last ran on.
    pub cpu: i32,
    /// Number of CPUs that the task may run on.
    pub nr_cpus_allowed: u64,
    /// Enqueue flags.
    pub flags: u64,
    /// When the task last started to run.
    pub start_ts: u64,
    /// When the task last stopped running.
    pub stop_ts: u64,
    /// Run time since the task last slept.
    pub exec_runtime: u64,
    /// Scheduling weight.
    pub weight: u64,
    /// Virtual run time.
    pub vtime: u64,
    /// Generation counter, which the kernel side checks on dispatch.
    pub enq_cnt: u64,
    /// Command name, ended by a zero byte where it is shorter than its field.
    pub comm: [u8; 16],
    /// Bid that the kernel side suggests.
    pub bid_amount: u64,
    /// Balance that the kernel side knows of.
    pub treasury_balance: u64,
    /// How long the task has been waiting.
    pub starvation_ns: u64,
    /// Class that the kernel side suggests.
    pub class_hint: u32,
    /// NUMA node of the task.
    pub numa_node: u32,
}

/// The part of `comm` before its first zero byte.
pub open spec fn until_zero(comm: Seq<u8>) -> Seq<u8>
    decreases comm.len(),
{
    if comm.len() == 0 || comm[0] == 0 {
        Seq::empty()
    } else {
        seq![comm[0]] + until_zero(comm.skip(1))
    }
}

impl QueuedTask {
    /// The command name.
    pub open spec fn name(self) -> Seq<u8> {
        until_zero(self.comm@)
    }

    /// The command name.
    pub fn comm_name(&self) -> (name: Vec<u8>)
        ensures
            name@ == self.name(),
    {
        let mut name: Vec<u8> = Vec::new();
        let mut i: usize = 0;
        assert(self.comm@.skip(0) =~= self.comm@);
        while i < 16 && self.comm[i] != 0
            invariant
                i <= 16,
                name@ + until_zero(self.comm@.skip(i as int)) == self.name(),
            decreases 16 - i,
        {
            let ghost before = name@;
            name.push(self.comm[i]);
            proof {
                let rest = self.comm@.skip(i as int);
                assert(rest[0] == self.comm@[i as int]);
                assert(rest.skip(1) =~= self.comm@.skip(i + 1));
                assert(name@ + until_zero(self.comm@.skip(i + 1)) =~= before + until_zero(rest));
            }
            i = i + 1;
        }
        proof {
            if i < 16 {
                assert(self.comm@.skip(i as int)[0] == self.comm@[i as int]);
            }
            assert(until_zero(self.comm@.skip(i as int)) =~= Seq::<u8>::empty());
            assert(name@ =~= self.name());
        }
        name
    }
}

/// The part before the first zero byte: it is a beginning of the whole, it holds no zero
/// byte, and a zero byte or the end follows it.
pub proof fn law_name_ends_at_zero(comm: Seq<u8>)
    ensures
        until_zero(comm).len() <= comm.len(),
        until_zero(comm) == comm.take(until_zero(comm).len() as int),
        !until_zero(comm).contains(0),
        until_zero(comm).len() < comm.len() ==> comm[until_zero(comm).len() as int] == 0,
    decreases comm.len(),
{
    if comm.len() > 0 && comm[0] != 0 {
        let rest = comm.skip(1);
        let tail = until_zero(rest);
        law_name_ends_at_zero(rest);
        assert(until_zero(comm) =~= comm.take(until_zero(comm).len() as int));
        assert forall|i: int| 0 <= i < until_zero(comm).len() implies until_zero(comm)[i] != 0 by {
            if i > 0 {
                assert(tail.contains(tail[i - 1]));
            }
        }
        if until_zero(comm).len() < comm.len() {
            assert(rest[tail.len() as int] == comm[until_zero(comm).len() as int]);
        }
    } else {
        assert(until_zero(comm) =~= comm.take(0));
    }
}

/// The command name of a task is the part of its name field before the first zero byte.
pub proof fn law_command_name(task: QueuedTask, n: int)
    requires
        0 <= n <= 16,
        forall|i: int| 0 <= i < n ==> #[trigger] task.comm@[i] != 0,
        n < 16 ==> task.comm@[n] == 0,
    ensures
        task.name() == task.comm@.take(n),
{
    law_name_ends_at_zero(task.comm@);
    let m = task.name().len() as int;
    if m < n {
        assert(task.comm@[m] != 0);
    }
    if n < m {
        assert(task.name()[n] == task.comm@[n]);
        assert(task.name().contains(0));
    }
}

} // verus!
