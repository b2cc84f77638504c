//! Runtime task records and the boot-time scheduling hook: the live,
//! kernel-lifetime structures built from validated descriptors.

use vstd::prelude::*;

use crate::app::RegionDesc;
use crate::app::TaskDesc;

verus! {

/// Scheduling priority, taken from the descriptor.
#[derive(Clone, Copy, PartialEq, Eq, Structural, Debug)]
pub struct Priority(pub u8);

/// Generation counter, bumped on fault recovery to invalidate stale
/// handles elsewhere in the kernel. Starts at zero.
#[derive(Clone, Copy, PartialEq, Eq, Structural, Debug)]
pub struct Generation(pub u8);

/// Scheduler eligibility of a healthy task.
#[derive(Clone, Copy, PartialEq, Eq, Structural, Debug)]
pub enum SchedState {
    /// Not eligible to run.
    Stopped,
    /// Eligible to run.
    Runnable,
}

/// Two-level health and scheduling state.
#[derive(Clone, Copy, PartialEq, Eq, Structural, Debug)]
pub enum TaskState {
    /// The task is healthy and carries a scheduling state.
    Healthy(SchedState),
    /// The task has faulted and is not eligible to run.
    Faulted,
}

impl Default for TaskState {
    /// A task not started at boot begins healthy but stopped.
    fn default() -> (r: TaskState)
        ensures
            r == TaskState::Healthy(SchedState::Stopped),
    {
        TaskState::Healthy(SchedState::Stopped)
    }
}

/// Architecture-specific saved register state. Zeroed at construction; the
/// architecture hook of the embedding fills it in after the task's region
/// table is resolved.
#[derive(Clone, Copy, PartialEq, Eq, Structural, Debug)]
pub struct SavedState {
    pub stack_pointer: u32,
    pub return_address: u32,
}

impl SavedState {
    /// Every register zero.
    pub open spec fn is_zeroed(self) -> bool {
        self.stack_pointer == 0 && self.return_address == 0
    }
}

/// Per-task timer state, disarmed at construction.
#[derive(Clone, Copy, PartialEq, Eq, Debug)]
pub struct TimerState {
    pub deadline: Option<u64>,
    pub to_post: u32,
}

impl TimerState {
    /// No deadline armed, nothing to post.
    pub open spec fn is_reset(self) -> bool {
        self.deadline is None && self.to_post == 0
    }
}

/// One live task record, built from a validated descriptor.
pub struct Task {
    pub priority: Priority,
    pub state: TaskState,
    /// The immutable build-time definition this record was built from.
    pub descriptor: TaskDesc,
    pub generation: Generation,
    pub notification_mask: u32,
    pub notifications: u32,
    pub save: SavedState,
    /// Resolved region table: the region descriptors named by the
    /// descriptor's region-index array, in slot order.
    pub region_table: Vec<RegionDesc>,
    pub timer: TimerState,
}

impl Task {
    /// The task is eligible for scheduling.
    pub open spec fn is_runnable(self) -> bool {
        self.state == TaskState::Healthy(SchedState::Runnable)
    }
}

/// How many cyclic steps it takes to reach index `i` when scanning from
/// `last + 1` upward, wrapping at `n`.
pub open spec fn cyclic_pos(n: int, last: int, i: int) -> int {
    if i > last {
        i - last - 1
    } else {
        i + n - last - 1
    }
}

/// Picks the next runnable task after `last`: the runnable index the
/// fewest cyclic steps from `last + 1`. Used once at boot with a sentinel
/// `last` of the final index, so the scan effectively starts at zero.
pub fn select(last: usize, tasks: &Vec<Task>) -> (r: usize)
    requires
        last < tasks@.len(),
        exists|i: int| 0 <= i < tasks@.len() && (#[trigger] tasks@[i]).is_runnable(),
    ensures
        r < tasks@.len(),
        tasks@[r as int].is_runnable(),
        forall|j: int|
            0 <= j < tasks@.len() && (#[trigger] tasks@[j]).is_runnable() ==> cyclic_pos(
                tasks@.len() as int,
                last as int,
                r as int,
            ) <= cyclic_pos(tasks@.len() as int, last as int, j),
{
    let n = tasks.len();
    let mut i: usize = last + 1;
    while i < n
        invariant
            last + 1 <= i <= n,
            n == tasks@.len(),
            last < n,
            forall|q: int| last + 1 <= q < i ==> !(#[trigger] tasks@[q]).is_runnable(),
        decreases n - i,
    {
        if matches!(tasks[i].state, TaskState::Healthy(SchedState::Runnable)) {
            return i;
        }
        i = i + 1;
    }
    let mut j: usize = 0;
    while j <= last
        invariant
            j <= last + 1,
            last < n,
            n == tasks@.len(),
            forall|q: int| last + 1 <= q < n ==> !(#[trigger] tasks@[q]).is_runnable(),
            forall|q: int| 0 <= q < j ==> !(#[trigger] tasks@[q]).is_runnable(),
        decreases last + 1 - j,
    {
        if matches!(tasks[j].state, TaskState::Healthy(SchedState::Runnable)) {
            return j;
        }
        j = j + 1;
    }
    // Unreachable: some task is runnable, and every index has been scanned.
    proof {
        let w = choose|q: int| 0 <= q < tasks@.len() && (#[trigger] tasks@[q]).is_runnable();
        assert(!tasks@[w].is_runnable());
    }
    unreached()
}

} // verus!
