//! Allocator, selection, and counter-trait behaviour.

use std::cell::Cell;

use kern::bump::BumpPointer;
use kern::counters::Count;
use kern::task::select;
use kern::task::Generation;
use kern::task::Priority;
use kern::task::SavedState;
use kern::task::SchedState;
use kern::task::Task;
use kern::task::TaskState;
use kern::task::TimerState;

fn plain_task(state: TaskState) -> Task {
    Task {
        priority: Priority(0),
        state,
        descriptor: kern::app::TaskDesc {
            regions: vec![0; 8],
            entry_point: 0,
            initial_stack: 0,
            priority: 0,
            flags: 0,
        },
        generation: Generation(0),
        notification_mask: 0,
        notifications: 0,
        save: SavedState { stack_pointer: 0, return_address: 0 },
        region_table: Vec::new(),
        timer: TimerState { deadline: None, to_post: 0 },
    }
}

#[test]
fn allocates_each_element_from_its_initializer() {
    let mut bump = BumpPointer::new(0, 64);
    let block = bump.gimme_n(4, |i: usize| (i as u32) * 10).expect("must fit");
    assert_eq!(block.items, vec![0, 10, 20, 30]);
    assert_eq!(block.addr, 0);
}

#[test]
fn succeeds_iff_aligned_request_fits() {
    // Exactly 4 u32 values fit in 16 bytes from an aligned base.
    let mut bump = BumpPointer::new(0, 16);
    assert!(bump.gimme_n(4, |i: usize| i as u32).is_some());
    // The buffer is now exhausted: even one more element is refused.
    assert!(bump.gimme_n(1, |i: usize| i as u32).is_none());

    // One byte short: the same request must be refused, untouched.
    let mut short = BumpPointer::new(0, 15);
    assert!(short.gimme_n(4, |i: usize| i as u32).is_none());
    assert!(short.gimme_n(3, |i: usize| i as u32).is_some());
}

#[test]
fn successive_allocations_ascend() {
    let mut bump = BumpPointer::new(0, 64);
    let a = bump.gimme_n(4, |i: usize| i as u32).expect("must fit");
    let b = bump.gimme_n(2, |i: usize| i as u32).expect("must fit");
    assert_eq!(a.addr, 0);
    // The second block starts exactly past the first: contiguous,
    // ascending addresses.
    assert_eq!(b.addr, 16);
}

#[test]
fn aligns_unaligned_scratch_base() {
    let mut bump = BumpPointer::new(1, 64);
    let block = bump.gimme_n(1, |_i: usize| 7u32).expect("must fit");
    assert_eq!(block.addr % 4, 0);
    assert_eq!(block.addr, 4);
}

#[test]
fn gimme_stores_the_value() {
    let mut bump = BumpPointer::new(0, 16);
    let slot = bump.gimme(0xAB54_A98Cu32).expect("must fit");
    assert_eq!(slot.item, 0xAB54_A98C);
    assert!(bump.gimme([0u64; 4]).is_none());
}

#[test]
fn selects_next_runnable_cyclically() {
    let tasks = vec![
        plain_task(TaskState::Healthy(SchedState::Stopped)),
        plain_task(TaskState::Healthy(SchedState::Runnable)),
        plain_task(TaskState::Healthy(SchedState::Runnable)),
    ];
    // Scanning after index 0 reaches index 1 first.
    assert_eq!(select(0, &tasks), 1);
    // Scanning after index 1 reaches index 2 first.
    assert_eq!(select(1, &tasks), 2);
    // Scanning after the last index wraps and skips the stopped task.
    assert_eq!(select(2, &tasks), 1);
}

#[test]
fn selection_wraps_past_the_end() {
    let tasks = vec![
        plain_task(TaskState::Healthy(SchedState::Runnable)),
        plain_task(TaskState::Faulted),
    ];
    assert_eq!(select(1, &tasks), 0);
}

#[test]
fn switch_to_user_hands_back_the_selected_task() {
    let tasks = vec![
        plain_task(TaskState::Healthy(SchedState::Stopped)),
        plain_task(TaskState::Healthy(SchedState::Runnable)),
    ];
    let t = kern::startup::switch_to_user(&tasks, 1);
    assert_eq!(t.state, TaskState::Healthy(SchedState::Runnable));
}

enum Event {
    Hit,
    Miss,
}

impl Count for Event {
    type Counters = [Cell<u32>; 2];

    const NEW_COUNTERS: Self::Counters = [Cell::new(0), Cell::new(0)];

    fn count(&self, counters: &Self::Counters) {
        let cell = match self {
            Event::Hit => &counters[0],
            Event::Miss => &counters[1],
        };
        cell.set(cell.get().saturating_add(1));
    }
}

#[test]
fn counts_events_per_variant() {
    let counters = Event::NEW_COUNTERS;
    assert_eq!(counters[0].get(), 0);
    assert_eq!(counters[1].get(), 0);
    Event::Hit.count(&counters);
    Event::Hit.count(&counters);
    Event::Miss.count(&counters);
    assert_eq!(counters[0].get(), 2);
    assert_eq!(counters[1].get(), 1);
}
