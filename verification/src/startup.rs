//! Kernel startup: builds the runtime task table from a validated image and
//! computes the handoff that transfers control to the first task.
//!
//! `start_kernel` runs the whole pipeline on a packed image: parse,
//! validate, allocate and build, then select the first task. The embedding
//! performs the architecture-specific actions (publishing the tables,
//! memory protection, the privilege-mode transfer) on the returned handoff;
//! those must happen exactly once per boot, before anything else touches
//! the published storage.

use vstd::layout::align_of;
use vstd::layout::size_of;
use vstd::prelude::*;

use crate::app::App;
use crate::app::Interrupt;
use crate::app::RegionDesc;
use crate::app::TaskDesc;
use crate::app::HEADER_SIZE;
use crate::app::REGIONS_PER_TASK;
use crate::app::REGION_DESC_SIZE;
use crate::app::TASK_DESC_SIZE;
use crate::app::TASK_FLAG_START_AT_BOOT;
use crate::bump::alloc_end;
use crate::bump::alloc_fits;
use crate::bump::BumpPointer;
use crate::image::parse_header;
use crate::image::parse_interrupts;
use crate::image::parse_region_descs;
use crate::image::parse_task_descs;
use crate::image::parsed_image_matches;
use crate::image::spec_image_size;
use crate::task::cyclic_pos;
use crate::task::select;
use crate::task::Generation;
use crate::task::Priority;
use crate::task::SavedState;
use crate::task::SchedState;
use crate::task::Task;
use crate::task::TaskState;
use crate::task::TimerState;
use crate::validate::image_valid;
use crate::validate::lemma_validate_congruent;
use crate::validate::spec_validate;
use crate::validate::task_desc_eq;
use crate::validate::task_ok;
use crate::validate::validate;
use crate::validate::BootError;

verus! {

/// Everything the boot sequence publishes: the finished task table, the
/// interrupt table, the fault-notification mask for kernel-wide state, and
/// the index of the first task to run.
pub struct Handoff {
    pub tasks: Vec<Task>,
    pub interrupts: Vec<Interrupt>,
    pub fault_notification: u32,
    pub first_task_index: usize,
}

/// The runtime task `t` was constructed from descriptor `d`: priority
/// copied, Runnable exactly when the start-at-boot flag is set, and every
/// dynamic field zero-initialized.
pub open spec fn task_built(t: Task, d: TaskDesc) -> bool {
    &&& t.priority.0 == d.priority as u8
    &&& t.state == (if d.flags & TASK_FLAG_START_AT_BOOT != 0 {
        TaskState::Healthy(SchedState::Runnable)
    } else {
        TaskState::Healthy(SchedState::Stopped)
    })
    &&& task_desc_eq(t.descriptor, d)
    &&& t.generation.0 == 0
    &&& t.notification_mask == 0
    &&& t.notifications == 0
    &&& t.save.is_zeroed()
    &&& t.timer.is_reset()
}

/// The runtime task's region table resolves descriptor `d`'s region-index
/// array: one region descriptor per slot, in slot order.
pub open spec fn region_table_resolved(t: Task, d: TaskDesc, rs: Seq<RegionDesc>) -> bool {
    &&& t.region_table@.len() == d.regions@.len()
    &&& forall|k: int|
        0 <= k < d.regions@.len() ==> #[trigger] t.region_table@[k] == rs[d.regions@[k] as int]
}

/// The finished handoff: one built task per descriptor with its region
/// table resolved, the interrupt table and fault-notification mask carried
/// over, and the first task the runnable one reached soonest when scanning
/// cyclically from index zero (the sentinel last-run index is the final
/// task).
pub open spec fn handoff_built(
    hd: Handoff,
    h: App,
    ts: Seq<TaskDesc>,
    rs: Seq<RegionDesc>,
    irqs: Seq<Interrupt>,
) -> bool {
    &&& hd.tasks@.len() == ts.len()
    &&& forall|i: int| 0 <= i < ts.len() ==> task_built(#[trigger] hd.tasks@[i], ts[i])
    &&& forall|i: int|
        0 <= i < ts.len() ==> region_table_resolved(#[trigger] hd.tasks@[i], ts[i], rs)
    &&& hd.interrupts@ == irqs
    &&& hd.fault_notification == h.fault_notification
    &&& hd.first_task_index < ts.len()
    &&& hd.tasks@[hd.first_task_index as int].is_runnable()
    &&& forall|j: int|
        0 <= j < ts.len() && (#[trigger] hd.tasks@[j]).is_runnable() ==> cyclic_pos(
            ts.len() as int,
            ts.len() - 1,
            hd.first_task_index as int,
        ) <= cyclic_pos(ts.len() as int, ts.len() - 1, j)
}

/// Free address after one region-table allocation starting at `base`.
pub open spec fn region_table_alloc_end(base: int) -> int {
    alloc_end(
        base,
        REGIONS_PER_TASK as int,
        size_of::<RegionDesc>() as int,
        align_of::<RegionDesc>() as int,
    )
}

/// Free address after `count` successive region-table allocations.
pub open spec fn region_tables_next(base: int, count: nat) -> int
    decreases count,
{
    if count == 0 {
        base
    } else {
        region_tables_next(region_table_alloc_end(base), (count - 1) as nat)
    }
}

/// `count` successive region-table allocations all fit in `[base, end)`.
pub open spec fn region_tables_fit(base: int, end: int, count: nat) -> bool
    decreases count,
{
    if count == 0 {
        true
    } else {
        &&& alloc_fits(
            base,
            end,
            REGIONS_PER_TASK as int,
            size_of::<RegionDesc>() as int,
            align_of::<RegionDesc>() as int,
        )
        &&& region_tables_fit(region_table_alloc_end(base), end, (count - 1) as nat)
    }
}

/// The whole boot allocation sequence fits: the task table, then one
/// region table per task.
pub open spec fn boot_fits(base: int, end: int, task_count: nat) -> bool {
    &&& alloc_fits(
        base,
        end,
        task_count as int,
        size_of::<Task>() as int,
        align_of::<Task>() as int,
    )
    &&& region_tables_fit(
        alloc_end(base, task_count as int, size_of::<Task>() as int, align_of::<Task>() as int),
        end,
        task_count,
    )
}

/// One more fitting region table extends the fitting prefix.
proof fn lemma_region_tables_fit_snoc(base: int, end: int, i: nat)
    requires
        region_tables_fit(base, end, i),
        alloc_fits(
            region_tables_next(base, i),
            end,
            REGIONS_PER_TASK as int,
            size_of::<RegionDesc>() as int,
            align_of::<RegionDesc>() as int,
        ),
    ensures
        region_tables_fit(base, end, i + 1),
        region_tables_next(base, i + 1) == region_table_alloc_end(region_tables_next(base, i)),
    decreases i,
{
    if i == 0 {
        assert(region_tables_next(base, 0) == base);
        assert(region_tables_next(region_table_alloc_end(base), 0) == region_table_alloc_end(
            base,
        ));
        assert(region_tables_next(base, 1) == region_table_alloc_end(base));
        assert(region_tables_fit(region_table_alloc_end(base), end, 0));
        assert(region_tables_fit(base, end, 1));
    } else {
        lemma_region_tables_fit_snoc(region_table_alloc_end(base), end, (i - 1) as nat);
        assert(region_tables_next(base, i + 1) == region_tables_next(
            region_table_alloc_end(base),
            i,
        ));
        assert(region_tables_next(base, i) == region_tables_next(
            region_table_alloc_end(base),
            (i - 1) as nat,
        ));
    }
}

/// If the region table at position `i` does not fit, the whole sequence of
/// `count` region tables does not fit.
proof fn lemma_region_tables_unfit(base: int, end: int, count: nat, i: nat)
    requires
        i < count,
        !alloc_fits(
            region_tables_next(base, i),
            end,
            REGIONS_PER_TASK as int,
            size_of::<RegionDesc>() as int,
            align_of::<RegionDesc>() as int,
        ),
    ensures
        !region_tables_fit(base, end, count),
    decreases i,
{
    if i > 0 {
        lemma_region_tables_unfit(
            region_table_alloc_end(base),
            end,
            (count - 1) as nat,
            (i - 1) as nat,
        );
    }
}

/// Copies a byte vector.
fn clone_bytes(v: &Vec<u8>) -> (r: Vec<u8>)
    ensures
        r@ == v@,
{
    let n = v.len();
    let mut r: Vec<u8> = Vec::new();
    let mut i: usize = 0;
    while i < n
        invariant
            i <= n,
            n == v@.len(),
            r@ =~= v@.subrange(0, i as int),
        decreases n - i,
    {
        r.push(v[i]);
        i = i + 1;
    }
    proof {
        assert(r@ =~= v@);
    }
    r
}

/// Copies a task descriptor.
fn clone_task_desc(d: &TaskDesc) -> (r: TaskDesc)
    ensures
        task_desc_eq(r, *d),
{
    TaskDesc {
        regions: clone_bytes(&d.regions),
        entry_point: d.entry_point,
        initial_stack: d.initial_stack,
        priority: d.priority,
        flags: d.flags,
    }
}

/// Builds one runtime task from its descriptor: priority from the
/// descriptor, Runnable exactly when the start-at-boot flag is set, all
/// dynamic state zeroed, region table left empty for resolution.
fn make_task(d: &TaskDesc) -> (t: Task)
    ensures
        task_built(t, *d),
        t.region_table@.len() == 0,
{
    Task {
        priority: Priority(d.priority as u8),
        state: if d.flags & TASK_FLAG_START_AT_BOOT != 0 {
            TaskState::Healthy(SchedState::Runnable)
        } else {
            TaskState::default()
        },
        descriptor: clone_task_desc(d),
        generation: Generation(0),
        notification_mask: 0,
        notifications: 0,
        save: SavedState { stack_pointer: 0, return_address: 0 },
        region_table: Vec::new(),
        timer: TimerState { deadline: None, to_post: 0 },
    }
}

/// Builds the runtime task table from validated descriptors: allocates the
/// task array, then one resolved region table per task, from the same
/// allocator; finally selects the first task to run. Fails only on
/// allocator exhaustion, exactly when the allocation sequence does not fit
/// the scratch range.
pub fn safe_start_kernel(
    h: &App,
    task_descs: &Vec<TaskDesc>,
    region_descs: &Vec<RegionDesc>,
    interrupts: Vec<Interrupt>,
    alloc: BumpPointer,
) -> (r: Result<Handoff, BootError>)
    requires
        h.wf(),
        forall|i: int| 0 <= i < task_descs@.len() ==> (#[trigger] task_descs@[i]).wf(),
        task_descs@.len() == h.task_count,
        region_descs@.len() == h.region_count,
        image_valid(*h, task_descs@, region_descs@, interrupts@),
        task_descs@.len() >= 1,
        exists|i: int|
            0 <= i < task_descs@.len() && (#[trigger] task_descs@[i]).flags
                & TASK_FLAG_START_AT_BOOT != 0,
        alloc.wf(),
    ensures
        r is Ok <==> boot_fits(alloc.base as int, alloc.end as int, task_descs@.len() as nat),
        r is Err ==> r == Err::<Handoff, BootError>(BootError::OutOfScratch),
        r matches Ok(hd) ==> handoff_built(hd, *h, task_descs@, region_descs@, interrupts@),
{
    let ghost alloc0 = alloc;
    let mut bump = alloc;
    let tc = task_descs.len();

    // The task table itself.
    let make = |i: usize| -> (t: Task)
        requires
            i < task_descs@.len(),
        ensures
            task_built(t, task_descs@[i as int]),
        { make_task(&task_descs[i]) };
    let block = match bump.gimme_n(tc, make) {
        None => {
            return Err(BootError::OutOfScratch);
        },
        Some(b) => b,
    };
    let mut tasks = block.items;
    let ghost base1 = alloc_end(
        alloc0.base as int,
        tc as int,
        size_of::<Task>() as int,
        align_of::<Task>() as int,
    );
    assert(bump.base == base1);

    // One resolved region table per task, from the same allocator; region
    // indices turn into the region descriptors they name.
    let mut i: usize = 0;
    while i < tc
        invariant
            i <= tc,
            tc == task_descs@.len(),
            tc == h.task_count,
            tc >= 1,
            region_descs@.len() == h.region_count,
            tasks@.len() == tc,
            bump.wf(),
            bump.end == alloc0.end,
            alloc0.wf(),
            alloc0 == alloc,
            bump.base == region_tables_next(base1, i as nat),
            region_tables_fit(base1, alloc0.end as int, i as nat),
            alloc_fits(
                alloc0.base as int,
                alloc0.end as int,
                tc as int,
                size_of::<Task>() as int,
                align_of::<Task>() as int,
            ),
            base1 == alloc_end(
                alloc0.base as int,
                tc as int,
                size_of::<Task>() as int,
                align_of::<Task>() as int,
            ),
            forall|q: int| 0 <= q < tc ==> (#[trigger] task_descs@[q]).wf(),
            forall|q: int| 0 <= q < tc ==> task_ok(#[trigger] task_descs@[q], region_descs@),
            forall|q: int| 0 <= q < tc ==> task_built(#[trigger] tasks@[q], task_descs@[q]),
            forall|q: int|
                0 <= q < i ==> region_table_resolved(
                    #[trigger] tasks@[q],
                    task_descs@[q],
                    region_descs@,
                ),
            exists|q: int|
                0 <= q < tc && (#[trigger] task_descs@[q]).flags & TASK_FLAG_START_AT_BOOT != 0,
        decreases tc - i,
    {
        let td = &task_descs[i];
        proof {
            assert(task_ok(task_descs@[i as int], region_descs@));
        }
        let resolve = |k: usize| -> (rd: RegionDesc)
            requires
                k < td.regions@.len(),
                (td.regions@[k as int] as int) < region_descs@.len(),
            ensures
                rd == region_descs@[td.regions@[k as int] as int],
            { region_descs[td.regions[k] as usize] };
        let rt = match bump.gimme_n(REGIONS_PER_TASK, resolve) {
            None => {
                proof {
                    lemma_region_tables_unfit(
                        base1,
                        alloc0.end as int,
                        tc as nat,
                        i as nat,
                    );
                }
                return Err(BootError::OutOfScratch);
            },
            Some(b) => b,
        };
        proof {
            lemma_region_tables_fit_snoc(base1, alloc0.end as int, i as nat);
        }
        tasks[i].region_table = rt.items;
        // Once a task's region table is in place, the embedding applies
        // the architecture's register-state setup for that task.
        i = i + 1;
    }

    // Pick the first task: act as if scheduling just after the last task,
    // so the scan starts from index zero.
    proof {
        let w = choose|q: int|
            0 <= q < tc && (#[trigger] task_descs@[q]).flags & TASK_FLAG_START_AT_BOOT != 0;
        assert(task_built(tasks@[w], task_descs@[w]));
        assert(tasks@[w].is_runnable());
    }
    let first_task_index = select(tc - 1, &tasks);

    Ok(
        Handoff {
            tasks,
            interrupts,
            fault_notification: h.fault_notification,
            first_task_index,
        },
    )
}

/// Runs the whole boot pipeline on a packed image and a scratch range:
/// parse, validate, build the runtime tables, and select the first task.
/// Succeeds exactly when the image is valid and the runtime tables fit the
/// scratch range; a validation defect is reported over an allocation one.
///
/// The caller guarantees that the image really extends as far as its
/// header's counts claim, that the scratch range does not wrap the address
/// space, and that a valid image configures at least one start-at-boot
/// task — with none, no first task exists to run and boot cannot complete.
pub fn start_kernel(image: &Vec<u8>, scratch_base: usize, scratch_size: usize) -> (r: Result<
    Handoff,
    BootError,
>)
    requires
        image@.len() >= HEADER_SIZE,
        spec_image_size(image@) <= image@.len(),
        scratch_base + scratch_size <= usize::MAX,
        forall|h: App, ts: Seq<TaskDesc>, rs: Seq<RegionDesc>, irqs: Seq<Interrupt>|
            #[trigger] parsed_image_matches(h, ts, rs, irqs, image@) && image_valid(h, ts, rs, irqs)
                ==> ts.len() >= 1 && exists|i: int|
                0 <= i < ts.len() && (#[trigger] ts[i]).flags & TASK_FLAG_START_AT_BOOT != 0,
    ensures
        forall|h: App, ts: Seq<TaskDesc>, rs: Seq<RegionDesc>, irqs: Seq<Interrupt>|
            #[trigger] parsed_image_matches(h, ts, rs, irqs, image@) ==> {
                &&& (r is Ok <==> spec_validate(h, ts, rs, irqs) is None && boot_fits(
                    scratch_base as int,
                    scratch_base + scratch_size,
                    ts.len() as nat,
                ))
                &&& (r matches Err(e) ==> Some(e) == (
                if spec_validate(h, ts, rs, irqs) is Some {
                    spec_validate(h, ts, rs, irqs)
                } else {
                    Some(BootError::OutOfScratch)
                }))
                &&& (r matches Ok(hd) ==> handoff_built(hd, h, ts, rs, irqs))
            },
{
    // Parse: pure address arithmetic, trusting only the caller-guaranteed
    // image extent; contents are validated below before anything uses them.
    let n = image.len();
    let header = parse_header(image);
    let tc = header.task_count as usize;
    let rc = header.region_count as usize;
    let ic = header.irq_count as usize;
    let regions_off = HEADER_SIZE + tc * TASK_DESC_SIZE;
    let irqs_off = regions_off + rc * REGION_DESC_SIZE;
    let task_descs = parse_task_descs(image, HEADER_SIZE, tc);
    let region_descs = parse_region_descs(image, regions_off, rc);
    let interrupts = parse_interrupts(image, irqs_off, ic);
    proof {
        assert(parsed_image_matches(header, task_descs@, region_descs@, interrupts@, image@));
    }

    // Validate everything before trusting anything.
    let r = match validate(&header, &task_descs, &region_descs, &interrupts) {
        Err(e) => Err(e),
        Ok(()) => {
            // Build the runtime tables out of the scratch range.
            let alloc = BumpPointer::new(scratch_base, scratch_size);
            safe_start_kernel(&header, &task_descs, &region_descs, interrupts, alloc)
        },
    };
    proof {
        assert forall|h: App, ts: Seq<TaskDesc>, rs: Seq<RegionDesc>, irqs: Seq<Interrupt>|
            #[trigger] parsed_image_matches(h, ts, rs, irqs, image@) implies {
            &&& (r is Ok <==> spec_validate(h, ts, rs, irqs) is None && boot_fits(
                scratch_base as int,
                scratch_base + scratch_size,
                ts.len() as nat,
            ))
            &&& (r matches Err(e) ==> Some(e) == (
            if spec_validate(h, ts, rs, irqs) is Some {
                spec_validate(h, ts, rs, irqs)
            } else {
                Some(BootError::OutOfScratch)
            }))
            &&& (r matches Ok(hd) ==> handoff_built(hd, h, ts, rs, irqs))
        } by {
            lemma_validate_congruent(
                h,
                ts,
                rs,
                irqs,
                header,
                task_descs@,
                region_descs@,
                interrupts@,
                image@,
            );
            if r is Ok {
                lemma_handoff_built_congruent(
                    r->Ok_0,
                    header,
                    task_descs@,
                    region_descs@,
                    interrupts@,
                    h,
                    ts,
                    rs,
                    irqs,
                );
            }
        }
    }
    r
}

/// Built handoffs carry over to any parse of the same bytes: every field
/// the handoff predicate reads is pinned by the image.
proof fn lemma_handoff_built_congruent(
    hd: Handoff,
    h1: App,
    ts1: Seq<TaskDesc>,
    rs1: Seq<RegionDesc>,
    irqs1: Seq<Interrupt>,
    h2: App,
    ts2: Seq<TaskDesc>,
    rs2: Seq<RegionDesc>,
    irqs2: Seq<Interrupt>,
)
    requires
        handoff_built(hd, h1, ts1, rs1, irqs1),
        ts1.len() == ts2.len(),
        forall|q: int| 0 <= q < ts1.len() ==> task_desc_eq(#[trigger] ts1[q], ts2[q]),
        rs1 == rs2,
        irqs1 == irqs2,
        h1.fault_notification == h2.fault_notification,
    ensures
        handoff_built(hd, h2, ts2, rs2, irqs2),
{
    assert forall|i: int| 0 <= i < ts2.len() implies task_built(#[trigger] hd.tasks@[i], ts2[i]) by {
        assert(task_built(hd.tasks@[i], ts1[i]));
        assert(task_desc_eq(ts1[i], ts2[i]));
    }
    assert forall|i: int| 0 <= i < ts2.len() implies region_table_resolved(
        #[trigger] hd.tasks@[i],
        ts2[i],
        rs2,
    ) by {
        assert(region_table_resolved(hd.tasks@[i], ts1[i], rs1));
        assert forall|k: int| 0 <= k < ts2[i].regions@.len() implies #[trigger] hd.tasks@[
            i
        ].region_table@[k] == rs2[ts2[i].regions@[k] as int] by {
            assert(ts1[i].regions@[k] == ts2[i].regions@[k]);
            assert(hd.tasks@[i].region_table@[k] == rs1[ts1[i].regions@[k] as int]);
        }
    }
}

/// The terminal step of boot: hands back the task that takes over the
/// processor. The embedding applies memory protection for it and transfers
/// control; that transfer never returns.
pub fn switch_to_user(tasks: &Vec<Task>, first_task_index: usize) -> (r: &Task)
    requires
        first_task_index < tasks@.len(),
    ensures
        *r == tasks@[first_task_index as int],
{
    &tasks[first_task_index]
}

/// A region of a task's resolved table covers the task's entry point and
/// is executable.
pub open spec fn region_covers_entry(r: RegionDesc, entry: u32) -> bool {
    &&& r.base <= entry < r.base + r.size
    &&& r.attributes & crate::app::REGION_ATTR_EXECUTE != 0
}

/// A region of a task's resolved table covers the task's initial stack
/// pointer (possibly just past the end) and is readable and writable.
pub open spec fn region_covers_stack(r: RegionDesc, sp: u32) -> bool {
    &&& r.base <= sp <= r.base + r.size
    &&& r.attributes & (crate::app::REGION_ATTR_READ | crate::app::REGION_ATTR_WRITE) == (
    crate::app::REGION_ATTR_READ | crate::app::REGION_ATTR_WRITE)
}

/// For a handoff built from a valid image, every task's resolved region
/// table holds at least one executable region containing its entry point,
/// and at least one (possibly different) read-write region containing its
/// initial stack pointer.
pub proof fn lemma_handoff_tables_cover(
    h: App,
    ts: Seq<TaskDesc>,
    rs: Seq<RegionDesc>,
    irqs: Seq<Interrupt>,
    hd: Handoff,
    i: int,
)
    requires
        image_valid(h, ts, rs, irqs),
        handoff_built(hd, h, ts, rs, irqs),
        0 <= i < hd.tasks@.len(),
    ensures
        exists|k: int|
            0 <= k < hd.tasks@[i].region_table@.len() && region_covers_entry(
                #[trigger] hd.tasks@[i].region_table@[k],
                hd.tasks@[i].descriptor.entry_point,
            ),
        exists|k: int|
            0 <= k < hd.tasks@[i].region_table@.len() && region_covers_stack(
                #[trigger] hd.tasks@[i].region_table@[k],
                hd.tasks@[i].descriptor.initial_stack,
            ),
{
    let t = hd.tasks@[i];
    let d = ts[i];
    assert(task_ok(d, rs));
    assert(task_built(t, d));
    assert(region_table_resolved(t, d, rs));
    let k1 = choose|k: int|
        0 <= k < d.regions@.len() && crate::validate::entry_slot_ok(d, rs, k);
    assert(t.region_table@[k1] == rs[d.regions@[k1] as int]);
    assert(region_covers_entry(t.region_table@[k1], t.descriptor.entry_point));
    let k2 = choose|k: int|
        0 <= k < d.regions@.len() && crate::validate::stack_slot_ok(d, rs, k);
    assert(t.region_table@[k2] == rs[d.regions@[k2] as int]);
    assert(region_covers_stack(t.region_table@[k2], t.descriptor.initial_stack));
}

} // verus!
