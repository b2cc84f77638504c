//! Image validator: checks every structural and semantic invariant on the
//! parsed image before any value is trusted by later stages.
//!
//! Checks run header-then-regions-then-tasks-then-interrupts (regions before
//! tasks because tasks reference them), and the first violation found decides
//! the reported defect. A malformed image is never partially accepted.

use vstd::prelude::*;

use crate::app::App;
use crate::app::Interrupt;
use crate::app::RegionDesc;
use crate::app::TaskDesc;
use crate::app::CURRENT_APP_MAGIC;
use crate::app::REGION_ATTRS_RESERVED;
use crate::app::REGION_ATTR_EXECUTE;
use crate::app::REGION_ATTR_READ;
use crate::app::REGION_ATTR_WRITE;
use crate::app::REGION_COUNT_LIMIT;
use crate::app::TASK_FLAGS_RESERVED;

verus! {

/// A boot defect: the single violation that aborts the boot sequence.
#[derive(Clone, Copy, PartialEq, Eq, Structural, Debug)]
pub enum BootError {
    /// The header magic is not the current one.
    BadMagic,
    /// More regions than the single-byte region index domain allows.
    TooManyRegions,
    /// A reserved expansion byte in the header is not zero.
    NonZeroExpansionSpace,
    /// A region sets an attribute bit from the reserved range.
    ReservedRegionAttributes,
    /// A region's base plus size wraps the address space.
    RegionAddressOverflow,
    /// A region's reserved field is not zero.
    ReservedRegionField,
    /// A task sets a flag bit outside the defined set.
    ReservedTaskFlags,
    /// A task names a region index at or past the region count.
    RegionIndexOutOfRange,
    /// No assigned region holds the task's entry point with execute rights.
    EntryRegionNotFound,
    /// No assigned region holds the task's stack pointer with read and
    /// write rights.
    StackRegionNotFound,
    /// An interrupt names a task index at or past the task count.
    InterruptTaskOutOfRange,
    /// The scratch buffer is too small for the runtime tables.
    OutOfScratch,
}

/// Every byte of `s` is zero.
pub open spec fn all_zero(s: Seq<u8>) -> bool {
    forall|i: int| 0 <= i < s.len() ==> s[i] == 0
}

/// First header violation, if any: magic, then region cap, then the
/// reserved expansion block.
pub open spec fn spec_header_err(h: App) -> Option<BootError> {
    if h.magic != CURRENT_APP_MAGIC {
        Some(BootError::BadMagic)
    } else if h.region_count >= REGION_COUNT_LIMIT {
        Some(BootError::TooManyRegions)
    } else if !all_zero(h.zeroed_expansion_space@) {
        Some(BootError::NonZeroExpansionSpace)
    } else {
        None
    }
}

/// A region descriptor meets all of its invariants.
pub open spec fn region_ok(r: RegionDesc) -> bool {
    &&& r.attributes & REGION_ATTRS_RESERVED == 0
    &&& r.base + r.size <= u32::MAX
    &&& r.reserved_zero == 0
}

/// First violation of one region descriptor, in check order.
pub open spec fn spec_region_err(r: RegionDesc) -> Option<BootError> {
    if r.attributes & REGION_ATTRS_RESERVED != 0 {
        Some(BootError::ReservedRegionAttributes)
    } else if r.base + r.size > u32::MAX {
        Some(BootError::RegionAddressOverflow)
    } else if r.reserved_zero != 0 {
        Some(BootError::ReservedRegionField)
    } else {
        None
    }
}

/// First violation among the regions from index `j` on.
pub open spec fn spec_regions_err(rs: Seq<RegionDesc>, j: int) -> Option<BootError>
    decreases rs.len() - j,
{
    if j < 0 || j >= rs.len() {
        None
    } else if spec_region_err(rs[j]) is Some {
        spec_region_err(rs[j])
    } else {
        spec_regions_err(rs, j + 1)
    }
}

/// Region slot `k` of task `t` covers the entry point with execute rights:
/// the entry point lies strictly inside the region's address range.
pub open spec fn entry_slot_ok(t: TaskDesc, rs: Seq<RegionDesc>, k: int) -> bool {
    let idx = t.regions@[k] as int;
    &&& 0 <= idx < rs.len()
    &&& rs[idx].base <= t.entry_point < rs[idx].base + rs[idx].size
    &&& rs[idx].attributes & REGION_ATTR_EXECUTE != 0
}

/// Region slot `k` of task `t` covers the initial stack pointer with read
/// and write rights. The stack pointer may sit exactly at the end of the
/// range, because the stack starts out empty.
pub open spec fn stack_slot_ok(t: TaskDesc, rs: Seq<RegionDesc>, k: int) -> bool {
    let idx = t.regions@[k] as int;
    &&& 0 <= idx < rs.len()
    &&& rs[idx].base <= t.initial_stack <= rs[idx].base + rs[idx].size
    &&& rs[idx].attributes & (REGION_ATTR_READ | REGION_ATTR_WRITE) == (REGION_ATTR_READ
        | REGION_ATTR_WRITE)
}

/// Every region index of `t` is below the region count.
pub open spec fn task_regions_in_range(t: TaskDesc, region_count: int) -> bool {
    forall|k: int| 0 <= k < t.regions@.len() ==> (#[trigger] t.regions@[k]) < region_count
}

/// A task descriptor meets all of its invariants against the region array.
pub open spec fn task_ok(t: TaskDesc, rs: Seq<RegionDesc>) -> bool {
    &&& t.flags & TASK_FLAGS_RESERVED == 0
    &&& task_regions_in_range(t, rs.len() as int)
    &&& exists|k: int| 0 <= k < t.regions@.len() && entry_slot_ok(t, rs, k)
    &&& exists|k: int| 0 <= k < t.regions@.len() && stack_slot_ok(t, rs, k)
}

/// First violation of one task descriptor, in check order.
pub open spec fn spec_task_err(t: TaskDesc, rs: Seq<RegionDesc>) -> Option<BootError> {
    if t.flags & TASK_FLAGS_RESERVED != 0 {
        Some(BootError::ReservedTaskFlags)
    } else if !task_regions_in_range(t, rs.len() as int) {
        Some(BootError::RegionIndexOutOfRange)
    } else if !(exists|k: int| 0 <= k < t.regions@.len() && entry_slot_ok(t, rs, k)) {
        Some(BootError::EntryRegionNotFound)
    } else if !(exists|k: int| 0 <= k < t.regions@.len() && stack_slot_ok(t, rs, k)) {
        Some(BootError::StackRegionNotFound)
    } else {
        None
    }
}

/// First violation among the tasks from index `i` on.
pub open spec fn spec_tasks_err(ts: Seq<TaskDesc>, rs: Seq<RegionDesc>, i: int) -> Option<
    BootError,
>
    decreases ts.len() - i,
{
    if i < 0 || i >= ts.len() {
        None
    } else if spec_task_err(ts[i], rs) is Some {
        spec_task_err(ts[i], rs)
    } else {
        spec_tasks_err(ts, rs, i + 1)
    }
}

/// First violation among the interrupts from index `m` on.
pub open spec fn spec_irqs_err(irqs: Seq<Interrupt>, task_count: int, m: int) -> Option<BootError>
    decreases irqs.len() - m,
{
    if m < 0 || m >= irqs.len() {
        None
    } else if irqs[m].task >= task_count {
        Some(BootError::InterruptTaskOutOfRange)
    } else {
        spec_irqs_err(irqs, task_count, m + 1)
    }
}

/// The first violation anywhere in the parsed image, in check order, or
/// `None` when the image meets every invariant.
pub open spec fn spec_validate(
    h: App,
    ts: Seq<TaskDesc>,
    rs: Seq<RegionDesc>,
    irqs: Seq<Interrupt>,
) -> Option<BootError> {
    if spec_header_err(h) is Some {
        spec_header_err(h)
    } else if spec_regions_err(rs, 0) is Some {
        spec_regions_err(rs, 0)
    } else if spec_tasks_err(ts, rs, 0) is Some {
        spec_tasks_err(ts, rs, 0)
    } else {
        spec_irqs_err(irqs, ts.len() as int, 0)
    }
}

/// The parsed image meets every invariant of the data model and every
/// cross-structure invariant.
pub open spec fn image_valid(
    h: App,
    ts: Seq<TaskDesc>,
    rs: Seq<RegionDesc>,
    irqs: Seq<Interrupt>,
) -> bool {
    &&& h.magic == CURRENT_APP_MAGIC
    &&& h.region_count < REGION_COUNT_LIMIT
    &&& all_zero(h.zeroed_expansion_space@)
    &&& (forall|j: int| 0 <= j < rs.len() ==> region_ok(#[trigger] rs[j]))
    &&& (forall|i: int| 0 <= i < ts.len() ==> task_ok(#[trigger] ts[i], rs))
    &&& (forall|m: int| 0 <= m < irqs.len() ==> (#[trigger] irqs[m]).task < ts.len())
}

/// Skipping regions that are in order does not change the first violation.
proof fn lemma_regions_err_skip(rs: Seq<RegionDesc>, j: int)
    requires
        0 <= j <= rs.len(),
        forall|k: int| 0 <= k < j ==> region_ok(#[trigger] rs[k]),
    ensures
        spec_regions_err(rs, 0) == spec_regions_err(rs, j),
    decreases j,
{
    if j > 0 {
        lemma_regions_err_skip(rs, j - 1);
        assert(spec_region_err(rs[j - 1]) is None);
    }
}

/// There is no violation from `j` on exactly when every region from `j` on
/// is in order.
proof fn lemma_regions_err_none(rs: Seq<RegionDesc>, j: int)
    requires
        0 <= j <= rs.len(),
    ensures
        spec_regions_err(rs, j) is None <==> (forall|k: int|
            j <= k < rs.len() ==> region_ok(#[trigger] rs[k])),
    decreases rs.len() - j,
{
    if j < rs.len() {
        lemma_regions_err_none(rs, j + 1);
    }
}

/// Skipping tasks that are in order does not change the first violation.
proof fn lemma_tasks_err_skip(ts: Seq<TaskDesc>, rs: Seq<RegionDesc>, i: int)
    requires
        0 <= i <= ts.len(),
        forall|k: int| 0 <= k < i ==> task_ok(#[trigger] ts[k], rs),
    ensures
        spec_tasks_err(ts, rs, 0) == spec_tasks_err(ts, rs, i),
    decreases i,
{
    if i > 0 {
        lemma_tasks_err_skip(ts, rs, i - 1);
        assert(spec_task_err(ts[i - 1], rs) is None);
    }
}

/// There is no task violation from `i` on exactly when every task from `i`
/// on is in order.
proof fn lemma_tasks_err_none(ts: Seq<TaskDesc>, rs: Seq<RegionDesc>, i: int)
    requires
        0 <= i <= ts.len(),
    ensures
        spec_tasks_err(ts, rs, i) is None <==> (forall|k: int|
            i <= k < ts.len() ==> task_ok(#[trigger] ts[k], rs)),
    decreases ts.len() - i,
{
    if i < ts.len() {
        lemma_tasks_err_none(ts, rs, i + 1);
    }
}

/// Skipping interrupts that are in order does not change the first violation.
proof fn lemma_irqs_err_skip(irqs: Seq<Interrupt>, task_count: int, m: int)
    requires
        0 <= m <= irqs.len(),
        forall|k: int| 0 <= k < m ==> (#[trigger] irqs[k]).task < task_count,
    ensures
        spec_irqs_err(irqs, task_count, 0) == spec_irqs_err(irqs, task_count, m),
    decreases m,
{
    if m > 0 {
        lemma_irqs_err_skip(irqs, task_count, m - 1);
    }
}

/// There is no interrupt violation from `m` on exactly when every interrupt
/// from `m` on names a live task.
proof fn lemma_irqs_err_none(irqs: Seq<Interrupt>, task_count: int, m: int)
    requires
        0 <= m <= irqs.len(),
    ensures
        spec_irqs_err(irqs, task_count, m) is None <==> (forall|k: int|
            m <= k < irqs.len() ==> (#[trigger] irqs[k]).task < task_count),
    decreases irqs.len() - m,
{
    if m < irqs.len() {
        lemma_irqs_err_none(irqs, task_count, m + 1);
    }
}

/// Validation accepts exactly the images that meet every invariant.
pub proof fn lemma_validate_ok_iff_valid(
    h: App,
    ts: Seq<TaskDesc>,
    rs: Seq<RegionDesc>,
    irqs: Seq<Interrupt>,
)
    ensures
        spec_validate(h, ts, rs, irqs) is None <==> image_valid(h, ts, rs, irqs),
{
    lemma_regions_err_none(rs, 0);
    lemma_tasks_err_none(ts, rs, 0);
    lemma_irqs_err_none(irqs, ts.len() as int, 0);
}

/// A header whose reserved expansion block holds any non-zero byte is
/// rejected, regardless of every other field and descriptor.
pub proof fn lemma_nonzero_expansion_rejected(
    h: App,
    ts: Seq<TaskDesc>,
    rs: Seq<RegionDesc>,
    irqs: Seq<Interrupt>,
    i: int,
)
    requires
        0 <= i < h.zeroed_expansion_space@.len(),
        h.zeroed_expansion_space@[i] != 0,
    ensures
        spec_validate(h, ts, rs, irqs) is Some,
{
    assert(!all_zero(h.zeroed_expansion_space@));
}

/// A region whose base plus size wraps the address space is rejected,
/// regardless of every other region and field.
pub proof fn lemma_region_overflow_rejected(
    h: App,
    ts: Seq<TaskDesc>,
    rs: Seq<RegionDesc>,
    irqs: Seq<Interrupt>,
    j: int,
)
    requires
        0 <= j < rs.len(),
        rs[j].base + rs[j].size > u32::MAX,
    ensures
        spec_validate(h, ts, rs, irqs) is Some,
{
    lemma_regions_err_none(rs, 0);
    assert(!region_ok(rs[j]));
}

/// Checks every invariant on the parsed image, reporting the first
/// violation in check order. Returns `Ok` exactly on valid images.
pub fn validate(h: &App, ts: &Vec<TaskDesc>, rs: &Vec<RegionDesc>, irqs: &Vec<Interrupt>) -> (r:
    Result<(), BootError>)
    requires
        h.wf(),
        forall|i: int| 0 <= i < ts@.len() ==> (#[trigger] ts@[i]).wf(),
        ts@.len() == h.task_count,
        rs@.len() == h.region_count,
        irqs@.len() == h.irq_count,
    ensures
        match r {
            Ok(()) => spec_validate(*h, ts@, rs@, irqs@) is None,
            Err(e) => spec_validate(*h, ts@, rs@, irqs@) == Some(e),
        },
        r is Ok <==> image_valid(*h, ts@, rs@, irqs@),
{
    proof {
        lemma_validate_ok_iff_valid(*h, ts@, rs@, irqs@);
    }
    // Header checks: magic, region cap, reserved expansion block.
    if h.magic != CURRENT_APP_MAGIC {
        return Err(BootError::BadMagic);
    }
    if h.region_count >= REGION_COUNT_LIMIT {
        return Err(BootError::TooManyRegions);
    }
    let space_len = h.zeroed_expansion_space.len();
    let mut z: usize = 0;
    while z < space_len
        invariant
            z <= space_len,
            space_len == h.zeroed_expansion_space@.len(),
            h.magic == CURRENT_APP_MAGIC,
            h.region_count < REGION_COUNT_LIMIT,
            forall|k: int| 0 <= k < z ==> h.zeroed_expansion_space@[k] == 0,
        decreases space_len - z,
    {
        if h.zeroed_expansion_space[z] != 0 {
            assert(!all_zero(h.zeroed_expansion_space@)) by {
                assert(h.zeroed_expansion_space@[z as int] != 0);
            }
            return Err(BootError::NonZeroExpansionSpace);
        }
        z = z + 1;
    }
    assert(all_zero(h.zeroed_expansion_space@));
    assert(spec_header_err(*h) is None);

    // Regions first, since tasks reference them.
    let region_count = rs.len();
    let mut j: usize = 0;
    while j < region_count
        invariant
            j <= region_count,
            region_count == rs@.len(),
            spec_header_err(*h) is None,
            forall|k: int| 0 <= k < j ==> region_ok(#[trigger] rs@[k]),
        decreases region_count - j,
    {
        let region = rs[j];
        proof {
            lemma_regions_err_skip(rs@, j as int);
        }
        if region.attributes & REGION_ATTRS_RESERVED != 0 {
            return Err(BootError::ReservedRegionAttributes);
        }
        if region.size > u32::MAX - region.base {
            return Err(BootError::RegionAddressOverflow);
        }
        if region.reserved_zero != 0 {
            return Err(BootError::ReservedRegionField);
        }
        assert(region_ok(rs@[j as int]));
        j = j + 1;
    }
    proof {
        lemma_regions_err_none(rs@, 0);
    }

    // Tasks next.
    let task_count = ts.len();
    let mut i: usize = 0;
    while i < task_count
        invariant
            i <= task_count,
            task_count == ts@.len(),
            forall|q: int| 0 <= q < ts@.len() ==> (#[trigger] ts@[q]).wf(),
            rs@.len() == h.region_count,
            spec_header_err(*h) is None,
            spec_regions_err(rs@, 0) is None,
            forall|k: int| 0 <= k < i ==> task_ok(#[trigger] ts@[k], rs@),
        decreases task_count - i,
    {
        let task = &ts[i];
        proof {
            lemma_tasks_err_skip(ts@, rs@, i as int);
        }
        if task.flags & TASK_FLAGS_RESERVED != 0 {
            return Err(BootError::ReservedTaskFlags);
        }
        let mut entry_found = false;
        let mut stack_found = false;
        let mut k: usize = 0;
        while k < crate::app::REGIONS_PER_TASK
            invariant
                k <= crate::app::REGIONS_PER_TASK,
                i < ts@.len(),
                *task == ts@[i as int],
                task.regions@.len() == crate::app::REGIONS_PER_TASK,
                task.flags & TASK_FLAGS_RESERVED == 0,
                rs@.len() == h.region_count,
                spec_header_err(*h) is None,
                spec_regions_err(rs@, 0) is None,
                forall|q: int| 0 <= q < i ==> task_ok(#[trigger] ts@[q], rs@),
                forall|q: int| 0 <= q < k ==> (#[trigger] task.regions@[q]) < rs@.len(),
                entry_found <==> exists|q: int| 0 <= q < k && entry_slot_ok(*task, rs@, q),
                stack_found <==> exists|q: int| 0 <= q < k && stack_slot_ok(*task, rs@, q),
            decreases crate::app::REGIONS_PER_TASK - k,
        {
            let region_idx = task.regions[k] as usize;
            if region_idx >= rs.len() {
                proof {
                    assert(!task_regions_in_range(ts@[i as int], rs@.len() as int)) by {
                        assert(ts@[i as int].regions@[k as int] >= rs@.len());
                    }
                    assert(spec_task_err(ts@[i as int], rs@) == Some(
                        BootError::RegionIndexOutOfRange,
                    ));
                    lemma_tasks_err_skip(ts@, rs@, i as int);
                }
                return Err(BootError::RegionIndexOutOfRange);
            }
            let region = rs[region_idx];
            if task.entry_point >= region.base && task.entry_point - region.base < region.size {
                if region.attributes & REGION_ATTR_EXECUTE != 0 {
                    entry_found = true;
                    assert(entry_slot_ok(*task, rs@, k as int));
                }
            }
            // The stack pointer may point just past the end: the stack is
            // initially empty.
            if task.initial_stack >= region.base && task.initial_stack - region.base
                <= region.size {
                if region.attributes & (REGION_ATTR_READ | REGION_ATTR_WRITE) == (REGION_ATTR_READ
                    | REGION_ATTR_WRITE) {
                    stack_found = true;
                    assert(stack_slot_ok(*task, rs@, k as int));
                }
            }
            k = k + 1;
        }
        if !entry_found {
            return Err(BootError::EntryRegionNotFound);
        }
        if !stack_found {
            return Err(BootError::StackRegionNotFound);
        }
        assert(task_ok(ts@[i as int], rs@));
        i = i + 1;
    }
    proof {
        lemma_tasks_err_none(ts@, rs@, 0);
    }

    // Finally, interrupt routing.
    let irq_count = irqs.len();
    let mut m: usize = 0;
    while m < irq_count
        invariant
            m <= irq_count,
            irq_count == irqs@.len(),
            ts@.len() == h.task_count,
            spec_header_err(*h) is None,
            spec_regions_err(rs@, 0) is None,
            spec_tasks_err(ts@, rs@, 0) is None,
            forall|k: int| 0 <= k < m ==> (#[trigger] irqs@[k]).task < ts@.len(),
        decreases irq_count - m,
    {
        let w = irqs[m];
        proof {
            lemma_irqs_err_skip(irqs@, ts@.len() as int, m as int);
        }
        if w.task >= h.task_count {
            return Err(BootError::InterruptTaskOutOfRange);
        }
        m = m + 1;
    }
    proof {
        lemma_irqs_err_none(irqs@, ts@.len() as int, 0);
    }
    Ok(())
}


/// Two task descriptors agree on every field the kernel reads.
pub open spec fn task_desc_eq(a: TaskDesc, b: TaskDesc) -> bool {
    &&& a.regions@ == b.regions@
    &&& a.entry_point == b.entry_point
    &&& a.initial_stack == b.initial_stack
    &&& a.priority == b.priority
    &&& a.flags == b.flags
}

/// Task checks read only the fields, so descriptors that agree on them
/// fail or pass identically.
proof fn lemma_task_err_congruent(t1: TaskDesc, t2: TaskDesc, rs: Seq<RegionDesc>)
    requires
        task_desc_eq(t1, t2),
    ensures
        spec_task_err(t1, rs) == spec_task_err(t2, rs),
        task_ok(t1, rs) == task_ok(t2, rs),
{
    assert forall|k: int| 0 <= k < t1.regions@.len() implies entry_slot_ok(t1, rs, k)
        == entry_slot_ok(t2, rs, k) by {
        assert(t1.regions@[k] == t2.regions@[k]);
    }
    assert forall|k: int| 0 <= k < t1.regions@.len() implies stack_slot_ok(t1, rs, k)
        == stack_slot_ok(t2, rs, k) by {
        assert(t1.regions@[k] == t2.regions@[k]);
    }
    assert(task_regions_in_range(t1, rs.len() as int) == task_regions_in_range(
        t2,
        rs.len() as int,
    )) by {
        if task_regions_in_range(t1, rs.len() as int) {
            assert forall|k: int| 0 <= k < t2.regions@.len() implies (#[trigger] t2.regions@[k])
                < rs.len() as int by {
                assert(t1.regions@[k] < rs.len() as int);
            }
        }
        if task_regions_in_range(t2, rs.len() as int) {
            assert forall|k: int| 0 <= k < t1.regions@.len() implies (#[trigger] t1.regions@[k])
                < rs.len() as int by {
                assert(t2.regions@[k] < rs.len() as int);
            }
        }
    }
    if (exists|k: int| 0 <= k < t1.regions@.len() && entry_slot_ok(t1, rs, k)) {
        let k = choose|k: int| 0 <= k < t1.regions@.len() && entry_slot_ok(t1, rs, k);
        assert(entry_slot_ok(t2, rs, k));
    }
    if (exists|k: int| 0 <= k < t2.regions@.len() && entry_slot_ok(t2, rs, k)) {
        let k = choose|k: int| 0 <= k < t2.regions@.len() && entry_slot_ok(t2, rs, k);
        assert(entry_slot_ok(t1, rs, k));
    }
    if (exists|k: int| 0 <= k < t1.regions@.len() && stack_slot_ok(t1, rs, k)) {
        let k = choose|k: int| 0 <= k < t1.regions@.len() && stack_slot_ok(t1, rs, k);
        assert(stack_slot_ok(t2, rs, k));
    }
    if (exists|k: int| 0 <= k < t2.regions@.len() && stack_slot_ok(t2, rs, k)) {
        let k = choose|k: int| 0 <= k < t2.regions@.len() && stack_slot_ok(t2, rs, k);
        assert(stack_slot_ok(t1, rs, k));
    }
}

/// First task violation is the same over pointwise-equal descriptor
/// sequences.
proof fn lemma_tasks_err_congruent(
    ts1: Seq<TaskDesc>,
    ts2: Seq<TaskDesc>,
    rs: Seq<RegionDesc>,
    i: int,
)
    requires
        ts1.len() == ts2.len(),
        forall|q: int| 0 <= q < ts1.len() ==> task_desc_eq(#[trigger] ts1[q], ts2[q]),
        0 <= i <= ts1.len(),
    ensures
        spec_tasks_err(ts1, rs, i) == spec_tasks_err(ts2, rs, i),
    decreases ts1.len() - i,
{
    if i < ts1.len() {
        lemma_task_err_congruent(ts1[i], ts2[i], rs);
        lemma_tasks_err_congruent(ts1, ts2, rs, i + 1);
    }
}

/// Any two parses of the same image bytes validate identically: the checks
/// read only what the bytes pin down.
pub proof fn lemma_validate_congruent(
    h1: App,
    ts1: Seq<TaskDesc>,
    rs1: Seq<RegionDesc>,
    irqs1: Seq<Interrupt>,
    h2: App,
    ts2: Seq<TaskDesc>,
    rs2: Seq<RegionDesc>,
    irqs2: Seq<Interrupt>,
    b: Seq<u8>,
)
    requires
        crate::image::parsed_image_matches(h1, ts1, rs1, irqs1, b),
        crate::image::parsed_image_matches(h2, ts2, rs2, irqs2, b),
    ensures
        spec_validate(h1, ts1, rs1, irqs1) == spec_validate(h2, ts2, rs2, irqs2),
        image_valid(h1, ts1, rs1, irqs1) == image_valid(h2, ts2, rs2, irqs2),
        ts1.len() == ts2.len(),
        rs1 == rs2,
        irqs1 == irqs2,
        h1.fault_notification == h2.fault_notification,
        forall|q: int| 0 <= q < ts1.len() ==> task_desc_eq(#[trigger] ts1[q], ts2[q]),
{
    assert(h1.zeroed_expansion_space@ == h2.zeroed_expansion_space@);
    assert(spec_header_err(h1) == spec_header_err(h2));
    assert(rs1 =~= rs2);
    assert(irqs1 =~= irqs2);
    assert forall|q: int| 0 <= q < ts1.len() implies task_desc_eq(
        #[trigger] ts1[q],
        ts2[q],
    ) by {
        assert(crate::image::task_desc_matches(
            ts1[q],
            b,
            crate::image::tasks_offset() + q * (crate::app::TASK_DESC_SIZE as int),
        ));
        assert(crate::image::task_desc_matches(
            ts2[q],
            b,
            crate::image::tasks_offset() + q * (crate::app::TASK_DESC_SIZE as int),
        ));
    }
    lemma_tasks_err_congruent(ts1, ts2, rs1, 0);
    lemma_validate_ok_iff_valid(h1, ts1, rs1, irqs1);
    lemma_validate_ok_iff_valid(h2, ts2, rs2, irqs2);
}

} // verus!
