//! Image parser: interprets a packed byte image as a header followed by
//! three back-to-back descriptor arrays, without validating any contents.
//!
//! The layout is bit-exact: the header sits at offset zero, immediately
//! followed by `task_count` task descriptors, then `region_count` region
//! descriptors, then `irq_count` interrupt descriptors, all little-endian
//! and tightly packed. Parsing is pure address arithmetic; every invariant
//! on the decoded values is checked later by the validator.

use vstd::prelude::*;

use crate::app::App;
use crate::app::Interrupt;
use crate::app::RegionDesc;
use crate::app::TaskDesc;
use crate::app::EXPANSION_SPACE_SIZE;
use crate::app::HEADER_SIZE;
use crate::app::INTERRUPT_SIZE;
use crate::app::REGIONS_PER_TASK;
use crate::app::REGION_DESC_SIZE;
use crate::app::TASK_DESC_SIZE;

verus! {

/// The little-endian 32-bit word at offset `i` of `b`.
pub open spec fn le32(b: Seq<u8>, i: int) -> u32
    recommends
        0 <= i,
        i + 4 <= b.len(),
{
    (b[i] + b[i + 1] * 0x100 + b[i + 2] * 0x1_0000 + b[i + 3] * 0x100_0000) as u32
}

/// Task count encoded in the header of `b`.
pub open spec fn spec_task_count(b: Seq<u8>) -> u32 {
    le32(b, 4)
}

/// Region count encoded in the header of `b`.
pub open spec fn spec_region_count(b: Seq<u8>) -> u32 {
    le32(b, 8)
}

/// Interrupt count encoded in the header of `b`.
pub open spec fn spec_irq_count(b: Seq<u8>) -> u32 {
    le32(b, 12)
}

/// Offset of the task descriptor array: right after the header.
pub open spec fn tasks_offset() -> int {
    HEADER_SIZE as int
}

/// Offset of the region descriptor array: right after the task descriptors.
pub open spec fn regions_offset(b: Seq<u8>) -> int {
    tasks_offset() + spec_task_count(b) * (TASK_DESC_SIZE as int)
}

/// Offset of the interrupt array: right after the region descriptors.
pub open spec fn irqs_offset(b: Seq<u8>) -> int {
    regions_offset(b) + spec_region_count(b) * (REGION_DESC_SIZE as int)
}

/// Total number of bytes the header's counts claim the image occupies.
pub open spec fn spec_image_size(b: Seq<u8>) -> int {
    irqs_offset(b) + spec_irq_count(b) * (INTERRUPT_SIZE as int)
}

/// The parsed header `h` holds exactly the fields encoded at the start of `b`.
pub open spec fn header_matches(h: App, b: Seq<u8>) -> bool {
    &&& h.magic == le32(b, 0)
    &&& h.task_count == spec_task_count(b)
    &&& h.region_count == spec_region_count(b)
    &&& h.irq_count == spec_irq_count(b)
    &&& h.fault_notification == le32(b, 16)
    &&& h.zeroed_expansion_space@ == b.subrange(20, 32)
}

/// The parsed task descriptor `t` holds exactly the fields encoded at
/// offset `off` of `b`.
pub open spec fn task_desc_matches(t: TaskDesc, b: Seq<u8>, off: int) -> bool {
    &&& t.regions@ == b.subrange(off, off + REGIONS_PER_TASK as int)
    &&& t.entry_point == le32(b, off + 8)
    &&& t.initial_stack == le32(b, off + 12)
    &&& t.priority == le32(b, off + 16)
    &&& t.flags == le32(b, off + 20)
}

/// Every element of `ts` matches its packed encoding in the task array of `b`.
pub open spec fn task_descs_match(ts: Seq<TaskDesc>, b: Seq<u8>) -> bool {
    forall|i: int|
        0 <= i < ts.len() ==> task_desc_matches(
            #[trigger] ts[i],
            b,
            tasks_offset() + i * (TASK_DESC_SIZE as int),
        )
}

/// The parsed region descriptor `r` holds exactly the fields encoded at
/// offset `off` of `b`.
pub open spec fn region_desc_matches(r: RegionDesc, b: Seq<u8>, off: int) -> bool {
    &&& r.base == le32(b, off)
    &&& r.size == le32(b, off + 4)
    &&& r.attributes == le32(b, off + 8)
    &&& r.reserved_zero == le32(b, off + 12)
}

/// Every element of `rs` matches its packed encoding in the region array of `b`.
pub open spec fn region_descs_match(rs: Seq<RegionDesc>, b: Seq<u8>) -> bool {
    forall|j: int|
        0 <= j < rs.len() ==> region_desc_matches(
            #[trigger] rs[j],
            b,
            regions_offset(b) + j * (REGION_DESC_SIZE as int),
        )
}

/// The parsed interrupt descriptor holds exactly the fields encoded at
/// offset `off` of `b`.
pub open spec fn interrupt_matches(w: Interrupt, b: Seq<u8>, off: int) -> bool {
    &&& w.irq == le32(b, off)
    &&& w.task == le32(b, off + 4)
}

/// Every element of `irqs` matches its packed encoding in the interrupt
/// array of `b`.
pub open spec fn interrupts_match(irqs: Seq<Interrupt>, b: Seq<u8>) -> bool {
    forall|m: int|
        0 <= m < irqs.len() ==> interrupt_matches(
            #[trigger] irqs[m],
            b,
            irqs_offset(b) + m * (INTERRUPT_SIZE as int),
        )
}

/// All three parsed arrays and the header match the image bytes, with one
/// element per header-declared count.
pub open spec fn parsed_image_matches(
    h: App,
    ts: Seq<TaskDesc>,
    rs: Seq<RegionDesc>,
    irqs: Seq<Interrupt>,
    b: Seq<u8>,
) -> bool {
    &&& h.wf()
    &&& header_matches(h, b)
    &&& ts.len() == spec_task_count(b)
    &&& (forall|i: int| 0 <= i < ts.len() ==> (#[trigger] ts[i]).wf())
    &&& task_descs_match(ts, b)
    &&& rs.len() == spec_region_count(b)
    &&& region_descs_match(rs, b)
    &&& irqs.len() == spec_irq_count(b)
    &&& interrupts_match(irqs, b)
}

/// Reads the little-endian 32-bit word at offset `i`.
pub fn read_le32(b: &Vec<u8>, i: usize) -> (r: u32)
    requires
        i + 4 <= b@.len(),
    ensures
        r == le32(b@, i as int),
{
    let n = b.len();
    assert(n >= i + 4);
    let b0 = b[i] as u32;
    let b1 = b[i + 1] as u32;
    let b2 = b[i + 2] as u32;
    let b3 = b[i + 3] as u32;
    b0 + b1 * 0x100 + b2 * 0x1_0000 + b3 * 0x100_0000
}

/// Copies `len` bytes starting at offset `off`.
fn copy_bytes(b: &Vec<u8>, off: usize, len: usize) -> (r: Vec<u8>)
    requires
        off + len <= b@.len(),
    ensures
        r@ == b@.subrange(off as int, off + len),
{
    let n = b.len();
    assert(n >= off + len);
    let mut r: Vec<u8> = Vec::new();
    let mut j: usize = 0;
    while j < len
        invariant
            j <= len,
            off + len <= b@.len(),
            b@.len() <= usize::MAX,
            r@ =~= b@.subrange(off as int, off + j),
        decreases len - j,
    {
        r.push(b[off + j]);
        j = j + 1;
    }
    proof {
        assert(r@ =~= b@.subrange(off as int, off + len));
    }
    r
}

/// Decodes the header at the start of the image.
pub fn parse_header(b: &Vec<u8>) -> (h: App)
    requires
        b@.len() >= HEADER_SIZE,
    ensures
        h.wf(),
        header_matches(h, b@),
{
    App {
        magic: read_le32(b, 0),
        task_count: read_le32(b, 4),
        region_count: read_le32(b, 8),
        irq_count: read_le32(b, 12),
        fault_notification: read_le32(b, 16),
        zeroed_expansion_space: copy_bytes(b, 20, EXPANSION_SPACE_SIZE),
    }
}

/// Decodes `count` task descriptors starting at offset `off`.
pub fn parse_task_descs(b: &Vec<u8>, off: usize, count: usize) -> (ts: Vec<TaskDesc>)
    requires
        off + count * (TASK_DESC_SIZE as int) <= b@.len(),
    ensures
        ts@.len() == count,
        forall|i: int|
            0 <= i < count ==> (#[trigger] ts@[i]).wf() && task_desc_matches(
                ts@[i],
                b@,
                off + i * (TASK_DESC_SIZE as int),
            ),
{
    let n = b.len();
    let mut ts: Vec<TaskDesc> = Vec::new();
    let mut i: usize = 0;
    while i < count
        invariant
            i <= count,
            off + count * (TASK_DESC_SIZE as int) <= b@.len(),
            b@.len() <= usize::MAX,
            ts@.len() == i,
            forall|k: int|
                0 <= k < i ==> (#[trigger] ts@[k]).wf() && task_desc_matches(
                    ts@[k],
                    b@,
                    off + k * (TASK_DESC_SIZE as int),
                ),
        decreases count - i,
    {
        assert(i * (TASK_DESC_SIZE as int) + TASK_DESC_SIZE <= count * (TASK_DESC_SIZE as int))
            by (nonlinear_arith)
            requires
                i < count,
        ;
        let toff = off + i * TASK_DESC_SIZE;
        let t = TaskDesc {
            regions: copy_bytes(b, toff, REGIONS_PER_TASK),
            entry_point: read_le32(b, toff + 8),
            initial_stack: read_le32(b, toff + 12),
            priority: read_le32(b, toff + 16),
            flags: read_le32(b, toff + 20),
        };
        ts.push(t);
        i = i + 1;
    }
    ts
}

/// Decodes `count` region descriptors starting at offset `off`.
pub fn parse_region_descs(b: &Vec<u8>, off: usize, count: usize) -> (rs: Vec<RegionDesc>)
    requires
        off + count * (REGION_DESC_SIZE as int) <= b@.len(),
    ensures
        rs@.len() == count,
        forall|j: int|
            0 <= j < count ==> region_desc_matches(
                #[trigger] rs@[j],
                b@,
                off + j * (REGION_DESC_SIZE as int),
            ),
{
    let n = b.len();
    let mut rs: Vec<RegionDesc> = Vec::new();
    let mut j: usize = 0;
    while j < count
        invariant
            j <= count,
            off + count * (REGION_DESC_SIZE as int) <= b@.len(),
            b@.len() <= usize::MAX,
            rs@.len() == j,
            forall|k: int|
                0 <= k < j ==> region_desc_matches(
                    #[trigger] rs@[k],
                    b@,
                    off + k * (REGION_DESC_SIZE as int),
                ),
        decreases count - j,
    {
        assert(j * (REGION_DESC_SIZE as int) + REGION_DESC_SIZE <= count * (
        REGION_DESC_SIZE as int)) by (nonlinear_arith)
            requires
                j < count,
        ;
        let roff = off + j * REGION_DESC_SIZE;
        let r = RegionDesc {
            base: read_le32(b, roff),
            size: read_le32(b, roff + 4),
            attributes: read_le32(b, roff + 8),
            reserved_zero: read_le32(b, roff + 12),
        };
        rs.push(r);
        j = j + 1;
    }
    rs
}

/// Decodes `count` interrupt descriptors starting at offset `off`.
pub fn parse_interrupts(b: &Vec<u8>, off: usize, count: usize) -> (irqs: Vec<Interrupt>)
    requires
        off + count * (INTERRUPT_SIZE as int) <= b@.len(),
    ensures
        irqs@.len() == count,
        forall|m: int|
            0 <= m < count ==> interrupt_matches(
                #[trigger] irqs@[m],
                b@,
                off + m * (INTERRUPT_SIZE as int),
            ),
{
    let n = b.len();
    let mut irqs: Vec<Interrupt> = Vec::new();
    let mut m: usize = 0;
    while m < count
        invariant
            m <= count,
            off + count * (INTERRUPT_SIZE as int) <= b@.len(),
            b@.len() <= usize::MAX,
            irqs@.len() == m,
            forall|k: int|
                0 <= k < m ==> interrupt_matches(
                    #[trigger] irqs@[k],
                    b@,
                    off + k * (INTERRUPT_SIZE as int),
                ),
        decreases count - m,
    {
        assert(m * (INTERRUPT_SIZE as int) + INTERRUPT_SIZE <= count * (INTERRUPT_SIZE as int))
            by (nonlinear_arith)
            requires
                m < count,
        ;
        let woff = off + m * INTERRUPT_SIZE;
        let w = Interrupt { irq: read_le32(b, woff), task: read_le32(b, woff + 4) };
        irqs.push(w);
        m = m + 1;
    }
    irqs
}

} // verus!
