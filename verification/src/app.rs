//! Application image data model: the header and the three descriptor kinds
//! that a build-time image carries, together with the layout constants of
//! their packed binary encoding.

use vstd::prelude::*;

verus! {

/// Value the `magic` field of a header must hold.
pub const CURRENT_APP_MAGIC: u32 = 0x1DEFA7A1;

/// Number of region slots in every task descriptor.
pub const REGIONS_PER_TASK: usize = 8;

/// Bytes of reserved expansion space in the header.
pub const EXPANSION_SPACE_SIZE: usize = 12;

/// Size in bytes of the packed header.
pub const HEADER_SIZE: usize = 32;

/// Size in bytes of one packed task descriptor.
pub const TASK_DESC_SIZE: usize = 24;

/// Size in bytes of one packed region descriptor.
pub const REGION_DESC_SIZE: usize = 16;

/// Size in bytes of one packed interrupt descriptor.
pub const INTERRUPT_SIZE: usize = 8;

/// Task flag: the task is scheduled immediately at boot.
pub const TASK_FLAG_START_AT_BOOT: u32 = 1;

/// Task flag bits with no defined meaning; must be clear.
pub const TASK_FLAGS_RESERVED: u32 = 0xFFFF_FFFE;

/// Region attribute: readable.
pub const REGION_ATTR_READ: u32 = 1;

/// Region attribute: writable.
pub const REGION_ATTR_WRITE: u32 = 2;

/// Region attribute: executable.
pub const REGION_ATTR_EXECUTE: u32 = 4;

/// Region attribute bits with no defined meaning; must be clear.
pub const REGION_ATTRS_RESERVED: u32 = 0xFFFF_FFF8;

/// Region references elsewhere in the kernel are single-byte indices, so an
/// image may define at most this many regions.
pub const REGION_COUNT_LIMIT: u32 = 256;

/// The image header: counts for the three descriptor arrays that follow it,
/// the fault-notification mask, and a reserved expansion block that must be
/// all zero.
pub struct App {
    pub magic: u32,
    pub task_count: u32,
    pub region_count: u32,
    pub irq_count: u32,
    pub fault_notification: u32,
    pub zeroed_expansion_space: Vec<u8>,
}

impl App {
    /// The expansion block carries exactly its fixed number of bytes.
    pub open spec fn wf(self) -> bool {
        self.zeroed_expansion_space@.len() == EXPANSION_SPACE_SIZE
    }
}

/// One build-time task definition.
pub struct TaskDesc {
    /// Indices into the image's region array, one per region slot.
    pub regions: Vec<u8>,
    pub entry_point: u32,
    pub initial_stack: u32,
    pub priority: u32,
    pub flags: u32,
}

impl TaskDesc {
    /// Every task descriptor carries exactly one region index per slot.
    pub open spec fn wf(self) -> bool {
        self.regions@.len() == REGIONS_PER_TASK
    }
}

/// One contiguous address range with access attributes.
#[derive(Clone, Copy, PartialEq, Eq, Structural, Debug)]
pub struct RegionDesc {
    pub base: u32,
    pub size: u32,
    pub attributes: u32,
    pub reserved_zero: u32,
}

/// One interrupt routing entry: which task the IRQ is delivered to.
#[derive(Clone, Copy, PartialEq, Eq, Structural, Debug)]
pub struct Interrupt {
    pub irq: u32,
    pub task: u32,
}

} // verus!
