//! End-to-end boot scenarios: packed images fed through the full
//! parse-validate-build pipeline.

use kern::app::App;
use kern::startup::start_kernel;
use kern::task::SchedState;
use kern::task::TaskState;
use kern::validate::validate;
use kern::validate::BootError;

const MAGIC: u32 = 0x1DEFA7A1;
const READ: u32 = 1;
const WRITE: u32 = 2;
const EXECUTE: u32 = 4;
const START_AT_BOOT: u32 = 1;

fn push_le32(v: &mut Vec<u8>, x: u32) {
    v.extend_from_slice(&x.to_le_bytes());
}

fn push_header(v: &mut Vec<u8>, magic: u32, tc: u32, rc: u32, ic: u32, fault: u32) {
    push_le32(v, magic);
    push_le32(v, tc);
    push_le32(v, rc);
    push_le32(v, ic);
    push_le32(v, fault);
    v.extend_from_slice(&[0u8; 12]);
}

fn push_task(v: &mut Vec<u8>, regions: [u8; 8], entry: u32, stack: u32, prio: u32, flags: u32) {
    v.extend_from_slice(&regions);
    push_le32(v, entry);
    push_le32(v, stack);
    push_le32(v, prio);
    push_le32(v, flags);
}

fn push_region(v: &mut Vec<u8>, base: u32, size: u32, attrs: u32, reserved: u32) {
    push_le32(v, base);
    push_le32(v, size);
    push_le32(v, attrs);
    push_le32(v, reserved);
}

fn push_irq(v: &mut Vec<u8>, irq: u32, task: u32) {
    push_le32(v, irq);
    push_le32(v, task);
}

/// One task, two regions: entry in region 0 (executable), stack at the
/// exact top of region 1 (read-write).
fn two_region_image(region1_attrs: u32) -> Vec<u8> {
    let mut v = Vec::new();
    push_header(&mut v, MAGIC, 1, 2, 0, 0x40);
    push_task(
        &mut v,
        [0, 1, 0, 0, 0, 0, 0, 0],
        0x0800_0100,
        0x2000_1000,
        3,
        START_AT_BOOT,
    );
    push_region(&mut v, 0x0800_0000, 0x1000, READ | EXECUTE, 0);
    push_region(&mut v, 0x2000_0000, 0x1000, region1_attrs, 0);
    v
}

#[test]
fn boots_single_task_image() {
    let image = two_region_image(READ | WRITE);
    let handoff = start_kernel(&image, 0, 1 << 20).expect("valid image must boot");
    assert_eq!(handoff.tasks.len(), 1);
    assert_eq!(handoff.first_task_index, 0);
    assert_eq!(handoff.fault_notification, 0x40);
    let task = &handoff.tasks[0];
    assert_eq!(task.state, TaskState::Healthy(SchedState::Runnable));
    assert_eq!(task.priority.0, 3);
    assert_eq!(task.generation.0, 0);
    assert_eq!(task.notification_mask, 0);
    assert_eq!(task.notifications, 0);
    assert_eq!(task.descriptor.entry_point, 0x0800_0100);
    assert_eq!(task.descriptor.initial_stack, 0x2000_1000);
}

#[test]
fn resolves_region_tables_in_slot_order() {
    let mut v = Vec::new();
    push_header(&mut v, MAGIC, 1, 2, 0, 0);
    // Region indices deliberately out of numeric order: slot 0 names
    // region 1, slot 1 names region 0.
    push_task(
        &mut v,
        [1, 0, 1, 1, 1, 1, 1, 1],
        0x0800_0010,
        0x2000_0800,
        0,
        START_AT_BOOT,
    );
    push_region(&mut v, 0x0800_0000, 0x1000, READ | EXECUTE, 0);
    push_region(&mut v, 0x2000_0000, 0x1000, READ | WRITE, 0);
    let handoff = start_kernel(&v, 0, 1 << 20).expect("valid image must boot");
    let table = &handoff.tasks[0].region_table;
    assert_eq!(table.len(), 8);
    assert_eq!(table[0].base, 0x2000_0000);
    assert_eq!(table[1].base, 0x0800_0000);
    for k in 2..8 {
        assert_eq!(table[k].base, 0x2000_0000);
    }
}

#[test]
fn runnable_iff_started_at_boot() {
    let mut v = Vec::new();
    push_header(&mut v, MAGIC, 2, 2, 0, 0);
    push_task(&mut v, [0; 8], 0x0800_0100, 0x0900_0000, 1, 0);
    push_task(
        &mut v,
        [0, 1, 0, 0, 0, 0, 0, 0],
        0x0800_0200,
        0x2000_0400,
        2,
        START_AT_BOOT,
    );
    push_region(
        &mut v,
        0x0800_0000,
        0x1000_0000,
        READ | WRITE | EXECUTE,
        0,
    );
    push_region(&mut v, 0x2000_0000, 0x1000, READ | WRITE, 0);
    let handoff = start_kernel(&v, 64, 1 << 20).expect("valid image must boot");
    assert_eq!(
        handoff.tasks[0].state,
        TaskState::Healthy(SchedState::Stopped)
    );
    assert_eq!(
        handoff.tasks[1].state,
        TaskState::Healthy(SchedState::Runnable)
    );
    // Scanning starts after the sentinel last task, from index zero; task
    // zero is stopped, so task one runs first.
    assert_eq!(handoff.first_task_index, 1);
}

#[test]
fn resolved_table_covers_entry_and_stack() {
    let image = two_region_image(READ | WRITE);
    let handoff = start_kernel(&image, 0, 1 << 20).expect("valid image must boot");
    let task = &handoff.tasks[0];
    let entry = task.descriptor.entry_point;
    let stack = task.descriptor.initial_stack;
    assert!(task.region_table.iter().any(|r| {
        r.base <= entry && entry - r.base < r.size && r.attributes & EXECUTE != 0
    }));
    assert!(task.region_table.iter().any(|r| {
        r.base <= stack
            && stack - r.base <= r.size
            && r.attributes & (READ | WRITE) == (READ | WRITE)
    }));
}

#[test]
fn rejects_stack_region_without_write() {
    // Same image as the booting one, but the stack region lacks WRITE: no
    // task table is ever constructed.
    let image = two_region_image(READ);
    let r = start_kernel(&image, 0, 1 << 20);
    assert_eq!(r.err(), Some(BootError::StackRegionNotFound));
}

#[test]
fn rejects_interrupt_for_missing_task_before_allocating() {
    let mut v = Vec::new();
    push_header(&mut v, MAGIC, 1, 2, 1, 0);
    push_task(
        &mut v,
        [0, 1, 0, 0, 0, 0, 0, 0],
        0x0800_0100,
        0x2000_1000,
        0,
        START_AT_BOOT,
    );
    push_region(&mut v, 0x0800_0000, 0x1000, READ | EXECUTE, 0);
    push_region(&mut v, 0x2000_0000, 0x1000, READ | WRITE, 0);
    push_irq(&mut v, 17, 5);
    // Scratch of size zero: validation must reject before any allocation
    // is even attempted.
    let r = start_kernel(&v, 0, 0);
    assert_eq!(r.err(), Some(BootError::InterruptTaskOutOfRange));
}

#[test]
fn rejects_nonzero_expansion_space_regardless_of_the_rest() {
    // Expansion byte set, and a region that also overflows: the expansion
    // defect is reported, and the image is rejected either way.
    let mut v = Vec::new();
    push_header(&mut v, MAGIC, 1, 1, 0, 0);
    v[20 + 5] = 0xA5;
    push_task(&mut v, [0; 8], 0x0800_0100, 0x0800_0800, 0, START_AT_BOOT);
    push_region(&mut v, 0xFFFF_F000, 0x2000, READ | WRITE | EXECUTE, 0);
    let r = start_kernel(&v, 0, 1 << 20);
    assert_eq!(r.err(), Some(BootError::NonZeroExpansionSpace));
}

#[test]
fn rejects_wrapping_region_regardless_of_other_regions() {
    let mut v = Vec::new();
    push_header(&mut v, MAGIC, 1, 2, 0, 0);
    push_task(&mut v, [0; 8], 0x0800_0100, 0x0800_0800, 0, START_AT_BOOT);
    // Region 0 is fine; region 1 wraps the address space.
    push_region(&mut v, 0x0800_0000, 0x1000, READ | WRITE | EXECUTE, 0);
    push_region(&mut v, 0xFFFF_F000, 0x2000, READ, 0);
    let r = start_kernel(&v, 0, 1 << 20);
    assert_eq!(r.err(), Some(BootError::RegionAddressOverflow));
}

#[test]
fn rejects_bad_magic() {
    let mut image = two_region_image(READ | WRITE);
    image[0] ^= 0xFF;
    let r = start_kernel(&image, 0, 1 << 20);
    assert_eq!(r.err(), Some(BootError::BadMagic));
}

#[test]
fn rejects_reserved_region_attribute_bits() {
    let image = two_region_image(READ | WRITE | 0x100);
    let r = start_kernel(&image, 0, 1 << 20);
    assert_eq!(r.err(), Some(BootError::ReservedRegionAttributes));
}

#[test]
fn rejects_nonzero_region_reserved_field() {
    let mut v = Vec::new();
    push_header(&mut v, MAGIC, 1, 1, 0, 0);
    push_task(&mut v, [0; 8], 0x0800_0100, 0x0800_0800, 0, START_AT_BOOT);
    push_region(&mut v, 0x0800_0000, 0x1000, READ | WRITE | EXECUTE, 7);
    let r = start_kernel(&v, 0, 1 << 20);
    assert_eq!(r.err(), Some(BootError::ReservedRegionField));
}

#[test]
fn rejects_reserved_task_flags() {
    let mut v = Vec::new();
    push_header(&mut v, MAGIC, 1, 1, 0, 0);
    push_task(&mut v, [0; 8], 0x0800_0100, 0x0800_0800, 0, START_AT_BOOT | 0x8000);
    push_region(&mut v, 0x0800_0000, 0x1000, READ | WRITE | EXECUTE, 0);
    let r = start_kernel(&v, 0, 1 << 20);
    assert_eq!(r.err(), Some(BootError::ReservedTaskFlags));
}

#[test]
fn rejects_region_index_past_region_count() {
    let mut v = Vec::new();
    push_header(&mut v, MAGIC, 1, 1, 0, 0);
    push_task(&mut v, [0, 3, 0, 0, 0, 0, 0, 0], 0x0800_0100, 0x0800_0800, 0, START_AT_BOOT);
    push_region(&mut v, 0x0800_0000, 0x1000, READ | WRITE | EXECUTE, 0);
    let r = start_kernel(&v, 0, 1 << 20);
    assert_eq!(r.err(), Some(BootError::RegionIndexOutOfRange));
}

#[test]
fn rejects_entry_point_outside_executable_regions() {
    let mut v = Vec::new();
    push_header(&mut v, MAGIC, 1, 1, 0, 0);
    // Entry point far outside the single region.
    push_task(&mut v, [0; 8], 0x9000_0000, 0x0800_0800, 0, START_AT_BOOT);
    push_region(&mut v, 0x0800_0000, 0x1000, READ | WRITE | EXECUTE, 0);
    let r = start_kernel(&v, 0, 1 << 20);
    assert_eq!(r.err(), Some(BootError::EntryRegionNotFound));
}

#[test]
fn rejects_too_many_regions() {
    let mut v = Vec::new();
    push_header(&mut v, MAGIC, 1, 256, 0, 0);
    push_task(&mut v, [0; 8], 0x0800_0100, 0x0800_0800, 0, START_AT_BOOT);
    for _ in 0..256 {
        push_region(&mut v, 0x0800_0000, 0x1000, READ | WRITE | EXECUTE, 0);
    }
    let r = start_kernel(&v, 0, 1 << 20);
    assert_eq!(r.err(), Some(BootError::TooManyRegions));
}

#[test]
fn reports_exhaustion_on_tiny_scratch() {
    let image = two_region_image(READ | WRITE);
    let r = start_kernel(&image, 0, 8);
    assert_eq!(r.err(), Some(BootError::OutOfScratch));
}

#[test]
fn stack_pointer_at_exact_region_top_is_accepted() {
    // Moving the stack pointer one byte further must be rejected.
    let good = two_region_image(READ | WRITE);
    assert!(start_kernel(&good, 0, 1 << 20).is_ok());
    let mut v = Vec::new();
    push_header(&mut v, MAGIC, 1, 2, 0, 0x40);
    push_task(
        &mut v,
        [0, 1, 0, 0, 0, 0, 0, 0],
        0x0800_0100,
        0x2000_1001,
        3,
        START_AT_BOOT,
    );
    push_region(&mut v, 0x0800_0000, 0x1000, READ | EXECUTE, 0);
    push_region(&mut v, 0x2000_0000, 0x1000, READ | WRITE, 0);
    let r = start_kernel(&v, 0, 1 << 20);
    assert_eq!(r.err(), Some(BootError::StackRegionNotFound));
}

#[test]
fn parses_header_fields() {
    let mut v = Vec::new();
    push_header(&mut v, MAGIC, 7, 9, 2, 0xDEAD_BEEF);
    let h: App = kern::image::parse_header(&v);
    assert_eq!(h.magic, MAGIC);
    assert_eq!(h.task_count, 7);
    assert_eq!(h.region_count, 9);
    assert_eq!(h.irq_count, 2);
    assert_eq!(h.fault_notification, 0xDEAD_BEEF);
    assert_eq!(h.zeroed_expansion_space, vec![0u8; 12]);
}

#[test]
fn validates_parsed_arrays_directly() {
    let image = two_region_image(READ | WRITE);
    let h = kern::image::parse_header(&image);
    let ts = kern::image::parse_task_descs(&image, 32, 1);
    let rs = kern::image::parse_region_descs(&image, 32 + 24, 2);
    let irqs = kern::image::parse_interrupts(&image, 32 + 24 + 32, 0);
    assert_eq!(ts[0].regions, vec![0u8, 1, 0, 0, 0, 0, 0, 0]);
    assert_eq!(ts[0].priority, 3);
    assert_eq!(rs[1].attributes, READ | WRITE);
    assert!(validate(&h, &ts, &rs, &irqs).is_ok());
}
