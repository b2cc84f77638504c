//! Boot-time core of a statically configured, multi-tasking embedded kernel.
//!
//! At power-on the embedding hands the kernel a build-time-generated
//! application image describing a fixed set of isolated tasks, their memory
//! regions, and interrupt routing. This crate validates that image before any
//! of it is trusted, materializes the kernel's runtime task table from a
//! boot-only bump allocator, and computes the handoff that selects the first
//! task to run. Everything here is verified; the embedding performs the
//! architecture-specific actions (memory protection, the privilege-mode
//! transfer) on the values this crate produces.

pub mod app;
pub mod bump;
pub mod counters;
pub mod image;
pub mod startup;
pub mod task;
pub mod validate;
