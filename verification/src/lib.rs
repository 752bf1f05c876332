//! A growable-array container whose backing storage lives in one of two
//! regimes: *compact* storage borrowed from an enclosing relocatable region,
//! or *free* storage that the container owns and releases itself.
//!
//! The crate models raw memory with a narrow, audited set of primitives: an
//! instrumented [`allocator::Allocator`] capability hands out and takes back
//! backing buffers, a tagged [`compact_vec::Mode`] records which regime a
//! buffer is in, and the [`compact::Compact`] contract says how a value is
//! measured, materialized at a new base address, and turned into a fully
//! self-owned copy.

pub mod allocator;
pub mod compact;
pub mod compact_vec;
pub mod into_iter;
pub mod laws;
