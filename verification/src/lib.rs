//! Capability and endpoint management for a many-tile microkernel.
//!
//! A privileged kernel tile manages revocable, inheritable capabilities for
//! the untrusted activities running on the other tiles, and multiplexes a
//! small fixed set of hardware communication endpoints per tile.  The crate
//! models the kernel-side state explicitly: the capability table with its
//! inheritance tree and kernel-memory quota bookkeeping, the per-tile
//! endpoint allocator and multiplexer, the FIFO side-call send queue, and
//! the register-level driver for the tagged communication unit (TCU).
//!
//! Hardware and the tile-resident stubs are represented by explicit state
//! structures (`Tcu`, the event table of `ThreadMng`), so every decision the
//! kernel makes is a function from plain values to plain values and is
//! verified; an embedder performs the actual device accesses and feeds
//! replies back in.

use vstd::prelude::*;

pub mod caps;
pub mod epalloc;
pub mod err;
pub mod kobj;
pub mod lazy;
pub mod ktcu;
pub mod pemux;
pub mod platform;
pub mod sel;
pub mod sendqueue;
pub mod sidecalls;
pub mod tcu;
pub mod tilemng;
pub mod tilemux;

verus! {

} // verus!
