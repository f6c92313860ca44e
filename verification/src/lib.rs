//! The actor-process memory and messaging core of a lightweight-process
//! virtual machine.
//!
//! Each process owns a private heap carved out of a shared pool of memory
//! blocks, and processes communicate exclusively by sending object
//! references through per-process mailboxes. The modules below cover the
//! mailbox message-queue protocol, the cross-heap object copier it depends
//! on, the lazily allocated per-object metadata header, and the work list
//! used to hand root sets to a garbage collector.

use vstd::prelude::*;

pub mod allocator;
pub mod diagnostics;
pub mod laws;
pub mod mailbox;
pub mod object_header;
pub mod object_pointer;
pub mod sync;
pub mod work_list;

verus! {

} // verus!
