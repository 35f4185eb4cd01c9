//! Cairn: the verified core of a small capability kernel.
//!
//! Authority is a capability: an entry in a domain's table that names an object, the
//! rights to it and the epoch at which it was minted. Every operation is an invocation of
//! one. The modules hold the decisions and the data of the kernel; whatever touches the
//! machine (ports, device memory, page tables, interrupts) is done by the caller, who
//! hands over plain values and carries out the actions that come back.
pub mod capability;
pub mod table;
pub mod capspace;
pub mod frame_bitmap;
pub mod memory;
pub mod objstore;
pub mod sched;
pub mod supervisor;
pub mod syscall;
pub mod pci;
pub mod virtio_blk;
pub mod paging;
pub mod gdt;
pub mod interrupts;
pub mod apic;
pub mod serial;
pub mod user;
pub mod boot;
