//! Verified core of a 4-level (x86-64 style) page-table manager: typed
//! virtual/physical addresses, bit-packed table entries, level-tagged tables,
//! and the mapping, translation and unmapping algorithms of an address space,
//! together with the allocator and TLB interfaces they coordinate with.

pub mod addr;
pub mod entry;
pub mod flags;
pub mod frames;
pub mod lifecycle;
pub mod memory;
pub mod paging;
pub mod table;
