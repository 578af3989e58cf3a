//! Virtual-memory core of a 64-bit kernel: physical frames and virtual pages,
//! the four-level page-table hierarchy with its recursive root slot, the
//! mapper that translates, maps and unmaps pages, and the pool of free
//! physical frames that feeds it.

pub mod address;
pub mod entry;
pub mod table;
pub mod allocator;
pub mod pmm;
pub mod mapper;
pub mod remap;
