//! Resource-management core of a small freestanding kernel: frame, page and
//! block allocators, a priority scheduler and a round-robin scheduler, a
//! bounded message queue, and the in-memory file table beside them.

pub mod bitmap;
pub mod ipc;
pub mod memfs;
pub mod memory_pool;
pub mod occupancy;
pub mod pages;
pub mod process;
pub mod scheduler;
pub mod utils;
pub mod vfs;
