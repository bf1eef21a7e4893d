//! A verified model of the logic of a small RISC-V teaching kernel and of its
//! user library: the pipe ring buffer, the stack frame allocator, Sv39 page
//! tables over a model of physical memory, semaphores, signals, task
//! bookkeeping, the soft cursor of the GPU driver and the user-side helpers.
use vstd::prelude::*;

pub mod config;
pub mod address;
pub mod memory;
pub mod frame_allocator;
pub mod page_table;
pub mod pipe;
pub mod semaphore;
pub mod trap;
pub mod signal;
pub mod gpu;
pub mod input;
pub mod task;
pub mod timer;
pub mod syscall;
pub mod user;
pub mod mutex;
pub mod loader;
pub mod pid;
