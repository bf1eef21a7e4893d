//! Constants of the kernel.
use vstd::prelude::*;

verus! {

/// Size of a user stack.
pub const USER_STACK_SIZE: usize = 8192;
/// Size of a kernel stack.
pub const KERNEL_STACK_SIZE: usize = 8192;
/// Size of the kernel heap.
pub const KERNEL_HEAP_SIZE: usize = 0x30_0000;
/// Address where the first application is loaded.
pub const APP_BASE_ADDRESS: usize = 0x8040_0000;
/// Room each loaded application has.
pub const APP_SIZE_LIMIT: usize = 0x2_0000;
/// Size of a memory page.
pub const PAGE_SIZE: usize = 0x1000;
/// Number of bits of the offset inside a page.
pub const PAGE_SIZE_BITS: usize = 0xc;
/// Address of the trampoline page, the highest page of the address space.
pub const TRAMPOLINE: usize = usize::MAX - PAGE_SIZE + 1;
/// Address of the trap context page, just below the trampoline.
pub const TRAP_CONTEXT: usize = TRAMPOLINE - PAGE_SIZE;
/// Frequency of the timer of the QEMU `virt` board.
pub const CLOCK_FREQ: usize = 12500000;
/// End of the physical memory of the QEMU `virt` board.
pub const MEMORY_END: usize = 0x8800_0000;
/// Horizontal resolution of the virtio GPU.
pub const VIRTGPU_XRES: u32 = 1280;
/// Vertical resolution of the virtio GPU.
pub const VIRTGPU_YRES: u32 = 800;

} // verus!
