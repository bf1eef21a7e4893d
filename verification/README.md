# os

The logic of a small RISC-V teaching kernel and of its user library, written in
Verus and proved against its contracts.

- `src/` is the verified library: addresses and Sv39 page tables over a model of
  physical memory, the stack frame allocator, the process identifier allocator,
  the pipe ring buffer, semaphores,
  signal delivery, task bookkeeping (`fork`, `exec` with its argument stack, `exit`), the trap decision,
  timer arithmetic, the soft mouse cursor of the GPU driver (its image is decoded
  by `tinybmp`), the handling of input events, and the waiting done by the user
  library around its system calls.
- `tests/` runs the library on concrete values.
- `app/` is the kernel program around the library: it reads the RISC-V control
  registers, drives the virtio devices, keeps the global allocators and the task
  table, and performs what the library decides (reschedule, system calls, faults).
