//! What the process system calls of the kernel answer.
use vstd::prelude::*;
use crate::timer::get_time_ms;
use crate::config::CLOCK_FREQ;
use crate::timer::MSEC_PER_SEC;

verus! {

/// The answer to `get_time` when the timer reads `time`: the time in milliseconds.
pub fn sys_get_time(time: usize) -> (r: isize)
    ensures
        r == (time / (CLOCK_FREQ / MSEC_PER_SEC)) as isize,
{
    get_time_ms(time) as isize
}

/// The answer to `sbrk` given what moving the program break gave: the old
/// break, or -1 when the break could not move.
pub fn sys_sbrk(old_brk: Option<usize>) -> (r: isize)
    ensures
        r == match old_brk {
            Some(b) => b as isize,
            None => -1isize,
        },
{
    if let Some(old_brk) = old_brk {
        old_brk as isize
    } else {
        -1
    }
}

/// Where the program break moves when `size` bytes are added to the break
/// `brk` of a heap that starts at `heap_bottom`: `None` when it would fall
/// below the bottom of the heap.
pub fn change_brk(heap_bottom: usize, brk: usize, size: i32) -> (r: Option<usize>)
    requires
        isize::MIN <= (brk as isize) + size <= isize::MAX,
    ensures
        r == if (brk as isize) + size < (heap_bottom as isize) {
            None::<usize>
        } else {
            Some(((brk as isize) + size) as usize)
        },
{
    let new_brk = brk as isize + size as isize;
    if new_brk < heap_bottom as isize {
        None
    } else {
        Some(new_brk as usize)
    }
}

/// The answer to `getpid` for the task `pid`.
pub fn sys_getpid(pid: usize) -> (r: isize)
    ensures
        r == pid as isize,
{
    pid as isize
}

} // verus!
