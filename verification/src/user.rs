//! The decisions of the user library around its system calls.
use vstd::prelude::*;

verus! {

/// What `waitpid` answers while the awaited child is still running.
pub const WAIT_AGAIN: isize = -2;

/// What `wait` does with the answer `ret` of `waitpid(-1)`: try again after
/// yielding when no child has exited yet, else return the answer (-1 or the
/// identifier of the child that exited).
pub fn wait(ret: isize) -> (r: Option<isize>)
    ensures
        r == if ret == WAIT_AGAIN { None } else { Some(ret) },
{
    match ret {
        -2 => None,
        exit_pid => Some(exit_pid),
    }
}

/// What `waitpid` does with the answer `ret` of the system call for one child:
/// try again after yielding while the child runs, else return the answer.
pub fn waitpid(ret: isize) -> (r: Option<isize>)
    ensures
        r == if ret == WAIT_AGAIN { None } else { Some(ret) },
{
    match ret {
        -2 => None,
        exit_pid => Some(exit_pid),
    }
}

/// Whether `sleep(ms)` started at time `start` must still wait when the time
/// is `now`.
pub fn sleep(start: isize, ms: usize, now: isize) -> (r: bool)
    requires
        isize::MIN <= start + (ms as isize) <= isize::MAX,
    ensures
        r == (now < start + (ms as isize)),
{
    let wait_for = start + ms as isize;
    now < wait_for
}

} // verus!
