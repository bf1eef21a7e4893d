//! Traps from user mode: the saved registers, and what the kernel does on each cause.
use vstd::prelude::*;

verus! {

/// The registers of a user task saved on a trap.
#[derive(Clone, Copy, Debug)]
pub struct TrapContext {
    /// General registers `x0` to `x31`.
    pub x: [usize; 32],
    /// Saved `sstatus`.
    pub sstatus: usize,
    /// Address to return to in user mode.
    pub sepc: usize,
    /// `satp` of the kernel address space.
    pub kernel_satp: usize,
    /// Top of the kernel stack of the task.
    pub kernel_sp: usize,
    /// Address of the trap handler.
    pub trap_handler: usize,
}

impl TrapContext {
    /// The registers a program starts with: every general register zero but
    /// the stack pointer `x2`, which is `sp`; execution starts at `entry` with
    /// the status `sstatus`, and a trap goes to `trap_handler` on the kernel
    /// stack `kernel_sp` in the address space `kernel_satp`.
    pub fn app_init_context(entry: usize, sp: usize, sstatus: usize, kernel_satp: usize, kernel_sp: usize, trap_handler: usize) -> (r: Self)
        ensures
            r.x@ == Seq::new(32, |i: int| 0usize).update(2, sp),
            r.sepc == entry,
            r.sstatus == sstatus,
            r.kernel_satp == kernel_satp,
            r.kernel_sp == kernel_sp,
            r.trap_handler == trap_handler,
    {
        let mut x = [0usize; 32];
        x[2] = sp;
        assert(x@ =~= Seq::new(32, |i: int| 0usize).update(2, sp));
        TrapContext { x, sstatus, sepc: entry, kernel_satp, kernel_sp, trap_handler }
    }
}

/// The causes of a trap that the kernel tells apart.
#[derive(Clone, Copy, Debug, PartialEq, Eq, Structural)]
pub enum TrapCause {
    /// The supervisor timer fired.
    SupervisorTimer,
    /// The user program made a system call.
    UserEnvCall,
    /// A store failed.
    StoreFault,
    /// A store hit a page that is not mapped for writing.
    StorePageFault,
    /// The user program ran an illegal instruction.
    IllegalInstruction,
    /// Any other cause, with its `scause` value.
    Other(usize),
}

/// What the kernel does after a trap.
#[derive(Clone, Copy, Debug, PartialEq, Eq, Structural)]
pub enum TrapAction {
    /// Program the next timer interrupt and switch to another task.
    Reschedule,
    /// Run the system call `id` with the arguments `a0`, `a1`, `a2`, and put
    /// its result in `a0`.
    Syscall { id: usize, a0: usize, a1: usize, a2: usize },
    /// The program wrote where it may not: the kernel stops.
    StoreFault,
    /// The program ran an illegal instruction: the kernel stops.
    IllegalInstruction,
    /// The kernel does not handle this cause: it stops.
    Unsupported(usize),
}

/// Decides what to do on a trap of cause `cause` with the registers `cx`. On a
/// system call, execution resumes after the `ecall` instruction, and the call
/// number and arguments are taken from `a7` and `a0` to `a2`.
pub fn trap_handler(cause: TrapCause, cx: &mut TrapContext) -> (action: TrapAction)
    requires
        cause == TrapCause::UserEnvCall ==> old(cx).sepc + 4 <= usize::MAX,
    ensures
        cause == TrapCause::UserEnvCall ==> {
            &&& final(cx).sepc == old(cx).sepc + 4
            &&& action == (TrapAction::Syscall { id: old(cx).x@[17], a0: old(cx).x@[10], a1: old(cx).x@[11], a2: old(cx).x@[12] })
        },
        cause != TrapCause::UserEnvCall ==> final(cx).sepc == old(cx).sepc,
        final(cx).x == old(cx).x,
        final(cx).sstatus == old(cx).sstatus,
        final(cx).kernel_satp == old(cx).kernel_satp,
        final(cx).kernel_sp == old(cx).kernel_sp,
        final(cx).trap_handler == old(cx).trap_handler,
        cause == TrapCause::SupervisorTimer ==> action == TrapAction::Reschedule,
        cause == TrapCause::StoreFault || cause == TrapCause::StorePageFault ==> action == TrapAction::StoreFault,
        cause == TrapCause::IllegalInstruction ==> action == TrapAction::IllegalInstruction,
        cause matches TrapCause::Other(c) ==> action == TrapAction::Unsupported(c),
{
    match cause {
        TrapCause::SupervisorTimer => TrapAction::Reschedule,
        TrapCause::UserEnvCall => {
            cx.sepc = cx.sepc + 4;
            TrapAction::Syscall { id: cx.x[17], a0: cx.x[10], a1: cx.x[11], a2: cx.x[12] }
        },
        TrapCause::StoreFault | TrapCause::StorePageFault => TrapAction::StoreFault,
        TrapCause::IllegalInstruction => TrapAction::IllegalInstruction,
        TrapCause::Other(c) => TrapAction::Unsupported(c),
    }
}

/// Puts the result of a system call in `a0` of the saved registers.
pub fn set_syscall_result(cx: &mut TrapContext, result: isize)
    ensures
        final(cx).x@ == old(cx).x@.update(10, result as usize),
        final(cx).sepc == old(cx).sepc,
        final(cx).sstatus == old(cx).sstatus,
        final(cx).kernel_satp == old(cx).kernel_satp,
        final(cx).kernel_sp == old(cx).kernel_sp,
        final(cx).trap_handler == old(cx).trap_handler,
{
    cx.x[10] = result as usize;
    assert(cx.x@ =~= old(cx).x@.update(10, result as usize));
}

} // verus!
