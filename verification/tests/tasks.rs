use os::address::PhysPageNum;
use os::signal::{
    check_pending_signals, current_add_signal, handle_signals, SignalAction, SignalActions, SignalFlags, SignalState,
    SIGCONT, SIGDEF, SIGINT, SIGKILL, SIGSTOP, SIGUSR1,
};
use os::pid::PidAllocator;
use os::task::{exec_stack_layout, PidHandle, ProgramStart, TaskControlBlock, TaskStatus};
use os::trap::{set_syscall_result, trap_handler, TrapAction, TrapCause, TrapContext};

fn cx() -> TrapContext {
    TrapContext { x: [0; 32], sstatus: 0, sepc: 0x1000, kernel_satp: 0, kernel_sp: 0, trap_handler: 0 }
}

fn state() -> SignalState {
    SignalState {
        signals: SignalFlags { bits: 0 },
        signal_mask: SignalFlags { bits: 0 },
        handling_sig: -1,
        signal_actions: SignalActions { table: [SignalAction::default_action(); 32] },
        killed: false,
        frozen: false,
        trap_ctx_backup: None,
    }
}

fn start() -> ProgramStart {
    ProgramStart { entry: 0x1_0000, sstatus: 0x20, kernel_satp: 0x8000_0000_0008_0000, trap_handler: 0xffff_f000 }
}

/// An allocator that has handed out the identifiers below `n`.
fn pids_from(n: usize) -> PidAllocator {
    let mut a = PidAllocator::new();
    for _ in 0..n {
        a.allocate();
    }
    a
}

fn task_in(pids: &mut PidAllocator) -> TaskControlBlock<u32> {
    let mut c = cx();
    TaskControlBlock::new(pids, 0x9000, PhysPageNum(0x55), 0x10000, 0x8000_0000_0000_1234, 0, 1, 2, start(), &mut c)
}

fn task() -> TaskControlBlock<u32> {
    task_in(&mut pids_from(3))
}

#[test]
fn new_task_starts_at_its_entry_point() {
    let mut c = cx();
    c.x[5] = 7;
    let mut pids = pids_from(3);
    let t = TaskControlBlock::new(&mut pids, 0x9000, PhysPageNum(0x55), 0x10000, 0x42, 0u32, 1, 2, start(), &mut c);
    assert_eq!(t.getpid(), 3);
    assert!(pids.is_live(3));
    let mut x = [0usize; 32];
    x[2] = 0x10000;
    assert_eq!(c.x, x);
    assert_eq!(c.sepc, 0x1_0000);
    assert_eq!(c.sstatus, 0x20);
    assert_eq!(c.kernel_satp, 0x8000_0000_0008_0000);
    assert_eq!(c.kernel_sp, 0x9000);
    assert_eq!(c.trap_handler, 0xffff_f000);
}

#[test]
fn new_task_has_standard_descriptors() {
    let mut t = task();
    assert_eq!(t.getpid(), 3);
    let inner = t.inner_exclusive_access();
    assert_eq!(inner.fd_table, vec![Some(0), Some(1), Some(2)]);
    assert_eq!(inner.task_status, TaskStatus::Ready);
    assert_eq!(inner.get_user_token(), 0x8000_0000_0000_1234);
    assert!(!inner.is_zombie());
    assert_eq!(inner.parent, None);
    assert_eq!(inner.base_size, 0x10000);
}

#[test]
fn alloc_fd_takes_the_lowest_free_slot() {
    let mut t = task();
    let inner = t.inner_exclusive_access();
    assert_eq!(inner.alloc_fd(), 3);
    assert_eq!(inner.fd_table.len(), 4);
    inner.fd_table[3] = Some(9);
    inner.fd_table[1] = None;
    assert_eq!(inner.alloc_fd(), 1);
    assert_eq!(inner.fd_table.len(), 4);
}

#[test]
fn fork_makes_a_ready_child() {
    let mut pids = pids_from(3);
    let mut parent = task_in(&mut pids);
    let mut child_cx = cx();
    child_cx.x[10] = 5;
    let mut child = parent.fork(&mut pids, 0xa000, PhysPageNum(0x66), 77, &mut child_cx);
    assert_eq!(child.getpid(), 4);
    assert!(pids.is_live(3) && pids.is_live(4));
    assert_eq!(child_cx.kernel_sp, 0xa000);
    assert_eq!(child_cx.x[10], 5);
    assert_eq!(child_cx.sepc, 0x1000);
    let ci = child.inner_exclusive_access();
    assert_eq!(ci.parent, Some(3));
    assert_eq!(ci.fd_table, vec![Some(0), Some(1), Some(2)]);
    assert_eq!(ci.task_status, TaskStatus::Ready);
    assert_eq!(ci.get_user_token(), 77);
    assert_eq!(ci.base_size, 0x10000);
    assert_eq!(ci.trap_cx_ppn, PhysPageNum(0x66));
    assert_eq!(parent.inner_exclusive_access().children, vec![4]);
}

#[test]
fn exit_hands_children_to_initproc() {
    let mut pids = PidAllocator::new();
    let mut init = task_in(&mut pids);
    assert_eq!(init.getpid(), 0);
    let mut stranger = task_in(&mut pids);
    stranger.inner_exclusive_access().parent = Some(1);
    let mut t = task_in(&mut pids);
    let mut c = cx();
    let c1 = t.fork(&mut pids, 0, PhysPageNum(2), 0, &mut c);
    let c2 = t.fork(&mut pids, 0, PhysPageNum(3), 0, &mut c);
    assert_eq!((stranger.getpid(), t.getpid(), c1.getpid(), c2.getpid()), (1, 2, 3, 4));
    init.inner_exclusive_access().children.push(1);
    let mut others = vec![c1, stranger, c2];
    let moved = t.inner_exclusive_access().exit_and_reparent(-3, init.inner_exclusive_access(), 0, &mut others);
    assert_eq!(moved, vec![3, 4]);
    let ti = t.inner_exclusive_access();
    assert!(ti.is_zombie());
    assert_eq!(ti.exit_code, -3);
    assert!(ti.children.is_empty());
    assert!(ti.fd_table.is_empty());
    assert_eq!(init.inner_exclusive_access().children, vec![1, 3, 4]);
    assert_eq!(others[0].inner_exclusive_access().parent, Some(0));
    assert_eq!(others[1].inner_exclusive_access().parent, Some(1));
    assert_eq!(others[2].inner_exclusive_access().parent, Some(0));
    assert_eq!(others[2].getpid(), 4);
}

#[test]
fn exec_lays_out_arguments_on_the_stack() {
    let w = std::mem::size_of::<usize>();
    let args = vec![b"cat".to_vec(), b"file".to_vec()];
    let top = 0x10000usize;
    let s = exec_stack_layout(top, &args);
    assert_eq!(s.argc, 2);
    assert_eq!(s.argv_base, top - 3 * w);
    assert_eq!(s.argv, vec![s.argv_base - 4, s.argv_base - 9, 0]);
    let low = s.argv_base - 9;
    assert_eq!(s.user_sp, low - low % w);
    assert_eq!(s.user_sp % w, 0);
    let mut c = cx();
    s.load_args(&mut c);
    assert_eq!(c.x[10], 2);
    assert_eq!(c.x[11], s.argv_base);
}

#[test]
fn exec_replaces_the_address_space() {
    let mut t = task();
    let mut stack = vec![0u8; 64];
    let mut c = cx();
    let s = t.exec(0x42, PhysPageNum(0x77), 0x2000, &vec![], &mut stack, start(), &mut c);
    assert_eq!(s.argv, vec![0]);
    let inner = t.inner_exclusive_access();
    assert_eq!(inner.get_user_token(), 0x42);
    assert_eq!(inner.trap_cx_ppn, PhysPageNum(0x77));
    assert_eq!(inner.fd_table.len(), 3);
}

#[test]
fn exec_writes_the_arguments_into_the_user_stack() {
    let w = std::mem::size_of::<usize>();
    let mut t = task();
    let top = 0x2000usize;
    let mut stack = vec![0xaau8; 64];
    let mut c = cx();
    let args = vec![b"cat".to_vec(), b"f".to_vec()];
    let s = t.exec(0x42, PhysPageNum(0x77), top, &args, &mut stack, start(), &mut c);
    let base = top - stack.len();
    let at = |addr: usize| stack[addr - base];
    for i in 0..3 {
        let mut bytes = [0u8; 8];
        for k in 0..w {
            bytes[k] = at(s.argv_base + i * w + k);
        }
        assert_eq!(usize::from_le_bytes(bytes), s.argv[i]);
    }
    assert_eq!(s.argv[0], s.argv_base - 4);
    assert_eq!(s.argv[1], s.argv_base - 6);
    assert_eq!(s.argv[2], 0);
    assert_eq!([at(s.argv[0]), at(s.argv[0] + 1), at(s.argv[0] + 2), at(s.argv[0] + 3)], [b'c', b'a', b't', 0]);
    assert_eq!([at(s.argv[1]), at(s.argv[1] + 1)], [b'f', 0]);
    assert_eq!(at(s.argv[1] - 1), 0xaa);
    assert_eq!(c.x[2], s.user_sp);
    assert_eq!(c.x[10], 2);
    assert_eq!(c.x[11], s.argv_base);
    assert_eq!(c.sepc, 0x1_0000);
    assert_eq!(c.kernel_sp, 0x9000);
    assert_eq!(s.user_sp % w, 0);
}

#[test]
fn program_context_starts_at_entry_with_its_stack() {
    let c = TrapContext::app_init_context(0x8040_0000, 0x8000, 0x20, 7, 0x9000, 0xfff0);
    let mut x = [0usize; 32];
    x[2] = 0x8000;
    assert_eq!(c.x, x);
    assert_eq!((c.sepc, c.sstatus, c.kernel_satp, c.kernel_sp, c.trap_handler), (0x8040_0000, 0x20, 7, 0x9000, 0xfff0));
}

#[test]
fn pid_allocator_hands_out_distinct_identifiers() {
    let mut a = os::pid::PidAllocator::new();
    assert!(a.can_allocate());
    let p0 = a.allocate();
    let p1 = a.allocate();
    assert_eq!((p0, p1), (PidHandle(0), PidHandle(1)));
    assert!(a.is_live(1));
    a.dealloc(1);
    assert!(!a.is_live(1));
    assert!(a.is_live(0));
    assert_eq!(a.allocate(), PidHandle(1));
    assert_eq!(a.allocate(), PidHandle(2));
    assert!(!a.is_live(3));
}

#[test]
fn applications_are_loaded_one_after_another() {
    assert_eq!(os::loader::get_base_i(0), 0x8040_0000);
    assert_eq!(os::loader::get_base_i(3), 0x8040_0000 + 3 * 0x2_0000);
}

#[test]
fn system_call_trap_moves_past_ecall() {
    let mut c = cx();
    c.x[17] = 64;
    c.x[10] = 1;
    c.x[11] = 0x5000;
    c.x[12] = 12;
    let a = trap_handler(TrapCause::UserEnvCall, &mut c);
    assert_eq!(a, TrapAction::Syscall { id: 64, a0: 1, a1: 0x5000, a2: 12 });
    assert_eq!(c.sepc, 0x1004);
    set_syscall_result(&mut c, -1);
    assert_eq!(c.x[10], usize::MAX);
}

#[test]
fn other_traps() {
    let mut c = cx();
    assert_eq!(trap_handler(TrapCause::SupervisorTimer, &mut c), TrapAction::Reschedule);
    assert_eq!(trap_handler(TrapCause::StorePageFault, &mut c), TrapAction::StoreFault);
    assert_eq!(trap_handler(TrapCause::StoreFault, &mut c), TrapAction::StoreFault);
    assert_eq!(trap_handler(TrapCause::IllegalInstruction, &mut c), TrapAction::IllegalInstruction);
    assert_eq!(trap_handler(TrapCause::Other(99), &mut c), TrapAction::Unsupported(99));
    assert_eq!(c.sepc, 0x1000);
}

#[test]
fn sigkill_kills_the_task() {
    let mut s = state();
    let mut c = cx();
    current_add_signal(&mut s, SignalFlags { bits: SIGKILL });
    assert!(!handle_signals(&mut s, &mut c));
    assert!(s.killed);
}

#[test]
fn sigstop_freezes_and_sigcont_resumes() {
    let mut s = state();
    let mut c = cx();
    current_add_signal(&mut s, SignalFlags { bits: SIGSTOP });
    assert!(handle_signals(&mut s, &mut c));
    assert!(s.frozen);
    assert_eq!(s.signals.bits, 0);
    current_add_signal(&mut s, SignalFlags { bits: SIGCONT });
    assert!(!handle_signals(&mut s, &mut c));
    assert!(!s.frozen);
    assert_eq!(s.signals.bits, 0);
}

#[test]
fn user_signal_enters_its_handler() {
    let mut s = state();
    let mut c = cx();
    s.signal_actions.table[10].handler = 0x4000;
    current_add_signal(&mut s, SignalFlags { bits: SIGUSR1 });
    check_pending_signals(&mut s, &mut c);
    assert_eq!(c.sepc, 0x4000);
    assert_eq!(c.x[10], 10);
    assert_eq!(s.handling_sig, 10);
    assert_eq!(s.signals.bits, 0);
    assert_eq!(s.trap_ctx_backup.unwrap().sepc, 0x1000);
}

#[test]
fn user_signal_without_handler_stays_pending() {
    let mut s = state();
    let mut c = cx();
    current_add_signal(&mut s, SignalFlags { bits: SIGINT });
    check_pending_signals(&mut s, &mut c);
    assert_eq!(s.signals.bits, SIGINT);
    assert_eq!(c.sepc, 0x1000);
    assert!(!s.killed);
}

#[test]
fn blocked_signals_wait() {
    let mut s = state();
    let mut c = cx();
    s.signal_mask = SignalFlags { bits: SIGKILL };
    current_add_signal(&mut s, SignalFlags { bits: SIGKILL });
    check_pending_signals(&mut s, &mut c);
    assert!(!s.killed);
    // The handler that runs blocks SIGKILL too.
    s.signal_mask = SignalFlags { bits: 0 };
    s.handling_sig = 10;
    s.signal_actions.table[10].mask = SignalFlags { bits: SIGKILL };
    check_pending_signals(&mut s, &mut c);
    assert!(!s.killed);
    s.handling_sig = -1;
    check_pending_signals(&mut s, &mut c);
    assert!(s.killed);
}

#[test]
fn kernel_signals_are_handled_before_a_user_handler() {
    let mut s = state();
    let mut c = cx();
    s.signal_actions.table[10].handler = 0x4000;
    current_add_signal(&mut s, SignalFlags { bits: SIGUSR1 | SIGSTOP | SIGDEF });
    check_pending_signals(&mut s, &mut c);
    // SIGDEF (number 0) kills, SIGUSR1 (10) enters its handler, SIGSTOP (19) is not reached.
    assert!(s.killed);
    assert_eq!(c.sepc, 0x4000);
    assert!(!s.frozen);
    assert_eq!(s.signals.bits, SIGSTOP | SIGDEF);
}

#[test]
fn signal_flags_operations() {
    let mut f = SignalFlags::from_bits(SIGINT | SIGKILL).unwrap();
    assert!(f.contains(SignalFlags { bits: SIGKILL }));
    f.toggle(SignalFlags { bits: SIGKILL });
    assert!(!f.contains(SignalFlags { bits: SIGKILL }));
    f.insert(SignalFlags { bits: SIGUSR1 });
    assert_eq!(f.bits, SIGINT | SIGUSR1);
    f.remove(SignalFlags { bits: SIGSTOP });
    assert_eq!(f.bits, SIGINT | SIGUSR1);
    f.remove(SignalFlags { bits: SIGINT });
    assert_eq!(f.bits, SIGUSR1);
    assert_eq!(SignalAction::default_action().mask.bits, 40);
}
