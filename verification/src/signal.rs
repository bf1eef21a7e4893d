//! Signals: pending signals of a task, their masks and handlers, and their delivery.
use vstd::prelude::*;
use crate::trap::TrapContext;

verus! {

/// Highest signal number.
pub const MAX_SIG: usize = 31;
/// Number of signals.
pub const SIGNAL_COUNT: usize = 32;

/// Default action.
pub const SIGDEF: u32 = 1;
/// Interrupt.
pub const SIGINT: u32 = 4;
/// Illegal instruction.
pub const SIGILL: u32 = 16;
/// Abort.
pub const SIGABRT: u32 = 64;
/// Arithmetic error.
pub const SIGFPE: u32 = 256;
/// Kill.
pub const SIGKILL: u32 = 512;
/// First user-defined signal.
pub const SIGUSR1: u32 = 1024;
/// Segmentation fault.
pub const SIGSEGV: u32 = 2048;
/// Continue a stopped task.
pub const SIGCONT: u32 = 0x40000;
/// Stop a task.
pub const SIGSTOP: u32 = 0x80000;

/// A set of signals, one bit per signal number.
#[derive(Clone, Copy, Debug, PartialEq, Eq, Structural)]
pub struct SignalFlags {
    pub bits: u32,
}

/// The flag of the signal number `sig`.
pub open spec fn sig_bit(sig: int) -> u32 {
    (1u32 << (sig as u32)) as u32
}

/// Whether `set` holds every signal of `other`.
pub open spec fn flags_contain(set: u32, other: u32) -> bool {
    set & other == other
}

impl SignalFlags {
    /// The set whose bits are `bits`; every bit of a `u32` is a signal.
    pub fn from_bits(bits: u32) -> (r: Option<Self>)
        ensures
            r == Some(SignalFlags { bits }),
    {
        Some(SignalFlags { bits })
    }

    /// Whether every signal of `other` is in `self`.
    pub fn contains(&self, other: SignalFlags) -> (r: bool)
        ensures
            r == flags_contain(self.bits, other.bits),
    {
        self.bits & other.bits == other.bits
    }

    /// Toggles the signals of `other`.
    pub fn toggle(&mut self, other: SignalFlags)
        ensures
            final(self).bits == old(self).bits ^ other.bits,
    {
        self.bits = self.bits ^ other.bits;
    }

    /// Removes the signals of `other`.
    pub fn remove(&mut self, other: SignalFlags)
        ensures
            final(self).bits == old(self).bits & !other.bits,
    {
        self.bits = self.bits & !other.bits;
    }

    /// Adds the signals of `other`.
    pub fn insert(&mut self, other: SignalFlags)
        ensures
            final(self).bits == old(self).bits | other.bits,
    {
        self.bits = self.bits | other.bits;
    }
}

/// What a task does on a signal: the address of its handler (0 for none), and
/// the signals blocked while the handler runs.
#[derive(Clone, Copy, Debug, PartialEq, Eq, Structural)]
pub struct SignalAction {
    pub handler: usize,
    pub mask: SignalFlags,
}

impl SignalAction {
    /// No handler; SIGQUIT and SIGTRAP blocked.
    pub fn default_action() -> (r: Self)
        ensures
            r.handler == 0,
            r.mask.bits == 40,
    {
        SignalAction { handler: 0, mask: SignalFlags::from_bits(40).unwrap() }
    }
}

/// The action of each signal number.
pub struct SignalActions {
    pub table: [SignalAction; SIGNAL_COUNT],
}

/// The signal state of a task.
pub struct SignalState {
    /// Signals received and not handled yet.
    pub signals: SignalFlags,
    /// Signals the task blocks.
    pub signal_mask: SignalFlags,
    /// The signal whose user handler runs, or -1.
    pub handling_sig: isize,
    /// The action of each signal.
    pub signal_actions: SignalActions,
    /// The task must die.
    pub killed: bool,
    /// The task is stopped.
    pub frozen: bool,
    /// The registers to restore when the user handler returns.
    pub trap_ctx_backup: Option<TrapContext>,
}

/// The abstract signal state of a task.
pub ghost struct SignalView {
    pub signals: u32,
    pub signal_mask: u32,
    pub handling_sig: int,
    pub actions: Seq<SignalAction>,
    pub killed: bool,
    pub frozen: bool,
    pub trap_ctx_backup: Option<TrapContext>,
}

impl View for SignalState {
    type V = SignalView;

    open spec fn view(&self) -> SignalView {
        SignalView {
            signals: self.signals.bits,
            signal_mask: self.signal_mask.bits,
            handling_sig: self.handling_sig as int,
            actions: self.signal_actions.table@,
            killed: self.killed,
            frozen: self.frozen,
            trap_ctx_backup: self.trap_ctx_backup,
        }
    }
}

impl SignalView {
    /// The running handler, if any, is that of a signal number.
    pub open spec fn wf(self) -> bool {
        &&& self.actions.len() == SIGNAL_COUNT
        &&& (self.handling_sig == -1 || 0 <= self.handling_sig <= MAX_SIG)
    }

    /// The signal `signal` is pending, not blocked by the task, and not blocked
    /// by the handler that runs.
    pub open spec fn deliverable(self, signal: u32) -> bool {
        &&& flags_contain(self.signals, signal)
        &&& !flags_contain(self.signal_mask, signal)
        &&& (self.handling_sig == -1 || !flags_contain(self.actions[self.handling_sig].mask.bits, signal))
    }
}

/// The signals the kernel handles itself.
pub open spec fn is_kernel_signal(signal: u32) -> bool {
    signal == SIGKILL || signal == SIGSTOP || signal == SIGCONT || signal == SIGDEF
}

/// The state after the kernel handles `signal`: SIGSTOP stops the task and is
/// no longer pending; SIGCONT, if it is pending, resumes the task and is no
/// longer pending; any other signal kills the task.
pub open spec fn kernel_handle(s: SignalView, signal: u32) -> SignalView {
    if signal == SIGSTOP {
        SignalView { frozen: true, signals: s.signals & !SIGSTOP, ..s }
    } else if signal == SIGCONT {
        if flags_contain(s.signals, SIGCONT) {
            SignalView { frozen: false, signals: s.signals ^ SIGCONT, ..s }
        } else {
            s
        }
    } else {
        SignalView { killed: true, ..s }
    }
}

/// `s2` and `cx2` are the state and registers after the user handler of
/// `sig` is entered from `s` and `cx`, when there is one: the registers are
/// saved, execution goes to the handler with the signal number as argument,
/// and the signal is no longer pending. Without a handler nothing changes.
pub open spec fn user_handled(s: SignalView, cx: TrapContext, sig: int, signal: u32, s2: SignalView, cx2: TrapContext) -> bool {
    let handler = s.actions[sig].handler;
    if handler != 0 {
        &&& s2 == SignalView { handling_sig: sig, signals: s.signals ^ signal, trap_ctx_backup: Some(cx), ..s }
        &&& cx2.sepc == handler
        &&& cx2.x@ == cx.x@.update(10, sig as usize)
        &&& cx2.sstatus == cx.sstatus
        &&& cx2.kernel_satp == cx.kernel_satp
        &&& cx2.kernel_sp == cx.kernel_sp
        &&& cx2.trap_handler == cx.trap_handler
    } else {
        s2 == s && cx2 == cx
    }
}

/// The scan of the pending signals from number `sig` on, in order: the kernel
/// handles each deliverable kernel signal; the scan stops at the first
/// deliverable other signal. Gives the state reached and that signal number.
pub open spec fn scan_from(s: SignalView, sig: int) -> (SignalView, Option<int>)
    decreases SIGNAL_COUNT - sig,
{
    if sig < 0 || sig > MAX_SIG {
        (s, None)
    } else if s.deliverable(sig_bit(sig)) {
        if is_kernel_signal(sig_bit(sig)) {
            scan_from(kernel_handle(s, sig_bit(sig)), sig + 1)
        } else {
            (s, Some(sig))
        }
    } else {
        scan_from(s, sig + 1)
    }
}

/// `s2` and `cx2` are the state and registers after the pending signals of
/// `s` are handled: the scan, then the user handler of the signal it stopped at.
pub open spec fn signals_delivered(s: SignalView, cx: TrapContext, s2: SignalView, cx2: TrapContext) -> bool {
    let (s1, found) = scan_from(s, 0);
    match found {
        None => s2 == s1 && cx2 == cx,
        Some(k) => user_handled(s1, cx, k, sig_bit(k), s2, cx2),
    }
}

/// The scan keeps the signal state consistent and stops at a signal number.
proof fn lemma_scan_wf(s: SignalView, sig: int)
    requires
        s.wf(),
    ensures
        scan_from(s, sig).0.wf(),
        scan_from(s, sig).1 matches Some(k) ==> 0 <= k <= MAX_SIG,
    decreases SIGNAL_COUNT - sig,
{
    if 0 <= sig <= MAX_SIG {
        if s.deliverable(sig_bit(sig)) && is_kernel_signal(sig_bit(sig)) {
            lemma_scan_wf(kernel_handle(s, sig_bit(sig)), sig + 1);
        } else if !s.deliverable(sig_bit(sig)) {
            lemma_scan_wf(s, sig + 1);
        }
    }
}

/// Adds `signal` to the pending signals of a task.
pub fn current_add_signal(state: &mut SignalState, signal: SignalFlags)
    ensures
        final(state)@ == (SignalView { signals: old(state)@.signals | signal.bits, ..old(state)@ }),
{
    state.signals.insert(signal);
}

/// Lets the kernel handle `signal`: SIGSTOP stops the task and is removed from
/// the pending signals, SIGCONT resumes it, any other signal kills it.
fn call_kernel_signal_handler(state: &mut SignalState, signal: SignalFlags)
    ensures
        final(state)@ == kernel_handle(old(state)@, signal.bits),
{
    if signal.bits == SIGSTOP {
        state.frozen = true;
        state.signals.remove(SignalFlags { bits: SIGSTOP });
    } else if signal.bits == SIGCONT {
        if state.signals.contains(SignalFlags { bits: SIGCONT }) {
            state.signals.toggle(SignalFlags { bits: SIGCONT });
            state.frozen = false;
        }
    } else {
        state.killed = true;
    }
}

/// Enters the user handler of the signal number `sig`, if the task set one.
fn call_user_signal_handler(state: &mut SignalState, trap_cx: &mut TrapContext, sig: usize, signal: SignalFlags)
    requires
        sig <= MAX_SIG,
    ensures
        user_handled(old(state)@, *old(trap_cx), sig as int, signal.bits, final(state)@, *final(trap_cx)),
{
    let handler = state.signal_actions.table[sig].handler;
    if handler != 0 {
        state.handling_sig = sig as isize;
        state.signals.toggle(signal);
        state.trap_ctx_backup = Some(*trap_cx);
        trap_cx.sepc = handler;
        trap_cx.x[10] = sig;
    }
}

/// Looks at the pending signals in order of their numbers: the kernel handles
/// each deliverable SIGKILL, SIGSTOP, SIGCONT and SIGDEF; the first other
/// deliverable signal enters its user handler, and the scan stops there.
pub fn check_pending_signals(state: &mut SignalState, trap_cx: &mut TrapContext)
    requires
        old(state)@.wf(),
    ensures
        final(state)@.wf(),
        signals_delivered(old(state)@, *old(trap_cx), final(state)@, *final(trap_cx)),
{
    proof {
        lemma_scan_wf(state@, 0);
    }
    let mut sig: usize = 0;
    while sig < MAX_SIG + 1
        invariant
            sig <= SIGNAL_COUNT,
            state@.wf(),
            scan_from(state@, sig as int) == scan_from(old(state)@, 0),
            *trap_cx == *old(trap_cx),
        decreases SIGNAL_COUNT - sig,
    {
        let signal = SignalFlags::from_bits(1u32 << (sig as u32)).unwrap();
        let pending = state.signals.contains(signal);
        let blocked = state.signal_mask.contains(signal);
        if pending && !blocked {
            let mut masked = true;
            let handling_sig = state.handling_sig;
            if handling_sig == -1 {
                masked = false;
            } else {
                let handling_sig = handling_sig as usize;
                if !state.signal_actions.table[handling_sig].mask.contains(signal) {
                    masked = false;
                }
            }
            assert(masked == !state@.deliverable(sig_bit(sig as int)));
            if !masked {
                if signal.bits == SIGKILL || signal.bits == SIGSTOP || signal.bits == SIGCONT || signal.bits == SIGDEF {
                    call_kernel_signal_handler(state, signal);
                } else {
                    call_user_signal_handler(state, trap_cx, sig, signal);
                    return;
                }
            }
        }
        sig = sig + 1;
    }
}

/// Handles the pending signals, then tells whether the task must give up the
/// processor: it is stopped and not killed.
pub fn handle_signals(state: &mut SignalState, trap_cx: &mut TrapContext) -> (must_wait: bool)
    requires
        old(state)@.wf(),
    ensures
        final(state)@.wf(),
        signals_delivered(old(state)@, *old(trap_cx), final(state)@, *final(trap_cx)),
        must_wait == (final(state)@.frozen && !final(state)@.killed),
{
    check_pending_signals(state, trap_cx);
    state.frozen && !state.killed
}

/// The kernel's handling of signals keeps the actions, the mask, the running
/// handler and the saved registers.
proof fn lemma_scan_keeps(s: SignalView, sig: int)
    ensures
        scan_from(s, sig).0.actions == s.actions,
        scan_from(s, sig).0.signal_mask == s.signal_mask,
        scan_from(s, sig).0.handling_sig == s.handling_sig,
        scan_from(s, sig).0.trap_ctx_backup == s.trap_ctx_backup,
    decreases SIGNAL_COUNT - sig,
{
    if 0 <= sig <= MAX_SIG {
        if s.deliverable(sig_bit(sig)) && is_kernel_signal(sig_bit(sig)) {
            lemma_scan_keeps(kernel_handle(s, sig_bit(sig)), sig + 1);
        } else if !s.deliverable(sig_bit(sig)) {
            lemma_scan_keeps(s, sig + 1);
        }
    }
}

/// Delivering signals either leaves the registers, the running handler and the
/// saved registers as they were, or enters a user handler: then the saved
/// registers are exactly the registers as they were before delivery, execution
/// goes to the handler of the signal now running, with its number in `a0`, and
/// every other register is kept.
pub proof fn lemma_handler_entry_saves_registers(s: SignalView, cx: TrapContext, s2: SignalView, cx2: TrapContext)
    requires
        s.wf(),
        signals_delivered(s, cx, s2, cx2),
    ensures
        s2.trap_ctx_backup == Some(cx)
            || (s2.trap_ctx_backup == s.trap_ctx_backup && cx2 == cx && s2.handling_sig == s.handling_sig),
        cx2 != cx ==> {
            &&& s2.trap_ctx_backup == Some(cx)
            &&& 0 <= s2.handling_sig <= MAX_SIG
            &&& cx2.sepc == s.actions[s2.handling_sig].handler
            &&& cx2.x@ == cx.x@.update(10, s2.handling_sig as usize)
            &&& cx2.sstatus == cx.sstatus
        },
{
    lemma_scan_keeps(s, 0);
    lemma_scan_wf(s, 0);
}

} // verus!
