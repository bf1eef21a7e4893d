//! Task control blocks: the state of a process, its file descriptors, and how
//! `fork`, `exec` and `exit` change it.
use vstd::prelude::*;
use crate::address::PhysPageNum;
use crate::trap::TrapContext;
use crate::pid::{lemma_pids_distinct, PidAllocator, PidAllocatorState};

verus! {

/// The scheduling state of a task.
#[derive(Clone, Copy, Debug, PartialEq, Eq, Structural)]
pub enum TaskStatus {
    Ready,
    Running,
    Zombie,
}

/// A process identifier.
#[derive(Clone, Copy, Debug, PartialEq, Eq, Structural)]
pub struct PidHandle(pub usize);

/// The mutable part of a task, with file handles of type `F`. Tasks refer to
/// each other by process identifier.
pub struct TaskControlBlockInner<F> {
    /// Frame of the trap context of the task.
    pub trap_cx_ppn: PhysPageNum,
    /// Size of the user memory of the task.
    pub base_size: usize,
    pub task_status: TaskStatus,
    /// The `satp` value of the address space of the task.
    pub user_token: usize,
    pub parent: Option<usize>,
    pub children: Vec<usize>,
    pub exit_code: i32,
    pub fd_table: Vec<Option<F>>,
}

/// The index that `alloc_fd` hands out for the table `fds`: the first free slot,
/// or a new slot at the end.
pub open spec fn first_free_fd<F>(fds: Seq<Option<F>>) -> int {
    if exists|i: int| 0 <= i < fds.len() && fds[i] is None {
        choose|i: int| 0 <= i < fds.len() && fds[i] is None && forall|j: int| 0 <= j < i ==> fds[j] is Some
    } else {
        fds.len() as int
    }
}

/// `after` is the task `before` once the children in `children` are handed
/// to the task `parent`: a child gets `parent` as its parent and keeps all
/// else; any other task is unchanged.
pub open spec fn reparented<F>(children: Seq<usize>, parent: usize, before: TaskControlBlock<F>, after: TaskControlBlock<F>) -> bool {
    if children.contains(before.id().0) {
        &&& after.id() == before.id()
        &&& after.stack_top() == before.stack_top()
        &&& *after.state() == (TaskControlBlockInner { parent: Some(parent), ..*before.state() })
    } else {
        after == before
    }
}

/// Whether the identifier `pid` is in `pids`.
fn contains_pid(pids: &Vec<usize>, pid: usize) -> (r: bool)
    ensures
        r == pids@.contains(pid),
{
    let mut i: usize = 0;
    while i < pids.len()
        invariant
            i <= pids@.len(),
            forall|j: int| 0 <= j < i ==> pids@[j] != pid,
        decreases pids@.len() - i,
    {
        if pids[i] == pid {
            assert(pids@[i as int] == pid);
            return true;
        }
        i = i + 1;
    }
    false
}

impl<F> TaskControlBlockInner<F> {
    /// The `satp` value of the address space of the task.
    pub fn get_user_token(&self) -> (r: usize)
        ensures
            r == self.user_token,
    {
        self.user_token
    }

    fn get_status(&self) -> (r: TaskStatus)
        ensures
            r == self.task_status,
    {
        self.task_status
    }

    /// Whether the task has exited and waits for its parent.
    pub fn is_zombie(&self) -> (r: bool)
        ensures
            r == (self.task_status == TaskStatus::Zombie),
    {
        self.get_status() == TaskStatus::Zombie
    }

    /// Hands out the lowest free file descriptor, adding a slot when none is free.
    pub fn alloc_fd(&mut self) -> (fd: usize)
        requires
            old(self).fd_table@.len() < usize::MAX,
        ensures
            fd <= old(self).fd_table@.len(),
            fd < final(self).fd_table@.len(),
            final(self).fd_table@[fd as int] is None,
            forall|j: int| 0 <= j < fd ==> final(self).fd_table@[j] is Some,
            fd < old(self).fd_table@.len() ==> final(self).fd_table@ == old(self).fd_table@,
            fd == old(self).fd_table@.len() ==> final(self).fd_table@ == old(self).fd_table@.push(None),
            fd as int == first_free_fd(old(self).fd_table@),
            final(self).trap_cx_ppn == old(self).trap_cx_ppn,
            final(self).base_size == old(self).base_size,
            final(self).task_status == old(self).task_status,
            final(self).user_token == old(self).user_token,
            final(self).parent == old(self).parent,
            final(self).children@ == old(self).children@,
            final(self).exit_code == old(self).exit_code,
    {
        let mut fd: usize = 0;
        while fd < self.fd_table.len()
            invariant
                fd <= self.fd_table@.len(),
                self.fd_table@ == old(self).fd_table@,
                forall|j: int| 0 <= j < fd ==> self.fd_table@[j] is Some,
            decreases self.fd_table@.len() - fd,
        {
            if self.fd_table[fd].is_none() {
                proof {
                    let fds = self.fd_table@;
                    let c = choose|i: int| 0 <= i < fds.len() && fds[i] is None && forall|j: int| 0 <= j < i ==> fds[j] is Some;
                    assert(fds[fd as int] is None);
                    assert(c == fd) by {
                        if c < fd {
                            assert(fds[c] is Some);
                        } else if c > fd {
                            assert(fds[fd as int] is Some);
                        }
                    }
                }
                return fd;
            }
            fd = fd + 1;
        }
        self.fd_table.push(None);
        self.fd_table.len() - 1
    }

    /// The task exits with `exit_code`: it becomes a zombie, its children are
    /// handed to `initproc`, whose identifier is `initproc_pid`, and its file
    /// descriptors are closed. Among the other tasks `others`, each child gets
    /// `initproc` as its parent. Returns the children handed over.
    pub fn exit_and_reparent(&mut self, exit_code: i32, initproc: &mut Self, initproc_pid: usize, others: &mut Vec<TaskControlBlock<F>>) -> (moved: Vec<usize>)
        ensures
            final(others)@.len() == old(others)@.len(),
            forall|i: int| 0 <= i < old(others)@.len() ==>
                reparented(old(self).children@, initproc_pid, #[trigger] old(others)@[i], final(others)@[i]),
            moved@ == old(self).children@,
            final(self).task_status == TaskStatus::Zombie,
            final(self).exit_code == exit_code,
            final(self).children@ == Seq::<usize>::empty(),
            final(self).fd_table@ == Seq::<Option<F>>::empty(),
            final(self).trap_cx_ppn == old(self).trap_cx_ppn,
            final(self).base_size == old(self).base_size,
            final(self).user_token == old(self).user_token,
            final(self).parent == old(self).parent,
            final(initproc).children@ == old(initproc).children@ + old(self).children@,
            final(initproc).task_status == old(initproc).task_status,
            final(initproc).parent == old(initproc).parent,
            final(initproc).exit_code == old(initproc).exit_code,
            final(initproc).user_token == old(initproc).user_token,
            final(initproc).fd_table@ == old(initproc).fd_table@,
            final(initproc).trap_cx_ppn == old(initproc).trap_cx_ppn,
            final(initproc).base_size == old(initproc).base_size,
    {
        let mut k: usize = 0;
        while k < others.len()
            invariant
                k <= others@.len(),
                others@.len() == old(others)@.len(),
                self.children@ == old(self).children@,
                forall|i: int| 0 <= i < k ==> reparented(old(self).children@, initproc_pid, #[trigger] old(others)@[i], others@[i]),
                forall|i: int| k <= i < others@.len() ==> #[trigger] others@[i] == old(others)@[i],
            decreases old(others)@.len() - k,
        {
            let ghost prev = others@;
            assert(others@[k as int] == old(others)@[k as int]);
            let is_child = contains_pid(&self.children, others[k].pid.0);
            if is_child {
                let mut t = others.remove(k);
                t.inner.parent = Some(initproc_pid);
                let ghost t2 = t;
                others.insert(k, t);
                proof {
                    assert(others@ =~= prev.update(k as int, t2));
                }
            }
            assert(forall|i: int| 0 <= i < others@.len() && i != k ==> others@[i] == prev[i]);
            assert(reparented(old(self).children@, initproc_pid, old(others)@[k as int], others@[k as int]));
            k = k + 1;
        }
        self.task_status = TaskStatus::Zombie;
        self.exit_code = exit_code;
        let mut moved: Vec<usize> = Vec::new();
        let mut i: usize = 0;
        while i < self.children.len()
            invariant
                i <= self.children@.len(),
                self.children@ == old(self).children@,
                moved@ == old(self).children@.take(i as int),
                initproc.children@ == old(initproc).children@ + old(self).children@.take(i as int),
                initproc.task_status == old(initproc).task_status,
                initproc.parent == old(initproc).parent,
                initproc.exit_code == old(initproc).exit_code,
                initproc.user_token == old(initproc).user_token,
                initproc.fd_table@ == old(initproc).fd_table@,
                initproc.trap_cx_ppn == old(initproc).trap_cx_ppn,
                initproc.base_size == old(initproc).base_size,
            decreases self.children@.len() - i,
        {
            let child = self.children[i];
            initproc.children.push(child);
            moved.push(child);
            proof {
                assert(old(self).children@.take(i + 1) =~= old(self).children@.take(i as int).push(child));
                assert(initproc.children@ =~= old(initproc).children@ + old(self).children@.take(i + 1));
            }
            i = i + 1;
        }
        assert(old(self).children@.take(i as int) =~= old(self).children@);
        self.children.clear();
        self.fd_table.clear();
        moved
    }

    /// Makes `parent` the parent of the task.
    pub fn set_parent(&mut self, parent: usize)
        ensures
            final(self).parent == Some(parent),
            final(self).children@ == old(self).children@,
            final(self).task_status == old(self).task_status,
            final(self).exit_code == old(self).exit_code,
    {
        self.parent = Some(parent);
    }
}

/// A task: its process identifier, the top of its kernel stack, and its
/// mutable state.
pub struct TaskControlBlock<F> {
    pub pid: PidHandle,
    pub kernel_stack_top: usize,
    inner: TaskControlBlockInner<F>,
}

/// What the trap context of a program starts with, besides its stack pointer
/// and its kernel stack: the entry point, the status register with user mode
/// as the previous privilege, and where a trap goes in the kernel.
#[derive(Clone, Copy, Debug)]
pub struct ProgramStart {
    pub entry: usize,
    pub sstatus: usize,
    pub kernel_satp: usize,
    pub trap_handler: usize,
}

/// `cx` is the trap context a program starts with: the registers of
/// `TrapContext::app_init_context` for `start`, the user stack pointer `sp`
/// and the kernel stack top `kernel_sp`.
pub open spec fn started_at(cx: TrapContext, start: ProgramStart, sp: usize, kernel_sp: usize) -> bool {
    &&& cx.x@ == Seq::new(32, |i: int| 0usize).update(2, sp)
    &&& cx.sepc == start.entry
    &&& cx.sstatus == start.sstatus
    &&& cx.kernel_satp == start.kernel_satp
    &&& cx.kernel_sp == kernel_sp
    &&& cx.trap_handler == start.trap_handler
}

/// The bytes that the strings of `args` take on the user stack, each with its
/// final zero, for the first `i` of them.
pub open spec fn args_bytes(args: Seq<Seq<u8>>, i: int) -> int
    decreases i,
{
    if i <= 0 {
        0
    } else {
        args_bytes(args, i - 1) + args[i - 1].len() + 1
    }
}

/// Size of a machine word.
pub open spec fn word_size() -> int {
    vstd::layout::size_of::<usize>() as int
}

/// Where `exec` puts the arguments of a program on its user stack.
pub struct ExecStack {
    /// The stack pointer the program starts with.
    pub user_sp: usize,
    /// Where the array of argument pointers starts.
    pub argv_base: usize,
    /// The argument pointers, followed by a null pointer.
    pub argv: Vec<usize>,
    /// Number of arguments.
    pub argc: usize,
}

impl ExecStack {
    /// Passes the argument count and the argument array to the program, in
    /// registers `a0` and `a1`.
    pub fn load_args(&self, cx: &mut TrapContext)
        ensures
            final(cx).x@ == old(cx).x@.update(10, self.argc).update(11, self.argv_base),
            final(cx).sepc == old(cx).sepc,
            final(cx).sstatus == old(cx).sstatus,
            final(cx).kernel_satp == old(cx).kernel_satp,
            final(cx).kernel_sp == old(cx).kernel_sp,
            final(cx).trap_handler == old(cx).trap_handler,
    {
        cx.x[10] = self.argc;
        cx.x[11] = self.argv_base;
        assert(cx.x@ =~= old(cx).x@.update(10, self.argc).update(11, self.argv_base));
    }
}

/// `r` lays out the arguments `a` on a user stack whose top is `user_sp`:
/// below the top, the array of argument pointers ending with a null pointer;
/// below it the strings, the first one highest, each followed by a zero; the
/// stack pointer is then aligned down to a word.
pub open spec fn is_exec_stack(user_sp: usize, a: Seq<Seq<u8>>, r: ExecStack) -> bool {
    let n = a.len() as int;
    let low = r.argv_base - args_bytes(a, n);
    &&& r.argc == n
    &&& r.argv_base == user_sp - (n + 1) * word_size()
    &&& r.argv@.len() == n + 1
    &&& r.argv@[n] == 0
    &&& forall|i: int| 0 <= i < n ==> #[trigger] r.argv@[i] == r.argv_base - args_bytes(a, i + 1)
    &&& r.user_sp == low - low % word_size()
}

/// The stack pointer that `exec` leaves is aligned to a word and lies below
/// every string of the arguments, and the strings lie below the argument array.
pub proof fn lemma_exec_stack_aligned(user_sp: usize, a: Seq<Seq<u8>>, r: ExecStack)
    requires
        is_exec_stack(user_sp, a, r),
        word_size() == 4 || word_size() == 8,
    ensures
        (r.user_sp as int) % word_size() == 0,
        r.user_sp <= r.argv_base - args_bytes(a, a.len() as int),
        forall|i: int| 0 <= i < a.len() ==> #[trigger] r.argv@[i] + a[i].len() + 1 <= r.argv_base,
{
    let n = a.len() as int;
    let low = r.argv_base - args_bytes(a, n);
    let w = word_size();
    assert((low - low % w) % w == 0 && low % w >= 0) by (nonlinear_arith)
        requires w == 4 || w == 8;
    assert forall|i: int| 0 <= i < n implies #[trigger] r.argv@[i] + a[i].len() + 1 <= r.argv_base by {
        lemma_args_bytes_mono(a, i, i + 1);
        lemma_args_bytes_mono(a, 0, i);
    }
}

/// Lays out the arguments `args` on a user stack whose top is `user_sp`.
pub fn exec_stack_layout(user_sp: usize, args: &Vec<Vec<u8>>) -> (r: ExecStack)
    requires
        user_sp >= (args@.len() + 1) * word_size() + args_bytes(args@.map_values(|a: Vec<u8>| a@), args@.len() as int),
    ensures
        is_exec_stack(user_sp, args@.map_values(|a: Vec<u8>| a@), r),
{
    let ghost a = args@.map_values(|a: Vec<u8>| a@);
    let w = core::mem::size_of::<usize>();
    proof {
        broadcast use vstd::layout::layout_of_primitives;
        assert(w == 4 || w == 8);
        assert(w == word_size());
        lemma_args_bytes_mono(a, 0, a.len() as int);
    }
    let n = args.len();
    assert((n + 1) * w <= user_sp);
    let argv_bytes = (n + 1) * w;
    let mut sp = user_sp - argv_bytes;
    let argv_base = sp;
    let mut argv: Vec<usize> = Vec::new();
    let mut i: usize = 0;
    while i < n
        invariant
            n == args@.len(),
            a == args@.map_values(|a: Vec<u8>| a@),
            i <= n,
            argv_base == user_sp - (n + 1) * w,
            w == word_size(),
            argv_base >= args_bytes(a, n as int),
            sp == argv_base - args_bytes(a, i as int),
            argv@.len() == i,
            forall|j: int| 0 <= j < i ==> #[trigger] argv@[j] == argv_base - args_bytes(a, j + 1),
        decreases n - i,
    {
        proof {
            lemma_args_bytes_mono(a, i + 1, n as int);
        }
        let len = args[i].len();
        sp = sp - (len + 1);
        argv.push(sp);
        i = i + 1;
    }
    argv.push(0);
    let user_sp = sp - sp % w;
    ExecStack { user_sp, argv_base, argv, argc: n }
}

/// Byte `k` of the word `v`, lowest byte first.
pub open spec fn le_byte(v: usize, k: int) -> u8 {
    ((v >> ((8 * k) as usize)) & 0xffusize) as u8
}

/// `after` is the user stack `before`, whose last byte lies just below
/// `user_sp`, once the layout `r` of the arguments `a` is written into it: the
/// argument pointers, a word each with the lowest byte first, fill the top of
/// the stack; each string, followed by a zero, starts where its pointer says;
/// the bytes below the strings are untouched.
pub open spec fn stack_holds_args(user_sp: usize, a: Seq<Seq<u8>>, r: ExecStack, before: Seq<u8>, after: Seq<u8>) -> bool {
    let base = user_sp - before.len();
    let w = word_size();
    let ab = r.argv_base - base;
    let low = r.argv_base - args_bytes(a, a.len() as int) - base;
    &&& after.len() == before.len()
    &&& forall|j: int| ab <= j < after.len() ==> #[trigger] after[j] == le_byte(r.argv@[(j - ab) / w], (j - ab) % w)
    &&& forall|i: int, c: int| 0 <= i < a.len() && 0 <= c < a[i].len() ==> after[r.argv@[i] + c - base] == #[trigger] a[i][c]
    &&& forall|i: int| 0 <= i < a.len() ==> after[#[trigger] r.argv@[i] + a[i].len() - base] == 0
    &&& forall|j: int| 0 <= j < low ==> #[trigger] after[j] == before[j]
}

/// Writes the layout `r` of the arguments `args` into the user stack `stack`,
/// whose last byte lies just below `user_sp`.
fn write_args(stack: &mut [u8], user_sp: usize, args: &Vec<Vec<u8>>, r: &ExecStack)
    requires
        is_exec_stack(user_sp, args@.map_values(|a: Vec<u8>| a@), *r),
        word_size() == 4 || word_size() == 8,
        old(stack)@.len() <= user_sp,
        old(stack)@.len() >= (args@.len() + 1) * word_size() + args_bytes(args@.map_values(|a: Vec<u8>| a@), args@.len() as int),
    ensures
        stack_holds_args(user_sp, args@.map_values(|a: Vec<u8>| a@), *r, old(stack)@, final(stack)@),
{
    let ghost a = args@.map_values(|a: Vec<u8>| a@);
    let ghost s0 = stack@;
    let w = core::mem::size_of::<usize>();
    proof {
        broadcast use vstd::layout::layout_of_primitives;
    }
    assert(w == word_size());
    let n = args.len();
    let len = stack.len();
    let base = user_sp - len;
    assert(a.len() == n);
    proof {
        lemma_args_bytes_mono(a, 0, n as int);
    }
    assert(r.argv_base == user_sp - (n + 1) * w);
    let ab = r.argv_base - base;
    let ghost low = r.argv_base - args_bytes(a, n as int) - base;
    assert(ab + (n + 1) * w == len);
    let mut j = ab;
    while j < len
        invariant
            w == word_size(),
            w == 4 || w == 8,
            len == stack@.len(),
            len == s0.len(),
            base == user_sp - len,
            ab == r.argv_base - base,
            ab + (n + 1) * w == len,
            r.argv@.len() == n + 1,
            ab <= j <= len,
            0 <= low <= ab,
            forall|q: int| ab <= q < j ==> #[trigger] stack@[q] == le_byte(r.argv@[(q - ab) / (w as int)], (q - ab) % (w as int)),
            forall|q: int| 0 <= q < ab ==> #[trigger] stack@[q] == s0[q],
        decreases len - j,
    {
        let i = (j - ab) / w;
        let k = (j - ab) % w;
        assert(i < n + 1) by (nonlinear_arith)
            requires i == (j - ab) / (w as int), j - ab < (n + 1) * w, w > 0, j >= ab;
        assert(k < 8);
        let v = r.argv[i];
        stack[j] = ((v >> (8 * k)) & 0xff) as u8;
        j = j + 1;
    }
    let mut i: usize = 0;
    while i < n
        invariant
            w == word_size(),
            n == args@.len(),
            a == args@.map_values(|a: Vec<u8>| a@),
            is_exec_stack(user_sp, a, *r),
            len == stack@.len(),
            len == s0.len(),
            base == user_sp - len,
            ab == r.argv_base - base,
            low == r.argv_base - args_bytes(a, n as int) - base,
            0 <= low <= ab,
            i <= n,
            forall|q: int| ab <= q < len ==> #[trigger] stack@[q] == le_byte(r.argv@[(q - ab) / (w as int)], (q - ab) % (w as int)),
            forall|q: int| 0 <= q < low ==> #[trigger] stack@[q] == s0[q],
            forall|i2: int, c: int| 0 <= i2 < i && 0 <= c < a[i2].len() ==> stack@[r.argv@[i2] + c - base] == #[trigger] a[i2][c],
            forall|i2: int| 0 <= i2 < i ==> stack@[#[trigger] r.argv@[i2] + a[i2].len() - base] == 0,
        decreases n - i,
    {
        proof {
            lemma_args_bytes_mono(a, i + 1, n as int);
            lemma_args_bytes_mono(a, i as int, i + 1);
        }
        let ghost lo = r.argv_base - args_bytes(a, i + 1) - base;
        let ghost hi = r.argv_base - args_bytes(a, i as int) - base;
        assert(r.argv@[i as int] == r.argv_base - args_bytes(a, i + 1));
        assert(a[i as int] == args@[i as int]@);
        let start = r.argv[i] - base;
        let m = args[i].len();
        assert(hi == lo + m + 1);
        let ghost mid = stack@;
        let mut c: usize = 0;
        while c < m
            invariant
                w == word_size(),
                i < n,
                n == args@.len(),
                len == stack@.len(),
                m == args@[i as int]@.len(),
                a[i as int] == args@[i as int]@,
                start == lo,
                lo >= low,
                hi == lo + m + 1,
                hi <= ab,
                ab <= len,
                c <= m,
                forall|q: int| 0 <= q < len && !(lo <= q < lo + c) ==> #[trigger] stack@[q] == mid[q],
                forall|c2: int| 0 <= c2 < c ==> #[trigger] stack@[lo + c2] == a[i as int][c2],
            decreases m - c,
        {
            stack[start + c] = args[i][c];
            c = c + 1;
        }
        stack[start + m] = 0;
        proof {
            assert forall|q: int| 0 <= q < len && !(lo <= q <= lo + m) implies #[trigger] stack@[q] == mid[q] by {}
            assert forall|c2: int| 0 <= c2 < m implies #[trigger] stack@[lo + c2] == a[i as int][c2] by {}
            assert forall|i2: int, c2: int| 0 <= i2 < i + 1 && 0 <= c2 < a[i2].len() implies stack@[r.argv@[i2] + c2 - base] == #[trigger] a[i2][c2] by {
                if i2 < i {
                    lemma_args_bytes_mono(a, i2 + 1, i as int);
                    lemma_args_bytes_mono(a, 0, i2);
                    assert(r.argv@[i2] == r.argv_base - args_bytes(a, i2 + 1));
                    assert(args_bytes(a, i2 + 1) == args_bytes(a, i2) + a[i2].len() + 1);
                    let q = r.argv@[i2] + c2 - base;
                    assert(hi <= q < ab);
                    assert(stack@[q] == mid[q]);
                } else {
                    assert(stack@[lo + c2] == a[i as int][c2]);
                }
            }
            assert forall|i2: int| 0 <= i2 < i + 1 implies stack@[#[trigger] r.argv@[i2] + a[i2].len() - base] == 0 by {
                if i2 < i {
                    lemma_args_bytes_mono(a, i2 + 1, i as int);
                    lemma_args_bytes_mono(a, 0, i2);
                    assert(r.argv@[i2] == r.argv_base - args_bytes(a, i2 + 1));
                    assert(args_bytes(a, i2 + 1) == args_bytes(a, i2) + a[i2].len() + 1);
                    let q = r.argv@[i2] + a[i2].len() - base;
                    assert(hi <= q < ab);
                    assert(stack@[q] == mid[q]);
                }
            }
            assert forall|q: int| ab <= q < len implies #[trigger] stack@[q] == le_byte(r.argv@[(q - ab) / (w as int)], (q - ab) % (w as int)) by {
                assert(stack@[q] == mid[q]);
            }
            assert forall|q: int| 0 <= q < low implies #[trigger] stack@[q] == s0[q] by {
                assert(stack@[q] == mid[q]);
            }
        }
        i = i + 1;
    }
}

/// The strings of more arguments take more bytes.
proof fn lemma_args_bytes_mono(a: Seq<Seq<u8>>, i: int, j: int)
    requires
        0 <= i <= j <= a.len(),
    ensures
        args_bytes(a, i) <= args_bytes(a, j),
        0 <= args_bytes(a, i),
    decreases j,
{
    if i < j {
        lemma_args_bytes_mono(a, i, j - 1);
    } else if i > 0 {
        lemma_args_bytes_mono(a, i - 1, j - 1);
    }
}

impl<F> TaskControlBlock<F> {
    /// The state of the task.
    pub closed spec fn state(&self) -> &TaskControlBlockInner<F> {
        &self.inner
    }

    /// The process identifier.
    pub closed spec fn id(&self) -> PidHandle {
        self.pid
    }

    /// The top of the kernel stack.
    pub closed spec fn stack_top(&self) -> usize {
        self.kernel_stack_top
    }

    /// A new ready task with an identifier no live task holds, taken from
    /// `pids`, with no parent and no child, whose descriptors 0, 1 and 2 are
    /// `stdin`, `stdout` and `stderr`. Its trap context `cx` is set
    /// so that the program starts as `start` says, on the user stack `user_sp`.
    pub fn new(
        pids: &mut PidAllocator,
        kernel_stack_top: usize,
        trap_cx_ppn: PhysPageNum,
        user_sp: usize,
        user_token: usize,
        stdin: F,
        stdout: F,
        stderr: F,
        start: ProgramStart,
        cx: &mut TrapContext,
    ) -> (r: Self)
        requires
            old(pids)@.wf(),
            old(pids)@.recycled.len() > 0 || old(pids)@.current < usize::MAX,
        ensures
            final(pids)@.wf(),
            (final(pids)@, r.id().0) == old(pids)@.alloc_step(),
            !old(pids)@.live(r.id().0),
            final(pids)@.live(r.id().0),
            forall|q: usize| q != r.id().0 ==> (#[trigger] final(pids)@.live(q) == old(pids)@.live(q)),
            started_at(*final(cx), start, user_sp, kernel_stack_top),
            r.stack_top() == kernel_stack_top,
            r.state().trap_cx_ppn == trap_cx_ppn,
            r.state().base_size == user_sp,
            r.state().task_status == TaskStatus::Ready,
            r.state().user_token == user_token,
            r.state().parent is None,
            r.state().children@ == Seq::<usize>::empty(),
            r.state().exit_code == 0,
            r.state().fd_table@ == seq![Some(stdin), Some(stdout), Some(stderr)],
    {
        let pid = pids.allocate();
        let mut fd_table: Vec<Option<F>> = Vec::new();
        fd_table.push(Some(stdin));
        fd_table.push(Some(stdout));
        fd_table.push(Some(stderr));
        let r = TaskControlBlock {
            pid,
            kernel_stack_top,
            inner: TaskControlBlockInner {
                trap_cx_ppn,
                base_size: user_sp,
                task_status: TaskStatus::Ready,
                user_token,
                parent: None,
                children: Vec::new(),
                exit_code: 0,
                fd_table,
            },
        };
        assert(r.inner.fd_table@ =~= seq![Some(stdin), Some(stdout), Some(stderr)]);
        *cx = TrapContext::app_init_context(start.entry, user_sp, start.sstatus, start.kernel_satp, kernel_stack_top, start.trap_handler);
        r
    }

    /// Exclusive access to the state of the task.
    pub fn inner_exclusive_access(&mut self) -> (r: &mut TaskControlBlockInner<F>)
        ensures
            *r == *old(self).state(),
            *final(self).state() == *final(r),
            final(self).id() == old(self).id(),
            final(self).stack_top() == old(self).stack_top(),
    {
        &mut self.inner
    }

    /// The process identifier of the task.
    pub fn getpid(&self) -> (r: usize)
        ensures
            r == self.id().0,
    {
        self.pid.0
    }

    /// Replaces the program of the task: the new address space is `user_token`
    /// with its trap context in `trap_cx_ppn`. The arguments `args` are laid
    /// out below `user_sp` and written into `stack`, the bytes of the new user
    /// stack just below `user_sp`; the trap context `cx` is set so that the
    /// program starts as `start` says on the aligned stack, with the argument
    /// count in `a0` and the argument array in `a1`.
    pub fn exec(
        &mut self,
        user_token: usize,
        trap_cx_ppn: PhysPageNum,
        user_sp: usize,
        args: &Vec<Vec<u8>>,
        stack: &mut [u8],
        start: ProgramStart,
        cx: &mut TrapContext,
    ) -> (r: ExecStack)
        requires
            user_sp >= (args@.len() + 1) * word_size() + args_bytes(args@.map_values(|a: Vec<u8>| a@), args@.len() as int),
            old(stack)@.len() <= user_sp,
            old(stack)@.len() >= (args@.len() + 1) * word_size() + args_bytes(args@.map_values(|a: Vec<u8>| a@), args@.len() as int),
        ensures
            is_exec_stack(user_sp, args@.map_values(|a: Vec<u8>| a@), r),
            stack_holds_args(user_sp, args@.map_values(|a: Vec<u8>| a@), r, old(stack)@, final(stack)@),
            final(cx).x@ == Seq::new(32, |i: int| 0usize).update(2, r.user_sp).update(10, r.argc).update(11, r.argv_base),
            final(cx).sepc == start.entry,
            final(cx).sstatus == start.sstatus,
            final(cx).kernel_satp == start.kernel_satp,
            final(cx).kernel_sp == old(self).stack_top(),
            final(cx).trap_handler == start.trap_handler,
            final(self).state().user_token == user_token,
            final(self).state().trap_cx_ppn == trap_cx_ppn,
            final(self).state().task_status == old(self).state().task_status,
            final(self).state().parent == old(self).state().parent,
            final(self).state().children@ == old(self).state().children@,
            final(self).state().fd_table@ == old(self).state().fd_table@,
            final(self).state().base_size == old(self).state().base_size,
            final(self).state().exit_code == old(self).state().exit_code,
            final(self).id() == old(self).id(),
            final(self).stack_top() == old(self).stack_top(),
    {
        proof {
            broadcast use vstd::layout::layout_of_primitives;
        }
        let r = exec_stack_layout(user_sp, args);
        write_args(stack, user_sp, args, &r);
        self.inner.user_token = user_token;
        self.inner.trap_cx_ppn = trap_cx_ppn;
        *cx = TrapContext::app_init_context(start.entry, r.user_sp, start.sstatus, start.kernel_satp, self.kernel_stack_top, start.trap_handler);
        r.load_args(cx);
        r
    }
}

impl<F: Clone> TaskControlBlock<F> {
    /// Makes a child of the task: a ready task with a fresh identifier from
    /// `pids`, the address space `user_token` with its trap context in
    /// `trap_cx_ppn`, the same open files. `child_cx` is the trap context of
    /// the child, copied from the parent's; it is set to trap onto the child's
    /// kernel stack.
    pub fn fork(
        &mut self,
        pids: &mut PidAllocator,
        kernel_stack_top: usize,
        trap_cx_ppn: PhysPageNum,
        user_token: usize,
        child_cx: &mut TrapContext,
    ) -> (child: Self)
        requires
            old(pids)@.wf(),
            old(pids)@.recycled.len() > 0 || old(pids)@.current < usize::MAX,
            old(pids)@.live(old(self).id().0),
        ensures
            final(pids)@.wf(),
            (final(pids)@, child.id().0) == old(pids)@.alloc_step(),
            !old(pids)@.live(child.id().0),
            final(pids)@.live(child.id().0),
            forall|q: usize| q != child.id().0 ==> (#[trigger] final(pids)@.live(q) == old(pids)@.live(q)),
            child.id().0 != old(self).id().0,
            *final(child_cx) == (TrapContext { kernel_sp: kernel_stack_top, ..*old(child_cx) }),
            child.stack_top() == kernel_stack_top,
            child.state().trap_cx_ppn == trap_cx_ppn,
            child.state().base_size == old(self).state().base_size,
            child.state().task_status == TaskStatus::Ready,
            child.state().user_token == user_token,
            child.state().parent == Some(old(self).id().0),
            child.state().children@ == Seq::<usize>::empty(),
            child.state().exit_code == 0,
            child.state().fd_table@.len() == old(self).state().fd_table@.len(),
            forall|i: int| 0 <= i < child.state().fd_table@.len() ==> match (#[trigger] child.state().fd_table@[i], old(self).state().fd_table@[i]) {
                (Some(c), Some(p)) => cloned(p, c),
                (None, None) => true,
                _ => false,
            },
            final(self).state().children@ == old(self).state().children@.push(child.id().0),
            final(self).state().fd_table@ == old(self).state().fd_table@,
            final(self).state().task_status == old(self).state().task_status,
            final(self).state().parent == old(self).state().parent,
            final(self).state().user_token == old(self).state().user_token,
            final(self).state().exit_code == old(self).state().exit_code,
            final(self).state().base_size == old(self).state().base_size,
            final(self).state().trap_cx_ppn == old(self).state().trap_cx_ppn,
            final(self).id() == old(self).id(),
            final(self).stack_top() == old(self).stack_top(),
    {
        let pid = pids.allocate();
        let mut new_fd_table: Vec<Option<F>> = Vec::new();
        let mut i: usize = 0;
        while i < self.inner.fd_table.len()
            invariant
                i <= self.inner.fd_table@.len(),
                new_fd_table@.len() == i,
                forall|j: int| 0 <= j < i ==> match (#[trigger] new_fd_table@[j], self.inner.fd_table@[j]) {
                    (Some(c), Some(p)) => cloned(p, c),
                    (None, None) => true,
                    _ => false,
                },
            decreases self.inner.fd_table@.len() - i,
        {
            match &self.inner.fd_table[i] {
                Some(file) => new_fd_table.push(Some(file.clone())),
                None => new_fd_table.push(None),
            }
            i = i + 1;
        }
        let child = TaskControlBlock {
            pid,
            kernel_stack_top,
            inner: TaskControlBlockInner {
                trap_cx_ppn,
                base_size: self.inner.base_size,
                task_status: TaskStatus::Ready,
                user_token,
                parent: Some(self.pid.0),
                children: Vec::new(),
                exit_code: 0,
                fd_table: new_fd_table,
            },
        };
        self.inner.children.push(pid.0);
        child_cx.kernel_sp = kernel_stack_top;
        child
    }
}

/// Live tasks have distinct identifiers: a task made by `new` or `fork` from
/// the identifier allocator in state `pids` gets an identifier different from
/// that of every task `other` whose identifier is live there, and both stay
/// live afterwards.
pub proof fn lemma_live_tasks_distinct<F>(pids: PidAllocatorState, made: TaskControlBlock<F>, other: TaskControlBlock<F>)
    requires
        pids.wf(),
        pids.recycled.len() > 0 || pids.current < usize::MAX,
        pids.live(other.id().0),
        made.id().0 == pids.alloc_step().1,
    ensures
        made.id().0 != other.id().0,
        pids.alloc_step().0.live(made.id().0),
        pids.alloc_step().0.live(other.id().0),
{
    lemma_pids_distinct(pids, other.id().0);
}

} // verus!
