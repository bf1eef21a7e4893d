//! Process identifiers: handed out fresh, given back, and handed out again.
use vstd::prelude::*;
use crate::task::PidHandle;

verus! {

/// The abstract state of a [`PidAllocator`].
pub ghost struct PidAllocatorState {
    /// Every identifier below `current` has been handed out at least once.
    pub current: usize,
    /// Identifiers given back and not handed out again, the last one on top.
    pub recycled: Seq<usize>,
}

impl PidAllocatorState {
    /// The recycled identifiers are distinct and had been handed out.
    pub open spec fn wf(self) -> bool {
        &&& self.recycled.no_duplicates()
        &&& forall|i: int| 0 <= i < self.recycled.len() ==> #[trigger] self.recycled[i] < self.current
    }

    /// The identifier `p` is held by a live task.
    pub open spec fn live(self, p: usize) -> bool {
        p < self.current && !self.recycled.contains(p)
    }

    /// The state after `allocate` and the identifier it hands out.
    pub open spec fn alloc_step(self) -> (PidAllocatorState, usize) {
        if self.recycled.len() > 0 {
            (PidAllocatorState { recycled: self.recycled.drop_last(), ..self }, self.recycled.last())
        } else {
            (PidAllocatorState { current: (self.current + 1) as usize, ..self }, self.current)
        }
    }
}

/// Hands out process identifiers: the last one given back first, else the
/// next one never handed out.
pub struct PidAllocator {
    current: usize,
    recycled: Vec<usize>,
}

impl View for PidAllocator {
    type V = PidAllocatorState;

    closed spec fn view(&self) -> PidAllocatorState {
        PidAllocatorState { current: self.current, recycled: self.recycled@ }
    }
}

impl PidAllocator {
    /// An allocator that has handed out nothing.
    pub fn new() -> (r: Self)
        ensures
            r@.wf(),
            r@ == (PidAllocatorState { current: 0, recycled: Seq::empty() }),
    {
        PidAllocator { current: 0, recycled: Vec::new() }
    }

    /// Hands out an identifier that no live task holds.
    pub fn allocate(&mut self) -> (r: PidHandle)
        requires
            old(self)@.wf(),
            old(self)@.recycled.len() > 0 || old(self)@.current < usize::MAX,
        ensures
            final(self)@.wf(),
            (final(self)@, r.0) == old(self)@.alloc_step(),
            !old(self)@.live(r.0),
            final(self)@.live(r.0),
            forall|q: usize| q != r.0 ==> (#[trigger] final(self)@.live(q) == old(self)@.live(q)),
    {
        proof {
            if self.recycled@.len() > 0 {
                let s = self.recycled@;
                assert forall|i: int| 0 <= i < s.drop_last().len() implies s.drop_last()[i] != s.last() by {
                    assert(s[i] == s.drop_last()[i]);
                }
                assert(s =~= s.drop_last().push(s.last()));
            }
        }
        if let Some(pid) = self.recycled.pop() {
            PidHandle(pid)
        } else {
            self.current = self.current + 1;
            PidHandle(self.current - 1)
        }
    }

    /// Whether an identifier can be handed out without running past the
    /// largest number.
    pub fn can_allocate(&self) -> (r: bool)
        ensures
            r == (self@.recycled.len() > 0 || self@.current < usize::MAX),
    {
        self.recycled.len() > 0 || self.current < usize::MAX
    }

    /// Whether `pid` is held by a live task and may be given back.
    pub fn is_live(&self, pid: usize) -> (r: bool)
        ensures
            r == self@.live(pid),
    {
        if pid >= self.current {
            return false;
        }
        let mut i: usize = 0;
        while i < self.recycled.len()
            invariant
                i <= self.recycled.len(),
                forall|j: int| 0 <= j < i ==> self.recycled@[j] != pid,
            decreases self.recycled.len() - i,
        {
            if self.recycled[i] == pid {
                assert(self.recycled@[i as int] == pid);
                return false;
            }
            i = i + 1;
        }
        true
    }

    /// Gives back the identifier `pid` of a task that is gone.
    pub fn dealloc(&mut self, pid: usize)
        requires
            old(self)@.wf(),
            old(self)@.live(pid),
        ensures
            final(self)@.wf(),
            final(self)@ == (PidAllocatorState { recycled: old(self)@.recycled.push(pid), ..old(self)@ }),
            !final(self)@.live(pid),
            forall|q: usize| q != pid ==> (#[trigger] final(self)@.live(q) == old(self)@.live(q)),
    {
        let ghost old_r = self.recycled@;
        self.recycled.push(pid);
        proof {
            assert forall|i: int, j: int| 0 <= i < j < self.recycled@.len() implies self.recycled@[i] != self.recycled@[j] by {
                if j == old_r.len() {
                    assert(old_r[i] == self.recycled@[i]);
                    assert(old_r.contains(old_r[i]));
                }
            }
            assert forall|q: usize| q != pid implies #[trigger] self@.live(q) == old(self)@.live(q) by {
                if old_r.contains(q) {
                    let i = choose|i: int| 0 <= i < old_r.len() && old_r[i] == q;
                    assert(self.recycled@[i] == q);
                }
                if self.recycled@.contains(q) {
                    let i = choose|i: int| 0 <= i < self.recycled@.len() && self.recycled@[i] == q;
                    assert(old_r[i] == q);
                }
            }
            assert(self.recycled@[old_r.len() as int] == pid);
        }
    }
}

/// Live tasks have distinct identifiers: an identifier handed out differs from
/// every identifier a live task holds, and the one after it differs from both.
pub proof fn lemma_pids_distinct(s: PidAllocatorState, held: usize)
    requires
        s.wf(),
        s.live(held),
        s.recycled.len() > 0 || s.current < usize::MAX,
    ensures
        s.alloc_step().1 != held,
        s.alloc_step().0.live(held),
        s.alloc_step().0.live(s.alloc_step().1),
        s.alloc_step().0.wf(),
{
    if s.recycled.len() > 0 {
        let d = s.recycled.drop_last();
        assert(s.recycled =~= d.push(s.recycled.last()));
        assert(s.recycled.contains(s.recycled.last()));
        assert forall|i: int| 0 <= i < d.len() implies d[i] != s.recycled.last() by {
            assert(s.recycled[i] == d[i]);
        }
        if d.contains(held) {
            let i = choose|i: int| 0 <= i < d.len() && d[i] == held;
            assert(s.recycled[i] == held);
        }
    }
}

} // verus!
