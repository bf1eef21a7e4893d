//! The stack frame allocator, which hands out the physical frames of the kernel.
use vstd::prelude::*;
use crate::address::PhysPageNum;
use crate::memory::PhysMemory;

verus! {

/// The abstract state of a [`StackFrameAllocator`].
pub ghost struct FrameAllocatorState {
    /// The first frame of the range the allocator manages.
    pub start: usize,
    /// Every frame below `current` has been handed out at least once.
    pub current: usize,
    /// The allocator never hands out a fresh frame at or above `end`.
    pub end: usize,
    /// Frames given back and not yet handed out again, the last one on top.
    pub recycled: Seq<usize>,
}

impl FrameAllocatorState {
    /// The state is consistent: the recycled frames are distinct frames of the
    /// range that had been handed out, and `current` lies between `start` and
    /// `end`.
    pub open spec fn wf(self) -> bool {
        &&& self.start <= self.current
        &&& self.current <= self.end
        &&& self.recycled.no_duplicates()
        &&& forall|i: int| 0 <= i < self.recycled.len() ==> self.start <= #[trigger] self.recycled[i] < self.current
    }

    /// The frame `p` of the managed range is currently held by a user of the
    /// allocator.
    pub open spec fn allocated(self, p: usize) -> bool {
        self.start <= p < self.current && !self.recycled.contains(p)
    }

    /// Number of frames that can still be handed out.
    pub open spec fn free_count(self) -> int {
        self.recycled.len() + (self.end - self.current)
    }

    /// The state after `allocate` and its result.
    pub open spec fn alloc_step(self) -> (FrameAllocatorState, Option<usize>) {
        if self.recycled.len() > 0 {
            (
                FrameAllocatorState { recycled: self.recycled.drop_last(), ..self },
                Some(self.recycled.last()),
            )
        } else if self.current == self.end {
            (self, None)
        } else {
            (FrameAllocatorState { current: (self.current + 1) as usize, ..self }, Some(self.current))
        }
    }

    /// The state after `dealloc` of the frame `p`.
    pub open spec fn dealloc_step(self, p: usize) -> FrameAllocatorState {
        FrameAllocatorState { recycled: self.recycled.push(p), ..self }
    }
}

/// Tracks one physical frame handed out by the allocator.
pub struct FrameTracker {
    pub ppn: PhysPageNum,
}

impl FrameTracker {
    /// Takes hold of the frame `ppn` and fills it with zeros.
    pub fn new(ppn: PhysPageNum, mem: &mut PhysMemory) -> (r: Self)
        requires
            old(mem).wf(),
        ensures
            r.ppn == ppn,
            final(mem).wf(),
            final(mem)@ == old(mem)@.zero_frame(ppn.0),
    {
        mem.zero_frame(ppn);
        FrameTracker { ppn }
    }
}

/// Hands out fresh frames from a range, and recycled frames first.
pub struct StackFrameAllocator {
    start: usize,
    current: usize,
    end: usize,
    recycled: Vec<usize>,
}

impl View for StackFrameAllocator {
    type V = FrameAllocatorState;

    closed spec fn view(&self) -> FrameAllocatorState {
        FrameAllocatorState { start: self.start, current: self.current, end: self.end, recycled: self.recycled@ }
    }
}

impl StackFrameAllocator {
    /// An empty allocator.
    pub fn new() -> (r: Self)
        ensures
            r@.wf(),
            r@ == (FrameAllocatorState { start: 0, current: 0, end: 0, recycled: Seq::empty() }),
    {
        StackFrameAllocator { start: 0, current: 0, end: 0, recycled: Vec::new() }
    }

    /// Sets the range `[l, r)` of frames the allocator manages; every frame of
    /// it is fresh. Recycled frames stay where they are. The allocator is
    /// consistent afterwards when it was before, the range is not reversed and
    /// no frame is recycled, as for a new allocator.
    pub fn init(&mut self, l: PhysPageNum, r: PhysPageNum)
        ensures
            final(self)@ == (FrameAllocatorState { start: l.0, current: l.0, end: r.0, ..old(self)@ }),
            old(self)@.wf() && l.0 <= r.0 && old(self)@.recycled.len() == 0 ==> final(self)@.wf(),
    {
        self.start = l.0;
        self.current = l.0;
        self.end = r.0;
    }

    /// Hands out a frame: the last recycled one if there is one, else the next
    /// fresh one; `None` when neither is left.
    pub fn allocate(&mut self) -> (r: Option<PhysPageNum>)
        requires
            old(self)@.wf(),
        ensures
            final(self)@.wf(),
            (final(self)@, match r { Some(p) => Some(p.0), None => None }) == old(self)@.alloc_step(),
            r is None <==> old(self)@.free_count() == 0,
            r matches Some(p) ==> {
                &&& !old(self)@.allocated(p.0)
                &&& final(self)@.allocated(p.0)
                &&& p.0 < old(self)@.end
                &&& final(self)@.free_count() == old(self)@.free_count() - 1
            },
            forall|q: usize| (r matches Some(p) ==> q != p.0) ==>
                (#[trigger] final(self)@.allocated(q) == old(self)@.allocated(q)),
    {
        proof {
            if self.recycled@.len() > 0 {
                let s = self.recycled@;
                assert forall|i: int| 0 <= i < s.drop_last().len() implies s.drop_last()[i] != s.last() by {
                    assert(s[i] == s.drop_last()[i]);
                }
                assert(s =~= s.drop_last().push(s.last()));
            }
        }
        if let Some(ppn) = self.recycled.pop() {
            Some(PhysPageNum(ppn))
        } else if self.current == self.end {
            None
        } else {
            self.current = self.current + 1;
            Some(PhysPageNum(self.current - 1))
        }
    }

    /// Whether a frame can still be handed out.
    pub fn has_free_frame(&self) -> (r: bool)
        requires
            self@.wf(),
        ensures
            r == (self@.free_count() >= 1),
    {
        self.recycled.len() > 0 || self.current < self.end
    }

    /// Whether `ppn` may be given back: it lies in the managed range, was
    /// handed out and is not recycled.
    pub fn can_dealloc(&self, ppn: PhysPageNum) -> (r: bool)
        ensures
            r == self@.allocated(ppn.0),
    {
        if ppn.0 < self.start || ppn.0 >= self.current {
            return false;
        }
        let mut i: usize = 0;
        while i < self.recycled.len()
            invariant
                i <= self.recycled.len(),
                forall|j: int| 0 <= j < i ==> self.recycled@[j] != ppn.0,
            decreases self.recycled.len() - i,
        {
            if self.recycled[i] == ppn.0 {
                return false;
            }
            i = i + 1;
        }
        true
    }

    /// Gives back the frame `ppn`, which must lie in the managed range and be
    /// held by a user.
    pub fn dealloc(&mut self, ppn: PhysPageNum)
        requires
            old(self)@.wf(),
            old(self)@.allocated(ppn.0),
        ensures
            final(self)@.wf(),
            final(self)@ == old(self)@.dealloc_step(ppn.0),
            !final(self)@.allocated(ppn.0),
            final(self)@.free_count() == old(self)@.free_count() + 1,
            forall|q: usize| q != ppn.0 ==> (#[trigger] final(self)@.allocated(q) == old(self)@.allocated(q)),
    {
        let ghost old_r = self.recycled@;
        self.recycled.push(ppn.0);
        proof {
            assert(self.recycled@[self.recycled@.len() - 1] == ppn.0);
            assert forall|q: usize| q != ppn.0 implies (self.recycled@.contains(q) == old_r.contains(q)) by {
                if old_r.contains(q) {
                    let i = choose|i: int| 0 <= i < old_r.len() && old_r[i] == q;
                    assert(self.recycled@[i] == q);
                }
                if self.recycled@.contains(q) {
                    let i = choose|i: int| 0 <= i < self.recycled@.len() && self.recycled@[i] == q;
                    assert(old_r[i] == q);
                }
            }
        }
    }
}

/// Hands out a zeroed frame, or `None` when the allocator has none left.
pub fn frame_alloc(allocator: &mut StackFrameAllocator, mem: &mut PhysMemory) -> (r: Option<FrameTracker>)
    requires
        old(allocator)@.wf(),
        old(mem).wf(),
    ensures
        final(allocator)@.wf(),
        final(mem).wf(),
        (final(allocator)@, match r { Some(f) => Some(f.ppn.0), None => None }) == old(allocator)@.alloc_step(),
        r is None <==> old(allocator)@.free_count() == 0,
        r is None ==> final(mem)@ == old(mem)@,
        r matches Some(f) ==> {
            &&& !old(allocator)@.allocated(f.ppn.0)
            &&& final(allocator)@.allocated(f.ppn.0)
            &&& f.ppn.0 < old(allocator)@.end
            &&& final(allocator)@.free_count() == old(allocator)@.free_count() - 1
            &&& final(mem)@ == old(mem)@.zero_frame(f.ppn.0)
        },
        forall|q: usize| (r matches Some(f) ==> q != f.ppn.0) ==>
            (#[trigger] final(allocator)@.allocated(q) == old(allocator)@.allocated(q)),
{
    match allocator.allocate() {
        Some(ppn) => Some(FrameTracker::new(ppn, mem)),
        None => None,
    }
}

/// Gives back the frame held by `frame`.
pub fn frame_dealloc(allocator: &mut StackFrameAllocator, frame: FrameTracker)
    requires
        old(allocator)@.wf(),
        old(allocator)@.allocated(frame.ppn.0),
    ensures
        final(allocator)@.wf(),
        final(allocator)@ == old(allocator)@.dealloc_step(frame.ppn.0),
{
    allocator.dealloc(frame.ppn);
}

/// A frame given back is the next one handed out, and the allocator is then
/// back in the state it had before the frame was given back.
pub proof fn lemma_dealloc_then_alloc(s: FrameAllocatorState, p: usize)
    requires
        s.wf(),
        s.allocated(p),
    ensures
        s.dealloc_step(p).wf(),
        s.dealloc_step(p).alloc_step() == (s, Some(p)),
{
    let t = s.dealloc_step(p);
    assert(t.recycled.drop_last() =~= s.recycled);
    assert forall|i: int, j: int| 0 <= i < j < t.recycled.len() implies t.recycled[i] != t.recycled[j] by {
        if j == t.recycled.len() - 1 {
            assert(s.recycled[i] == t.recycled[i]);
        }
    }
}

/// Each frame handed out is distinct from every frame held before: two
/// successive allocations never hand out the same frame.
pub proof fn lemma_alloc_fresh(s: FrameAllocatorState)
    requires
        s.wf(),
    ensures
        s.alloc_step().0.wf(),
        s.alloc_step().1 matches Some(p) ==> {
            &&& !s.allocated(p)
            &&& s.alloc_step().0.allocated(p)
            &&& (s.alloc_step().0.alloc_step().1 matches Some(q) ==> q != p)
        },
{
    if s.recycled.len() > 0 {
        let d = s.recycled.drop_last();
        assert(s.recycled =~= d.push(s.recycled.last()));
        assert forall|i: int| 0 <= i < d.len() implies d[i] != s.recycled.last() by {
            assert(s.recycled[i] == d[i]);
        }
        if d.len() > 0 {
            assert(d.last() == s.recycled[d.len() - 1]);
        }
    }
}

/// The number of frames handed out so far never goes down, and the allocator
/// never hands out a frame at or above its end: handing out and giving back
/// keep `current` from decreasing and `end` fixed.
pub proof fn lemma_current_monotone(s: FrameAllocatorState, p: usize)
    requires
        s.wf(),
    ensures
        s.alloc_step().0.current >= s.current,
        s.alloc_step().0.end == s.end,
        s.alloc_step().1 matches Some(q) ==> q < s.end,
        s.dealloc_step(p).current == s.current,
        s.dealloc_step(p).end == s.end,
{
    if s.recycled.len() > 0 {
        assert(s.recycled.last() == s.recycled[s.recycled.len() - 1]);
    }
}

} // verus!
