//! A model of physical memory seen as frames of 512 64-bit words, the way the
//! page table code reads and writes it.
use vstd::prelude::*;
use std::collections::HashMap;
use crate::address::PhysPageNum;

verus! {

broadcast use vstd::std_specs::hash::group_hash_axioms;

/// Number of 64-bit words in a frame.
pub const WORDS_PER_FRAME: usize = 512;

/// The contents of physical memory: the frames that were ever written. A frame
/// that was never written reads as zeros.
pub ghost struct MemoryState {
    pub frames: Map<usize, Seq<u64>>,
}

impl MemoryState {
    /// The word `i` of the frame `ppn`.
    pub open spec fn word(self, ppn: usize, i: usize) -> u64 {
        if self.frames.contains_key(ppn) && i < self.frames[ppn].len() {
            self.frames[ppn][i as int]
        } else {
            0
        }
    }

    /// The frame `ppn` as a sequence of its words.
    pub open spec fn frame(self, ppn: usize) -> Seq<u64> {
        Seq::new(WORDS_PER_FRAME as nat, |i: int| self.word(ppn, i as usize))
    }

    /// Every stored frame has exactly 512 words.
    pub open spec fn wf(self) -> bool {
        forall|p: usize| #[trigger] self.frames.contains_key(p) ==> self.frames[p].len() == WORDS_PER_FRAME
    }

    /// The state after the frame `ppn` is filled with zeros.
    pub open spec fn zero_frame(self, ppn: usize) -> MemoryState {
        MemoryState { frames: self.frames.insert(ppn, Seq::new(WORDS_PER_FRAME as nat, |i: int| 0u64)) }
    }

    /// The state after the word `i` of the frame `ppn` is set to `w`.
    pub open spec fn write(self, ppn: usize, i: usize, w: u64) -> MemoryState {
        MemoryState { frames: self.frames.insert(ppn, self.frame(ppn).update(i as int, w)) }
    }
}

/// What zeroing a frame does to the words of memory.
pub proof fn lemma_zero_frame_word(m: MemoryState, ppn: usize, p: usize, i: usize)
    requires
        i < WORDS_PER_FRAME,
    ensures
        m.zero_frame(ppn).word(p, i) == if p == ppn { 0u64 } else { m.word(p, i) },
{
}

/// What writing a word does to the words of memory.
pub proof fn lemma_write_word(m: MemoryState, ppn: usize, i: usize, w: u64, p: usize, j: usize)
    requires
        i < WORDS_PER_FRAME,
        j < WORDS_PER_FRAME,
    ensures
        m.write(ppn, i, w).word(p, j) == if p == ppn && j == i { w } else { m.word(p, j) },
{
}

/// Physical memory, frame by frame.
pub struct PhysMemory {
    frames: HashMap<usize, Vec<u64>>,
}

impl View for PhysMemory {
    type V = MemoryState;

    closed spec fn view(&self) -> MemoryState {
        MemoryState { frames: self.frames@.map_values(|v: Vec<u64>| v@) }
    }
}

impl PhysMemory {
    /// The consistency of the stored frames.
    pub open spec fn wf(&self) -> bool {
        self@.wf()
    }

    /// Memory in which every frame reads as zeros.
    pub fn new() -> (r: Self)
        ensures
            r.wf(),
            r@.frames == Map::<usize, Seq<u64>>::empty(),
    {
        let r = PhysMemory { frames: HashMap::new() };
        assert(r@.frames =~= Map::<usize, Seq<u64>>::empty());
        r
    }

    /// Reads the word `i` of the frame `ppn`.
    pub fn read(&self, ppn: PhysPageNum, i: usize) -> (r: u64)
        requires
            self.wf(),
            i < WORDS_PER_FRAME,
        ensures
            r == self@.word(ppn.0, i),
    {
        match self.frames.get(&ppn.0) {
            Some(v) => {
                assert(self@.frames.contains_key(ppn.0));
                v[i]
            },
            None => 0,
        }
    }

    /// Writes the word `i` of the frame `ppn`.
    pub fn write(&mut self, ppn: PhysPageNum, i: usize, w: u64)
        requires
            old(self).wf(),
            i < WORDS_PER_FRAME,
        ensures
            final(self).wf(),
            final(self)@ == old(self)@.write(ppn.0, i, w),
    {
        let ghost old_m = self@;
        let mut v = match self.frames.remove(&ppn.0) {
            Some(v) => {
                assert(old_m.frames.contains_key(ppn.0));
                assert(v@ == old_m.frames[ppn.0]);
                assert(v@ =~= old_m.frame(ppn.0));
                v
            },
            None => {
                let z = zero_words();
                assert(z@ =~= old_m.frame(ppn.0));
                z
            },
        };
        v.set(i, w);
        self.frames.insert(ppn.0, v);
        assert(self@.frames =~= old_m.write(ppn.0, i, w).frames);
    }

    /// Fills the frame `ppn` with zeros.
    pub fn zero_frame(&mut self, ppn: PhysPageNum)
        requires
            old(self).wf(),
        ensures
            final(self).wf(),
            final(self)@ == old(self)@.zero_frame(ppn.0),
    {
        let ghost old_m = self@;
        let v = zero_words();
        self.frames.insert(ppn.0, v);
        assert(self@.frames =~= old_m.zero_frame(ppn.0).frames);
    }
}

/// A frame of zeros.
fn zero_words() -> (r: Vec<u64>)
    ensures
        r@ == Seq::new(WORDS_PER_FRAME as nat, |i: int| 0u64),
{
    let mut v: Vec<u64> = Vec::new();
    let mut k: usize = 0;
    while k < WORDS_PER_FRAME
        invariant
            k <= WORDS_PER_FRAME,
            v@ == Seq::new(k as nat, |i: int| 0u64),
        decreases WORDS_PER_FRAME - k,
    {
        v.push(0);
        k = k + 1;
        assert(v@ =~= Seq::new(k as nat, |i: int| 0u64));
    }
    v
}

} // verus!
