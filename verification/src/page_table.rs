//! Sv39 page table entries and three-level page tables.
use vstd::prelude::*;
use crate::address::{PhysPageNum, VirtPageNum, vpn_index};
use crate::memory::{MemoryState, PhysMemory, WORDS_PER_FRAME, lemma_write_word, lemma_zero_frame_word};
use crate::frame_allocator::{FrameAllocatorState, FrameTracker, StackFrameAllocator, frame_alloc};

verus! {

/// Flags of a page table entry, one bit each.
#[derive(Clone, Copy, Debug, PartialEq, Eq, Structural)]
pub struct PTEFlags {
    pub bits: u8,
}

/// Valid.
pub const PTE_V: u8 = 1;
/// Readable.
pub const PTE_R: u8 = 2;
/// Writable.
pub const PTE_W: u8 = 4;
/// Executable.
pub const PTE_X: u8 = 8;
/// Accessible from user mode.
pub const PTE_U: u8 = 16;
/// Global mapping.
pub const PTE_G: u8 = 32;
/// Accessed.
pub const PTE_A: u8 = 64;
/// Dirty.
pub const PTE_D: u8 = 128;

impl PTEFlags {
    /// No flag set.
    pub fn empty() -> (r: Self)
        ensures
            r.bits == 0,
    {
        PTEFlags { bits: 0 }
    }

    /// The flags whose bits are `bits`; every bit of a `u8` is a flag.
    pub fn from_bits(bits: u8) -> (r: Option<Self>)
        ensures
            r == Some(PTEFlags { bits }),
    {
        Some(PTEFlags { bits })
    }

    /// The flags set in `self` or in `other`.
    pub fn union(self, other: Self) -> (r: Self)
        ensures
            r.bits == self.bits | other.bits,
    {
        PTEFlags { bits: self.bits | other.bits }
    }

    /// The flags set in both `self` and `other`.
    pub fn intersection(self, other: Self) -> (r: Self)
        ensures
            r.bits == self.bits & other.bits,
    {
        PTEFlags { bits: self.bits & other.bits }
    }

    /// Whether every flag of `other` is set in `self`.
    pub fn contains(self, other: Self) -> (r: bool)
        ensures
            r == (self.bits & other.bits == other.bits),
    {
        self.bits & other.bits == other.bits
    }
}

/// Mask of the 44 bits of a physical page number.
pub const PPN_MASK: u64 = 0xfff_ffff_ffff;
/// Number of physical page numbers that an entry can hold.
pub open spec fn ppn_limit() -> int {
    0x1000_0000_0000
}

/// The bits of the entry that maps to `ppn` with `flags`.
pub open spec fn pte_bits(ppn: usize, flags: u8) -> u64 {
    ((ppn as u64) << 10u64) | (flags as u64)
}

/// The physical page number held by the entry `bits`.
pub open spec fn pte_ppn(bits: u64) -> usize {
    ((bits >> 10u64) & PPN_MASK) as usize
}

/// The flags held by the entry `bits`.
pub open spec fn pte_flags(bits: u64) -> u8 {
    (bits & 0xffu64) as u8
}

/// Whether the entry `bits` is valid.
pub open spec fn pte_valid(bits: u64) -> bool {
    bits & 1u64 == 1u64
}

/// An entry keeps the page number and the flags it is made with.
pub proof fn lemma_pte_roundtrip(ppn: usize, flags: u8)
    requires
        ppn < ppn_limit(),
    ensures
        pte_ppn(pte_bits(ppn, flags)) == ppn,
        pte_flags(pte_bits(ppn, flags)) == flags,
        pte_valid(pte_bits(ppn, flags)) == (flags & 1u8 == 1u8),
{
    let p = ppn as u64;
    let f = flags as u64;
    assert(((((p << 10u64) | f) >> 10u64) & 0xfff_ffff_ffffu64) == p) by (bit_vector)
        requires p < 0x1000_0000_0000u64, f < 256u64;
    assert((((p << 10u64) | f) & 0xffu64) == f) by (bit_vector)
        requires f < 256u64;
    assert(((((p << 10u64) | f) & 1u64) == 1u64) == ((f & 1u64) == 1u64)) by (bit_vector);
    assert((f & 1u64 == 1u64) == (flags & 1u8 == 1u8)) by (bit_vector)
        requires f == flags as u64;
}

/// The empty entry is not valid.
pub proof fn lemma_zero_invalid()
    ensures
        !pte_valid(0u64),
{
    assert(0u64 & 1u64 == 0u64) by (bit_vector);
}

/// An entry of a page table.
#[derive(Clone, Copy, Debug, PartialEq, Eq, Structural)]
pub struct PageTableEntry {
    pub bits: u64,
}

impl PageTableEntry {
    /// The entry that maps to `ppn` with `flags`.
    pub fn new(ppn: PhysPageNum, flags: PTEFlags) -> (r: Self)
        ensures
            r.bits == pte_bits(ppn.0, flags.bits),
    {
        PageTableEntry { bits: ((ppn.0 as u64) << 10u64) | (flags.bits as u64) }
    }

    /// The entry that maps nothing.
    pub fn empty() -> (r: Self)
        ensures
            r.bits == 0,
    {
        PageTableEntry { bits: 0 }
    }

    /// The physical page number of the entry.
    pub fn ppn(&self) -> (r: PhysPageNum)
        ensures
            r.0 == pte_ppn(self.bits),
    {
        PhysPageNum(((self.bits >> 10u64) & PPN_MASK) as usize)
    }

    /// The flags of the entry.
    pub fn flags(&self) -> (r: PTEFlags)
        ensures
            r.bits == pte_flags(self.bits),
    {
        let b = (self.bits & 0xffu64) as u8;
        PTEFlags::from_bits(b).unwrap()
    }

    /// Whether the entry is valid.
    pub fn is_valid(&self) -> (r: bool)
        ensures
            r == pte_valid(self.bits),
    {
        let f = self.flags();
        let b = self.bits;
        assert((((b & 0xffu64) as u8) & 1u8 != 0u8) == (b & 1u64 == 1u64)) by (bit_vector);
        f.intersection(PTEFlags { bits: PTE_V }) != PTEFlags::empty()
    }

    /// Whether the entry allows reads.
    pub fn readable(&self) -> (r: bool)
        ensures
            r == (self.bits & 2u64 != 0u64),
    {
        let f = self.flags();
        let b = self.bits;
        assert((((b & 0xffu64) as u8) & 2u8 != 0u8) == (b & 2u64 != 0u64)) by (bit_vector);
        f.intersection(PTEFlags { bits: PTE_R }) != PTEFlags::empty()
    }

    /// Whether the entry allows writes.
    pub fn writable(&self) -> (r: bool)
        ensures
            r == (self.bits & 4u64 != 0u64),
    {
        let f = self.flags();
        let b = self.bits;
        assert((((b & 0xffu64) as u8) & 4u8 != 0u8) == (b & 4u64 != 0u64)) by (bit_vector);
        f.intersection(PTEFlags { bits: PTE_W }) != PTEFlags::empty()
    }

    /// Whether the entry allows execution.
    pub fn executable(&self) -> (r: bool)
        ensures
            r == (self.bits & 8u64 != 0u64),
    {
        let f = self.flags();
        let b = self.bits;
        assert((((b & 0xffu64) as u8) & 8u8 != 0u8) == (b & 8u64 != 0u64)) by (bit_vector);
        f.intersection(PTEFlags { bits: PTE_X }) != PTEFlags::empty()
    }
}

} // verus!

verus! {

/// The slot (frame of the last-level table, index in it) that holds the entry
/// of the page `vpn` in the page table rooted at `root`, if the tables on the
/// way exist.
pub open spec fn walk_slot(m: MemoryState, root: usize, vpn: usize) -> Option<(usize, usize)> {
    let e0 = m.word(root, vpn_index(vpn, 0));
    if !pte_valid(e0) {
        None
    } else {
        let e1 = m.word(pte_ppn(e0), vpn_index(vpn, 1));
        if !pte_valid(e1) {
            None
        } else {
            Some((pte_ppn(e1), vpn_index(vpn, 2)))
        }
    }
}

/// The last-level entry of the page `vpn`, if the tables on the way exist.
pub open spec fn walk(m: MemoryState, root: usize, vpn: usize) -> Option<u64> {
    match walk_slot(m, root, vpn) {
        Some(s) => Some(m.word(s.0, s.1)),
        None => None,
    }
}

/// The entry that governs the page `vpn`: the last-level entry, or the empty
/// entry when a table on the way is missing.
pub open spec fn entry(m: MemoryState, root: usize, vpn: usize) -> u64 {
    match walk(m, root, vpn) {
        Some(b) => b,
        None => 0,
    }
}

/// The page `vpn` is mapped.
pub open spec fn mapped(m: MemoryState, root: usize, vpn: usize) -> bool {
    pte_valid(entry(m, root, vpn))
}

/// Number of tables that must be created to hold the entry of `vpn`.
pub open spec fn frames_needed(m: MemoryState, root: usize, vpn: usize) -> int {
    let e0 = m.word(root, vpn_index(vpn, 0));
    if !pte_valid(e0) {
        2
    } else if !pte_valid(m.word(pte_ppn(e0), vpn_index(vpn, 1))) {
        1
    } else {
        0
    }
}

/// Two page numbers select the same entries at every level.
pub open spec fn same_indexes(a: usize, b: usize) -> bool {
    &&& vpn_index(a, 0) == vpn_index(b, 0)
    &&& vpn_index(a, 1) == vpn_index(b, 1)
    &&& vpn_index(a, 2) == vpn_index(b, 2)
}

/// The entries of the page table rooted at `r1` in `m1` are those of the one
/// rooted at `r0` in `m0`, but for the pages that share the indexes of `vpn`,
/// whose entry is `bits`.
pub open spec fn entries_updated(m0: MemoryState, r0: usize, m1: MemoryState, r1: usize, vpn: usize, bits: u64) -> bool {
    forall|v: usize| #[trigger] entry(m1, r1, v) == if same_indexes(v, vpn) { bits } else { entry(m0, r0, v) }
}

/// The tables of a page table form a tree: `tables` gives each table frame its
/// level and the index path that leads to it; the root is at level 0, and every
/// valid entry of a table above the last level is a pointer (its flags are
/// exactly V, so the hardware walk does not stop there) to the table of the
/// next level for that path.
pub open spec fn tables_wf(m: MemoryState, root: usize, tables: Map<usize, (int, int)>) -> bool {
    &&& tables.contains_key(root)
    &&& tables[root] == (0int, 0int)
    &&& forall|t: usize, i: usize|
        #![trigger m.word(t, i), tables[t]]
        tables.contains_key(t) && tables[t].0 == 0 && i < 512 && pte_valid(m.word(t, i)) ==> {
            &&& tables.contains_key(pte_ppn(m.word(t, i)))
            &&& tables[pte_ppn(m.word(t, i))] == (1int, i as int)
            &&& pte_flags(m.word(t, i)) == PTE_V
        }
    &&& forall|t: usize, i: usize|
        #![trigger m.word(t, i), tables[t]]
        tables.contains_key(t) && tables[t].0 == 1 && i < 512 && pte_valid(m.word(t, i)) ==> {
            &&& tables.contains_key(pte_ppn(m.word(t, i)))
            &&& tables[pte_ppn(m.word(t, i))] == (2int, tables[t].1 * 512 + i)
            &&& pte_flags(m.word(t, i)) == PTE_V
        }
}

/// The index of a level is below 512.
pub proof fn lemma_index_bound(v: usize)
    ensures
        vpn_index(v, 0) < 512,
        vpn_index(v, 1) < 512,
        vpn_index(v, 2) < 512,
{
}

/// Changing memory outside the tables changes no walk.
proof fn lemma_unchanged_tables(m1: MemoryState, m2: MemoryState, root: usize, tables: Map<usize, (int, int)>)
    requires
        tables_wf(m1, root, tables),
        forall|t: usize, i: usize| tables.contains_key(t) && i < 512 ==> #[trigger] m2.word(t, i) == m1.word(t, i),
    ensures
        tables_wf(m2, root, tables),
        forall|v: usize| #[trigger] walk(m2, root, v) == walk(m1, root, v),
        forall|v: usize| #[trigger] frames_needed(m2, root, v) == frames_needed(m1, root, v),
{
    assert forall|v: usize| #[trigger] walk(m2, root, v) == walk(m1, root, v) && frames_needed(m2, root, v) == frames_needed(m1, root, v) by {
        lemma_index_bound(v);
        let e0 = m1.word(root, vpn_index(v, 0));
        assert(m2.word(root, vpn_index(v, 0)) == e0);
        if pte_valid(e0) {
            let t1 = pte_ppn(e0);
            assert(tables.contains_key(t1));
            let e1 = m1.word(t1, vpn_index(v, 1));
            assert(m2.word(t1, vpn_index(v, 1)) == e1);
            if pte_valid(e1) {
                let t2 = pte_ppn(e1);
                assert(tables.contains_key(t2));
                assert(m2.word(t2, vpn_index(v, 2)) == m1.word(t2, vpn_index(v, 2)));
            }
        }
    }
    assert forall|v: usize| #[trigger] frames_needed(m2, root, v) == frames_needed(m1, root, v) by {
        assert(walk(m2, root, v) == walk(m1, root, v));
    }
}

/// Writing the last-level entry of `vpn` changes the entry of exactly the pages
/// that share the indexes of `vpn`.
proof fn lemma_leaf_write(m1: MemoryState, root: usize, tables: Map<usize, (int, int)>, vpn: usize, w: u64)
    requires
        tables_wf(m1, root, tables),
        walk_slot(m1, root, vpn) is Some,
    ensures
        ({
            let s = walk_slot(m1, root, vpn).unwrap();
            let m2 = m1.write(s.0, s.1, w);
            &&& tables_wf(m2, root, tables)
            &&& forall|v: usize| #[trigger] walk(m2, root, v) == if same_indexes(v, vpn) { Some(w) } else { walk(m1, root, v) }
            &&& forall|v: usize| #[trigger] frames_needed(m2, root, v) == frames_needed(m1, root, v)
        }),
{
    let s = walk_slot(m1, root, vpn).unwrap();
    let m2 = m1.write(s.0, s.1, w);
    lemma_index_bound(vpn);
    let t1 = pte_ppn(m1.word(root, vpn_index(vpn, 0)));
    assert(tables[t1] == (1int, vpn_index(vpn, 0) as int));
    let t2 = s.0;
    assert(tables.contains_key(t2));
    assert(tables[t2] == (2int, vpn_index(vpn, 0) * 512 + vpn_index(vpn, 1)));
    assert forall|t: usize, i: usize| tables.contains_key(t) && tables[t].0 < 2 && i < 512 implies #[trigger] m2.word(t, i) == m1.word(t, i) by {
        lemma_write_word(m1, s.0, s.1, w, t, i);
    }
    assert forall|t: usize, i: usize|
        #![trigger m2.word(t, i), tables[t]]
        tables.contains_key(t) && tables[t].0 == 0 && i < 512 && pte_valid(m2.word(t, i)) implies {
            &&& tables.contains_key(pte_ppn(m2.word(t, i)))
            &&& tables[pte_ppn(m2.word(t, i))] == (1int, i as int)
            &&& pte_flags(m2.word(t, i)) == PTE_V
        } by {
        assert(m2.word(t, i) == m1.word(t, i));
    }
    assert forall|t: usize, i: usize|
        #![trigger m2.word(t, i), tables[t]]
        tables.contains_key(t) && tables[t].0 == 1 && i < 512 && pte_valid(m2.word(t, i)) implies {
            &&& tables.contains_key(pte_ppn(m2.word(t, i)))
            &&& tables[pte_ppn(m2.word(t, i))] == (2int, tables[t].1 * 512 + i)
            &&& pte_flags(m2.word(t, i)) == PTE_V
        } by {
        assert(m2.word(t, i) == m1.word(t, i));
    }
    assert forall|v: usize| #[trigger] walk(m2, root, v) == if same_indexes(v, vpn) { Some(w) } else { walk(m1, root, v) } && frames_needed(m2, root, v) == frames_needed(m1, root, v) by {
        lemma_index_bound(v);
        let e0 = m1.word(root, vpn_index(v, 0));
        assert(m2.word(root, vpn_index(v, 0)) == e0);
        if pte_valid(e0) {
            let u1 = pte_ppn(e0);
            assert(tables[u1] == (1int, vpn_index(v, 0) as int));
            let e1 = m1.word(u1, vpn_index(v, 1));
            assert(m2.word(u1, vpn_index(v, 1)) == e1);
            if pte_valid(e1) {
                let u2 = pte_ppn(e1);
                assert(tables[u2] == (2int, vpn_index(v, 0) * 512 + vpn_index(v, 1)));
                lemma_write_word(m1, s.0, s.1, w, u2, vpn_index(v, 2));
                if u2 == t2 {
                    assert(vpn_index(v, 0) * 512 + vpn_index(v, 1) == vpn_index(vpn, 0) * 512 + vpn_index(vpn, 1));
                    assert(vpn_index(v, 0) == vpn_index(vpn, 0));
                    assert(vpn_index(v, 1) == vpn_index(vpn, 1));
                }
            }
        }
        if same_indexes(v, vpn) {
            assert(walk_slot(m1, root, v) == walk_slot(m1, root, vpn));
            lemma_write_word(m1, s.0, s.1, w, s.0, s.1);
        }
    }
}

/// Installing a fresh zeroed table `c` under the invalid entry `i` of the table
/// `t` keeps the tree well formed and changes the entry of no page.
proof fn lemma_install(m1: MemoryState, root: usize, tables: Map<usize, (int, int)>, t: usize, i: usize, c: usize)
    requires
        tables_wf(m1, root, tables),
        tables.contains_key(t),
        tables[t].0 == 0 || tables[t].0 == 1,
        i < 512,
        !pte_valid(m1.word(t, i)),
        !tables.contains_key(c),
        c < ppn_limit(),
        forall|j: usize| j < 512 ==> #[trigger] m1.word(c, j) == 0,
    ensures
        ({
            let m2 = m1.write(t, i, pte_bits(c, 1u8));
            let tables2 = tables.insert(c, (tables[t].0 + 1, if tables[t].0 == 0 { i as int } else { tables[t].1 * 512 + i }));
            &&& tables_wf(m2, root, tables2)
            &&& forall|v: usize| #[trigger] entry(m2, root, v) == entry(m1, root, v)
            &&& pte_valid(m2.word(t, i))
            &&& pte_ppn(m2.word(t, i)) == c
        }),
{
    let w = pte_bits(c, 1u8);
    let m2 = m1.write(t, i, w);
    let lt = tables[t];
    let tables2 = tables.insert(c, (lt.0 + 1, if lt.0 == 0 { i as int } else { lt.1 * 512 + i }));
    lemma_pte_roundtrip(c, 1u8);
    assert(1u8 & 1u8 == 1u8) by (bit_vector);
    lemma_zero_invalid();
    lemma_write_word(m1, t, i, w, t, i);
    assert forall|u: usize, j: usize| j < 512 && !(u == t && j == i) implies #[trigger] m2.word(u, j) == m1.word(u, j) by {
        lemma_write_word(m1, t, i, w, u, j);
    }
    assert forall|u: usize, j: usize|
        #![trigger m2.word(u, j), tables2[u]]
        tables2.contains_key(u) && tables2[u].0 == 0 && j < 512 && pte_valid(m2.word(u, j)) implies {
            &&& tables2.contains_key(pte_ppn(m2.word(u, j)))
            &&& tables2[pte_ppn(m2.word(u, j))] == (1int, j as int)
            &&& pte_flags(m2.word(u, j)) == PTE_V
        } by {
        if u == c {
            assert(m2.word(u, j) == 0);
        } else if u == t && j == i {
        } else {
            assert(m2.word(u, j) == m1.word(u, j));
            assert(tables.contains_key(pte_ppn(m1.word(u, j))));
        }
    }
    assert forall|u: usize, j: usize|
        #![trigger m2.word(u, j), tables2[u]]
        tables2.contains_key(u) && tables2[u].0 == 1 && j < 512 && pte_valid(m2.word(u, j)) implies {
            &&& tables2.contains_key(pte_ppn(m2.word(u, j)))
            &&& tables2[pte_ppn(m2.word(u, j))] == (2int, tables2[u].1 * 512 + j)
            &&& pte_flags(m2.word(u, j)) == PTE_V
        } by {
        if u == c {
            assert(m2.word(u, j) == 0);
        } else if u == t && j == i {
        } else {
            assert(m2.word(u, j) == m1.word(u, j));
            assert(tables.contains_key(pte_ppn(m1.word(u, j))));
        }
    }
    assert(tables_wf(m2, root, tables2));
    assert forall|v: usize| #[trigger] entry(m2, root, v) == entry(m1, root, v) by {
        lemma_index_bound(v);
        let e0 = m1.word(root, vpn_index(v, 0));
        let f0 = m2.word(root, vpn_index(v, 0));
        if t == root && vpn_index(v, 0) == i {
            assert(f0 == w);
            assert(m2.word(c, vpn_index(v, 1)) == 0);
        } else {
            assert(f0 == e0);
            if pte_valid(e0) {
                let u1 = pte_ppn(e0);
                assert(tables[u1] == (1int, vpn_index(v, 0) as int));
                let e1 = m1.word(u1, vpn_index(v, 1));
                let f1 = m2.word(u1, vpn_index(v, 1));
                if u1 == t && vpn_index(v, 1) == i {
                    assert(f1 == w);
                    assert(m2.word(c, vpn_index(v, 2)) == 0);
                } else {
                    assert(f1 == e1);
                    if pte_valid(e1) {
                        let u2 = pte_ppn(e1);
                        assert(tables[u2].0 == 2);
                        assert(m2.word(u2, vpn_index(v, 2)) == m1.word(u2, vpn_index(v, 2)));
                    }
                }
            }
        }
    }
}

} // verus!

verus! {

/// A three-level Sv39 page table: its root frame, and the frames of its tables.
pub struct PageTable {
    root_ppn: PhysPageNum,
    frames: Vec<FrameTracker>,
    tables: Ghost<Map<usize, (int, int)>>,
}

impl PageTable {
    /// The frame of the root table.
    pub closed spec fn root(&self) -> usize {
        self.root_ppn.0
    }

    /// The frames of the tables of this page table, each with its level and path.
    pub closed spec fn tables(&self) -> Map<usize, (int, int)> {
        self.tables@
    }

    /// The frames held by this page table.
    pub closed spec fn frames(&self) -> Seq<usize> {
        self.frames@.map_values(|f: FrameTracker| f.ppn.0)
    }

    /// The tables of this page table form a tree in `m`, and each of their
    /// frames is held from the allocator `a`.
    pub closed spec fn wf(&self, m: MemoryState, a: FrameAllocatorState) -> bool {
        &&& tables_wf(m, self.root_ppn.0, self.tables@)
        &&& forall|t: usize| #[trigger] self.tables@.contains_key(t) ==> a.allocated(t)
    }

    /// A page table with a fresh, empty root table.
    pub fn new(allocator: &mut StackFrameAllocator, mem: &mut PhysMemory) -> (r: Self)
        requires
            old(allocator)@.wf(),
            old(mem).wf(),
            old(allocator)@.free_count() >= 1,
        ensures
            final(allocator)@.wf(),
            final(mem).wf(),
            r.wf(final(mem)@, final(allocator)@),
            (final(allocator)@, Some(r.root())) == old(allocator)@.alloc_step(),
            final(mem)@ == old(mem)@.zero_frame(r.root()),
            r.frames() == seq![r.root()],
            forall|v: usize| #[trigger] entry(final(mem)@, r.root(), v) == 0,
    {
        let frame = frame_alloc(allocator, mem).unwrap();
        let root_ppn = frame.ppn;
        let mut frames: Vec<FrameTracker> = Vec::new();
        frames.push(frame);
        let ghost tables = Map::<usize, (int, int)>::empty().insert(root_ppn.0, (0int, 0int));
        let r = PageTable { root_ppn, frames, tables: Ghost(tables) };
        proof {
            let m = mem@;
            lemma_zero_invalid();
            assert forall|i: usize| i < 512 implies #[trigger] m.word(root_ppn.0, i) == 0 by {
                lemma_zero_frame_word(old(mem)@, root_ppn.0, root_ppn.0, i);
            }
            assert forall|v: usize| #[trigger] entry(m, root_ppn.0, v) == 0 by {
                lemma_index_bound(v);
                assert(m.word(root_ppn.0, vpn_index(v, 0)) == 0);
            }
            assert(r.frames() =~= seq![root_ppn.0]);
        }
        r
    }

    /// The page table whose root frame is named by the `satp` value `satp`.
    pub fn from_token(satp: usize) -> (r: Self)
        ensures
            r.root() == ((satp as u64) & PPN_MASK) as usize,
            r.frames() == Seq::<usize>::empty(),
    {
        let r = PageTable {
            root_ppn: PhysPageNum(((satp as u64) & PPN_MASK) as usize),
            frames: Vec::new(),
            tables: Ghost(Map::empty()),
        };
        assert(r.frames() =~= Seq::<usize>::empty());
        r
    }

    /// The `satp` value that selects this page table in Sv39 mode.
    pub fn token(&self) -> (r: usize)
        ensures
            r == ((8u64 << 60u64) | (self.root() as u64)) as usize,
    {
        ((8u64 << 60u64) | (self.root_ppn.0 as u64)) as usize
    }

    /// Follows the valid entry `idx` of `table` to the next table, creating an
    /// empty table there first when the entry is not valid.
    fn next_table_create(
        &mut self,
        table: PhysPageNum,
        idx: usize,
        allocator: &mut StackFrameAllocator,
        mem: &mut PhysMemory,
    ) -> (child: PhysPageNum)
        requires
            old(self).wf(old(mem)@, old(allocator)@),
            old(allocator)@.wf(),
            old(mem).wf(),
            old(allocator)@.end <= ppn_limit(),
            old(self).tables().contains_key(table.0),
            old(self).tables()[table.0].0 == 0 || old(self).tables()[table.0].0 == 1,
            idx < 512,
            pte_valid(old(mem)@.word(table.0, idx)) || old(allocator)@.free_count() >= 1,
        ensures
            final(self).wf(final(mem)@, final(allocator)@),
            final(allocator)@.wf(),
            final(mem).wf(),
            final(self).root() == old(self).root(),
            pte_valid(final(mem)@.word(table.0, idx)),
            child.0 == pte_ppn(final(mem)@.word(table.0, idx)),
            final(self).tables().contains_key(child.0),
            final(self).tables()[child.0] == (old(self).tables()[table.0].0 + 1,
                if old(self).tables()[table.0].0 == 0 { idx as int } else { old(self).tables()[table.0].1 * 512 + idx }),
            forall|t: usize| #[trigger] old(self).tables().contains_key(t) ==>
                final(self).tables().contains_key(t) && final(self).tables()[t] == old(self).tables()[t],
            forall|v: usize| #[trigger] entry(final(mem)@, final(self).root(), v) == entry(old(mem)@, old(self).root(), v),
            forall|p: usize, i: usize| !final(self).tables().contains_key(p) ==>
                #[trigger] final(mem)@.word(p, i) == old(mem)@.word(p, i),
            forall|q: usize| #[trigger] old(allocator)@.allocated(q) ==> final(allocator)@.allocated(q),
            final(allocator)@.end == old(allocator)@.end,
            final(allocator)@.free_count() == old(allocator)@.free_count()
                - if pte_valid(old(mem)@.word(table.0, idx)) { 0int } else { 1int },
            final(self).frames().len() >= old(self).frames().len(),
            forall|j: int| 0 <= j < old(self).frames().len() ==> #[trigger] final(self).frames()[j] == old(self).frames()[j],
            pte_valid(old(mem)@.word(table.0, idx)) ==> {
                &&& final(mem)@ == old(mem)@
                &&& final(allocator)@ == old(allocator)@
                &&& final(self).tables() == old(self).tables()
            },
            !pte_valid(old(mem)@.word(table.0, idx)) ==> forall|j: usize| j < 512 ==> #[trigger] final(mem)@.word(child.0, j) == 0,
            forall|p: usize, i: usize| p != table.0 && old(self).tables().contains_key(p) ==>
                #[trigger] final(mem)@.word(p, i) == old(mem)@.word(p, i),
    {
        let pte = PageTableEntry { bits: mem.read(table, idx) };
        if !pte.is_valid() {
            let ghost m0 = mem@;
            let ghost a0 = allocator@;
            let frame = frame_alloc(allocator, mem).unwrap();
            let c = frame.ppn;
            proof {
                assert(!self.tables@.contains_key(c.0));
                assert forall|t: usize, i: usize| self.tables@.contains_key(t) && i < 512 implies #[trigger] mem@.word(t, i) == m0.word(t, i) by {
                    lemma_zero_frame_word(m0, c.0, t, i);
                }
                lemma_unchanged_tables(m0, mem@, self.root_ppn.0, self.tables@);
                assert forall|j: usize| j < 512 implies #[trigger] mem@.word(c.0, j) == 0 by {
                    lemma_zero_frame_word(m0, c.0, c.0, j);
                }
                assert(mem@.word(table.0, idx) == m0.word(table.0, idx));
                lemma_install(mem@, self.root_ppn.0, self.tables@, table.0, idx, c.0);
            }
            let ghost m1 = mem@;
            let lt = Ghost(self.tables@[table.0]);
            mem.write(table, idx, PageTableEntry::new(c, PTEFlags { bits: PTE_V }).bits);
            self.tables = Ghost(self.tables@.insert(c.0, (lt@.0 + 1, if lt@.0 == 0 { idx as int } else { lt@.1 * 512 + idx })));
            self.frames.push(frame);
            proof {
                assert forall|t: usize| #[trigger] self.tables@.contains_key(t) implies allocator@.allocated(t) by {
                    if t != c.0 {
                        assert(a0.allocated(t));
                    }
                }
                assert forall|p: usize, i: usize| !self.tables@.contains_key(p) implies #[trigger] mem@.word(p, i) == old(mem)@.word(p, i) by {
                    if i < 512 {
                        lemma_write_word(m1, table.0, idx, pte_bits(c.0, PTE_V), p, i);
                        lemma_zero_frame_word(m0, c.0, p, i);
                    } else {
                        assert(mem@.word(p, i) == 0 && old(mem)@.word(p, i) == 0);
                    }
                }
                assert forall|v: usize| #[trigger] entry(mem@, self.root_ppn.0, v) == entry(old(mem)@, self.root_ppn.0, v) by {
                    assert(walk(m1, self.root_ppn.0, v) == walk(m0, self.root_ppn.0, v));
                }
                assert forall|j: usize| j < 512 implies #[trigger] mem@.word(c.0, j) == 0 by {
                    lemma_write_word(m1, table.0, idx, pte_bits(c.0, PTE_V), c.0, j);
                }
                assert forall|p: usize, i: usize| p != table.0 && old(self).tables().contains_key(p) implies
                    #[trigger] mem@.word(p, i) == old(mem)@.word(p, i) by {
                    if i < 512 {
                        lemma_write_word(m1, table.0, idx, pte_bits(c.0, PTE_V), p, i);
                        lemma_zero_frame_word(m0, c.0, p, i);
                    } else {
                        assert(mem@.word(p, i) == 0 && old(mem)@.word(p, i) == 0);
                    }
                }
            }
        }
        let pte = PageTableEntry { bits: mem.read(table, idx) };
        pte.ppn()
    }

    /// The slot that holds the last-level entry of `vpn`, creating the missing
    /// tables on the way.
    fn find_pte_create(
        &mut self,
        vpn: VirtPageNum,
        allocator: &mut StackFrameAllocator,
        mem: &mut PhysMemory,
    ) -> (r: Option<(PhysPageNum, usize)>)
        requires
            old(self).wf(old(mem)@, old(allocator)@),
            old(allocator)@.wf(),
            old(mem).wf(),
            old(allocator)@.end <= ppn_limit(),
            old(allocator)@.free_count() >= frames_needed(old(mem)@, old(self).root(), vpn.0),
        ensures
            final(self).wf(final(mem)@, final(allocator)@),
            final(allocator)@.wf(),
            final(mem).wf(),
            final(self).root() == old(self).root(),
            r matches Some(s) && walk_slot(final(mem)@, final(self).root(), vpn.0) == Some((s.0.0, s.1)),
            forall|v: usize| #[trigger] entry(final(mem)@, final(self).root(), v) == entry(old(mem)@, old(self).root(), v),
            forall|p: usize, i: usize| !final(self).tables().contains_key(p) ==>
                #[trigger] final(mem)@.word(p, i) == old(mem)@.word(p, i),
            forall|q: usize| #[trigger] old(allocator)@.allocated(q) ==> final(allocator)@.allocated(q),
            final(allocator)@.end == old(allocator)@.end,
            final(allocator)@.free_count() == old(allocator)@.free_count() - frames_needed(old(mem)@, old(self).root(), vpn.0),
            forall|j: int| 0 <= j < old(self).frames().len() ==> #[trigger] final(self).frames()[j] == old(self).frames()[j],
    {
        let idxs = vpn.indexes();
        let root = self.root_ppn;
        let ghost m0 = mem@;
        let ghost a0 = allocator@;
        let ghost t0 = self.tables@;
        let t1 = self.next_table_create(root, idxs[0], allocator, mem);
        let ghost m1 = mem@;
        let ghost t1s = self.tables@;
        proof {
            lemma_zero_invalid();
            if !pte_valid(m0.word(root.0, idxs[0])) {
                assert(m1.word(t1.0, idxs[1]) == 0);
            }
        }
        let t2 = self.next_table_create(t1, idxs[1], allocator, mem);
        proof {
            let m2 = mem@;
            assert(pte_valid(m2.word(root.0, idxs[0])));
            assert(t1s[root.0].0 == 0);
            assert(t1s[t1.0].0 == 1);
            assert(m2.word(root.0, idxs[0]) == m1.word(root.0, idxs[0]));
            assert(walk_slot(m2, root.0, vpn.0) == Some((t2.0, idxs[2])));
        }
        Some((t2, idxs[2]))
    }

    /// The slot that holds the last-level entry of `vpn`, if the tables on the
    /// way exist.
    fn find_pte(&self, vpn: VirtPageNum, mem: &PhysMemory) -> (r: Option<(PhysPageNum, usize)>)
        requires
            mem.wf(),
        ensures
            match r {
                Some(s) => walk_slot(mem@, self.root(), vpn.0) == Some((s.0.0, s.1)),
                None => walk_slot(mem@, self.root(), vpn.0) is None,
            },
    {
        let idxs = vpn.indexes();
        let e0 = PageTableEntry { bits: mem.read(self.root_ppn, idxs[0]) };
        if !e0.is_valid() {
            return None;
        }
        let t1 = e0.ppn();
        let e1 = PageTableEntry { bits: mem.read(t1, idxs[1]) };
        if !e1.is_valid() {
            return None;
        }
        Some((e1.ppn(), idxs[2]))
    }

    /// Maps the page `vpn` to the frame `ppn` with `flags`, creating the missing
    /// tables. The page must not be mapped yet.
    pub fn map(
        &mut self,
        vpn: VirtPageNum,
        ppn: PhysPageNum,
        flags: PTEFlags,
        allocator: &mut StackFrameAllocator,
        mem: &mut PhysMemory,
    )
        requires
            old(self).wf(old(mem)@, old(allocator)@),
            old(allocator)@.wf(),
            old(mem).wf(),
            old(allocator)@.end <= ppn_limit(),
            old(allocator)@.free_count() >= frames_needed(old(mem)@, old(self).root(), vpn.0),
            !mapped(old(mem)@, old(self).root(), vpn.0),
        ensures
            final(self).wf(final(mem)@, final(allocator)@),
            final(allocator)@.wf(),
            final(mem).wf(),
            final(self).root() == old(self).root(),
            walk(final(mem)@, final(self).root(), vpn.0) == Some(pte_bits(ppn.0, flags.bits | PTE_V)),
            entries_updated(old(mem)@, old(self).root(), final(mem)@, final(self).root(), vpn.0, pte_bits(ppn.0, flags.bits | PTE_V)),
            forall|p: usize, i: usize| !final(self).tables().contains_key(p) ==>
                #[trigger] final(mem)@.word(p, i) == old(mem)@.word(p, i),
            forall|q: usize| #[trigger] old(allocator)@.allocated(q) ==> final(allocator)@.allocated(q),
            final(allocator)@.end == old(allocator)@.end,
            final(allocator)@.free_count() == old(allocator)@.free_count() - frames_needed(old(mem)@, old(self).root(), vpn.0),
    {
        let slot = self.find_pte_create(vpn, allocator, mem).unwrap();
        let ghost m1 = mem@;
        let pte = PageTableEntry { bits: mem.read(slot.0, slot.1) };
        proof {
            assert(entry(m1, self.root_ppn.0, vpn.0) == pte.bits);
        }
        let valid = pte.is_valid();
        assert(!valid);
        let new_pte = PageTableEntry::new(ppn, flags.union(PTEFlags { bits: PTE_V }));
        proof {
            lemma_index_bound(vpn.0);
            lemma_leaf_write(m1, self.root_ppn.0, self.tables@, vpn.0, new_pte.bits);
        }
        mem.write(slot.0, slot.1, new_pte.bits);
        proof {
            assert forall|v: usize| #[trigger] entry(mem@, self.root_ppn.0, v) ==
                if same_indexes(v, vpn.0) { new_pte.bits } else { entry(old(mem)@, self.root_ppn.0, v) } by {
                assert(entry(m1, self.root_ppn.0, v) == entry(old(mem)@, self.root_ppn.0, v));
            }
            assert forall|p: usize, i: usize| !self.tables@.contains_key(p) implies #[trigger] mem@.word(p, i) == old(mem)@.word(p, i) by {
                if i < 512 {
                    lemma_write_word(m1, slot.0.0, slot.1, new_pte.bits, p, i);
                } else {
                    assert(mem@.word(p, i) == 0 && old(mem)@.word(p, i) == 0);
                }
            }
            assert(same_indexes(vpn.0, vpn.0));
        }
    }

    /// Unmaps the page `vpn`, which must be mapped.
    pub fn unmap(&mut self, vpn: VirtPageNum, allocator: &StackFrameAllocator, mem: &mut PhysMemory)
        requires
            old(self).wf(old(mem)@, allocator@),
            old(mem).wf(),
            mapped(old(mem)@, old(self).root(), vpn.0),
        ensures
            final(self).wf(final(mem)@, allocator@),
            final(mem).wf(),
            final(self).root() == old(self).root(),
            final(self).tables() == old(self).tables(),
            entries_updated(old(mem)@, old(self).root(), final(mem)@, final(self).root(), vpn.0, 0u64),
            forall|p: usize, i: usize| !final(self).tables().contains_key(p) ==>
                #[trigger] final(mem)@.word(p, i) == old(mem)@.word(p, i),
    {
        proof {
            lemma_zero_invalid();
        }
        let slot = self.find_pte(vpn, mem).unwrap();
        let pte = PageTableEntry { bits: mem.read(slot.0, slot.1) };
        let valid = pte.is_valid();
        assert(valid);
        proof {
            lemma_leaf_write(mem@, self.root_ppn.0, self.tables@, vpn.0, 0u64);
        }
        let ghost m1 = mem@;
        mem.write(slot.0, slot.1, PageTableEntry::empty().bits);
        proof {
            assert forall|p: usize, i: usize| !self.tables@.contains_key(p) implies #[trigger] mem@.word(p, i) == old(mem)@.word(p, i) by {
                if i < 512 {
                    lemma_write_word(m1, slot.0.0, slot.1, 0u64, p, i);
                } else {
                    assert(mem@.word(p, i) == 0 && old(mem)@.word(p, i) == 0);
                }
            }
        }
    }

    /// The last-level entry of `vpn`, if the tables on the way exist.
    pub fn translate(&self, vpn: VirtPageNum, mem: &PhysMemory) -> (r: Option<PageTableEntry>)
        requires
            mem.wf(),
        ensures
            match r {
                Some(e) => walk(mem@, self.root(), vpn.0) == Some(e.bits),
                None => walk(mem@, self.root(), vpn.0) is None,
            },
    {
        match self.find_pte(vpn, mem) {
            Some(slot) => Some(PageTableEntry { bits: mem.read(slot.0, slot.1) }),
            None => None,
        }
    }
}

} // verus!

verus! {

/// The bytes `[start, end)` of the frame `ppn`.
#[derive(Clone, Copy, Debug, PartialEq, Eq, Structural)]
pub struct FrameSlice {
    pub ppn: PhysPageNum,
    pub start: usize,
    pub end: usize,
}

/// Number of pages touched by the `len` bytes at `ptr`.
pub open spec fn page_count(ptr: usize, len: usize) -> int {
    if len == 0 {
        0
    } else {
        (ptr + len - 1) / 4096 - ptr / 4096 + 1
    }
}

/// The page number of the `k`-th page touched by the bytes at `ptr`.
pub open spec fn slice_page(ptr: usize, k: int) -> int {
    ptr / 4096 + k
}

/// Offset in its frame of the first byte of the `k`-th piece of the `len` bytes at `ptr`.
pub open spec fn slice_start(ptr: usize, k: int) -> int {
    if k == 0 {
        (ptr % 4096) as int
    } else {
        0
    }
}

/// Offset in its frame just past the last byte of the `k`-th piece of the `len` bytes at `ptr`.
pub open spec fn slice_end(ptr: usize, len: usize, k: int) -> int {
    if slice_page(ptr, k) == (ptr + len - 1) / 4096 && (ptr + len) % 4096 != 0 {
        ((ptr + len) % 4096) as int
    } else {
        4096
    }
}

/// The root frame of the page table named by a `satp` value.
pub open spec fn token_root(satp: usize) -> usize {
    ((satp as u64) & PPN_MASK) as usize
}

/// Total number of bytes in a list of pieces.
pub open spec fn slices_len(s: Seq<FrameSlice>) -> int
    decreases s.len(),
{
    if s.len() == 0 {
        0
    } else {
        slices_len(s.drop_last()) + (s.last().end - s.last().start)
    }
}

/// Splits the `len` bytes at the user address `ptr`, in the address space named
/// by `token`, into the pieces of the frames that hold them, in order.
pub fn translated_byte_buffer(token: usize, ptr: usize, len: usize, mem: &PhysMemory) -> (r: Vec<FrameSlice>)
    requires
        mem.wf(),
        ptr + len <= crate::config::TRAMPOLINE,
        forall|p: usize| ptr / 4096 <= p && p * 4096 < ptr + len ==> #[trigger] walk(mem@, token_root(token), p) is Some,
    ensures
        r.len() == page_count(ptr, len),
        slices_len(r@) == len,
        forall|k: int| 0 <= k < r.len() ==> {
            &&& (#[trigger] r@[k]).ppn.0 == pte_ppn(walk(mem@, token_root(token), slice_page(ptr, k) as usize).unwrap())
            &&& r@[k].start == slice_start(ptr, k)
            &&& r@[k].end == slice_end(ptr, len, k)
        },
{
    let page_table = PageTable::from_token(token);
    let mut start = ptr;
    let end = ptr + len;
    let mut v: Vec<FrameSlice> = Vec::new();
    while start < end
        invariant
            mem.wf(),
            page_table.root() == token_root(token),
            end == ptr + len,
            end <= crate::config::TRAMPOLINE,
            ptr <= start <= end,
            forall|p: usize| ptr / 4096 <= p && p * 4096 < ptr + len ==> #[trigger] walk(mem@, token_root(token), p) is Some,
            v.len() == 0 ==> start == ptr,
            v.len() > 0 ==> start > ptr,
            v.len() > 0 ==> start % 4096 == 0 || start == end,
            start < end ==> start / 4096 == ptr / 4096 + v.len(),
            start == end && v.len() > 0 ==> (end - 1) / 4096 == ptr / 4096 + v.len() - 1,
            slices_len(v@) == start - ptr,
            forall|k: int| 0 <= k < v.len() ==> {
                &&& (#[trigger] v@[k]).ppn.0 == pte_ppn(walk(mem@, token_root(token), slice_page(ptr, k) as usize).unwrap())
                &&& v@[k].start == slice_start(ptr, k)
                &&& v@[k].end == slice_end(ptr, len, k)
            },
        decreases end - start,
    {
        let start_va = crate::address::VirtAddr(start);
        let mut vpn = start_va.floor();
        assert(ptr / 4096 <= vpn.0 && vpn.0 * 4096 < ptr + len);
        let ppn = page_table.translate(vpn, mem).unwrap().ppn();
        vpn.step();
        let mut end_va = vpn.to_addr();
        if end < end_va.0 {
            end_va = crate::address::VirtAddr(end);
        }
        let piece = if end_va.page_offset() == 0 {
            FrameSlice { ppn, start: start_va.page_offset(), end: crate::config::PAGE_SIZE }
        } else {
            FrameSlice { ppn, start: start_va.page_offset(), end: end_va.page_offset() }
        };
        let ghost k = v.len() as int;
        let ghost old_v = v@;
        v.push(piece);
        proof {
            assert(v@.drop_last() =~= old_v);
            assert(piece.end - piece.start == end_va.0 - start);
            assert(piece.start == slice_start(ptr, k));
            assert(piece.end == slice_end(ptr, len, k));
        }
        start = end_va.0;
    }
    v
}

} // verus!

verus! {

/// The `satp` value of a page table names that page table again.
pub proof fn lemma_token_roundtrip(root: usize)
    requires
        root < ppn_limit(),
    ensures
        token_root((((8u64 << 60u64) | (root as u64)) as usize)) == root,
{
    let r = root as u64;
    assert(r < 0x1000_0000_0000u64);
    assert((((((8u64 << 60u64) | r) as usize) as u64) & 0xfff_ffff_ffffu64) as usize == root) by (bit_vector)
        requires r == root as u64, r < 0x1000_0000_0000u64;
}

/// After a page is mapped, its entry is the one given; after it is unmapped
/// again, it is not mapped, and every page with other indexes has the entry it
/// had before both.
pub proof fn lemma_map_then_unmap(m0: MemoryState, m1: MemoryState, m2: MemoryState, root: usize, vpn: usize, bits: u64)
    requires
        entries_updated(m0, root, m1, root, vpn, bits),
        entries_updated(m1, root, m2, root, vpn, 0u64),
    ensures
        entry(m1, root, vpn) == bits,
        !mapped(m2, root, vpn),
        forall|v: usize| !same_indexes(v, vpn) ==> #[trigger] entry(m2, root, v) == entry(m0, root, v),
{
    assert(entry(m1, root, vpn) == bits);
    assert(entry(m2, root, vpn) == 0u64);
    lemma_zero_invalid();
    assert forall|v: usize| !same_indexes(v, vpn) implies #[trigger] entry(m2, root, v) == entry(m0, root, v) by {
        assert(entry(m1, root, v) == entry(m0, root, v));
    }
}

/// The entry of a page depends only on its indexes.
pub proof fn lemma_entry_by_indexes(m: MemoryState, root: usize, a: usize, b: usize)
    requires
        same_indexes(a, b),
    ensures
        entry(m, root, a) == entry(m, root, b),
{
}

/// Every valid entry on the way to the last level of a well-formed page table
/// is a pointer to the next table: its flags are exactly V, with R, W and X
/// clear, so the hardware walk of any page goes through it rather than
/// stopping there as a superpage.
pub proof fn lemma_upper_entries_are_pointers(pt: &PageTable, m: MemoryState, a: FrameAllocatorState, v: usize)
    requires
        pt.wf(m, a),
    ensures
        ({
            let e0 = m.word(pt.root(), vpn_index(v, 0));
            let e1 = m.word(pte_ppn(e0), vpn_index(v, 1));
            &&& pte_valid(e0) ==> pte_flags(e0) == PTE_V
            &&& pte_valid(e0) && pte_valid(e1) ==> pte_flags(e1) == PTE_V
        }),
{
    lemma_index_bound(v);
    let root = pt.root();
    let e0 = m.word(root, vpn_index(v, 0));
    assert(pt.tables()[root] == (0int, 0int));
    if pte_valid(e0) {
        let t1 = pte_ppn(e0);
        assert(pt.tables().contains_key(t1) && pt.tables()[t1] == (1int, vpn_index(v, 0) as int));
        assert(pte_valid(m.word(t1, vpn_index(v, 1))) ==> pte_flags(m.word(t1, vpn_index(v, 1))) == PTE_V);
    }
}

} // verus!
