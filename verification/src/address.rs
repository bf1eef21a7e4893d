//! Physical and virtual addresses and page numbers of Sv39.
use vstd::prelude::*;
use crate::config::PAGE_SIZE;

verus! {

/// A physical address.
#[derive(Clone, Copy, Debug, PartialEq, Eq, Structural)]
pub struct PhysAddr(pub usize);

/// A virtual address.
#[derive(Clone, Copy, Debug, PartialEq, Eq, Structural)]
pub struct VirtAddr(pub usize);

/// A physical page number.
#[derive(Clone, Copy, Debug, PartialEq, Eq, Structural)]
pub struct PhysPageNum(pub usize);

/// A virtual page number.
#[derive(Clone, Copy, Debug, PartialEq, Eq, Structural)]
pub struct VirtPageNum(pub usize);

/// Index into the page table of `level` (0 is the root) for the page number `vpn`:
/// the three 9-bit fields of the 27 low bits of `vpn`, highest first.
pub open spec fn vpn_index(vpn: usize, level: int) -> usize {
    if level == 0 {
        ((vpn / 0x40000) % 512) as usize
    } else if level == 1 {
        ((vpn / 0x200) % 512) as usize
    } else {
        (vpn % 512) as usize
    }
}

impl PhysAddr {
    /// The page that holds this address.
    pub fn floor(&self) -> (r: PhysPageNum)
        ensures
            r.0 == self.0 / PAGE_SIZE,
    {
        PhysPageNum(self.0 / PAGE_SIZE)
    }

    /// The first page that starts at or above this address.
    pub fn ceil(&self) -> (r: PhysPageNum)
        ensures
            r.0 * PAGE_SIZE >= self.0,
            r.0 == 0 || (r.0 - 1) * PAGE_SIZE < self.0,
    {
        if self.0 == 0 {
            PhysPageNum(0)
        } else {
            let r = (self.0 - 1) / PAGE_SIZE + 1;
            PhysPageNum(r)
        }
    }

    /// Offset of this address inside its page.
    pub fn page_offset(&self) -> (r: usize)
        ensures
            r == self.0 % PAGE_SIZE,
    {
        self.0 % PAGE_SIZE
    }
}

impl VirtAddr {
    /// The page that holds this address.
    pub fn floor(&self) -> (r: VirtPageNum)
        ensures
            r.0 == self.0 / PAGE_SIZE,
    {
        VirtPageNum(self.0 / PAGE_SIZE)
    }

    /// Offset of this address inside its page.
    pub fn page_offset(&self) -> (r: usize)
        ensures
            r == self.0 % PAGE_SIZE,
    {
        self.0 % PAGE_SIZE
    }
}

impl VirtPageNum {
    /// The three page table indexes of this page number, root level first.
    pub fn indexes(&self) -> (r: [usize; 3])
        ensures
            r@.len() == 3,
            r@[0] == vpn_index(self.0, 0),
            r@[1] == vpn_index(self.0, 1),
            r@[2] == vpn_index(self.0, 2),
            r@[0] < 512 && r@[1] < 512 && r@[2] < 512,
    {
        let v = self.0;
        let i0 = (v >> 18) & 511;
        let i1 = (v >> 9) & 511;
        let i2 = v & 511;
        assert(i0 == (v / 0x40000) % 512) by (bit_vector)
            requires i0 == (v >> 18) & 511;
        assert(i1 == (v / 0x200) % 512) by (bit_vector)
            requires i1 == (v >> 9) & 511;
        assert(i2 == v % 512) by (bit_vector)
            requires i2 == v & 511;
        [i0, i1, i2]
    }

    /// Moves to the next page.
    pub fn step(&mut self)
        requires
            old(self).0 < usize::MAX,
        ensures
            final(self).0 == old(self).0 + 1,
    {
        self.0 = self.0 + 1;
    }

    /// The address at which this page starts.
    pub fn to_addr(&self) -> (r: VirtAddr)
        requires
            self.0 * PAGE_SIZE <= usize::MAX,
        ensures
            r.0 == self.0 * PAGE_SIZE,
    {
        VirtAddr(self.0 * PAGE_SIZE)
    }
}

} // verus!
