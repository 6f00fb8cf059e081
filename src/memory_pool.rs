//! Fixed-size block pool addressed by byte offset into its backing region.
//!
//! The pool keeps the occupancy table; the region itself belongs to whoever
//! owns the memory. A block's address is its offset from the start of the
//! region, so ownership checks are plain integer arithmetic.

use vstd::prelude::*;

use crate::occupancy::{all_taken, count_set, first_free, lemma_count_set_bound, lemma_count_set_update, lemma_count_set_zero};

verus! {

/// Bytes per block.
pub const POOL_BLOCK_SIZE: usize = 64;

/// Blocks in the pool.
pub const POOL_BLOCK_COUNT: usize = 256;

/// Bytes in the backing region.
pub const POOL_BYTES: usize = 16384;

/// Whether `addr` is the start of some block of the region.
pub open spec fn is_block_address(addr: int) -> bool {
    0 <= addr < POOL_BYTES && addr % (POOL_BLOCK_SIZE as int) == 0
}

pub struct MemoryPool {
    free_list: [bool; POOL_BLOCK_COUNT],
    allocated_count: usize,
}

impl View for MemoryPool {
    type V = Seq<bool>;

    /// Occupancy of each block, by index: true when in use.
    closed spec fn view(&self) -> Seq<bool> {
        Seq::new(POOL_BLOCK_COUNT as nat, |i: int| !self.free_list@[i])
    }
}

impl MemoryPool {
    pub closed spec fn wf(&self) -> bool {
        self.allocated_count == count_set(self@)
    }

    /// A pool with every block free.
    pub fn new() -> (r: MemoryPool)
        ensures
            r.wf(),
            r@.len() == POOL_BLOCK_COUNT,
            forall|i: int| 0 <= i < POOL_BLOCK_COUNT ==> !r@[i],
    {
        let r = MemoryPool { free_list: [true; POOL_BLOCK_COUNT], allocated_count: 0 };
        proof {
            lemma_count_set_zero(r@);
        }
        r
    }

    /// Marks the lowest-numbered free block in use and returns its address,
    /// or `None` when every block is in use.
    pub fn allocate_block(&mut self) -> (r: Option<usize>)
        requires
            old(self).wf(),
        ensures
            final(self).wf(),
            final(self)@.len() == POOL_BLOCK_COUNT,
            r.is_none() <==> all_taken(old(self)@),
            r.is_none() ==> final(self)@ == old(self)@,
            r.is_some() ==> {
                let i = r.unwrap() / POOL_BLOCK_SIZE;
                &&& is_block_address(r.unwrap() as int)
                &&& first_free(old(self)@, i as int)
                &&& final(self)@ == old(self)@.update(i as int, true)
            },
    {
        let ghost before = self@;
        let mut idx: usize = 0;
        while idx < POOL_BLOCK_COUNT
            invariant
                self.wf(),
                self@ == before,
                before == old(self)@,
                idx <= POOL_BLOCK_COUNT,
                forall|j: int| 0 <= j < idx ==> before[j],
            decreases POOL_BLOCK_COUNT - idx,
        {
            if self.free_list[idx] {
                self.free_list[idx] = false;
                proof {
                    assert(self@ =~= before.update(idx as int, true));
                    lemma_count_set_update(before, idx as int, true);
                    lemma_count_set_bound(before);
                }
                self.allocated_count = self.allocated_count + 1;
                return Some(idx * POOL_BLOCK_SIZE);
            }
            idx = idx + 1;
        }
        None
    }

    /// Releases the block that starts at `addr`. Returns false, changing
    /// nothing, when `addr` lies outside the region, is not the start of a
    /// block, or names a block that is already free.
    pub fn free_block(&mut self, addr: usize) -> (r: bool)
        requires
            old(self).wf(),
        ensures
            final(self).wf(),
            final(self)@.len() == POOL_BLOCK_COUNT,
            r == (is_block_address(addr as int) && old(self)@[(addr / POOL_BLOCK_SIZE) as int]),
            r ==> final(self)@ == old(self)@.update((addr / POOL_BLOCK_SIZE) as int, false),
            !r ==> final(self)@ == old(self)@,
    {
        if addr >= POOL_BYTES {
            return false;
        }
        if addr % POOL_BLOCK_SIZE != 0 {
            return false;
        }
        let block_idx = addr / POOL_BLOCK_SIZE;
        if self.free_list[block_idx] {
            return false;
        }
        let ghost before = self@;
        self.free_list[block_idx] = true;
        proof {
            assert(self@ =~= before.update(block_idx as int, false));
            lemma_count_set_update(before, block_idx as int, false);
        }
        self.allocated_count = self.allocated_count - 1;
        true
    }

    /// Number of blocks in use.
    pub fn get_allocated_count(&self) -> (r: usize)
        requires
            self.wf(),
        ensures
            r == count_set(self@),
    {
        self.allocated_count
    }

    /// Number of free blocks.
    pub fn get_free_count(&self) -> (r: usize)
        requires
            self.wf(),
        ensures
            r == POOL_BLOCK_COUNT - count_set(self@),
    {
        proof {
            lemma_count_set_bound(self@);
        }
        POOL_BLOCK_COUNT - self.allocated_count
    }
}

} // verus!
