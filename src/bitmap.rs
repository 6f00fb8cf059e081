//! First-fit physical frame allocator over a bitset.

use vstd::prelude::*;

use crate::occupancy::{all_taken, count_set, first_free, lemma_count_set_bound, lemma_count_set_update, lemma_count_set_zero};

verus! {

/// Bytes in the bitset.
pub const BITMAP_SIZE: usize = 256;

/// Frames tracked by one byte of the bitset.
pub const BITS_PER_BYTE: usize = 8;

/// Largest number of frames the bitset can track.
pub const MAX_FRAMES: usize = 2048;

/// Whether bit `k` of `b` is set.
pub open spec fn bit_set(b: u8, k: int) -> bool {
    b & (1u8 << (k as u8)) != 0
}

proof fn lemma_full_byte(b: u8, k: u8)
    requires
        b == 0xFFu8,
        k < 8,
    ensures
        b & (1u8 << k) != 0,
{
    assert(b == 0xFFu8 && k < 8 ==> b & (1u8 << k) != 0) by (bit_vector);
}

proof fn lemma_set_bit(b: u8, k: u8, j: u8)
    requires
        k < 8,
        j < 8,
    ensures
        ((b | (1u8 << k)) & (1u8 << j) != 0) == (j == k || b & (1u8 << j) != 0),
{
    assert(k < 8 && j < 8 ==> (((b | (1u8 << k)) & (1u8 << j) != 0) == (j == k || b & (1u8
        << j) != 0))) by (bit_vector);
}

proof fn lemma_clear_bit(b: u8, k: u8, j: u8)
    requires
        k < 8,
        j < 8,
    ensures
        ((b & !(1u8 << k)) & (1u8 << j) != 0) == (j != k && b & (1u8 << j) != 0),
{
    assert(k < 8 && j < 8 ==> (((b & !(1u8 << k)) & (1u8 << j) != 0) == (j != k && b & (1u8
        << j) != 0))) by (bit_vector);
}

/// Bitset over a fixed number of physical frames: bit set means allocated.
pub struct BitmapAllocator {
    bitmap: [u8; BITMAP_SIZE],
    total_frames: usize,
    allocated_frames: usize,
}

impl View for BitmapAllocator {
    type V = Seq<bool>;

    /// Allocation state of each frame, by index.
    closed spec fn view(&self) -> Seq<bool> {
        Seq::new(
            self.total_frames as nat,
            |f: int| bit_set(self.bitmap@[f / 8], f % 8),
        )
    }
}

impl BitmapAllocator {
    pub closed spec fn wf(&self) -> bool {
        &&& self.total_frames <= MAX_FRAMES
        &&& self.allocated_frames == count_set(self@)
    }

    /// An allocator with every one of its `MAX_FRAMES` frames free.
    pub fn new() -> (r: BitmapAllocator)
        ensures
            r.wf(),
            r@.len() == MAX_FRAMES,
            forall|f: int| 0 <= f < MAX_FRAMES ==> !r@[f],
    {
        BitmapAllocator::with_frames(MAX_FRAMES)
    }

    /// An allocator over `total_frames` frames, all free.
    pub fn with_frames(total_frames: usize) -> (r: BitmapAllocator)
        requires
            total_frames <= MAX_FRAMES,
        ensures
            r.wf(),
            r@.len() == total_frames,
            forall|f: int| 0 <= f < total_frames ==> !r@[f],
    {
        let r = BitmapAllocator { bitmap: [0u8; BITMAP_SIZE], total_frames, allocated_frames: 0 };
        assert forall|f: int| 0 <= f < total_frames implies !r@[f] by {
            let k = (f % 8) as u8;
            assert(0u8 & (1u8 << k) == 0) by (bit_vector);
        }
        assert(r@ =~= Seq::new(total_frames as nat, |f: int| false));
        proof {
            lemma_count_set_zero(r@);
        }
        r
    }

    /// Claims the lowest-numbered free frame (bytes ascending, then bits
    /// ascending) and returns its index, or `None` when every frame is taken.
    pub fn allocate_frame(&mut self) -> (r: Option<usize>)
        requires
            old(self).wf(),
        ensures
            final(self).wf(),
            r.is_none() <==> all_taken(old(self)@),
            r.is_none() ==> final(self)@ == old(self)@,
            r.is_some() ==> first_free(old(self)@, r.unwrap() as int) && final(self)@ == old(
                self,
            )@.update(r.unwrap() as int, true),
    {
        let ghost before = self@;
        let mut byte_idx: usize = 0;
        while byte_idx < BITMAP_SIZE && byte_idx * BITS_PER_BYTE < self.total_frames
            invariant
                self.wf(),
                self@ == before,
                before == old(self)@,
                byte_idx <= BITMAP_SIZE,
                forall|g: int| 0 <= g < byte_idx * 8 && g < before.len() ==> before[g],
            decreases BITMAP_SIZE - byte_idx,
        {
            let byte = self.bitmap[byte_idx];
            if byte != 0xFFu8 {
                let mut bit: usize = 0;
                while bit < BITS_PER_BYTE && byte_idx * BITS_PER_BYTE + bit < self.total_frames
                    invariant
                        self.wf(),
                        self@ == before,
                        before == old(self)@,
                        byte_idx < BITMAP_SIZE,
                        byte == self.bitmap@[byte_idx as int],
                        bit <= 8,
                        forall|g: int|
                            0 <= g < byte_idx * 8 + bit && g < before.len() ==> before[g],
                    decreases 8 - bit,
                {
                    let mask: u8 = 1u8 << (bit as u8);
                    if byte & mask == 0 {
                        let f: usize = byte_idx * BITS_PER_BYTE + bit;
                        self.bitmap[byte_idx] = byte | mask;
                        proof {
                            assert(f as int / 8 == byte_idx && f as int % 8 == bit);
                            assert forall|g: int| 0 <= g < before.len() implies self@[g] == (
                            if g == f {
                                true
                            } else {
                                before[g]
                            }) by {
                                if g / 8 == byte_idx {
                                    lemma_set_bit(byte, bit as u8, (g % 8) as u8);
                                }
                            }
                            assert(self@ =~= before.update(f as int, true));
                            lemma_count_set_update(before, f as int, true);
                            lemma_count_set_bound(before);
                        }
                        self.allocated_frames = self.allocated_frames + 1;
                        return Some(f);
                    }
                    bit = bit + 1;
                }
                if bit < BITS_PER_BYTE {
                    return None;
                }
            } else {
                proof {
                    assert forall|g: int|
                        0 <= g < byte_idx * 8 + 8 && g < before.len() implies before[g] by {
                        if g >= byte_idx * 8 {
                            lemma_full_byte(byte, (g % 8) as u8);
                        }
                    }
                }
            }
            byte_idx = byte_idx + 1;
        }
        None
    }

    /// Releases `frame`. Returns false, changing nothing, when the index is
    /// out of range or the frame is already free.
    pub fn free_frame(&mut self, frame: usize) -> (r: bool)
        requires
            old(self).wf(),
        ensures
            final(self).wf(),
            r == (frame < old(self)@.len() && old(self)@[frame as int]),
            r ==> final(self)@ == old(self)@.update(frame as int, false),
            !r ==> final(self)@ == old(self)@,
    {
        if frame >= self.total_frames {
            return false;
        }
        if !self.is_allocated(frame) {
            return false;
        }
        let ghost before = self@;
        let byte_idx = frame / BITS_PER_BYTE;
        let bit_idx = frame % BITS_PER_BYTE;
        let mask: u8 = !(1u8 << (bit_idx as u8));
        let byte = self.bitmap[byte_idx];
        self.bitmap[byte_idx] = byte & mask;
        proof {
            assert forall|g: int| 0 <= g < before.len() implies self@[g] == (if g == frame {
                false
            } else {
                before[g]
            }) by {
                if g / 8 == byte_idx {
                    lemma_clear_bit(byte, bit_idx as u8, (g % 8) as u8);
                }
            }
            assert(self@ =~= before.update(frame as int, false));
            lemma_count_set_update(before, frame as int, false);
        }
        self.allocated_frames = self.allocated_frames - 1;
        true
    }

    /// Whether `frame` is allocated; an out-of-range index reads as free.
    pub fn is_allocated(&self, frame: usize) -> (r: bool)
        requires
            self.wf(),
        ensures
            r == (frame < self@.len() && self@[frame as int]),
    {
        if frame >= self.total_frames {
            return false;
        }
        let byte_idx = frame / BITS_PER_BYTE;
        let bit_idx = frame % BITS_PER_BYTE;
        let mask: u8 = 1u8 << (bit_idx as u8);
        (self.bitmap[byte_idx] & mask) != 0
    }

    /// Number of free frames.
    pub fn get_free_count(&self) -> (r: usize)
        requires
            self.wf(),
        ensures
            r == self@.len() - count_set(self@),
    {
        proof {
            lemma_count_set_bound(self@);
        }
        self.total_frames - self.allocated_frames
    }

    /// Number of allocated frames.
    pub fn get_allocated_count(&self) -> (r: usize)
        requires
            self.wf(),
        ensures
            r == count_set(self@),
    {
        self.allocated_frames
    }
}

} // verus!
