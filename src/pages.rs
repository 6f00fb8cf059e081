//! Bump allocator handing out page-aligned addresses from a bounded range.
//!
//! Exclusive access (`&mut self`) gives every update a single writer, so the
//! cursor advances without a compare-and-swap retry. Freed addresses are never
//! handed out again: freeing only returns capacity to the counters, and once
//! the cursor reaches the end of the range every later allocation fails.

use vstd::prelude::*;

verus! {

/// Pages in the kernel's default range.
pub const TOTAL_PAGES: u32 = 1024;

/// Bytes per page in the kernel's default range.
pub const PAGE_SIZE: u32 = 4096;

/// First address of the kernel's default range.
pub const MIN_PAGE_ADDR: u32 = 0x100000;

/// The allocator's state as numbers: where the range starts, how it is cut,
/// how many addresses the cursor has passed and the two page counters.
pub struct PageState {
    pub base: nat,
    pub page_size: nat,
    pub total_pages: nat,
    pub issued: nat,
    pub allocated: nat,
    pub free_pages: nat,
}

impl PageState {
    /// One past the last address of the range.
    pub open spec fn limit(self) -> nat {
        self.base + self.total_pages * self.page_size
    }

    /// The address that the next successful allocation returns.
    pub open spec fn cursor(self) -> nat {
        self.base + self.issued * self.page_size
    }

    /// Whether `addr` lies in the range and is a multiple of the page size.
    pub open spec fn valid_page(self, addr: nat) -> bool {
        self.base <= addr < self.limit() && addr % self.page_size == 0
    }
}

pub struct MemoryManager {
    base: u32,
    page_size: u32,
    total_pages: u32,
    next_page: u32,
    allocated_pages: u32,
    free_pages: u32,
    issued: Ghost<nat>,
}

impl View for MemoryManager {
    type V = PageState;

    closed spec fn view(&self) -> PageState {
        PageState {
            base: self.base as nat,
            page_size: self.page_size as nat,
            total_pages: self.total_pages as nat,
            issued: self.issued@,
            allocated: self.allocated_pages as nat,
            free_pages: self.free_pages as nat,
        }
    }
}

impl MemoryManager {
    pub closed spec fn wf(&self) -> bool {
        &&& self.base > 0
        &&& self.page_size > 0
        &&& self.base + self.total_pages * self.page_size <= u32::MAX
        &&& self.issued@ <= self.total_pages
        &&& self.next_page == self.base + self.issued@ * self.page_size
        &&& self.allocated_pages <= self.issued@
        &&& self.free_pages + self.allocated_pages == self.total_pages
    }

    /// The kernel's default range: `TOTAL_PAGES` pages of `PAGE_SIZE` bytes
    /// from `MIN_PAGE_ADDR`, nothing issued.
    pub fn new() -> (r: MemoryManager)
        ensures
            r.wf(),
            r@ == (PageState {
                base: MIN_PAGE_ADDR as nat,
                page_size: PAGE_SIZE as nat,
                total_pages: TOTAL_PAGES as nat,
                issued: 0,
                allocated: 0,
                free_pages: TOTAL_PAGES as nat,
            }),
    {
        MemoryManager::with_layout(MIN_PAGE_ADDR, PAGE_SIZE, TOTAL_PAGES)
    }

    /// `total_pages` pages of `page_size` bytes from `base`, nothing issued.
    /// Address 0 is the failure sentinel, so the range may not start there.
    pub fn with_layout(base: u32, page_size: u32, total_pages: u32) -> (r: MemoryManager)
        requires
            base > 0,
            page_size > 0,
            base + total_pages * page_size <= u32::MAX,
        ensures
            r.wf(),
            r@ == (PageState {
                base: base as nat,
                page_size: page_size as nat,
                total_pages: total_pages as nat,
                issued: 0,
                allocated: 0,
                free_pages: total_pages as nat,
            }),
    {
        MemoryManager {
            base,
            page_size,
            total_pages,
            next_page: base,
            allocated_pages: 0,
            free_pages: total_pages,
            issued: Ghost(0),
        }
    }

    /// Puts the cursor back at the start of the range and every counter at
    /// its initial value.
    pub fn reset(&mut self)
        requires
            old(self).wf(),
        ensures
            final(self).wf(),
            final(self)@ == (PageState { issued: 0, allocated: 0, free_pages: old(self)@.total_pages, ..old(self)@ }),
    {
        self.next_page = self.base;
        self.allocated_pages = 0;
        self.free_pages = self.total_pages;
        self.issued = Ghost(0);
    }

    /// Number of free pages.
    pub fn get_free_pages(&self) -> (r: u32)
        requires
            self.wf(),
        ensures
            r == self@.free_pages,
    {
        self.free_pages
    }

    /// Number of pages in the range.
    pub fn get_total_pages(&self) -> (r: u32)
        requires
            self.wf(),
        ensures
            r == self@.total_pages,
    {
        self.total_pages
    }

    /// Number of allocated pages.
    pub fn get_allocated_pages(&self) -> (r: u32)
        requires
            self.wf(),
        ensures
            r == self@.allocated,
    {
        self.allocated_pages
    }

    fn decrement_free_pages(&mut self)
        ensures
            *final(self) == (MemoryManager {
                free_pages: if old(self).free_pages > 0 {
                    (old(self).free_pages - 1) as u32
                } else {
                    0
                },
                ..*old(self)
            }),
    {
        if self.free_pages > 0 {
            self.free_pages = self.free_pages - 1;
        }
    }

    fn increment_free_pages(&mut self)
        ensures
            *final(self) == (MemoryManager {
                free_pages: if old(self).free_pages < old(self).total_pages {
                    (old(self).free_pages + 1) as u32
                } else {
                    old(self).free_pages
                },
                ..*old(self)
            }),
    {
        if self.free_pages < self.total_pages {
            self.free_pages = self.free_pages + 1;
        }
    }

    /// Claims the address at the cursor and advances the cursor by one page.
    /// Returns 0, changing nothing, when every page is counted as allocated or
    /// the cursor has reached the end of the range.
    pub fn allocate_page(&mut self) -> (r: u32)
        requires
            old(self).wf(),
        ensures
            final(self).wf(),
            r == 0 <==> (old(self)@.allocated >= old(self)@.total_pages || old(self)@.issued
                >= old(self)@.total_pages),
            r == 0 ==> final(self)@ == old(self)@,
            r != 0 ==> r == old(self)@.cursor() && final(self)@ == (PageState {
                issued: old(self)@.issued + 1,
                allocated: old(self)@.allocated + 1,
                free_pages: (old(self)@.free_pages - 1) as nat,
                ..old(self)@
            }),
    {
        if self.allocated_pages >= self.total_pages {
            return 0;
        }
        let limit: u32 = self.base + self.total_pages * self.page_size;
        let current_page = self.next_page;
        if current_page >= limit {
            proof {
                assert(self.issued@ * self.page_size >= self.total_pages * self.page_size);
                assert(self.issued@ >= self.total_pages) by (nonlinear_arith)
                    requires
                        self.issued@ * self.page_size >= self.total_pages * self.page_size,
                        self.page_size > 0,
                ;
            }
            return 0;
        }
        proof {
            assert(self.issued@ < self.total_pages) by (nonlinear_arith)
                requires
                    self.issued@ * self.page_size < self.total_pages * self.page_size,
            ;
            assert((self.issued@ + 1) * self.page_size <= self.total_pages * self.page_size)
                by (nonlinear_arith)
                requires
                    self.issued@ + 1 <= self.total_pages,
            ;
            assert((self.issued@ + 1) * self.page_size == self.issued@ * self.page_size
                + self.page_size) by (nonlinear_arith);
        }
        self.next_page = current_page + self.page_size;
        self.issued = Ghost(self.issued@ + 1);
        self.allocated_pages = self.allocated_pages + 1;
        self.decrement_free_pages();
        current_page
    }

    /// Gives back one page of capacity. Nothing changes when `page` is not a
    /// valid page address or no page is allocated. The address itself is not
    /// returned to the cursor and is never issued again.
    pub fn free_page(&mut self, page: u32)
        requires
            old(self).wf(),
        ensures
            final(self).wf(),
            old(self)@.valid_page(page as nat) && old(self)@.allocated > 0 ==> final(self)@ == (
            PageState {
                allocated: (old(self)@.allocated - 1) as nat,
                free_pages: old(self)@.free_pages + 1,
                ..old(self)@
            }),
            !(old(self)@.valid_page(page as nat) && old(self)@.allocated > 0) ==> final(self)@
                == old(self)@,
    {
        if !self.is_valid_page(page) {
            return;
        }
        if self.allocated_pages == 0 {
            return;
        }
        self.allocated_pages = self.allocated_pages - 1;
        self.increment_free_pages();
    }

    /// Whether `page` lies in the range and is page-aligned.
    pub fn is_valid_page(&self, page: u32) -> (r: bool)
        requires
            self.wf(),
        ensures
            r == self@.valid_page(page as nat),
    {
        let limit: u32 = self.base + self.total_pages * self.page_size;
        page >= self.base && page < limit && page % self.page_size == 0
    }

    /// Bytes in the whole range.
    pub fn total_memory(&self) -> (r: u32)
        requires
            self.wf(),
        ensures
            r == self@.total_pages * self@.page_size,
    {
        self.total_pages * self.page_size
    }

    /// Bytes in the free pages.
    pub fn free_memory(&self) -> (r: u32)
        requires
            self.wf(),
        ensures
            r == self@.free_pages * self@.page_size,
    {
        proof {
            assert(self.free_pages * self.page_size <= self.total_pages * self.page_size)
                by (nonlinear_arith)
                requires
                    self.free_pages <= self.total_pages,
            ;
        }
        self.free_pages * self.page_size
    }

    /// Bytes in the allocated pages.
    pub fn allocated_memory(&self) -> (r: u32)
        requires
            self.wf(),
        ensures
            r == self@.allocated * self@.page_size,
    {
        proof {
            assert(self.allocated_pages * self.page_size <= self.total_pages * self.page_size)
                by (nonlinear_arith)
                requires
                    self.allocated_pages <= self.total_pages,
            ;
        }
        self.allocated_pages * self.page_size
    }
}

} // verus!
