//! The allocator itself: the arena's bump pointers in machine integers.

use crate::align::{align_down, align_up, lemma_ceil_multiple, lemma_ceil_multiple_overflows};
use crate::error::AllocError;
use crate::model::{lemma_alloc_pages_step, page_align, ArenaState, PAGE_SIZE};
use vstd::arithmetic::power2::is_pow2;
use vstd::prelude::*;

verus! {

/// Early memory allocator, for use before the real byte and page allocators
/// can work. It manages an arena of at most `SIZE` bytes from both ends:
///
/// ```text
/// [ bytes-used | avail-area | pages-used ]
/// |            | -->    <-- |            |
/// start       b_pos        p_pos       end
/// ```
///
/// Bytes are allocated forward and pages backward. The byte area keeps a
/// count of its allocations and is freed as a whole when the count drops to
/// zero; the page area is never freed.
///
/// Every position the allocator takes or returns is an offset from the
/// arena's base. The allocator does not hold the memory: the embedder does,
/// and turns offsets into addresses.
pub struct EarlyAllocator<const SIZE: usize> {
    b_start: usize,
    b_pos: usize,
    p_pos: usize,
    p_end: usize,
    b_count: usize,
}

impl<const SIZE: usize> View for EarlyAllocator<SIZE> {
    type V = ArenaState;

    closed spec fn view(&self) -> ArenaState {
        ArenaState {
            b_start: self.b_start as nat,
            b_pos: self.b_pos as nat,
            p_pos: self.p_pos as nat,
            p_end: self.p_end as nat,
            b_count: self.b_count as nat,
        }
    }
}

impl<const SIZE: usize> EarlyAllocator<SIZE> {
    #[verifier::type_invariant]
    spec fn inv(self) -> bool {
        self@.wf(SIZE as nat)
    }

    /// The size in bytes of one page.
    pub const PAGE_SIZE: usize = PAGE_SIZE;

    /// Creates an allocator whose whole arena of `SIZE` bytes is free.
    pub fn new() -> (r: Self)
        ensures
            r@ == ArenaState::fresh(SIZE as nat),
            r@.wf(SIZE as nat),
    {
        Self { b_start: 0, b_pos: 0, p_pos: SIZE, p_end: SIZE, b_count: 0 }
    }

    /// Starts over with the first `size` bytes of the arena, all of them
    /// free. `start` is where the embedder's region begins; offsets do not
    /// depend on it. Calling this on an allocator that is in use forgets
    /// every allocation made so far.
    pub fn init(&mut self, start: usize, size: usize)
        requires
            size <= SIZE,
        ensures
            final(self)@ == ArenaState::fresh(size as nat),
            final(self)@.wf(SIZE as nat),
    {
        let _ = start;
        *self = Self { b_start: 0, b_pos: 0, p_pos: size, p_end: size, b_count: 0 };
    }

    /// Refuses: the allocator manages the one region it was made with.
    pub fn add_memory(&mut self, start: usize, size: usize) -> (r: Result<(), AllocError>)
        ensures
            r == Err::<(), AllocError>(AllocError::InvalidParam),
            final(self)@ == old(self)@,
            final(self)@.wf(SIZE as nat),
    {
        let _ = start;
        let _ = size;
        proof {
            use_type_invariant(&*self);
        }
        Err(AllocError::InvalidParam)
    }

    /// Allocates `size` bytes at the next offset that is a multiple of
    /// `align`, and returns that offset. Fails with `NoMemory`, changing
    /// nothing, exactly when the allocation would reach into the page area.
    pub fn alloc_bytes(&mut self, size: usize, align: usize) -> (r: Result<usize, AllocError>)
        requires
            is_pow2(align as int),
            old(self)@.b_count < usize::MAX,
        ensures
            final(self)@.wf(SIZE as nat),
            match r {
                Ok(offset) => {
                    &&& old(self)@.bytes_fit(size as nat, align as nat)
                    &&& offset == old(self)@.byte_offset(align as nat)
                    &&& final(self)@ == old(self)@.after_alloc(size as nat, align as nat)
                    &&& offset % align == 0
                    &&& old(self)@.b_pos <= offset
                    &&& offset + size <= old(self)@.p_pos
                },
                Err(e) => {
                    &&& e == AllocError::NoMemory
                    &&& !old(self)@.bytes_fit(size as nat, align as nat)
                    &&& final(self)@ == old(self)@
                },
            },
    {
        proof {
            use_type_invariant(&*self);
            assert(align >= 1) by {
                reveal(is_pow2);
            }
            lemma_ceil_multiple(self.b_pos as int, align as int);
        }
        if align - 1 > usize::MAX - self.b_pos {
            proof {
                lemma_ceil_multiple_overflows(self.b_pos, align);
            }
            return Err(AllocError::NoMemory);
        }
        let aligned_b_pos: usize = align_up(self.b_pos, align);
        let new_b_pos: usize = match aligned_b_pos.checked_add(size) {
            Some(pos) => pos,
            None => {
                return Err(AllocError::NoMemory);
            },
        };
        if new_b_pos > self.p_pos {
            return Err(AllocError::NoMemory);
        }
        self.b_count += 1;
        self.b_pos = new_b_pos;
        Ok(aligned_b_pos)
    }

    /// Releases one byte allocation. With the last one the whole byte area
    /// is reclaimed; with none live nothing happens. Which allocation is
    /// meant plays no part: `pos`, `size` and `align` are not looked at.
    pub fn dealloc(&mut self, pos: usize, size: usize, align: usize)
        ensures
            final(self)@ == old(self)@.after_dealloc(),
            final(self)@.wf(SIZE as nat),
    {
        let _ = pos;
        let _ = size;
        let _ = align;
        proof {
            use_type_invariant(&*self);
        }
        if self.b_count == 0 {
            return ;
        }
        if self.b_count == 1 {
            self.b_pos = self.b_start;
        }
        self.b_count -= 1;
    }

    /// Bytes managed in all.
    pub fn total_bytes(&self) -> (r: usize)
        ensures
            r == self@.total_bytes(),
            self@.wf(SIZE as nat),
    {
        proof {
            use_type_invariant(self);
        }
        self.p_end - self.b_start
    }

    /// Bytes taken by the byte area.
    pub fn used_bytes(&self) -> (r: usize)
        ensures
            r == self@.used_bytes(),
            self@.wf(SIZE as nat),
    {
        proof {
            use_type_invariant(self);
        }
        self.b_pos - self.b_start
    }

    /// Bytes still free between the byte area and the page area.
    pub fn available_bytes(&self) -> (r: usize)
        ensures
            r == self@.available_bytes(),
            self@.wf(SIZE as nat),
    {
        proof {
            use_type_invariant(self);
        }
        self.p_pos.saturating_sub(self.b_pos)
    }

    /// Allocates `num_pages` pages below the page area, at an offset whose
    /// bits below the larger of `align_pow2` and the page size are clear,
    /// and returns that offset. Fails with `NoMemory`, changing nothing,
    /// exactly when no page is asked for or the pages would reach into the
    /// byte area.
    pub fn alloc_pages(&mut self, num_pages: usize, align_pow2: usize) -> (r: Result<
        usize,
        AllocError,
    >)
        ensures
            final(self)@.wf(SIZE as nat),
            match r {
                Ok(offset) => {
                    &&& old(self)@.pages_fit(num_pages as nat, align_pow2 as nat)
                    &&& offset == old(self)@.page_offset(num_pages as nat, align_pow2 as nat)
                    &&& final(self)@ == old(self)@.after_alloc_pages(
                        num_pages as nat,
                        align_pow2 as nat,
                    )
                    &&& offset < old(self)@.p_pos
                    &&& old(self)@.b_pos <= offset
                    &&& offset + num_pages * PAGE_SIZE <= old(self)@.p_pos
                    &&& is_pow2(page_align(align_pow2 as nat) as int) ==> (offset as nat)
                        % page_align(align_pow2 as nat) == 0
                },
                Err(e) => {
                    &&& e == AllocError::NoMemory
                    &&& !old(self)@.pages_fit(num_pages as nat, align_pow2 as nat)
                    &&& final(self)@ == old(self)@
                },
            },
    {
        proof {
            use_type_invariant(&*self);
        }
        if num_pages == 0 {
            return Err(AllocError::NoMemory);
        }
        let total_size: usize = match num_pages.checked_mul(PAGE_SIZE) {
            Some(s) => s,
            None => {
                return Err(AllocError::NoMemory);
            },
        };
        let align: usize = if align_pow2 > PAGE_SIZE {
            align_pow2
        } else {
            PAGE_SIZE
        };
        let new_p_pos_unaligned: usize = match self.p_pos.checked_sub(total_size) {
            Some(pos) => pos,
            None => {
                return Err(AllocError::NoMemory);
            },
        };
        let new_p_pos_aligned: usize = align_down(new_p_pos_unaligned, align);
        if new_p_pos_aligned < self.b_pos {
            return Err(AllocError::NoMemory);
        }
        proof {
            lemma_alloc_pages_step(self@, SIZE as nat, num_pages as nat, align_pow2 as nat);
        }
        self.p_pos = new_p_pos_aligned;
        Ok(new_p_pos_aligned)
    }

    /// Does nothing: pages stay allocated for as long as the allocator lives.
    pub fn dealloc_pages(&mut self, pos: usize, num_pages: usize)
        ensures
            final(self)@ == old(self)@,
            final(self)@.wf(SIZE as nat),
    {
        let _ = pos;
        let _ = num_pages;
        proof {
            use_type_invariant(&*self);
        }
    }

    /// Whole pages managed in all.
    pub fn total_pages(&self) -> (r: usize)
        ensures
            r == self@.total_pages(),
            self@.wf(SIZE as nat),
    {
        proof {
            use_type_invariant(self);
        }
        (self.p_end - self.b_start) / PAGE_SIZE
    }

    /// Whole pages taken by the page area.
    pub fn used_pages(&self) -> (r: usize)
        ensures
            r == self@.used_pages(),
            self@.wf(SIZE as nat),
    {
        proof {
            use_type_invariant(self);
        }
        (self.p_end - self.p_pos) / PAGE_SIZE
    }

    /// Whole pages still free between the byte area and the page area.
    pub fn available_pages(&self) -> (r: usize)
        ensures
            r == self@.available_pages(),
            self@.wf(SIZE as nat),
    {
        proof {
            use_type_invariant(self);
        }
        self.p_pos.saturating_sub(self.b_pos) / PAGE_SIZE
    }

    /// The number of byte allocations not yet released.
    pub fn live_allocations(&self) -> (r: usize)
        ensures
            r == self@.b_count,
            self@.wf(SIZE as nat),
    {
        proof {
            use_type_invariant(self);
        }
        self.b_count
    }
}

} // verus!
