//! The mathematical model of the arena: four bump pointers and a count of
//! live byte allocations, with the transitions the allocator makes.

use crate::align::{ceil_multiple, clear_low_bits, floor_multiple};
use crate::align::{lemma_ceil_multiple, lemma_clear_low_bits_rounds_down, lemma_floor_multiple};
use vstd::arithmetic::power2::is_pow2;
use vstd::prelude::*;

verus! {

/// The size in bytes of one page.
pub const PAGE_SIZE: usize = 4096;

/// The state of an arena, as offsets from its base.
///
/// `[b_start, b_pos)` holds byte allocations, `[b_pos, p_pos)` is free and
/// `[p_pos, p_end)` holds page allocations.
pub struct ArenaState {
    /// Lower bound of the byte region.
    pub b_start: nat,
    /// Next free byte offset.
    pub b_pos: nat,
    /// Lowest offset handed out to pages.
    pub p_pos: nat,
    /// Upper bound of the page region.
    pub p_end: nat,
    /// Number of byte allocations not yet released.
    pub b_count: nat,
}

/// The alignment a page request is served with: its own, but never less than
/// a page.
pub open spec fn page_align(align_pow2: nat) -> nat {
    if align_pow2 > PAGE_SIZE {
        align_pow2
    } else {
        PAGE_SIZE as nat
    }
}

impl ArenaState {
    /// The pointers are ordered within an arena of `size` bytes, and a byte
    /// region without live allocations is empty.
    pub open spec fn wf(self, size: nat) -> bool {
        &&& self.b_start <= self.b_pos <= self.p_pos <= self.p_end <= size
        &&& self.b_count == 0 ==> self.b_pos == self.b_start
    }

    /// An arena of `capacity` bytes with nothing allocated.
    pub open spec fn fresh(capacity: nat) -> ArenaState {
        ArenaState { b_start: 0, b_pos: 0, p_pos: capacity, p_end: capacity, b_count: 0 }
    }

    /// Bytes managed in all.
    pub open spec fn total_bytes(self) -> nat {
        (self.p_end - self.b_start) as nat
    }

    /// Bytes taken by the byte region.
    pub open spec fn used_bytes(self) -> nat {
        (self.b_pos - self.b_start) as nat
    }

    /// Bytes between the two bump pointers.
    pub open spec fn available_bytes(self) -> nat {
        if self.p_pos >= self.b_pos {
            (self.p_pos - self.b_pos) as nat
        } else {
            0
        }
    }

    /// Bytes taken by the page region.
    pub open spec fn page_bytes(self) -> nat {
        (self.p_end - self.p_pos) as nat
    }

    /// Whole pages managed in all.
    pub open spec fn total_pages(self) -> nat {
        self.total_bytes() / (PAGE_SIZE as nat)
    }

    /// Whole pages taken by the page region.
    pub open spec fn used_pages(self) -> nat {
        self.page_bytes() / (PAGE_SIZE as nat)
    }

    /// Whole pages between the two bump pointers.
    pub open spec fn available_pages(self) -> nat {
        self.available_bytes() / (PAGE_SIZE as nat)
    }

    /// Where a byte allocation aligned to `align` would start.
    pub open spec fn byte_offset(self, align: nat) -> nat {
        ceil_multiple(self.b_pos as int, align as int) as nat
    }

    /// Whether a byte allocation of `size` bytes aligned to `align` stays
    /// below the page region.
    pub open spec fn bytes_fit(self, size: nat, align: nat) -> bool {
        self.byte_offset(align) + size <= self.p_pos
    }

    /// The state after a byte allocation that fits.
    pub open spec fn after_alloc(self, size: nat, align: nat) -> ArenaState {
        ArenaState {
            b_pos: self.byte_offset(align) + size,
            b_count: self.b_count + 1,
            ..self
        }
    }

    /// The state after one byte allocation is released: the count drops, and
    /// with the last release the whole byte region is reclaimed. Releasing
    /// with nothing live changes nothing.
    pub open spec fn after_dealloc(self) -> ArenaState {
        if self.b_count == 0 {
            self
        } else if self.b_count == 1 {
            ArenaState { b_pos: self.b_start, b_count: 0, ..self }
        } else {
            ArenaState { b_count: (self.b_count - 1) as nat, ..self }
        }
    }

    /// Where a request for `num_pages` pages would start: that many pages
    /// below the page region, with the bits below the alignment cleared.
    pub open spec fn page_offset(self, num_pages: nat, align_pow2: nat) -> nat {
        clear_low_bits(
            (self.p_pos - num_pages * PAGE_SIZE) as usize,
            page_align(align_pow2) as usize,
        ) as nat
    }

    /// Whether a request for `num_pages` pages can be served: it asks for at
    /// least one page, that many pages lie below the page region, and the
    /// aligned start stays above the byte region.
    pub open spec fn pages_fit(self, num_pages: nat, align_pow2: nat) -> bool {
        &&& num_pages > 0
        &&& num_pages * PAGE_SIZE <= self.p_pos
        &&& self.page_offset(num_pages, align_pow2) >= self.b_pos
    }

    /// The state after a page allocation that fits.
    pub open spec fn after_alloc_pages(self, num_pages: nat, align_pow2: nat) -> ArenaState {
        ArenaState { p_pos: self.page_offset(num_pages, align_pow2), ..self }
    }
}

/// A page is a power of two.
pub proof fn lemma_page_size_is_pow2()
    ensures
        is_pow2(PAGE_SIZE as int),
{
    reveal_with_fuel(is_pow2, 14);
}

/// A byte allocation that fits starts at a multiple of its alignment, at or
/// after the old `b_pos`, ends within the free gap, and keeps the state
/// well-formed.
pub proof fn lemma_alloc_step(s: ArenaState, arena: nat, size: nat, align: nat)
    requires
        s.wf(arena),
        is_pow2(align as int),
        s.bytes_fit(size, align),
    ensures
        s.byte_offset(align) % align == 0,
        s.b_pos <= s.byte_offset(align) < s.b_pos + align,
        s.after_alloc(size, align).b_pos == s.byte_offset(align) + size,
        s.after_alloc(size, align).b_pos <= s.p_pos,
        s.after_alloc(size, align).wf(arena),
{
    assert(align >= 1) by {
        reveal(is_pow2);
    }
    lemma_ceil_multiple(s.b_pos as int, align as int);
}

/// Releasing keeps the state well-formed.
pub proof fn lemma_dealloc_step(s: ArenaState, arena: nat)
    requires
        s.wf(arena),
    ensures
        s.after_dealloc().wf(arena),
        s.b_count > 0 ==> s.after_dealloc().b_count == s.b_count - 1,
        s.after_dealloc().b_count == 0 ==> s.after_dealloc().b_pos == s.b_start,
{
}

/// A page allocation that fits starts strictly below the old `p_pos`, leaves
/// room for all its pages below it, keeps the state well-formed, and starts
/// at a multiple of its alignment when that is a power of two.
pub proof fn lemma_alloc_pages_step(s: ArenaState, arena: nat, num_pages: nat, align_pow2: nat)
    requires
        s.wf(arena),
        arena <= usize::MAX,
        align_pow2 <= usize::MAX,
        s.pages_fit(num_pages, align_pow2),
    ensures
        s.page_offset(num_pages, align_pow2) + num_pages * PAGE_SIZE <= s.p_pos,
        s.page_offset(num_pages, align_pow2) < s.p_pos,
        s.b_pos <= s.page_offset(num_pages, align_pow2),
        s.after_alloc_pages(num_pages, align_pow2).wf(arena),
        is_pow2(page_align(align_pow2) as int) ==> {
            &&& s.page_offset(num_pages, align_pow2) % page_align(align_pow2) == 0
            &&& s.page_offset(num_pages, align_pow2) == floor_multiple(
                s.p_pos - num_pages * PAGE_SIZE,
                page_align(align_pow2) as int,
            )
        },
        s.page_offset(num_pages, align_pow2) % (PAGE_SIZE as nat) == 0 <== align_pow2 <= PAGE_SIZE,
{
    let below: usize = (s.p_pos - num_pages * PAGE_SIZE) as usize;
    let align: usize = page_align(align_pow2) as usize;
    let mask: usize = (align - 1) as usize;
    assert(below & !mask <= below) by (bit_vector);
    if is_pow2(align as int) {
        lemma_clear_low_bits_rounds_down(below, align);
        lemma_floor_multiple(below as int, align as int);
    }
    if align_pow2 <= PAGE_SIZE {
        lemma_page_size_is_pow2();
    }
}

} // verus!
