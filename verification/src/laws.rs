//! What holds of the allocator over whole sequences of operations.
//!
//! The laws are stated over the model: a sequence of operations is run from
//! a state by taking the transition of each operation in turn, exactly as
//! the allocator's methods do.

use crate::align::lemma_ceil_multiple;
use crate::model::{lemma_alloc_pages_step, lemma_alloc_step, page_align, ArenaState, PAGE_SIZE};
use vstd::arithmetic::power2::is_pow2;
use vstd::prelude::*;

verus! {

/// One call on the allocator.
pub enum Op {
    /// A byte allocation of `size` bytes aligned to `align`.
    AllocBytes { size: nat, align: nat },
    /// The release of one byte allocation.
    Dealloc,
    /// A page allocation of `num_pages` pages aligned to `align_pow2`.
    AllocPages { num_pages: nat, align_pow2: nat },
    /// The release of pages.
    DeallocPages,
    /// An attempt to add a memory region.
    AddMemory,
}

impl Op {
    /// The arguments are ones the allocator's methods accept: a byte
    /// allocation names a power-of-two alignment, and a page allocation an
    /// alignment that fits a machine word.
    pub open spec fn valid(self) -> bool {
        match self {
            Op::AllocBytes { size, align } => is_pow2(align as int),
            Op::AllocPages { num_pages, align_pow2 } => align_pow2 <= usize::MAX,
            _ => true,
        }
    }

    /// Whether the allocator serves the call in state `s`. Only allocations
    /// can fail; adding memory always does.
    pub open spec fn succeeds(self, s: ArenaState) -> bool {
        match self {
            Op::AllocBytes { size, align } => s.bytes_fit(size, align),
            Op::AllocPages { num_pages, align_pow2 } => s.pages_fit(num_pages, align_pow2),
            Op::AddMemory => false,
            _ => true,
        }
    }

    /// The state the call leaves behind. A call that fails leaves the state
    /// as it was.
    pub open spec fn step(self, s: ArenaState) -> ArenaState {
        match self {
            Op::AllocBytes { size, align } => if s.bytes_fit(size, align) {
                s.after_alloc(size, align)
            } else {
                s
            },
            Op::Dealloc => s.after_dealloc(),
            Op::AllocPages { num_pages, align_pow2 } => if s.pages_fit(num_pages, align_pow2) {
                s.after_alloc_pages(num_pages, align_pow2)
            } else {
                s
            },
            Op::DeallocPages => s,
            Op::AddMemory => s,
        }
    }

    /// The offset an allocation returns when it is served in state `s`.
    pub open spec fn offset(self, s: ArenaState) -> nat {
        match self {
            Op::AllocBytes { size, align } => s.byte_offset(align),
            Op::AllocPages { num_pages, align_pow2 } => s.page_offset(num_pages, align_pow2),
            _ => 0,
        }
    }

    /// The number of bytes an allocation hands out.
    pub open spec fn length(self) -> nat {
        match self {
            Op::AllocBytes { size, align } => size,
            Op::AllocPages { num_pages, align_pow2 } => num_pages * (PAGE_SIZE as nat),
            _ => 0,
        }
    }
}

/// The state after the calls `ops`, made in order from state `s`.
pub open spec fn run(s: ArenaState, ops: Seq<Op>) -> ArenaState
    decreases ops.len(),
{
    if ops.len() == 0 {
        s
    } else {
        ops.last().step(run(s, ops.drop_last()))
    }
}

/// The state in which the call `ops[i]` is made.
pub open spec fn before(s: ArenaState, ops: Seq<Op>, i: int) -> ArenaState {
    run(s, ops.take(i))
}

/// Every call of `ops` has valid arguments.
pub open spec fn all_valid(ops: Seq<Op>) -> bool {
    forall|k: int| 0 <= k < ops.len() ==> (#[trigger] ops[k]).valid()
}

/// No call from `ops[i]` up to, not including, `ops[j]` releases a byte
/// allocation.
pub open spec fn no_release_between(ops: Seq<Op>, i: int, j: int) -> bool {
    forall|k: int| i <= k < j ==> !((#[trigger] ops[k]) is Dealloc)
}

/// Running one call more is one more transition.
pub proof fn lemma_run_next(s: ArenaState, ops: Seq<Op>, i: int)
    requires
        0 <= i < ops.len(),
    ensures
        before(s, ops, i + 1) == ops[i].step(before(s, ops, i)),
        before(s, ops, 0) == s,
        before(s, ops, ops.len() as int) == run(s, ops),
{
    assert(ops.take(i + 1).drop_last() =~= ops.take(i));
    assert(ops.take(0) =~= Seq::<Op>::empty());
    assert(ops.take(ops.len() as int) =~= ops);
}

/// One valid call keeps the state well-formed, never raises `p_pos`, never
/// moves the ends of the arena, and lowers `b_pos` only by a release.
pub proof fn lemma_step(s: ArenaState, arena: nat, op: Op)
    requires
        s.wf(arena),
        arena <= usize::MAX,
        op.valid(),
    ensures
        op.step(s).wf(arena),
        op.step(s).p_pos <= s.p_pos,
        op.step(s).b_start == s.b_start,
        op.step(s).p_end == s.p_end,
        !(op is Dealloc) ==> s.b_pos <= op.step(s).b_pos,
        !op.succeeds(s) ==> op.step(s) == s,
{
    match op {
        Op::AllocBytes { size, align } => {
            if s.bytes_fit(size, align) {
                lemma_alloc_step(s, arena, size, align);
            }
        },
        Op::AllocPages { num_pages, align_pow2 } => {
            if s.pages_fit(num_pages, align_pow2) {
                lemma_alloc_pages_step(s, arena, num_pages, align_pow2);
            }
        },
        _ => {},
    }
}

/// Between any two points of a run of valid calls, the state stays
/// well-formed, `p_pos` never rises, the ends of the arena stay put, and
/// `b_pos` never falls unless a byte allocation is released in between.
pub proof fn lemma_run_monotone(s: ArenaState, arena: nat, ops: Seq<Op>, i: int, j: int)
    requires
        s.wf(arena),
        arena <= usize::MAX,
        all_valid(ops),
        0 <= i <= j <= ops.len(),
    ensures
        before(s, ops, i).wf(arena),
        before(s, ops, j).wf(arena),
        before(s, ops, j).p_pos <= before(s, ops, i).p_pos,
        before(s, ops, j).b_start == before(s, ops, i).b_start,
        before(s, ops, j).p_end == before(s, ops, i).p_end,
        no_release_between(ops, i, j) ==> before(s, ops, i).b_pos <= before(s, ops, j).b_pos,
    decreases j, i,
{
    if j == 0 {
        assert(ops.take(0) =~= Seq::<Op>::empty());
    } else if i == j {
        lemma_run_monotone(s, arena, ops, 0, j);
    } else {
        lemma_run_monotone(s, arena, ops, i, j - 1);
        lemma_run_next(s, ops, j - 1);
        lemma_step(before(s, ops, j - 1), arena, ops[j - 1]);
        if no_release_between(ops, i, j) {
            assert(no_release_between(ops, i, j - 1));
            assert(!(ops[j - 1] is Dealloc));
        }
    }
}

/// After every call of a run the accounting adds up: the bytes used, the
/// bytes available and the bytes held by pages are the bytes in all.
pub proof fn lemma_accounting_adds_up(s: ArenaState, arena: nat, ops: Seq<Op>, i: int)
    requires
        s.wf(arena),
        arena <= usize::MAX,
        all_valid(ops),
        0 <= i <= ops.len(),
    ensures
        before(s, ops, i).used_bytes() + before(s, ops, i).available_bytes() + before(
            s,
            ops,
            i,
        ).page_bytes() == before(s, ops, i).total_bytes(),
        before(s, ops, i).total_bytes() == s.total_bytes(),
{
    lemma_run_monotone(s, arena, ops, 0, i);
    assert(ops.take(0) =~= Seq::<Op>::empty());
}

/// In any well-formed state the bytes used, the bytes available and the
/// bytes held by pages are the bytes in all.
pub proof fn lemma_accounting_identity(s: ArenaState, arena: nat)
    requires
        s.wf(arena),
    ensures
        s.used_bytes() + s.available_bytes() + s.page_bytes() == s.total_bytes(),
        s.total_bytes() <= arena,
{
}

/// A fresh arena of `capacity` bytes has all of them in all, none used and
/// all available.
pub proof fn lemma_fresh_accounting(capacity: nat)
    ensures
        ArenaState::fresh(capacity).wf(capacity),
        ArenaState::fresh(capacity).total_bytes() == capacity,
        ArenaState::fresh(capacity).used_bytes() == 0,
        ArenaState::fresh(capacity).available_bytes() == capacity,
        ArenaState::fresh(capacity).page_bytes() == 0,
{
}

/// Two byte allocations of one run that were both served, with no release
/// between them, do not overlap: the later starts where the earlier ends or
/// after it. Each starts at a multiple of its alignment and ends within the
/// arena's free gap of its time.
pub proof fn lemma_byte_allocations_disjoint(
    s: ArenaState,
    arena: nat,
    ops: Seq<Op>,
    i: int,
    j: int,
)
    requires
        s.wf(arena),
        arena <= usize::MAX,
        all_valid(ops),
        0 <= i < j < ops.len(),
        ops[i] is AllocBytes,
        ops[j] is AllocBytes,
        ops[i].succeeds(before(s, ops, i)),
        ops[j].succeeds(before(s, ops, j)),
        no_release_between(ops, i, j),
    ensures
        ops[i].offset(before(s, ops, i)) + ops[i].length() <= ops[j].offset(before(s, ops, j)),
        ops[i].offset(before(s, ops, i)) % ops[i]->align == 0,
        ops[j].offset(before(s, ops, j)) % ops[j]->align == 0,
        ops[j].offset(before(s, ops, j)) + ops[j].length() <= before(s, ops, j).p_pos,
{
    let si = before(s, ops, i);
    let sj = before(s, ops, j);
    lemma_run_monotone(s, arena, ops, i, i + 1);
    lemma_run_monotone(s, arena, ops, i + 1, j);
    lemma_run_next(s, ops, i);
    assert(no_release_between(ops, i + 1, j));
    lemma_alloc_step(si, arena, ops[i]->size, ops[i]->align);
    lemma_alloc_step(sj, arena, ops[j]->size, ops[j]->align);
}

/// Two page allocations of one run that were both served, whatever was
/// called between them, do not overlap: the later lies wholly below the
/// earlier, so the offsets returned fall strictly. Each offset is a multiple
/// of its alignment where that is a power of two.
pub proof fn lemma_page_allocations_descend(
    s: ArenaState,
    arena: nat,
    ops: Seq<Op>,
    i: int,
    j: int,
)
    requires
        s.wf(arena),
        arena <= usize::MAX,
        all_valid(ops),
        0 <= i < j < ops.len(),
        ops[i] is AllocPages,
        ops[j] is AllocPages,
        ops[i].succeeds(before(s, ops, i)),
        ops[j].succeeds(before(s, ops, j)),
    ensures
        ops[j].offset(before(s, ops, j)) + ops[j].length() <= ops[i].offset(before(s, ops, i)),
        ops[j].offset(before(s, ops, j)) < ops[i].offset(before(s, ops, i)),
        is_pow2(page_align(ops[i]->align_pow2) as int) ==> ops[i].offset(before(s, ops, i))
            % page_align(ops[i]->align_pow2) == 0,
        is_pow2(page_align(ops[j]->align_pow2) as int) ==> ops[j].offset(before(s, ops, j))
            % page_align(ops[j]->align_pow2) == 0,
{
    let si = before(s, ops, i);
    let sj = before(s, ops, j);
    lemma_run_monotone(s, arena, ops, i, i + 1);
    lemma_run_monotone(s, arena, ops, i + 1, j);
    lemma_run_next(s, ops, i);
    lemma_alloc_pages_step(si, arena, ops[i]->num_pages, ops[i]->align_pow2);
    lemma_alloc_pages_step(sj, arena, ops[j]->num_pages, ops[j]->align_pow2);
}

/// A byte allocation and a page allocation of one run that were both
/// served do not overlap, in whichever order they came, as long as no byte
/// allocation is released between them: the bytes end where the pages start
/// or below.
pub proof fn lemma_bytes_below_pages(s: ArenaState, arena: nat, ops: Seq<Op>, b: int, p: int)
    requires
        s.wf(arena),
        arena <= usize::MAX,
        all_valid(ops),
        0 <= b < ops.len(),
        0 <= p < ops.len(),
        ops[b] is AllocBytes,
        ops[p] is AllocPages,
        ops[b].succeeds(before(s, ops, b)),
        ops[p].succeeds(before(s, ops, p)),
        b < p ==> no_release_between(ops, b, p),
    ensures
        ops[b].offset(before(s, ops, b)) + ops[b].length() <= ops[p].offset(before(s, ops, p)),
{
    let sb = before(s, ops, b);
    let sp = before(s, ops, p);
    lemma_run_monotone(s, arena, ops, b, b);
    lemma_run_monotone(s, arena, ops, p, p);
    lemma_alloc_step(sb, arena, ops[b]->size, ops[b]->align);
    lemma_alloc_pages_step(sp, arena, ops[p]->num_pages, ops[p]->align_pow2);
    if b < p {
        lemma_run_next(s, ops, b);
        lemma_run_monotone(s, arena, ops, b + 1, p);
        assert(no_release_between(ops, b + 1, p));
    } else {
        lemma_run_next(s, ops, p);
        lemma_run_monotone(s, arena, ops, p + 1, b);
    }
}

/// With no byte left between the byte area and the page area, every byte
/// allocation of at least one byte is refused, and the refusal changes
/// nothing. More generally, so is every one that asks for more than is
/// available.
pub proof fn lemma_exhausted_refuses(s: ArenaState, arena: nat, size: nat, align: nat)
    requires
        s.wf(arena),
        is_pow2(align as int),
        size > s.available_bytes(),
    ensures
        !s.bytes_fit(size, align),
        (Op::AllocBytes { size, align }).step(s) == s,
{
    assert(align >= 1) by {
        reveal(is_pow2);
    }
    lemma_ceil_multiple(s.b_pos as int, align as int);
}

/// A page request that asks for no page, or whose pages would start below
/// the byte area, is refused, and the refusal changes nothing.
pub proof fn lemma_page_refusals(s: ArenaState, num_pages: nat, align_pow2: nat)
    requires
        num_pages == 0 || num_pages * PAGE_SIZE > s.p_pos || s.page_offset(num_pages, align_pow2)
            < s.b_pos,
    ensures
        !s.pages_fit(num_pages, align_pow2),
        (Op::AllocPages { num_pages, align_pow2 }).step(s) == s,
{
}

/// `n` releases in a row.
pub open spec fn releases(n: nat) -> Seq<Op> {
    Seq::new(n, |k: int| Op::Dealloc)
}

/// Every call of `ops` is a byte allocation.
pub open spec fn all_byte_allocations(ops: Seq<Op>) -> bool {
    forall|k: int| 0 <= k < ops.len() ==> (#[trigger] ops[k]) is AllocBytes
}

/// Releasing as often as there are live byte allocations, or more often,
/// empties the byte area and touches nothing else.
pub proof fn lemma_releases_reclaim(s: ArenaState, arena: nat, n: nat)
    requires
        s.wf(arena),
        n >= s.b_count,
    ensures
        run(s, releases(n)) == (ArenaState { b_pos: s.b_start, b_count: 0, ..s }),
    decreases n,
{
    if n > 0 {
        assert(releases(n).drop_last() =~= releases((n - 1) as nat));
        if s.b_count == n {
            lemma_releases_partial(s, arena, (n - 1) as nat);
        } else {
            lemma_releases_reclaim(s, arena, (n - 1) as nat);
        }
    }
}

/// Releasing fewer times than there are live byte allocations only lowers
/// the count.
pub proof fn lemma_releases_partial(s: ArenaState, arena: nat, n: nat)
    requires
        s.wf(arena),
        n < s.b_count,
    ensures
        run(s, releases(n)) == (ArenaState { b_count: (s.b_count - n) as nat, ..s }),
    decreases n,
{
    if n > 0 {
        assert(releases(n).drop_last() =~= releases((n - 1) as nat));
        lemma_releases_partial(s, arena, (n - 1) as nat);
    }
}

/// Byte allocations touch only `b_pos` and the count, and the count rises by
/// one with each that is served.
pub proof fn lemma_byte_allocations_count(s: ArenaState, arena: nat, ops: Seq<Op>)
    requires
        s.wf(arena),
        all_valid(ops),
        all_byte_allocations(ops),
    ensures
        run(s, ops).wf(arena),
        run(s, ops).b_start == s.b_start,
        run(s, ops).p_pos == s.p_pos,
        run(s, ops).p_end == s.p_end,
        s.b_count <= run(s, ops).b_count <= s.b_count + ops.len(),
        (forall|k: int| 0 <= k < ops.len() ==> (#[trigger] ops[k]).succeeds(before(s, ops, k)))
            ==> run(s, ops).b_count == s.b_count + ops.len(),
    decreases ops.len(),
{
    if ops.len() > 0 {
        let front = ops.drop_last();
        let last = ops.last();
        lemma_byte_allocations_count(s, arena, front);
        let t = run(s, front);
        if t.bytes_fit(last->size, last->align) {
            lemma_alloc_step(t, arena, last->size, last->align);
        }
        if forall|k: int| 0 <= k < ops.len() ==> (#[trigger] ops[k]).succeeds(before(s, ops, k)) {
            assert forall|k: int| 0 <= k < front.len() implies (#[trigger] front[k]).succeeds(
                before(s, front, k),
            ) by {
                assert(front.take(k) =~= ops.take(k));
                assert(ops[k].succeeds(before(s, ops, k)));
            }
            assert(ops.take(ops.len() - 1) =~= front);
            assert(ops[ops.len() - 1].succeeds(before(s, ops, ops.len() - 1)));
        }
    }
}

/// From an empty byte area, any number of byte allocations followed by as
/// many releases as were served, or more, leads back to the very state the
/// run began in: the count is zero again and the next byte allocation starts
/// where the first one did.
pub proof fn lemma_allocations_then_releases(s: ArenaState, arena: nat, ops: Seq<Op>, n: nat)
    requires
        s.wf(arena),
        s.b_count == 0,
        all_valid(ops),
        all_byte_allocations(ops),
        n >= run(s, ops).b_count,
    ensures
        run(run(s, ops), releases(n)) == s,
        run(run(s, ops), releases(n)).b_count == 0,
        run(run(s, ops), releases(n)).b_pos == s.b_start,
        forall|align: nat| run(run(s, ops), releases(n)).byte_offset(align) == s.byte_offset(align),
{
    lemma_byte_allocations_count(s, arena, ops);
    lemma_releases_reclaim(run(s, ops), arena, n);
}

} // verus!
