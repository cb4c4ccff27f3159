use vstd::prelude::*;
use super::{align_up, align_up_bits, is_power_of_two, lemma_align_up_bits, lemma_round_up_multiple};

verus! {

/// A bump allocator: hands out memory from `next` upwards and only takes
/// it all back once every allocation has been freed.
pub struct BumpAllocator {
    heap_start: usize,
    heap_end: usize,
    next: usize,
    allocations: usize,
}

impl BumpAllocator {
    /// First address of the heap.
    pub closed spec fn heap_bottom(&self) -> int {
        self.heap_start as int
    }

    /// One past the last address of the heap.
    pub closed spec fn heap_top(&self) -> int {
        self.heap_end as int
    }

    /// Where the next allocation is carved from.
    pub closed spec fn next_free(&self) -> int {
        self.next as int
    }

    /// Number of allocations not yet freed.
    pub closed spec fn live_allocations(&self) -> int {
        self.allocations as int
    }

    /// The bump pointer lies inside the heap.
    pub open spec fn wf(&self) -> bool {
        self.heap_bottom() <= self.next_free() <= self.heap_top()
    }

    /// An allocator with an empty heap at address 0.
    pub fn new() -> (a: Self)
        ensures
            a.wf(),
            a.heap_bottom() == 0,
            a.heap_top() == 0,
            a.next_free() == 0,
            a.live_allocations() == 0,
    {
        BumpAllocator { heap_start: 0, heap_end: 0, next: 0, allocations: 0 }
    }

    /// Sets the heap to `[heap_start, heap_start + heap_size)` and moves the
    /// bump pointer to its start. Meant to be called once, on an unused heap.
    pub fn init(&mut self, heap_start: usize, heap_size: usize)
        requires
            heap_start + heap_size <= usize::MAX,
        ensures
            final(self).wf(),
            final(self).heap_bottom() == heap_start,
            final(self).heap_top() == heap_start + heap_size,
            final(self).next_free() == heap_start,
            final(self).live_allocations() == old(self).live_allocations(),
    {
        self.heap_start = heap_start;
        self.heap_end = heap_start + heap_size;
        self.next = heap_start;
    }
}

/// The address `allocate` starts a block of `align` alignment at.
pub open spec fn bump_alloc_start(a: BumpAllocator, align: usize) -> int {
    align_up_bits(a.next_free() as usize, align) as int
}

/// `allocate(size, align)` on `pre` succeeds: the aligned block fits below the top.
pub open spec fn bump_alloc_fits(pre: BumpAllocator, size: usize, align: usize) -> bool {
    bump_alloc_start(pre, align) + size <= pre.heap_top()
}

/// What `allocate(size, align)` does: on success the block starts at the
/// aligned bump pointer, the pointer moves past the block and the count of
/// live allocations grows by one; on failure it returns 0 and changes nothing.
pub open spec fn bump_alloc_effect(
    pre: BumpAllocator,
    size: usize,
    align: usize,
    post: BumpAllocator,
    ptr: usize,
) -> bool {
    &&& post.heap_bottom() == pre.heap_bottom()
    &&& post.heap_top() == pre.heap_top()
    &&& if bump_alloc_fits(pre, size, align) {
        &&& ptr == bump_alloc_start(pre, align)
        &&& post.next_free() == ptr + size
        &&& post.live_allocations() == pre.live_allocations() + 1
    } else {
        &&& ptr == 0
        &&& post.next_free() == pre.next_free()
        &&& post.live_allocations() == pre.live_allocations()
    }
}

/// What `deallocate` does: one allocation fewer; when none is left the bump
/// pointer returns to the bottom of the heap.
pub open spec fn bump_dealloc_effect(pre: BumpAllocator, post: BumpAllocator) -> bool {
    &&& post.heap_bottom() == pre.heap_bottom()
    &&& post.heap_top() == pre.heap_top()
    &&& post.live_allocations() == pre.live_allocations() - 1
    &&& post.next_free() == if post.live_allocations() == 0 {
        pre.heap_bottom()
    } else {
        pre.next_free()
    }
}

impl BumpAllocator {
    /// The bump pointer.
    pub fn next_addr(&self) -> (n: usize)
        ensures
            n == self.next_free(),
    {
        self.next
    }

    /// Number of allocations not yet freed.
    pub fn allocation_count(&self) -> (n: usize)
        ensures
            n == self.live_allocations(),
    {
        self.allocations
    }

    /// Whether `allocate(size, align)` would succeed.
    pub fn fits(&self, size: usize, align: usize) -> (b: bool)
        requires
            align > 0,
            self.next_free() + align <= usize::MAX,
        ensures
            b == bump_alloc_fits(*self, size, align),
    {
        let alloc_start = align_up(self.next, align);
        match alloc_start.checked_add(size) {
            Some(end) => end <= self.heap_end,
            None => false,
        }
    }

    /// Allocates `size` bytes aligned to `align`; returns the start address,
    /// or 0 (a null pointer) when the block does not fit in the heap.
    pub fn allocate(&mut self, size: usize, align: usize) -> (ptr: usize)
        requires
            old(self).wf(),
            align > 0,
            old(self).next_free() + align <= usize::MAX,
            bump_alloc_fits(*old(self), size, align) ==> old(self).live_allocations() < usize::MAX,
        ensures
            final(self).wf(),
            bump_alloc_effect(*old(self), size, align, *final(self), ptr),
    {
        let alloc_start = align_up(self.next, align);
        let alloc_end = match alloc_start.checked_add(size) {
            Some(end) => end,
            None => return 0,
        };
        if alloc_end > self.heap_end {
            0
        } else {
            self.next = alloc_end;
            self.allocations = self.allocations + 1;
            alloc_start
        }
    }

    /// Frees one allocation; once none is left the whole heap is reusable.
    pub fn deallocate(&mut self)
        requires
            old(self).wf(),
            old(self).live_allocations() > 0,
        ensures
            final(self).wf(),
            bump_dealloc_effect(*old(self), *final(self)),
    {
        self.allocations = self.allocations - 1;
        if self.allocations == 0 {
            self.next = self.heap_start;
        }
    }
}

/// A successful allocation lies inside the heap, at or above the bump
/// pointer, and is aligned as asked when the alignment is a power of two.
pub proof fn lemma_bump_block_within_heap(
    pre: BumpAllocator,
    size: usize,
    align: usize,
    post: BumpAllocator,
    ptr: usize,
)
    requires
        pre.wf(),
        align > 0,
        pre.next_free() + align <= usize::MAX,
        bump_alloc_effect(pre, size, align, post, ptr),
        bump_alloc_fits(pre, size, align),
    ensures
        pre.heap_bottom() <= pre.next_free() <= ptr,
        ptr + size == post.next_free() <= post.heap_top(),
        is_power_of_two(align as int) ==> ptr % align == 0,
{
    lemma_align_up_bits(pre.next_free() as usize, align);
    lemma_round_up_multiple(pre.next_free(), align as int);
}

/// Two allocations in a row do not overlap: the second starts at or after
/// the end of the first.
pub proof fn lemma_bump_successive_blocks_disjoint(
    s0: BumpAllocator,
    size1: usize,
    align1: usize,
    s1: BumpAllocator,
    ptr1: usize,
    size2: usize,
    align2: usize,
    s2: BumpAllocator,
    ptr2: usize,
)
    requires
        s0.wf(),
        align1 > 0,
        align2 > 0,
        s0.next_free() + align1 <= usize::MAX,
        s1.next_free() + align2 <= usize::MAX,
        bump_alloc_effect(s0, size1, align1, s1, ptr1),
        bump_alloc_fits(s0, size1, align1),
        bump_alloc_effect(s1, size2, align2, s2, ptr2),
        bump_alloc_fits(s1, size2, align2),
    ensures
        ptr1 + size1 <= ptr2,
{
    lemma_align_up_bits(s0.next_free() as usize, align1);
    lemma_align_up_bits(s1.next_free() as usize, align2);
}

/// On an allocator with nothing allocated and its bump pointer at the bottom
/// of the heap, an allocation followed by its deallocation gives back the
/// allocator as it was.
pub proof fn lemma_bump_allocate_then_deallocate_restores(
    s0: BumpAllocator,
    size: usize,
    align: usize,
    s1: BumpAllocator,
    ptr: usize,
    s2: BumpAllocator,
)
    requires
        s0.wf(),
        s0.live_allocations() == 0,
        s0.next_free() == s0.heap_bottom(),
        bump_alloc_effect(s0, size, align, s1, ptr),
        bump_alloc_fits(s0, size, align),
        bump_dealloc_effect(s1, s2),
    ensures
        s2.heap_bottom() == s0.heap_bottom(),
        s2.heap_top() == s0.heap_top(),
        s2.next_free() == s0.next_free(),
        s2.live_allocations() == s0.live_allocations(),
{
}

/// After `j` of the frees that follow an allocation, fewer than were live
/// before it, the count is down by `j` and the bump pointer has not moved.
proof fn lemma_frees_keep_pointer(
    s0: BumpAllocator,
    s1: BumpAllocator,
    ptr: usize,
    size: usize,
    frees: Seq<BumpAllocator>,
    j: int,
)
    requires
        0 <= j < frees.len(),
        frees.len() - 1 <= s0.live_allocations(),
        frees[0] == s1,
        s1.live_allocations() == s0.live_allocations() + 1,
        s1.next_free() == ptr + size,
        forall|i: int| 0 <= i < frees.len() - 1 ==> bump_dealloc_effect(#[trigger] frees[i], frees[i + 1]),
    ensures
        frees[j].live_allocations() == s0.live_allocations() + 1 - j,
        frees[j].next_free() == s1.next_free(),
    decreases j,
{
    if j > 0 {
        lemma_frees_keep_pointer(s0, s1, ptr, size, frees, j - 1);
        assert(bump_dealloc_effect(frees[j - 1], frees[j]));
    }
}

/// Every allocation counts: after a successful allocation, as many frees
/// as there were allocations live before it leave that allocation live, so
/// the bump pointer is not reset and stays at or past the end of its block;
/// each free lowers the count by exactly one from one above where it was.
pub proof fn lemma_bump_frees_after_allocate_do_not_reset(
    s0: BumpAllocator,
    size: usize,
    align: usize,
    s1: BumpAllocator,
    ptr: usize,
    frees: Seq<BumpAllocator>,
)
    requires
        bump_alloc_effect(s0, size, align, s1, ptr),
        bump_alloc_fits(s0, size, align),
        frees.len() >= 1,
        frees[0] == s1,
        frees.len() - 1 <= s0.live_allocations(),
        forall|j: int| 0 <= j < frees.len() - 1 ==> bump_dealloc_effect(#[trigger] frees[j], frees[j + 1]),
    ensures
        frees.last().live_allocations() == s0.live_allocations() + 1 - (frees.len() - 1),
        frees.last().next_free() == s1.next_free(),
        frees.last().next_free() == ptr + size,
{
    lemma_frees_keep_pointer(s0, s1, ptr, size, frees, frees.len() - 1);
}

} // verus!
