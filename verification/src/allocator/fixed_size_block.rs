use vstd::prelude::*;
use linked_list_allocator::Heap;
use vstd::arithmetic::power2::{pow2, lemma2_to64};
use super::is_power_of_two;

verus! {

/// linked_list_allocator's heap, used as the fallback allocator.
#[verifier::external_type_specification]
#[verifier::external_body]
pub struct ExHeap(Heap);

/// The free memory a linked_list_allocator heap manages, as its holes
/// `(start, size)` in list order.
pub uninterp spec fn heap_holes(heap: Heap) -> Seq<(int, int)>;

/// The size of the memory a linked_list_allocator heap was given.
pub uninterp spec fn heap_size(heap: Heap) -> nat;

/// An empty linked_list_allocator heap, from `Heap::empty`. Trusted: its
/// source builds a heap of size 0 whose hole list holds no hole, so every
/// allocation from it fails.
pub assume_specification[ linked_list_allocator::Heap::empty ]() -> (heap: Heap)
    ensures
        heap_size(heap) == 0,
        heap_holes(heap) == Seq::<(int, int)>::empty(),
;

/// Number of block sizes, one free list each.
pub const NUM_BLOCK_SIZES: usize = 9;

/// The block sizes, one free list each. They must be powers of two.
pub const BLOCK_SIZES: [usize; NUM_BLOCK_SIZES] = [8, 16, 32, 64, 128, 256, 512, 1024, 2048];

/// Every block size is a power of two, and there is one per list.
pub proof fn lemma_block_sizes_are_powers_of_two()
    ensures
        BLOCK_SIZES@.len() == NUM_BLOCK_SIZES,
        forall|i: int| 0 <= i < NUM_BLOCK_SIZES ==> is_power_of_two(#[trigger] BLOCK_SIZES@[i] as int),
{
    lemma2_to64();
    assert forall|i: int| 0 <= i < NUM_BLOCK_SIZES implies is_power_of_two(#[trigger] BLOCK_SIZES@[i] as int) by {
        assert(BLOCK_SIZES@[i] as int == pow2((i + 3) as nat));
    }
}

/// An allocator with one list of free blocks per block size, and a
/// linked_list_allocator heap for everything else.
pub struct FixedSizeBlockAllocator {
    list_heads: [Option<usize>; NUM_BLOCK_SIZES],
    fallback_allocator: Heap,
}

impl FixedSizeBlockAllocator {
    /// Head of each block-size list: the address of its first free block.
    pub closed spec fn list_heads(&self) -> Seq<Option<usize>> {
        self.list_heads@
    }

    /// The fallback heap.
    pub closed spec fn fallback(&self) -> Heap {
        self.fallback_allocator
    }

    /// An allocator with every block list empty and an empty fallback heap.
    pub fn new() -> (a: Self)
        ensures
            a.list_heads().len() == NUM_BLOCK_SIZES,
            forall|i: int| 0 <= i < NUM_BLOCK_SIZES ==> #[trigger] a.list_heads()[i] is None,
            heap_size(a.fallback()) == 0,
            heap_holes(a.fallback()) == Seq::<(int, int)>::empty(),
    {
        FixedSizeBlockAllocator {
            list_heads: [None; NUM_BLOCK_SIZES],
            fallback_allocator: Heap::empty(),
        }
    }

    /// The fallback heap, to be initialised with the heap's bounds; the block
    /// lists stay as they are.
    pub fn fallback_allocator_mut(&mut self) -> (heap: &mut Heap)
        ensures
            *heap == old(self).fallback(),
            final(self).list_heads() == old(self).list_heads(),
            final(self).fallback() == *final(heap),
    {
        &mut self.fallback_allocator
    }
}

} // verus!
