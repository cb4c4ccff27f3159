use vstd::prelude::*;
use vstd::arithmetic::power2::{pow2, lemma2_to64};
use super::{align_up, align_up_bits, is_power_of_two, round_up, lemma_align_up_bits, lemma_round_up_multiple};

verus! {

/// Size in bytes of a free-list node (a size word and a link) on x86_64;
/// no free region may be smaller.
pub const NODE_SIZE: usize = 16;

/// Alignment of a free-list node on x86_64; every free region starts at a
/// multiple of it.
pub const NODE_ALIGN: usize = 8;

/// A free memory region: `size` bytes starting at `start`.
struct ListNode {
    start: usize,
    size: usize,
}

impl View for ListNode {
    type V = (int, int);

    closed spec fn view(&self) -> (int, int) {
        (self.start as int, self.size as int)
    }
}

impl ListNode {
    /// A region of `size` bytes at `start`.
    fn new(start: usize, size: usize) -> (n: ListNode)
        ensures
            n@ == (start as int, size as int),
    {
        ListNode { start, size }
    }

    /// First address of the region.
    fn start_addr(&self) -> (a: usize)
        ensures
            a == self@.0,
    {
        self.start
    }

    /// One past the last address of the region.
    fn end_addr(&self) -> (a: usize)
        requires
            self@.0 + self@.1 <= usize::MAX,
        ensures
            a == self@.0 + self@.1,
    {
        self.start + self.size
    }
}

/// A free region as `(start, size)` may hold a node: it is node-aligned, at
/// least node-sized and does not run past the end of the address space.
pub open spec fn region_ok(r: (int, int)) -> bool {
    &&& 0 <= r.0
    &&& r.0 % NODE_ALIGN as int == 0
    &&& r.1 >= NODE_SIZE
    &&& r.0 + r.1 <= usize::MAX
}

/// Every region of the free list may hold a node.
pub open spec fn free_list_ok(rs: Seq<(int, int)>) -> bool {
    forall|i: int| 0 <= i < rs.len() ==> region_ok(#[trigger] rs[i])
}

/// Where a block of alignment `align` would start inside region `r`.
pub open spec fn region_alloc_start(r: (int, int), align: int) -> int {
    align_up_bits(r.0 as usize, align as usize) as int
}

/// A block of `size` bytes aligned to `align` can be cut from the region:
/// it fits, and what remains behind it is either nothing or large enough to
/// hold a node.
pub open spec fn region_fits(r: (int, int), size: int, align: int) -> bool {
    let start = region_alloc_start(r, align);
    let excess = r.0 + r.1 - (start + size);
    &&& r.0 + align <= usize::MAX
    &&& start + size <= r.0 + r.1
    &&& (excess == 0 || excess >= NODE_SIZE)
}

/// Region `i` is the first of the list that fits the block.
pub open spec fn first_fit(rs: Seq<(int, int)>, i: int, size: int, align: int) -> bool {
    &&& 0 <= i < rs.len()
    &&& region_fits(rs[i], size, align)
    &&& forall|k: int| 0 <= k < i ==> !region_fits(#[trigger] rs[k], size, align)
}

/// Some region of the list fits the block.
pub open spec fn some_fit(rs: Seq<(int, int)>, size: int, align: int) -> bool {
    exists|i: int| first_fit(rs, i, size, align)
}

/// The search for a fitting region does not overflow: rounding a region's
/// start up to `align` only overflows past a region that fits.
pub open spec fn scan_safe(rs: Seq<(int, int)>, size: int, align: int) -> bool {
    forall|j: int|
        0 <= j < rs.len() && rs[j].0 + align > usize::MAX ==> exists|k: int|
            0 <= k < j && region_fits(#[trigger] rs[k], size, align)
}

/// The free list after a block is cut from region `i`: the region leaves
/// the list, and what remains behind the block goes to its front.
pub open spec fn list_after_cut(rs: Seq<(int, int)>, i: int, size: int, align: int) -> Seq<
    (int, int),
> {
    let r = rs[i];
    let end = region_alloc_start(r, align) + size;
    let excess = r.0 + r.1 - end;
    if excess > 0 {
        seq![(end, excess)] + rs.remove(i)
    } else {
        rs.remove(i)
    }
}

/// The alignment a request gets: at least that of a node.
pub open spec fn adjusted_align(align: int) -> int {
    if align > NODE_ALIGN {
        align
    } else {
        NODE_ALIGN as int
    }
}

/// The size a request gets: padded to its adjusted alignment and at least
/// the size of a node, so that the block can later hold one.
pub open spec fn adjusted_size(size: int, align: int) -> int {
    let s = round_up(size, adjusted_align(align));
    if s > NODE_SIZE {
        s
    } else {
        NODE_SIZE as int
    }
}

/// A layout `(size, align)` that `size_align` accepts: a power-of-two
/// alignment, and a size that, rounded up to the adjusted alignment, stays
/// within `isize::MAX`.
pub open spec fn layout_ok(size: int, align: int) -> bool {
    &&& is_power_of_two(align)
    &&& size >= 0
    &&& size + adjusted_align(align) - 1 <= isize::MAX
}

/// What `allocate(size, align)` does to the free list `pre`, giving `post`
/// and the address `ptr`: the first region that fits the adjusted request
/// is cut, or, when none fits, nothing changes and the result is 0.
pub open spec fn allocate_effect(
    pre: Seq<(int, int)>,
    size: int,
    align: int,
    post: Seq<(int, int)>,
    ptr: int,
) -> bool {
    let s = adjusted_size(size, align);
    let a = adjusted_align(align);
    if some_fit(pre, s, a) {
        let i = choose|i: int| first_fit(pre, i, s, a);
        &&& ptr == region_alloc_start(pre[i], a)
        &&& post == list_after_cut(pre, i, s, a)
    } else {
        &&& ptr == 0
        &&& post == pre
    }
}

/// An allocator that keeps its free memory as a list of regions and hands
/// out the first region that fits.
pub struct LinkedListAllocator {
    regions: Vec<ListNode>,
}

/// A power of two of at least 8 is a multiple of 8.
pub proof fn lemma_pow2_at_least_8_multiple_of_8(a: int)
    requires
        is_power_of_two(a),
        a >= NODE_ALIGN,
    ensures
        a % NODE_ALIGN as int == 0,
{
    let k = choose|k: nat| k < usize::BITS && a == #[trigger] pow2(k);
    lemma2_to64();
    if k < 3 {
        assert(pow2(k) < 8);
    }
    vstd::arithmetic::power2::lemma_pow2_adds((k - 3) as nat, 3);
    vstd::arithmetic::div_mod::lemma_mod_multiples_basic(pow2((k - 3) as nat) as int, 8);
}

/// A multiple of a multiple of `b` is a multiple of `b`.
pub proof fn lemma_multiple_of_multiple(x: int, a: int, b: int)
    requires
        a > 0,
        b > 0,
        x % a == 0,
        a % b == 0,
    ensures
        x % b == 0,
{
    vstd::arithmetic::div_mod::lemma_fundamental_div_mod(x, a);
    vstd::arithmetic::div_mod::lemma_fundamental_div_mod(a, b);
    let q = x / a;
    let r = a / b;
    assert(x == b * (q * r)) by (nonlinear_arith)
        requires x == a * q + x % a, x % a == 0, a == b * r + a % b, a % b == 0;
    vstd::arithmetic::div_mod::lemma_mod_multiples_basic(q * r, b);
    assert(b * (q * r) == (q * r) * b) by (nonlinear_arith);
}

/// Taking region `i` off the list loses no other region and duplicates
/// none: the remaining regions and region `i` are, as a multiset, the list.
pub proof fn lemma_remove_keeps_other_regions(rs: Seq<(int, int)>, i: int)
    requires
        0 <= i < rs.len(),
    ensures
        rs.remove(i).to_multiset().insert(rs[i]) == rs.to_multiset(),
{
    broadcast use vstd::multiset::group_multiset_axioms;
    vstd::seq_lib::to_multiset_remove(rs, i);
    vstd::seq_lib::to_multiset_contains(rs, rs[i]);
    assert(rs.contains(rs[i]));
    assert(rs.remove(i).to_multiset().insert(rs[i]) =~= rs.to_multiset());
}

/// There is at most one first fit.
pub proof fn lemma_first_fit_unique(rs: Seq<(int, int)>, size: int, align: int, i: int)
    requires
        first_fit(rs, i, size, align),
    ensures
        forall|j: int| first_fit(rs, j, size, align) ==> j == i,
{
}

impl LinkedListAllocator {
    /// The free regions as `(start, size)`, front of the list first.
    pub closed spec fn free_list(&self) -> Seq<(int, int)> {
        self.regions@.map_values(|n: ListNode| n@)
    }

    /// An allocator with no free memory.
    pub fn new() -> (a: Self)
        ensures
            free_list_ok(a.free_list()),
            a.free_list() == Seq::<(int, int)>::empty(),
    {
        LinkedListAllocator { regions: Vec::new() }
    }

    /// Hands the heap `[heap_start, heap_start + heap_size)` to the allocator.
    /// Meant to be called once, with an unused heap.
    pub fn init(&mut self, heap_start: usize, heap_size: usize)
        requires
            free_list_ok(old(self).free_list()),
            region_ok((heap_start as int, heap_size as int)),
        ensures
            free_list_ok(final(self).free_list()),
            final(self).free_list() == seq![(heap_start as int, heap_size as int)] + old(
                self,
            ).free_list(),
    {
        self.add_free_region(heap_start, heap_size);
    }

    /// Puts the region `[addr, addr + size)` at the front of the free list.
    /// The region must be able to hold a node.
    fn add_free_region(&mut self, addr: usize, size: usize)
        requires
            free_list_ok(old(self).free_list()),
            region_ok((addr as int, size as int)),
        ensures
            free_list_ok(final(self).free_list()),
            final(self).free_list() == seq![(addr as int, size as int)] + old(self).free_list(),
    {
        let node = ListNode::new(addr, size);
        self.regions.insert(0, node);
        proof {
            assert(self.free_list() =~= seq![(addr as int, size as int)] + old(self).free_list());
        }
    }

    /// Where a block of `size` bytes aligned to `align` starts in `region`,
    /// or `Err` when it does not fit there.
    fn alloc_from_region(region: &ListNode, size: usize, align: usize) -> (res: Result<
        usize,
        (),
    >)
        requires
            align > 0,
            region_ok(region@),
            region@.0 + align <= usize::MAX,
        ensures
            res is Ok <==> region_fits(region@, size as int, align as int),
            res matches Ok(start) ==> start == region_alloc_start(region@, align as int),
    {
        let alloc_start = align_up(region.start_addr(), align);
        let alloc_end = match alloc_start.checked_add(size) {
            Some(end) => end,
            None => return Err(()),
        };
        if alloc_end > region.end_addr() {
            return Err(());
        }
        let excess_size = region.end_addr() - alloc_end;
        if excess_size > 0 && excess_size < NODE_SIZE {
            return Err(());
        }
        Ok(alloc_start)
    }

    /// Finds the first region that fits a block of `size` bytes aligned to
    /// `align`, takes it off the list and returns it with the block's start.
    fn find_region(&mut self, size: usize, align: usize) -> (res: Option<(ListNode, usize)>)
        requires
            align > 0,
            free_list_ok(old(self).free_list()),
            scan_safe(old(self).free_list(), size as int, align as int),
        ensures
            free_list_ok(final(self).free_list()),
            match res {
                Some((node, start)) => exists|i: int|
                    {
                        &&& first_fit(old(self).free_list(), i, size as int, align as int)
                        &&& node@ == old(self).free_list()[i]
                        &&& start == region_alloc_start(node@, align as int)
                        &&& final(self).free_list() == old(self).free_list().remove(i)
                        &&& final(self).free_list().to_multiset().insert(node@) == old(
                            self,
                        ).free_list().to_multiset()
                    },
                None => {
                    &&& !some_fit(old(self).free_list(), size as int, align as int)
                    &&& final(self).free_list() == old(self).free_list()
                },
            },
    {
        let ghost rs = self.free_list();
        let mut i: usize = 0;
        while i < self.regions.len()
            invariant
                align > 0,
                rs == self.free_list(),
                rs == old(self).free_list(),
                free_list_ok(rs),
                scan_safe(rs, size as int, align as int),
                i <= rs.len(),
                forall|k: int| 0 <= k < i ==> !region_fits(#[trigger] rs[k], size as int, align as int),
            decreases self.regions.len() - i,
        {
            proof {
                assert(rs[i as int] == self.regions@[i as int]@);
                assert(region_ok(rs[i as int]));
                if rs[i as int].0 + align > usize::MAX {
                    let k = choose|k: int| 0 <= k < i && region_fits(#[trigger] rs[k], size as int, align as int);
                    assert(!region_fits(rs[k], size as int, align as int));
                }
            }
            match Self::alloc_from_region(&self.regions[i], size, align) {
                Ok(alloc_start) => {
                    let region = self.regions.remove(i);
                    proof {
                        assert(first_fit(rs, i as int, size as int, align as int));
                        assert(region@ == rs[i as int]);
                        assert(self.free_list() =~= rs.remove(i as int));
                        assert forall|j: int| 0 <= j < self.free_list().len() implies region_ok(
                            #[trigger] self.free_list()[j],
                        ) by {
                            if j < i {
                                assert(self.free_list()[j] == rs[j]);
                            } else {
                                assert(self.free_list()[j] == rs[j + 1]);
                            }
                        }
                        assert(self.free_list() == rs.remove(i as int));
                        lemma_remove_keeps_other_regions(rs, i as int);
                    }
                    return Some((region, alloc_start));
                },
                Err(()) => {
                    i = i + 1;
                },
            }
        }
        proof {
            assert forall|j: int| first_fit(rs, j, size as int, align as int) implies false by {
                assert(!region_fits(rs[j], size as int, align as int));
            }
        }
        None
    }

    /// The size and alignment actually used for a request of `size` bytes
    /// aligned to `align`: the alignment is raised to that of a node, the
    /// size padded to it and raised to the size of a node.
    fn size_align(size: usize, align: usize) -> (res: (usize, usize))
        requires
            layout_ok(size as int, align as int),
        ensures
            res.0 == adjusted_size(size as int, align as int),
            res.1 == adjusted_align(align as int),
            is_power_of_two(res.1 as int),
            res.0 % NODE_ALIGN == 0,
            res.1 % NODE_ALIGN == 0,
    {
        let new_align = if align > NODE_ALIGN {
            align
        } else {
            NODE_ALIGN
        };
        proof {
            lemma2_to64();
            if align <= NODE_ALIGN {
                assert(NODE_ALIGN as int == pow2(3));
            }
            lemma_pow2_at_least_8_multiple_of_8(new_align as int);
        }
        let padded = align_up(size, new_align);
        proof {
            lemma_round_up_multiple(size as int, new_align as int);
            lemma_multiple_of_multiple(padded as int, new_align as int, NODE_ALIGN as int);
        }
        let new_size = if padded > NODE_SIZE {
            padded
        } else {
            NODE_SIZE
        };
        (new_size, new_align)
    }

    /// Allocates `size` bytes aligned to `align` from the first free region
    /// that fits; what remains behind the block goes back to the front of the
    /// list. Returns the block's address, or 0 (a null pointer) when no
    /// region fits.
    pub fn allocate(&mut self, size: usize, align: usize) -> (ptr: usize)
        requires
            free_list_ok(old(self).free_list()),
            layout_ok(size as int, align as int),
            scan_safe(
                old(self).free_list(),
                adjusted_size(size as int, align as int),
                adjusted_align(align as int),
            ),
        ensures
            free_list_ok(final(self).free_list()),
            allocate_effect(old(self).free_list(), size as int, align as int, final(self).free_list(), ptr as int),
    {
        let ghost rs = self.free_list();
        let (adj_size, adj_align) = Self::size_align(size, align);
        match self.find_region(adj_size, adj_align) {
            Some((region, alloc_start)) => {
                let ghost i = choose|i: int|
                    {
                        &&& first_fit(rs, i, adj_size as int, adj_align as int)
                        &&& region@ == rs[i]
                        &&& alloc_start == region_alloc_start(region@, adj_align as int)
                        &&& self.free_list() == rs.remove(i)
                    };
                proof {
                    lemma_align_up_bits(region@.0 as usize, adj_align);
                    lemma_round_up_multiple(region@.0, adj_align as int);
                    lemma_multiple_of_multiple(alloc_start as int, adj_align as int, NODE_ALIGN as int);
                    lemma_first_fit_unique(rs, adj_size as int, adj_align as int, i);
                }
                let alloc_end = alloc_start + adj_size;
                let excess_size = region.end_addr() - alloc_end;
                if excess_size > 0 {
                    self.add_free_region(alloc_end, excess_size);
                }
                alloc_start
            },
            None => 0,
        }
    }

    /// Gives the block at `ptr` of a request of `size` bytes aligned to
    /// `align` back: it goes to the front of the free list, with the size
    /// that `allocate` used for it.
    pub fn deallocate(&mut self, ptr: usize, size: usize, align: usize)
        requires
            free_list_ok(old(self).free_list()),
            layout_ok(size as int, align as int),
            ptr % NODE_ALIGN == 0,
            ptr + adjusted_size(size as int, align as int) <= usize::MAX,
        ensures
            free_list_ok(final(self).free_list()),
            final(self).free_list() == seq![(ptr as int, adjusted_size(size as int, align as int))]
                + old(self).free_list(),
    {
        let (adj_size, _) = Self::size_align(size, align);
        self.add_free_region(ptr, adj_size);
    }
}

/// No two regions of the list overlap.
pub open spec fn regions_disjoint(rs: Seq<(int, int)>) -> bool {
    forall|i: int, j: int|
        0 <= i < rs.len() && 0 <= j < rs.len() && i != j ==> #[trigger] rs[i].0 + rs[i].1 <= #[trigger] rs[j].0
            || rs[j].0 + rs[j].1 <= rs[i].0
}

/// Address `a` lies in some region of the list.
pub open spec fn covered(rs: Seq<(int, int)>, a: int) -> bool {
    exists|i: int| 0 <= i < rs.len() && #[trigger] rs[i].0 <= a < rs[i].0 + rs[i].1
}

/// A power of two is a multiple of every power of two not above it.
pub proof fn lemma_pow2_divides(a: int, b: int)
    requires
        is_power_of_two(a),
        is_power_of_two(b),
        b <= a,
    ensures
        b > 0,
        a % b == 0,
{
    let j = choose|j: nat| j < usize::BITS && a == #[trigger] pow2(j);
    let k = choose|k: nat| k < usize::BITS && b == #[trigger] pow2(k);
    if j < k {
        vstd::arithmetic::power2::lemma_pow2_strictly_increases(j, k);
    }
    vstd::arithmetic::power2::lemma_pow2_adds((j - k) as nat, k);
    vstd::arithmetic::power2::lemma_pow2_pos(k);
    vstd::arithmetic::div_mod::lemma_mod_multiples_basic(pow2((j - k) as nat) as int, b);
}

/// A successful `allocate` returns a block that is aligned as asked, at
/// least as large as asked, and lies inside a region that was free.
pub proof fn lemma_allocated_block_in_free_region(
    pre: Seq<(int, int)>,
    size: int,
    align: int,
    post: Seq<(int, int)>,
    ptr: int,
)
    requires
        free_list_ok(pre),
        layout_ok(size, align),
        allocate_effect(pre, size, align, post, ptr),
        some_fit(pre, adjusted_size(size, align), adjusted_align(align)),
    ensures
        ptr % align == 0,
        adjusted_size(size, align) >= size,
        exists|i: int|
            0 <= i < pre.len() && #[trigger] pre[i].0 <= ptr && ptr + adjusted_size(size, align)
                <= pre[i].0 + pre[i].1,
{
    let s = adjusted_size(size, align);
    let a = adjusted_align(align);
    let i = choose|i: int| first_fit(pre, i, s, a);
    lemma2_to64();
    if align <= NODE_ALIGN {
        assert(NODE_ALIGN as int == pow2(3));
    }
    lemma_align_up_bits(pre[i].0 as usize, a as usize);
    lemma_round_up_multiple(pre[i].0, a);
    lemma_pow2_divides(a, align);
    lemma_multiple_of_multiple(ptr, a, align);
    lemma_align_up_bits(size as usize, a as usize);
    assert(pre[i].0 <= ptr && ptr + s <= pre[i].0 + pre[i].1);
}

/// `allocate` keeps the free regions apart: if they did not overlap before,
/// they do not after; the returned block overlaps none of them; and no
/// address becomes free that was not free before.
pub proof fn lemma_allocate_keeps_regions_disjoint(
    pre: Seq<(int, int)>,
    size: int,
    align: int,
    post: Seq<(int, int)>,
    ptr: int,
)
    requires
        free_list_ok(pre),
        layout_ok(size, align),
        regions_disjoint(pre),
        allocate_effect(pre, size, align, post, ptr),
    ensures
        regions_disjoint(post),
        forall|x: int| covered(post, x) ==> covered(pre, x),
        some_fit(pre, adjusted_size(size, align), adjusted_align(align)) ==> forall|x: int|
            ptr <= x < ptr + adjusted_size(size, align) ==> !covered(post, x),
{
    let s = adjusted_size(size, align);
    let a = adjusted_align(align);
    if some_fit(pre, s, a) {
        let i = choose|i: int| first_fit(pre, i, s, a);
        let r = pre[i];
        let end = region_alloc_start(r, a) + s;
        let excess = r.0 + r.1 - end;
        lemma_allocated_block_in_free_region(pre, size, align, post, ptr);
        lemma_align_up_bits(r.0 as usize, a as usize);
        let rest = pre.remove(i);
        assert forall|j: int| 0 <= j < rest.len() implies (rest[j] == pre[if j < i { j } else { j + 1 }]
            && (if j < i { j } else { j + 1 }) != i) by {}
        assert(regions_disjoint(rest)) by {
            assert forall|p: int, q: int|
                0 <= p < rest.len() && 0 <= q < rest.len() && p != q implies #[trigger] rest[p].0
                + rest[p].1 <= #[trigger] rest[q].0 || rest[q].0 + rest[q].1 <= rest[p].0 by {
                let pp = if p < i { p } else { p + 1 };
                let qq = if q < i { q } else { q + 1 };
                assert(rest[p] == pre[pp]);
                assert(rest[q] == pre[qq]);
                assert(pre[pp].0 + pre[pp].1 <= pre[qq].0 || pre[qq].0 + pre[qq].1 <= pre[pp].0);
            }
        }
        assert forall|j: int| 0 <= j < rest.len() implies #[trigger] rest[j].0 + rest[j].1 <= r.0
            || r.0 + r.1 <= rest[j].0 by {
            let jj = if j < i { j } else { j + 1 };
            assert(rest[j] == pre[jj]);
            assert(pre[jj].0 + pre[jj].1 <= pre[i].0 || pre[i].0 + pre[i].1 <= pre[jj].0);
        }
        assert forall|x: int| covered(rest, x) implies covered(pre, x) by {
            let j = choose|j: int| 0 <= j < rest.len() && #[trigger] rest[j].0 <= x < rest[j].0 + rest[j].1;
            let jj = if j < i { j } else { j + 1 };
            assert(rest[j] == pre[jj]);
        }
        assert forall|x: int| ptr <= x < ptr + s implies !covered(rest, x) by {
            if covered(rest, x) {
                let j = choose|j: int| 0 <= j < rest.len() && #[trigger] rest[j].0 <= x < rest[j].0 + rest[j].1;
                assert(rest[j].0 + rest[j].1 <= r.0 || r.0 + r.1 <= rest[j].0);
            }
        }
        if excess > 0 {
            let e = (end, excess);
            assert(post == seq![e] + rest);
            assert forall|j: int| 0 <= j < rest.len() implies post[j + 1] == rest[j] by {}
            assert(post[0] == e);
            assert(regions_disjoint(post)) by {
                assert forall|p: int, q: int|
                    0 <= p < post.len() && 0 <= q < post.len() && p != q implies #[trigger] post[p].0
                    + post[p].1 <= #[trigger] post[q].0 || post[q].0 + post[q].1 <= post[p].0 by {
                    if p == 0 {
                        assert(post[q] == rest[q - 1]);
                        assert(rest[q - 1].0 + rest[q - 1].1 <= r.0 || r.0 + r.1 <= rest[q - 1].0);
                    } else if q == 0 {
                        assert(post[p] == rest[p - 1]);
                        assert(rest[p - 1].0 + rest[p - 1].1 <= r.0 || r.0 + r.1 <= rest[p - 1].0);
                    } else {
                        assert(post[p] == rest[p - 1]);
                        assert(post[q] == rest[q - 1]);
                    }
                }
            }
            assert forall|x: int| covered(post, x) implies covered(pre, x) by {
                let j = choose|j: int| 0 <= j < post.len() && #[trigger] post[j].0 <= x < post[j].0 + post[j].1;
                if j == 0 {
                    assert(pre[i].0 <= x < pre[i].0 + pre[i].1);
                } else {
                    assert(post[j] == rest[j - 1]);
                    assert(covered(rest, x));
                }
            }
            assert forall|x: int| ptr <= x < ptr + s implies !covered(post, x) by {
                if covered(post, x) {
                    let j = choose|j: int| 0 <= j < post.len() && #[trigger] post[j].0 <= x < post[j].0 + post[j].1;
                    if j > 0 {
                        assert(post[j] == rest[j - 1]);
                        assert(covered(rest, x));
                    }
                }
            }
        } else {
            assert(post == rest);
        }
    } else {
        assert(post == pre);
    }
}

/// Freeing what was just allocated gives back every address that was free,
/// when the region the block came from already started at the required
/// alignment (otherwise the bytes skipped to align the block stay lost).
pub proof fn lemma_allocate_then_deallocate_restores_free_memory(
    pre: Seq<(int, int)>,
    size: int,
    align: int,
    mid: Seq<(int, int)>,
    ptr: int,
    post: Seq<(int, int)>,
)
    requires
        free_list_ok(pre),
        layout_ok(size, align),
        allocate_effect(pre, size, align, mid, ptr),
        some_fit(pre, adjusted_size(size, align), adjusted_align(align)),
        ({
            let i = choose|i: int| first_fit(pre, i, adjusted_size(size, align), adjusted_align(align));
            pre[i].0 % adjusted_align(align) == 0
        }),
        post == seq![(ptr, adjusted_size(size, align))] + mid,
    ensures
        forall|x: int| covered(post, x) <==> covered(pre, x),
{
    let s = adjusted_size(size, align);
    let a = adjusted_align(align);
    let i = choose|i: int| first_fit(pre, i, s, a);
    let r = pre[i];
    lemma2_to64();
    if align <= NODE_ALIGN {
        assert(NODE_ALIGN as int == pow2(3));
    }
    lemma_align_up_bits(r.0 as usize, a as usize);
    lemma_round_up_multiple(r.0, a);
    assert(ptr == r.0);
    let end = ptr + s;
    let excess = r.0 + r.1 - end;
    let rest = pre.remove(i);
    assert forall|j: int| 0 <= j < rest.len() implies rest[j] == pre[if j < i { j } else { j + 1 }] by {}
    assert forall|x: int| covered(post, x) implies covered(pre, x) by {
        let j = choose|j: int| 0 <= j < post.len() && #[trigger] post[j].0 <= x < post[j].0 + post[j].1;
        if j == 0 {
            assert(pre[i].0 <= x < pre[i].0 + pre[i].1);
        } else if excess > 0 && j == 1 {
            assert(mid[0] == (end, excess));
            assert(pre[i].0 <= x < pre[i].0 + pre[i].1);
        } else {
            let k = if excess > 0 { j - 2 } else { j - 1 };
            assert(post[j] == rest[k]);
            let kk = if k < i { k } else { k + 1 };
            assert(pre[kk].0 <= x < pre[kk].0 + pre[kk].1);
        }
    }
    assert forall|x: int| covered(pre, x) implies covered(post, x) by {
        let j = choose|j: int| 0 <= j < pre.len() && #[trigger] pre[j].0 <= x < pre[j].0 + pre[j].1;
        if j == i {
            if x < end {
                assert(post[0].0 <= x < post[0].0 + post[0].1);
            } else {
                assert(post[1] == mid[0]);
                assert(post[1].0 <= x < post[1].0 + post[1].1);
            }
        } else {
            let k = if j < i { j } else { j - 1 };
            assert(rest[k] == pre[j]);
            let jj = if excess > 0 { k + 2 } else { k + 1 };
            assert(post[jj] == rest[k]);
            assert(post[jj].0 <= x < post[jj].0 + post[jj].1);
        }
    }
}

/// Two allocations in a row, on a free list whose regions do not overlap,
/// return blocks that do not overlap.
pub proof fn lemma_successive_allocations_disjoint(
    s0: Seq<(int, int)>,
    size1: int,
    align1: int,
    s1: Seq<(int, int)>,
    ptr1: int,
    size2: int,
    align2: int,
    s2: Seq<(int, int)>,
    ptr2: int,
)
    requires
        free_list_ok(s0),
        regions_disjoint(s0),
        layout_ok(size1, align1),
        allocate_effect(s0, size1, align1, s1, ptr1),
        some_fit(s0, adjusted_size(size1, align1), adjusted_align(align1)),
        free_list_ok(s1),
        layout_ok(size2, align2),
        allocate_effect(s1, size2, align2, s2, ptr2),
        some_fit(s1, adjusted_size(size2, align2), adjusted_align(align2)),
    ensures
        ptr1 + adjusted_size(size1, align1) <= ptr2 || ptr2 + adjusted_size(size2, align2) <= ptr1,
{
    let n1 = adjusted_size(size1, align1);
    let n2 = adjusted_size(size2, align2);
    lemma_allocate_keeps_regions_disjoint(s0, size1, align1, s1, ptr1);
    lemma_allocated_block_in_free_region(s1, size2, align2, s2, ptr2);
    let j = choose|j: int|
        0 <= j < s1.len() && #[trigger] s1[j].0 <= ptr2 && ptr2 + n2 <= s1[j].0 + s1[j].1;
    if !(ptr1 + n1 <= ptr2 || ptr2 + n2 <= ptr1) {
        let x = if ptr1 <= ptr2 { ptr2 } else { ptr1 };
        assert(ptr1 <= x < ptr1 + n1);
        assert(s1[j].0 <= x < s1[j].0 + s1[j].1);
        assert(covered(s1, x));
    }
}

/// A block of `size` bytes aligned to `align` fits region `r`, said with
/// plain rounding: rounding the region's start up to `align` does not
/// overflow, the block ends within the region, and what remains behind it
/// is nothing or can hold a node.
pub open spec fn block_fits_region(r: (int, int), size: int, align: int) -> bool {
    let start = round_up(r.0, align);
    let rest = r.0 + r.1 - (start + size);
    &&& r.0 + align <= usize::MAX
    &&& start + size <= r.0 + r.1
    &&& (rest == 0 || rest >= NODE_SIZE as int)
}

/// For a power-of-two alignment the search's test of a region is the plain
/// one, and the block would start at the region's start rounded up.
pub proof fn lemma_region_fits_is_block_fits(r: (int, int), size: int, align: int)
    requires
        region_ok(r),
        is_power_of_two(align),
    ensures
        region_fits(r, size, align) <==> block_fits_region(r, size, align),
        r.0 + align <= usize::MAX ==> region_alloc_start(r, align) == round_up(r.0, align),
{
    lemma_pow2_divides(align, align);
    if r.0 + align <= usize::MAX {
        lemma_align_up_bits(r.0 as usize, align as usize);
    }
}

/// The adjusted alignment of a valid layout is a power of two.
pub proof fn lemma_adjusted_align_power_of_two(align: int)
    requires
        is_power_of_two(align),
    ensures
        is_power_of_two(adjusted_align(align)),
{
    lemma2_to64();
    if align <= NODE_ALIGN {
        assert(NODE_ALIGN as int == pow2(3));
    }
}

/// When some region fits, a first one does.
pub proof fn lemma_some_fit_from_any_fit(rs: Seq<(int, int)>, size: int, align: int, k: int)
    requires
        0 <= k < rs.len(),
        region_fits(rs[k], size, align),
    ensures
        some_fit(rs, size, align),
    decreases k,
{
    if exists|m: int| 0 <= m < k && region_fits(#[trigger] rs[m], size, align) {
        let m = choose|m: int| 0 <= m < k && region_fits(#[trigger] rs[m], size, align);
        lemma_some_fit_from_any_fit(rs, size, align, m);
    } else {
        assert(first_fit(rs, k, size, align));
    }
}

/// `allocate` is first fit and complete: when some free region can hold the
/// adjusted block, the result is that region's start rounded up to the
/// adjusted alignment, for the first such region; only when no region can
/// hold it is the result null with the free list unchanged.
pub proof fn lemma_allocate_takes_first_fitting_region(
    pre: Seq<(int, int)>,
    size: int,
    align: int,
    post: Seq<(int, int)>,
    ptr: int,
)
    requires
        free_list_ok(pre),
        layout_ok(size, align),
        allocate_effect(pre, size, align, post, ptr),
    ensures
        (exists|k: int|
            0 <= k < pre.len() && block_fits_region(
                #[trigger] pre[k],
                adjusted_size(size, align),
                adjusted_align(align),
            )) ==> exists|k: int|
            {
                &&& 0 <= k < pre.len()
                &&& block_fits_region(#[trigger] pre[k], adjusted_size(size, align), adjusted_align(align))
                &&& forall|m: int|
                    0 <= m < k ==> !block_fits_region(
                        #[trigger] pre[m],
                        adjusted_size(size, align),
                        adjusted_align(align),
                    )
                &&& ptr == round_up(pre[k].0, adjusted_align(align))
            },
        (forall|k: int|
            0 <= k < pre.len() ==> !block_fits_region(
                #[trigger] pre[k],
                adjusted_size(size, align),
                adjusted_align(align),
            )) ==> ptr == 0 && post == pre,
{
    let s = adjusted_size(size, align);
    let a = adjusted_align(align);
    lemma_adjusted_align_power_of_two(align);
    assert forall|k: int| 0 <= k < pre.len() implies (region_fits(#[trigger] pre[k], s, a)
        <==> block_fits_region(pre[k], s, a)) by {
        lemma_region_fits_is_block_fits(pre[k], s, a);
    }
    if exists|k: int| 0 <= k < pre.len() && block_fits_region(#[trigger] pre[k], s, a) {
        let k = choose|k: int| 0 <= k < pre.len() && block_fits_region(#[trigger] pre[k], s, a);
        lemma_some_fit_from_any_fit(pre, s, a, k);
        let i = choose|i: int| first_fit(pre, i, s, a);
        lemma_region_fits_is_block_fits(pre[i], s, a);
        assert(ptr == round_up(pre[i].0, a));
    } else {
        if some_fit(pre, s, a) {
            let i = choose|i: int| first_fit(pre, i, s, a);
            assert(!block_fits_region(pre[i], s, a));
        }
    }
}

/// `allocate` keeps free what it does not hand out: of the region the block
/// is cut from, everything behind the block stays free, and every other
/// free region stays free; only the block and the bytes skipped before it
/// to align it leave the free memory.
pub proof fn lemma_allocate_keeps_rest_free(
    pre: Seq<(int, int)>,
    size: int,
    align: int,
    post: Seq<(int, int)>,
    ptr: int,
)
    requires
        free_list_ok(pre),
        layout_ok(size, align),
        allocate_effect(pre, size, align, post, ptr),
        some_fit(pre, adjusted_size(size, align), adjusted_align(align)),
    ensures
        exists|k: int|
            {
                &&& 0 <= k < pre.len()
                &&& pre[k].0 <= ptr
                &&& ptr + adjusted_size(size, align) <= pre[k].0 + pre[k].1
                &&& forall|x: int|
                    ptr + adjusted_size(size, align) <= x < pre[k].0 + pre[k].1 ==> #[trigger] covered(
                        post,
                        x,
                    )
                &&& forall|j: int, x: int|
                    #![trigger pre[j], covered(post, x)]
                    0 <= j < pre.len() && j != k && pre[j].0 <= x < pre[j].0 + pre[j].1 ==> covered(
                        post,
                        x,
                    )
            },
{
    let s = adjusted_size(size, align);
    let a = adjusted_align(align);
    let i = choose|i: int| first_fit(pre, i, s, a);
    let r = pre[i];
    lemma_allocated_block_in_free_region(pre, size, align, post, ptr);
    lemma_align_up_bits(r.0 as usize, a as usize);
    let end = ptr + s;
    let excess = r.0 + r.1 - end;
    let rest = pre.remove(i);
    assert forall|x: int| end <= x < r.0 + r.1 implies #[trigger] covered(post, x) by {
        assert(excess > 0);
        assert(post[0] == (end, excess));
        assert(post[0].0 <= x < post[0].0 + post[0].1);
    }
    assert forall|j: int, x: int|
        #![trigger pre[j], covered(post, x)]
        0 <= j < pre.len() && j != i && pre[j].0 <= x < pre[j].0 + pre[j].1 implies covered(post, x) by {
        let q = if j < i { j } else { j - 1 };
        assert(rest[q] == pre[j]);
        let p = if excess > 0 { q + 1 } else { q };
        assert(post[p] == rest[q]);
        assert(post[p].0 <= x < post[p].0 + post[p].1);
    }
    assert(pre[i].0 <= ptr && ptr + s <= pre[i].0 + pre[i].1);
}

} // verus!
