use vstd::prelude::*;
use x86_64::structures::paging::{Page, Size4KiB};
use x86_64::VirtAddr;
use vstd::arithmetic::power2::pow2;
use vstd::bits::{low_bits_mask, lemma_usize_low_bits_mask_is_mod, lemma_usize_pow2_no_overflow};

pub mod bump;
pub mod linked_list;
pub mod fixed_size_block;

verus! {

/// `n` is a power of two that fits in a machine word.
pub open spec fn is_power_of_two(n: int) -> bool {
    exists|k: nat| k < usize::BITS && n == #[trigger] pow2(k)
}

/// The least multiple of `align` that is at least `addr`.
pub open spec fn round_up(addr: int, align: int) -> int {
    ((addr + align - 1) / align) * align
}

/// What `align_up` computes: `(addr + align - 1)` with the low bits of
/// `align - 1` cleared.
pub open spec fn align_up_bits(addr: usize, align: usize) -> usize {
    ((addr + align - 1) as usize) & !((align - 1) as usize)
}

/// Clearing the bits of `pow2(k) - 1` rounds down to a multiple of `pow2(k)`.
pub proof fn lemma_clear_low_bits_rounds_down(y: usize, k: nat)
    requires
        k < usize::BITS,
    ensures
        y & !((pow2(k) - 1) as usize) == (y / (pow2(k) as usize)) * (pow2(k) as usize),
{
    lemma_usize_pow2_no_overflow(k);
    lemma_usize_low_bits_mask_is_mod(y, k);
    let m: usize = (pow2(k) - 1) as usize;
    assert(m == low_bits_mask(k) as usize);
    let p: usize = pow2(k) as usize;
    assert((y & !m) as int == y as int - (y & m) as int) by (bit_vector);
    assert(y == p * (y / p) + y % p) by {
        vstd::arithmetic::div_mod::lemma_fundamental_div_mod(y as int, p as int);
    }
    assert((y / p) * p == p * (y / p)) by (nonlinear_arith);
}

/// What the bit formula of `align_up` amounts to: it never moves below
/// `addr` nor past `addr + align - 1`, and for a power-of-two `align` it is
/// the least multiple of `align` at or above `addr`.
pub proof fn lemma_align_up_bits(addr: usize, align: usize)
    requires
        align > 0,
        addr + align <= usize::MAX,
    ensures
        addr <= align_up_bits(addr, align) <= addr + align - 1,
        is_power_of_two(align as int) ==> align_up_bits(addr, align) == round_up(
            addr as int,
            align as int,
        ),
{
    let y: usize = (addr + align - 1) as usize;
    let m: usize = (align - 1) as usize;
    assert((y & !m) as int == y as int - (y & m) as int && (y & m) <= m) by (bit_vector);
    if is_power_of_two(align as int) {
        let k = choose|k: nat| k < usize::BITS && align as int == #[trigger] pow2(k);
        lemma_clear_low_bits_rounds_down(y, k);
    }
}

/// `round_up` gives the least multiple of `align` at or above `addr`: a
/// multiple of `align`, at least `addr`, and less than `addr + align`; a
/// multiple of `align` stays put.
pub proof fn lemma_round_up_multiple(addr: int, align: int)
    requires
        align > 0,
    ensures
        round_up(addr, align) % align == 0,
        addr <= round_up(addr, align) < addr + align,
        addr % align == 0 ==> round_up(addr, align) == addr,
{
    let y = addr + align - 1;
    vstd::arithmetic::div_mod::lemma_fundamental_div_mod(y, align);
    assert(round_up(addr, align) == y - y % align) by (nonlinear_arith)
        requires
            y == align * (y / align) + y % align,
            round_up(addr, align) == (y / align) * align,
    ;
    vstd::arithmetic::div_mod::lemma_mod_multiples_basic((addr + align - 1) / align, align);
    if addr % align == 0 {
        vstd::arithmetic::div_mod::lemma_fundamental_div_mod(addr, align);
        let q = addr / align;
        assert(addr == q * align) by (nonlinear_arith)
            requires addr == align * (addr / align) + addr % align, addr % align == 0, q == addr / align;
        assert((addr + align - 1) / align == q) by {
            vstd::arithmetic::div_mod::lemma_div_multiples_vanish_fancy(q, align - 1, align);
        }
    }
}

/// Rounds `addr` up to a multiple of `align`.
///
/// For a power-of-two `align` the result is the least multiple of `align`
/// that is at least `addr`. The sum `addr + align` must not overflow.
pub fn align_up(addr: usize, align: usize) -> (res: usize)
    requires
        align > 0,
        addr + align <= usize::MAX,
    ensures
        res == align_up_bits(addr, align),
        addr <= res <= addr + align - 1,
        is_power_of_two(align as int) ==> res == round_up(addr as int, align as int),
{
    proof {
        lemma_align_up_bits(addr, align);
    }
    (addr + align - 1) & !(align - 1)
}

/// First address of the kernel heap (a 64-bit address, so held in a `u64`).
pub const HEAP_START: u64 = 0x_4444_4444_0000;

/// Size of the kernel heap in bytes (100 KiB).
pub const HEAP_SIZE: usize = 100 * 1024;

/// Size of a page.
pub const PAGE_SIZE: u64 = 4096;

/// `VirtAddr::new` accepts `addr`: bits 47 to 63 are all clear, all set, or
/// only bit 47 is set (which it then sign-extends).
pub open spec fn virt_addr_valid(addr: u64) -> bool {
    addr >> 47u64 == 0 || addr >> 47u64 == 1 || addr >> 47u64 == 0x1ffff
}

/// The canonical form `VirtAddr::new` gives a valid `addr`.
pub open spec fn canonical_addr(addr: u64) -> u64 {
    if addr >> 47u64 == 1 {
        addr | 0xffff_0000_0000_0000u64
    } else {
        addr
    }
}

/// Start address of the 4 KiB page that holds the virtual address `addr`.
pub open spec fn page_start_of(addr: u64) -> u64 {
    canonical_addr(addr) & !0xfffu64
}

/// Start address of the 4 KiB page containing `addr`, as x86_64's
/// `Page::<Size4KiB>::containing_address(VirtAddr::new(addr))` gives it.
/// Trusted: `VirtAddr::new` sign-extends bit 47 of a valid address (and
/// panics on any other, which `requires` rules out), and `containing_address`
/// aligns the address down to 4096.
#[verifier::external_body]
fn containing_page_start(addr: u64) -> (start: u64)
    requires
        virt_addr_valid(addr),
    ensures
        start == page_start_of(addr),
{
    Page::<Size4KiB>::containing_address(VirtAddr::new(addr)).start_address().as_u64()
}

/// Number of pages `heap_pages` lists for a heap.
pub open spec fn heap_page_count(heap_start: u64, heap_size: u64) -> int {
    (page_start_of((heap_start + heap_size - 1) as u64) - page_start_of(heap_start)) / PAGE_SIZE as int
        + 1
}

/// Start address of the `i`-th page of a heap, counting from the page that
/// holds its first byte.
pub open spec fn heap_page(heap_start: u64, i: int) -> int {
    page_start_of(heap_start) + i * PAGE_SIZE
}

/// Start addresses of the pages of the heap `[heap_start, heap_start + heap_size)`,
/// lowest first: every page from the one holding the heap's first byte to
/// the one holding its last. The heap must be non-empty and lie in the lower
/// half of the address space.
pub fn heap_pages(heap_start: u64, heap_size: u64) -> (pages: Vec<u64>)
    requires
        heap_size > 0,
        heap_start + heap_size < 0x8000_0000_0000u64,
    ensures
        pages@.len() == heap_page_count(heap_start, heap_size),
        forall|i: int| 0 <= i < pages@.len() ==> #[trigger] pages@[i] == heap_page(heap_start, i),
{
    let last_byte: u64 = heap_start + heap_size - 1;
    proof {
        lemma_lower_half_page(heap_start);
        lemma_lower_half_page(last_byte);
    }
    let first = containing_page_start(heap_start);
    let last = containing_page_start(last_byte);
    let mut pages: Vec<u64> = Vec::new();
    let mut page: u64 = first;
    while page <= last
        invariant
            first <= last < 0x8000_0000_0000u64,
            first % PAGE_SIZE == 0,
            last % PAGE_SIZE == 0,
            first <= page <= last + PAGE_SIZE,
            page % PAGE_SIZE == 0,
            pages@.len() == (page - first) / PAGE_SIZE as int,
            forall|i: int|
                0 <= i < pages@.len() ==> #[trigger] pages@[i] == first + i * PAGE_SIZE,
        decreases last + PAGE_SIZE - page,
    {
        pages.push(page);
        page = page + PAGE_SIZE;
    }
    pages
}

/// In the lower half of the address space an address is valid, is its own
/// canonical form, and its page starts at or below it at a multiple of 4096.
pub proof fn lemma_lower_half_page(addr: u64)
    requires
        addr < 0x8000_0000_0000u64,
    ensures
        virt_addr_valid(addr),
        canonical_addr(addr) == addr,
        page_start_of(addr) <= addr,
        page_start_of(addr) % PAGE_SIZE == 0,
        page_start_of(addr) == addr - addr % PAGE_SIZE,
{
    assert(addr >> 47u64 == 0) by (bit_vector)
        requires
            addr < 0x8000_0000_0000u64,
    ;
    assert((addr & !0xfffu64) <= addr && (addr & !0xfffu64) % 4096 == 0 && (addr & !0xfffu64)
        == addr - addr % 4096) by (bit_vector);
}

/// The pages `heap_pages` lists cover the heap: every heap byte lies in one
/// of them.
pub proof fn lemma_heap_pages_cover_heap(heap_start: u64, heap_size: u64, a: int)
    requires
        heap_size > 0,
        heap_start + heap_size < 0x8000_0000_0000u64,
        heap_start <= a < heap_start + heap_size,
    ensures
        exists|i: int|
            0 <= i < heap_page_count(heap_start, heap_size) && #[trigger] heap_page(heap_start, i)
                <= a < heap_page(heap_start, i) + PAGE_SIZE,
{
    let last_byte = (heap_start + heap_size - 1) as u64;
    lemma_lower_half_page(heap_start);
    lemma_lower_half_page(last_byte);
    let first = page_start_of(heap_start) as int;
    let last = page_start_of(last_byte) as int;
    let i = (a - first) / 4096;
    assert(first <= a);
    assert(0 <= i);
    assert(first + i * 4096 <= a < first + (i + 1) * 4096);
    assert(i <= (last - first) / 4096);
    assert(heap_page(heap_start, i) <= a < heap_page(heap_start, i) + PAGE_SIZE);
}

/// Why mapping a heap page failed (the cases of x86_64's `MapToError`; a
/// frame is given by its start address).
#[derive(Debug, Clone, Copy, PartialEq, Eq, Structural)]
pub enum HeapMapError {
    FrameAllocationFailed,
    ParentEntryHugePage,
    PageAlreadyMapped(u64),
}

/// What to do next while setting up the heap.
#[derive(Debug, Clone, Copy, PartialEq, Eq, Structural)]
pub enum HeapInitStep {
    /// Ask the frame allocator for a physical frame.
    AllocateFrame,
    /// Map `page` to `frame` (present and writable) and flush it.
    MapPage { page: u64, frame: u64 },
    /// Every page is mapped: hand the heap to the allocator.
    InitAllocator { heap_start: u64, heap_size: usize },
    /// Stop and report the error.
    Failed(HeapMapError),
}

enum HeapInitPhase {
    AwaitFrame,
    AwaitMap,
    Finished,
}

/// Decisions of heap set-up: map every heap page, lowest first, to a fresh
/// frame, stopping at the first failure, and initialise the allocator once
/// all pages are mapped.
pub struct HeapInit {
    heap_start: u64,
    heap_size: usize,
    pages: Vec<u64>,
    mapped: usize,
    phase: HeapInitPhase,
}

impl HeapInit {
    /// Start addresses of the heap's pages, in mapping order.
    pub closed spec fn pages(&self) -> Seq<u64> {
        self.pages@
    }

    /// How many pages have been mapped so far.
    pub closed spec fn mapped(&self) -> int {
        self.mapped as int
    }

    pub closed spec fn heap_start(&self) -> u64 {
        self.heap_start
    }

    pub closed spec fn heap_size(&self) -> usize {
        self.heap_size
    }

    /// Waiting for the frame for page `mapped()`.
    pub closed spec fn awaiting_frame(&self) -> bool {
        self.phase is AwaitFrame
    }

    /// Waiting for the outcome of mapping page `mapped()`.
    pub closed spec fn awaiting_map(&self) -> bool {
        self.phase is AwaitMap
    }

    /// Set-up is over.
    pub closed spec fn finished(&self) -> bool {
        self.phase is Finished
    }

    /// The count of mapped pages stays within the pages, and while set-up
    /// goes on there is a page left to map.
    pub open spec fn wf(&self) -> bool {
        &&& 0 <= self.mapped() <= self.pages().len()
        &&& !self.finished() ==> self.mapped() < self.pages().len()
        &&& self.awaiting_frame() || self.awaiting_map() || self.finished()
    }

    /// Starts the set-up of the heap `[heap_start, heap_start + heap_size)`;
    /// the first step is to ask for a frame for its lowest page.
    pub fn new(heap_start: u64, heap_size: usize) -> (res: (Self, HeapInitStep))
        requires
            heap_size > 0,
            heap_start + heap_size < 0x8000_0000_0000u64,
        ensures
            res.0.wf(),
            res.0.heap_start() == heap_start,
            res.0.heap_size() == heap_size,
            res.0.pages().len() == heap_page_count(heap_start, heap_size as u64),
            forall|i: int|
                0 <= i < res.0.pages().len() ==> #[trigger] res.0.pages()[i] == heap_page(heap_start, i),
            res.0.mapped() == 0,
            res.0.awaiting_frame(),
            res.1 == HeapInitStep::AllocateFrame,
    {
        let pages = heap_pages(heap_start, heap_size as u64);
        proof {
            lemma_lower_half_page(heap_start);
            lemma_lower_half_page((heap_start + heap_size - 1) as u64);
        }
        (
            HeapInit { heap_start, heap_size, pages, mapped: 0, phase: HeapInitPhase::AwaitFrame },
            HeapInitStep::AllocateFrame,
        )
    }

    /// The frame allocator answered: with no frame, set-up fails; with one,
    /// the next page is mapped to it.
    pub fn frame_allocated(&mut self, frame: Option<u64>) -> (step: HeapInitStep)
        requires
            old(self).wf(),
            old(self).awaiting_frame(),
        ensures
            final(self).wf(),
            final(self).pages() == old(self).pages(),
            final(self).heap_start() == old(self).heap_start(),
            final(self).heap_size() == old(self).heap_size(),
            final(self).mapped() == old(self).mapped(),
            match frame {
                None => step == HeapInitStep::Failed(HeapMapError::FrameAllocationFailed)
                    && final(self).finished(),
                Some(f) => step == (HeapInitStep::MapPage {
                    page: old(self).pages()[old(self).mapped()],
                    frame: f,
                }) && final(self).awaiting_map(),
            },
    {
        match frame {
            None => {
                self.phase = HeapInitPhase::Finished;
                HeapInitStep::Failed(HeapMapError::FrameAllocationFailed)
            },
            Some(f) => {
                self.phase = HeapInitPhase::AwaitMap;
                HeapInitStep::MapPage { page: self.pages[self.mapped], frame: f }
            },
        }
    }

    /// Mapping the page answered: on error set-up fails with it; otherwise
    /// the next page gets a frame, or, when it was the last page, the
    /// allocator is initialised.
    pub fn page_mapped(&mut self, result: Result<(), HeapMapError>) -> (step: HeapInitStep)
        requires
            old(self).wf(),
            old(self).awaiting_map(),
        ensures
            final(self).wf(),
            final(self).pages() == old(self).pages(),
            final(self).heap_start() == old(self).heap_start(),
            final(self).heap_size() == old(self).heap_size(),
            match result {
                Err(e) => step == HeapInitStep::Failed(e) && final(self).finished()
                    && final(self).mapped() == old(self).mapped(),
                Ok(()) => {
                    &&& final(self).mapped() == old(self).mapped() + 1
                    &&& if final(self).mapped() == final(self).pages().len() {
                        &&& step == (HeapInitStep::InitAllocator {
                            heap_start: old(self).heap_start(),
                            heap_size: old(self).heap_size(),
                        })
                        &&& final(self).finished()
                    } else {
                        step == HeapInitStep::AllocateFrame && final(self).awaiting_frame()
                    }
                },
            },
    {
        match result {
            Err(e) => {
                self.phase = HeapInitPhase::Finished;
                HeapInitStep::Failed(e)
            },
            Ok(()) => {
                let total = self.pages.len();
                self.mapped = self.mapped + 1;
                if self.mapped == total {
                    self.phase = HeapInitPhase::Finished;
                    HeapInitStep::InitAllocator { heap_start: self.heap_start, heap_size: self.heap_size }
                } else {
                    self.phase = HeapInitPhase::AwaitFrame;
                    HeapInitStep::AllocateFrame
                }
            },
        }
    }
}

} // verus!
