# ferrios

The logic of a small x86_64 hobby kernel, verified with Verus, and the kernel
around it.

`src/` is the verified library:

- `allocator`: `align_up`, the heap's page layout (`heap_pages`, through
  x86_64's `Page::containing_address`) and `HeapInit`, the decisions of heap
  set-up (map every heap page, lowest first, then initialise the allocator;
  stop at the first failure).
  - `bump`: a bump allocator, with its laws (blocks inside the heap, in
    order, and a reset once every allocation is freed).
  - `linked_list`: a first-fit free-list allocator over a list of regions,
    with its laws (aligned blocks cut from free regions, free regions kept
    apart, memory given back on free).
  - `fixed_size_block`: per-size block lists beside a linked_list_allocator
    heap.
- `process`: the process table entry and the round-robin choice of the next
  process.
- `vga_buffer`: colours, the attribute byte and the text writer, which says
  which screen cell each byte goes to.
- `task::keyboard`: the decisions of the scancode queue and its stream.

`app/` is the kernel: boot entry, `GlobalAlloc` for the allocators behind a
spin lock, page mapping, the VGA memory writes, the context switch in
assembly, the keyboard task and the test runner.

The linked-list allocator keeps its free regions in a `Vec` rather than in
the free memory itself, so its `GlobalAlloc` impl allocates while it
allocates and cannot serve as the global allocator; `app/` registers none.
