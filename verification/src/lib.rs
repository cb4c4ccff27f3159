//! Kernel-side logic of a small x86_64 hobby kernel: heap allocators,
//! heap page layout, process table scheduling and VGA text output.
pub mod allocator;
pub mod process;
pub mod vga_buffer;
pub mod task;
