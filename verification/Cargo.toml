[package]
name = "ferrios"
version = "0.1.0"
edition = "2021"
publish = false

[dependencies]
x86_64 = { version = "=0.14.13", default-features = false, features = ["instructions"] }
linked_list_allocator = { version = "=0.9.1", default-features = false, features = ["use_spin"] }
spin = "=0.5.2"
volatile = "=0.2.7"
pc-keyboard = "=0.7.0"
crossbeam-queue = { version = "=0.2.3", default-features = false, features = ["alloc"] }
conquer-once = { version = "=0.2.1", default-features = false }
futures-util = { version = "=0.3.34", default-features = false, features = ["alloc"] }
lazy_static = { version = "=1.5.1", features = ["spin_no_std"] }
bootloader = { version = "=0.9.35", features = ["map_physical_memory"] }
