use vstd::prelude::*;

verus! {

/// The callee-saved registers, stack pointer and instruction pointer of a
/// process, as the context switch saves and restores them.
#[derive(Debug, Clone, Copy)]
pub struct Context {
    pub r15: u64,
    pub r14: u64,
    pub r13: u64,
    pub r12: u64,
    pub rbx: u64,
    pub rbp: u64,
    pub rsp: u64,
    pub rip: u64,
}

impl Context {
    /// The context with every register zero.
    pub open spec fn zeroed() -> Context {
        Context { r15: 0, r14: 0, r13: 0, r12: 0, rbx: 0, rbp: 0, rsp: 0, rip: 0 }
    }

    /// A context with every register zero.
    pub fn new() -> (c: Self)
        ensures
            c == Context::zeroed(),
    {
        Context { r15: 0, r14: 0, r13: 0, r12: 0, rbx: 0, rbp: 0, rsp: 0, rip: 0 }
    }
}

} // verus!
