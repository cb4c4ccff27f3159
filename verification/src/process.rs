use vstd::prelude::*;

pub mod context;
pub mod scheduler;

use context::Context;

verus! {

/// The state of a process.
#[derive(Debug, Clone, Copy, PartialEq, Eq, Structural)]
pub enum ProccessState {
    Unused,
    Embryo,
    Sleeping,
    Runnable,
    Running,
    Zombie,
}

/// Process control block.
#[derive(Debug, Clone, Copy)]
pub struct Process {
    /// Process id.
    pub pid: u32,
    /// State of the process.
    pub state: ProccessState,
    /// Saved registers, for the context switch.
    pub context: Context,
    /// Kernel stack of the process.
    pub kstack: u64,
}

impl Process {
    /// An unused process: pid 0, zeroed context, no kernel stack.
    pub fn new() -> (p: Self)
        ensures
            p.pid == 0,
            p.state == ProccessState::Unused,
            p.context == Context::zeroed(),
            p.kstack == 0,
    {
        Process { pid: 0, state: ProccessState::Unused, context: Context::new(), kstack: 0 }
    }
}

/// Number of entries of the process table.
pub const NPROC: usize = 64;

} // verus!
