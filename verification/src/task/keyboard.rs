use vstd::prelude::*;

verus! {

/// What the keyboard interrupt does after offering a scancode to the queue.
#[derive(Debug, Clone, Copy, PartialEq, Eq, Structural)]
pub enum ScancodeAction {
    /// The queue took the scancode: wake the task waiting for it.
    WakeConsumer,
    /// The queue is full: warn that the input is dropped.
    WarnQueueFull,
    /// The queue does not exist yet: warn about it.
    WarnQueueUninitialized,
}

/// Decides what follows a scancode from the interrupt handler: `pushed` is
/// `None` when the queue is not initialised, otherwise whether the push
/// succeeded.
pub fn scancode_action(pushed: Option<bool>) -> (a: ScancodeAction)
    ensures
        a == match pushed {
            None => ScancodeAction::WarnQueueUninitialized,
            Some(true) => ScancodeAction::WakeConsumer,
            Some(false) => ScancodeAction::WarnQueueFull,
        },
{
    match pushed {
        Some(ok) => {
            if !ok {
                ScancodeAction::WarnQueueFull
            } else {
                ScancodeAction::WakeConsumer
            }
        },
        None => ScancodeAction::WarnQueueUninitialized,
    }
}

/// The next move of the scancode stream's poll.
#[derive(Debug, Clone, Copy, PartialEq, Eq, Structural)]
pub enum PollStep {
    /// A scancode is ready.
    Ready(u8),
    /// The queue was empty: register the waker and look once more, so that
    /// a scancode pushed meanwhile is not missed.
    RegisterWakerAndRetry,
    /// A scancode arrived after the waker was registered: take the waker
    /// back and return the scancode.
    ReadyTakeWaker(u8),
    /// Still nothing: the stream is pending until woken.
    Pending,
}

/// Decides the poll's move after its first look into the queue.
pub fn poll_first(popped: Option<u8>) -> (s: PollStep)
    ensures
        s == match popped {
            Some(c) => PollStep::Ready(c),
            None => PollStep::RegisterWakerAndRetry,
        },
{
    match popped {
        Some(c) => PollStep::Ready(c),
        None => PollStep::RegisterWakerAndRetry,
    }
}

/// Decides the poll's move after its second look, with the waker registered.
pub fn poll_second(popped: Option<u8>) -> (s: PollStep)
    ensures
        s == match popped {
            Some(c) => PollStep::ReadyTakeWaker(c),
            None => PollStep::Pending,
        },
{
    match popped {
        Some(c) => PollStep::ReadyTakeWaker(c),
        None => PollStep::Pending,
    }
}

} // verus!
