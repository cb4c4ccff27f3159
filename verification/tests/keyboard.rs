use ferrios::task::keyboard::{poll_first, poll_second, scancode_action, PollStep, ScancodeAction};

#[test]
fn scancode_action_cases() {
    assert_eq!(scancode_action(Some(true)), ScancodeAction::WakeConsumer);
    assert_eq!(scancode_action(Some(false)), ScancodeAction::WarnQueueFull);
    assert_eq!(scancode_action(None), ScancodeAction::WarnQueueUninitialized);
}

#[test]
fn poll_steps() {
    assert_eq!(poll_first(Some(0x1e)), PollStep::Ready(0x1e));
    assert_eq!(poll_first(None), PollStep::RegisterWakerAndRetry);
    assert_eq!(poll_second(Some(0x9e)), PollStep::ReadyTakeWaker(0x9e));
    assert_eq!(poll_second(None), PollStep::Pending);
}
