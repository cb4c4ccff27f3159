use ferrios::process::{Process, ProccessState, NPROC};
use ferrios::process::context::Context;
use ferrios::process::scheduler::schedule;

#[test]
fn process_new_is_unused() {
    let p = Process::new();
    assert_eq!(p.pid, 0);
    assert_eq!(p.state, ProccessState::Unused);
    assert_eq!(p.kstack, 0);
    let c = p.context;
    assert_eq!((c.r15, c.r14, c.r13, c.r12, c.rbx, c.rbp, c.rsp, c.rip), (0, 0, 0, 0, 0, 0, 0, 0));
}

#[test]
fn context_new_is_zero() {
    let c = Context::new();
    assert_eq!(c.rsp, 0);
    assert_eq!(c.rip, 0);
    assert_eq!(core::mem::size_of::<Context>(), 64);
}

fn table() -> [Process; NPROC] {
    [Process::new(); NPROC]
}

#[test]
fn schedule_idles_when_nothing_is_runnable() {
    let mut t = table();
    t[5].state = ProccessState::Running;
    assert_eq!(schedule(&mut t, 5), None);
    assert_eq!(t[5].state, ProccessState::Running);
}

#[test]
fn schedule_never_picks_the_current_process() {
    let mut t = table();
    t[7].state = ProccessState::Runnable;
    assert_eq!(schedule(&mut t, 7), None);
}

#[test]
fn schedule_picks_next_runnable_in_round_robin_order() {
    let mut t = table();
    t[2].state = ProccessState::Runnable;
    t[9].state = ProccessState::Runnable;
    t[40].state = ProccessState::Runnable;
    assert_eq!(schedule(&mut t, 3), Some(9));
    let mut t = table();
    t[2].state = ProccessState::Runnable;
    t[9].state = ProccessState::Runnable;
    assert_eq!(schedule(&mut t, 1), Some(2));
}

#[test]
fn schedule_wraps_around() {
    let mut t = table();
    t[0].state = ProccessState::Runnable;
    assert_eq!(schedule(&mut t, 63), Some(0));
    let mut t = table();
    t[10].state = ProccessState::Runnable;
    assert_eq!(schedule(&mut t, 50), Some(10));
}

#[test]
fn schedule_marks_the_current_slot_running() {
    let mut t = table();
    t[4].state = ProccessState::Sleeping;
    t[6].state = ProccessState::Runnable;
    t[6].pid = 6;
    assert_eq!(schedule(&mut t, 4), Some(6));
    assert_eq!(t[4].state, ProccessState::Running);
    assert_eq!(t[6].state, ProccessState::Runnable);
    assert_eq!(t[6].pid, 6);
}

#[test]
fn test_context_size() {
    assert_eq!(core::mem::size_of::<Context>(), 64);
}

#[test]
fn trivial_assertion() {
    assert_eq!(1, 1);
}
