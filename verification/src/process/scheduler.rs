use vstd::prelude::*;
use super::{Process, ProccessState, NPROC};

verus! {

/// The slot `d` places after `current` in round-robin order.
pub open spec fn slot_after(current: int, d: int) -> int {
    (current + d) % (NPROC as int)
}

/// `d` is the distance from `current` to the first runnable process after it
/// in round-robin order (the current slot itself is never chosen).
pub open spec fn first_runnable_after(states: Seq<ProccessState>, current: int, d: int) -> bool {
    &&& 1 <= d < NPROC
    &&& states[slot_after(current, d)] == ProccessState::Runnable
    &&& forall|e: int|
        1 <= e < d ==> states[#[trigger] slot_after(current, e)] != ProccessState::Runnable
}

/// The states of a process table.
pub open spec fn table_states(table: Seq<Process>) -> Seq<ProccessState> {
    table.map_values(|p: Process| p.state)
}

/// One round of the round-robin scheduler on `table`, with `current_pid`
/// running: finds the first runnable process after the current one; when
/// there is none it returns `None` and leaves the table alone; otherwise it
/// marks the current process `Running` and returns the slot to switch to.
pub fn schedule(table: &mut [Process; NPROC], current_pid: usize) -> (next: Option<usize>)
    requires
        current_pid < NPROC,
    ensures
        match next {
            None => {
                &&& forall|d: int|
                    1 <= d < NPROC ==> table_states(old(table)@)[#[trigger] slot_after(
                        current_pid as int,
                        d,
                    )] != ProccessState::Runnable
                &&& final(table)@ == old(table)@
            },
            Some(n) => {
                &&& exists|d: int|
                    first_runnable_after(table_states(old(table)@), current_pid as int, d) && n
                        == #[trigger] slot_after(current_pid as int, d)
                &&& final(table)@ == old(table)@.update(
                    current_pid as int,
                    Process { state: ProccessState::Running, ..old(table)@[current_pid as int] },
                )
            },
        },
{
    let ghost states = table_states(table@);
    let mut next_pid: usize = (current_pid + 1) % NPROC;
    let ghost mut d: int = 1;
    loop
        invariant
            current_pid < NPROC,
            1 <= d < NPROC,
            next_pid == slot_after(current_pid as int, d),
            states == table_states(table@),
            table@ == old(table)@,
            forall|e: int|
                1 <= e < d ==> states[#[trigger] slot_after(current_pid as int, e)]
                    != ProccessState::Runnable,
        ensures
            1 <= d < NPROC,
            next_pid == slot_after(current_pid as int, d),
            table@ == old(table)@,
            states[next_pid as int] == ProccessState::Runnable,
            forall|e: int|
                1 <= e < d ==> states[#[trigger] slot_after(current_pid as int, e)]
                    != ProccessState::Runnable,
        decreases NPROC - d,
    {
        assert(states[next_pid as int] == table@[next_pid as int].state);
        if table[next_pid].state == ProccessState::Runnable {
            break;
        }
        next_pid = (next_pid + 1) % NPROC;
        proof {
            assert(slot_after(current_pid as int, d + 1) == (slot_after(current_pid as int, d) + 1)
                % (NPROC as int));
            d = d + 1;
        }
        if next_pid == current_pid {
            proof {
                assert(d == NPROC);
            }
            return None;
        }
    }
    let mut p = table[current_pid];
    p.state = ProccessState::Runnable;
    p.state = ProccessState::Running;
    table[current_pid] = p;
    proof {
        assert(first_runnable_after(states, current_pid as int, d));
    }
    Some(next_pid)
}

/// The scheduler never picks the running process itself: the slot it
/// switches to is another one, and it is runnable.
pub proof fn lemma_chosen_slot_is_another_runnable(states: Seq<ProccessState>, current: int, d: int)
    requires
        0 <= current < NPROC,
        first_runnable_after(states, current, d),
    ensures
        slot_after(current, d) != current,
        0 <= slot_after(current, d) < NPROC,
        states[slot_after(current, d)] == ProccessState::Runnable,
{
}

} // verus!
