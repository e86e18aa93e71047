use rdma_bench::completion::{
    check_completions, completion_schedule, CompletionDrain, DrainAction, DrainPhase,
    WorkCompletion,
};
use rdma_bench::error::ErrorKind;

const WRITE: u32 = 1;

#[test]
fn drain_done_on_first_poll() {
    let mut d = CompletionDrain::new(3);
    assert_eq!(d.next_action(), DrainAction::PollCq);
    d.on_result(3);
    assert_eq!(d.phase, DrainPhase::Done);
    assert_eq!(d.next_action(), DrainAction::Finished(3));
}

#[test]
fn drain_poll_arm_poll_wait_cycle() {
    let mut d = CompletionDrain::new(5);
    d.on_result(1);
    assert_eq!(d.next_action(), DrainAction::ArmNotify);
    d.on_result(0);
    assert_eq!(d.next_action(), DrainAction::PollCq);
    d.on_result(1);
    assert_eq!(d.next_action(), DrainAction::WaitEvent);
    d.on_result(0);
    assert_eq!(d.next_action(), DrainAction::PollCq);
    d.on_result(4);
    assert_eq!(d.next_action(), DrainAction::Finished(6));
}

#[test]
fn drain_errors() {
    let mut d = CompletionDrain::new(5);
    d.on_result(-2);
    assert_eq!(d.next_action(), DrainAction::Fail(ErrorKind::PollError(-2)));
    let mut d = CompletionDrain::new(5);
    d.on_result(0);
    d.on_result(7);
    assert_eq!(d.next_action(), DrainAction::Fail(ErrorKind::NotifyError(7)));
    let mut d = CompletionDrain::new(5);
    d.on_result(0);
    d.on_result(0);
    d.on_result(0);
    d.on_result(-1);
    assert_eq!(d.next_action(), DrainAction::Fail(ErrorKind::EventError(-1)));
}

#[test]
fn completions_checked() {
    let ok = vec![WorkCompletion { status: 0, opcode: WRITE }; 3];
    assert_eq!(check_completions(&ok, WRITE), Ok(3));
    let bad = vec![
        WorkCompletion { status: 0, opcode: WRITE },
        WorkCompletion { status: 12, opcode: WRITE },
        WorkCompletion { status: 0, opcode: 0 },
    ];
    assert_eq!(
        check_completions(&bad, WRITE),
        Err(ErrorKind::CompletionFailure { status: 12, opcode: WRITE })
    );
    let wrong_op = vec![WorkCompletion { status: 0, opcode: 0 }];
    assert_eq!(
        check_completions(&wrong_op, WRITE),
        Err(ErrorKind::CompletionFailure { status: 0, opcode: 0 })
    );
    assert_eq!(check_completions(&Vec::new(), WRITE), Ok(0));
}

#[test]
fn schedule_harvests_every_signaled_request() {
    for counts in [vec![3usize, 1, 4, 1, 5, 9, 2, 6], vec![10, 10, 10], vec![1; 7], vec![]] {
        for batch in [1u64, 2, 3, 10] {
            let s = completion_schedule(&counts, batch);
            assert_eq!(s.after_block.len(), counts.len());
            let harvested: u64 = s.after_block.iter().sum::<u64>() + s.final_drain;
            assert_eq!(harvested, counts.len() as u64);
        }
    }
}

#[test]
fn full_batches_leave_no_final_drain() {
    let s = completion_schedule(&vec![4, 4, 4], 4);
    assert_eq!(s.after_block, vec![1, 1, 1]);
    assert_eq!(s.final_drain, 0);
}

#[test]
fn drain_by_signaled_count() {
    let s = completion_schedule(&vec![1, 1, 1, 1, 1], 3);
    assert_eq!(s.after_block, vec![0, 0, 3, 0, 0]);
    assert_eq!(s.final_drain, 2);
}
