use fascript::float::FasFloat;
use fascript::lifecycle::{Directive, Outcome, TaskPolicy, TaskProgress, TaskState};
use fascript::task::{
    resolve, AwaitEnd, Awaited, Polled, TaskControl, TaskResult, TaskValue,
};
use fascript::value::FasValue;

fn is_finished_with(known: &Awaited, expected: &FasValue) -> bool {
    match &known.end {
        AwaitEnd::Finished(v) => v == expected,
        _ => false,
    }
}

#[test]
fn the_two_halves_of_a_handle_have_the_number_of_the_task() {
    let (handle, shadow) = TaskValue::create(7);
    assert_eq!(handle.id(), 7);
    assert_eq!(shadow.id(), 7);
    let copy = handle.clone();
    assert_eq!(copy.id(), 7);
}

#[test]
fn control_messages_arrive_in_the_order_in_which_they_were_sent() {
    let (handle, shadow) = TaskValue::create(0);
    assert!(matches!(shadow.poll_control(), Polled::Empty));
    assert!(handle.send(TaskControl::Pause));
    assert!(handle.send(TaskControl::Resume));
    assert!(handle.clone().send(TaskControl::Cancel));
    assert!(matches!(shadow.poll_control(), Polled::Message(TaskControl::Pause)));
    assert!(matches!(shadow.poll_control(), Polled::Message(TaskControl::Resume)));
    assert!(matches!(shadow.poll_control(), Polled::Message(TaskControl::Cancel)));
    assert!(matches!(shadow.poll_control(), Polled::Empty));
}

#[test]
fn a_send_into_a_channel_that_nobody_reads_does_not_panic() {
    let (handle, shadow) = TaskValue::create(1);
    drop(shadow);
    assert!(!handle.send(TaskControl::Pause));
    let (handle, shadow) = TaskValue::create(2);
    drop(handle);
    assert!(!shadow.report(TaskResult::Canceled));
    assert!(matches!(shadow.poll_control(), Polled::Disconnected));
}

#[test]
fn a_finish_that_was_reported_is_held_until_it_is_awaited() {
    let (handle, shadow) = TaskValue::create(3);
    assert!(shadow.report(TaskResult::ProgressFeedback(FasValue::Int(10))));
    assert!(shadow.report(TaskResult::ProgressFeedback(FasValue::Int(50))));
    assert!(shadow.report(TaskResult::Finish(FasValue::String("done".to_string()))));
    drop(shadow);
    let known = handle.try_await(100);
    assert!(is_finished_with(&known, &FasValue::String("done".to_string())));
    assert!(known.progress == Some(FasValue::Int(50)));
    assert!(known.result() == Some(FasValue::String("done".to_string())));
}

#[test]
fn an_await_stays_pending_while_the_task_has_not_ended() {
    let (handle, shadow) = TaskValue::create(4);
    let known = handle.try_await(100);
    assert!(known.is_pending());
    assert!(known.result().is_none());
    assert!(shadow.report(TaskResult::ProgressFeedback(FasValue::Int(1))));
    let known = handle.try_await(100);
    assert!(known.is_pending());
    assert!(known.progress == Some(FasValue::Int(1)));
    assert!(shadow.report(TaskResult::ProgressFeedback(FasValue::Int(2))));
    assert!(shadow.report(TaskResult::ProgressFeedback(FasValue::Int(3))));
    assert!(shadow.report(TaskResult::Finish(FasValue::Null)));
    let known = handle.try_await(2);
    assert!(known.is_pending());
    assert!(known.progress == Some(FasValue::Int(3)));
    let known = handle.try_await(2);
    assert!(is_finished_with(&known, &FasValue::Null));
}

#[test]
fn a_task_that_leaves_without_a_report_counts_as_cancelled() {
    let (handle, shadow) = TaskValue::create(5);
    drop(shadow);
    let known = handle.try_await(10);
    assert!(matches!(known.end, AwaitEnd::Canceled));
    assert!(known.result() == Some(FasValue::Null));
}

#[test]
fn cancellation_and_rollback_end_an_await_without_a_value() {
    let (handle, shadow) = TaskValue::create(6);
    assert!(shadow.report(TaskResult::Canceled));
    assert!(matches!(handle.try_await(10).end, AwaitEnd::Canceled));
    assert!(shadow.report(TaskResult::Rolledback));
    let known = handle.try_await(10);
    assert!(matches!(known.end, AwaitEnd::Rolledback));
    assert!(known.result() == Some(FasValue::Null));
}

#[test]
fn what_comes_after_the_end_of_an_await_changes_nothing() {
    let found = vec![
        Polled::Empty,
        Polled::Message(TaskResult::ProgressFeedback(FasValue::Int(1))),
        Polled::Empty,
        Polled::Message(TaskResult::Finish(FasValue::Float(FasFloat { bits: 0 }))),
        Polled::Message(TaskResult::ProgressFeedback(FasValue::Int(2))),
        Polled::Message(TaskResult::Canceled),
        Polled::Disconnected,
    ];
    let known = resolve(&found);
    assert!(is_finished_with(&known, &FasValue::Float(FasFloat { bits: 0 })));
    assert!(known.progress == Some(FasValue::Int(1)));
    let nothing: Vec<Polled<TaskResult>> = vec![];
    assert!(resolve(&nothing).is_pending());
}

#[test]
fn waiting_control_messages_can_be_dropped() {
    let (handle, shadow) = TaskValue::create(8);
    for _ in 0..5 {
        assert!(handle.send(TaskControl::Pause));
    }
    assert_eq!(shadow.drain_controls(3), 3);
    assert_eq!(shadow.drain_controls(10), 2);
    assert_eq!(shadow.drain_controls(10), 0);
}

fn policy(retry: u64, has_degradation: bool) -> TaskPolicy {
    TaskPolicy { retry, has_degradation }
}

#[test]
fn a_task_runs_its_statements_in_order_and_finishes() {
    let mut p = TaskProgress::new();
    assert_eq!(p.state, TaskState::Running);
    for i in 0..3 {
        let (after, d) = p.on_control(3, None);
        assert_eq!(d, Directive::Run(i));
        assert_eq!(after, p);
        let (after, d) = p.on_outcome(policy(0, false), Outcome::Advanced);
        assert_eq!(d, Directive::Poll);
        assert_eq!(after.next, i + 1);
        p = after;
    }
    let (after, d) = p.on_control(3, None);
    assert_eq!(d, Directive::Finish);
    assert_eq!(after.state, TaskState::Finished);
    assert!(after.has_ended());
}

#[test]
fn a_task_that_fails_every_time_is_begun_once_more_than_it_may_retry() {
    for retry in [0u64, 1, 3, 7] {
        let mut p = TaskProgress::new();
        let mut attempts = 1;
        loop {
            let (after, d) = p.on_outcome(policy(retry, false), Outcome::Failed);
            p = after;
            if d == Directive::Restart {
                attempts += 1;
                assert_eq!(p.next, 0);
                assert_eq!(p.state, TaskState::Running);
            } else {
                assert_eq!(d, Directive::Surface);
                break;
            }
        }
        assert_eq!(attempts, retry + 1);
        assert_eq!(p.retries_used, retry);
        assert_eq!(p.state, TaskState::Finished);
    }
}

#[test]
fn a_degradation_stands_in_when_retries_are_used_up() {
    let p = TaskProgress::new();
    let (after, d) = p.on_outcome(policy(0, true), Outcome::Failed);
    assert_eq!(d, Directive::Degrade);
    assert_eq!(after.state, TaskState::Finished);
    let (after, d) = p.on_outcome(policy(5, true), Outcome::Fatal);
    assert_eq!(d, Directive::Degrade);
    assert_eq!(after.retries_used, 0);
    let (_, d) = p.on_outcome(policy(5, false), Outcome::Fatal);
    assert_eq!(d, Directive::Surface);
}

#[test]
fn no_statement_runs_between_a_pause_and_its_resume() {
    let mut p = TaskProgress::new();
    p.next = 2;
    let (after, d) = p.on_control(5, Some(TaskControl::Pause));
    assert_eq!(d, Directive::Pause);
    assert_eq!(after.state, TaskState::Suspended);
    let mut q = after;
    for control in [None, Some(TaskControl::Pause), None, None] {
        let (after, d) = q.on_control(5, control);
        assert_eq!(d, Directive::Wait);
        assert_eq!(after, q);
        q = after;
    }
    let (after, d) = q.on_control(5, Some(TaskControl::Resume));
    assert_eq!(d, Directive::Resume);
    assert_eq!(after.state, TaskState::Running);
    assert_eq!(after.next, 2);
    let (_, d) = after.on_control(5, None);
    assert_eq!(d, Directive::Run(2));
}

#[test]
fn cancel_and_rollback_end_a_task_from_either_state() {
    let running = TaskProgress::new();
    let (suspended, _) = running.on_control(1, Some(TaskControl::Pause));
    for p in [running, suspended] {
        let (after, d) = p.on_control(1, Some(TaskControl::Cancel));
        assert_eq!(d, Directive::Cancel);
        assert_eq!(after.state, TaskState::Canceled);
        let (after, d) = p.on_control(1, Some(TaskControl::Rollback));
        assert_eq!(d, Directive::Rollback);
        assert_eq!(after.state, TaskState::Rolledback);
    }
}

#[test]
fn a_task_that_has_ended_stays_as_it_is() {
    let running = TaskProgress::new();
    let (finished, _) = running.on_outcome(policy(0, false), Outcome::Returned);
    let (canceled, _) = running.on_control(1, Some(TaskControl::Cancel));
    let (rolledback, _) = running.on_control(1, Some(TaskControl::Rollback));
    for p in [finished, canceled, rolledback] {
        for control in [
            None,
            Some(TaskControl::Pause),
            Some(TaskControl::Resume),
            Some(TaskControl::Cancel),
            Some(TaskControl::Rollback),
        ] {
            assert_eq!(p.on_control(3, control), (p, Directive::Stay));
        }
        for outcome in [Outcome::Advanced, Outcome::Returned, Outcome::Failed, Outcome::Fatal] {
            assert_eq!(p.on_outcome(policy(9, true), outcome), (p, Directive::Stay));
        }
    }
}
