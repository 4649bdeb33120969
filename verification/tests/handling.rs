use mls_playground::command::{BatchFanoutCommand, Command, CommitSampling};
use mls_playground::expect::{
    receive_application_message_again, receive_application_message_expect, CommitExpect,
    ExpectAction, ExpectEvent, ExpectedGroupState, ExpectedReceiveCommitState, MessageExpect,
};
use mls_playground::failure::{Failure, FailureKind, WorkerFailure};
use mls_playground::fanout::{
    FanoutAttempt, FanoutChange, FanoutCollect, FanoutController, FanoutSummary,
};
use mls_playground::packed::{
    batch_fanout_collect_physical, gather, BatchItemResult, PackedAction, PackedFanout,
    PhysicalOutcome,
};
use mls_playground::transport::GroupStateSnapshot;
use mls_playground::workers::{ContainerMode, WorkerSpec};

fn worker(id: &str) -> WorkerSpec {
    WorkerSpec::legacy(id.to_string(), format!("http://{id}:8080"))
}

fn packed(id: &str) -> WorkerSpec {
    let mut worker = worker(id);
    worker.physical_worker_id = "box".to_string();
    worker.container_mode = ContainerMode::Packed;
    worker.profile_enabled = false;
    worker
}

fn state(epoch: u64) -> GroupStateSnapshot {
    GroupStateSnapshot {
        group_id: "g".to_string(),
        epoch,
        members: vec!["a".to_string(), "b".to_string()],
    }
}

fn expected() -> ExpectedReceiveCommitState {
    ExpectedReceiveCommitState::Group(ExpectedGroupState::from_snapshot(state(4)))
}

fn ambiguous(text: &str) -> Failure {
    Failure::Worker(WorkerFailure {
        text: text.to_string(),
        kind: FailureKind::Command { ambiguous: true },
        origin: None,
    })
}

fn handling(pending: bool) -> CommitExpect {
    CommitExpect::new(&worker("a"), expected(), pending, "r1", "p")
}

#[test]
fn answered_commit_is_handled() {
    let mut one = handling(false);
    assert_eq!(one.ok_fragment(), "own commit accepted from DS");
    assert!(matches!(one.command(), Command::ReceiveCommit { .. }));
    assert!(matches!(one.step(ExpectEvent::Sent(Ok(()))), ExpectAction::Done(Ok(()))));

    let mut all = handling(true);
    assert_eq!(all.ok_fragment(), "process_pending processed;");
    match all.command() {
        Command::ProcessPending { max_messages, expected_epoch, .. } => {
            assert_eq!(max_messages, Some(8));
            assert_eq!(expected_epoch, Some(4));
        }
        other => panic!("{:?}", other),
    }
    assert!(matches!(all.step(ExpectEvent::Sent(Ok(()))), ExpectAction::ShowState));
    assert!(matches!(all.step(ExpectEvent::State(Ok(state(4)))), ExpectAction::Done(Ok(()))));
}

#[test]
fn lost_answer_is_made_up_for_by_the_state() {
    let mut reached = handling(false);
    assert!(matches!(
        reached.step(ExpectEvent::Sent(Err(ambiguous("lost")))),
        ExpectAction::ShowState
    ));
    assert!(matches!(reached.step(ExpectEvent::State(Ok(state(4)))), ExpectAction::Done(Ok(()))));

    let mut behind = handling(false);
    behind.step(ExpectEvent::Sent(Err(ambiguous("lost"))));
    assert!(matches!(behind.step(ExpectEvent::State(Ok(state(3)))), ExpectAction::Send));
    assert!(matches!(behind.step(ExpectEvent::Sent(Ok(()))), ExpectAction::Done(Ok(()))));

    let mut ahead = handling(false);
    ahead.step(ExpectEvent::Sent(Err(ambiguous("lost"))));
    match ahead.step(ExpectEvent::State(Ok(state(5)))) {
        ExpectAction::Done(Err(error)) => assert_eq!(
            error.message(),
            "receive_commit ambiguous transport error could not be reconciled for worker a: expected group_id=g epoch=4 members=[\"a\", \"b\"]; got group_id=g epoch=5 members=[\"a\", \"b\"]; original_error=lost"
        ),
        other => panic!("{:?}", other),
    }
}

#[test]
fn plain_errors_end_the_handling() {
    let mut refused = handling(false);
    match refused.step(ExpectEvent::Sent(Err(Failure::plain("no".to_string())))) {
        ExpectAction::Done(Err(error)) => assert_eq!(error.message(), "no"),
        other => panic!("{:?}", other),
    }
    let mut starved = handling(true);
    let text = "failure_class=app_heap_budget_exceeded".to_string();
    match starved.step(ExpectEvent::Sent(Err(Failure::plain(text.clone())))) {
        ExpectAction::Done(Err(error)) => assert_eq!(error.message(), text),
        other => panic!("{:?}", other),
    }
}

#[test]
fn messages_are_sent_once_more() {
    assert!(matches!(receive_application_message_expect(Ok(())), MessageExpect::Done));
    match receive_application_message_expect(Err(ambiguous("lost"))) {
        MessageExpect::SendAgain { original } => assert_eq!(original, "lost"),
        other => panic!("{:?}", other),
    }
    assert!(matches!(
        receive_application_message_expect(Err(Failure::plain("no".to_string()))),
        MessageExpect::Failed(_)
    ));
    let again = receive_application_message_again(
        &worker("a"),
        "r1",
        "p",
        "lost",
        Err(Failure::plain("no".to_string())),
    );
    assert_eq!(
        again.unwrap_err().message(),
        "receive_application_message failed after ambiguous transport retry: worker=a request_id=r1 phase=p initial_error=lost: no"
    );
}

fn item(id: &str) -> BatchFanoutCommand {
    BatchFanoutCommand::new(
        id,
        Command::ReceiveCommit { sampling: CommitSampling::unmeasured() },
        Some(4),
        "p",
        None,
    )
}

fn answer(id: &str, status: &str, message: &str) -> BatchItemResult {
    BatchItemResult {
        client_id: id.to_string(),
        status: status.to_string(),
        message: message.to_string(),
    }
}

#[test]
fn batch_answers_are_told_apart() {
    let known = vec![packed("a"), packed("b")];
    let items = vec![item("a"), item("b")];
    let mixed = PhysicalOutcome::Answered(vec![
        answer("a", "ok", "done"),
        answer("b", "error", "no"),
        answer("z", "ok", "who"),
    ]);
    let attempt = batch_fanout_collect_physical("box", &items, &known, &mixed, 7);
    assert_eq!(attempt.successes.len(), 1);
    assert_eq!(attempt.successes[0].id, "a");
    assert_eq!(attempt.failures.len(), 1);
    assert_eq!(attempt.failures[0].error.text, "client b batch error: no");
    assert_eq!(attempt.latency_ms, 7);

    let late = PhysicalOutcome::NotSent { error: "operation timed out".to_string() };
    let attempt = batch_fanout_collect_physical("box", &items, &known, &late, 7);
    assert_eq!(attempt.failures.len(), 2);
    assert_eq!((attempt.timeout_count, attempt.connect_error_count), (2, 0));
    assert_eq!(attempt.failures[1].error.text, "batch request error: operation timed out");

    let broken = PhysicalOutcome::BadStatus {
        status: "500 Internal Server Error".to_string(),
        body: "oops".to_string(),
    };
    let attempt = batch_fanout_collect_physical("box", &items, &known, &broken, 7);
    assert_eq!(
        attempt.failures[0].error.text,
        "batch HTTP error: 500 Internal Server Error oops"
    );
    let odd = PhysicalOutcome::Unreadable { error: "eof".to_string() };
    let attempt = batch_fanout_collect_physical("box", &items, &known, &odd, 7);
    assert_eq!(attempt.failures[0].error.text, "batch response parse error: eof");
}

#[test]
fn failed_part_of_a_batch_is_sent_again() {
    let known = vec![packed("a"), packed("b")];
    let commands = vec![("box".to_string(), vec![item("a"), item("b")])];
    let (mut fanout, action) = PackedFanout::new(2, 4, commands, None);
    assert!(matches!(action, PackedAction::SendPass));
    let mixed =
        PhysicalOutcome::Answered(vec![answer("a", "ok", ""), answer("b", "error", "no")]);
    let attempt =
        batch_fanout_collect_physical("box", &fanout.commands[0].1, &known, &mixed, 3);
    assert!(matches!(fanout.take_pass(gather(&vec![attempt], 1)), PackedAction::SendPass));
    assert_eq!(fanout.commands.len(), 1);
    assert_eq!(fanout.commands[0].1.len(), 1);
    assert_eq!(fanout.commands[0].1[0].client_id, "b");
    let good = PhysicalOutcome::Answered(vec![answer("b", "ok", "")]);
    let attempt = batch_fanout_collect_physical("box", &fanout.commands[0].1, &known, &good, 5);
    assert!(matches!(fanout.take_pass(gather(&vec![attempt], 1)), PackedAction::Done));
    let summary = fanout.summary(20);
    assert_eq!(summary.recipient_count, 2);
    assert_eq!(summary.success_count, 2);
    assert_eq!(summary.failure_count, 0);
    assert_eq!(summary.request_count, 2);
    assert_eq!(summary.retry_pass_count, 1);
    assert_eq!(summary.latency_max_ms, Some(5));
    assert_eq!(summary.slowest_worker_ids, vec!["box:5ms".to_string(), "box:3ms".to_string()]);
    assert!(fanout.result("p", "o").is_ok());
}

#[test]
fn worker_that_reached_the_state_has_not_failed() {
    let known = vec![packed("a"), packed("b")];
    let commands = vec![("box".to_string(), vec![item("a"), item("b")])];
    let targets = vec![("a".to_string(), expected()), ("b".to_string(), expected())];
    let (mut fanout, _) = PackedFanout::new(2, 4, commands, Some(targets));
    let mixed =
        PhysicalOutcome::Answered(vec![answer("a", "ok", ""), answer("b", "error", "no")]);
    let attempt =
        batch_fanout_collect_physical("box", &fanout.commands[0].1, &known, &mixed, 3);
    match fanout.take_pass(gather(&vec![attempt], 1)) {
        PackedAction::ShowState(worker) => assert_eq!(worker.id, "b"),
        other => panic!("{:?}", other),
    }
    assert!(matches!(fanout.take_state(Ok(state(4))), PackedAction::Done));
    assert_eq!(fanout.summary(1).success_count, 2);
    assert!(fanout.result("p", "o").is_ok());
}

#[test]
fn lasting_failures_are_named() {
    let known = vec![packed("a")];
    let (mut fanout, _) =
        PackedFanout::new(1, 1, vec![("box".to_string(), vec![item("a")])], None);
    for last in [false, true] {
        let refused = PhysicalOutcome::Answered(vec![answer("a", "error", "no")]);
        let attempt =
            batch_fanout_collect_physical("box", &fanout.commands[0].1, &known, &refused, 1);
        let action = fanout.take_pass(gather(&vec![attempt], 1));
        assert_eq!(matches!(action, PackedAction::Done), last);
    }
    assert_eq!(
        fanout.result("p", "o").unwrap_err().message(),
        "batch_fanout phase=p operation=o failed_workers=1 failures=[a: client a batch error: no]"
    );
}

fn attempt(id: &str, latency_ms: u128, result: Result<u8, &str>) -> FanoutAttempt<u8> {
    FanoutAttempt {
        worker: worker(id),
        latency_ms,
        result: result.map_err(|text| WorkerFailure::plain(text.to_string())),
    }
}

#[test]
fn silent_workers_are_asked_again() {
    let mut collect = FanoutCollect::new();
    collect.take_pass(
        vec![attempt("a", 4, Ok(1)), attempt("b", 9, Err("request timeout"))],
        2,
        false,
    );
    let again = collect.retry_workers();
    assert_eq!(again.len(), 1);
    assert_eq!(again[0].id, "b");
    assert_eq!(collect.summary(2, 8, 9).timeout_count, 1);
    assert_eq!(
        collect.done("p", "o", 8).unwrap_err().message(),
        "fanout phase=p operation=o failed_workers=1 max_parallelism=8 failures=[b: request timeout]"
    );
    collect.take_pass(vec![attempt("b", 2, Ok(5))], 1, true);
    assert!(collect.done("p", "o", 8).is_ok());
    let summary = collect.summary(2, 8, 11);
    assert_eq!(summary.request_count, 3);
    assert_eq!(summary.success_count, 2);
    assert_eq!(summary.retry_pass_count, 1);
    assert_eq!(summary.effective_parallelism, 2);
    let answers = collect.answers("p", "o").unwrap();
    let found = answers.iter().map(|(w, n)| (w.id.as_str(), *n)).collect::<Vec<_>>();
    assert_eq!(found, vec![("a", 1), ("b", 5)]);

    let mut lost: FanoutCollect<u8> = FanoutCollect::new();
    lost.take_pass(vec![attempt("a", 4, Err("gone"))], 1, false);
    assert_eq!(
        lost.answers("p", "o").unwrap_err().message(),
        "batch_fanout phase=p operation=o failed_workers=1 failures=[a: gone]"
    );
}

fn measured(p95: u128, failures: usize) -> FanoutSummary {
    FanoutSummary {
        request_count: 10,
        recipient_count: 10,
        success_count: 10 - failures,
        failure_count: failures,
        timeout_count: 0,
        connect_error_count: 0,
        max_parallelism: 32,
        effective_parallelism: 16,
        retry_pass_count: 0,
        wall_ms: 1,
        latency_p50_ms: Some(p95),
        latency_p95_ms: Some(p95),
        latency_p99_ms: Some(p95),
        latency_max_ms: Some(p95),
        slowest_worker_ids: vec![],
    }
}

#[test]
fn parallelism_follows_the_workers() {
    let mut control = FanoutController::new(18, 3, true, 100);
    assert_eq!(control.parallelism(), 16);
    assert!(matches!(
        control.record(&measured(100, 0), false),
        FanoutChange::Reduced { previous: 16, by_errors: false }
    ));
    assert_eq!(control.parallelism(), 8);
    assert!(matches!(
        control.record(&measured(1, 5), true),
        FanoutChange::Reduced { previous: 8, by_errors: true }
    ));
    control.record(&measured(200, 0), false);
    assert_eq!(control.parallelism(), 3);
    for _ in 0..19 {
        assert!(matches!(control.record(&measured(1, 0), false), FanoutChange::Unchanged));
    }
    assert!(matches!(
        control.record(&measured(1, 0), false),
        FanoutChange::Increased { previous: 3 }
    ));
    assert_eq!(control.parallelism(), 7);

    let mut fixed = FanoutController::new(9, 2, false, 100);
    assert!(matches!(fixed.record(&measured(500, 9), true), FanoutChange::Unchanged));
    assert_eq!(fixed.parallelism(), 9);
}
