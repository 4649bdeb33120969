use std::cell::Cell;
use std::collections::HashSet;

use mls_playground::batch::MembershipBatchDecision;
use mls_playground::command::{
    batch_physical_base_url, build_batch_commands, BatchFanoutCommand, BenchmarkCursor, Command,
    CommitSampling, RequestIds, WorkerCommandContext,
};
use mls_playground::failure::{
    partition_batch_failures_by_reconciled_state, retry_batch_commands_for_failures, FanoutFailure,
    WorkerFailure,
};
use mls_playground::record::operation_cursor;
use mls_playground::table::IdSet;
use mls_playground::workers::{ContainerMode, WorkerSpec};

fn receive_commit(client_id: &str, request_id: Option<&str>, epoch: Option<u64>) -> BatchFanoutCommand {
    BatchFanoutCommand {
        client_id: client_id.to_string(),
        request_id: request_id.map(|id| id.to_string()),
        command: Command::ReceiveCommit { sampling: CommitSampling::unmeasured() },
        expected_epoch: epoch,
        phase: Some("test.phase".to_string()),
        profile: None,
        benchmark_plateau_index: None,
        benchmark_target_size: None,
        benchmark_active_size: None,
        benchmark_phase: None,
        benchmark_operation: None,
        benchmark_operation_seq: None,
        benchmark_payload_size: None,
        membership_batch_requested: None,
        membership_batch_effective: None,
        membership_batch_group_cap: None,
        membership_batch_transition_cap: None,
        membership_batch_source: None,
    }
}

#[test]
fn build_batch_commands_assigns_request_ids() {
    let workers = (1..=2)
        .map(|idx| WorkerSpec::legacy(format!("{idx:05}"), format!("http://worker-{idx:05}:8080")))
        .collect::<Vec<_>>();
    let decision = MembershipBatchDecision {
        requested: 8,
        effective: 8,
        group_cap: 8,
        transition_cap: 8,
        source: "external_density_k8",
    };
    let cursor = BenchmarkCursor::new(3, 40, 32, "membership_add", "add_commit")
        .with_membership_batch(&decision);
    let mut ids = RequestIds::new(77);

    let commands_by_physical = build_batch_commands(
        &workers,
        |worker| receive_commit(&worker.id, None, Some(3)).with_benchmark_cursor(&cursor),
        &mut ids,
    );

    let request_ids = commands_by_physical
        .iter()
        .flat_map(|(_, cmds)| cmds.iter())
        .map(|cmd| cmd.request_id.clone().expect("request id"))
        .collect::<Vec<_>>();
    let unique_request_ids = request_ids.iter().collect::<HashSet<_>>();

    assert_eq!(request_ids.len(), workers.len());
    assert_eq!(unique_request_ids.len(), workers.len());
    let command = &commands_by_physical[0].1[0];
    assert_eq!(command.membership_batch_source.as_deref(), Some("external_density_k8"));
    assert_eq!(command.membership_batch_requested, Some(8));
    assert_eq!(command.membership_batch_effective, Some(8));
}

#[test]
fn retry_batch_commands_preserves_request_ids_for_failed_clients() {
    let worker_2 = WorkerSpec::legacy("00002".to_string(), "http://worker-00002:8080".into());
    let commands_by_physical = vec![(
        "worker-a".to_string(),
        vec![
            receive_commit("00001", Some("rid-1"), Some(7)),
            receive_commit("00002", Some("rid-2"), Some(7)),
        ],
    )];
    let failures = vec![FanoutFailure {
        worker: worker_2,
        error: WorkerFailure::plain("synthetic batch failure".to_string()),
    }];

    let retry_commands = retry_batch_commands_for_failures(&commands_by_physical, &failures);

    assert_eq!(retry_commands.len(), 1);
    assert_eq!(retry_commands[0].1.len(), 1);
    assert_eq!(retry_commands[0].1[0].client_id, "00002");
    assert_eq!(retry_commands[0].1[0].request_id.as_deref(), Some("rid-2"));
}

#[test]
fn reconciled_batch_failure_is_counted_as_success() {
    let worker_2 = WorkerSpec::legacy("00002".to_string(), "http://worker-00002:8080".into());
    let failures = vec![FanoutFailure {
        worker: worker_2,
        error: WorkerFailure::plain(
            "client 00002 batch error: DS GET failed with status 404 Not Found".to_string(),
        ),
    }];
    let mut reconciled_ids = IdSet::new();
    reconciled_ids.insert("00002");

    let (successes, remaining) =
        partition_batch_failures_by_reconciled_state(failures, &reconciled_ids);

    assert_eq!(successes.len(), 1);
    assert_eq!(successes[0].id, "00002");
    assert!(remaining.is_empty());
}

#[test]
fn batch_physical_base_url_uses_worker_url() {
    let local_worker = WorkerSpec::legacy("00001".to_string(), "http://127.0.0.1:19481".into());
    let layout_worker = WorkerSpec {
        id: "00002".to_string(),
        url: "http://worker-00002:8080/client/00002".to_string(),
        command_url: "http://worker-00002:8080/client/00002".to_string(),
        health_url: "http://worker-00002:8080/client/00002/health".to_string(),
        physical_worker_id: "worker-00002".to_string(),
        container_mode: ContainerMode::Singleton,
        profile_enabled: true,
        device_kind: String::new(),
    };
    let known = vec![local_worker, layout_worker];
    let local_cmd = receive_commit("00001", Some("rid-1"), None);
    let layout_cmd = receive_commit("00002", Some("rid-2"), None);

    assert_eq!(
        batch_physical_base_url("00001", &[local_cmd], &known),
        "http://127.0.0.1:19481"
    );
    assert_eq!(
        batch_physical_base_url("worker-00002", &[layout_cmd], &known),
        "http://worker-00002:8080"
    );
    assert_eq!(batch_physical_base_url("alone", &[], &known), "http://alone:8080");
}

#[test]
fn requests_say_who_asked_for_what() {
    let worker = WorkerSpec::legacy("w1".to_string(), "http://w1".into());
    let mut ids = RequestIds::new(42);
    let command = Command::SelfUpdate;
    let cursor = BenchmarkCursor::new(2, 8, 6, "update", "update_commit").at_operation(3, Some(64));
    let context = WorkerCommandContext::with_metadata(
        &worker,
        &command,
        Some(9),
        Some("update.send"),
        Some(&cursor),
        &mut ids,
    );
    assert_eq!(context.request_id, format!("runner-42-w1-SelfUpdate-{}", ids.next - 1));
    assert_eq!(context.device_kind, None);
    assert_eq!(context.expected_epoch, Some(9));

    let note = operation_cursor(5, &worker, &command, &context, "started").unwrap();
    assert_eq!(note.command, "SelfUpdate");
    assert_eq!(note.lifecycle, "started");
    assert_eq!(note.benchmark_operation_seq, Some(3));
    assert_eq!(note.benchmark_payload_size, Some(64));
    assert_eq!(note.request_id, context.request_id);

    let mut packed = WorkerSpec::legacy("w2".to_string(), "http://w2".into());
    packed.container_mode = ContainerMode::Packed;
    assert!(operation_cursor(5, &packed, &command, &context, "started").is_none());
}

#[test]
fn new_request_ids_differ_within_and_across_calls() {
    let workers = (1..=4)
        .map(|idx| WorkerSpec::legacy(format!("{idx:05}"), format!("http://worker-{idx:05}:8080")))
        .collect::<Vec<_>>();
    let mut ids = RequestIds::new(77);
    let command_for = |worker: &WorkerSpec| {
        let given = if worker.id == "00002" { Some("rid-2") } else { None };
        receive_commit(&worker.id, given, Some(3))
    };
    let mut sent = |ids: &mut RequestIds| {
        build_batch_commands(&workers, command_for, ids)
            .into_iter()
            .flat_map(|(_, commands)| commands)
            .map(|command| command.request_id.expect("request id"))
            .collect::<Vec<_>>()
    };
    let first = sent(&mut ids);
    let second = sent(&mut ids);
    assert_eq!(
        first,
        vec![
            "runner-77-00001-ReceiveCommit-1",
            "rid-2",
            "runner-77-00003-ReceiveCommit-2",
            "runner-77-00004-ReceiveCommit-3",
        ]
    );
    assert_eq!(second[1], "rid-2");
    let new = first.iter().chain(&second).filter(|id| *id != "rid-2").collect::<HashSet<_>>();
    assert_eq!(new.len(), 6);
    assert_eq!(ids.next, 7);
}

#[test]
fn commands_are_packed_as_they_were_made() {
    let mut workers = (1..=3)
        .map(|idx| WorkerSpec::legacy(format!("{idx:05}"), "http://packed:8080".to_string()))
        .collect::<Vec<_>>();
    workers[0].physical_worker_id = "one".to_string();
    workers[1].physical_worker_id = "two".to_string();
    workers[2].physical_worker_id = "one".to_string();
    let calls = Cell::new(0u64);
    let command_for = |worker: &WorkerSpec| {
        calls.set(calls.get() + 1);
        receive_commit(&worker.id, None, Some(calls.get()))
    };
    let mut ids = RequestIds::new(5);
    let packs = build_batch_commands(&workers, command_for, &mut ids);
    assert_eq!(calls.get(), 3);
    let names = packs
        .iter()
        .map(|(name, commands)| {
            (name.as_str(), commands.iter().map(|c| c.client_id.as_str()).collect::<Vec<_>>())
        })
        .collect::<Vec<_>>();
    assert_eq!(names, vec![("one", vec!["00001", "00003"]), ("two", vec!["00002"])]);
    let mut epochs = packs
        .iter()
        .flat_map(|(_, commands)| commands.iter().map(|c| c.expected_epoch.unwrap()))
        .collect::<Vec<_>>();
    epochs.sort_unstable();
    assert_eq!(epochs, vec![1, 2, 3]);

    let mut last = RequestIds { process: 5, next: u64::MAX };
    let wrapped = build_batch_commands(&workers, command_for, &mut last)
        .into_iter()
        .flat_map(|(_, commands)| commands)
        .map(|command| command.request_id.unwrap())
        .collect::<Vec<_>>();
    assert_eq!(
        wrapped,
        vec![
            "runner-5-00001-ReceiveCommit-18446744073709551615",
            "runner-5-00003-ReceiveCommit-0",
            "runner-5-00002-ReceiveCommit-1",
        ]
    );
    assert_eq!(last.next, 2);
}
