use mls_playground::command::BenchmarkCursor;
use mls_playground::cycle::remove_rejoin_failure_operation;
use mls_playground::failure::{
    classify_worker_error, is_ambiguous, is_resource_budget_failure, BatchFanoutError, Failure,
    FailureKind, FanoutFailure, RequestFault, WorkerFailure,
};
use mls_playground::flags::ProfiledFailurePolicy;
use mls_playground::record::{
    app_heap_field, evidence_step, latest_oom_evidence_for, profile_contains_runner_event,
    record_profiled_worker_failure, BatchRecorder, BatchVerdict, EvidenceStep, OomEvidence,
    ProfileKey, PROFILE_SCHEMA_VERSION,
};
use mls_playground::transport::{
    is_queued_epoch_race_message, queued_remove_members_republished, RequestTrouble,
    WorkerCommandError, WorkerCommandErrorClass,
};
use mls_playground::workers::{ContainerMode, WorkerSpec};

fn plain(text: &str) -> WorkerFailure {
    WorkerFailure::plain(text.to_string())
}

#[test]
fn remove_rejoin_failures_preserve_attempted_operation() {
    let worker_error = WorkerCommandError {
        worker_id: "external-a".to_string(),
        command: "JoinFromWelcome",
        url: "http://external-a:8080/command".to_string(),
        request_id: "request-1".to_string(),
        attempts: 3,
        classification: WorkerCommandErrorClass::TransportRetryable,
        last_error: "connection refused".to_string(),
        diagnostic: None,
    }
    .failure();
    assert_eq!(remove_rejoin_failure_operation(&worker_error), "welcome_receive");

    let fanout_error = Failure::Batch(BatchFanoutError {
        phase: "remove_rejoin.fanout_receive_commit_remove".to_string(),
        operation: "receive_commit".to_string(),
        failures: Vec::new(),
    });
    assert_eq!(remove_rejoin_failure_operation(&fanout_error), "remove_commit");
}

#[test]
fn classify_worker_error_detects_container_exit() {
    assert_eq!(
        classify_worker_error(&plain("Connection refused (os error 111)")),
        "container_exit"
    );
}

#[test]
fn classify_worker_error_detects_timeout() {
    assert_eq!(
        classify_worker_error(&plain("request timeout after 30s")),
        "cpu_starvation_timeout"
    );
}

#[test]
fn classify_worker_error_detects_app_heap_budget_exceeded() {
    let err = plain(
        "Worker 00001 error: APP_HEAP_BUDGET_EXCEEDED failure_class=app_heap_budget_exceeded operation_family=welcome_receive member_count=32 epoch=31",
    );
    assert_eq!(classify_worker_error(&err), "app_heap_budget_exceeded");
}

#[test]
fn classify_worker_error_detects_connect_failure() {
    assert_eq!(
        classify_worker_error(&plain("client error: connect failure")),
        "worker_unreachable"
    );
}

#[test]
fn queued_epoch_race_message_is_detected() {
    assert!(is_queued_epoch_race_message(
        "remove_members for [\"00494\"] lost the epoch race and was queued for retry: Commit epoch mismatch"
    ));
    assert!(!is_queued_epoch_race_message(
        "members [\"00494\"] removed locally; group commit published"
    ));
}

#[test]
fn classify_worker_error_defaults_to_infrastructure() {
    assert_eq!(
        classify_worker_error(&plain("unknown internal error")),
        "infrastructure_failure"
    );
}

#[test]
fn detects_queued_remove_members_republished_by_process_pending() {
    assert!(queued_remove_members_republished(
        "external commit received and processed; DS group state updated; queued remove_members for [\"00688\"] was retried and published"
    ));
    assert!(!queued_remove_members_republished(
        "external commit received and processed; DS group state updated; queued add_members for [\"00688\"] was retried and published"
    ));
}

#[test]
fn failures_of_requests_are_told_by_their_kind() {
    let request = |fault: RequestFault| WorkerFailure {
        text: "error sending request".to_string(),
        kind: FailureKind::Request(fault),
        origin: None,
    };
    let quiet = RequestFault { connect: false, refused: false, timeout: false, body_or_decode: false };
    assert_eq!(
        classify_worker_error(&request(RequestFault { timeout: true, ..quiet })),
        "cpu_starvation_timeout"
    );
    assert_eq!(
        classify_worker_error(&request(RequestFault { connect: true, refused: true, ..quiet })),
        "container_exit"
    );
    let unsure = Failure::Worker(WorkerFailure {
        text: "x".to_string(),
        kind: FailureKind::Command { ambiguous: true },
        origin: None,
    });
    assert!(is_ambiguous(&unsure));
    assert!(!is_ambiguous(&Failure::plain("x".to_string())));
    assert!(is_resource_budget_failure(&Failure::plain(
        "APP_HEAP_BUDGET_EXCEEDED failure_class=app_heap_budget_exceeded".to_string()
    )));
}

#[test]
fn failed_worker_is_written_down_with_its_place() {
    let worker = WorkerSpec::legacy("test-001".to_string(), "http://127.0.0.1:9999".to_string());
    let cursor = BenchmarkCursor::new(0, 4, 4, "transition", "add_members");
    let error = plain("Connection refused (os error 111)");
    let (event, goes_on) = record_profiled_worker_failure(
        11,
        &cursor,
        &worker,
        &error,
        None,
        "evict_singleton_and_continue",
        None,
        true,
    );
    let event = event.unwrap();
    assert!(goes_on);
    assert_eq!(event.ts_unix_ns, 11);
    assert_eq!(event.profile_schema_version, PROFILE_SCHEMA_VERSION);
    assert_eq!(event.event_kind, "worker_failure");
    assert_eq!(event.failure_class, "container_exit");
    assert_eq!(event.failed_worker_id, "test-001");
    assert_eq!(event.benchmark_phase, "transition");
    assert_eq!(event.benchmark_operation, "add_members");

    let profile = event.to_profile_event();
    assert_eq!(profile.op, "benchmark.worker_failure");
    let key = ProfileKey {
        op: profile.op.clone(),
        ts_unix_ns: profile.ts_unix_ns,
        failed_worker_id: Some(profile.failed_worker_id.clone()),
    };
    let other = || ProfileKey {
        op: "commit.create".to_string(),
        ts_unix_ns: 11,
        failed_worker_id: None,
    };
    assert!(!profile_contains_runner_event(&[other(), other()], &event));
    assert!(profile_contains_runner_event(&[other(), key, other()], &event));
    assert!(!profile_contains_runner_event(&[], &event));
}

#[test]
fn notes_of_the_host_explain_a_failure() {
    let worker = WorkerSpec::legacy("00001".to_string(), "http://worker-00001:8080".to_string());
    let cursor = BenchmarkCursor::new(1, 8, 8, "update", "self_update");
    let note = |worker_id: &str, ts: u128| OomEvidence {
        ts_unix_ns: Some(ts),
        source: "docker_cgroup".to_string(),
        worker_id: Some(worker_id.to_string()),
        physical_worker_id: None,
        detail: Some("oom_kill counter incremented".to_string()),
    };
    let notes = vec![note("00001", 5), note("00002", 6), note("00001", 7)];
    let at = latest_oom_evidence_for(&notes, &worker).unwrap();
    assert_eq!(at, 2);
    assert_eq!(evidence_step(&notes, &worker, 5), EvidenceStep::Found(2));
    assert_eq!(evidence_step(&notes[1..2], &worker, 4), EvidenceStep::LookAgain { delay_ms: 200 });
    assert_eq!(evidence_step(&notes[1..2], &worker, 5), EvidenceStep::NotThere);
    let (event, _) = record_profiled_worker_failure(
        9,
        &cursor,
        &worker,
        &plain("container OOM killed"),
        Some(&notes[at]),
        "evict_and_retry",
        None,
        false,
    );
    let event = event.unwrap();
    assert_eq!(event.failure_class, "oom_kill");
    assert_eq!(event.failed_worker_id, "00001");
    assert_eq!(event.benchmark_plateau_index, 1);
    assert_eq!(event.benchmark_target_size, 8);
    assert_eq!(event.failure_evidence_source.as_deref(), Some("docker_cgroup"));
}

#[test]
fn policy_says_whether_a_run_goes_on() {
    let worker = WorkerSpec::legacy("00001".to_string(), "http://127.0.0.1:9999".to_string());
    let cursor = BenchmarkCursor::new(1, 2, 1, "membership_add", "generate_key_package");
    let error = plain("APP_HEAP_BUDGET_EXCEEDED failure_class=app_heap_budget_exceeded");
    let goes_on = |policy: ProfiledFailurePolicy| {
        record_profiled_worker_failure(
            1,
            &cursor,
            &worker,
            &error,
            None,
            "drop_idle_joiner",
            None,
            policy.continues(false),
        )
        .1
    };
    assert!(!goes_on(ProfiledFailurePolicy::StopOnProfiledFailure));
    assert!(goes_on(ProfiledFailurePolicy::RemoveAndContinue));
    assert!(ProfiledFailurePolicy::StopOnProfiledFailure.continues(true));
}

#[test]
fn failures_of_a_batch_become_dead_workers() {
    let cursor = BenchmarkCursor::new(4, 50, 50, "oom_eviction", "receive_commit");
    let worker = WorkerSpec::legacy("00042".to_string(), "http://127.0.0.1:9999".to_string());
    let other = WorkerSpec::legacy("00001".to_string(), "http://127.0.0.1:9998".to_string());
    let detail = "APP_HEAP_BUDGET_EXCEEDED failure_class=app_heap_budget_exceeded memory_model=app-heap-budget operation_family=commit_receive benchmark_operation=self_update span_or_phase=oom_eviction.fanout_receive_commit member_count=50 epoch=24 worker_id=00042 resource_profile_id=ram_app_heap_512k resource_profile_index=3 app_heap_budget=512k app_heap_budget_bytes=524288 configured_heap_budget_bytes=524288 current_live_heap_bytes=533430 peak_live_heap_bytes=533430 operation_peak_live_heap_bytes=533430 total_allocated_bytes=23941687 allocation_count=158199 deallocation_count=157172 failed_allocation_size_bytes=49723";
    let error = Failure::Batch(BatchFanoutError {
        phase: "oom_eviction".to_string(),
        operation: "receive_commit".to_string(),
        failures: vec![FanoutFailure { worker: worker.clone(), error: plain(detail) }],
    });

    let mut recorder = BatchRecorder::start(&error).unwrap();
    assert_eq!(recorder.worker().unwrap().id, "00042");
    let (event, verdict) = recorder.record(
        3,
        &cursor,
        None,
        "evict_oom_eviction_recipient_and_retry",
        Some(&other),
        true,
    );
    let event = event.unwrap();
    assert_eq!(event.failure_class, "app_heap_budget_exceeded");
    assert_eq!(event.failure_action, "evict_oom_eviction_recipient_and_retry");
    assert_eq!(event.reassigned_to_worker_id.as_deref(), Some("00001"));
    match verdict {
        BatchVerdict::Dead(dead) => {
            assert_eq!(dead.len(), 1);
            assert_eq!(dead[0].id, worker.id);
        }
        other => panic!("{:?}", other),
    }
    assert!(BatchRecorder::start(&Failure::plain("x".to_string())).is_none());

    let heap = event.to_profile_event().heap;
    assert_eq!(heap.app_heap_budget_bytes, Some(524288));
    assert_eq!(heap.heap_current_live_bytes, Some(533430));
    assert_eq!(heap.heap_failed_allocation_size_bytes, Some(49723));
    assert_eq!(heap.member_count, Some(50));
    assert_eq!(heap.group_epoch, Some(24));
    assert_eq!(app_heap_field(detail, "worker_id").as_deref(), Some("00042"));
    assert_eq!(app_heap_field(detail, "nothing"), None);
}

#[test]
fn unmeasured_workers_are_not_written_down() {
    let mut worker = WorkerSpec::legacy("p".to_string(), "http://p".to_string());
    worker.container_mode = ContainerMode::Packed;
    let cursor = BenchmarkCursor::new(0, 2, 2, "update", "self_update");
    let (event, goes_on) =
        record_profiled_worker_failure(1, &cursor, &worker, &plain("x"), None, "a", None, true);
    assert!(event.is_none());
    assert!(!goes_on);
}

#[test]
fn trouble_with_a_request_is_told_in_parts() {
    let trouble = RequestTrouble {
        top_level: "error sending request".to_string(),
        is_connect: true,
        is_timeout: false,
        is_request: true,
        is_body: false,
        status: None,
        sources: vec!["client error (Connect)".to_string(), "refused".to_string()],
    };
    assert_eq!(
        trouble.diagnostic(),
        "top_level=error sending request; is_connect=true; is_timeout=false; is_request=true; is_body=false; status=-; inferred_stage=connect; source[0]=client error (Connect); source[1]=refused"
    );
    let stage = |c, t, b, r| {
        RequestTrouble {
            top_level: String::new(),
            is_connect: c,
            is_timeout: t,
            is_body: b,
            is_request: r,
            status: Some("500".to_string()),
            sources: vec![],
        }
        .inferred_stage()
    };
    assert_eq!(
        stage(false, true, true, true),
        "timeout while connecting, writing request, or waiting for response"
    );
    assert_eq!(stage(false, false, true, true), "reading response body");
    assert_eq!(
        stage(false, false, false, true),
        "writing request or waiting for response headers"
    );
    assert_eq!(stage(false, false, false, false), "unknown");
}
