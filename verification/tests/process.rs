use mls_playground::converge::ensure_converged;
use mls_playground::fanout::{latency_percentiles, slowest_ids, FanoutController};
use mls_playground::health::{
    capability_status_error, check_capabilities, publication_workers, ready_metrics, CacheCounters,
    health_request_timeout_ms, health_step, health_url, HealthAnswer, HealthStep,
    ProfilingCapabilities, Readiness,
};
use mls_playground::transport::{
    check_until_ok, expect_ok_fragment, is_transient_status, jittered, parse_group_state_message,
    until_ok_due, worker_command_jitter_cap, worker_command_next_delay, worker_command_with_jitter,
    CommandAttempts, CommandResponse,
    GroupStateSnapshot, SendOutcome, SendStep, UntilOk,
};
use mls_playground::units::{
    app_ops_for_plateau, deterministic_payload, effective_min_fanout_parallelism,
    estimate_total_units, format_hms, number_or, payload_fits, update_ops_for_plateau, Progress,
    Workload,
};
use mls_playground::worker::{
    client_not_found, client_slots, command_queue_capacity, idempotency_cache_size,
    idempotency_cache_ttl, read_args, sole_client, CompletedCommandCache, Turn,
};
use mls_playground::workers::WorkerSpec;

fn texts(list: &[&str]) -> Vec<String> {
    list.iter().map(|text| text.to_string()).collect()
}

fn worker(id: &str) -> WorkerSpec {
    WorkerSpec::legacy(id.to_string(), format!("http://{id}"))
}

#[test]
fn worker_arguments_are_read() {
    let given = read_args(&texts(&[
        "--name", "w", "--clients", "a, b ,c", "--ignored", "--ds-url", "http://ds",
        "--relay-url", "http://relay", "--packed-worker-internal-parallelism", "7",
        "--profile-enabled-client-ids", "b", "--profile-path-template", "p/{client_id}/{client_id}",
        "--listen-addr", "127.0.0.1:1",
    ]));
    assert_eq!(given.listen_addrs, texts(&["127.0.0.1:1"]));
    let args = given.finish().unwrap();
    assert_eq!(args.name, "w");
    assert_eq!(args.client_ids, texts(&["a", "b", "c"]));
    assert_eq!(args.internal_parallelism, 7);
    let slots = client_slots(&args);
    assert_eq!(slots.len(), 3);
    assert!(!slots[0].profile_enabled);
    assert_eq!(slots[0].profile_path, None);
    assert!(slots[1].profile_enabled);
    assert_eq!(slots[1].profile_path.as_deref(), Some("p/b/b"));

    let plain = read_args(&texts(&["--name", "w", "--ds-url", "d", "--relay-url", "r"]));
    let plain = plain.finish().unwrap();
    assert_eq!(plain.client_ids, texts(&["w"]));
    assert_eq!(plain.internal_parallelism, 4);
    assert!(client_slots(&plain)[0].profile_enabled);
}

#[test]
fn missing_worker_arguments_are_told() {
    let missing = |list: &[&str]| read_args(&texts(list)).finish().unwrap_err();
    assert_eq!(missing(&[]), "Missing --name");
    assert_eq!(missing(&["--name"]), "Missing --name");
    assert_eq!(missing(&["--name", "w"]), "Missing --ds-url");
    assert_eq!(missing(&["--name", "w", "--ds-url", "d"]), "Missing --relay-url");
    assert_eq!(missing(&["--listen-addr"]), "Missing value after --listen-addr");
    assert_eq!(command_queue_capacity(Some("0")), 128);
    assert_eq!(command_queue_capacity(Some("9")), 9);
    assert_eq!(idempotency_cache_size(None), 16_384);
    assert_eq!(idempotency_cache_size(Some("0")), 0);
    assert_eq!(idempotency_cache_ttl(Some("x")), 21_600);
    assert_eq!(idempotency_cache_ttl(Some("5")), 5);
    assert_eq!(number_or(Some("30"), 1), 30);
    assert_eq!(sole_client(&texts(&["a", "a"])), Ok("a".to_string()));
    assert_eq!(
        sole_client(&texts(&["a", "b"])),
        Err("Multi-client worker requires /client/:id/command or /batch-command".to_string())
    );
    assert!(sole_client(&vec![]).is_err());
    assert_eq!(client_not_found("x"), "client x not found");
}

#[test]
fn workers_are_waited_for_until_they_are_ready() {
    let workers = vec![worker("a"), worker("b"), worker("c")];
    let mut readiness = Readiness::new(3);
    assert_eq!(readiness.remaining(), &vec![0, 1, 2]);
    readiness.round(&vec![(2, false), (0, true), (1, false)]);
    assert_eq!(readiness.remaining(), &vec![2, 1]);
    assert!(!readiness.is_ready());
    assert_eq!(
        readiness.timeout_message(&workers, 3661),
        "Timeout waiting for worker readiness after 01:01:01. 2/3 workers still unhealthy. Examples: [\"c=http://c\", \"b=http://b\"]"
    );
    assert!(readiness.is_due(2_999, 3));
    assert!(!readiness.is_due(3_000, 3));
    assert_eq!(readiness.progress(&workers, 4_999), None);
    assert_eq!(
        readiness.progress(&workers, 5_000).as_deref(),
        Some("[preflight] 1/3 workers healthy; still waiting for 2. Examples: [\"c\", \"b\"]")
    );
    let metrics = readiness.unready_metrics(&workers, 2, 50);
    assert_eq!(metrics.failure_count, 2);
    assert_eq!(metrics.success_count, 1);
    assert_eq!(metrics.effective_parallelism, 2);
    assert_eq!(metrics.slowest_worker_ids, texts(&["c", "b"]));
    assert_eq!(metrics.packed_request_count, 0);
    readiness.round(&vec![(2, true), (1, true)]);
    assert!(readiness.is_ready());
    let metrics = ready_metrics(&workers, &vec![5, 1, 3], 8, 3, 60);
    assert_eq!(metrics.worker_latency_p50_ms, Some(3));
    assert_eq!(metrics.worker_latency_max_ms, Some(5));
    assert_eq!(metrics.success_count, 3);
}

#[test]
fn measured_devices_have_to_measure() {
    let mut device = worker("d");
    device.device_kind = "LuckFox_pico".to_string();
    let mut other = worker("o");
    other.device_kind = "pi".to_string();
    assert_eq!(publication_workers(&[worker("a"), other.clone()]), vec![1]);
    let told = ProfilingCapabilities {
        client_exists: Some(true),
        profiling_enabled: true,
        l1d_cache_profiling_enabled: true,
        l1d_cache_counters_available: false,
    };
    assert_eq!(check_capabilities(&device, &told), Ok(CacheCounters::Missing));
    assert_eq!(
        check_capabilities(&other, &told),
        Err("L1D hardware counters are unavailable for publication worker o (pi)".to_string())
    );
    let counted = ProfilingCapabilities { l1d_cache_counters_available: true, ..told.clone() };
    assert_eq!(check_capabilities(&other, &counted), Ok(CacheCounters::Counted));
    let off = ProfilingCapabilities { l1d_cache_profiling_enabled: false, ..told.clone() };
    assert_eq!(check_capabilities(&other, &off), Ok(CacheCounters::Disabled));
    let mute = ProfilingCapabilities { profiling_enabled: false, ..told.clone() };
    assert_eq!(
        check_capabilities(&other, &mute),
        Err("profiling is disabled for publication worker o".to_string())
    );
    let gone = ProfilingCapabilities { client_exists: Some(false), ..told };
    assert_eq!(
        check_capabilities(&other, &gone),
        Err("profiling capability endpoint did not find client o".to_string())
    );
    assert_eq!(
        capability_status_error(&other, "500"),
        "profiling capability endpoint for o returned 500"
    );
}

#[test]
fn commands_are_sent_again_until_they_are_answered() {
    let mut attempts = CommandAttempts::new(&worker("w"), "SelfUpdate", "rid");
    let lost = || SendOutcome::NotSent {
        retryable: true,
        error: "refused".to_string(),
        diagnostic: "d".to_string(),
    };
    for plain in [100, 200, 400, 800, 1_600, 3_000, 3_000, 3_000, 3_000] {
        match attempts.step(lost()) {
            SendStep::Retry { delay_ms, shown } => {
                assert!((plain..=plain + (plain / 10).clamp(1, 100)).contains(&delay_ms));
                assert_eq!(shown, "refused (d)");
            }
            other => panic!("{:?}", other),
        }
    }
    match attempts.step(lost()) {
        SendStep::Failed(error) => {
            assert_eq!(error.attempts, 10);
            assert!(error.is_ambiguous_transport());
            assert_eq!(
                error.message(),
                "runner.worker_command failed: worker=w command=SelfUpdate url=http://w/command request_id=rid attempts=10 classification=transport-retryable last_error=refused diagnostics=d"
            );
        }
        other => panic!("{:?}", other),
    }
    let mut attempts = CommandAttempts::new(&worker("w"), "SelfUpdate", "rid");
    assert!(matches!(attempts.step(SendOutcome::Answered), SendStep::Finished));
    assert_eq!(worker_command_next_delay(100), 200);
    assert_eq!(worker_command_next_delay(2_000), 3_000);
    assert!((1_000..=1_100).contains(&worker_command_with_jitter(1_000)));
    assert!((5..=6).contains(&worker_command_with_jitter(5)));
    assert_eq!(jittered(1_000, 37), 1_037);
    assert_eq!(worker_command_jitter_cap(5), 1);
    assert_eq!(worker_command_jitter_cap(700), 70);
    assert_eq!(worker_command_jitter_cap(3_000), 100);
    let mut attempts = CommandAttempts::new(&worker("w"), "SelfUpdate", "rid");
    let busy = || SendOutcome::BadStatus { transient: true, error: "HTTP 503".to_string() };
    assert!(matches!(
        attempts.step_after(busy(), 107),
        SendStep::Retry { delay_ms: 107, shown } if shown == "HTTP 503"
    ));
    assert_eq!((attempts.attempt, attempts.delay_ms), (2, 200));
}

#[test]
fn answers_are_read() {
    let answer = |status: &str, message: &str| CommandResponse {
        status: status.to_string(),
        message: message.to_string(),
    };
    let w = worker("w");
    assert_eq!(
        expect_ok_fragment(&w, answer("ok", "joined from welcome; x"), "joined").unwrap(),
        "joined from welcome; x"
    );
    assert!(expect_ok_fragment(&w, answer("error", "joined"), "joined").is_err());
    assert!(matches!(
        check_until_ok(&w, answer("error", "too early"), "joined", "early"),
        UntilOk::AskAgain { delay_ms: 500 }
    ));
    assert!(matches!(
        check_until_ok(&w, answer("error", "broken"), "joined", "early"),
        UntilOk::Failed(_)
    ));
    assert!(until_ok_due(&w, "joined", 29_999).is_ok());
    assert_eq!(
        until_ok_due(&w, "joined", 30_000).unwrap_err().message(),
        "Timeout waiting for ok fragment 'joined' from worker w"
    );

    let state = parse_group_state_message("group_id=ab, epoch=3, members=[\"b\", \"a\"]").unwrap();
    assert_eq!(state.group_id, "ab");
    assert_eq!(state.epoch, 3);
    assert_eq!(state.members, texts(&["a", "b"]));
    let refused = |message: &str| parse_group_state_message(message).unwrap_err().message();
    assert_eq!(refused("nothing"), "Unexpected show_group_state message: nothing");
    assert_eq!(
        refused("group_id=ab"),
        "Missing epoch in show_group_state message: group_id=ab"
    );
    assert_eq!(
        refused("group_id=ab, epoch=1"),
        "Missing members in show_group_state message: group_id=ab, epoch=1"
    );
    assert_eq!(
        refused("group_id=ab, epoch=x, members=[]"),
        "Invalid epoch 'x' in 'group_id=ab, epoch=x, members=[]'"
    );
    assert_eq!(
        refused("group_id=ab, epoch=1, members=["),
        "Invalid members list '[' in 'group_id=ab, epoch=1, members=['"
    );
}

#[test]
fn workers_have_to_agree() {
    let state = |epoch: u64, members: &[&str]| GroupStateSnapshot {
        group_id: "g".to_string(),
        epoch,
        members: texts(members),
    };
    let active = vec![worker("a"), worker("b")];
    let agreed = ensure_converged(
        &active,
        &[
            (worker("b"), state(4, &["a", "b"])),
            (worker("a"), state(4, &["a", "b"])),
        ],
    )
    .unwrap();
    assert_eq!(agreed.epoch, 4);
    assert!(ensure_converged(
        &active,
        &[
            (worker("a"), state(4, &["a", "b"])),
            (worker("b"), state(5, &["a", "b"])),
        ],
    )
    .is_err());
    assert!(ensure_converged(
        &active,
        &[
            (worker("a"), state(4, &["a"])),
            (worker("b"), state(4, &["a"])),
        ],
    )
    .is_err());
}

#[test]
fn latencies_are_summed_up() {
    let list = (1..=100u128).collect::<Vec<_>>();
    assert_eq!(
        latency_percentiles(&list),
        (Some(51), Some(96), Some(100), Some(100))
    );
    assert_eq!(latency_percentiles(&vec![]), (None, None, None, None));
    assert_eq!(
        slowest_ids(&vec![("a".to_string(), 3), ("b".to_string(), 9), ("c".to_string(), 3)]),
        texts(&["b:9ms", "a:3ms", "c:3ms"])
    );
    assert_eq!(FanoutController::new(16, 2, true, 100).parallelism(), 16);
    assert_eq!(effective_min_fanout_parallelism(0, 4), 1);
    assert_eq!(effective_min_fanout_parallelism(9, 4), 4);
}

#[test]
fn work_is_counted() {
    assert_eq!(update_ops_for_plateau(10, 2, 0), 0);
    assert_eq!(update_ops_for_plateau(10, 2, 50), 20);
    assert_eq!(update_ops_for_plateau(10, 2, 5), 5);
    assert_eq!(app_ops_for_plateau(10, 1, 4, 3), 12);
    let load = Workload {
        update_rounds: 1,
        app_rounds: 1,
        max_update_samples_per_plateau: 2,
        max_app_samples_per_payload: 2,
        payload_count: 2,
        external_device_count: 0,
        external_coverage_lane: false,
        min_profiled_samples_per_operation: 0,
    };
    let once = estimate_total_units(&[2], &load);
    assert!(estimate_total_units(&[2, 4], &load) > once);
    let mut progress = Progress::new(0);
    assert_eq!(progress.total_units(), 1);
    progress.tick_units(9);
    assert_eq!(progress.completed_units(), 1);
    assert_eq!(format_hms(3_725), "01:02:05");
    assert!(payload_fits(64, 8, 64, 1, "actor"));
    assert_eq!(deterministic_payload(64, 8, 64, 1, "actor").len(), 64);
    assert_eq!(
        deterministic_payload(64, 8, 64, 1, "actor"),
        deterministic_payload(64, 8, 64, 1, "actor")
    );
}

#[test]
fn percentiles_rise_in_any_order() {
    let rising = vec![1, 2, 3, 5, 8, 13, 21];
    let mixed = vec![13, 1, 21, 5, 2, 8, 3];
    let values = latency_percentiles(&rising);
    assert_eq!(values, (Some(5), Some(21), Some(21), Some(21)));
    assert_eq!(values, latency_percentiles(&mixed));
    assert_eq!(latency_percentiles(&vec![4]), (Some(4), Some(4), Some(4), Some(4)));
}

#[test]
fn some_statuses_may_get_better() {
    let better = (100..600).filter(|code| is_transient_status(*code)).collect::<Vec<u16>>();
    assert_eq!(better, vec![408, 425, 429, 500, 502, 503, 504]);
}

#[test]
fn services_are_waited_for() {
    assert_eq!(health_url("http://ds:8080//"), "http://ds:8080/health");
    assert_eq!(health_request_timeout_ms(10_000), 5_000);
    assert_eq!(health_request_timeout_ms(300), 300);
    let said = |code: u16, shown: &str| HealthAnswer::Status {
        code,
        shown: shown.to_string(),
        body: "busy".to_string(),
    };
    let lost = |transient: bool| HealthAnswer::NotReached {
        transient,
        error: "connection refused".to_string(),
    };
    let why = |step: HealthStep| match step {
        HealthStep::Failed(why) => why,
        other => panic!("{other:?}"),
    };
    let url = "http://ds/health";
    assert!(matches!(health_step(url, said(204, "204"), 99_999, 10), HealthStep::Healthy));
    assert!(matches!(
        health_step(url, said(503, "503"), 9, 10),
        HealthStep::AskAgain { delay_ms: 200 }
    ));
    assert!(matches!(
        health_step(url, lost(true), 9, 10),
        HealthStep::AskAgain { delay_ms: 200 }
    ));
    assert_eq!(
        why(health_step(url, said(503, "503 Service Unavailable"), 10, 10)),
        "http://ds/health is not healthy: HTTP 503 Service Unavailable: busy"
    );
    assert_eq!(
        why(health_step(url, said(404, "404 Not Found"), 0, 10)),
        "Health check failed with status 404 Not Found: busy"
    );
    assert_eq!(why(health_step(url, lost(false), 0, 10)), "connection refused");
}

#[test]
fn answers_are_kept_for_requests_that_come_again() {
    let answer = |message: &str| CommandResponse {
        status: "ok".to_string(),
        message: message.to_string(),
    };
    let message = |cache: &CompletedCommandCache, id: &str, now: u128| {
        cache.get(id, now).map(|answer| answer.message)
    };
    let mut cache = CompletedCommandCache::new(2, 1);
    assert_eq!(message(&cache, "a", 0), None);
    cache.insert("a".to_string(), answer("first"), 0);
    assert_eq!(message(&cache, "a", 1_000).as_deref(), Some("first"));
    assert_eq!(message(&cache, "a", 1_001), None);
    cache.insert("b".to_string(), answer("second"), 500);
    cache.insert("a".to_string(), answer("again"), 600);
    assert_eq!(message(&cache, "a", 1_600).as_deref(), Some("again"));
    cache.insert("c".to_string(), answer("third"), 700);
    assert_eq!(message(&cache, "a", 700), None);
    assert_eq!(message(&cache, "b", 700).as_deref(), Some("second"));
    assert_eq!(message(&cache, "c", 700).as_deref(), Some("third"));
    let id = Some("d".to_string());
    assert!(matches!(cache.turn(&id, 800), Turn::CarryOut));
    let answer_to_d = cache.finish(id.clone(), Err("too early".to_string()), 800);
    assert_eq!((answer_to_d.status.as_str(), answer_to_d.message.as_str()), ("error", "too early"));
    assert!(matches!(
        cache.turn(&id, 900),
        Turn::Answered(again) if again.status == "error" && again.message == "too early"
    ));
    assert_eq!(cache.finish(None, Ok("fine".to_string()), 900).status, "ok");
    assert!(matches!(cache.turn(&None, 900), Turn::CarryOut));
    let mut none = CompletedCommandCache::new(0, 1);
    none.insert("a".to_string(), answer("x"), 0);
    assert_eq!(message(&none, "a", 0), None);
}
