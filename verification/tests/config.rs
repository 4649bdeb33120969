use mls_playground::config::{run_dir_for, validate_config, validate_run_id, StaircaseConfig};
use mls_playground::flags::{PayloadSizes, PlateauOrder, ProfiledFailurePolicy, StepSize};
use mls_playground::workers::WorkerSpec;

#[test]
fn validate_run_id_accepts_valid() {
    for rid in &["run-001", "test.123", "bench_2026", "a", "0", "A.B_C"] {
        assert!(validate_run_id(rid).is_ok(), "Expected '{}' to be valid", rid);
    }
}

#[test]
fn validate_run_id_rejects_empty() {
    assert!(validate_run_id("").is_err());
}

#[test]
fn validate_run_id_rejects_path_traversal() {
    for rid in &["/", ".", "..", "foo/bar", "../../etc"] {
        assert!(validate_run_id(rid).is_err(), "Expected '{}' to be rejected", rid);
    }
}

#[test]
fn validate_run_id_rejects_special_chars() {
    for rid in &["hello world", "foo$bar", "foo|bar", "foo;bar"] {
        assert!(validate_run_id(rid).is_err(), "Expected '{}' to be rejected", rid);
    }
}

#[test]
fn refused_run_ids_say_why() {
    assert_eq!(validate_run_id(""), Err("Run ID must not be empty".to_string()));
    assert_eq!(validate_run_id(".."), Err("Run ID must not be '..'".to_string()));
    assert_eq!(validate_run_id("a/b"), Err("Run ID must not contain '/'".to_string()));
    assert_eq!(
        validate_run_id("a b"),
        Err("Run ID must only contain [A-Za-z0-9._-], got 'a b'".to_string())
    );
}

#[test]
fn runs_have_directories_of_their_own() {
    assert_eq!(run_dir_for("out", "run-1"), "out/run-1");
    assert_eq!(run_dir_for("out/", "run-1"), "out/run-1");
    assert_ne!(run_dir_for("out", "run-1"), run_dir_for("out", "run-2"));
}

fn config() -> StaircaseConfig {
    StaircaseConfig {
        preflight_only: false,
        ds_url: "http://ds".to_string(),
        workers: (0..4)
            .map(|i| WorkerSpec::legacy(format!("w{i}"), format!("http://w{i}")))
            .collect(),
        min_size: 2,
        max_size: None,
        step_size: StepSize::Fixed(1),
        plateau_sizes: vec![],
        plateau_order: PlateauOrder::Staircase,
        roundtrips: 1,
        update_rounds: 1,
        app_rounds: 1,
        max_update_samples_per_plateau: 0,
        max_app_samples_per_payload: 0,
        min_profiled_samples_per_operation: 0,
        max_commit_receive_samples_per_plateau: 0,
        commit_receive_sampling_seed: 0,
        payload_sizes: PayloadSizes::Fixed(vec![32]),
        scenario_seed: 1,
        run_id: "r".to_string(),
        scenario: "s".to_string(),
        output_dir: "out".to_string(),
        worker_health_timeout_seconds: 10,
        worker_health_poll_ms: 100,
        max_fanout_parallelism: 0,
        min_fanout_parallelism: 0,
        fanout_adaptive: None,
        fanout_p95_threshold_ms: 0,
        http_pool_max_idle_per_host: 0,
        process_pending_fanout: false,
        profile_only_singletons: false,
        external_coverage_lane: false,
        no_aggregate: false,
        failure_experiment: false,
        profiled_failure_policy: ProfiledFailurePolicy::StopOnProfiledFailure,
        remove_rejoin: false,
    }
}

#[test]
fn configurations_are_checked() {
    assert_eq!(validate_config(&config(), 4), Ok(4));
    let refused = |change: fn(&mut StaircaseConfig)| {
        let mut given = config();
        change(&mut given);
        validate_config(&given, 4).unwrap_err()
    };
    assert_eq!(refused(|c| c.min_size = 0), "--min-size must be at least 1");
    assert_eq!(refused(|c| c.step_size = StepSize::Fixed(0)), "--step-size must be at least 1");
    assert_eq!(refused(|c| c.roundtrips = 0), "--roundtrips must be at least 1");
    assert_eq!(
        refused(|c| c.payload_sizes = PayloadSizes::Fixed(vec![])),
        "At least one payload size is required"
    );
    assert_eq!(
        refused(|c| c.min_profiled_samples_per_operation = 1),
        "--min-external-samples-per-operation requires --external-coverage-lane and at least one profile-enabled external device"
    );
    assert_eq!(refused(|c| c.max_size = Some(0)), "--max-size must be at least 1");
    assert_eq!(
        refused(|c| c.max_size = Some(5)),
        "--max-size 5 exceeds number of supplied workers 4"
    );
    assert_eq!(
        refused(|c| {
            c.min_size = 4;
            c.max_size = Some(3);
        }),
        "--min-size 4 cannot exceed --max-size 3"
    );
    assert_eq!(
        refused(|c| c.plateau_sizes = vec![2, 3]),
        "--plateau-sizes requires --plateau-order ascending"
    );
    let ascending = |sizes: Vec<usize>| {
        let mut given = config();
        given.plateau_order = PlateauOrder::Ascending;
        given.plateau_sizes = sizes;
        validate_config(&given, 4)
    };
    assert_eq!(ascending(vec![2, 4]), Ok(4));
    assert_eq!(
        ascending(vec![0, 4]),
        Err("--plateau-sizes values must be at least 1".to_string())
    );
    assert_eq!(
        ascending(vec![3, 3]),
        Err("--plateau-sizes must be strictly increasing; got [3, 3]".to_string())
    );
    assert_eq!(
        ascending(vec![1, 4]),
        Err("--plateau-sizes [1, 4] must stay within --min-size 2 and --max-size 4".to_string())
    );
}
