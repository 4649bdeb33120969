use mls_playground::aggregate::{
    aggregate_rows, aggregation_mode, aggregation_status, client_of_file, ids_in_workers_file,
    ids_of_files, missing_files, plan_files, profile_file_name, ProfileFacts,
};
use mls_playground::record::{apply_app_heap_budget_failure_fields, HeapFacts};
use mls_playground::workers::{WorkerLayout, WorkerLayoutClient, WorkerLayoutPhysicalWorker};

fn facts(ts: u128) -> ProfileFacts {
    ProfileFacts {
        ts_unix_ns: ts,
        span_id: None,
        span_name: None,
        parent_operation: None,
        failure_class: None,
        runner_event_kind: None,
        execution_backend: None,
        device_kind: None,
        memory_model: None,
        app_heap_budget: None,
        app_heap_budget_bytes: None,
    }
}

fn client(id: &str, physical: &str, measured: bool) -> WorkerLayoutClient {
    WorkerLayoutClient {
        client_id: id.to_string(),
        physical_worker_id: physical.to_string(),
        container_mode: "singleton".to_string(),
        profile_enabled: measured,
        command_url: String::new(),
        health_url: String::new(),
        execution_backend: "docker_container".to_string(),
        device_kind: String::new(),
        transport: String::new(),
        access_backend: String::new(),
        arch: String::new(),
        rust_target: String::new(),
    }
}

fn layout(clients: Vec<WorkerLayoutClient>) -> WorkerLayout {
    WorkerLayout {
        version: 2,
        logical_worker_count: clients.len(),
        physical_worker_count: 1,
        layout_mode: "hybrid".to_string(),
        clients,
        physical_workers: vec![WorkerLayoutPhysicalWorker {
            physical_worker_id: "worker-00001".to_string(),
            resource_profile: "envelope".to_string(),
            resource_profile_id: "cpu_1c".to_string(),
            resource_experiment_type: "matrix".to_string(),
            memory_model: "app-heap-budget".to_string(),
            docker_memory_limit: String::new(),
            app_heap_budget: "64k".to_string(),
            app_heap_budget_bytes: Some(65536),
            profiled_singleton: true,
        }],
    }
}

#[test]
fn heap_failures_are_told_by_the_span_they_happened_in() {
    let span = ProfileFacts {
        span_name: Some("commit_receive.path_secret_decrypt".to_string()),
        span_id: Some(77),
        parent_operation: Some("commit_receive_protocol".to_string()),
        ..facts(1)
    };
    let mut heap = HeapFacts::unknown();
    apply_app_heap_budget_failure_fields(
        &mut heap,
        Some("APP_HEAP_BUDGET_EXCEEDED operation_family=commit_receive failure_span_id=77 heap_failure_context=openmls_span_execution"),
    );
    assert_eq!(heap.span_id, Some(77));
    assert_eq!(heap.heap_failure_context.as_deref(), Some("openmls_span_execution"));
    let failure = ProfileFacts {
        span_id: heap.span_id,
        failure_class: Some("app_heap_budget_exceeded".to_string()),
        ..facts(2)
    };
    let rows = aggregate_rows(&None, &vec!["00001".to_string()], &vec![vec![span, failure]]);
    assert_eq!(rows.len(), 2);
    assert_eq!(rows[1].event, 1);
    assert_eq!(
        rows[1].span_name.as_deref(),
        Some("commit_receive.path_secret_decrypt")
    );
    assert_eq!(rows[1].parent_operation.as_deref(), Some("commit_receive_protocol"));
}

#[test]
fn rows_name_the_container_of_a_client() {
    let given = Some(layout(vec![client("00001", "worker-00001", true)]));
    let rows = aggregate_rows(
        &given,
        &vec!["00001".to_string()],
        &vec![vec![ProfileFacts { device_kind: Some("pi".to_string()), ..facts(1) }]],
    );
    assert_eq!(rows[0].worker_id, "worker-00001");
    assert_eq!(rows[0].physical, Some(0));
    assert_eq!(rows[0].container_mode, "singleton");
    assert_eq!(rows[0].execution_backend, "docker_container");
    assert_eq!(rows[0].device_kind, "pi");
    assert_eq!(rows[0].memory_model.as_deref(), Some("app-heap-budget"));
    assert_eq!(rows[0].docker_memory_limit, None);
    assert_eq!(rows[0].app_heap_budget.as_deref(), Some("64k"));
    assert_eq!(rows[0].app_heap_budget_bytes, Some(65536));
    assert_eq!(rows[0].resource_profile, "envelope");
    assert!(rows[0].profiled_singleton);

    let alone = aggregate_rows(&None, &vec!["00001".to_string()], &vec![vec![facts(1)]]);
    assert_eq!(alone[0].worker_id, "00001");
    assert_eq!(alone[0].execution_backend, "local_process");
    assert_eq!(alone[0].device_kind, "local_process");
    assert_eq!(alone[0].resource_profile, "");
    assert!(!alone[0].profiled_singleton);
}

#[test]
fn rows_stand_by_time_with_failures_last() {
    let failed = |ts| ProfileFacts {
        runner_event_kind: Some("worker_failure".to_string()),
        ..facts(ts)
    };
    let rows = aggregate_rows(
        &None,
        &vec!["a".to_string(), "b".to_string()],
        &vec![vec![failed(5), facts(5), facts(9)], vec![facts(3), facts(5)]],
    );
    let places = rows.iter().map(|row| (row.file, row.event)).collect::<Vec<_>>();
    assert_eq!(places, vec![(1, 0), (0, 1), (1, 1), (0, 0), (0, 2)]);
    assert!(aggregate_rows(&None, &vec!["a".to_string()], &vec![vec![]]).is_empty());
}

#[test]
fn files_of_measured_clients_are_read() {
    let named = vec!["00002".to_string(), "00003".to_string(), "00003".to_string()];
    let given = Some(layout(vec![
        client("00001", "worker-00001", true),
        client("00002", "worker-00001", false),
        client("00001", "worker-00001", true),
    ]));
    assert_eq!(
        plan_files(&given, &named),
        vec![
            ("00001".to_string(), true),
            ("00002".to_string(), false),
            ("00003".to_string(), false),
        ]
    );
    assert_eq!(
        plan_files(&None, &named),
        vec![("00002".to_string(), true), ("00003".to_string(), true)]
    );
}

#[test]
fn clients_are_found_in_lists_and_directories() {
    assert_eq!(
        ids_in_workers_file("# all\na=http://a\n\n b=c=d \nnothing\r\n"),
        vec!["a".to_string(), "b".to_string()]
    );
    let names = ["client-b.jsonl", "events.csv", "client-a.jsonl", "client-.jsonl", "client-x.json"]
        .iter()
        .map(|name| name.to_string())
        .collect::<Vec<_>>();
    assert_eq!(
        ids_of_files(&names),
        vec!["".to_string(), "a".to_string(), "b".to_string()]
    );
    assert_eq!(client_of_file("client.jsonl"), None);
    assert_eq!(client_of_file(&profile_file_name("00001")).as_deref(), Some("00001"));
    assert_eq!(
        missing_files(&vec!["a".to_string(), "b".to_string()], &vec![true, false]),
        (1, vec!["b".to_string()])
    );
}

#[test]
fn aggregations_have_a_mode_and_a_status() {
    assert_eq!(aggregation_mode(true), "partial");
    assert_eq!(aggregation_mode(false), "strict");
    assert_eq!(aggregation_status(true, true), "partial_success");
    assert_eq!(aggregation_status(false, true), "complete_success");
    assert_eq!(aggregation_status(true, false), "partial_failure");
    assert_eq!(aggregation_status(false, false), "failed");
}
