use mls_playground::heap_budget::{
    budget_from_settings, display_budget, display_operation, failure_if_exceeded,
    operation_family_for_command, parse_memory_to_bytes, EmbeddedHeapBudgetConfig,
    HeapBudgetSnapshot, OperationAttribution,
};
use mls_playground::record::app_heap_field;

#[test]
fn parses_heap_budget_units() {
    assert_eq!(parse_memory_to_bytes("32k"), Some(32 * 1024));
    assert_eq!(parse_memory_to_bytes("1m"), Some(1024 * 1024));
    assert_eq!(parse_memory_to_bytes("2MiB"), Some(2 * 1024 * 1024));
}

#[test]
fn maps_worker_commands_to_operation_families() {
    assert_eq!(
        operation_family_for_command("JoinFromWelcome", Some("add_commit")),
        "welcome_receive"
    );
    assert_eq!(operation_family_for_command("ReceiveCommit", None), "commit_receive");
}

#[test]
fn odd_sizes_are_refused() {
    assert_eq!(parse_memory_to_bytes("12"), Some(12));
    assert_eq!(parse_memory_to_bytes(""), None);
    assert_eq!(parse_memory_to_bytes("k"), None);
    assert_eq!(parse_memory_to_bytes("5 parsecs"), None);
}

#[test]
fn budget_comes_from_the_settings() {
    let config = budget_from_settings(
        &Some("app-heap-budget".to_string()),
        &Some("64k".to_string()),
        &None,
        &None,
        &Some("ram_64k".to_string()),
        &Some("2".to_string()),
    );
    assert!(config.enabled);
    assert_eq!(config.app_heap_budget_bytes, 64 * 1024);
    assert_eq!(config.resource_profile_id, "ram_64k");
    assert_eq!(config.resource_profile_index, Some(2));
    assert!(!budget_from_settings(&None, &None, &None, &None, &None, &None).enabled);
    assert!(!EmbeddedHeapBudgetConfig::default().enabled);
}

#[test]
fn exceeded_budget_is_told() {
    let attribution = OperationAttribution {
        operation_family: "commit_receive".to_string(),
        benchmark_operation: "self_update".to_string(),
        span_or_phase: "update.fanout".to_string(),
        member_count: Some(7),
        epoch: Some(3),
        worker_id: "00042".to_string(),
        resource_profile_id: "ram".to_string(),
        resource_profile_index: Some(1),
        app_heap_budget: "64k".to_string(),
        app_heap_budget_bytes: 65536,
    };
    let snapshot = HeapBudgetSnapshot {
        budget_exceeded: true,
        configured_heap_budget_bytes: 65536,
        failure_current_live_heap_bytes: 70000,
        failure_peak_live_heap_bytes: 70001,
        failure_operation_peak_live_heap_bytes: 70002,
        failure_total_allocated_bytes: 80000,
        failure_allocation_count: 9,
        failure_deallocation_count: 8,
        failed_allocation_size_bytes: Some(4464),
    };
    let told = failure_if_exceeded(&attribution, snapshot).unwrap().to_worker_error_message();
    assert_eq!(
        app_heap_field(&told, "operation_family").as_deref(),
        Some("commit_receive")
    );
    assert_eq!(app_heap_field(&told, "worker_id").as_deref(), Some("00042"));
    assert_eq!(
        app_heap_field(&told, "current_live_heap_bytes").as_deref(),
        Some("70000")
    );
    assert_eq!(
        app_heap_field(&told, "failed_allocation_size_bytes").as_deref(),
        Some("4464")
    );
    for absent in ["heap_bytes", "member", "count", "allocation", "The", "at", "failure"] {
        assert_eq!(app_heap_field(&told, absent), None);
    }
    let nowhere = OperationAttribution { member_count: None, epoch: None, ..attribution.clone() };
    let told = failure_if_exceeded(&nowhere, snapshot).unwrap().to_worker_error_message();
    assert_eq!(app_heap_field(&told, "member_count").as_deref(), Some(""));
    assert_eq!(app_heap_field(&told, "epoch").as_deref(), Some(""));
    assert_eq!(app_heap_field(&told, "worker_id").as_deref(), Some("00042"));
    let calm = HeapBudgetSnapshot { budget_exceeded: false, ..snapshot };
    assert!(failure_if_exceeded(&attribution, calm).is_none());
}

#[test]
fn budgets_and_operations_have_names() {
    assert_eq!(display_budget(64 * 1024), "64 KiB");
    assert_eq!(display_operation("commit_receive"), "CommitReceive");
}
