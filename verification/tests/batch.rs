use mls_playground::batch::{
    membership_batch_group_cap, stable_string_seed, MembershipBatchPlanner, MembershipBatchPlans,
};

#[test]
fn membership_batch_group_cap_is_independent_of_group_size() {
    assert_eq!(membership_batch_group_cap(1), 8);
    assert_eq!(membership_batch_group_cap(7), 8);
    assert_eq!(membership_batch_group_cap(8), 8);
    assert_eq!(membership_batch_group_cap(16), 8);
    assert_eq!(membership_batch_group_cap(32), 8);
    assert_eq!(membership_batch_group_cap(256), 8);
}

#[test]
fn membership_batch_planner_covers_every_k_once_per_cycle() {
    let mut planner = MembershipBatchPlanner::new(0x1234);
    let mut observed =
        (0..8).map(|_| planner.next_batch(32, 8, "test").requested).collect::<Vec<_>>();
    observed.sort_unstable();
    assert_eq!(observed, (1..=8).collect::<Vec<_>>());
}

#[test]
fn membership_batch_planner_uses_largest_feasible_batch_first() {
    let mut planner = MembershipBatchPlanner::new(0x1234);
    let decision = planner.next_batch(32, 4, "test");
    assert_eq!(decision.requested, 4);
    assert_eq!(decision.effective, 4);
}

#[test]
fn membership_batch_planner_is_seed_reproducible() {
    let sequence = |seed| {
        let mut planner = MembershipBatchPlanner::new(seed);
        (0..24).map(|_| planner.next_batch(32, 8, "test").requested).collect::<Vec<_>>()
    };
    assert_eq!(sequence(91), sequence(91));
    assert_ne!(sequence(91), sequence(92));
}

#[test]
fn membership_batch_planner_respects_transition_cap() {
    let mut planner = MembershipBatchPlanner::new(7);
    for _ in 0..128 {
        let decision = planner.next_batch(256, 3, "test");
        assert!((1..=3).contains(&decision.requested));
        assert!((1..=3).contains(&decision.effective));
        assert_eq!(decision.effective, decision.requested);
        assert_eq!(decision.group_cap, 8);
        assert_eq!(decision.transition_cap, 3);
    }
}

#[test]
fn each_device_has_a_plan_of_its_own() {
    let mut plans = MembershipBatchPlans::new(5);
    let first = plans.next_batch(32, 8, Some("device-a"));
    let second = plans.next_batch(32, 8, Some("device-b"));
    assert_eq!(first.requested, 8);
    assert_eq!(second.requested, 8);
    let mut rest =
        (0..7).map(|_| plans.next_batch(32, 8, Some("device-a")).requested).collect::<Vec<_>>();
    rest.sort_unstable();
    assert_eq!(rest, (1..=7).collect::<Vec<_>>());
}

#[test]
fn seeds_of_names_are_known() {
    assert_eq!(stable_string_seed(""), 0xcbf29ce484222325);
    assert_eq!(stable_string_seed("a"), 0xaf63dc4c8601ec8c);
}

#[test]
fn cycle_after_cycle_serves_every_size() {
    let mut planner = MembershipBatchPlanner::new(3);
    for cycle in 0..3 {
        let served =
            (0..5).map(|_| planner.next_batch(16, 5, "test").effective).collect::<Vec<_>>();
        assert_eq!(served[0], 5, "cycle {cycle}");
        let mut sorted = served;
        sorted.sort_unstable();
        assert_eq!(sorted, vec![1, 2, 3, 4, 5]);
    }
    let none = planner.next_batch(16, 0, "test");
    assert_eq!((none.requested, none.effective, none.group_cap), (0, 0, 0));
}
