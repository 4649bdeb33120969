use mls_playground::sampling::{
    build_commit_receive_sampling_map, deterministic_commit_receive_sample_indices,
    sampled_member_index,
};
use mls_playground::workers::WorkerSpec;

fn sampled_indices(member_count: usize, sample_count: usize) -> Vec<usize> {
    (0..sample_count)
        .map(|seq_no| sampled_member_index(member_count, sample_count, seq_no))
        .collect()
}

#[test]
fn samples_every_member_when_sample_count_covers_group() {
    assert_eq!(sampled_indices(16, 16), (0..16).collect::<Vec<_>>());
    assert_eq!(
        sampled_indices(5, 16),
        vec![0, 1, 2, 3, 4, 0, 1, 2, 3, 4, 0, 1, 2, 3, 4, 0]
    );
}

#[test]
fn samples_equal_bucket_right_edges_when_group_exceeds_sample_count() {
    assert_eq!(sampled_indices(20, 4), vec![4, 9, 14, 19]);
    assert_eq!(sampled_indices(100, 4), vec![24, 49, 74, 99]);
}

#[test]
fn includes_last_member_when_sampling_large_group() {
    let indices = sampled_indices(100, 16);

    assert_eq!(indices.last(), Some(&99));
    assert!(indices.iter().all(|&idx| idx < 100));
    assert!(indices.windows(2).all(|pair| pair[0] < pair[1]));
}

#[test]
fn commit_receive_sampling_always_includes_profiled_external_devices() {
    let mut recipients = (0..10)
        .map(|idx| {
            WorkerSpec::legacy(format!("worker-{idx}"), format!("http://worker-{idx}:8080"))
        })
        .collect::<Vec<_>>();
    recipients[2].profile_enabled = true;
    recipients[2].device_kind = "raspberry_pi_5".to_string();
    recipients[7].profile_enabled = true;
    recipients[7].device_kind = "luckfox_pico_plus".to_string();

    let (ids, index_map, count) = build_commit_receive_sampling_map(&recipients, 1, 42, 10, 3, 0);

    assert!(ids.contains("worker-2"));
    assert!(ids.contains("worker-7"));
    assert_eq!(ids.len(), count);
    assert_eq!(index_map.len(), count);
    assert!(count >= 3, "ordinary capped sample plus two externals");
}

#[test]
fn samples_hold_both_ends_and_the_middle() {
    let indices = deterministic_commit_receive_sample_indices(50, 5, 42, 50, 3, 0);
    assert_eq!(indices.len(), 5);
    assert!(indices.contains(&0) && indices.contains(&25) && indices.contains(&49));
    assert!(indices.windows(2).all(|pair| pair[0] < pair[1]));
    assert_eq!(
        indices,
        deterministic_commit_receive_sample_indices(50, 5, 42, 50, 3, 0)
    );
    assert_eq!(
        deterministic_commit_receive_sample_indices(4, 9, 42, 4, 3, 0),
        vec![0, 1, 2, 3]
    );
}
