use mls_playground::rejoin::select_supplemental_remove_receiver_roles;
use mls_playground::roles::{
    choose_remove_actor_and_removable_indices, external_remove_rejoin_pairs,
    least_sampled_active_external_id, least_used_external_actor_id, protected_member_floor,
    removable_member_indices,
};
use mls_playground::table::Counts;
use mls_playground::workers::{
    active_external_indices, active_profiled_indices, active_profiled_non_external_indices,
    measured_active_clients, parse_worker_specs, physical_groups, ContainerMode, WorkerSpec,
};
use rand::rngs::StdRng;
use rand::SeedableRng;

#[test]
fn random_removal_preserves_profiled_and_external_clients() {
    let mut profiled = WorkerSpec::legacy("00001".into(), "http://worker-1:8080".into());
    profiled.profile_enabled = true;

    let mut external = WorkerSpec::legacy("00002".into(), "http://worker-2:8080".into());
    external.profile_enabled = false;
    external.device_kind = "external-device".into();

    let mut actor = WorkerSpec::legacy("00003".into(), "http://worker-3:8080".into());
    actor.profile_enabled = false;

    let mut ordinary = WorkerSpec::legacy("00004".into(), "http://worker-4:8080".into());
    ordinary.profile_enabled = false;

    let active = vec![profiled, external, actor, ordinary];
    assert_eq!(removable_member_indices(&active, 2, true, true), vec![3]);
    assert_eq!(removable_member_indices(&active, 2, false, true), vec![1, 3]);
}

#[test]
fn protected_members_raise_minimum_plateau_floor() {
    let mut profiled = WorkerSpec::legacy("00001".into(), "http://worker-1:8080".into());
    profiled.profile_enabled = true;

    let mut external = WorkerSpec::legacy("00002".into(), "http://worker-2:8080".into());
    external.profile_enabled = false;
    external.device_kind = "external-device".into();

    let mut ordinary = WorkerSpec::legacy("00003".into(), "http://worker-3:8080".into());
    ordinary.profile_enabled = false;
    let mut scratch = WorkerSpec::legacy("00004".into(), "http://worker-4:8080".into());
    scratch.profile_enabled = false;
    scratch.device_kind = "scratch_container".into();
    let workers = vec![profiled, external, ordinary, scratch];

    assert_eq!(protected_member_floor(&workers, true, false), 1);
    assert_eq!(protected_member_floor(&workers, false, true), 1);
    assert_eq!(protected_member_floor(&workers, true, true), 2);
}

#[test]
fn density_actor_selection_reaches_the_floor_for_each_external_only() {
    let mut external_a = WorkerSpec::legacy("ext-a".into(), "http://a".into());
    external_a.profile_enabled = true;
    external_a.device_kind = "raspberry_pi".into();
    let mut external_b = WorkerSpec::legacy("ext-b".into(), "http://b".into());
    external_b.profile_enabled = true;
    external_b.device_kind = "luckfox".into();
    let mut docker = WorkerSpec::legacy("docker".into(), "http://docker".into());
    docker.profile_enabled = true;
    docker.device_kind = "scratch_container".into();
    let active = vec![external_a, external_b, docker];
    let mut counts = Counts::new();

    while let Some(actor_id) = least_sampled_active_external_id(&active, &counts, 20) {
        counts.count_one(&actor_id);
    }

    assert_eq!(counts.get("ext-a"), Some(20));
    assert_eq!(counts.get("ext-b"), Some(20));
    assert_eq!(counts.get("docker"), None);
}

#[test]
fn two_external_remove_rejoin_uses_non_external_victim_for_receiver_density() {
    let mut external_a = WorkerSpec::legacy("ext-a".into(), "http://a".into());
    external_a.profile_enabled = true;
    external_a.device_kind = "raspberry_pi_5".into();
    let mut external_b = WorkerSpec::legacy("ext-b".into(), "http://b".into());
    external_b.profile_enabled = true;
    external_b.device_kind = "raspberry_pi_3".into();
    let mut profiled_docker = WorkerSpec::legacy("docker".into(), "http://docker".into());
    profiled_docker.profile_enabled = true;
    profiled_docker.device_kind = "scratch_container".into();
    let mut ordinary = WorkerSpec::legacy("ordinary".into(), "http://ordinary".into());
    ordinary.profile_enabled = false;
    let active = vec![external_a, external_b, profiled_docker, ordinary];
    let external_ids = vec!["ext-a".to_string(), "ext-b".to_string()];
    let mut actor_counts = Counts::new();
    actor_counts.put("ext-a", 20);
    actor_counts.put("ext-b", 20);
    let mut receiver_counts = Counts::new();

    let first = select_supplemental_remove_receiver_roles(
        &active,
        &external_ids,
        &actor_counts,
        &receiver_counts,
        20,
        128,
    )
    .unwrap()
    .unwrap();
    assert_eq!(first, ("ext-b".into(), "ordinary".into(), "ext-a".into()));

    receiver_counts.put("ext-a", 20);
    let second = select_supplemental_remove_receiver_roles(
        &active,
        &external_ids,
        &actor_counts,
        &receiver_counts,
        20,
        128,
    )
    .unwrap()
    .unwrap();
    assert_eq!(second, ("ext-a".into(), "ordinary".into(), "ext-b".into()));

    receiver_counts.put("ext-b", 20);
    assert!(select_supplemental_remove_receiver_roles(
        &active,
        &external_ids,
        &actor_counts,
        &receiver_counts,
        20,
        128,
    )
    .unwrap()
    .is_none());
}

#[test]
fn removal_actor_prefers_actor_that_can_remove_full_batch() {
    let mut protected = WorkerSpec::legacy("00001".into(), "http://worker-1:8080".into());
    protected.profile_enabled = true;

    let mut ordinary_a = WorkerSpec::legacy("00002".into(), "http://worker-2:8080".into());
    ordinary_a.profile_enabled = false;
    let mut ordinary_b = WorkerSpec::legacy("00003".into(), "http://worker-3:8080".into());
    ordinary_b.profile_enabled = false;
    let active = vec![protected, ordinary_a, ordinary_b];
    let mut rng = StdRng::seed_from_u64(7);

    let (actor_idx, removable) =
        choose_remove_actor_and_removable_indices(&active, None, false, true, 2, &mut rng).unwrap();

    assert_eq!(actor_idx, 0);
    assert_eq!(removable, vec![1, 2]);
}

#[test]
fn external_actor_selection_balances_use_counts() {
    let mut workers = (0..3)
        .map(|idx| {
            let mut worker = WorkerSpec::legacy(
                format!("external-{idx}"),
                format!("http://external-{idx}:8080"),
            );
            worker.device_kind = "external_device".to_string();
            worker
        })
        .collect::<Vec<_>>();
    workers.push(WorkerSpec::legacy(
        "container".to_string(),
        "http://container:8080".to_string(),
    ));
    let mut counts = Counts::new();
    let mut rng = StdRng::seed_from_u64(17);

    for _ in 0..12 {
        let actor = least_used_external_actor_id(&workers, &counts, &mut rng).unwrap();
        counts.count_one(&actor);
    }

    assert_eq!(counts.len(), 3);
    assert!((0..3).all(|idx| counts.get(&format!("external-{idx}")) == Some(4)));
    assert!(counts.get("container").is_none());
}

#[test]
fn external_remove_rejoin_pairs_cover_each_device_in_both_roles() {
    let mut workers = ["external-c", "external-a", "external-b"]
        .into_iter()
        .map(|id| {
            let mut worker = WorkerSpec::legacy(id.to_string(), format!("http://{id}:8080"));
            worker.device_kind = "external_device".to_string();
            worker.profile_enabled = true;
            worker
        })
        .collect::<Vec<_>>();
    let mut local = WorkerSpec::legacy(
        "profiled-local".to_string(),
        "http://profiled-local:8080".to_string(),
    );
    local.profile_enabled = true;
    workers.push(local);

    assert_eq!(
        external_remove_rejoin_pairs(&workers),
        vec![
            ("external-a".to_string(), "external-b".to_string()),
            ("external-b".to_string(), "external-c".to_string()),
            ("external-c".to_string(), "external-a".to_string()),
        ]
    );
}

#[test]
fn workers_are_read_from_id_and_url() {
    let workers =
        parse_worker_specs(&["a=http://a:1/".to_string(), " b = http://b:2 ".to_string()]).unwrap();
    assert_eq!(workers.len(), 2);
    assert_eq!(workers[0].id, "a");
    assert_eq!(workers[0].url, "http://a:1");
    assert_eq!(workers[0].command_url, "http://a:1/command");
    assert_eq!(workers[1].health_url, "http://b:2/health");

    let refused = |raw: &[&str]| {
        let specs = raw.iter().map(|s| s.to_string()).collect::<Vec<_>>();
        parse_worker_specs(&specs).unwrap_err().message()
    };
    assert_eq!(refused(&["nothing"]), "Invalid worker 'nothing', expected ID=URL");
    assert_eq!(refused(&["=http://a"]), "Worker id cannot be empty in '=http://a'");
    assert_eq!(refused(&["a="]), "Worker url cannot be empty in 'a='");
    assert_eq!(refused(&["a=u", "a=v"]), "Duplicate worker id 'a'");
    assert_eq!(refused(&[]), "At least one worker must be provided");
}

#[test]
fn workers_are_grouped_by_container() {
    let mut a = WorkerSpec::legacy("a".into(), "http://a".into());
    a.physical_worker_id = "pack".into();
    a.container_mode = ContainerMode::Packed;
    let b = WorkerSpec::legacy("b".into(), "http://b".into());
    let mut c = WorkerSpec::legacy("c".into(), "http://c".into());
    c.physical_worker_id = "pack".into();
    c.profile_enabled = false;
    let mut device = WorkerSpec::legacy("d".into(), "http://d".into());
    device.device_kind = "raspberry_pi".into();
    let all = vec![a, b, c, device];
    let groups = physical_groups(&all);
    let pack = groups.iter().find(|(id, _)| id == "pack").unwrap();
    assert_eq!(pack.1.iter().map(|w| w.id.as_str()).collect::<Vec<_>>(), vec!["a", "c"]);
    assert_eq!(groups.len(), 3);
    assert_eq!(active_external_indices(&all), vec![3]);
    assert_eq!(active_profiled_indices(&all), vec![0, 1, 3]);
    assert_eq!(active_profiled_non_external_indices(&all), vec![0, 1]);
    assert_eq!(
        measured_active_clients(&all).iter().map(|w| w.id.as_str()).collect::<Vec<_>>(),
        vec!["a", "b", "d"]
    );
}
