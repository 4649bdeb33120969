use std::collections::HashMap;

use mls_playground::command::Command;
use mls_playground::failure::{BatchFanoutError, Failure, FanoutFailure, WorkerFailure};
use mls_playground::flags::{PayloadSizes, PlateauOrder, StepSize};
use mls_playground::staircase::{external_device_count, plan_plateaus, Run, RunPlan};
use mls_playground::task::{Next, Order, Report, Spread};
use mls_playground::transition::Chance;
use mls_playground::transport::{CommandResponse, GroupStateSnapshot};
use mls_playground::workers::WorkerSpec;

type State = (u64, Vec<String>);

/// A group of workers that do what they are told.
struct World {
    states: HashMap<String, State>,
    published: Option<State>,
    messages: usize,
    updates: usize,
    additions: usize,
    removals: usize,
    ticks: usize,
    /// The worker whose next commit of another runs out of memory.
    fragile: Option<String>,
    dead: Vec<String>,
}

impl World {
    fn new() -> World {
        World {
            states: HashMap::new(),
            published: None,
            messages: 0,
            updates: 0,
            additions: 0,
            removals: 0,
            ticks: 0,
            fragile: None,
            dead: Vec::new(),
        }
    }

    fn snapshot(&self, id: &str) -> GroupStateSnapshot {
        let (epoch, members) = self.states.get(id).expect("a member");
        let mut members = members.clone();
        members.sort();
        GroupStateSnapshot { group_id: "g".to_string(), epoch: *epoch, members }
    }

    fn command(&mut self, id: &str, command: &Command) {
        match command {
            Command::CreateGroup => {
                self.states.insert(id.to_string(), (0, vec![id.to_string()]));
            }
            Command::AddMembers { members } => {
                let (epoch, mut all) = self.states[id].clone();
                assert!(members.iter().all(|m| !all.contains(m)));
                all.extend(members.iter().cloned());
                self.published = Some((epoch + 1, all));
                self.additions += members.len();
            }
            Command::RemoveMembers { members } => {
                let (epoch, mut all) = self.states[id].clone();
                assert!(members.iter().all(|m| all.contains(m)));
                all.retain(|m| !members.contains(m));
                self.published = Some((epoch + 1, all));
                self.removals += members.len();
            }
            Command::SelfUpdate => {
                let (epoch, all) = self.states[id].clone();
                self.published = Some((epoch + 1, all));
                self.updates += 1;
            }
            Command::JoinFromWelcome => {
                let state = self.published.clone().expect("an invitation");
                assert!(state.1.iter().any(|m| m == id));
                self.states.insert(id.to_string(), state);
            }
            Command::SendApplicationMessage { .. } => {
                self.messages += 1;
            }
            _ => {}
        }
    }

    fn handle(&mut self, id: &str) {
        let state = self.published.clone().expect("a commit");
        if state.1.iter().any(|m| m == id) {
            self.states.insert(id.to_string(), state);
        } else {
            self.states.remove(id);
        }
    }

    fn perform(&mut self, order: Order) -> Report {
        match order {
            Order::Send { worker, command, ok_fragment, .. }
            | Order::SendUntilOk { worker, command, ok_fragment, .. } => {
                self.command(&worker.id, &command);
                Report::Sent(Ok(ok_fragment))
            }
            Order::Ask { worker, command, .. } => {
                self.command(&worker.id, &command);
                let message = match &command {
                    Command::RemoveMembers { members } => {
                        format!("members {:?} removed locally; group commit published", members)
                    }
                    _ => "done".to_string(),
                };
                Report::Answered(Ok(CommandResponse { status: "ok".to_string(), message }))
            }
            Order::ShowState { worker } => Report::State(Ok(self.snapshot(&worker.id))),
            Order::Handle { worker, .. } => {
                self.handle(&worker.id);
                Report::Handled(Ok(()))
            }
            Order::SpreadCommit { phase, operation, task, .. } => {
                let fragile = self.fragile.clone();
                let mut failures = Vec::new();
                for worker in task.recipients {
                    if Some(&worker.id) == fragile.as_ref() && !self.dead.contains(&worker.id) {
                        self.dead.push(worker.id.clone());
                        failures.push(FanoutFailure {
                            error: WorkerFailure::plain(
                                "APP_HEAP_BUDGET_EXCEEDED failure_class=app_heap_budget_exceeded"
                                    .to_string(),
                            ),
                            worker,
                        });
                    } else if !self.dead.contains(&worker.id) {
                        self.handle(&worker.id);
                    }
                }
                if failures.is_empty() {
                    Report::Spread(Ok(()))
                } else {
                    Report::Spread(Err(Failure::Batch(BatchFanoutError {
                        phase: phase.to_string(),
                        operation: operation.to_string(),
                        failures,
                    })))
                }
            }
            Order::SpreadMessage { .. } => Report::Spread(Ok(())),
            Order::Record { .. } => Report::Recorded(Ok(false)),
            Order::RecordAll { error, .. } => match error {
                Failure::Batch(error) => Report::AllRecorded(Ok(Some(
                    error.failures.into_iter().map(|failure| failure.worker).collect(),
                ))),
                Failure::Worker(_) => Report::AllRecorded(Ok(None)),
            },
            Order::Gather { workers } => {
                let answers = workers
                    .iter()
                    .map(|worker| (worker.clone(), self.snapshot(&worker.id)))
                    .collect();
                Report::Gathered(Ok(answers))
            }
            Order::Tick { units, .. } => {
                self.ticks += units;
                Report::Ticked
            }
        }
    }
}

fn workers(count: usize) -> Vec<WorkerSpec> {
    (0..count)
        .map(|i| WorkerSpec::legacy(format!("{i:05}"), format!("http://worker-{i:05}:8080")))
        .collect()
}

fn plan(plateaus: Vec<usize>) -> RunPlan {
    RunPlan {
        plateaus,
        spread: Spread { pending: false, max_samples: 2, seed: 9 },
        external_coverage_lane: false,
        profile_only_singletons: false,
        remove_rejoin: false,
        min_profiled_samples_per_operation: 0,
        update_rounds: 1,
        max_update_samples_per_plateau: 2,
        app_rounds: 1,
        max_app_samples_per_payload: 2,
        payload_sizes: PayloadSizes::Fixed(vec![64, 128]),
    }
}

fn drive(world: &mut World, all: &[WorkerSpec], plan: RunPlan) -> (Run, Result<(), Failure>) {
    let mut chance = Chance::new(5);
    let (mut run, mut order) = Run::start(all, plan);
    for _ in 0..100_000 {
        match run.step(world.perform(order), &mut chance) {
            Next::Do(next) => order = next,
            Next::Done(result) => return (run, result),
        }
    }
    panic!("the run does not end");
}

fn known(run: &Run) -> Vec<String> {
    let mut ids = run
        .active
        .iter()
        .chain(run.idle.iter())
        .map(|worker| worker.id.clone())
        .collect::<Vec<_>>();
    ids.sort();
    ids
}

#[test]
fn whole_run_visits_every_plateau() {
    let all = workers(9);
    let (smallest, plateaus) = plan_plateaus(
        &all,
        2,
        9,
        &vec![],
        &StepSize::Fixed(3),
        1,
        PlateauOrder::Staircase,
        false,
        false,
        3,
    )
    .unwrap();
    assert_eq!(smallest, 2);
    assert_eq!(plateaus, vec![2, 5, 8, 9, 8, 5, 2]);
    let mut world = World::new();
    let (run, result) = drive(&mut world, &all, plan(plateaus));
    assert!(result.is_ok(), "{:?}", result);
    assert_eq!(run.active.len(), 2);
    assert_eq!(run.idle.len(), 7);
    assert_eq!(known(&run), all.iter().map(|w| w.id.clone()).collect::<Vec<_>>());
    assert_eq!(world.additions, 8);
    assert_eq!(world.removals, 7);
    assert_eq!(world.updates, 7 * 2);
    assert_eq!(world.messages, 7 * 2 * 2);
    assert!(world.ticks > 0);
}

#[test]
fn run_goes_on_without_a_worker_that_failed() {
    let all = workers(6);
    let mut world = World::new();
    world.fragile = Some("00002".to_string());
    let mut given = plan(vec![5]);
    given.profile_only_singletons = false;
    let (run, result) = drive(&mut world, &all, given);
    assert!(result.is_ok(), "{:?}", result);
    assert_eq!(world.dead, vec!["00002".to_string()]);
    assert!(!run.active.iter().any(|worker| worker.id == "00002"));
    let members = run.active.iter().map(|worker| worker.id.clone()).collect::<Vec<_>>();
    for id in &members {
        let mut sorted = members.clone();
        sorted.sort();
        assert_eq!(world.snapshot(id).members, sorted);
    }
}

#[test]
fn devices_leave_and_return() {
    let mut all = workers(5);
    for worker in all.iter_mut().take(2) {
        worker.device_kind = "raspberry_pi".to_string();
    }
    assert_eq!(external_device_count(&all), 2);
    let mut given = plan(vec![5]);
    given.remove_rejoin = true;
    given.external_coverage_lane = true;
    given.min_profiled_samples_per_operation = 2;
    let mut world = World::new();
    let (run, result) = drive(&mut world, &all, given);
    assert!(result.is_ok(), "{:?}", result);
    assert_eq!(run.active.len(), 5);
    assert_eq!(known(&run), all.iter().map(|w| w.id.clone()).collect::<Vec<_>>());
    assert!(world.removals > 0);
    assert_eq!(world.additions, 4 + world.removals);
    assert_eq!(world.updates, 0);
}

#[test]
fn devices_reach_their_number_of_samples() {
    let mut all = workers(12);
    for worker in all.iter_mut().take(2) {
        worker.device_kind = "raspberry_pi".to_string();
    }
    for worker in all.iter_mut().skip(2) {
        worker.profile_enabled = false;
    }
    let mut given = plan(vec![10]);
    given.external_coverage_lane = true;
    given.min_profiled_samples_per_operation = 3;
    let mut world = World::new();
    let (run, result) = drive(&mut world, &all, given);
    assert!(result.is_ok(), "{:?}", result);
    assert_eq!(run.active.len(), 10);
    assert_eq!(known(&run), all.iter().map(|w| w.id.clone()).collect::<Vec<_>>());
    assert_eq!(world.updates, 2 * 3);
    assert_eq!(world.messages, 2 * 2 * 3);
}

#[test]
fn refused_commands_end_a_run() {
    let all = workers(2);
    let mut chance = Chance::new(1);
    let (mut run, _) = Run::start(&all, plan(vec![2]));
    let failed = Report::Sent(Err(Failure::plain("no".to_string())));
    match run.step(failed, &mut chance) {
        Next::Done(Err(error)) => assert_eq!(error.message(), "no"),
        other => panic!("{:?}", other),
    }
}
