//! The phase in which members renew their keys, one after the other.

use rand::rngs::StdRng;
use vstd::prelude::*;

use crate::command;
use crate::command::{BenchmarkCursor, Command};
use crate::draw;
use crate::evict;
use crate::evict::Evict;
use crate::expect::{expected_group_state, ExpectedGroupState};
use crate::failure;
use crate::failure::Failure;
use crate::order;
use crate::plan;
use crate::plan::{plan_updates, ActorPlan};
use crate::roles;
use crate::sampling;
use crate::table;
use crate::table::{Counts, IdSet};
use crate::task;
use crate::task::{first_other, CommitFanout, Next, Order, Report, Spread};
use crate::text;
use crate::text::decimal_text;
use crate::transport;
use crate::units;
use crate::units::{add_up, update_ops_for_plateau};
use crate::workers;
use crate::workers::{active_profiled_indices, copy_workers, WorkerSpec};

verus! {

/// How far the phase is.
#[derive(Debug)]
pub enum UpdateStage {
    /// The actor's state is asked for.
    Looking,
    /// The actor renews its keys.
    Committing { expected: ExpectedGroupState },
    /// The actor handles its own commit.
    Handling { expected: ExpectedGroupState },
    /// The other members handle the commit.
    Spreading,
    /// The actor failed; its failure is written down.
    LosingActor { error: Failure },
    /// Other members failed; their failures are written down.
    LosingOthers { error: Failure },
    /// All that died are taken out.
    Evicting(Evict),
    /// The work is reported.
    Reporting,
    /// Nothing is left to do.
    Over,
}

/// The phase in which members renew their keys.
#[derive(Debug)]
pub struct UpdatePhase {
    pub active: Vec<WorkerSpec>,
    pub spread: Spread,
    pub plateau_size: usize,
    pub plateau_index: usize,
    pub plan: ActorPlan,
    /// How often each device renewed its keys.
    pub samples: Counts,
    /// How many turns are done.
    pub seq_no: usize,
    pub actor: Option<WorkerSpec>,
    pub actor_idx: usize,
    pub stage: UpdateStage,
}

/// What the phase leads to.
pub type Updated = Next<Result<(), Failure>>;

/// The number of a turn, counted from one.
pub open spec fn number_of(seq_no: usize) -> usize {
    units::saturated(seq_no + 1) as usize
}

impl UpdatePhase {
    /// While something is left to do there is an actor in its place.
    pub open spec fn wf(self) -> bool {
        &&& self.plan.total > 0 || self.stage is Over
        &&& !(self.stage is Over || self.stage is Evicting) ==> {
            &&& self.actor is Some
            &&& self.actor_idx < self.active@.len()
            &&& self.actor->0 == self.active@[self.actor_idx as int]
        }
        &&& self.stage matches UpdateStage::Evicting(evict) ==> evict.wf() && evict.active@
            == self.active@
    }

    /// The report is one that the stage waits for.
    pub open spec fn waits_for(self, report: Report) -> bool {
        match self.stage {
            UpdateStage::Looking => report.is_state(),
            UpdateStage::Committing { expected: _ } => report is Sent,
            UpdateStage::Handling { expected: _ } => report is Handled,
            UpdateStage::Spreading => report is Spread,
            UpdateStage::LosingActor { error: _ } => report is Recorded,
            UpdateStage::LosingOthers { error: _ } => report is AllRecorded,
            UpdateStage::Evicting(evict) => evict.waits_for(report),
            UpdateStage::Reporting => report is Ticked,
            UpdateStage::Over => false,
        }
    }

    /// What does not change.
    pub open spec fn same_task(self, other: UpdatePhase) -> bool {
        &&& self.spread == other.spread
        &&& self.plateau_size == other.plateau_size
        &&& self.plateau_index == other.plateau_index
        &&& self.plan == other.plan
    }

    /// The turns stay.
    pub open spec fn same_turn(self, other: UpdatePhase) -> bool {
        &&& self.seq_no == other.seq_no
        &&& self.samples@ == other.samples@
    }

    /// All else stays.
    pub open spec fn stays(self, after: UpdatePhase) -> bool {
        &&& after.active@ == self.active@
        &&& after.same_turn(self)
        &&& after.actor == self.actor
        &&& after.actor_idx == self.actor_idx
    }

    /// The place in the run.
    pub open spec fn marks(self) -> command::Marks {
        command::Marks::at(
            self.plateau_index,
            self.plateau_size,
            self.active@.len() as usize,
            "update"@,
            "self_update"@,
        ).numbered(number_of(self.seq_no), None)
    }

    /// The phase is over.
    pub open spec fn ends(self, active: Seq<WorkerSpec>) -> bool {
        &&& self.active@ == active
        &&& self.stage is Over
    }

    /// The phase failed.
    pub open spec fn fails(
        self,
        error: failure::FailureView,
        after: UpdatePhase,
        next: Updated,
    ) -> bool {
        &&& after.ends(self.active@)
        &&& evict::failed(next, error)
    }

    /// The next turn. Without one, or without a measured member, the phase is over.
    pub open spec fn chooses(
        self,
        active: Seq<WorkerSpec>,
        samples: Map<Seq<char>, usize>,
        seq_no: usize,
        after: UpdatePhase,
        next: Updated,
    ) -> bool {
        exists|device: Option<Seq<char>>|
            {
                &&& #[trigger] self.plan@.device_next(active, samples, device)
                &&& if self.plan@.done(seq_no, device) || workers::places(
                    active,
                    workers::profiled(),
                ).len() == 0 {
                    &&& after.ends(active)
                    &&& evict::succeeded(next)
                } else {
                    &&& after.active@ == active
                    &&& after.samples@ == samples
                    &&& after.seq_no == seq_no
                    &&& self.plan@.acts_at(active, seq_no, device, after.actor_idx)
                    &&& after.actor == Some(active[after.actor_idx as int])
                    &&& after.stage is Looking
                    &&& next is Do
                    &&& next->Do_0.shows(active[after.actor_idx as int])
                }
            }
    }

    /// The actor's failure is written down.
    pub open spec fn loses_actor(
        self,
        error: failure::FailureView,
        after: UpdatePhase,
        next: Updated,
    ) -> bool {
        &&& self.stays(after)
        &&& after.stage is LosingActor
        &&& after.stage->LosingActor_error@ == error
        &&& next is Do
        &&& next->Do_0.records(
            self.marks(),
            self.actor->0,
            error,
            "evict_update_actor_and_retry"@,
            task::other_than(self.active@, self.actor->0.id@),
        )
    }

    /// Those that died are taken out, and the turn is taken again.
    pub open spec fn evicts(
        self,
        dead: Seq<WorkerSpec>,
        after: UpdatePhase,
        next: Updated,
    ) -> bool {
        if dead.len() == 0 {
            self.chooses(self.active@, self.samples@, self.seq_no, after, next)
        } else {
            &&& after.active@ == self.active@
            &&& after.same_turn(self)
            &&& crate::add::begins_eviction(
                self.active@,
                dead,
                self.spread,
                self.plateau_size,
                match after.stage {
                    UpdateStage::Evicting(evict) => Some(evict),
                    _ => None,
                },
                after.stage is Over,
                next,
            )
        }
    }

    /// What follows a step of an eviction.
    pub open spec fn after_evict(
        self,
        evict: Evict,
        step: Updated,
        after: UpdatePhase,
        next: Updated,
    ) -> bool {
        match step {
            Next::Do(_) => {
                &&& after.active@ == self.active@
                &&& after.same_turn(self)
                &&& after.stage == UpdateStage::Evicting(evict)
                &&& next == step
            },
            Next::Done(Ok(_)) => self.chooses(
                evict.active@,
                self.samples@,
                self.seq_no,
                after,
                next,
            ),
            Next::Done(Err(error)) => self.fails(error@, after, next),
        }
    }

    /// The label of the work that is done.
    pub open spec fn label(self) -> Seq<char> {
        "plateau "@ + text::decimal(self.plateau_size as nat) + " update "@ + text::decimal(
            number_of(self.seq_no) as nat,
        ) + "/"@ + text::decimal(self.plan.total as nat) + " actor="@ + self.actor->0.id@
    }

    /// How far the phase is after a report, and what is done then.
    pub open spec fn next(self, report: Report, after: UpdatePhase, next: Updated) -> bool {
        &&& after.same_task(self)
        &&& match (self.stage, report) {
            (UpdateStage::Looking, Report::State(Err(error))) => self.loses_actor(
                error@,
                after,
                next,
            ),
            (UpdateStage::Looking, Report::State(Ok(before))) => {
                &&& self.stays(after)
                &&& after.stage is Committing
                &&& after.stage->Committing_expected@ == (transport::StateView {
                    group_id: before@.group_id,
                    epoch: (before@.epoch + 1) as u64,
                    members: order::ascending(before@.members),
                })
                &&& next is Do
                &&& next->Do_0.sends(
                    self.actor->0,
                    command::CommandView::SelfUpdate,
                    "self_update commit published to group"@,
                    Some("update.create"@),
                    self.marks(),
                )
            },
            (UpdateStage::Committing { expected: _ }, Report::Sent(Err(error))) => self.loses_actor(
                error@,
                after,
                next,
            ),
            (UpdateStage::Committing { expected }, Report::Sent(Ok(_))) => {
                &&& self.stays(after)
                &&& after.stage is Handling
                &&& after.stage->Handling_expected@ == expected@
                &&& next is Do
                &&& next->Do_0.handles(
                    self.actor->0,
                    expected@,
                    self.spread.pending,
                    if self.spread.pending {
                        "update.actor_process_pending"@
                    } else {
                        "update.actor_receive_commit"@
                    },
                    self.marks(),
                )
            },
            (UpdateStage::Handling { expected: _ }, Report::Handled(Err(error))) => self.loses_actor(
                error@,
                after,
                next,
            ),
            (UpdateStage::Handling { expected }, Report::Handled(Ok(_))) => {
                &&& self.stays(after)
                &&& after.stage is Spreading
                &&& next is Do
                &&& next->Do_0.spreads(
                    "update"@,
                    self.plateau_size,
                    "receive_commit"@,
                    self.active@.remove(self.actor_idx as int),
                    Set::empty(),
                    expected@,
                    self.spread,
                    "self_update"@,
                    self.plateau_size,
                    self.seq_no,
                    if self.spread.pending {
                        "update.fanout_process_pending"@
                    } else {
                        "update.fanout_receive_commit"@
                    },
                    self.marks(),
                )
            },
            (UpdateStage::Spreading, Report::Spread(Err(error))) => {
                &&& self.stays(after)
                &&& after.stage is LosingOthers
                &&& after.stage->LosingOthers_error@ == error@
                &&& next is Do
                &&& next->Do_0.records_all(
                    self.marks(),
                    error@,
                    "evict_update_recipient_and_retry"@,
                    self.actor,
                )
            },
            (UpdateStage::Spreading, Report::Spread(Ok(_))) => {
                &&& self.stays(after)
                &&& after.stage is Reporting
                &&& next is Do
                &&& next->Do_0.ticks(1, self.label())
            },
            (UpdateStage::LosingActor { error }, Report::Recorded(Ok(goes_on))) => if goes_on {
                self.evicts(seq![self.actor->0], after, next)
            } else {
                self.fails(error@, after, next)
            },
            (UpdateStage::LosingActor { error: _ }, Report::Recorded(Err(worse))) => self.fails(
                worse@,
                after,
                next,
            ),
            (
                UpdateStage::LosingOthers { error: _ },
                Report::AllRecorded(Ok(Some(dead))),
            ) => self.evicts(dead@, after, next),
            (UpdateStage::LosingOthers { error }, Report::AllRecorded(Ok(None))) => self.fails(
                error@,
                after,
                next,
            ),
            (UpdateStage::LosingOthers { error: _ }, Report::AllRecorded(Err(worse))) => self.fails(
                worse@,
                after,
                next,
            ),
            (UpdateStage::Evicting(evict), _) => exists|then: Evict, step: Updated| #[trigger]
                evict.next(report, then, step) && self.after_evict(then, step, after, next),
            (UpdateStage::Reporting, Report::Ticked) => self.chooses(
                self.active@,
                if self.plan.density {
                    table::one_more(self.samples@, self.actor->0.id@)
                } else {
                    self.samples@
                },
                number_of(self.seq_no),
                after,
                next,
            ),
            _ => true,
        }
    }

    /// The phase as it begins.
    pub open spec fn started(
        self,
        active: Seq<WorkerSpec>,
        spread: Spread,
        plateau_size: usize,
        plateau_index: usize,
        base: usize,
        lane: bool,
        min_samples: usize,
        state: int,
        next: Updated,
        state_after: int,
    ) -> bool {
        &&& self.wf()
        &&& self.spread == spread
        &&& self.plateau_size == plateau_size
        &&& self.plateau_index == plateau_index
        &&& state_after == plan::update_plan(active, base, lane, min_samples, state).1
        &&& match plan::update_plan(active, base, lane, min_samples, state).0 {
            None => self.ends(active) && evict::succeeded(next),
            Some(planned) => self.plan@ == planned && self.chooses(
                active,
                Map::empty(),
                0,
                self,
                next,
            ),
        }
    }

    /// Begins the phase.
    pub fn start(
        active: Vec<WorkerSpec>,
        spread: Spread,
        plateau_size: usize,
        plateau_index: usize,
        update_rounds: usize,
        max_update_samples_per_plateau: usize,
        external_coverage_lane: bool,
        min_profiled_samples_per_operation: usize,
        rng: &mut StdRng,
    ) -> (made: (UpdatePhase, Updated))
        ensures
            made.0.started(
                active@,
                spread,
                plateau_size,
                plateau_index,
                units::updates_of(
                    plateau_size as int,
                    update_rounds as int,
                    max_update_samples_per_plateau as int,
                ) as usize,
                external_coverage_lane,
                min_profiled_samples_per_operation,
                draw::generator_state(*old(rng)),
                made.1,
                draw::generator_state(*final(rng)),
            ),
    {
        let base: usize = update_ops_for_plateau(
            plateau_size,
            update_rounds,
            max_update_samples_per_plateau,
        );
        let plan: Option<ActorPlan> = plan_updates(
            active.as_slice(),
            base,
            external_coverage_lane,
            min_profiled_samples_per_operation,
            rng,
        );
        match plan {
            None => {
                let none: ActorPlan = ActorPlan {
                    required_ids: Vec::new(),
                    external_id: None,
                    external_seq: None,
                    forced_seq: None,
                    total: 0,
                    density: false,
                    min_samples: min_profiled_samples_per_operation,
                };
                let phase: UpdatePhase = UpdatePhase {
                    active: active,
                    spread: spread,
                    plateau_size: plateau_size,
                    plateau_index: plateau_index,
                    plan: none,
                    samples: Counts::new(),
                    seq_no: 0,
                    actor: None,
                    actor_idx: 0,
                    stage: UpdateStage::Over,
                };
                (phase, Next::Done(Ok(())))
            },
            Some(plan) => {
                let mut phase: UpdatePhase = UpdatePhase {
                    active: active,
                    spread: spread,
                    plateau_size: plateau_size,
                    plateau_index: plateau_index,
                    plan: plan,
                    samples: Counts::new(),
                    seq_no: 0,
                    actor: None,
                    actor_idx: 0,
                    stage: UpdateStage::Over,
                };
                let next: Updated = phase.choose_next();
                (phase, next)
            },
        }
    }

    fn cursor(&self) -> (cursor: BenchmarkCursor)
        ensures
            cursor@ == self.marks(),
    {
        BenchmarkCursor::new(
            self.plateau_index,
            self.plateau_size,
            self.active.len(),
            "update",
            "self_update",
        ).at_operation(add_up(self.seq_no, 1), None)
    }

    fn fail(&mut self, error: Failure) -> (next: Updated)
        ensures
            final(self).wf(),
            final(self).same_task(*old(self)),
            old(self).fails(error@, *final(self), next),
    {
        self.stage = UpdateStage::Over;
        Next::Done(Err(error))
    }

    fn choose_next(&mut self) -> (next: Updated)
        requires
            old(self).plan.total > 0,
        ensures
            final(self).wf(),
            final(self).same_task(*old(self)),
            old(self).chooses(
                old(self).active@,
                old(self).samples@,
                old(self).seq_no,
                *final(self),
                next,
            ),
    {
        let device: Option<String> = self.plan.next_device(
            self.active.as_slice(),
            &self.samples,
        );
        assert(self.plan@.device_next(self.active@, self.samples@, text::maybe(device)));
        if self.plan.is_done(self.seq_no, &device) || active_profiled_indices(
            self.active.as_slice(),
        ).len() == 0 {
            self.stage = UpdateStage::Over;
            return Next::Done(Ok(()));
        }
        let at: usize = self.plan.actor_at(self.active.as_slice(), self.seq_no, &device);
        let actor: WorkerSpec = self.active[at].clone();
        self.actor_idx = at;
        self.actor = Some(actor.clone());
        self.stage = UpdateStage::Looking;
        Next::Do(Order::ShowState { worker: actor })
    }

    fn lose_actor(&mut self, actor: WorkerSpec, error: Failure) -> (next: Updated)
        requires
            old(self).plan.total > 0,
            old(self).actor == Some(actor),
            old(self).actor_idx < old(self).active@.len(),
            actor == old(self).active@[old(self).actor_idx as int],
        ensures
            final(self).wf(),
            final(self).same_task(*old(self)),
            old(self).loses_actor(error@, *final(self), next),
    {
        let other: Option<WorkerSpec> = first_other(self.active.as_slice(), actor.id.as_str());
        let order: Order = Order::Record {
            cursor: self.cursor(),
            worker: actor,
            error: error.clone(),
            action: "evict_update_actor_and_retry",
            reassigned_to: other,
        };
        self.stage = UpdateStage::LosingActor { error: error };
        Next::Do(order)
    }

    fn evict(&mut self, dead: Vec<WorkerSpec>) -> (next: Updated)
        requires
            old(self).plan.total > 0,
        ensures
            final(self).wf(),
            final(self).same_task(*old(self)),
            old(self).evicts(dead@, *final(self), next),
    {
        if dead.len() == 0 {
            return self.choose_next();
        }
        let (evict, next): (Evict, Updated) = Evict::start(
            self.active.as_slice(),
            dead.as_slice(),
            self.spread,
            self.plateau_size,
        );
        self.stage = match &next {
            Next::Do(_) => UpdateStage::Evicting(evict),
            Next::Done(_) => UpdateStage::Over,
        };
        next
    }

    /// What is done after a report.
    #[verifier::rlimit(40)]
    pub fn step(&mut self, report: Report) -> (next: Updated)
        requires
            old(self).wf(),
            old(self).waits_for(report),
        ensures
            final(self).wf(),
            old(self).next(report, *final(self), next),
    {
        let ghost given = report;
        let ghost start = *self;
        let mut stage: UpdateStage = UpdateStage::Over;
        std::mem::swap(&mut stage, &mut self.stage);
        if let UpdateStage::Evicting(evict) = stage {
            let mut evict: Evict = evict;
            let ghost before = evict;
            let step: Updated = evict.step(report);
            assert(before.next(given, evict, step));
            proof {
                evict::law_eviction(before, given, evict, step);
            }
            let next: Updated = match step {
                Next::Do(order) => {
                    self.stage = UpdateStage::Evicting(evict);
                    Next::Do(order)
                },
                Next::Done(Ok(_)) => {
                    self.active = evict.active;
                    self.choose_next()
                },
                Next::Done(Err(error)) => self.fail(error),
            };
            assert(start.after_evict(evict, step, *self, next));
            return next;
        }
        let actor: WorkerSpec = match &self.actor {
            Some(actor) => actor.clone(),
            None => {
                return Next::Done(Ok(()));
            },
        };
        match (stage, report) {
            (UpdateStage::Looking, Report::State(Err(error))) => self.lose_actor(actor, error),
            (UpdateStage::Looking, Report::State(Ok(before))) => {
                let expected: ExpectedGroupState = expected_group_state(
                    &before,
                    before.epoch + 1,
                    &before.members,
                );
                let order: Order = Order::Send {
                    worker: actor,
                    command: Command::SelfUpdate,
                    ok_fragment: "self_update commit published to group".to_owned(),
                    phase: Some("update.create".to_owned()),
                    cursor: Some(self.cursor()),
                };
                self.stage = UpdateStage::Committing { expected: expected };
                Next::Do(order)
            },
            (UpdateStage::Committing { expected: _ }, Report::Sent(Err(error))) => self.lose_actor(
                actor,
                error,
            ),
            (UpdateStage::Committing { expected }, Report::Sent(Ok(_))) => {
                let order: Order = Order::Handle {
                    worker: actor,
                    expected: expected.clone(),
                    pending: self.spread.pending,
                    phase: if self.spread.pending {
                        "update.actor_process_pending"
                    } else {
                        "update.actor_receive_commit"
                    },
                    cursor: self.cursor(),
                };
                self.stage = UpdateStage::Handling { expected: expected };
                Next::Do(order)
            },
            (UpdateStage::Handling { expected: _ }, Report::Handled(Err(error))) => self.lose_actor(
                actor,
                error,
            ),
            (UpdateStage::Handling { expected }, Report::Handled(Ok(_))) => {
                let mut recipients: Vec<WorkerSpec> = copy_workers(self.active.as_slice());
                recipients.remove(self.actor_idx);
                let order: Order = Order::SpreadCommit {
                    phase: "update",
                    group_size: self.plateau_size,
                    operation: "receive_commit",
                    task: CommitFanout {
                        recipients: recipients,
                        removed: IdSet::new(),
                        expected: expected,
                        spread: self.spread,
                        create_op: "self_update",
                        plateau_size: self.plateau_size,
                        seq_no: self.seq_no,
                        phase: if self.spread.pending {
                            "update.fanout_process_pending"
                        } else {
                            "update.fanout_receive_commit"
                        },
                        cursor: self.cursor(),
                    },
                };
                self.stage = UpdateStage::Spreading;
                Next::Do(order)
            },
            (UpdateStage::Spreading, Report::Spread(Err(error))) => {
                let order: Order = Order::RecordAll {
                    cursor: self.cursor(),
                    error: error.clone(),
                    action: "evict_update_recipient_and_retry",
                    reassigned_to: Some(actor),
                };
                self.stage = UpdateStage::LosingOthers { error: error };
                Next::Do(order)
            },
            (UpdateStage::Spreading, Report::Spread(Ok(_))) => {
                let mut label: String = "plateau ".to_owned();
                label.append(decimal_text(self.plateau_size as u128).as_str());
                label.append(" update ");
                label.append(decimal_text(add_up(self.seq_no, 1) as u128).as_str());
                label.append("/");
                label.append(decimal_text(self.plan.total as u128).as_str());
                label.append(" actor=");
                label.append(actor.id.as_str());
                self.stage = UpdateStage::Reporting;
                Next::Do(Order::Tick { units: 1, label: label })
            },
            (UpdateStage::LosingActor { error }, Report::Recorded(Ok(goes_on))) => {
                if goes_on {
                    let dead: Vec<WorkerSpec> = vec![actor];
                    assert(dead@ =~= seq![self.actor->0]);
                    self.evict(dead)
                } else {
                    self.fail(error)
                }
            },
            (UpdateStage::LosingActor { error: _ }, Report::Recorded(Err(worse))) => self.fail(
                worse,
            ),
            (
                UpdateStage::LosingOthers { error: _ },
                Report::AllRecorded(Ok(Some(dead))),
            ) => self.evict(dead),
            (UpdateStage::LosingOthers { error }, Report::AllRecorded(Ok(None))) => self.fail(error),
            (UpdateStage::LosingOthers { error: _ }, Report::AllRecorded(Err(worse))) => self.fail(
                worse,
            ),
            (UpdateStage::Reporting, Report::Ticked) => {
                if self.plan.density {
                    self.samples.count_one(actor.id.as_str());
                }
                self.seq_no = add_up(self.seq_no, 1);
                self.choose_next()
            },
            (stage, _) => {
                self.stage = stage;
                Next::Done(Ok(()))
            },
        }
    }
}

impl UpdatePhase {
    /// The members are done: all turns are taken, or each measured device has enough samples, or
    /// nobody is measured.
    pub open spec fn finished(
        self,
        active: Seq<WorkerSpec>,
        samples: Map<Seq<char>, usize>,
        seq_no: usize,
    ) -> bool {
        ||| workers::places(active, workers::profiled()).len() == 0
        ||| if self.plan.density {
            roles::least_sampled(active, samples, self.plan.min_samples, None)
        } else {
            seq_no >= self.plan.total
        }
    }
}

/// The phase only takes members out of the group. A turn that fails is taken again, and counts only
/// once it is reported. The phase succeeds only when it is finished.
pub proof fn law_update_phase(
    phase: UpdatePhase,
    report: Report,
    after: UpdatePhase,
    next: Updated,
)
    requires
        phase.wf(),
        phase.waits_for(report),
        phase.next(report, after, next),
    ensures
        forall|w: WorkerSpec| #[trigger]
            workers::times(after.active@, w) <= workers::times(phase.active@, w),
        next is Do && !(phase.stage is Reporting) ==> after.same_turn(phase),
        evict::succeeded(next) ==> {
            ||| phase.finished(after.active@, phase.samples@, phase.seq_no)
            ||| phase.stage is Reporting && phase.finished(
                after.active@,
                if phase.plan.density {
                    table::one_more(phase.samples@, phase.actor->0.id@)
                } else {
                    phase.samples@
                },
                number_of(phase.seq_no),
            )
        },
{
    if let UpdateStage::Evicting(evict) = phase.stage {
        let (then, step) = choose|then: Evict, step: Updated| #[trigger]
            evict.next(report, then, step) && phase.after_evict(then, step, after, next);
        evict::law_eviction(evict, report, then, step);
        assert forall|w: WorkerSpec| #[trigger]
            workers::times(after.active@, w) <= workers::times(phase.active@, w) by {
            workers::lemma_times_chosen(phase.active@, task::outside(then.dead@), w);
        }
    }
}

// ---------------------------------------------------------------------------
// The course of the phase
// ---------------------------------------------------------------------------

/// A turn that goes well. A member is asked for its state and told to renew its keys. It handles its
/// own commit, which leads into the next epoch with the same members. Then each other member, and
/// nobody else, is told to handle the same commit. After that the turn is reported, once, and counts.
pub proof fn law_update_turn_that_goes_well(
    phase: UpdatePhase,
    before: transport::GroupStateSnapshot,
    asked: UpdatePhase,
    renew: Updated,
    answer: String,
    committed: UpdatePhase,
    handle: Updated,
    handled: UpdatePhase,
    spreading: Updated,
    over: UpdatePhase,
    tick: Updated,
    ended: UpdatePhase,
    next: Updated,
)
    requires
        phase.wf(),
        phase.stage is Looking,
        phase.seq_no < usize::MAX,
        before.epoch < u64::MAX,
        phase.next(Report::State(Ok(before)), asked, renew),
        asked.next(Report::Sent(Ok(answer)), committed, handle),
        committed.next(Report::Handled(Ok(())), handled, spreading),
        handled.next(Report::Spread(Ok(())), over, tick),
        over.next(Report::Ticked, ended, next),
    ensures
        ({
            let actor = phase.actor->0;
            let active = phase.active@;
            &&& active.contains(actor)
            &&& renew matches Next::Do(Order::Send { worker, command, .. }) && worker == actor
                && command@ == command::CommandView::SelfUpdate
            &&& handle matches Next::Do(Order::Handle { worker, expected, pending, .. }) && worker
                == actor && pending == phase.spread.pending && expected@.group_id
                == before@.group_id && expected@.epoch == before@.epoch + 1
                && expected@.members.to_multiset() == before@.members.to_multiset() && (
            spreading matches Next::Do(Order::SpreadCommit { task, .. }) && task.expected@
                == expected@ && task.spread == phase.spread && task.removed@ == Set::<
                Seq<char>,
            >::empty() && forall|w: WorkerSpec|
                workers::times(#[trigger] task.recipients@, w) + (if w == actor {
                    1nat
                } else {
                    0nat
                }) == workers::times(active, w))
            &&& tick matches Next::Do(Order::Tick { units, .. }) && units == 1
            &&& ended.active@ == active
            &&& next is Do ==> ended.seq_no == phase.seq_no + 1
            &&& next is Do && phase.plan.density && table::count_of(phase.samples@, actor.id@)
                < usize::MAX ==> table::count_of(ended.samples@, actor.id@) == table::count_of(
                phase.samples@,
                actor.id@,
            ) + 1
            &&& forall|id: Seq<char>|
                id != actor.id@ && next is Do ==> #[trigger] table::count_of(ended.samples@, id)
                    == table::count_of(phase.samples@, id)
        }),
{
    evict::lemma_ascending(before@.members);
    assert forall|w: WorkerSpec| workers::times(
        #[trigger] phase.active@.remove(phase.actor_idx as int),
        w,
    ) + (if w == phase.actor->0 {
        1nat
    } else {
        0nat
    }) == workers::times(phase.active@, w) by {
        workers::lemma_times_left_out(phase.active@, phase.actor_idx as int, w);
    }
}

/// The course that the phase takes: where it stands after each report, and what it orders then.
pub struct UpdateCourse {
    pub phases: Seq<UpdatePhase>,
    pub nexts: Seq<Updated>,
    pub reports: Seq<Report>,
}

/// What the phase begins with.
pub struct UpdateTask {
    pub active: Seq<WorkerSpec>,
    pub spread: Spread,
    pub plateau_size: usize,
    pub plateau_index: usize,
    pub base: usize,
    pub lane: bool,
    pub min_samples: usize,
    pub state: int,
    pub state_after: int,
}

impl UpdateCourse {
    /// The phase begins with a task, and each report, all of them good, leads to the next step.
    pub open spec fn goes_well(self, task: UpdateTask) -> bool {
        &&& self.phases.len() == self.reports.len() + 1
        &&& self.nexts.len() == self.reports.len() + 1
        &&& task.active.len() <= usize::MAX
        &&& self.phases[0].started(
            task.active,
            task.spread,
            task.plateau_size,
            task.plateau_index,
            task.base,
            task.lane,
            task.min_samples,
            task.state,
            self.nexts[0],
            task.state_after,
        )
        &&& forall|i: int|
            0 <= i < self.reports.len() ==> (#[trigger] self.reports[i]).is_good()
                && self.phases[i].wf() && self.phases[i].waits_for(self.reports[i])
                && self.phases[i].next(self.reports[i], self.phases[i + 1], self.nexts[i + 1])
    }

    /// Whom the command of a turn goes to.
    pub open spec fn told(self, turn: int) -> WorkerSpec {
        self.nexts[5 * turn + 1]->Do_0->Send_worker
    }

    /// The command of a turn tells this member to renew its keys.
    pub open spec fn renews(self, turn: int, worker: WorkerSpec) -> bool {
        self.nexts[5 * turn + 1] matches Next::Do(Order::Send { worker: w, command, .. }) && w
            == worker && command@ == command::CommandView::SelfUpdate
    }
}

/// The measured members come by turns where nobody comes first.
proof fn lemma_turn_of(course: UpdateCourse, task: UpdateTask, turn: int)
    requires
        course.goes_well(task),
        !task.lane,
        forall|i: int|
            0 <= i < task.active.len() ==> !((#[trigger] task.active[i]).profile_enabled
                && workers::external(task.active[i])),
        task.base > 0,
        task.active.len() >= 2,
        exists|i: int| 0 <= i < task.active.len() && (#[trigger] task.active[i]).profile_enabled,
        0 <= turn <= task.base,
        5 * turn < course.phases.len(),
    ensures
        ({
            let phase = course.phases[5 * turn];
            let measured = workers::places(task.active, workers::profiled());
            &&& phase.active@ == task.active
            &&& phase.plan@ == course.phases[0].plan@
            &&& phase.plan.total == task.base
            &&& !phase.plan.density
            &&& measured.len() > 0
            &&& turn < task.base ==> {
                &&& phase.stage is Looking
                &&& phase.seq_no == turn
                &&& phase.actor_idx < task.active.len()
                &&& phase.actor == Some(task.active[phase.actor_idx as int])
                &&& phase.actor_idx == measured[sampling::member_at(
                    measured.len() as int,
                    task.base as int,
                    turn,
                )]
                &&& course.nexts[5 * turn] is Do
            }
            &&& turn == task.base ==> course.nexts[5 * turn] matches Next::Done(Ok(_))
        }),
    decreases turn,
{
    let measured = workers::places(task.active, workers::profiled());
    assert(measured.len() > 0) by {
        let i = choose|i: int| 0 <= i < task.active.len() && (#[trigger] task.active[i]).profile_enabled;
        workers::lemma_places(task.active, workers::profiled());
        assert(workers::profiled()(task.active[i]));
        assert(measured.contains(i as usize));
    }
    assert(crate::density::first_device(task.active) is None) by {
        let devices = workers::those(task.active, workers::profiled_external());
        workers::lemma_those(task.active, workers::profiled_external());
        if devices.len() > 0 {
            assert(devices.contains(devices[0]));
            let i = choose|i: int| 0 <= i < task.active.len() && task.active[i] == devices[0];
            assert(task.active[i].profile_enabled);
        }
    }
    if turn > 0 {
        let k = 5 * turn - 5;
        assert(k == 5 * (turn - 1));
        lemma_turn_of(course, task, turn - 1);
        assert(course.reports[k].is_good());
        assert(course.reports[k + 1].is_good());
        assert(course.reports[k + 2].is_good());
        assert(course.reports[k + 3].is_good());
        assert(course.reports[k + 4].is_good());
        assert(course.phases[k].next(course.reports[k], course.phases[k + 1], course.nexts[k + 1]));
        assert(course.phases[k + 1].next(
            course.reports[k + 1],
            course.phases[k + 2],
            course.nexts[k + 2],
        ));
        assert(course.phases[k + 2].next(
            course.reports[k + 2],
            course.phases[k + 3],
            course.nexts[k + 3],
        ));
        assert(course.phases[k + 3].next(
            course.reports[k + 3],
            course.phases[k + 4],
            course.nexts[k + 4],
        ));
        assert(course.phases[k + 4].next(
            course.reports[k + 4],
            course.phases[k + 5],
            course.nexts[k + 5],
        ));
    }
}

proof fn lemma_renews(course: UpdateCourse, task: UpdateTask, turn: int)
    requires
        course.goes_well(task),
        !task.lane,
        forall|i: int|
            0 <= i < task.active.len() ==> !((#[trigger] task.active[i]).profile_enabled
                && workers::external(task.active[i])),
        task.base > 0,
        task.active.len() >= 2,
        exists|i: int| 0 <= i < task.active.len() && (#[trigger] task.active[i]).profile_enabled,
        0 <= turn < task.base,
        course.reports.len() == 5 * task.base,
    ensures
        ({
            let measured = workers::places(task.active, workers::profiled());
            let at = measured[sampling::member_at(
                measured.len() as int,
                task.base as int,
                turn,
            )];
            &&& measured.len() > 0
            &&& at < task.active.len()
            &&& course.renews(turn, task.active[at as int])
        }),
{
    lemma_turn_of(course, task, turn);
    let k = 5 * turn;
    assert(course.reports[k].is_good());
    assert(course.phases[k].next(course.reports[k], course.phases[k + 1], course.nexts[k + 1]));
}

/// Where all goes well and no device is measured, the measured members renew their keys by turns. As
/// many turns are taken as were asked for, and then the phase is over. With at least as many turns as
/// there are measured members each of them renews its keys at least once; with at most as many no
/// member renews them twice. Nobody else does.
pub proof fn law_measured_members_renew_by_turns(course: UpdateCourse, task: UpdateTask)
    requires
        course.goes_well(task),
        !task.lane,
        forall|i: int|
            0 <= i < task.active.len() ==> !((#[trigger] task.active[i]).profile_enabled
                && workers::external(task.active[i])),
        task.base > 0,
        task.active.len() >= 2,
        exists|i: int| 0 <= i < task.active.len() && (#[trigger] task.active[i]).profile_enabled,
        course.reports.len() == 5 * task.base,
    ensures
        ({
            let measured = |w: WorkerSpec| w.profile_enabled;
            let count = task.active.filter(measured).len();
            &&& course.nexts.last() matches Next::Done(Ok(_))
            &&& forall|turn: int|
                0 <= turn < task.base ==> {
                    let member = #[trigger] course.told(turn);
                    &&& course.renews(turn, member)
                    &&& task.active.contains(member)
                    &&& member.profile_enabled
                }
            &&& task.base >= count ==> forall|i: int|
                0 <= i < task.active.len() && (#[trigger] task.active[i]).profile_enabled
                    ==> exists|turn: int|
                    0 <= turn < task.base && #[trigger] course.renews(turn, task.active[i])
            &&& task.base <= count && workers::distinct(task.active) ==> forall|
                a: int,
                b: int,
                w: WorkerSpec,
            |
                0 <= a < b < task.base && #[trigger] course.renews(a, w)
                    ==> !(#[trigger] course.renews(b, w))
            &&& workers::distinct(task.active) ==> forall|a: int, b: int, w: WorkerSpec|
                0 <= a < b < task.base && b - a < count && #[trigger] course.renews(a, w)
                    ==> !(#[trigger] course.renews(b, w))
        }),
{
    let wanted = workers::profiled();
    let measured = |w: WorkerSpec| w.profile_enabled;
    let places = workers::places(task.active, wanted);
    let count = task.active.filter(measured).len();
    let total = task.base as int;
    workers::lemma_places(task.active, wanted);
    workers::lemma_count_of_places(task.active, wanted);
    assert(measured =~= wanted);
    lemma_turn_of(course, task, task.base as int);
    assert(5 * task.base == course.nexts.len() - 1);
    assert forall|turn: int| 0 <= turn < task.base implies ({
        let member = #[trigger] course.told(turn);
        &&& course.renews(turn, member)
        &&& task.active.contains(member)
        &&& member.profile_enabled
    }) by {
        lemma_renews(course, task, turn);
        sampling::law_sampled_members(places.len() as int, total, turn, turn + 1);
        let at = places[sampling::member_at(places.len() as int, total, turn)];
        assert(wanted(task.active[at as int]));
    }
    if task.base >= count {
        assert forall|i: int|
            0 <= i < task.active.len() && (#[trigger] task.active[i]).profile_enabled implies exists|
            turn: int,
        | 0 <= turn < task.base && #[trigger] course.renews(turn, task.active[i]) by {
            assert(wanted(task.active[i]));
            assert(places.contains(i as usize));
            let turn = choose|turn: int| 0 <= turn < places.len() && places[turn] == i as usize;
            lemma_renews(course, task, turn);
            vstd::arithmetic::div_mod::lemma_small_mod(turn as nat, places.len());
            assert(course.renews(turn, task.active[i]));
        }
    }
    if workers::distinct(task.active) {
        assert forall|a: int, b: int, w: WorkerSpec|
            0 <= a < b < task.base && (b - a < count || task.base <= count)
                && #[trigger] course.renews(a, w) implies !(#[trigger] course.renews(b, w)) by {
            lemma_renews(course, task, a);
            lemma_renews(course, task, b);
            let n = places.len() as int;
            sampling::law_members_by_turns(n, total, a, b);
            let x = sampling::member_at(n, total, a);
            let y = sampling::member_at(n, total, b);
            let ids = workers::ids(task.active);
            assert(places[x] != places[y]);
            assert(ids[places[x] as int] != ids[places[y] as int]);
        }
    }
}

/// Where the acting member fails, its failure is written down, as it came. Where the run goes on, the
/// member is taken out: another member is asked for its state, if there is one. Where it does not go
/// on, the phase fails with what the member failed with.
pub proof fn law_update_whose_actor_fails(
    phase: UpdatePhase,
    error: Failure,
    report: Report,
    losing: UpdatePhase,
    record: Updated,
    verdict: Result<bool, Failure>,
    after: UpdatePhase,
    next: Updated,
)
    requires
        phase.wf(),
        phase.waits_for(report),
        ({
            ||| phase.stage is Looking && report == Report::State(Err(error))
            ||| phase.stage is Committing && report == Report::Sent(Err(error))
            ||| phase.stage is Handling && report == Report::Handled(Err(error))
        }),
        phase.next(report, losing, record),
        losing.next(Report::Recorded(verdict), after, next),
    ensures
        ({
            let actor = phase.actor->0;
            let others = exists|i: int|
                0 <= i < phase.active@.len() && (#[trigger] phase.active@[i]).id@ != actor.id@;
            &&& record matches Next::Do(Order::Record { worker, error: e, reassigned_to, .. })
                && worker == actor && e@ == error@ && (match reassigned_to {
                Some(other) => phase.active@.contains(other) && other.id@ != actor.id@,
                None => !others,
            })
            &&& verdict matches Err(worse) ==> (next matches Next::Done(Err(e)) && e@ == worse@)
            &&& verdict == Ok::<bool, Failure>(false) ==> (next matches Next::Done(Err(e)) && e@
                == error@)
            &&& verdict == Ok::<bool, Failure>(true) ==> if others {
                next matches Next::Do(Order::ShowState { worker }) && phase.active@.contains(worker)
                    && worker.id@ != actor.id@ && after.stage is Evicting && forall|
                    id: Seq<char>,
                | #[trigger]
                    after.stage->Evicting_0.dead@.contains(id) <==> id == actor.id@
            } else {
                next matches Next::Done(Err(_))
            }
            &&& after.active@ == phase.active@
        }),
{
    let actor = phase.actor->0;
    let dead = seq![actor];
    task::lemma_other_than(phase.active@, actor.id@);
    evict::lemma_acts(phase.active@, dead);
    assert forall|id: Seq<char>| #[trigger] evict::is_one_of(dead, id) <==> id == actor.id@ by {
        assert(dead[0].id@ == actor.id@);
    }
    if phase.active@.len() > 0 && exists|i: int|
        0 <= i < phase.active@.len() && (#[trigger] phase.active@[i]).id@ != actor.id@ {
        let i = choose|i: int|
            0 <= i < phase.active@.len() && (#[trigger] phase.active@[i]).id@ != actor.id@;
        assert(!evict::is_one_of(dead, phase.active@[i].id@));
    }
}

/// Where other members fail, their failures are written down. Where the run goes on without some of
/// them, these are taken out: a member that is none of them is asked for its state, if there is one.
/// Where it does not go on, the phase fails with what they failed with.
pub proof fn law_update_that_others_fail(
    phase: UpdatePhase,
    error: Failure,
    losing: UpdatePhase,
    record: Updated,
    verdict: Result<Option<Vec<WorkerSpec>>, Failure>,
    after: UpdatePhase,
    next: Updated,
)
    requires
        phase.wf(),
        phase.stage is Spreading,
        phase.next(Report::Spread(Err(error)), losing, record),
        losing.next(Report::AllRecorded(verdict), after, next),
    ensures
        record matches Next::Do(Order::RecordAll { error: e, reassigned_to, .. }) && e@ == error@
            && reassigned_to == phase.actor,
        verdict matches Err(worse) ==> (next matches Next::Done(Err(e)) && e@ == worse@),
        verdict matches Ok(None) ==> (next matches Next::Done(Err(e)) && e@ == error@),
        verdict matches Ok(Some(dead)) ==> dead@.len() > 0 ==> if exists|i: int|
            0 <= i < phase.active@.len() && !evict::is_one_of(
                dead@,
                (#[trigger] phase.active@[i]).id@,
            ) {
            next matches Next::Do(Order::ShowState { worker }) && phase.active@.contains(worker)
                && !evict::is_one_of(dead@, worker.id@) && after.stage is Evicting && after.active@
                == phase.active@ && forall|id: Seq<char>| #[trigger]
                after.stage->Evicting_0.dead@.contains(id) <==> evict::is_one_of(dead@, id)
        } else {
            next matches Next::Done(Err(_))
        },
{
    if let Ok(Some(dead)) = verdict {
        evict::lemma_acts(phase.active@, dead@);
    }
}

/// Whatever the phase orders itself names the place in the run where the phase stands.
pub proof fn law_update_marks(
    phase: UpdatePhase,
    report: Report,
    after: UpdatePhase,
    next: Updated,
)
    requires
        phase.wf(),
        phase.waits_for(report),
        phase.next(report, after, next),
        !(after.stage is Evicting),
        next is Do,
    ensures
        next->Do_0.place() matches Some(place) ==> {
            &&& place.plateau_index == Some(phase.plateau_index)
            &&& place.target_size == Some(phase.plateau_size)
            &&& place.active_size == Some(phase.active@.len() as usize)
            &&& place.phase == Some("update"@)
            &&& place.operation == Some("self_update"@)
            &&& phase.seq_no < usize::MAX ==> place.operation_seq == Some((phase.seq_no + 1) as usize)
            &&& place.payload_size is None
            &&& place.batch_requested is None && place.batch_effective is None
        },
{
}

} // verus!
