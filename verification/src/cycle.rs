//! One cycle in which a member is removed and joins again, and what follows when it fails.

use std::collections::VecDeque;
use vstd::prelude::*;

use crate::add;
use crate::batch::{membership_batch_group_cap, MembershipBatchDecision};
use crate::command;
use crate::command::{BenchmarkCursor, Command};
use crate::density;
use crate::evict;
use crate::evict::Evict;
use crate::expect::{expected_group_state, ExpectedGroupState};
use crate::failure;
use crate::failure::Failure;
use crate::order;
use crate::table::IdSet;
use crate::task;
use crate::task::{split_members, CommitFanout, Next, Order, Report, Spread};
use crate::text;
use crate::text::{contains, copy_texts, str_eq};
use crate::transport;
use crate::workers;
use crate::workers::{copies_of, copy_workers, ids_of, position_of, WorkerSpec};

verus! {

/// The set of one id.
pub(crate) fn set_of(id: &str) -> (set: IdSet)
    ensures
        set@ == set![id@],
{
    let mut set: IdSet = IdSet::new();
    set.insert(id);
    assert(set@ =~= set![id@]);
    set
}

/// The workers of a list whose ids are not in a set.
pub(crate) fn without(list: &[WorkerSpec], set: &IdSet) -> (out: Vec<WorkerSpec>)
    ensures
        out@ == workers::those(list@, task::outside(set@)),
{
    let keep = |w: &WorkerSpec| -> (yes: bool)
        ensures
            yes == !set@.contains(w.id@),
    { !set.contains(w.id.as_str()) };
    copies_of(list, keep, Ghost(task::outside(set@)))
}

/// The idle workers whose ids are not in a set.
pub(crate) fn queue_without(idle: VecDeque<WorkerSpec>, set: &IdSet) -> (out: VecDeque<WorkerSpec>)
    ensures
        out@ == workers::those(idle@, task::outside(set@)),
{
    let mut idle: VecDeque<WorkerSpec> = idle;
    let ghost all = idle@;
    let mut out: VecDeque<WorkerSpec> = VecDeque::new();
    let ghost mut done: int = 0;
    assert(all.take(0) =~= Seq::<WorkerSpec>::empty());
    assert(idle@ =~= all.skip(0));
    assert(out@ =~= Seq::<WorkerSpec>::empty());
    while idle.len() > 0
        invariant
            0 <= done <= all.len(),
            idle@ == all.skip(done),
            out@ == workers::those(all.take(done), task::outside(set@)),
        decreases idle@.len(),
    {
        if let Some(worker) = idle.pop_front() {
            proof {
                assert(all.take(done + 1).drop_last() =~= all.take(done));
                assert(all.take(done + 1).last() == worker);
            }
            if !set.contains(worker.id.as_str()) {
                out.push_back(worker);
            }
            proof {
                done = done + 1;
                assert(idle@ =~= all.skip(done));
            }
        }
    }
    assert(all.take(done) =~= all);
    out
}

// ---------------------------------------------------------------------------
// The cycle
// ---------------------------------------------------------------------------

/// How far a cycle is.
#[derive(Debug)]
pub enum CycleStage {
    /// The one to be removed makes a new key package.
    Preparing,
    /// The actor's state is asked for, before the removal.
    LookingRemove,
    /// The actor removes the member.
    Removing { expected: ExpectedGroupState },
    /// The actor handles the removal.
    HandlingRemove { expected: ExpectedGroupState },
    /// The other members handle the removal.
    SpreadingRemove,
    /// The actor's state is asked for, before the addition.
    LookingAdd,
    /// The actor adds the member again.
    Adding { expected: ExpectedGroupState },
    /// The actor handles the addition.
    HandlingAdd { expected: ExpectedGroupState },
    /// The other members handle the addition.
    SpreadingAdd,
    /// The one that was removed joins again.
    Welcoming,
    /// Nothing is left to do.
    Over,
}

/// A cycle in which a member is removed and joins again.
#[derive(Debug)]
pub struct RejoinCycle {
    pub active: Vec<WorkerSpec>,
    pub idle: VecDeque<WorkerSpec>,
    pub spread: Spread,
    pub plateau_size: usize,
    pub plateau_index: usize,
    pub victim: WorkerSpec,
    pub actor: WorkerSpec,
    pub stage: CycleStage,
}

/// What a cycle leads to.
pub type Cycled = Next<Result<(), Failure>>;

proof fn lemma_one_fewer(active: Seq<WorkerSpec>, victim: WorkerSpec)
    requires
        active.contains(victim),
    ensures
        workers::those(active, task::outside(set![victim.id@])).len() < active.len(),
    decreases active.len(),
{
    let front = active.drop_last();
    workers::lemma_those(front, task::outside(set![victim.id@]));
    if active.last() != victim {
        let k = choose|k: int| 0 <= k < active.len() && active[k] == victim;
        assert(front[k] == victim);
        lemma_one_fewer(front, victim);
    }
}

impl RejoinCycle {
    /// Until it is removed the one to be removed is a member; then it is idle.
    pub open spec fn wf(self) -> bool {
        &&& self.stage is Preparing || self.stage is LookingRemove || self.stage is Removing
            || self.stage is HandlingRemove || self.stage is SpreadingRemove
            ==> self.active@.contains(self.victim)
        &&& self.rejoins() ==> self.idle@.contains(self.victim) && self.active@.len() < usize::MAX
    }

    /// The removal is done.
    pub open spec fn rejoins(self) -> bool {
        self.stage is LookingAdd || self.stage is Adding || self.stage is HandlingAdd
            || self.stage is SpreadingAdd || self.stage is Welcoming
    }

    /// The report is one that the stage waits for.
    pub open spec fn waits_for(self, report: Report) -> bool {
        match self.stage {
            CycleStage::Preparing => report is Answered,
            CycleStage::LookingRemove => report.is_state(),
            CycleStage::Removing { expected: _ } => report is Sent,
            CycleStage::HandlingRemove { expected: _ } => report is Handled,
            CycleStage::SpreadingRemove => report is Spread,
            CycleStage::LookingAdd => report.is_state(),
            CycleStage::Adding { expected: _ } => report is Sent,
            CycleStage::HandlingAdd { expected: _ } => report is Handled,
            CycleStage::SpreadingAdd => report is Spread,
            CycleStage::Welcoming => report is Sent,
            CycleStage::Over => false,
        }
    }

    /// What does not change.
    pub open spec fn same_task(self, other: RejoinCycle) -> bool {
        &&& self.spread == other.spread
        &&& self.plateau_size == other.plateau_size
        &&& self.plateau_index == other.plateau_index
        &&& self.victim == other.victim
        &&& self.actor == other.actor
    }

    /// The members and the idle workers stay.
    pub open spec fn stays(self, after: RejoinCycle) -> bool {
        &&& after.active@ == self.active@
        &&& after.idle@ == self.idle@
    }

    /// The cycle failed.
    pub open spec fn fails(
        self,
        error: failure::FailureView,
        after: RejoinCycle,
        next: Cycled,
    ) -> bool {
        &&& self.stays(after)
        &&& after.stage is Over
        &&& evict::failed(next, error)
    }

    /// The place in the run, in a group of a given size.
    pub open spec fn marks(self, size: nat, operation: Seq<char>) -> command::Marks {
        command::Marks::at(
            self.plateau_index,
            self.plateau_size,
            size as usize,
            "remove_rejoin"@,
            operation,
        )
    }

    /// The place in the run of the addition.
    pub open spec fn add_marks(self, marks: command::Marks) -> bool {
        exists|decision: MembershipBatchDecision| #[trigger]
            density::fixed_batch(1, "remove_rejoin"@, decision) && marks == self.marks(
                self.active@.len() + 1,
                "add_commit"@,
            ).batched(decision)
    }

    /// The recipients of the removal.
    pub open spec fn others(self) -> Seq<WorkerSpec> {
        workers::those(
            self.active@,
            task::outside(set![self.victim.id@].insert(self.actor.id@)),
        )
    }

    /// The recipients of the addition.
    pub open spec fn all_others(self) -> Seq<WorkerSpec> {
        workers::those(self.active@, task::outside(set![self.actor.id@]))
    }

    /// How far the cycle is after a report, and what is done then.
    pub open spec fn next(self, report: Report, after: RejoinCycle, next: Cycled) -> bool {
        let size = self.active@.len();
        &&& after.same_task(self)
        &&& match (self.stage, report) {
            (CycleStage::Preparing, Report::Answered(Err(error))) => self.fails(
                error@,
                after,
                next,
            ),
            (CycleStage::Preparing, Report::Answered(Ok(_))) => {
                &&& self.stays(after)
                &&& after.stage is LookingRemove
                &&& next is Do
                &&& next->Do_0.shows(self.actor)
            },
            (CycleStage::LookingRemove, Report::State(Err(error))) => self.fails(
                error@,
                after,
                next,
            ),
            (CycleStage::LookingRemove, Report::State(Ok(before))) => {
                &&& self.stays(after)
                &&& after.stage is Removing
                &&& after.stage->Removing_expected@ == (transport::StateView {
                    group_id: before@.group_id,
                    epoch: (before@.epoch + 1) as u64,
                    members: order::ascending(
                        task::members_in(before@.members, set![self.victim.id@], false),
                    ),
                })
                &&& next is Do
                &&& next->Do_0.sends(
                    self.actor,
                    command::CommandView::RemoveMembers { members: seq![self.victim.id@] },
                    "removed locally; group commit published"@,
                    Some("remove_rejoin.remove"@),
                    self.marks(size, "remove_commit"@),
                )
            },
            (CycleStage::Removing { expected: _ }, Report::Sent(Err(error))) => self.fails(
                error@,
                after,
                next,
            ),
            (CycleStage::Removing { expected }, Report::Sent(Ok(_))) => {
                &&& self.stays(after)
                &&& after.stage is HandlingRemove
                &&& after.stage->HandlingRemove_expected@ == expected@
                &&& next is Do
                &&& next->Do_0.handles(
                    self.actor,
                    expected@,
                    self.spread.pending,
                    if self.spread.pending {
                        "remove_rejoin.actor_process_pending"@
                    } else {
                        "remove_rejoin.actor_receive_commit"@
                    },
                    self.marks(size, "remove_commit"@),
                )
            },
            (CycleStage::HandlingRemove { expected: _ }, Report::Handled(Err(error))) => self.fails(
                error@,
                after,
                next,
            ),
            (CycleStage::HandlingRemove { expected }, Report::Handled(Ok(_))) => {
                let phase = if self.spread.pending {
                    "remove_rejoin.fanout_process_pending_remove"@
                } else {
                    "remove_rejoin.fanout_receive_commit_remove"@
                };
                &&& self.stays(after)
                &&& after.stage is SpreadingRemove
                &&& next is Do
                &&& next->Do_0.spreads(
                    phase,
                    self.plateau_size,
                    "receive_commit"@,
                    self.others(),
                    Set::empty(),
                    expected@,
                    self.spread,
                    "remove"@,
                    self.plateau_size,
                    0,
                    phase,
                    self.marks(size, "remove_commit"@),
                )
            },
            (CycleStage::SpreadingRemove, Report::Spread(Err(error))) => self.fails(
                error@,
                after,
                next,
            ),
            (CycleStage::SpreadingRemove, Report::Spread(Ok(_))) => {
                &&& after.active@ == workers::those(
                    self.active@,
                    task::outside(set![self.victim.id@]),
                )
                &&& after.idle@ == self.idle@.push(self.victim)
                &&& after.stage is LookingAdd
                &&& next is Do
                &&& next->Do_0.shows(self.actor)
            },
            (CycleStage::LookingAdd, Report::State(Err(error))) => self.fails(error@, after, next),
            (CycleStage::LookingAdd, Report::State(Ok(before))) => {
                &&& self.stays(after)
                &&& after.stage is Adding
                &&& after.stage->Adding_expected@ == (transport::StateView {
                    group_id: before@.group_id,
                    epoch: (before@.epoch + 1) as u64,
                    members: order::ascending(before@.members.push(self.victim.id@)),
                })
                &&& next is Do
                &&& exists|marks: command::Marks| #[trigger]
                    self.add_marks(marks) && next->Do_0.sends(
                        self.actor,
                        command::CommandView::AddMembers { members: seq![self.victim.id@] },
                        "added locally in one commit"@,
                        Some("remove_rejoin.add"@),
                        marks,
                    )
            },
            (CycleStage::Adding { expected: _ }, Report::Sent(Err(error))) => self.fails(
                error@,
                after,
                next,
            ),
            (CycleStage::Adding { expected }, Report::Sent(Ok(_))) => {
                &&& self.stays(after)
                &&& after.stage is HandlingAdd
                &&& after.stage->HandlingAdd_expected@ == expected@
                &&& next is Do
                &&& exists|marks: command::Marks| #[trigger]
                    self.add_marks(marks) && next->Do_0.handles(
                        self.actor,
                        expected@,
                        self.spread.pending,
                        if self.spread.pending {
                            "remove_rejoin.actor_process_pending_add"@
                        } else {
                            "remove_rejoin.actor_receive_commit_add"@
                        },
                        marks,
                    )
            },
            (CycleStage::HandlingAdd { expected: _ }, Report::Handled(Err(error))) => self.fails(
                error@,
                after,
                next,
            ),
            (CycleStage::HandlingAdd { expected }, Report::Handled(Ok(_))) => {
                let phase = if self.spread.pending {
                    "remove_rejoin.fanout_process_pending_add"@
                } else {
                    "remove_rejoin.fanout_receive_commit_add"@
                };
                &&& self.stays(after)
                &&& after.stage is SpreadingAdd
                &&& next is Do
                &&& exists|marks: command::Marks| #[trigger]
                    self.add_marks(marks) && next->Do_0.spreads(
                        phase,
                        self.plateau_size,
                        "receive_commit"@,
                        self.all_others(),
                        Set::empty(),
                        expected@,
                        self.spread,
                        "add"@,
                        self.plateau_size,
                        0,
                        phase,
                        marks,
                    )
            },
            (CycleStage::SpreadingAdd, Report::Spread(Err(error))) => self.fails(
                error@,
                after,
                next,
            ),
            (CycleStage::SpreadingAdd, Report::Spread(Ok(_))) => {
                &&& self.stays(after)
                &&& after.stage is Welcoming
                &&& next is Do
                &&& next->Do_0.sends(
                    self.victim,
                    command::CommandView::JoinFromWelcome,
                    "joined from welcome"@,
                    Some("remove_rejoin.process_welcome"@),
                    self.marks(size + 1, "welcome_receive"@),
                )
            },
            (CycleStage::Welcoming, Report::Sent(Err(error))) => self.fails(error@, after, next),
            (CycleStage::Welcoming, Report::Sent(Ok(_))) => {
                &&& after.active@ == self.active@.push(self.victim)
                &&& after.idle@ == workers::those(self.idle@, task::outside(set![self.victim.id@]))
                &&& after.stage is Over
                &&& evict::succeeded(next)
            },
            _ => true,
        }
    }

    /// Begins a cycle: the one to be removed makes a new key package.
    pub fn start(
        active: Vec<WorkerSpec>,
        idle: VecDeque<WorkerSpec>,
        spread: Spread,
        plateau_size: usize,
        plateau_index: usize,
        victim: &WorkerSpec,
        actor: &WorkerSpec,
    ) -> (made: (RejoinCycle, Order))
        requires
            active@.contains(*victim),
        ensures
            made.0.started(
                active@,
                idle@,
                spread,
                plateau_size,
                plateau_index,
                *victim,
                *actor,
                made.1,
            ),
    {
        let cycle: RejoinCycle = RejoinCycle {
            active: active,
            idle: idle,
            spread: spread,
            plateau_size: plateau_size,
            plateau_index: plateau_index,
            victim: victim.clone(),
            actor: actor.clone(),
            stage: CycleStage::Preparing,
        };
        let order: Order = Order::Ask {
            worker: victim.clone(),
            command: Command::GenerateKeyPackage,
            phase: "remove_rejoin.generate_key_package".to_owned(),
            cursor: cycle.cursor(cycle.active.len(), "generate_key_package"),
        };
        (cycle, order)
    }

    /// A cycle that has begun.
    pub open spec fn started(
        self,
        active: Seq<WorkerSpec>,
        idle: Seq<WorkerSpec>,
        spread: Spread,
        plateau_size: usize,
        plateau_index: usize,
        victim: WorkerSpec,
        actor: WorkerSpec,
        order: Order,
    ) -> bool {
        &&& self.wf()
        &&& self.active@ == active
        &&& self.idle@ == idle
        &&& self.spread == spread
        &&& self.plateau_size == plateau_size
        &&& self.plateau_index == plateau_index
        &&& self.victim == victim
        &&& self.actor == actor
        &&& self.stage is Preparing
        &&& order.asks(
            victim,
            command::CommandView::GenerateKeyPackage,
            "remove_rejoin.generate_key_package"@,
            self.marks(active.len(), "generate_key_package"@),
        )
    }

    fn cursor(&self, size: usize, operation: &str) -> (cursor: BenchmarkCursor)
        ensures
            cursor@ == self.marks(size as nat, operation@),
    {
        BenchmarkCursor::new(
            self.plateau_index,
            self.plateau_size,
            size,
            "remove_rejoin",
            operation,
        )
    }

    fn add_cursor(&self) -> (cursor: BenchmarkCursor)
        requires
            self.active@.len() < usize::MAX,
        ensures
            self.add_marks(cursor@),
    {
        let decision: MembershipBatchDecision = MembershipBatchDecision {
            requested: 1,
            effective: 1,
            group_cap: membership_batch_group_cap(self.plateau_size),
            transition_cap: 1,
            source: "remove_rejoin",
        };
        assert(density::fixed_batch(1, "remove_rejoin"@, decision));
        self.cursor(self.active.len() + 1, "add_commit").with_membership_batch(&decision)
    }

    fn fail(&mut self, error: Failure) -> (next: Cycled)
        ensures
            final(self).wf(),
            final(self).same_task(*old(self)),
            old(self).fails(error@, *final(self), next),
    {
        self.stage = CycleStage::Over;
        Next::Done(Err(error))
    }

    fn spread_order(
        &self,
        phase: &'static str,
        recipients: Vec<WorkerSpec>,
        expected: ExpectedGroupState,
        create_op: &'static str,
        cursor: BenchmarkCursor,
    ) -> (order: Order)
        ensures
            order.spreads(
                phase@,
                self.plateau_size,
                "receive_commit"@,
                recipients@,
                Set::empty(),
                expected@,
                self.spread,
                create_op@,
                self.plateau_size,
                0,
                phase@,
                cursor@,
            ),
    {
        Order::SpreadCommit {
            phase: phase,
            group_size: self.plateau_size,
            operation: "receive_commit",
            task: CommitFanout {
                recipients: recipients,
                removed: IdSet::new(),
                expected: expected,
                spread: self.spread,
                create_op: create_op,
                plateau_size: self.plateau_size,
                seq_no: 0,
                phase: phase,
                cursor: cursor,
            },
        }
    }

    /// What is done after a report.
    #[verifier::rlimit(60)]
    pub fn step(&mut self, report: Report) -> (next: Cycled)
        requires
            old(self).wf(),
            old(self).waits_for(report),
        ensures
            final(self).wf(),
            old(self).next(report, *final(self), next),
    {
        let ghost start = *self;
        let size: usize = self.active.len();
        let names: Vec<String> = vec![self.victim.id.clone()];
        assert(text::texts(names@) =~= seq![self.victim.id@]);
        let mut stage: CycleStage = CycleStage::Over;
        std::mem::swap(&mut stage, &mut self.stage);
        match (stage, report) {
            (CycleStage::Preparing, Report::Answered(Err(error))) => self.fail(error),
            (CycleStage::Preparing, Report::Answered(Ok(_))) => {
                self.stage = CycleStage::LookingRemove;
                Next::Do(Order::ShowState { worker: self.actor.clone() })
            },
            (CycleStage::LookingRemove, Report::State(Err(error))) => self.fail(error),
            (CycleStage::LookingRemove, Report::State(Ok(before))) => {
                let members: Vec<String> = split_members(
                    &before.members,
                    &set_of(self.victim.id.as_str()),
                    false,
                );
                let expected: ExpectedGroupState = expected_group_state(
                    &before,
                    before.epoch + 1,
                    &members,
                );
                let order: Order = Order::Send {
                    worker: self.actor.clone(),
                    command: Command::RemoveMembers { members: names },
                    ok_fragment: "removed locally; group commit published".to_owned(),
                    phase: Some("remove_rejoin.remove".to_owned()),
                    cursor: Some(self.cursor(size, "remove_commit")),
                };
                self.stage = CycleStage::Removing { expected: expected };
                Next::Do(order)
            },
            (CycleStage::Removing { expected: _ }, Report::Sent(Err(error))) => self.fail(error),
            (CycleStage::Removing { expected }, Report::Sent(Ok(_))) => {
                let order: Order = Order::Handle {
                    worker: self.actor.clone(),
                    expected: expected.clone(),
                    pending: self.spread.pending,
                    phase: if self.spread.pending {
                        "remove_rejoin.actor_process_pending"
                    } else {
                        "remove_rejoin.actor_receive_commit"
                    },
                    cursor: self.cursor(size, "remove_commit"),
                };
                self.stage = CycleStage::HandlingRemove { expected: expected };
                Next::Do(order)
            },
            (CycleStage::HandlingRemove { expected: _ }, Report::Handled(Err(error))) => self.fail(
                error,
            ),
            (CycleStage::HandlingRemove { expected }, Report::Handled(Ok(_))) => {
                let mut both: IdSet = set_of(self.victim.id.as_str());
                both.insert(self.actor.id.as_str());
                let recipients: Vec<WorkerSpec> = without(self.active.as_slice(), &both);
                let phase: &'static str = if self.spread.pending {
                    "remove_rejoin.fanout_process_pending_remove"
                } else {
                    "remove_rejoin.fanout_receive_commit_remove"
                };
                let order: Order = self.spread_order(
                    phase,
                    recipients,
                    expected,
                    "remove",
                    self.cursor(size, "remove_commit"),
                );
                self.stage = CycleStage::SpreadingRemove;
                Next::Do(order)
            },
            (CycleStage::SpreadingRemove, Report::Spread(Err(error))) => self.fail(error),
            (CycleStage::SpreadingRemove, Report::Spread(Ok(_))) => {
                proof {
                    lemma_one_fewer(self.active@, self.victim);
                }
                self.active = without(self.active.as_slice(), &set_of(self.victim.id.as_str()));
                self.idle.push_back(self.victim.clone());
                assert(self.idle@[self.idle@.len() - 1] == self.victim);
                self.stage = CycleStage::LookingAdd;
                Next::Do(Order::ShowState { worker: self.actor.clone() })
            },
            (CycleStage::LookingAdd, Report::State(Err(error))) => self.fail(error),
            (CycleStage::LookingAdd, Report::State(Ok(before))) => {
                let mut members: Vec<String> = copy_texts(&before.members);
                members.push(self.victim.id.clone());
                assert(text::texts(members@) =~= text::texts(before.members@).push(
                    self.victim.id@,
                ));
                let expected: ExpectedGroupState = expected_group_state(
                    &before,
                    before.epoch + 1,
                    &members,
                );
                let cursor: BenchmarkCursor = self.add_cursor();
                assert(start.add_marks(cursor@));
                let order: Order = Order::Send {
                    worker: self.actor.clone(),
                    command: Command::AddMembers { members: names },
                    ok_fragment: "added locally in one commit".to_owned(),
                    phase: Some("remove_rejoin.add".to_owned()),
                    cursor: Some(cursor),
                };
                self.stage = CycleStage::Adding { expected: expected };
                Next::Do(order)
            },
            (CycleStage::Adding { expected: _ }, Report::Sent(Err(error))) => self.fail(error),
            (CycleStage::Adding { expected }, Report::Sent(Ok(_))) => {
                let cursor: BenchmarkCursor = self.add_cursor();
                assert(start.add_marks(cursor@));
                let order: Order = Order::Handle {
                    worker: self.actor.clone(),
                    expected: expected.clone(),
                    pending: self.spread.pending,
                    phase: if self.spread.pending {
                        "remove_rejoin.actor_process_pending_add"
                    } else {
                        "remove_rejoin.actor_receive_commit_add"
                    },
                    cursor: cursor,
                };
                self.stage = CycleStage::HandlingAdd { expected: expected };
                Next::Do(order)
            },
            (CycleStage::HandlingAdd { expected: _ }, Report::Handled(Err(error))) => self.fail(
                error,
            ),
            (CycleStage::HandlingAdd { expected }, Report::Handled(Ok(_))) => {
                let recipients: Vec<WorkerSpec> = without(
                    self.active.as_slice(),
                    &set_of(self.actor.id.as_str()),
                );
                let phase: &'static str = if self.spread.pending {
                    "remove_rejoin.fanout_process_pending_add"
                } else {
                    "remove_rejoin.fanout_receive_commit_add"
                };
                let cursor: BenchmarkCursor = self.add_cursor();
                assert(start.add_marks(cursor@));
                let order: Order = self.spread_order(phase, recipients, expected, "add", cursor);
                self.stage = CycleStage::SpreadingAdd;
                Next::Do(order)
            },
            (CycleStage::SpreadingAdd, Report::Spread(Err(error))) => self.fail(error),
            (CycleStage::SpreadingAdd, Report::Spread(Ok(_))) => {
                let order: Order = Order::Send {
                    worker: self.victim.clone(),
                    command: Command::JoinFromWelcome,
                    ok_fragment: "joined from welcome".to_owned(),
                    phase: Some("remove_rejoin.process_welcome".to_owned()),
                    cursor: Some(self.cursor(size + 1, "welcome_receive")),
                };
                self.stage = CycleStage::Welcoming;
                Next::Do(order)
            },
            (CycleStage::Welcoming, Report::Sent(Err(error))) => self.fail(error),
            (CycleStage::Welcoming, Report::Sent(Ok(_))) => {
                let mut idle: VecDeque<WorkerSpec> = VecDeque::new();
                std::mem::swap(&mut idle, &mut self.idle);
                self.idle = queue_without(idle, &set_of(self.victim.id.as_str()));
                self.active.push(self.victim.clone());
                Next::Done(Ok(()))
            },
            (stage, _) => {
                self.stage = stage;
                Next::Done(Ok(()))
            },
        }
    }

    /// How often a worker is held, as a member or as an idle worker.
    pub open spec fn held(self, w: WorkerSpec) -> nat {
        workers::times(self.active@, w) + workers::times(self.idle@, w)
    }
}

/// A cycle makes no worker up and puts none in two places. The one that is removed is always
/// somewhere, and where the cycle succeeds it is a member again. All others stay.
pub proof fn law_cycle(
    cycle: RejoinCycle,
    report: Report,
    after: RejoinCycle,
    next: Cycled,
    w: WorkerSpec,
)
    requires
        cycle.wf(),
        cycle.waits_for(report),
        cycle.next(report, after, next),
    ensures
        after.held(w) <= cycle.held(w),
        after.held(cycle.victim) >= 1,
        w.id@ != cycle.victim.id@ ==> after.held(w) == cycle.held(w),
        evict::succeeded(next) ==> after.active@.contains(cycle.victim),
        next is Done ==> after.stage is Over,
{
    let victim = cycle.victim;
    let others = task::outside(set![victim.id@]);
    workers::lemma_times_none(cycle.active@, victim);
    workers::lemma_times_none(cycle.idle@, victim);
    match (cycle.stage, report) {
        (CycleStage::SpreadingRemove, Report::Spread(Ok(_))) => {
            workers::lemma_times_chosen(cycle.active@, others, w);
            workers::lemma_times_pushed(cycle.idle@, victim, w);
            workers::lemma_times_pushed(cycle.idle@, victim, victim);
        },
        (CycleStage::Welcoming, Report::Sent(Ok(_))) => {
            workers::lemma_times_chosen(cycle.idle@, others, w);
            workers::lemma_times_pushed(cycle.active@, victim, w);
            workers::lemma_times_pushed(cycle.active@, victim, victim);
            assert(after.active@[after.active@.len() - 1] == victim);
        },
        _ => {},
    }
}

// ---------------------------------------------------------------------------
// Recovering
// ---------------------------------------------------------------------------

/// The operation that a cycle failed in.
pub open spec fn failed_operation(error: failure::FailureView) -> Seq<char> {
    match error {
        failure::FailureView::Batch { phase, operation, failures: _ } => if text::occurs(
            phase,
            "remove"@,
        ) {
            "remove_commit"@
        } else if text::occurs(phase, "add"@) {
            "add_commit"@
        } else {
            operation
        },
        failure::FailureView::Worker { text: _, kind: _, origin } => match origin {
            Some((command, _)) => operation_of(command),
            None => "remove_rejoin_cycle"@,
        },
    }
}

/// The operation that a command belongs to.
pub open spec fn operation_of(command: Seq<char>) -> Seq<char> {
    if command == "GenerateKeyPackage"@ {
        "generate_key_package"@
    } else if command == "RemoveMembers"@ {
        "remove_commit"@
    } else if command == "AddMembers"@ {
        "add_commit"@
    } else if command == "JoinFromWelcome"@ {
        "welcome_receive"@
    } else if command == "ReceiveCommit"@ || command == "ProcessPending"@ {
        "receive_commit"@
    } else if command == "ShowGroupState"@ {
        "show_group_state"@
    } else {
        command
    }
}

/// The operation that a cycle failed in.
pub fn remove_rejoin_failure_operation(error: &Failure) -> (operation: String)
    ensures
        operation@ == failed_operation(error@),
{
    match error {
        Failure::Batch(batch_error) => {
            if contains(batch_error.phase.as_str(), "remove") {
                return "remove_commit".to_owned();
            }
            if contains(batch_error.phase.as_str(), "add") {
                return "add_commit".to_owned();
            }
            batch_error.operation.clone()
        },
        Failure::Worker(worker_error) => {
            let command: &str = match &worker_error.origin {
                Some(origin) => origin.command,
                None => {
                    return "remove_rejoin_cycle".to_owned();
                },
            };
            if str_eq(command, "GenerateKeyPackage") {
                "generate_key_package".to_owned()
            } else if str_eq(command, "RemoveMembers") {
                "remove_commit".to_owned()
            } else if str_eq(command, "AddMembers") {
                "add_commit".to_owned()
            } else if str_eq(command, "JoinFromWelcome") {
                "welcome_receive".to_owned()
            } else if str_eq(command, "ReceiveCommit") || str_eq(command, "ProcessPending") {
                "receive_commit".to_owned()
            } else if str_eq(command, "ShowGroupState") {
                "show_group_state".to_owned()
            } else {
                command.to_owned()
            }
        },
    }
}

/// How far a recovery is.
#[derive(Debug)]
pub enum RecoverStage {
    /// The failures of several workers are written down.
    RecordingAll,
    /// The failure of one worker is written down.
    RecordingOne { failed: WorkerSpec },
    /// All that failed or took part are taken out.
    Evicting { failed: Vec<WorkerSpec>, quarantined: IdSet, evict: Evict },
    /// Nothing is left to do.
    Over,
}

/// The recovery from a cycle that failed. Those that failed and those that took part leave the
/// group; those of them that did not fail may join again later.
#[derive(Debug)]
pub struct Recovery {
    pub active: Vec<WorkerSpec>,
    pub idle: VecDeque<WorkerSpec>,
    pub spread: Spread,
    pub plateau_size: usize,
    pub plateau_index: usize,
    pub victim: WorkerSpec,
    pub actor: WorkerSpec,
    pub stage: RecoverStage,
}

/// What a recovery leads to: whether the run may go on.
pub type Recovered = Next<Result<bool, Failure>>;

/// A recovery is done, with an answer.
pub open spec fn recovered(next: Recovered, goes_on: bool) -> bool {
    next is Done && next->Done_0 is Ok && next->Done_0->Ok_0 == goes_on
}

/// A recovery failed.
pub open spec fn not_recovered(next: Recovered, error: failure::FailureView) -> bool {
    next is Done && next->Done_0 is Err && next->Done_0->Err_0@ == error
}

/// The first worker with an id.
pub open spec fn worker_named(list: Seq<WorkerSpec>, id: Seq<char>) -> Option<WorkerSpec>
    decreases list.len(),
{
    if list.len() == 0 {
        None
    } else if list[0].id@ == id {
        Some(list[0])
    } else {
        worker_named(list.drop_first(), id)
    }
}

pub(crate) fn find_worker(list: &Vec<WorkerSpec>, id: &str) -> (found: Option<WorkerSpec>)
    ensures
        found == worker_named(list@, id@),
{
    let mut i: usize = 0;
    assert(list@.skip(0) =~= list@);
    while i < list.len()
        invariant
            i <= list@.len(),
            worker_named(list@, id@) == worker_named(list@.skip(i as int), id@),
        decreases list@.len() - i,
    {
        assert(list@.skip(i as int)[0] == list@[i as int]);
        if str_eq(list[i].id.as_str(), id) {
            return Some(list[i].clone());
        }
        assert(list@.skip(i as int).drop_first() =~= list@.skip(i + 1));
        i = i + 1;
    }
    None
}

/// A list with a worker at the end, unless its id is already there.
pub open spec fn with_worker(list: Seq<WorkerSpec>, w: WorkerSpec) -> Seq<WorkerSpec> {
    if workers::has_id(list, w.id@) {
        list
    } else {
        list.push(w)
    }
}

fn add_worker(list: Vec<WorkerSpec>, w: &WorkerSpec) -> (out: Vec<WorkerSpec>)
    ensures
        out@ == with_worker(list@, *w),
{
    let mut out: Vec<WorkerSpec> = list;
    match position_of(out.as_slice(), w.id.as_str()) {
        Some(at) => {
            assert(out@[at as int].id@ == w.id@);
        },
        None => {
            out.push(w.clone());
        },
    }
    out
}

/// A queue with a worker at the end, unless its id is among those that failed.
pub open spec fn requeued(idle: Seq<WorkerSpec>, failed: Seq<WorkerSpec>, w: WorkerSpec) -> Seq<
    WorkerSpec,
> {
    if workers::has_id(failed, w.id@) {
        idle
    } else {
        idle.push(w)
    }
}

impl Recovery {
    /// The action that is written down.
    pub open spec fn action() -> Seq<char> {
        "quarantine_remove_rejoin_cycle_and_continue"@
    }

    /// An eviction that is under way is consistent.
    pub open spec fn wf(self) -> bool {
        self.stage matches RecoverStage::Evicting { failed, quarantined, evict } ==> {
            &&& evict.wf()
            &&& evict.active@ == self.active@
            &&& quarantined@ == workers::ids(self.quarantine(failed@)).to_set()
            &&& quarantined@.subset_of(evict.dead@)
        }
    }

    /// The report is one that the stage waits for.
    pub open spec fn waits_for(self, report: Report) -> bool {
        match self.stage {
            RecoverStage::RecordingAll => report is AllRecorded,
            RecoverStage::RecordingOne { failed: _ } => report is Recorded,
            RecoverStage::Evicting { failed: _, quarantined: _, evict } => evict.waits_for(report),
            RecoverStage::Over => false,
        }
    }

    /// What does not change.
    pub open spec fn same_task(self, other: Recovery) -> bool {
        &&& self.spread == other.spread
        &&& self.plateau_size == other.plateau_size
        &&& self.plateau_index == other.plateau_index
        &&& self.victim == other.victim
        &&& self.actor == other.actor
    }

    /// All that failed or took part.
    pub open spec fn quarantine(self, failed: Seq<WorkerSpec>) -> Seq<WorkerSpec> {
        with_worker(with_worker(failed, self.victim), self.actor)
    }

    /// The recovery is over, and nothing changed.
    pub open spec fn unchanged(self, after: Recovery) -> bool {
        &&& after.active@ == self.active@
        &&& after.idle@ == self.idle@
        &&& after.stage is Over
    }

    /// All that failed or took part are taken out.
    pub open spec fn evicts(
        self,
        failed: Seq<WorkerSpec>,
        after: Recovery,
        next: Recovered,
    ) -> bool {
        let dead = workers::ids(self.quarantine(failed)).to_set();
        &&& after.active@ == self.active@
        &&& after.idle@ == self.idle@
        &&& match evict::first_outside(self.active@, dead) {
            Some(actor) => {
                &&& after.stage matches RecoverStage::Evicting {
                    failed: held,
                    quarantined,
                    evict,
                }
                &&& held@ == failed
                &&& evict.dead@ == dead
                &&& evict.spread == self.spread
                &&& evict.plateau_size == self.plateau_size
                &&& evict.actor == Some(actor)
                &&& evict.stage is Looking
                &&& next is Do
                &&& next->Do_0.shows(actor)
            },
            None => {
                &&& after.stage is Over
                &&& not_recovered(
                    next,
                    failure::plain("No live OpenMLS member remains to evict OOM workers"@),
                )
            },
        }
    }

    /// What follows a step of the eviction.
    pub open spec fn after_evict(
        self,
        failed: Seq<WorkerSpec>,
        evict: Evict,
        step: Next<Result<(), Failure>>,
        after: Recovery,
        next: Recovered,
    ) -> bool {
        match step {
            Next::Do(order) => {
                &&& after.active@ == self.active@
                &&& after.idle@ == self.idle@
                &&& after.stage matches RecoverStage::Evicting {
                    failed: held,
                    quarantined: _,
                    evict: then,
                }
                &&& held@ == failed
                &&& then == evict
                &&& next == Next::<Result<bool, Failure>>::Do(order)
            },
            Next::Done(Ok(_)) => {
                let left = workers::those(
                    self.idle@,
                    task::outside(workers::ids(self.quarantine(failed)).to_set()),
                );
                &&& after.active@ == evict.active@
                &&& after.idle@ == requeued(requeued(left, failed, self.victim), failed, self.actor)
                &&& after.stage is Over
                &&& recovered(next, true)
            },
            Next::Done(Err(error)) => {
                &&& self.unchanged(after)
                &&& not_recovered(next, error@)
            },
        }
    }

    /// How far the recovery is after a report, and what is done then.
    pub open spec fn next(self, report: Report, after: Recovery, next: Recovered) -> bool {
        &&& after.same_task(self)
        &&& match (self.stage, report) {
            (RecoverStage::RecordingAll, Report::AllRecorded(Ok(Some(dead)))) => self.evicts(
                dead@,
                after,
                next,
            ),
            (RecoverStage::RecordingAll, Report::AllRecorded(Ok(None))) => {
                &&& self.unchanged(after)
                &&& recovered(next, false)
            },
            (RecoverStage::RecordingAll, Report::AllRecorded(Err(worse))) => {
                &&& self.unchanged(after)
                &&& not_recovered(next, worse@)
            },
            (
                RecoverStage::RecordingOne { failed },
                Report::Recorded(Ok(goes_on)),
            ) => if goes_on {
                self.evicts(seq![failed], after, next)
            } else {
                &&& self.unchanged(after)
                &&& recovered(next, false)
            },
            (RecoverStage::RecordingOne { failed: _ }, Report::Recorded(Err(worse))) => {
                &&& self.unchanged(after)
                &&& not_recovered(next, worse@)
            },
            (RecoverStage::Evicting { failed, quarantined: _, evict }, _) => exists|
                then: Evict,
                step: Next<Result<(), Failure>>,
            | #[trigger]
                evict.next(report, then, step) && self.after_evict(
                    failed@,
                    then,
                    step,
                    after,
                    next,
                ),
            _ => true,
        }
    }

    /// A recovery that has begun, or that cannot help.
    pub open spec fn started(
        self,
        active: Seq<WorkerSpec>,
        idle: Seq<WorkerSpec>,
        spread: Spread,
        plateau_size: usize,
        plateau_index: usize,
        victim: WorkerSpec,
        actor: WorkerSpec,
        error: failure::FailureView,
        next: Recovered,
    ) -> bool {
        let marks = command::Marks::at(
            plateau_index,
            plateau_size,
            active.len() as usize,
            "remove_rejoin"@,
            failed_operation(error),
        );
        &&& self.wf()
        &&& self.active@ == active
        &&& self.idle@ == idle
        &&& self.spread == spread
        &&& self.plateau_size == plateau_size
        &&& self.plateau_index == plateau_index
        &&& self.victim == victim
        &&& self.actor == actor
        &&& match error {
            failure::FailureView::Batch { phase: _, operation: _, failures: _ } => {
                &&& self.stage is RecordingAll
                &&& next is Do
                &&& next->Do_0.records_all(
                    marks,
                    error,
                    Recovery::action(),
                    evict::first_outside(active, set![actor.id@].insert(victim.id@)),
                )
            },
            failure::FailureView::Worker { text: _, kind: _, origin } => match origin {
                Some((_, id)) => match worker_named(active + idle + seq![victim, actor], id) {
                    Some(failed) => {
                        &&& self.stage == (RecoverStage::RecordingOne { failed })
                        &&& next is Do
                        &&& next->Do_0.records(
                            marks,
                            failed,
                            error,
                            Recovery::action(),
                            evict::first_outside(active, set![failed.id@].insert(victim.id@)),
                        )
                    },
                    None => self.stage is Over && recovered(next, false),
                },
                None => self.stage is Over && recovered(next, false),
            },
        }
    }

    /// Begins the recovery from a cycle that failed.
    pub fn start(
        active: Vec<WorkerSpec>,
        idle: VecDeque<WorkerSpec>,
        spread: Spread,
        plateau_size: usize,
        plateau_index: usize,
        victim: &WorkerSpec,
        actor: &WorkerSpec,
        error: &Failure,
    ) -> (made: (Recovery, Recovered))
        ensures
            made.0.started(
                active@,
                idle@,
                spread,
                plateau_size,
                plateau_index,
                *victim,
                *actor,
                error@,
                made.1,
            ),
    {
        let operation: String = remove_rejoin_failure_operation(error);
        let cursor: BenchmarkCursor = BenchmarkCursor::new(
            plateau_index,
            plateau_size,
            active.len(),
            "remove_rejoin",
            operation.as_str(),
        );
        let mut recovery: Recovery = Recovery {
            active: active,
            idle: idle,
            spread: spread,
            plateau_size: plateau_size,
            plateau_index: plateau_index,
            victim: victim.clone(),
            actor: actor.clone(),
            stage: RecoverStage::Over,
        };
        match error {
            Failure::Batch(_) => {
                let other: Option<WorkerSpec> = evict::find_outside(
                    recovery.active.as_slice(),
                    &set_of(actor.id.as_str()),
                    Some(victim.id.as_str()),
                );
                recovery.stage = RecoverStage::RecordingAll;
                let order: Order = Order::RecordAll {
                    cursor: cursor,
                    error: error.clone(),
                    action: "quarantine_remove_rejoin_cycle_and_continue",
                    reassigned_to: other,
                };
                (recovery, Next::Do(order))
            },
            Failure::Worker(worker_error) => {
                let id: &str = match &worker_error.origin {
                    Some(origin) => origin.worker_id.as_str(),
                    None => {
                        return (recovery, Next::Done(Ok(false)));
                    },
                };
                let mut all: Vec<WorkerSpec> = copy_workers(recovery.active.as_slice());
                let mut queue: Vec<WorkerSpec> = density::copy_of_queue(&recovery.idle);
                all.append(&mut queue);
                all.push(victim.clone());
                all.push(actor.clone());
                assert(all@ =~= active@ + idle@ + seq![*victim, *actor]);
                let failed: WorkerSpec = match find_worker(&all, id) {
                    Some(failed) => failed,
                    None => {
                        return (recovery, Next::Done(Ok(false)));
                    },
                };
                let other: Option<WorkerSpec> = evict::find_outside(
                    recovery.active.as_slice(),
                    &set_of(failed.id.as_str()),
                    Some(victim.id.as_str()),
                );
                let order: Order = Order::Record {
                    cursor: cursor,
                    worker: failed.clone(),
                    error: error.clone(),
                    action: "quarantine_remove_rejoin_cycle_and_continue",
                    reassigned_to: other,
                };
                recovery.stage = RecoverStage::RecordingOne { failed: failed };
                (recovery, Next::Do(order))
            },
        }
    }

    fn evict(&mut self, failed: Vec<WorkerSpec>) -> (next: Recovered)
        ensures
            final(self).wf(),
            final(self).same_task(*old(self)),
            old(self).evicts(failed@, *final(self), next),
    {
        let with_victim: Vec<WorkerSpec> = add_worker(
            copy_workers(failed.as_slice()),
            &self.victim,
        );
        let dead: Vec<WorkerSpec> = add_worker(with_victim, &self.actor);
        proof {
            let first = with_worker(failed@, self.victim);
            assert(first.len() > 0) by {
                if workers::has_id(failed@, self.victim.id@) {
                }
            }
        }
        let (evict, next): (Evict, Next<Result<(), Failure>>) = Evict::start(
            self.active.as_slice(),
            dead.as_slice(),
            self.spread,
            self.plateau_size,
        );
        let quarantined: IdSet = crate::table::id_set(&ids_of(dead.as_slice()));
        match next {
            Next::Do(order) => {
                self.stage = RecoverStage::Evicting {
                    failed: failed,
                    quarantined: quarantined,
                    evict: evict,
                };
                Next::Do(order)
            },
            Next::Done(Err(error)) => {
                self.stage = RecoverStage::Over;
                Next::Done(Err(error))
            },
            Next::Done(Ok(_)) => {
                self.stage = RecoverStage::Over;
                Next::Done(Ok(true))
            },
        }
    }

    fn requeue(&mut self, failed: &Vec<WorkerSpec>, w: &WorkerSpec)
        ensures
            *final(self) == (Recovery { idle: final(self).idle, ..*old(self) }),
            final(self).idle@ == requeued(old(self).idle@, failed@, *w),
    {
        match position_of(failed.as_slice(), w.id.as_str()) {
            Some(at) => {
                assert(failed@[at as int].id@ == w.id@);
            },
            None => {
                self.idle.push_back(w.clone());
            },
        }
    }

    /// What is done after a report.
    pub fn step(&mut self, report: Report) -> (next: Recovered)
        requires
            old(self).wf(),
            old(self).waits_for(report),
        ensures
            final(self).wf(),
            old(self).next(report, *final(self), next),
    {
        let ghost given = report;
        let mut stage: RecoverStage = RecoverStage::Over;
        std::mem::swap(&mut stage, &mut self.stage);
        match (stage, report) {
            (RecoverStage::RecordingAll, Report::AllRecorded(Ok(Some(dead)))) => self.evict(dead),
            (RecoverStage::RecordingAll, Report::AllRecorded(Ok(None))) => Next::Done(Ok(false)),
            (RecoverStage::RecordingAll, Report::AllRecorded(Err(worse))) => Next::Done(Err(worse)),
            (RecoverStage::RecordingOne { failed }, Report::Recorded(Ok(goes_on))) => {
                if goes_on {
                    let dead: Vec<WorkerSpec> = vec![failed];
                    assert(dead@ =~= seq![failed]);
                    self.evict(dead)
                } else {
                    Next::Done(Ok(false))
                }
            },
            (RecoverStage::RecordingOne { failed: _ }, Report::Recorded(Err(worse))) => Next::Done(
                Err(worse),
            ),
            (RecoverStage::Evicting { failed, quarantined, evict }, report) => {
                let mut evict: Evict = evict;
                let ghost before = evict;
                let step: Next<Result<(), Failure>> = evict.step(report);
                assert(before.next(given, evict, step));
                proof {
                    evict::law_eviction(before, given, evict, step);
                }
                match step {
                    Next::Do(order) => {
                        self.stage = RecoverStage::Evicting {
                            failed: failed,
                            quarantined: quarantined,
                            evict: evict,
                        };
                        Next::Do(order)
                    },
                    Next::Done(Ok(_)) => {
                        self.active = evict.active;
                        let mut idle: VecDeque<WorkerSpec> = VecDeque::new();
                        std::mem::swap(&mut idle, &mut self.idle);
                        self.idle = queue_without(idle, &quarantined);
                        let victim: WorkerSpec = self.victim.clone();
                        let actor: WorkerSpec = self.actor.clone();
                        self.requeue(&failed, &victim);
                        self.requeue(&failed, &actor);
                        Next::Done(Ok(true))
                    },
                    Next::Done(Err(error)) => Next::Done(Err(error)),
                }
            },
            (stage, _) => {
                self.stage = stage;
                Next::Done(Ok(false))
            },
        }
    }

    /// How often a worker is held, as a member or as an idle worker.
    pub open spec fn held(self, w: WorkerSpec) -> nat {
        workers::times(self.active@, w) + workers::times(self.idle@, w)
    }
}

proof fn lemma_with_worker(list: Seq<WorkerSpec>, w: WorkerSpec)
    ensures
        workers::ids(with_worker(list, w)).contains(w.id@),
        forall|id: Seq<char>| #[trigger]
            workers::ids(list).contains(id) ==> workers::ids(with_worker(list, w)).contains(id),
{
    let out = with_worker(list, w);
    if workers::has_id(list, w.id@) {
        let k = choose|k: int| 0 <= k < list.len() && (#[trigger] list[k]).id@ == w.id@;
        assert(workers::ids(list)[k] == w.id@);
    } else {
        assert(workers::ids(out)[list.len() as int] == w.id@);
        assert forall|id: Seq<char>| #[trigger]
            workers::ids(list).contains(id) implies workers::ids(out).contains(id) by {
            let k = choose|k: int| 0 <= k < list.len() && workers::ids(list)[k] == id;
            assert(workers::ids(out)[k] == id);
        }
    }
}

/// A recovery makes no worker up and puts none in two places, provided that the two that took part
/// are different workers of the run.
pub proof fn law_recovery(
    recovery: Recovery,
    report: Report,
    after: Recovery,
    next: Recovered,
    w: WorkerSpec,
)
    requires
        recovery.wf(),
        recovery.waits_for(report),
        recovery.next(report, after, next),
        recovery.victim != recovery.actor,
        recovery.held(recovery.victim) >= 1,
        recovery.held(recovery.actor) >= 1,
    ensures
        after.held(w) <= recovery.held(w),
        next is Do ==> after.held(w) == recovery.held(w),
        next is Done ==> after.stage is Over,
{
    match recovery.stage {
        RecoverStage::Evicting { failed, quarantined, evict } => {
            let (then, step) = choose|then: Evict, step: Next<Result<(), Failure>>| #[trigger]
                evict.next(report, then, step) && recovery.after_evict(
                    failed@,
                    then,
                    step,
                    after,
                    next,
                );
            evict::law_eviction(evict, report, then, step);
            if evict::succeeded(step) {
                let out = workers::ids(recovery.quarantine(failed@)).to_set();
                let left = workers::those(recovery.idle@, task::outside(out));
                let first = requeued(left, failed@, recovery.victim);
                workers::lemma_times_chosen(recovery.active@, task::outside(then.dead@), w);
                workers::lemma_times_chosen(recovery.idle@, task::outside(out), w);
                workers::lemma_times_pushed(left, recovery.victim, w);
                workers::lemma_times_pushed(first, recovery.actor, w);
                lemma_with_worker(failed@, recovery.victim);
                lemma_with_worker(with_worker(failed@, recovery.victim), recovery.actor);
                assert(out.contains(recovery.victim.id@));
                assert(out.contains(recovery.actor.id@));
            }
        },
        _ => {},
    }
}

// ---------------------------------------------------------------------------
// A cycle that goes well
// ---------------------------------------------------------------------------

/// The course of a cycle: where it stands after each report, and what it orders then.
pub struct CycleCourse {
    pub cycles: Seq<RejoinCycle>,
    pub nexts: Seq<Cycled>,
    pub reports: Seq<Report>,
}

impl CycleCourse {
    /// Each of the ten reports, all of them good, leads to the next step.
    pub open spec fn goes_well(self) -> bool {
        &&& self.reports.len() == 10
        &&& self.cycles.len() == 11
        &&& self.nexts.len() == 11
        &&& forall|i: int|
            0 <= i < 10 ==> (#[trigger] self.reports[i]).is_good() && self.cycles[i].waits_for(
                self.reports[i],
            ) && self.cycles[i].next(self.reports[i], self.cycles[i + 1], self.nexts[i + 1])
    }

    /// What the acting member's state is where it is asked for it.
    pub open spec fn state(self, at: int) -> transport::StateView {
        self.reports[at]->State_0->Ok_0@
    }
}

/// A cycle that goes well. The member that is to leave makes a new key package. Then the acting member
/// removes it, by its id and nobody else, and handles its commit, which leads into the next epoch,
/// without that member. The other members that stay handle the same commit, once each. Then the acting
/// member adds the one that left, by its id and nobody else, and handles its commit, which leads into
/// the next epoch, with it. The other members handle that commit too, once each, and at last the one
/// that left joins again. In the end it is a member and not idle; nobody else came or went.
#[verifier::rlimit(60)]
pub proof fn law_cycle_that_goes_well(
    active: Seq<WorkerSpec>,
    idle: Seq<WorkerSpec>,
    spread: Spread,
    plateau_size: usize,
    plateau_index: usize,
    victim: WorkerSpec,
    actor: WorkerSpec,
    order: Order,
    course: CycleCourse,
)
    requires
        course.goes_well(),
        course.cycles[0].started(
            active,
            idle,
            spread,
            plateau_size,
            plateau_index,
            victim,
            actor,
            order,
        ),
        victim.id@ != actor.id@,
    ensures
        order matches Order::Ask { worker, command, .. } && worker == victim && command@
            == command::CommandView::GenerateKeyPackage,
        course.nexts[1] matches Next::Do(Order::ShowState { worker }) && worker == actor,
        course.nexts[2] matches Next::Do(Order::Send { worker, command, .. }) && worker == actor && (
        command@ matches command::CommandView::RemoveMembers { members } && members.len() == 1
            && members[0] == victim.id@),
        course.nexts[3] matches Next::Do(Order::Handle { worker, expected, pending, .. }) && worker
            == actor && pending == spread.pending && expected@.group_id == course.state(1).group_id
            && expected@.epoch == course.state(1).epoch + 1 && (forall|id: Seq<char>| #[trigger]
            expected@.members.contains(id) <==> course.state(1).members.contains(id) && id
                != victim.id@) && (
        course.nexts[4] matches Next::Do(Order::SpreadCommit { task, .. }) && task.expected@
            == expected@ && task.spread == spread && task.removed@ == Set::<Seq<char>>::empty()
            && forall|w: WorkerSpec|
            workers::times(#[trigger] task.recipients@, w) == (if w.id@ == victim.id@ || w.id@
                == actor.id@ {
                0
            } else {
                workers::times(active, w)
            })),
        course.nexts[5] matches Next::Do(Order::ShowState { worker }) && worker == actor,
        course.nexts[6] matches Next::Do(Order::Send { worker, command, .. }) && worker == actor && (
        command@ matches command::CommandView::AddMembers { members } && members.len() == 1
            && members[0] == victim.id@),
        course.nexts[7] matches Next::Do(Order::Handle { worker, expected, pending, .. }) && worker
            == actor && pending == spread.pending && expected@.group_id == course.state(5).group_id
            && expected@.epoch == course.state(5).epoch + 1 && (forall|id: Seq<char>| #[trigger]
            expected@.members.contains(id) <==> course.state(5).members.contains(id) || id
                == victim.id@) && (
        course.nexts[8] matches Next::Do(Order::SpreadCommit { task, .. }) && task.expected@
            == expected@ && task.spread == spread && task.removed@ == Set::<Seq<char>>::empty()
            && forall|w: WorkerSpec|
            workers::times(#[trigger] task.recipients@, w) == (if w.id@ == victim.id@ || w.id@
                == actor.id@ {
                0
            } else {
                workers::times(active, w)
            })),
        course.nexts[9] matches Next::Do(Order::Send { worker, command, .. }) && worker == victim
            && command@ == command::CommandView::JoinFromWelcome,
        course.nexts[10] matches Next::Done(Ok(_)),
        forall|w: WorkerSpec| #[trigger]
            workers::times(course.cycles[10].active@, w) == (if w == victim {
                1
            } else if w.id@ == victim.id@ {
                0
            } else {
                workers::times(active, w)
            }),
        forall|w: WorkerSpec| #[trigger]
            workers::times(course.cycles[10].idle@, w) == (if w.id@ == victim.id@ {
                0
            } else {
                workers::times(idle, w)
            }),
{
    assert(forall|i: int| 0 <= i < 10 ==> (#[trigger] course.reports[i]).is_good());
    assert(course.reports[0].is_good());
    assert(course.reports[1].is_good());
    assert(course.reports[2].is_good());
    assert(course.reports[3].is_good());
    assert(course.reports[4].is_good());
    assert(course.reports[5].is_good());
    assert(course.reports[6].is_good());
    assert(course.reports[7].is_good());
    assert(course.reports[8].is_good());
    assert(course.reports[9].is_good());
    let members = course.state(1).members;
    let again = course.state(5).members;
    let kept = task::members_in(members, set![victim.id@], false);
    evict::lemma_ascending(kept);
    assert forall|id: Seq<char>| #[trigger] order::ascending(kept).contains(id)
        <==> members.contains(id) && id != victim.id@ by {
        evict::lemma_members_in(members, set![victim.id@], false, id);
    }
    let more = again.push(victim.id@);
    evict::lemma_ascending(more);
    assert forall|id: Seq<char>| #[trigger] order::ascending(more).contains(id)
        <==> again.contains(id) || id == victim.id@ by {
        if again.contains(id) {
            let k = choose|k: int| 0 <= k < again.len() && again[k] == id;
            assert(more[k] == id);
        }
        assert(more.last() == victim.id@);
        if more.contains(id) && id != victim.id@ {
            let k = choose|k: int| 0 <= k < more.len() && more[k] == id;
            assert(again[k] == id);
        }
    }
    let out = task::outside(set![victim.id@]);
    let both = task::outside(set![victim.id@].insert(actor.id@));
    let left = workers::those(active, out);
    assert forall|w: WorkerSpec| workers::times(#[trigger] workers::those(active, both), w) == (if w.id@
        == victim.id@ || w.id@ == actor.id@ {
        0
    } else {
        workers::times(active, w)
    }) by {
        workers::lemma_times_chosen(active, both, w);
    }
    assert forall|w: WorkerSpec| workers::times(
        #[trigger] workers::those(left, task::outside(set![actor.id@])),
        w,
    ) == (if w.id@ == victim.id@ || w.id@ == actor.id@ {
        0
    } else {
        workers::times(active, w)
    }) by {
        workers::lemma_times_chosen(active, out, w);
        workers::lemma_times_chosen(left, task::outside(set![actor.id@]), w);
    }
    assert forall|w: WorkerSpec| #[trigger] workers::times(left.push(victim), w) == (if w == victim {
        1
    } else if w.id@ == victim.id@ {
        0
    } else {
        workers::times(active, w)
    }) by {
        workers::lemma_times_chosen(active, out, w);
        workers::lemma_times_pushed(left, victim, w);
    }
    let queue = idle.push(victim);
    assert forall|w: WorkerSpec| #[trigger] workers::times(workers::those(queue, out), w) == (if w.id@
        == victim.id@ {
        0
    } else {
        workers::times(idle, w)
    }) by {
        workers::lemma_times_chosen(queue, out, w);
        workers::lemma_times_pushed(idle, victim, w);
    }
}

/// Where anything fails the cycle fails with it, and whoever was a member or idle then still is.
pub proof fn law_cycle_that_fails(
    cycle: RejoinCycle,
    error: Failure,
    report: Report,
    after: RejoinCycle,
    next: Cycled,
)
    requires
        cycle.wf(),
        cycle.waits_for(report),
        ({
            ||| report == Report::Answered(Err(error))
            ||| report == Report::State(Err(error))
            ||| report == Report::Sent(Err(error))
            ||| report == Report::Handled(Err(error))
            ||| report == Report::Spread(Err(error))
        }),
        cycle.next(report, after, next),
    ensures
        next matches Next::Done(Err(e)) && e@ == error@,
        after.active@ == cycle.active@,
        after.idle@ == cycle.idle@,
{
}

/// Whatever a cycle orders names the place in the run where the cycle stands.
pub proof fn law_cycle_marks(cycle: RejoinCycle, report: Report, after: RejoinCycle, next: Cycled)
    requires
        cycle.wf(),
        cycle.waits_for(report),
        cycle.next(report, after, next),
        next is Do,
    ensures
        next->Do_0.place() matches Some(place) ==> {
            &&& place.plateau_index == Some(cycle.plateau_index)
            &&& place.target_size == Some(cycle.plateau_size)
            &&& place.phase == Some("remove_rejoin"@)
            &&& place.operation_seq is None
            &&& place.payload_size is None
            &&& if after.rejoins() {
                place.active_size == Some((cycle.active@.len() + 1) as usize)
            } else {
                place.active_size == Some(cycle.active@.len() as usize)
            }
            &&& if after.stage is Welcoming {
                place.operation == Some("welcome_receive"@)
            } else if after.rejoins() {
                &&& place.operation == Some("add_commit"@)
                &&& place.batch_requested == Some(1usize)
                &&& place.batch_effective == Some(1usize)
                &&& place.batch_transition_cap == Some(1usize)
                &&& place.batch_source == Some("remove_rejoin"@)
            } else {
                place.operation == Some("remove_commit"@)
            }
        },
{
}

/// A recovery that goes well: nobody that failed, and neither of the two that took part, is a member
/// any more. Those that failed are not idle either; of the two that took part each that did not fail is
/// idle, once. All other idle workers stay idle.
pub proof fn law_recovery_that_goes_well(
    recovery: Recovery,
    failed: Seq<WorkerSpec>,
    report: Report,
    after: Recovery,
    next: Recovered,
)
    requires
        recovery.wf(),
        recovery.waits_for(report),
        recovery.stage is Evicting,
        failed == recovery.stage->Evicting_failed@,
        recovery.next(report, after, next),
        recovery.victim.id@ != recovery.actor.id@,
        next matches Next::Done(Ok(_)),
    ensures
        next->Done_0->Ok_0,
        ({
            let took_part = |id: Seq<char>| id == recovery.victim.id@ || id == recovery.actor.id@;
            &&& forall|w: WorkerSpec| #[trigger]
                after.active@.contains(w) ==> recovery.active@.contains(w) && !evict::is_one_of(
                    failed,
                    w.id@,
                ) && !took_part(w.id@)
            &&& forall|w: WorkerSpec| #[trigger]
                workers::times(after.idle@, w) == (if evict::is_one_of(failed, w.id@) {
                    0
                } else if took_part(w.id@) {
                    if w == recovery.victim || w == recovery.actor {
                        1
                    } else {
                        0
                    }
                } else {
                    workers::times(recovery.idle@, w)
                })
        }),
{
    let evict = recovery.stage->Evicting_evict;
    let (then, step) = choose|then: Evict, step: Next<Result<(), Failure>>| #[trigger]
        evict.next(report, then, step) && recovery.after_evict(failed, then, step, after, next);
    evict::law_eviction(evict, report, then, step);
    let victim = recovery.victim;
    let actor = recovery.actor;
    let out = workers::ids(recovery.quarantine(failed)).to_set();
    let left = workers::those(recovery.idle@, task::outside(out));
    let first = requeued(left, failed, victim);
    assert forall|id: Seq<char>| #[trigger] out.contains(id) == (evict::is_one_of(failed, id) || id
        == victim.id@ || id == actor.id@) by {
        lemma_quarantined(recovery, failed, id);
    }
    assert forall|id: Seq<char>| #[trigger] workers::has_id(failed, id) == evict::is_one_of(
        failed,
        id,
    ) by {}
    workers::lemma_those(evict.active@, task::outside(then.dead@));
    assert forall|w: WorkerSpec| #[trigger] after.active@.contains(
        w,
    ) implies recovery.active@.contains(w) && !evict::is_one_of(failed, w.id@) && w.id@ != victim.id@
        && w.id@ != actor.id@ by {
        assert(!then.dead@.contains(w.id@));
        assert(!out.contains(w.id@));
    }
    assert forall|w: WorkerSpec| #[trigger] workers::times(after.idle@, w) == (if evict::is_one_of(
        failed,
        w.id@,
    ) {
        0
    } else if w.id@ == victim.id@ || w.id@ == actor.id@ {
        if w == victim || w == actor {
            1
        } else {
            0
        }
    } else {
        workers::times(recovery.idle@, w)
    }) by {
        workers::lemma_times_chosen(recovery.idle@, task::outside(out), w);
        workers::lemma_times_pushed(left, victim, w);
        workers::lemma_times_pushed(first, actor, w);
        assert(out.contains(w.id@) == (evict::is_one_of(failed, w.id@) || w.id@ == victim.id@
            || w.id@ == actor.id@));
    }
}

proof fn lemma_quarantined(recovery: Recovery, failed: Seq<WorkerSpec>, id: Seq<char>)
    ensures
        workers::ids(recovery.quarantine(failed)).to_set().contains(id) == (evict::is_one_of(
            failed,
            id,
        ) || id == recovery.victim.id@ || id == recovery.actor.id@),
{
    let first = with_worker(failed, recovery.victim);
    lemma_with(failed, recovery.victim, id);
    lemma_with(first, recovery.actor, id);
    evict::lemma_acts(Seq::empty(), recovery.quarantine(failed));
    evict::lemma_acts(Seq::empty(), first);
}

proof fn lemma_with(list: Seq<WorkerSpec>, w: WorkerSpec, id: Seq<char>)
    ensures
        evict::is_one_of(with_worker(list, w), id) == (evict::is_one_of(list, id) || id == w.id@),
{
    let out = with_worker(list, w);
    if evict::is_one_of(list, id) {
        let k = choose|k: int| 0 <= k < list.len() && (#[trigger] list[k]).id@ == id;
        assert(out[k].id@ == id);
    }
    if id == w.id@ {
        if workers::has_id(list, w.id@) {
            let k = choose|k: int| 0 <= k < list.len() && (#[trigger] list[k]).id@ == w.id@;
            assert(out[k].id@ == id);
        } else {
            assert(out.last() == w);
            assert(out[out.len() - 1].id@ == id);
        }
    }
    if evict::is_one_of(out, id) {
        let k = choose|k: int| 0 <= k < out.len() && (#[trigger] out[k]).id@ == id;
        if k < list.len() {
            assert(list[k].id@ == id);
        }
    }
}

proof fn lemma_worker_named(list: Seq<WorkerSpec>, id: Seq<char>)
    ensures
        match worker_named(list, id) {
            Some(w) => list.contains(w) && w.id@ == id,
            None => !evict::is_one_of(list, id),
        },
    decreases list.len(),
{
    if list.len() > 0 {
        let rest = list.drop_first();
        lemma_worker_named(rest, id);
        if list[0].id@ == id {
            assert(list.contains(list[0]));
        } else {
            match worker_named(rest, id) {
                Some(w) => {
                    let k = choose|k: int| 0 <= k < rest.len() && rest[k] == w;
                    assert(list[k + 1] == w);
                },
                None => {
                    if evict::is_one_of(list, id) {
                        let k = choose|k: int|
                            0 <= k < list.len() && (#[trigger] list[k]).id@ == id;
                        assert(rest[k - 1].id@ == id);
                    }
                },
            }
        }
    }
}

/// A recovery begins by writing down what failed. Where one worker failed that can be told, and that is
/// a member, idle or one of the two that took part, its failure is written down; where many failed at
/// once, all of theirs. Otherwise the run does not go on, and nothing is done.
pub proof fn law_recovery_begins(
    recovery: Recovery,
    active: Seq<WorkerSpec>,
    idle: Seq<WorkerSpec>,
    spread: Spread,
    plateau_size: usize,
    plateau_index: usize,
    victim: WorkerSpec,
    actor: WorkerSpec,
    error: failure::FailureView,
    next: Recovered,
)
    requires
        recovery.started(
            active,
            idle,
            spread,
            plateau_size,
            plateau_index,
            victim,
            actor,
            error,
            next,
        ),
    ensures
        ({
            let known = |id: Seq<char>|
                evict::is_one_of(active, id) || evict::is_one_of(idle, id) || id == victim.id@ || id
                    == actor.id@;
            match error {
                failure::FailureView::Batch { .. } => {
                    next matches Next::Do(Order::RecordAll { error: e, reassigned_to, .. }) && e@
                        == error && (reassigned_to matches Some(other) ==> active.contains(other)
                        && other.id@ != victim.id@ && other.id@ != actor.id@)
                },
                failure::FailureView::Worker { origin, .. } => if origin is Some && known(
                    origin->Some_0.1,
                ) {
                    next matches Next::Do(Order::Record { worker, error: e, reassigned_to, .. })
                        && worker.id@ == origin->Some_0.1 && e@ == error && (
                    reassigned_to matches Some(other) ==> active.contains(other) && other.id@
                        != victim.id@ && other.id@ != worker.id@)
                } else {
                    next matches Next::Done(Ok(goes_on)) && !goes_on
                },
            }
        }),
        recovery.active@ == active,
        recovery.idle@ == idle,
{
    let all = active + idle + seq![victim, actor];
    match error {
        failure::FailureView::Batch { .. } => {
            evict::lemma_first_outside(active, set![actor.id@].insert(victim.id@));
        },
        failure::FailureView::Worker { origin, .. } => {
            if let Some((_, id)) = origin {
                lemma_worker_named(all, id);
                if evict::is_one_of(active, id) {
                    let k = choose|k: int| 0 <= k < active.len() && (#[trigger] active[k]).id@ == id;
                    assert(all[k].id@ == id);
                }
                if evict::is_one_of(idle, id) {
                    let k = choose|k: int| 0 <= k < idle.len() && (#[trigger] idle[k]).id@ == id;
                    assert(all[active.len() + k].id@ == id);
                }
                assert(all[(active.len() + idle.len()) as int] == victim);
                assert(all[(active.len() + idle.len() + 1) as int] == actor);
                if let Some(failed) = worker_named(all, id) {
                    evict::lemma_first_outside(active, set![failed.id@].insert(victim.id@));
                    let k = choose|k: int| 0 <= k < all.len() && all[k] == failed;
                    if k < active.len() {
                        assert(active[k].id@ == id);
                    } else if k < active.len() + idle.len() {
                        assert(idle[k - active.len()].id@ == id);
                    }
                }
            }
        },
    }
}

} // verus!
