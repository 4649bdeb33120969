//! Adding members to the group in one commit.

use rand::rngs::StdRng;
use std::collections::VecDeque;
use vstd::prelude::*;

use crate::batch::MembershipBatchDecision;
use crate::command;
use crate::command::{BenchmarkCursor, Command};
use crate::draw;
use crate::draw::draw_below;
use crate::evict;
use crate::evict::Evict;
use crate::expect;
use crate::expect::{debug_texts, expected_group_state, ExpectedGroupState};
use crate::failure;
use crate::failure::Failure;
use crate::order;
use crate::roles;
use crate::table::IdSet;
use crate::task;
use crate::task::{first_other, CommitFanout, Next, Order, Report, Spread};
use crate::text;
use crate::text::{copy_texts, decimal_text};
use crate::transport;
use crate::transport::GroupStateSnapshot;
use crate::workers;
use crate::workers::{copy_workers, ids_of, position_of, WorkerSpec};

verus! {

/// How far an addition is.
#[derive(Debug)]
pub enum AddStage {
    /// A joiner makes its key package.
    Preparing { joiner: WorkerSpec },
    /// A joiner failed before the commit; its failure is written down.
    LosingJoiner { error: Failure },
    /// The actor's state is asked for.
    Looking,
    /// The actor adds the joiners.
    Committing,
    /// The actor handles its own commit.
    Handling,
    /// The actor failed; its failure is written down.
    LosingActor { error: Failure },
    /// The actor and the joiners are taken out again.
    Undoing(Evict),
    /// A joiner joins.
    Joining { joiner: WorkerSpec },
    /// A joiner failed after the commit; its failure is written down.
    LosingJoined { joiner: WorkerSpec, error: Failure },
    /// The other members handle the commit.
    Spreading,
    /// Other members failed; their failures are written down.
    LosingOthers { error: Failure },
    /// All that died are taken out.
    Evicting(Evict),
    /// The work is reported.
    Reporting,
    /// Nothing is left to do.
    Over,
}

/// The addition of members in one commit. The group's members are `active`, those that may join
/// are `idle`.
#[derive(Debug)]
pub struct AddMembers {
    pub active: Vec<WorkerSpec>,
    pub idle: VecDeque<WorkerSpec>,
    pub decision: MembershipBatchDecision,
    pub spread: Spread,
    pub plateau_index: usize,
    pub target_size: usize,
    /// How many members were to be added.
    pub planned: usize,
    pub actor: Option<WorkerSpec>,
    pub actor_idx: usize,
    /// The joiners whose turn is still to come.
    pub waiting: Vec<WorkerSpec>,
    /// The joiners that are ready for the commit.
    pub prepared: Vec<WorkerSpec>,
    /// The ids that the commit adds.
    pub joiner_ids: Vec<String>,
    pub expected: Option<ExpectedGroupState>,
    pub joined: Vec<WorkerSpec>,
    pub failed: Vec<WorkerSpec>,
    pub stage: AddStage,
}

/// What an addition leads to.
pub type Added = Next<Result<(), Failure>>;

impl AddMembers {
    /// The place in the run.
    pub open spec fn marks(self, operation: Seq<char>) -> command::Marks {
        command::Marks::at(
            self.plateau_index,
            self.target_size,
            self.active@.len() as usize,
            "membership_add"@,
            operation,
        )
    }

    /// The place in the run, with the batch as it was decided.
    pub open spec fn commit_marks(self) -> command::Marks {
        self.marks("add_commit"@).batched(self.decision)
    }

    /// While something is left to do there is an actor; until all had their turn it is a member
    /// that stays in its place.
    pub open spec fn wf(self) -> bool {
        &&& !(self.stage is Over || self.stage is Reporting) ==> self.actor is Some
        &&& !(self.stage is Over || self.stage is Reporting || self.stage is Evicting) ==> {
            &&& self.actor_idx < self.active@.len()
            &&& self.actor->0 == self.active@[self.actor_idx as int]
        }
        &&& self.stage is Committing || self.stage is Handling || self.stage is Joining
            || self.stage is LosingJoined ==> self.expected is Some
        &&& self.stage is Joining || self.stage is LosingJoined || self.stage is Spreading
            || self.stage is LosingOthers || self.stage is Evicting ==> self.prepared@.len() == 0
        &&& self.stage is Spreading || self.stage is LosingOthers || self.stage is Evicting
            ==> self.waiting@.len() == 0
        &&& self.stage matches AddStage::Undoing(evict) ==> evict.wf() && evict.active@
            == self.active@
        &&& self.stage matches AddStage::Evicting(evict) ==> evict.wf() && evict.active@
            == self.active@
    }

    /// The report is one that the stage waits for.
    pub open spec fn waits_for(self, report: Report) -> bool {
        match self.stage {
            AddStage::Preparing { joiner: _ } => report is Sent,
            AddStage::LosingJoiner { error: _ } => report is Recorded,
            AddStage::Looking => report.is_state(),
            AddStage::Committing => report is Sent,
            AddStage::Handling => report is Handled,
            AddStage::LosingActor { error: _ } => report is Recorded,
            AddStage::Undoing(evict) => evict.waits_for(report),
            AddStage::Joining { joiner: _ } => report is Sent,
            AddStage::LosingJoined { joiner: _, error: _ } => report is Recorded,
            AddStage::Spreading => report is Spread,
            AddStage::LosingOthers { error: _ } => report is AllRecorded,
            AddStage::Evicting(evict) => evict.waits_for(report),
            AddStage::Reporting => report is Ticked,
            AddStage::Over => false,
        }
    }

    /// What does not change.
    pub open spec fn same_task(self, other: AddMembers) -> bool {
        &&& self.spread == other.spread
        &&& self.plateau_index == other.plateau_index
        &&& self.target_size == other.target_size
        &&& self.planned == other.planned
    }

    /// The members, the idle workers and the decision stay.
    pub open spec fn stays(self, after: AddMembers) -> bool {
        &&& after.same_task(self)
        &&& after.active@ == self.active@
        &&& after.idle@ == self.idle@
        &&& after.decision == self.decision
        &&& after.actor == self.actor
        &&& after.actor_idx == self.actor_idx
        &&& after.expected == self.expected
        &&& text::texts(after.joiner_ids@) == text::texts(self.joiner_ids@)
    }

    /// The joiners stay as they are.
    pub open spec fn same_joiners(self, after: AddMembers) -> bool {
        &&& after.waiting@ == self.waiting@
        &&& after.prepared@ == self.prepared@
        &&& after.joined@ == self.joined@
        &&& after.failed@ == self.failed@
    }

    /// The addition failed.
    pub open spec fn fails(self, error: failure::FailureView, after: AddMembers, next: Added) -> bool {
        &&& after.same_task(self)
        &&& after.active@ == self.active@
        &&& after.idle@ == self.idle@
        &&& after.stage is Over
        &&& evict::failed(next, error)
    }

    /// The next joiner makes its key package; when all did, the actor's state is asked for. Where no
    /// joiner is left the addition is over.
    pub open spec fn prepares(
        self,
        prepared: Seq<WorkerSpec>,
        after: AddMembers,
        next: Added,
    ) -> bool {
        if self.waiting@.len() > 0 {
            let joiner = self.waiting@[0];
            &&& self.stays(after)
            &&& after.waiting@ == self.waiting@.skip(1)
            &&& after.prepared@ == prepared
            &&& after.joined@ == self.joined@
            &&& after.failed@ == self.failed@
            &&& after.stage == (AddStage::Preparing { joiner })
            &&& next is Do
            &&& next->Do_0.sends(
                joiner,
                command::CommandView::GenerateKeyPackage,
                "key package uploaded for "@ + joiner.id@,
                None,
                command::Marks::none(),
            )
        } else if prepared.len() == 0 {
            &&& after.same_task(self)
            &&& after.active@ == self.active@
            &&& after.idle@ == self.idle@
            &&& after.stage is Over
            &&& evict::succeeded(next)
        } else {
            &&& after.same_task(self)
            &&& after.active@ == self.active@
            &&& after.idle@ == self.idle@
            &&& after.actor == self.actor
            &&& after.actor_idx == self.actor_idx
            &&& after.decision == (MembershipBatchDecision {
                effective: prepared.len() as usize,
                ..self.decision
            })
            &&& after.waiting@ == self.waiting@
            &&& after.prepared@ == prepared
            &&& text::texts(after.joiner_ids@) == workers::ids(prepared)
            &&& after.joined@ == self.joined@
            &&& after.failed@ == self.failed@
            &&& after.stage is Looking
            &&& next is Do
            &&& next->Do_0.shows(self.actor->0)
        }
    }

    /// The state of the group with the joiners in it.
    pub open spec fn with_joiners(self, before: transport::StateView) -> transport::StateView {
        transport::StateView {
            group_id: before.group_id,
            epoch: (before.epoch + 1) as u64,
            members: order::ascending(before.members + text::texts(self.joiner_ids@)),
        }
    }

    /// The actor adds the joiners.
    pub open spec fn commits(
        self,
        before: transport::StateView,
        after: AddMembers,
        next: Added,
    ) -> bool {
        &&& after.same_task(self)
        &&& after.active@ == self.active@
        &&& after.idle@ == self.idle@
        &&& after.decision == self.decision
        &&& after.actor == self.actor
        &&& after.actor_idx == self.actor_idx
        &&& text::texts(after.joiner_ids@) == text::texts(self.joiner_ids@)
        &&& self.same_joiners(after)
        &&& after.expected is Some
        &&& after.expected->0@ == self.with_joiners(before)
        &&& after.stage is Committing
        &&& next is Do
        &&& next->Do_0.sends(
            self.actor->0,
            command::CommandView::AddMembers { members: text::texts(self.joiner_ids@) },
            "added locally in one commit"@,
            Some("add_member.create"@),
            self.commit_marks(),
        )
    }

    /// The actor is lost before the joiners joined: they are idle again, in their order, and the
    /// actor is taken out, with whatever the commit may have added.
    pub open spec fn undoes(self, after: AddMembers, next: Added) -> bool {
        &&& after.same_task(self)
        &&& after.active@ == self.active@
        &&& after.idle@ == self.prepared@ + self.idle@
        &&& after.waiting@ == self.waiting@
        &&& after.prepared@.len() == 0
        &&& after.joined@ == self.joined@
        &&& after.failed@ == self.failed@
        &&& begins_eviction(
            self.active@,
            seq![self.actor->0] + self.prepared@,
            self.spread,
            self.target_size,
            match after.stage {
                AddStage::Undoing(evict) => Some(evict),
                _ => None,
            },
            after.stage is Over,
            next,
        )
    }

    /// The actor's failure is written down.
    pub open spec fn loses_actor(
        self,
        error: failure::FailureView,
        action: Seq<char>,
        after: AddMembers,
        next: Added,
    ) -> bool {
        &&& self.stays(after)
        &&& self.same_joiners(after)
        &&& after.stage is LosingActor
        &&& after.stage->LosingActor_error@ == error
        &&& next is Do
        &&& next->Do_0.records(
            self.commit_marks(),
            self.actor->0,
            error,
            action,
            task::other_than(self.active@, self.actor->0.id@),
        )
    }

    /// The next joiner joins; when all had their turn, the other members handle the commit.
    pub open spec fn joins(
        self,
        waiting: Seq<WorkerSpec>,
        joined: Seq<WorkerSpec>,
        failed: Seq<WorkerSpec>,
        after: AddMembers,
        next: Added,
    ) -> bool {
        &&& self.stays(after)
        &&& after.prepared@.len() == 0
        &&& after.joined@ == joined
        &&& after.failed@ == failed
        &&& next is Do
        &&& if waiting.len() > 0 {
            let joiner = waiting[0];
            &&& after.waiting@ == waiting.skip(1)
            &&& after.stage == (AddStage::Joining { joiner })
            &&& next->Do_0.sends_until_ok(
                joiner,
                command::CommandView::JoinFromWelcome,
                joiner.id@ + " joined from welcome"@,
                "404 Not Found"@,
            )
        } else {
            &&& after.waiting@.len() == 0
            &&& after.stage is Spreading
            &&& next->Do_0.spreads(
                "add_member"@,
                self.target_size,
                "receive_commit"@,
                self.active@.remove(self.actor_idx as int),
                Set::empty(),
                self.expected->0@,
                self.spread,
                "add"@,
                self.target_size,
                0,
                if self.spread.pending {
                    "add_member.fanout_process_pending"@
                } else {
                    "add_member.fanout_receive_commit"@
                },
                self.commit_marks(),
            )
        }
    }

    /// The label of the work that is done.
    pub open spec fn label(self) -> Seq<char> {
        "add "@ + text::decimal(self.planned as nat) + " member(s) "@ + expect::debug_shown(
            text::texts(self.joiner_ids@),
        ) + " actor="@ + self.actor->0.id@
    }

    /// The work is reported.
    pub open spec fn reports(self, active: Seq<WorkerSpec>, after: AddMembers, next: Added) -> bool {
        &&& after.same_task(self)
        &&& after.active@ == active
        &&& after.idle@ == self.idle@
        &&& after.waiting@.len() == 0
        &&& after.prepared@.len() == 0
        &&& after.joined@.len() == 0
        &&& after.failed@.len() == 0
        &&& after.stage is Reporting
        &&& next is Do
        &&& next->Do_0.ticks(self.joined@.len() as usize, self.label())
    }

    /// The joined become members, and all that died are taken out.
    pub open spec fn concludes(
        self,
        more: Seq<WorkerSpec>,
        after: AddMembers,
        next: Added,
    ) -> bool {
        let members = self.active@ + self.joined@;
        let dead = self.failed@ + more;
        if dead.len() == 0 {
            self.reports(members, after, next)
        } else {
            &&& after.same_task(self)
            &&& after.active@ == members
            &&& after.idle@ == self.idle@
            &&& after.waiting@.len() == 0
            &&& after.prepared@.len() == 0
            &&& after.failed@.len() == 0
            &&& begins_eviction(members, dead, self.spread, self.target_size, match after.stage {
                AddStage::Evicting(evict) => Some(evict),
                _ => None,
            }, after.stage is Over, next)
            &&& after.stage is Evicting ==> after.joined@ == self.joined@ && after.actor
                == self.actor && text::texts(after.joiner_ids@) == text::texts(self.joiner_ids@)
        }
    }

    /// How far the addition is after a report, and what is done then.
    pub open spec fn next(self, report: Report, after: AddMembers, next: Added) -> bool {
        match (self.stage, report) {
            (AddStage::Preparing { joiner }, Report::Sent(Ok(_))) => self.prepares(
                self.prepared@.push(joiner),
                after,
                next,
            ),
            (AddStage::Preparing { joiner }, Report::Sent(Err(error))) => {
                &&& self.stays(after)
                &&& self.same_joiners(after)
                &&& after.stage is LosingJoiner
                &&& after.stage->LosingJoiner_error@ == error@
                &&& next is Do
                &&& next->Do_0.records(
                    self.marks("generate_key_package"@),
                    joiner,
                    error@,
                    "drop_idle_joiner"@,
                    self.actor,
                )
            },
            (AddStage::LosingJoiner { error }, Report::Recorded(Ok(goes_on))) => if goes_on {
                self.prepares(self.prepared@, after, next)
            } else {
                self.fails(error@, after, next)
            },
            (AddStage::LosingJoiner { error: _ }, Report::Recorded(Err(worse))) => self.fails(
                worse@,
                after,
                next,
            ),
            (AddStage::Looking, Report::State(Err(error))) => self.fails(error@, after, next),
            (AddStage::Looking, Report::State(Ok(before))) => self.commits(before@, after, next),
            (AddStage::Committing, Report::Sent(Ok(_))) => {
                &&& self.stays(after)
                &&& self.same_joiners(after)
                &&& after.stage is Handling
                &&& next is Do
                &&& next->Do_0.handles(
                    self.actor->0,
                    self.expected->0@,
                    self.spread.pending,
                    if self.spread.pending {
                        "add_member.actor_process_pending"@
                    } else {
                        "add_member.actor_receive_commit"@
                    },
                    self.commit_marks(),
                )
            },
            (AddStage::Committing, Report::Sent(Err(error))) => self.loses_actor(
                error@,
                "evict_add_actor_and_retry"@,
                after,
                next,
            ),
            (AddStage::Handling, Report::Handled(Ok(_))) => self.joins(
                self.prepared@,
                self.joined@,
                self.failed@,
                after,
                next,
            ),
            (AddStage::Handling, Report::Handled(Err(error))) => self.loses_actor(
                error@,
                "evict_add_actor_receive_and_retry"@,
                after,
                next,
            ),
            (AddStage::LosingActor { error }, Report::Recorded(Ok(goes_on))) => if goes_on {
                self.undoes(after, next)
            } else {
                self.fails(error@, after, next)
            },
            (AddStage::LosingActor { error: _ }, Report::Recorded(Err(worse))) => self.fails(
                worse@,
                after,
                next,
            ),
            (AddStage::Undoing(evict), _) => exists|then: Evict, step: Added| #[trigger]
                evict.next(report, then, step) && match step {
                    Next::Do(_) => {
                        &&& self.stays(after)
                        &&& self.same_joiners(after)
                        &&& after.stage == AddStage::Undoing(then)
                        &&& next == step
                    },
                    Next::Done(Ok(_)) => {
                        &&& after.same_task(self)
                        &&& after.active@ == then.active@
                        &&& after.idle@ == self.idle@
                        &&& self.same_joiners(after)
                        &&& after.stage is Over
                        &&& evict::succeeded(next)
                    },
                    Next::Done(Err(error)) => self.fails(error@, after, next),
                },
            (AddStage::Joining { joiner }, Report::Sent(Ok(_))) => self.joins(
                self.waiting@,
                self.joined@.push(joiner),
                self.failed@,
                after,
                next,
            ),
            (AddStage::Joining { joiner }, Report::Sent(Err(error))) => {
                &&& self.stays(after)
                &&& self.same_joiners(after)
                &&& after.stage is LosingJoined
                &&& after.stage->LosingJoined_joiner == joiner
                &&& after.stage->LosingJoined_error@ == error@
                &&& next is Do
                &&& next->Do_0.records(
                    self.marks("join_from_welcome"@),
                    joiner,
                    error@,
                    "evict_joiner_after_add_commit"@,
                    self.actor,
                )
            },
            (
                AddStage::LosingJoined { joiner, error },
                Report::Recorded(Ok(goes_on)),
            ) => if goes_on {
                self.joins(self.waiting@, self.joined@, self.failed@.push(joiner), after, next)
            } else {
                self.fails(error@, after, next)
            },
            (
                AddStage::LosingJoined { joiner: _, error: _ },
                Report::Recorded(Err(worse)),
            ) => self.fails(worse@, after, next),
            (AddStage::Spreading, Report::Spread(Ok(_))) => self.concludes(
                Seq::empty(),
                after,
                next,
            ),
            (AddStage::Spreading, Report::Spread(Err(error))) => {
                &&& self.stays(after)
                &&& self.same_joiners(after)
                &&& after.stage is LosingOthers
                &&& after.stage->LosingOthers_error@ == error@
                &&& next is Do
                &&& next->Do_0.records_all(
                    self.commit_marks(),
                    error@,
                    "evict_add_recipient_and_retry"@,
                    self.actor,
                )
            },
            (
                AddStage::LosingOthers { error: _ },
                Report::AllRecorded(Ok(Some(more))),
            ) => self.concludes(more@, after, next),
            (AddStage::LosingOthers { error }, Report::AllRecorded(Ok(None))) => self.fails(
                error@,
                after,
                next,
            ),
            (AddStage::LosingOthers { error: _ }, Report::AllRecorded(Err(worse))) => self.fails(
                worse@,
                after,
                next,
            ),
            (AddStage::Evicting(evict), _) => exists|then: Evict, step: Added| #[trigger]
                evict.next(report, then, step) && match step {
                    Next::Do(_) => {
                        &&& self.stays(after)
                        &&& self.same_joiners(after)
                        &&& after.stage == AddStage::Evicting(then)
                        &&& next == step
                    },
                    Next::Done(Ok(_)) => self.reports(then.active@, after, next),
                    Next::Done(Err(error)) => self.fails(error@, after, next),
                },
            (AddStage::Reporting, Report::Ticked) => {
                &&& after.same_task(self)
                &&& after.active@ == self.active@
                &&& after.idle@ == self.idle@
                &&& self.same_joiners(after)
                &&& after.stage is Over
                &&& evict::succeeded(next)
            },
            _ => true,
        }
    }
}

/// An eviction begins: either it is under way, or it is over at once because nobody is alive.
pub open spec fn begins_eviction(
    active: Seq<WorkerSpec>,
    dead: Seq<WorkerSpec>,
    spread: Spread,
    plateau_size: usize,
    evict: Option<Evict>,
    over: bool,
    next: Next<Result<(), Failure>>,
) -> bool {
    let gone = workers::ids(dead).to_set();
    match evict::first_outside(active, gone) {
        Some(actor) => {
            &&& evict is Some
            &&& evict->0.active@ == active
            &&& evict->0.dead@ == gone
            &&& evict->0.spread == spread
            &&& evict->0.plateau_size == plateau_size
            &&& evict->0.actor == Some(actor)
            &&& evict->0.stage is Looking
            &&& next is Do
            &&& next->Do_0.shows(actor)
        },
        None => over && evict::failed(
            next,
            failure::plain("No live OpenMLS member remains to evict OOM workers"@),
        ),
    }
}

/// The place of the actor: the member with the id that is asked for, or one that is drawn.
pub open spec fn actor_place(
    active: Seq<WorkerSpec>,
    forced: Option<Seq<char>>,
    state: int,
    at: usize,
    after: int,
) -> bool {
    if forced is Some && workers::has_id(active, forced->0) {
        &&& roles::first_with_id(active, forced->0, at as int)
        &&& after == state
    } else {
        &&& at == draw::draw_at(state, 0, active.len() - 1)
        &&& after == draw::state_after_draw(state, 0, active.len() - 1)
    }
}

/// The place of the actor.
pub(crate) fn place_actor(active: &[WorkerSpec], forced: Option<&str>, rng: &mut StdRng) -> (at:
    usize)
    requires
        active@.len() > 0,
    ensures
        at < active@.len(),
        actor_place(
            active@,
            text::named(forced),
            draw::generator_state(*old(rng)),
            at,
            draw::generator_state(*final(rng)),
        ),
{
    match forced {
        Some(id) => match position_of(active, id) {
            Some(at) => {
                assert(active@[at as int].id@ == id@);
                at
            },
            None => draw_below(rng, active.len()),
        },
        None => draw_below(rng, active.len()),
    }
}

/// Why an addition cannot begin.
pub open spec fn add_refused(active: nat, idle: nat, batch: nat) -> Option<Seq<char>> {
    if active == 0 {
        Some("No active group member available to add new member"@)
    } else if batch == 0 {
        Some("Cannot add zero members"@)
    } else if idle < batch {
        Some(
            "Requested add batch of "@ + text::decimal(batch) + " members, but only "@
                + text::decimal(idle) + " idle workers are available"@,
        )
    } else {
        None
    }
}

fn refuse_add(active: usize, idle: usize, batch: usize) -> (refused: Option<String>)
    ensures
        text::maybe(refused) == add_refused(active as nat, idle as nat, batch as nat),
{
    if active == 0 {
        Some("No active group member available to add new member".to_owned())
    } else if batch == 0 {
        Some("Cannot add zero members".to_owned())
    } else if idle < batch {
        let mut out: String = "Requested add batch of ".to_owned();
        out.append(decimal_text(batch as u128).as_str());
        out.append(" members, but only ");
        out.append(decimal_text(idle as u128).as_str());
        out.append(" idle workers are available");
        Some(out)
    } else {
        None
    }
}

impl AddMembers {
    /// The addition as it begins: the first idle workers are to join.
    pub open spec fn begun(
        self,
        active: Seq<WorkerSpec>,
        idle: Seq<WorkerSpec>,
        decision: MembershipBatchDecision,
        next: Added,
    ) -> bool {
        let joiner = idle[0];
        &&& self.active@ == active
        &&& self.idle@ == idle.skip(decision.effective as int)
        &&& self.decision == decision
        &&& self.planned == decision.effective
        &&& self.actor == Some(active[self.actor_idx as int])
        &&& self.waiting@ == idle.subrange(1, decision.effective as int)
        &&& self.prepared@.len() == 0
        &&& self.joined@.len() == 0
        &&& self.failed@.len() == 0
        &&& self.stage == (AddStage::Preparing { joiner })
        &&& next is Do
        &&& next->Do_0.sends(
            joiner,
            command::CommandView::GenerateKeyPackage,
            "key package uploaded for "@ + joiner.id@,
            None,
            command::Marks::none(),
        )
    }

    /// An addition that has begun, or could not begin.
    pub open spec fn started(
        self,
        active: Seq<WorkerSpec>,
        idle: Seq<WorkerSpec>,
        decision: MembershipBatchDecision,
        spread: Spread,
        forced: Option<Seq<char>>,
        plateau_index: usize,
        target_size: usize,
        state: int,
        next: Added,
        state_after: int,
    ) -> bool {
        &&& self.wf()
        &&& self.spread == spread
        &&& self.plateau_index == plateau_index
        &&& self.target_size == target_size
        &&& match add_refused(active.len(), idle.len(), decision.effective as nat) {
            Some(why) => {
                &&& self.active@ == active
                &&& self.idle@ == idle
                &&& self.stage is Over
                &&& evict::failed(next, failure::plain(why))
                &&& state_after == state
            },
            None => {
                &&& actor_place(active, forced, state, self.actor_idx, state_after)
                &&& self.begun(active, idle, decision, next)
            },
        }
    }

    /// Begins an addition. The actor is the member with the id that is asked for, where there is
    /// one, else one that is drawn.
    pub fn start(
        active: Vec<WorkerSpec>,
        idle: VecDeque<WorkerSpec>,
        decision: MembershipBatchDecision,
        spread: Spread,
        forced_actor_id: Option<&str>,
        rng: &mut StdRng,
        plateau_index: usize,
        target_size: usize,
    ) -> (made: (AddMembers, Added))
        ensures
            made.0.wf(),
            made.0.started(
                active@,
                idle@,
                decision,
                spread,
                text::named(forced_actor_id),
                plateau_index,
                target_size,
                draw::generator_state(*old(rng)),
                made.1,
                draw::generator_state(*final(rng)),
            ),
    {
        let batch: usize = decision.effective;
        let refused: Option<String> = refuse_add(active.len(), idle.len(), batch);
        let mut idle: VecDeque<WorkerSpec> = idle;
        let ghost all = idle@;
        let mut add: AddMembers = AddMembers {
            active: active,
            idle: VecDeque::new(),
            decision: decision,
            spread: spread,
            plateau_index: plateau_index,
            target_size: target_size,
            planned: batch,
            actor: None,
            actor_idx: 0,
            waiting: Vec::new(),
            prepared: Vec::new(),
            joiner_ids: Vec::new(),
            expected: None,
            joined: Vec::new(),
            failed: Vec::new(),
            stage: AddStage::Over,
        };
        if let Some(why) = refused {
            add.idle = idle;
            return (add, Next::Done(Err(Failure::plain(why))));
        }
        let actor_idx: usize = place_actor(add.active.as_slice(), forced_actor_id, rng);
        add.actor = Some(add.active[actor_idx].clone());
        add.actor_idx = actor_idx;
        let mut joiners: Vec<WorkerSpec> = Vec::new();
        let mut taken: usize = 0;
        while taken < batch
            invariant
                taken <= batch <= all.len(),
                idle@ == all.skip(taken as int),
                joiners@ == all.take(taken as int),
            decreases batch - taken,
        {
            if let Some(joiner) = idle.pop_front() {
                joiners.push(joiner);
            }
            taken = taken + 1;
            assert(idle@ =~= all.skip(taken as int));
            assert(joiners@ =~= all.take(taken as int));
        }
        add.idle = idle;
        add.waiting = joiners;
        assert(all.take(batch as int).skip(1) =~= all.subrange(1, batch as int));
        let next: Added = add.prepare();
        (add, next)
    }

    fn cursor(&self, operation: &'static str) -> (cursor: BenchmarkCursor)
        ensures
            cursor@ == self.marks(operation@),
    {
        BenchmarkCursor::new(
            self.plateau_index,
            self.target_size,
            self.active.len(),
            "membership_add",
            operation,
        )
    }

    fn commit_cursor(&self) -> (cursor: BenchmarkCursor)
        ensures
            cursor@ == self.commit_marks(),
    {
        self.cursor("add_commit").with_membership_batch(&self.decision)
    }

    fn actor(&self) -> (actor: WorkerSpec)
        requires
            self.actor is Some,
        ensures
            actor == self.actor->0,
    {
        match &self.actor {
            Some(actor) => actor.clone(),
            None => WorkerSpec::legacy(String::new(), String::new()),
        }
    }

    fn fail(&mut self, error: Failure) -> (next: Added)
        ensures
            final(self).wf(),
            old(self).fails(error@, *final(self), next),
    {
        self.stage = AddStage::Over;
        Next::Done(Err(error))
    }

    fn prepare(&mut self) -> (next: Added)
        requires
            old(self).actor is Some,
            old(self).actor_idx < old(self).active@.len(),
            old(self).actor->0 == old(self).active@[old(self).actor_idx as int],
        ensures
            final(self).wf(),
            old(self).prepares(old(self).prepared@, *final(self), next),
    {
        if self.waiting.len() > 0 {
            let joiner: WorkerSpec = self.waiting.remove(0);
            assert(self.waiting@ =~= old(self).waiting@.skip(1));
            let mut fragment: String = "key package uploaded for ".to_owned();
            fragment.append(joiner.id.as_str());
            let order: Order = Order::Send {
                worker: joiner.clone(),
                command: Command::GenerateKeyPackage,
                ok_fragment: fragment,
                phase: None,
                cursor: None,
            };
            self.stage = AddStage::Preparing { joiner: joiner };
            Next::Do(order)
        } else if self.prepared.len() == 0 {
            self.stage = AddStage::Over;
            Next::Done(Ok(()))
        } else {
            self.decision.effective = self.prepared.len();
            self.joiner_ids = ids_of(self.prepared.as_slice());
            self.stage = AddStage::Looking;
            Next::Do(Order::ShowState { worker: self.actor() })
        }
    }

    fn look(&mut self, before: &GroupStateSnapshot) -> (next: Added)
        requires
            old(self).actor is Some,
            old(self).actor_idx < old(self).active@.len(),
            old(self).actor->0 == old(self).active@[old(self).actor_idx as int],
            before.epoch < u64::MAX,
        ensures
            final(self).wf(),
            old(self).commits(before@, *final(self), next),
    {
        let mut members: Vec<String> = copy_texts(&before.members);
        let mut more: Vec<String> = copy_texts(&self.joiner_ids);
        members.append(&mut more);
        assert(text::texts(members@) =~= text::texts(before.members@) + text::texts(
            self.joiner_ids@,
        ));
        self.expected = Some(expected_group_state(before, before.epoch + 1, &members));
        let order: Order = Order::Send {
            worker: self.actor(),
            command: Command::AddMembers { members: copy_texts(&self.joiner_ids) },
            ok_fragment: "added locally in one commit".to_owned(),
            phase: Some("add_member.create".to_owned()),
            cursor: Some(self.commit_cursor()),
        };
        self.stage = AddStage::Committing;
        Next::Do(order)
    }

    fn lose_actor(&mut self, error: Failure, action: &'static str) -> (next: Added)
        requires
            old(self).actor is Some,
            old(self).actor_idx < old(self).active@.len(),
            old(self).actor->0 == old(self).active@[old(self).actor_idx as int],
        ensures
            final(self).wf(),
            old(self).loses_actor(error@, action@, *final(self), next),
    {
        let actor: WorkerSpec = self.actor();
        let other: Option<WorkerSpec> = first_other(self.active.as_slice(), actor.id.as_str());
        let order: Order = Order::Record {
            cursor: self.commit_cursor(),
            worker: actor,
            error: error.clone(),
            action: action,
            reassigned_to: other,
        };
        self.stage = AddStage::LosingActor { error: error };
        Next::Do(order)
    }

    fn undo(&mut self) -> (next: Added)
        requires
            old(self).actor is Some,
            old(self).actor_idx < old(self).active@.len(),
            old(self).actor->0 == old(self).active@[old(self).actor_idx as int],
        ensures
            final(self).wf(),
            old(self).undoes(*final(self), next),
    {
        let mut dead: Vec<WorkerSpec> = vec![self.actor()];
        let mut copies: Vec<WorkerSpec> = copy_workers(self.prepared.as_slice());
        dead.append(&mut copies);
        assert(dead@ =~= seq![self.actor->0] + self.prepared@);
        let ghost ready = self.prepared@;
        let ghost idle = self.idle@;
        let ghost start = *self;
        assert(self.idle@ =~= ready.skip(ready.len() as int) + idle);
        while self.prepared.len() > 0
            invariant
                self.prepared@.len() <= ready.len(),
                self.prepared@ == ready.take(self.prepared@.len() as int),
                self.idle@ == ready.skip(self.prepared@.len() as int) + idle,
                start == *old(self),
                *self == (AddMembers { prepared: self.prepared, idle: self.idle, ..start }),
            decreases self.prepared@.len(),
        {
            if let Some(joiner) = self.prepared.pop() {
                self.idle.push_front(joiner);
            }
            assert(self.prepared@ =~= ready.take(self.prepared@.len() as int));
            assert(self.idle@ =~= ready.skip(self.prepared@.len() as int) + idle);
        }
        assert(self.idle@ =~= ready + idle);
        let (evict, next): (Evict, Added) = Evict::start(
            self.active.as_slice(),
            dead.as_slice(),
            self.spread,
            self.target_size,
        );
        self.stage = match &next {
            Next::Do(_) => AddStage::Undoing(evict),
            Next::Done(_) => AddStage::Over,
        };
        next
    }

    fn join(&mut self) -> (next: Added)
        requires
            old(self).actor is Some,
            old(self).actor_idx < old(self).active@.len(),
            old(self).actor->0 == old(self).active@[old(self).actor_idx as int],
            old(self).expected is Some,
            old(self).prepared@.len() == 0,
        ensures
            final(self).wf(),
            old(self).joins(
                old(self).waiting@,
                old(self).joined@,
                old(self).failed@,
                *final(self),
                next,
            ),
    {
        if self.waiting.len() > 0 {
            let joiner: WorkerSpec = self.waiting.remove(0);
            assert(self.waiting@ =~= old(self).waiting@.skip(1));
            let mut fragment: String = joiner.id.clone();
            fragment.append(" joined from welcome");
            let order: Order = Order::SendUntilOk {
                worker: joiner.clone(),
                command: Command::JoinFromWelcome,
                ok_fragment: fragment,
                too_early: "404 Not Found",
            };
            self.stage = AddStage::Joining { joiner: joiner };
            return Next::Do(order);
        }
        let mut recipients: Vec<WorkerSpec> = copy_workers(self.active.as_slice());
        recipients.remove(self.actor_idx);
        let expected: ExpectedGroupState = match &self.expected {
            Some(expected) => expected.clone(),
            None => {
                return Next::Done(Ok(()));
            },
        };
        let order: Order = Order::SpreadCommit {
            phase: "add_member",
            group_size: self.target_size,
            operation: "receive_commit",
            task: CommitFanout {
                recipients: recipients,
                removed: IdSet::new(),
                expected: expected,
                spread: self.spread,
                create_op: "add",
                plateau_size: self.target_size,
                seq_no: 0,
                phase: if self.spread.pending {
                    "add_member.fanout_process_pending"
                } else {
                    "add_member.fanout_receive_commit"
                },
                cursor: self.commit_cursor(),
            },
        };
        self.stage = AddStage::Spreading;
        Next::Do(order)
    }

    fn report(&mut self) -> (next: Added)
        requires
            old(self).actor is Some,
            old(self).waiting@.len() == 0,
            old(self).prepared@.len() == 0,
        ensures
            final(self).wf(),
            old(self).reports(old(self).active@, *final(self), next),
    {
        let mut label: String = "add ".to_owned();
        label.append(decimal_text(self.planned as u128).as_str());
        label.append(" member(s) ");
        label.append(debug_texts(&self.joiner_ids).as_str());
        label.append(" actor=");
        label.append(self.actor().id.as_str());
        let order: Order = Order::Tick { units: self.joined.len(), label: label };
        self.joined = Vec::new();
        self.failed = Vec::new();
        self.stage = AddStage::Reporting;
        Next::Do(order)
    }

    fn conclude(&mut self, more: Vec<WorkerSpec>) -> (next: Added)
        requires
            old(self).actor is Some,
            old(self).waiting@.len() == 0,
            old(self).prepared@.len() == 0,
        ensures
            final(self).wf(),
            old(self).concludes(more@, *final(self), next),
    {
        let mut more: Vec<WorkerSpec> = more;
        let ghost start = *self;
        let mut copies: Vec<WorkerSpec> = copy_workers(self.joined.as_slice());
        self.active.append(&mut copies);
        self.failed.append(&mut more);
        let (evict, next): (Evict, Added) = Evict::start(
            self.active.as_slice(),
            self.failed.as_slice(),
            self.spread,
            self.target_size,
        );
        if self.failed.len() == 0 {
            return self.report();
        }
        self.failed = Vec::new();
        self.stage = match &next {
            Next::Do(_) => AddStage::Evicting(evict),
            Next::Done(_) => AddStage::Over,
        };
        next
    }

    /// What is done after a report.
    #[verifier::rlimit(40)]
    pub fn step(&mut self, report: Report) -> (next: Added)
        requires
            old(self).wf(),
            old(self).waits_for(report),
        ensures
            final(self).wf(),
            old(self).next(report, *final(self), next),
    {
        let ghost given = report;
        let mut stage: AddStage = AddStage::Over;
        std::mem::swap(&mut stage, &mut self.stage);
        match (stage, report) {
            (AddStage::Preparing { joiner }, Report::Sent(Ok(_))) => {
                self.prepared.push(joiner);
                self.prepare()
            },
            (AddStage::Preparing { joiner }, Report::Sent(Err(error))) => {
                let order: Order = Order::Record {
                    cursor: self.cursor("generate_key_package"),
                    worker: joiner,
                    error: error.clone(),
                    action: "drop_idle_joiner",
                    reassigned_to: Some(self.actor()),
                };
                self.stage = AddStage::LosingJoiner { error: error };
                Next::Do(order)
            },
            (AddStage::LosingJoiner { error }, Report::Recorded(Ok(goes_on))) => {
                if goes_on {
                    self.prepare()
                } else {
                    self.fail(error)
                }
            },
            (AddStage::LosingJoiner { error: _ }, Report::Recorded(Err(worse))) => self.fail(worse),
            (AddStage::Looking, Report::State(Err(error))) => self.fail(error),
            (AddStage::Looking, Report::State(Ok(before))) => self.look(&before),
            (AddStage::Committing, Report::Sent(Ok(_))) => {
                let expected: ExpectedGroupState = match &self.expected {
                    Some(expected) => expected.clone(),
                    None => {
                        return Next::Done(Ok(()));
                    },
                };
                let order: Order = Order::Handle {
                    worker: self.actor(),
                    expected: expected,
                    pending: self.spread.pending,
                    phase: if self.spread.pending {
                        "add_member.actor_process_pending"
                    } else {
                        "add_member.actor_receive_commit"
                    },
                    cursor: self.commit_cursor(),
                };
                self.stage = AddStage::Handling;
                Next::Do(order)
            },
            (AddStage::Committing, Report::Sent(Err(error))) => self.lose_actor(
                error,
                "evict_add_actor_and_retry",
            ),
            (AddStage::Handling, Report::Handled(Ok(_))) => {
                let mut ready: Vec<WorkerSpec> = Vec::new();
                std::mem::swap(&mut ready, &mut self.prepared);
                self.waiting = ready;
                self.join()
            },
            (AddStage::Handling, Report::Handled(Err(error))) => self.lose_actor(
                error,
                "evict_add_actor_receive_and_retry",
            ),
            (AddStage::LosingActor { error }, Report::Recorded(Ok(goes_on))) => {
                if goes_on {
                    self.undo()
                } else {
                    self.fail(error)
                }
            },
            (AddStage::LosingActor { error: _ }, Report::Recorded(Err(worse))) => self.fail(worse),
            (AddStage::Undoing(evict), report) => {
                let mut evict: Evict = evict;
                let ghost before = evict;
                let step: Added = evict.step(report);
                assert(before.next(given, evict, step));
                match step {
                    Next::Do(order) => {
                        self.stage = AddStage::Undoing(evict);
                        Next::Do(order)
                    },
                    Next::Done(Ok(_)) => {
                        self.active = evict.active;
                        Next::Done(Ok(()))
                    },
                    Next::Done(Err(error)) => self.fail(error),
                }
            },
            (AddStage::Joining { joiner }, Report::Sent(Ok(_))) => {
                self.joined.push(joiner);
                self.join()
            },
            (AddStage::Joining { joiner }, Report::Sent(Err(error))) => {
                let order: Order = Order::Record {
                    cursor: self.cursor("join_from_welcome"),
                    worker: joiner.clone(),
                    error: error.clone(),
                    action: "evict_joiner_after_add_commit",
                    reassigned_to: Some(self.actor()),
                };
                self.stage = AddStage::LosingJoined { joiner: joiner, error: error };
                Next::Do(order)
            },
            (AddStage::LosingJoined { joiner, error }, Report::Recorded(Ok(goes_on))) => {
                if goes_on {
                    self.failed.push(joiner);
                    self.join()
                } else {
                    self.fail(error)
                }
            },
            (
                AddStage::LosingJoined { joiner: _, error: _ },
                Report::Recorded(Err(worse)),
            ) => self.fail(worse),
            (AddStage::Spreading, Report::Spread(Ok(_))) => self.conclude(Vec::new()),
            (AddStage::Spreading, Report::Spread(Err(error))) => {
                let order: Order = Order::RecordAll {
                    cursor: self.commit_cursor(),
                    error: error.clone(),
                    action: "evict_add_recipient_and_retry",
                    reassigned_to: Some(self.actor()),
                };
                self.stage = AddStage::LosingOthers { error: error };
                Next::Do(order)
            },
            (
                AddStage::LosingOthers { error: _ },
                Report::AllRecorded(Ok(Some(more))),
            ) => self.conclude(more),
            (AddStage::LosingOthers { error }, Report::AllRecorded(Ok(None))) => self.fail(error),
            (AddStage::LosingOthers { error: _ }, Report::AllRecorded(Err(worse))) => self.fail(
                worse,
            ),
            (AddStage::Evicting(evict), report) => {
                let mut evict: Evict = evict;
                let ghost before = evict;
                let step: Added = evict.step(report);
                assert(before.next(given, evict, step));
                match step {
                    Next::Do(order) => {
                        self.stage = AddStage::Evicting(evict);
                        Next::Do(order)
                    },
                    Next::Done(Ok(_)) => {
                        self.active = evict.active;
                        self.report()
                    },
                    Next::Done(Err(error)) => self.fail(error),
                }
            },
            (AddStage::Reporting, Report::Ticked) => {
                Next::Done(Ok(()))
            },
            (stage, _) => {
                self.stage = stage;
                Next::Done(Ok(()))
            },
        }
    }
}

impl AddMembers {
    /// How often a worker is held: as a member, as an idle worker or as a joiner.
    pub open spec fn held(self, w: WorkerSpec) -> nat {
        let settled = workers::times(self.active@, w) + workers::times(self.idle@, w);
        let coming = workers::times(self.waiting@, w) + workers::times(self.prepared@, w);
        let arrived = workers::times(self.joined@, w) + workers::times(self.failed@, w);
        match self.stage {
            AddStage::Preparing { joiner } => settled + coming + arrived + workers::times(
                workers::just(joiner),
                w,
            ),
            AddStage::Joining { joiner } => settled + coming + arrived + workers::times(
                workers::just(joiner),
                w,
            ),
            AddStage::LosingJoined { joiner, error: _ } => settled + coming + arrived
                + workers::times(workers::just(joiner), w),
            AddStage::Evicting(_) => settled + coming,
            AddStage::Over => settled,
            _ => settled + coming + arrived,
        }
    }
}

proof fn lemma_joins_hold(
    add: AddMembers,
    waiting: Seq<WorkerSpec>,
    joined: Seq<WorkerSpec>,
    failed: Seq<WorkerSpec>,
    after: AddMembers,
    next: Added,
    w: WorkerSpec,
)
    requires
        add.joins(waiting, joined, failed, after, next),
    ensures
        after.held(w) == workers::times(add.active@, w) + workers::times(add.idle@, w)
            + workers::times(waiting, w) + workers::times(joined, w) + workers::times(failed, w),
{
    workers::lemma_times_none(after.prepared@, w);
    workers::lemma_times_none(after.waiting@, w);
    workers::lemma_times_cut(waiting, 0, w);
    workers::lemma_times_none(waiting, w);
}

/// An addition makes no worker up and puts none in two places: no worker is held more often after a
/// step than before it.
#[verifier::rlimit(40)]
pub proof fn law_addition_keeps_workers(
    add: AddMembers,
    report: Report,
    after: AddMembers,
    next: Added,
    w: WorkerSpec,
)
    requires
        add.wf(),
        add.waits_for(report),
        add.next(report, after, next),
    ensures
        after.held(w) <= add.held(w),
{
    workers::lemma_times_none(after.waiting@, w);
    workers::lemma_times_none(after.prepared@, w);
    workers::lemma_times_none(after.joined@, w);
    workers::lemma_times_none(after.failed@, w);
    workers::lemma_times_none(add.waiting@, w);
    workers::lemma_times_none(add.prepared@, w);
    match (add.stage, report) {
        (AddStage::Preparing { joiner }, Report::Sent(Ok(_))) => {
            workers::lemma_times_pushed(add.prepared@, joiner, w);
            workers::lemma_times_cut(add.waiting@, 0, w);
        },
        (AddStage::LosingJoiner { error: _ }, Report::Recorded(Ok(_))) => {
            workers::lemma_times_cut(add.waiting@, 0, w);
        },
        (AddStage::LosingActor { error: _ }, Report::Recorded(Ok(_))) => {
            workers::lemma_times_joined(add.prepared@, add.idle@, w);
        },
        (AddStage::Handling, Report::Handled(Ok(_))) => {
            lemma_joins_hold(add, add.prepared@, add.joined@, add.failed@, after, next, w);
        },
        (AddStage::Joining { joiner }, Report::Sent(Ok(_))) => {
            workers::lemma_times_pushed(add.joined@, joiner, w);
            lemma_joins_hold(
                add,
                add.waiting@,
                add.joined@.push(joiner),
                add.failed@,
                after,
                next,
                w,
            );
        },
        (AddStage::LosingJoined { joiner, error: _ }, Report::Recorded(Ok(true))) => {
            workers::lemma_times_pushed(add.failed@, joiner, w);
            lemma_joins_hold(
                add,
                add.waiting@,
                add.joined@,
                add.failed@.push(joiner),
                after,
                next,
                w,
            );
        },
        (AddStage::Spreading, Report::Spread(Ok(_))) => {
            workers::lemma_times_joined(add.active@, add.joined@, w);
        },
        (AddStage::LosingOthers { error: _ }, Report::AllRecorded(Ok(Some(_)))) => {
            workers::lemma_times_joined(add.active@, add.joined@, w);
        },
        (AddStage::Undoing(evict), _) => {
            let (then, step) = choose|then: Evict, step: Added| #[trigger]
                evict.next(report, then, step) && match step {
                    Next::Do(_) => {
                        &&& add.stays(after)
                        &&& add.same_joiners(after)
                        &&& after.stage == AddStage::Undoing(then)
                        &&& next == step
                    },
                    Next::Done(Ok(_)) => {
                        &&& after.same_task(add)
                        &&& after.active@ == then.active@
                        &&& after.idle@ == add.idle@
                        &&& add.same_joiners(after)
                        &&& after.stage is Over
                        &&& evict::succeeded(next)
                    },
                    Next::Done(Err(error)) => add.fails(error@, after, next),
                };
            evict::law_eviction(evict, report, then, step);
            workers::lemma_times_chosen(add.active@, task::outside(then.dead@), w);
        },
        (AddStage::Evicting(evict), _) => {
            let (then, step) = choose|then: Evict, step: Added| #[trigger]
                evict.next(report, then, step) && match step {
                    Next::Do(_) => {
                        &&& add.stays(after)
                        &&& add.same_joiners(after)
                        &&& after.stage == AddStage::Evicting(then)
                        &&& next == step
                    },
                    Next::Done(Ok(_)) => add.reports(then.active@, after, next),
                    Next::Done(Err(error)) => add.fails(error@, after, next),
                };
            evict::law_eviction(evict, report, then, step);
            workers::lemma_times_chosen(add.active@, task::outside(then.dead@), w);
        },
        _ => {},
    }
}

/// An addition that has begun, or could not begin, holds the members and the idle workers.
pub proof fn lemma_started_holds(
    begun: AddMembers,
    active: Seq<WorkerSpec>,
    idle: Seq<WorkerSpec>,
    decision: MembershipBatchDecision,
    spread: Spread,
    forced: Option<Seq<char>>,
    plateau_index: usize,
    target_size: usize,
    state: int,
    next: Added,
    state_after: int,
    w: WorkerSpec,
)
    requires
        begun.started(
            active,
            idle,
            decision,
            spread,
            forced,
            plateau_index,
            target_size,
            state,
            next,
            state_after,
        ),
    ensures
        begun.held(w) == workers::times(active, w) + workers::times(idle, w),
{
    if add_refused(active.len(), idle.len(), decision.effective as nat) is None {
        let n = decision.effective as int;
        workers::lemma_times_cut(idle, n, w);
        workers::lemma_times_cut(idle.take(n), 0, w);
        assert(idle.take(n).skip(1) =~= idle.subrange(1, n));
        workers::lemma_times_none(begun.prepared@, w);
        workers::lemma_times_none(begun.joined@, w);
        workers::lemma_times_none(begun.failed@, w);
    }
}

/// An addition that is done is over.
pub proof fn lemma_over(
    add: AddMembers,
    report: Report,
    after: AddMembers,
    next: Added,
    w: WorkerSpec,
)
    requires
        add.wf(),
        add.waits_for(report),
        add.next(report, after, next),
    ensures
        next is Done ==> after.stage is Over,
        next is Done ==> after.held(w) == workers::times(after.active@, w) + workers::times(
            after.idle@,
            w,
        ),
{
}

// ---------------------------------------------------------------------------
// The course of an addition
// ---------------------------------------------------------------------------

/// The course that an addition takes: where it stands after each report, and what it orders then.
pub struct AddCourse {
    pub adds: Seq<AddMembers>,
    pub nexts: Seq<Added>,
    pub reports: Seq<Report>,
}

/// What an addition begins with.
pub struct AddTask {
    pub active: Seq<WorkerSpec>,
    pub idle: Seq<WorkerSpec>,
    pub decision: MembershipBatchDecision,
    pub spread: Spread,
    pub forced: Option<Seq<char>>,
    pub plateau_index: usize,
    pub target_size: usize,
    pub state: int,
    pub state_after: int,
}

impl AddCourse {
    /// The addition begins with a task, and each report leads to the next step.
    pub open spec fn follows(self, task: AddTask) -> bool {
        &&& self.adds.len() == self.reports.len() + 1
        &&& self.nexts.len() == self.reports.len() + 1
        &&& task.idle.len() <= usize::MAX
        &&& self.adds[0].started(
            task.active,
            task.idle,
            task.decision,
            task.spread,
            task.forced,
            task.plateau_index,
            task.target_size,
            task.state,
            self.nexts[0],
            task.state_after,
        )
        &&& forall|i: int|
            0 <= i < self.reports.len() ==> self.adds[i].wf() && self.adds[i].waits_for(
                #[trigger] self.reports[i],
            ) && self.adds[i].next(self.reports[i], self.adds[i + 1], self.nexts[i + 1])
    }

    /// A worker was sent a command at some time before, and answered it with success.
    pub open spec fn obeyed(
        self,
        upto: int,
        worker: WorkerSpec,
        command: command::CommandView,
    ) -> bool {
        exists|j: int|
            0 <= j < upto && (#[trigger] self.reports[j] matches Report::Sent(Ok(_)))
                && self.nexts[j] is Do && self.nexts[j]->Do_0.commands(worker, command)
    }

    /// What holds of the joiners before the commit.
    spec fn prepared_well(self, k: int) -> bool {
        let add = self.adds[k];
        &&& add.stage is Preparing || add.stage is LosingJoiner || add.stage is Looking
            ==> forall|i: int|
            0 <= i < add.prepared@.len() ==> self.obeyed(
                k,
                #[trigger] add.prepared@[i],
                command::CommandView::GenerateKeyPackage,
            )
        &&& add.stage matches AddStage::Preparing { joiner } ==> self.nexts[k] is Do
            && self.nexts[k]->Do_0.commands(joiner, command::CommandView::GenerateKeyPackage)
        &&& add.stage is Looking ==> text::texts(add.joiner_ids@) == workers::ids(add.prepared@)
    }
}

proof fn lemma_obeyed_later(
    course: AddCourse,
    upto: int,
    worker: WorkerSpec,
    command: command::CommandView,
)
    requires
        course.obeyed(upto, worker, command),
    ensures
        course.obeyed(upto + 1, worker, command),
{
    let j = choose|j: int|
        0 <= j < upto && (#[trigger] course.reports[j] matches Report::Sent(Ok(_)))
            && course.nexts[j] is Do && course.nexts[j]->Do_0.commands(worker, command);
    assert(course.reports[j] is Sent);
}

#[verifier::rlimit(40)]
proof fn lemma_prepared_well(course: AddCourse, task: AddTask, k: int)
    requires
        course.follows(task),
        0 <= k < course.adds.len(),
    ensures
        course.prepared_well(k),
    decreases k,
{
    if k > 0 {
        lemma_prepared_well(course, task, k - 1);
        let add = course.adds[k - 1];
        let after = course.adds[k];
        let report = course.reports[k - 1];
        assert(add.next(report, after, course.nexts[k]));
        if after.stage is Preparing || after.stage is LosingJoiner || after.stage is Looking {
            assert forall|i: int| 0 <= i < after.prepared@.len() implies course.obeyed(
                k,
                #[trigger] after.prepared@[i],
                command::CommandView::GenerateKeyPackage,
            ) by {
                let w = after.prepared@[i];
                if i < add.prepared@.len() {
                    assert(w == add.prepared@[i]);
                    lemma_obeyed_later(
                        course,
                        k - 1,
                        w,
                        command::CommandView::GenerateKeyPackage,
                    );
                } else {
                    assert(course.reports[k - 1] is Sent);
                }
            }
        }
    }
}

/// Whoever the actor is told to add made a key package for it: each id in the command belongs to a
/// worker that was told before, in this addition, to make one, and answered with success.
pub proof fn law_the_added_made_key_packages(
    course: AddCourse,
    task: AddTask,
    k: int,
    worker: WorkerSpec,
    members: Seq<Seq<char>>,
    id: Seq<char>,
)
    requires
        course.follows(task),
        0 < k < course.nexts.len(),
        !(course.adds[k - 1].stage is Undoing || course.adds[k - 1].stage is Evicting),
        course.nexts[k] matches Next::Do(Order::Send { worker: w, command: c, .. }) && w == worker
            && c@ == (command::CommandView::AddMembers { members }),
        members.contains(id),
    ensures
        exists|joiner: WorkerSpec|
            joiner.id@ == id && #[trigger] course.obeyed(
                k,
                joiner,
                command::CommandView::GenerateKeyPackage,
            ),
{
    lemma_prepared_well(course, task, k - 1);
    let add = course.adds[k - 1];
    assert(add.next(course.reports[k - 1], course.adds[k], course.nexts[k]));
    assert(add.waits_for(course.reports[k - 1]));
    assert(add.stage is Looking);
    let at = choose|at: int| 0 <= at < members.len() && members[at] == id;
    let joiner = add.prepared@[at];
    assert(workers::ids(add.prepared@)[at] == joiner.id@);
    lemma_obeyed_later(course, k - 1, joiner, command::CommandView::GenerateKeyPackage);
}

impl AddCourse {
    /// Every report says that all went well.
    pub open spec fn goes_well(self) -> bool {
        forall|i: int| 0 <= i < self.reports.len() ==> (#[trigger] self.reports[i]).is_good()
    }

    /// Where an addition stands after so many reports, all of them good.
    spec fn stands_at(self, task: AddTask, k: int) -> bool {
        let add = self.adds[k];
        let n = task.decision.effective as int;
        let joiners = task.idle.take(n);
        let actor = task.active[add.actor_idx as int];
        &&& add.spread == task.spread
        &&& add.target_size == task.target_size
        &&& add.plateau_index == task.plateau_index
        &&& add.idle@ == task.idle.skip(n)
        &&& k <= 2 * n + 3 ==> {
            &&& add.active@ == task.active
            &&& add.actor == Some(actor)
            &&& add.actor_idx == self.adds[0].actor_idx
            &&& add.failed@.len() == 0
        }
        &&& k < n ==> {
            &&& add.stage == (AddStage::Preparing { joiner: task.idle[k] })
            &&& add.waiting@ == task.idle.subrange(k + 1, n)
            &&& add.prepared@ == task.idle.take(k)
            &&& add.joined@.len() == 0
        }
        &&& n <= k <= n + 2 ==> {
            &&& add.waiting@.len() == 0
            &&& add.prepared@ == joiners
            &&& add.joined@.len() == 0
        }
        &&& n <= k <= 2 * n + 3 ==> text::texts(add.joiner_ids@) == workers::ids(joiners)
        &&& n < k <= 2 * n + 3 ==> {
            &&& add.expected is Some
            &&& self.reports[n] is State
            &&& add.expected->0@.group_id == self.reports[n]->State_0->Ok_0@.group_id
            &&& add.expected->0@.epoch == self.reports[n]->State_0->Ok_0@.epoch + 1
            &&& add.expected->0@.members == order::ascending(
                self.reports[n]->State_0->Ok_0@.members + workers::ids(joiners),
            )
        }
        &&& k == n ==> add.stage is Looking
        &&& k == n + 1 ==> add.stage is Committing
        &&& k == n + 2 ==> add.stage is Handling
        &&& n + 3 <= k < 2 * n + 3 ==> {
            &&& add.stage == (AddStage::Joining { joiner: task.idle[k - n - 3] })
            &&& add.waiting@ == task.idle.subrange(k - n - 2, n)
            &&& add.joined@ == task.idle.take(k - n - 3)
        }
        &&& k == 2 * n + 3 ==> add.stage is Spreading && add.joined@ == joiners
        &&& k == 2 * n + 4 ==> add.stage is Reporting
        &&& k == 2 * n + 5 ==> add.stage is Over
        &&& k >= 2 * n + 4 ==> add.active@ == task.active + joiners
    }

    /// What an addition orders after so many reports, all of them good.
    spec fn orders_at(self, task: AddTask, k: int) -> bool {
        let n = task.decision.effective as int;
        let joiners = task.idle.take(n);
        let at = self.adds[0].actor_idx as int;
        let actor = task.active[at];
        let next = self.nexts[k];
        &&& k < n ==> (next matches Next::Do(Order::Send { worker, command, .. }) && worker
            == task.idle[k] && command@ == command::CommandView::GenerateKeyPackage)
        &&& k == n ==> (next matches Next::Do(Order::ShowState { worker }) && worker == actor)
        &&& k == n + 1 ==> (next matches Next::Do(Order::Send { worker, command, .. }) && worker
            == actor && command@ == (command::CommandView::AddMembers {
            members: workers::ids(joiners),
        }))
        &&& k == n + 2 ==> (next matches Next::Do(Order::Handle { worker, expected, pending, .. })
            && worker == actor && pending == task.spread.pending && expected@
            == self.adds[k].expected->0@)
        &&& n + 3 <= k < 2 * n + 3 ==> (next matches Next::Do(
            Order::SendUntilOk { worker, command, .. },
        ) && worker == task.idle[k - n - 3] && command@ == command::CommandView::JoinFromWelcome)
        &&& k == 2 * n + 3 ==> (next matches Next::Do(Order::SpreadCommit { task: fanout, .. })
            && fanout.recipients@ == task.active.remove(at) && fanout.removed@ == Set::<
            Seq<char>,
        >::empty() && fanout.spread == task.spread && fanout.expected@
            == self.adds[k].expected->0@)
        &&& k == 2 * n + 4 ==> (next matches Next::Do(Order::Tick { units, .. }) && units == n)
        &&& k == 2 * n + 5 ==> (next matches Next::Done(Ok(_)))
    }
}

#[verifier::rlimit(80)]
proof fn lemma_course_at(course: AddCourse, task: AddTask, k: int)
    requires
        course.follows(task),
        course.goes_well(),
        course.nexts[0] is Do,
        0 <= k < course.adds.len(),
        k <= 2 * task.decision.effective + 5,
    ensures
        course.stands_at(task, k),
        course.orders_at(task, k),
    decreases k,
{
    let n = task.decision.effective as int;
    let joiners = task.idle.take(n);
    if k == 0 {
        assert(course.adds[0].prepared@ =~= task.idle.take(0));
    } else {
        lemma_course_at(course, task, k - 1);
        let add = course.adds[k - 1];
        let after = course.adds[k];
        let report = course.reports[k - 1];
        assert(report.is_good());
        assert(add.waits_for(report));
        assert(add.next(report, after, course.nexts[k]));
        if k <= n {
            assert(add.prepared@.push(task.idle[k - 1]) =~= task.idle.take(k));
            if k < n {
                assert(add.waiting@[0] == task.idle[k]);
                assert(add.waiting@.skip(1) =~= task.idle.subrange(k + 1, n));
            } else {
                assert(add.waiting@.len() == 0);
            }
        } else if k == n + 3 {
            assert(add.prepared@[0] == task.idle[0]);
            assert(add.prepared@.skip(1) =~= task.idle.subrange(1, n));
            assert(add.joined@ =~= task.idle.take(0));
        } else if n + 3 < k <= 2 * n + 3 {
            assert(add.joined@.push(task.idle[k - n - 4]) =~= task.idle.take(k - n - 3));
            if k < 2 * n + 3 {
                assert(add.waiting@[0] == task.idle[k - n - 3]);
                assert(add.waiting@.skip(1) =~= task.idle.subrange(k - n - 2, n));
            } else {
                assert(add.waiting@.len() == 0);
            }
        } else if k == 2 * n + 4 {
            assert((add.failed@ + Seq::<WorkerSpec>::empty()).len() == 0);
        }
    }
}

/// Names together with those of the first workers of a list, in order.
proof fn lemma_named(members: Seq<Seq<char>>, idle: Seq<WorkerSpec>, n: int)
    requires
        0 <= n <= idle.len(),
    ensures
        ({
            let all = order::ascending(members + workers::ids(idle.take(n)));
            &&& all.len() == members.len() + n
            &&& forall|id: Seq<char>| #[trigger]
                all.contains(id) <==> members.contains(id) || exists|i: int|
                    0 <= i < n && (#[trigger] idle[i]).id@ == id
        }),
{
    let names = workers::ids(idle.take(n));
    let all = members + names;
    evict::lemma_ascending(all);
    assert forall|id: Seq<char>| #[trigger] order::ascending(all).contains(id)
        <==> members.contains(id) || exists|i: int|
        0 <= i < n && (#[trigger] idle[i]).id@ == id by {
        if all.contains(id) {
            let i = choose|i: int| 0 <= i < all.len() && all[i] == id;
            if i < members.len() {
                assert(members[i] == id);
            } else {
                assert(idle[i - members.len()].id@ == id);
            }
        }
        if members.contains(id) {
            let i = choose|i: int| 0 <= i < members.len() && members[i] == id;
            assert(all[i] == id);
        }
        if exists|i: int| 0 <= i < n && (#[trigger] idle[i]).id@ == id {
            let i = choose|i: int| 0 <= i < n && (#[trigger] idle[i]).id@ == id;
            assert(names[i] == id);
            assert(all[members.len() + i] == id);
        }
    }
}

/// An addition that goes well, from its beginning to its end, in the order in which things happen.
/// As many idle workers as were decided on, the first ones, are told one after the other to make a
/// key package. A member, the actor, is asked for its state and told to add exactly these workers.
/// It handles its own commit, which leads into the next epoch with these workers as members besides
/// all that were there. Each of these workers is told to join. Then each member but the actor, and
/// nobody else, is told to handle the same commit. In the end these workers are members, and no
/// longer idle.
#[verifier::rlimit(100)]
pub proof fn law_addition_that_goes_well(course: AddCourse, task: AddTask)
    requires
        course.follows(task),
        course.goes_well(),
        course.nexts[0] is Do,
        course.reports.len() == 2 * task.decision.effective + 5,
    ensures
        ({
            let n = task.decision.effective as int;
            let actor = course.nexts[n]->Do_0->ShowState_worker;
            let before = course.reports[n]->State_0->Ok_0@;
            let is_joiner = |id: Seq<char>|
                exists|i: int| 0 <= i < n && (#[trigger] task.idle[i]).id@ == id;
            &&& 0 < n <= task.idle.len()
            &&& forall|i: int|
                0 <= i < n ==> (#[trigger] course.nexts[i] matches Next::Do(
                    Order::Send { worker, command, .. },
                ) && worker == task.idle[i] && command@
                    == command::CommandView::GenerateKeyPackage)
            &&& course.nexts[n] matches Next::Do(Order::ShowState { .. })
            &&& task.active.contains(actor)
            &&& course.nexts[n + 1] matches Next::Do(Order::Send { worker, command, .. }) && worker
                == actor && (command@ matches command::CommandView::AddMembers { members }
                && members.len() == n && forall|i: int|
                0 <= i < n ==> #[trigger] members[i] == task.idle[i].id@)
            &&& course.nexts[n + 2] matches Next::Do(
                Order::Handle { worker, expected, pending, .. },
            ) && worker == actor && pending == task.spread.pending && expected@.group_id
                == before.group_id && expected@.epoch == before.epoch + 1
                && expected@.members.len() == before.members.len() + n && (forall|id: Seq<char>|
             #[trigger]
                expected@.members.contains(id) <==> before.members.contains(id) || is_joiner(id))
                && (course.nexts[2 * n + 3] matches Next::Do(
                Order::SpreadCommit { task: fanout, .. },
            ) && fanout.expected@ == expected@ && fanout.spread == task.spread && fanout.removed@
                == Set::<Seq<char>>::empty() && forall|w: WorkerSpec|
                workers::times(#[trigger] fanout.recipients@, w) + (if w == actor {
                    1nat
                } else {
                    0nat
                }) == workers::times(task.active, w))
            &&& forall|i: int|
                0 <= i < n ==> (course.nexts[n + 3 + i] matches Next::Do(
                    Order::SendUntilOk { worker, command, .. },
                ) && worker == #[trigger] task.idle[i] && command@
                    == command::CommandView::JoinFromWelcome)
            &&& course.nexts[2 * n + 4] matches Next::Do(Order::Tick { units, .. }) && units == n
            &&& course.nexts[2 * n + 5] matches Next::Done(Ok(_))
            &&& course.adds.last().active@ == task.active + task.idle.take(n)
            &&& course.adds.last().idle@ == task.idle.skip(n)
        }),
{
    let n = task.decision.effective as int;
    let joiners = task.idle.take(n);
    let at = course.adds[0].actor_idx as int;
    lemma_course_at(course, task, n);
    lemma_course_at(course, task, n + 1);
    lemma_course_at(course, task, n + 2);
    lemma_course_at(course, task, 2 * n + 3);
    lemma_course_at(course, task, 2 * n + 4);
    lemma_course_at(course, task, 2 * n + 5);
    assert forall|i: int| 0 <= i < n implies (#[trigger] course.nexts[i] matches Next::Do(
        Order::Send { worker, command, .. },
    ) && worker == task.idle[i] && command@ == command::CommandView::GenerateKeyPackage) by {
        lemma_course_at(course, task, i);
    }
    assert forall|i: int| 0 <= i < n implies (course.nexts[n + 3 + i] matches Next::Do(
        Order::SendUntilOk { worker, command, .. },
    ) && worker == #[trigger] task.idle[i] && command@
        == command::CommandView::JoinFromWelcome) by {
        lemma_course_at(course, task, n + 3 + i);
    }
    let before = course.reports[n]->State_0->Ok_0@;
    lemma_named(before.members, task.idle, n);
    assert forall|w: WorkerSpec| workers::times(#[trigger] task.active.remove(at), w) + (if w
        == task.active[at] {
        1nat
    } else {
        0nat
    }) == workers::times(task.active, w) by {
        workers::lemma_times_left_out(task.active, at, w);
    }
}

/// Where a worker that is to join fails before the commit, its failure is written down. Where the run
/// goes on the others may still join, without it; where it does not, the addition fails with what the
/// worker failed with. Nobody became a member.
pub proof fn law_joiner_that_fails_early(
    phase: AddMembers,
    joiner: WorkerSpec,
    error: Failure,
    losing: AddMembers,
    record: Added,
    verdict: Result<bool, Failure>,
    after: AddMembers,
    next: Added,
)
    requires
        phase.wf(),
        phase.stage == (AddStage::Preparing { joiner }),
        phase.next(Report::Sent(Err(error)), losing, record),
        losing.next(Report::Recorded(verdict), after, next),
    ensures
        record matches Next::Do(Order::Record { worker, error: e, reassigned_to, .. }) && worker
            == joiner && e@ == error@ && reassigned_to == phase.actor,
        verdict matches Err(worse) ==> (next matches Next::Done(Err(e)) && e@ == worse@),
        verdict == Ok::<bool, Failure>(false) ==> (next matches Next::Done(Err(e)) && e@ == error@),
        verdict == Ok::<bool, Failure>(true) ==> {
            if phase.waiting@.len() > 0 {
                next matches Next::Do(Order::Send { worker, command, .. }) && worker
                    == phase.waiting@[0] && command@ == command::CommandView::GenerateKeyPackage
                    && after.prepared@ == phase.prepared@
            } else if phase.prepared@.len() > 0 {
                next matches Next::Do(Order::ShowState { worker }) && Some(worker) == phase.actor
                    && after.prepared@ == phase.prepared@ && after.decision.effective
                    == phase.prepared@.len() as usize && after.decision.requested
                    == phase.decision.requested
            } else {
                next matches Next::Done(Ok(_))
            }
        },
        after.active@ == phase.active@,
        after.idle@ == phase.idle@,
{
}

/// Where the acting member fails, its failure is written down. Where the run goes on, those that were
/// to join are idle again, in front of the others, and the acting member is taken out, with those that
/// were to join, should its commit have added them: a member that is none of them is asked for its
/// state, if there is one. Where the run does not go on, the addition fails with what the member
/// failed with.
pub proof fn law_addition_whose_actor_fails(
    phase: AddMembers,
    error: Failure,
    report: Report,
    losing: AddMembers,
    record: Added,
    verdict: Result<bool, Failure>,
    after: AddMembers,
    next: Added,
)
    requires
        phase.wf(),
        phase.waits_for(report),
        ({
            ||| phase.stage is Committing && report == Report::Sent(Err(error))
            ||| phase.stage is Handling && report == Report::Handled(Err(error))
        }),
        phase.next(report, losing, record),
        losing.next(Report::Recorded(verdict), after, next),
    ensures
        ({
            let actor = phase.actor->0;
            let lost = |id: Seq<char>| id == actor.id@ || evict::is_one_of(phase.prepared@, id);
            &&& record matches Next::Do(Order::Record { worker, error: e, reassigned_to, .. })
                && worker == actor && e@ == error@ && (match reassigned_to {
                Some(other) => phase.active@.contains(other) && other.id@ != actor.id@,
                None => forall|i: int|
                    0 <= i < phase.active@.len() ==> (#[trigger] phase.active@[i]).id@ == actor.id@,
            })
            &&& verdict matches Err(worse) ==> (next matches Next::Done(Err(e)) && e@ == worse@)
                && after.idle@ == phase.idle@
            &&& verdict == Ok::<bool, Failure>(false) ==> (next matches Next::Done(Err(e)) && e@
                == error@) && after.idle@ == phase.idle@
            &&& verdict == Ok::<bool, Failure>(true) ==> {
                &&& after.idle@.len() == phase.prepared@.len() + phase.idle@.len()
                &&& forall|i: int|
                    0 <= i < phase.prepared@.len() ==> #[trigger] after.idle@[i]
                        == phase.prepared@[i]
                &&& forall|i: int|
                    0 <= i < phase.idle@.len() ==> after.idle@[phase.prepared@.len() + i]
                        == #[trigger] phase.idle@[i]
                &&& if exists|i: int|
                    0 <= i < phase.active@.len() && !lost((#[trigger] phase.active@[i]).id@) {
                    next matches Next::Do(Order::ShowState { worker }) && phase.active@.contains(
                        worker,
                    ) && !lost(worker.id@) && after.stage is Undoing && forall|id: Seq<char>|
                        #[trigger]
                        after.stage->Undoing_0.dead@.contains(id) <==> lost(id)
                } else {
                    next matches Next::Done(Err(_))
                }
            }
            &&& after.active@ == phase.active@
        }),
{
    let actor = phase.actor->0;
    let dead = seq![actor] + phase.prepared@;
    let lost = |id: Seq<char>| id == actor.id@ || evict::is_one_of(phase.prepared@, id);
    task::lemma_other_than(phase.active@, actor.id@);
    evict::lemma_acts(phase.active@, dead);
    assert forall|id: Seq<char>| #[trigger] evict::is_one_of(dead, id) <==> lost(id) by {
        assert(dead[0] == actor);
        if evict::is_one_of(phase.prepared@, id) {
            let k = choose|k: int|
                0 <= k < phase.prepared@.len() && (#[trigger] phase.prepared@[k]).id@ == id;
            assert(dead[k + 1] == phase.prepared@[k]);
        }
        if evict::is_one_of(dead, id) && id != actor.id@ {
            let k = choose|k: int| 0 <= k < dead.len() && (#[trigger] dead[k]).id@ == id;
            assert(phase.prepared@[k - 1].id@ == id);
        }
    }
    if exists|i: int| 0 <= i < phase.active@.len() && !lost((#[trigger] phase.active@[i]).id@) {
        let i = choose|i: int|
            0 <= i < phase.active@.len() && !lost((#[trigger] phase.active@[i]).id@);
        assert(!evict::is_one_of(dead, phase.active@[i].id@));
    }
}

/// Where a worker fails to join after the commit, its failure is written down. Where the run goes on,
/// the next one joins, or else the commit is spread; the worker is then among those that are taken out
/// afterwards. Where it does not go on, the addition fails with what the worker failed with.
pub proof fn law_joiner_that_fails_late(
    phase: AddMembers,
    joiner: WorkerSpec,
    error: Failure,
    losing: AddMembers,
    record: Added,
    verdict: Result<bool, Failure>,
    after: AddMembers,
    next: Added,
)
    requires
        phase.wf(),
        phase.stage == (AddStage::Joining { joiner }),
        phase.next(Report::Sent(Err(error)), losing, record),
        losing.next(Report::Recorded(verdict), after, next),
    ensures
        record matches Next::Do(Order::Record { worker, error: e, reassigned_to, .. }) && worker
            == joiner && e@ == error@ && reassigned_to == phase.actor,
        verdict matches Err(worse) ==> (next matches Next::Done(Err(e)) && e@ == worse@),
        verdict == Ok::<bool, Failure>(false) ==> (next matches Next::Done(Err(e)) && e@ == error@),
        verdict == Ok::<bool, Failure>(true) ==> {
            &&& after.joined@ == phase.joined@
            &&& after.failed@.len() == phase.failed@.len() + 1
            &&& after.failed@.contains(joiner)
            &&& if phase.waiting@.len() > 0 {
                next matches Next::Do(Order::SendUntilOk { worker, command, .. }) && worker
                    == phase.waiting@[0] && command@ == command::CommandView::JoinFromWelcome
            } else {
                next matches Next::Do(Order::SpreadCommit { task, .. }) && forall|w: WorkerSpec|
                    workers::times(#[trigger] task.recipients@, w) + (if Some(w) == phase.actor {
                        1nat
                    } else {
                        0nat
                    }) == workers::times(phase.active@, w)
            }
        },
        after.active@ == phase.active@,
        after.idle@ == phase.idle@,
{
    assert(phase.failed@.push(joiner).last() == joiner);
    let at = phase.actor_idx as int;
    assert forall|w: WorkerSpec| workers::times(#[trigger] phase.active@.remove(at), w) + (if Some(w)
        == phase.actor {
        1nat
    } else {
        0nat
    }) == workers::times(phase.active@, w) by {
        workers::lemma_times_left_out(phase.active@, at, w);
    }
}

/// After the commit was spread, those that joined are members, behind the others. Those that failed to
/// join, and those that failed to handle the commit where the run goes on without them, are taken out
/// then: a member that is none of them is asked for its state. Without any such the addition is
/// reported, with as many units as joined.
pub proof fn law_addition_after_the_commit(
    phase: AddMembers,
    spread: Result<(), Failure>,
    losing: AddMembers,
    record: Added,
    verdict: Result<Option<Vec<WorkerSpec>>, Failure>,
    after: AddMembers,
    next: Added,
)
    requires
        phase.wf(),
        phase.stage is Spreading,
        phase.next(Report::Spread(spread), losing, record),
        spread is Ok ==> after == losing && next == record && verdict is Err,
        spread is Err ==> losing.next(Report::AllRecorded(verdict), after, next),
    ensures
        spread matches Err(error) ==> {
            &&& record matches Next::Do(Order::RecordAll { error: e, reassigned_to, .. }) && e@
                == error@ && reassigned_to == phase.actor
            &&& verdict matches Err(worse) ==> (next matches Next::Done(Err(e)) && e@ == worse@)
            &&& verdict matches Ok(None) ==> (next matches Next::Done(Err(e)) && e@ == error@)
        },
        spread is Ok || (verdict matches Ok(Some(_))) ==> {
            let members = phase.active@ + phase.joined@;
            let more = if spread is Ok {
                Seq::empty()
            } else {
                verdict->Ok_0->Some_0@
            };
            let lost = |id: Seq<char>|
                evict::is_one_of(phase.failed@, id) || evict::is_one_of(more, id);
            &&& after.active@ == members
            &&& after.idle@ == phase.idle@
            &&& phase.failed@.len() == 0 && more.len() == 0 ==> (
            next matches Next::Do(Order::Tick { units, .. }) && units == phase.joined@.len() as usize)
            &&& phase.failed@.len() + more.len() > 0 ==> if exists|i: int|
                0 <= i < members.len() && !lost((#[trigger] members[i]).id@) {
                next matches Next::Do(Order::ShowState { worker }) && members.contains(worker)
                    && !lost(worker.id@) && after.stage is Evicting && forall|id: Seq<char>|
                    #[trigger]
                    after.stage->Evicting_0.dead@.contains(id) <==> lost(id)
            } else {
                next matches Next::Done(Err(_))
            }
        },
{
    if spread is Ok || (verdict matches Ok(Some(_))) {
        let members = phase.active@ + phase.joined@;
        let more = if spread is Ok {
            Seq::empty()
        } else {
            verdict->Ok_0->Some_0@
        };
        let dead = phase.failed@ + more;
        let lost = |id: Seq<char>|
            evict::is_one_of(phase.failed@, id) || evict::is_one_of(more, id);
        evict::lemma_acts(members, dead);
        assert forall|id: Seq<char>| #[trigger] evict::is_one_of(dead, id) <==> lost(id) by {
            if evict::is_one_of(phase.failed@, id) {
                let k = choose|k: int|
                    0 <= k < phase.failed@.len() && (#[trigger] phase.failed@[k]).id@ == id;
                assert(dead[k] == phase.failed@[k]);
            }
            if evict::is_one_of(more, id) {
                let k = choose|k: int| 0 <= k < more.len() && (#[trigger] more[k]).id@ == id;
                assert(dead[phase.failed@.len() + k] == more[k]);
            }
            if evict::is_one_of(dead, id) {
                let k = choose|k: int| 0 <= k < dead.len() && (#[trigger] dead[k]).id@ == id;
                if k < phase.failed@.len() {
                    assert(phase.failed@[k].id@ == id);
                } else {
                    assert(more[k - phase.failed@.len()].id@ == id);
                }
            }
        }
        if exists|i: int| 0 <= i < members.len() && !lost((#[trigger] members[i]).id@) {
            let i = choose|i: int| 0 <= i < members.len() && !lost((#[trigger] members[i]).id@);
            assert(!evict::is_one_of(dead, members[i].id@));
        }
    }
}

/// Whatever the addition orders itself names the place in the run where it stands; from the commit on it
/// names the batch that was decided on.
pub proof fn law_addition_marks(phase: AddMembers, report: Report, after: AddMembers, next: Added)
    requires
        phase.wf(),
        phase.waits_for(report),
        phase.next(report, after, next),
        !(after.stage is Evicting || after.stage is Undoing),
        next is Do,
    ensures
        next->Do_0.place() matches Some(place) ==> {
            &&& place.plateau_index == Some(phase.plateau_index)
            &&& place.target_size == Some(phase.target_size)
            &&& place.active_size == Some(phase.active@.len() as usize)
            &&& place.phase == Some("membership_add"@)
            &&& place.operation_seq is None
            &&& place.payload_size is None
            &&& if phase.stage is Preparing {
                place.operation == Some("generate_key_package"@) && place.batch_requested is None
            } else if after.stage is LosingJoined {
                place.operation == Some("join_from_welcome"@) && place.batch_requested is None
            } else {
                &&& place.operation == Some("add_commit"@)
                &&& place.batch_requested == Some(phase.decision.requested)
                &&& place.batch_effective == Some(phase.decision.effective)
                &&& place.batch_group_cap == Some(phase.decision.group_cap)
                &&& place.batch_transition_cap == Some(phase.decision.transition_cap)
                &&& place.batch_source == Some(phase.decision.source@)
            }
        },
{
}

/// The member that is asked for acts, where it is one: the first with that id. An addition begins
/// exactly where there is a member to act, somebody shall be added, and there are enough idle workers;
/// otherwise it fails and changes nothing. Those that are to join are the idle workers from the front,
/// as many as were decided on; the others stay idle.
pub proof fn law_adder(
    active: Seq<WorkerSpec>,
    idle: Seq<WorkerSpec>,
    decision: MembershipBatchDecision,
    spread: Spread,
    forced: Option<Seq<char>>,
    plateau_index: usize,
    target_size: usize,
    state: int,
    begun: AddMembers,
    first: Added,
    state_after: int,
)
    requires
        begun.started(
            active,
            idle,
            decision,
            spread,
            forced,
            plateau_index,
            target_size,
            state,
            first,
            state_after,
        ),
    ensures
        first is Do <==> active.len() > 0 && 0 < decision.effective <= idle.len(),
        first is Done ==> (first matches Next::Done(Err(_))) && begun.active@ == active
            && begun.idle@ == idle,
        first is Do ==> {
            &&& forced matches Some(id) ==> (exists|i: int|
                0 <= i < active.len() && (#[trigger] active[i]).id@ == id) ==> begun.actor is Some
                && begun.actor->0.id@ == id && active.contains(begun.actor->0)
            &&& begun.idle@.len() == idle.len() - decision.effective
            &&& forall|i: int|
                0 <= i < begun.idle@.len() ==> #[trigger] begun.idle@[i] == idle[i
                    + decision.effective]
            &&& begun.waiting@.len() == decision.effective - 1
            &&& forall|i: int|
                0 <= i < begun.waiting@.len() ==> #[trigger] begun.waiting@[i] == idle[i + 1]
            &&& first->Do_0 matches Order::Send { worker, .. } && worker == idle[0]
        },
{
    if first is Do && forced is Some && workers::has_id(active, forced->0) {
        let at = begun.actor_idx as int;
        assert(roles::first_with_id(active, forced->0, at));
        assert(active[at] == begun.actor->0);
    }
}

} // verus!
