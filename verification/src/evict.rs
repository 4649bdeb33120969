//! Taking workers that died out of the group.

use vstd::prelude::*;

use crate::command;
use crate::command::{BenchmarkCursor, Command, CommitSampling, PendingKind};
use crate::expect::{expected_group_state, ExpectedGroupState};
use crate::failure;
use crate::failure::Failure;
use crate::order;
use crate::table::IdSet;
use crate::task;
use crate::task::{split_members, CommitFanout, Next, Order, Report, Spread};
use crate::text;
use crate::text::{contains, decimal_text, str_eq};
use crate::transport;
use crate::transport::{
    is_queued_epoch_race_message, queued_remove_members_republished, CommandResponse,
    GroupStateSnapshot,
};
use crate::workers;
use crate::workers::{copies_of, copy_workers, WorkerSpec};

verus! {

// ---------------------------------------------------------------------------
// Publishing a removal
// ---------------------------------------------------------------------------

/// How often the removal is tried.
pub const REMOVAL_ATTEMPTS: usize = 3;

/// How far the publishing of a removal is.
#[derive(Debug)]
pub enum PublishStage {
    /// The actor's state is asked for.
    Looking,
    /// The actor does not know all that died; it handles what waits for it.
    CatchingUp { before: GroupStateSnapshot },
    /// The removal is asked for.
    Asking { expected: ExpectedGroupState },
    /// The removal came too late; the actor handles what waits for it.
    Recovering,
    /// The removal was made up for; the actor's state is asked for.
    Rechecking,
    /// Another commit was in the way; the actor handles what waits for it.
    Unblocking,
    /// Nothing is left to do.
    Over,
}

/// The publishing of the commit that removes all that died.
#[derive(Debug)]
pub struct PublishRemoval {
    pub actor: WorkerSpec,
    pub dead: IdSet,
    pub cursor: BenchmarkCursor,
    pub attempt: usize,
    pub stage: PublishStage,
}

/// What the publishing of a removal leads to.
pub type Published = Result<ExpectedGroupState, Failure>;

/// The publishing succeeded, and the group is expected to be in a given state.
pub open spec fn published(next: Next<Published>, state: transport::StateView) -> bool {
    next is Done && next->Done_0 is Ok && next->Done_0->Ok_0@ == state
}

/// The publishing failed.
pub open spec fn unpublished(next: Next<Published>, error: failure::FailureView) -> bool {
    next is Done && next->Done_0 is Err && next->Done_0->Err_0@ == error
}

/// The state of a group in which only some members are left.
pub open spec fn left_over(
    before: transport::StateView,
    epoch: int,
    dead: Set<Seq<char>>,
) -> transport::StateView {
    transport::StateView {
        group_id: before.group_id,
        epoch: epoch as u64,
        members: order::ascending(task::members_in(before.members, dead, false)),
    }
}

impl PublishRemoval {
    /// The attempt is one of those allowed.
    pub open spec fn wf(self) -> bool {
        1 <= self.attempt <= REMOVAL_ATTEMPTS && (self.stage matches PublishStage::CatchingUp {
            before,
        } ==> before.epoch < u64::MAX)
    }

    /// What does not change.
    pub open spec fn same_task(self, other: PublishRemoval) -> bool {
        &&& self.actor == other.actor
        &&& self.dead@ == other.dead@
        &&& self.cursor == other.cursor
    }

    /// The report is one that the stage waits for.
    pub open spec fn waits_for(self, report: Report) -> bool {
        match self.stage {
            PublishStage::Looking => report.is_state(),
            PublishStage::CatchingUp { before: _ } => report is Sent,
            PublishStage::Asking { expected: _ } => report is Answered,
            PublishStage::Recovering => report is Sent,
            PublishStage::Rechecking => report.is_state(),
            PublishStage::Unblocking => report is Sent,
            PublishStage::Over => false,
        }
    }

    /// The order to handle what waits for the actor.
    pub open spec fn catches_up(self, next: Next<Published>) -> bool {
        next is Do && next->Do_0.sends(
            self.actor,
            command::CommandView::ProcessPending {
                kinds: Some(seq![PendingKind::Commits]),
                max_messages: Some(8),
                expected_epoch: None,
                sampling: command::SamplingView::unmeasured(),
            },
            "process_pending processed;"@,
            Some(
                "oom_eviction.actor_process_pending_after_epoch_race_"@ + text::decimal(
                    self.attempt as nat,
                ),
            ),
            self.cursor@,
        )
    }

    /// The next attempt, or the end where there were enough.
    pub open spec fn tries_again(self, after: PublishRemoval, next: Next<Published>) -> bool {
        if self.attempt < REMOVAL_ATTEMPTS {
            &&& after.attempt == self.attempt + 1
            &&& after.stage is Looking
            &&& next is Do
            &&& next->Do_0.shows(self.actor)
        } else {
            &&& after.stage is Over
            &&& after.attempt == self.attempt
            &&& unpublished(
                next,
                failure::plain(
                    "remove_members for OOM eviction kept losing the epoch race after 3 attempts"@,
                ),
            )
        }
    }

    /// The removal of all that died and that the actor knows, or the end where it knows none.
    pub open spec fn removes(
        self,
        before: transport::StateView,
        after: PublishRemoval,
        next: Next<Published>,
    ) -> bool {
        let removed = task::members_in(before.members, self.dead@, true);
        &&& after.attempt == self.attempt
        &&& if removed.len() == 0 {
            &&& after.stage is Over
            &&& published(next, left_over(before, before.epoch as int, self.dead@))
        } else {
            &&& after.stage is Asking
            &&& after.stage->expected@ == left_over(before, before.epoch + 1, self.dead@)
            &&& next is Do
            &&& next->Do_0.asks(
                self.actor,
                command::CommandView::RemoveMembers { members: removed },
                "oom_eviction.remove_members"@,
                self.cursor@,
            )
        }
    }

    /// The actor knows all that died.
    pub open spec fn knows_all(self, members: Seq<Seq<char>>) -> bool {
        forall|id: Seq<char>| #[trigger] self.dead@.contains(id) ==> members.contains(id)
    }

    /// What the answer to the removal leads to.
    pub open spec fn answered(
        self,
        response: CommandResponse,
        expected: transport::StateView,
        after: PublishRemoval,
        next: Next<Published>,
    ) -> bool {
        let message = response.message@;
        &&& after.attempt == self.attempt
        &&& if response.status@ == "ok"@ && text::occurs(
            message,
            "removed locally; group commit published"@,
        ) {
            after.stage is Over && published(next, expected)
        } else if response.status@ == "ok"@ && transport::queued_epoch_race(message) {
            after.stage is Recovering && self.catches_up(next)
        } else if response.status@ == "error"@ && text::occurs(message, "pending commit exists"@) {
            after.stage is Unblocking && self.catches_up(next)
        } else {
            after.stage is Over && unpublished(
                next,
                failure::plain(transport::refusal(self.actor.id@, response.status@, message)),
            )
        }
    }

    /// How far the publishing is after a report, and what is done then.
    pub open spec fn next(self, report: Report, after: PublishRemoval, next: Next<Published>) -> bool {
        &&& after.same_task(self)
        &&& match (self.stage, report) {
            (PublishStage::Looking, Report::State(Err(error))) => after.stage is Over
                && unpublished(next, error@),
            (PublishStage::Looking, Report::State(Ok(before))) => if self.knows_all(
                before@.members,
            ) {
                self.removes(before@, after, next)
            } else {
                &&& after.attempt == self.attempt
                &&& after.stage is CatchingUp
                &&& after.stage->before@ == before@
                &&& self.catches_up(next)
            },
            (
                PublishStage::CatchingUp { before },
                Report::Sent(Ok(_)),
            ) => self.tries_again(after, next),
            (
                PublishStage::CatchingUp { before },
                Report::Sent(Err(_)),
            ) => self.removes(before@, after, next),
            (
                PublishStage::Asking { expected },
                Report::Answered(Err(error)),
            ) => after.stage is Over && unpublished(next, error@),
            (
                PublishStage::Asking { expected },
                Report::Answered(Ok(response)),
            ) => self.answered(response, expected@, after, next),
            (
                PublishStage::Recovering,
                Report::Sent(Ok(message)),
            ) => if transport::removal_republished(message@) {
                &&& after.attempt == self.attempt
                &&& after.stage is Rechecking
                &&& next is Do
                &&& next->Do_0.shows(self.actor)
            } else {
                self.tries_again(after, next)
            },
            (PublishStage::Recovering, Report::Sent(Err(_))) => self.tries_again(after, next),
            (PublishStage::Rechecking, Report::State(Err(error))) => after.stage is Over
                && unpublished(next, error@),
            (PublishStage::Rechecking, Report::State(Ok(now))) => {
                &&& after.stage is Over
                &&& published(
                    next,
                    left_over(
                        now@,
                        if task::members_in(now@.members, self.dead@, false).len()
                            == now@.members.len() {
                            now@.epoch as int
                        } else {
                            now@.epoch + 1
                        },
                        self.dead@,
                    ),
                )
            },
            (PublishStage::Unblocking, Report::Sent(_)) => self.tries_again(after, next),
            _ => true,
        }
    }

    /// The first thing to do is to ask for the actor's state.
    pub fn new(actor: &WorkerSpec, dead: &IdSet, cursor: &BenchmarkCursor) -> (made: (
        PublishRemoval,
        Order,
    ))
        ensures
            made.0.wf(),
            made.0.actor == *actor,
            made.0.dead@ == dead@,
            made.0.cursor == *cursor,
            made.0.attempt == 1,
            made.0.stage is Looking,
            made.1.shows(*actor),
    {
        (
            PublishRemoval {
                actor: actor.clone(),
                dead: dead.copy(),
                cursor: cursor.clone(),
                attempt: 1,
                stage: PublishStage::Looking,
            },
            Order::ShowState { worker: actor.clone() },
        )
    }

    fn catch_up(&self) -> (next: Next<Published>)
        ensures
            self.catches_up(next),
    {
        let mut phase: String = "oom_eviction.actor_process_pending_after_epoch_race_".to_owned();
        phase.append(decimal_text(self.attempt as u128).as_str());
        let kinds: Vec<PendingKind> = vec![PendingKind::Commits];
        assert(kinds@ =~= seq![PendingKind::Commits]);
        Next::Do(
            Order::Send {
                worker: self.actor.clone(),
                command: Command::ProcessPending {
                    kinds: Some(kinds),
                    max_messages: Some(8),
                    expected_epoch: None,
                    sampling: CommitSampling::unmeasured(),
                },
                ok_fragment: "process_pending processed;".to_owned(),
                phase: Some(phase),
                cursor: Some(self.cursor.clone()),
            },
        )
    }

    fn try_again(&mut self) -> (next: Next<Published>)
        requires
            1 <= old(self).attempt <= REMOVAL_ATTEMPTS,
        ensures
            final(self).wf(),
            final(self).same_task(*old(self)),
            old(self).tries_again(*final(self), next),
    {
        if self.attempt < REMOVAL_ATTEMPTS {
            self.attempt = self.attempt + 1;
            self.stage = PublishStage::Looking;
            Next::Do(Order::ShowState { worker: self.actor.clone() })
        } else {
            self.stage = PublishStage::Over;
            Next::Done(
                Err(
                    Failure::plain(
                        "remove_members for OOM eviction kept losing the epoch race after 3 attempts".to_owned(),
                    ),
                ),
            )
        }
    }

    fn remove(&mut self, before: &GroupStateSnapshot) -> (next: Next<Published>)
        requires
            1 <= old(self).attempt <= REMOVAL_ATTEMPTS,
            before.epoch < u64::MAX,
        ensures
            final(self).wf(),
            final(self).same_task(*old(self)),
            old(self).removes(before@, *final(self), next),
    {
        let removed: Vec<String> = split_members(&before.members, &self.dead, true);
        let kept: Vec<String> = split_members(&before.members, &self.dead, false);
        assert(text::texts(removed@).len() == removed@.len());
        if removed.len() == 0 {
            self.stage = PublishStage::Over;
            return Next::Done(Ok(expected_group_state(before, before.epoch, &kept)));
        }
        self.stage = PublishStage::Asking {
            expected: expected_group_state(before, before.epoch + 1, &kept),
        };
        Next::Do(
            Order::Ask {
                worker: self.actor.clone(),
                command: Command::RemoveMembers { members: removed },
                phase: "oom_eviction.remove_members".to_owned(),
                cursor: self.cursor.clone(),
            },
        )
    }

    fn answer(&mut self, response: CommandResponse, expected: ExpectedGroupState) -> (next: Next<
        Published,
    >)
        requires
            1 <= old(self).attempt <= REMOVAL_ATTEMPTS,
        ensures
            final(self).wf(),
            final(self).same_task(*old(self)),
            old(self).answered(response, expected@, *final(self), next),
    {
        proof {
            reveal_strlit("ok");
            reveal_strlit("error");
            assert("ok"@.len() != "error"@.len());
        }
        let ok: bool = str_eq(response.status.as_str(), "ok");
        let error: bool = str_eq(response.status.as_str(), "error");
        let message: &str = response.message.as_str();
        if ok && contains(message, "removed locally; group commit published") {
            self.stage = PublishStage::Over;
            return Next::Done(Ok(expected));
        }
        if ok && is_queued_epoch_race_message(message) {
            self.stage = PublishStage::Recovering;
            return self.catch_up();
        }
        if error && contains(message, "pending commit exists") {
            self.stage = PublishStage::Unblocking;
            return self.catch_up();
        }
        self.stage = PublishStage::Over;
        Next::Done(
            Err(
                Failure::plain(
                    transport::refusal_text(
                        self.actor.id.as_str(),
                        response.status.as_str(),
                        message,
                    ),
                ),
            ),
        )
    }

    /// What is done after a report.
    pub fn step(&mut self, report: Report) -> (next: Next<Published>)
        requires
            old(self).wf(),
            old(self).waits_for(report),
        ensures
            final(self).wf(),
            old(self).next(report, *final(self), next),
    {
        let mut stage: PublishStage = PublishStage::Over;
        std::mem::swap(&mut stage, &mut self.stage);
        match (stage, report) {
            (PublishStage::Looking, Report::State(Err(error))) => Next::Done(Err(error)),
            (PublishStage::Looking, Report::State(Ok(before))) => {
                if self.dead.all_in(&before.members) {
                    self.remove(&before)
                } else {
                    self.stage = PublishStage::CatchingUp { before: before };
                    self.catch_up()
                }
            },
            (PublishStage::CatchingUp { before: _ }, Report::Sent(Ok(_))) => self.try_again(),
            (PublishStage::CatchingUp { before }, Report::Sent(Err(_))) => self.remove(&before),
            (
                PublishStage::Asking { expected: _ },
                Report::Answered(Err(error)),
            ) => Next::Done(Err(error)),
            (PublishStage::Asking { expected }, Report::Answered(Ok(response))) => self.answer(
                response,
                expected,
            ),
            (PublishStage::Recovering, Report::Sent(Ok(message))) => {
                if queued_remove_members_republished(message.as_str()) {
                    self.stage = PublishStage::Rechecking;
                    Next::Do(Order::ShowState { worker: self.actor.clone() })
                } else {
                    self.try_again()
                }
            },
            (PublishStage::Recovering, Report::Sent(Err(_))) => self.try_again(),
            (PublishStage::Rechecking, Report::State(Err(error))) => Next::Done(Err(error)),
            (PublishStage::Rechecking, Report::State(Ok(now))) => {
                let kept: Vec<String> = split_members(&now.members, &self.dead, false);
                assert(text::texts(kept@).len() == kept@.len());
                assert(now@.members.len() == now.members@.len());
                let epoch: u64 = if kept.len() == now.members.len() {
                    now.epoch
                } else {
                    now.epoch + 1
                };
                Next::Done(Ok(expected_group_state(&now, epoch, &kept)))
            },
            (PublishStage::Unblocking, Report::Sent(_)) => self.try_again(),
            (stage, _) => {
                self.stage = stage;
                Next::Do(Order::ShowState { worker: self.actor.clone() })
            },
        }
    }
}

/// A removal leaves exactly the members that did not die.
pub proof fn law_left_over_members(
    before: transport::StateView,
    epoch: int,
    dead: Set<Seq<char>>,
    id: Seq<char>,
)
    ensures
        left_over(before, epoch, dead).members.contains(id) <==> before.members.contains(id)
            && !dead.contains(id),
{
    broadcast use vstd::seq_lib::group_to_multiset_ensures;

    let kept = task::members_in(before.members, dead, false);
    lemma_members_in(before.members, dead, false, id);
    order::lemma_text_order_is_total();
    kept.lemma_sort_by_ensures(order::text_order());
    let sorted = order::ascending(kept);
    assert(sorted.contains(id) <==> sorted.to_multiset().count(id) > 0);
    assert(kept.contains(id) <==> kept.to_multiset().count(id) > 0);
}

/// Putting names in order keeps each of them, as often as it stands there.
pub proof fn lemma_ascending(names: Seq<Seq<char>>)
    ensures
        order::ascending(names).to_multiset() == names.to_multiset(),
        order::ascending(names).len() == names.len(),
        forall|id: Seq<char>| #[trigger]
            order::ascending(names).contains(id) <==> names.contains(id),
{
    broadcast use vstd::seq_lib::group_to_multiset_ensures;

    order::lemma_text_order_is_total();
    names.lemma_sort_by_ensures(order::text_order());
    let sorted = order::ascending(names);
    assert(sorted.len() == sorted.to_multiset().len());
    assert(names.len() == names.to_multiset().len());
    assert forall|id: Seq<char>| #[trigger] sorted.contains(id) <==> names.contains(id) by {
        assert(sorted.contains(id) <==> sorted.to_multiset().count(id) > 0);
        assert(names.contains(id) <==> names.to_multiset().count(id) > 0);
    }
}

/// The members that are, or are not, in a set are exactly those.
pub proof fn lemma_members_in(
    members: Seq<Seq<char>>,
    set: Set<Seq<char>>,
    within: bool,
    id: Seq<char>,
)
    ensures
        task::members_in(members, set, within).contains(id) <==> members.contains(id)
            && set.contains(id) == within,
    decreases members.len(),
{
    if members.len() > 0 {
        let front = members.drop_last();
        let last = members.last();
        lemma_members_in(front, set, within, id);
        let before = task::members_in(front, set, within);
        let all = task::members_in(members, set, within);
        assert(members =~= front.push(last));
        if all.contains(id) {
            let k = choose|k: int| 0 <= k < all.len() && all[k] == id;
            if k < before.len() {
                assert(before[k] == id);
                let j = choose|j: int| 0 <= j < front.len() && front[j] == id;
                assert(members[j] == id);
            } else {
                assert(members[members.len() - 1] == id);
            }
        }
        if members.contains(id) && set.contains(id) == within {
            let j = choose|j: int| 0 <= j < members.len() && members[j] == id;
            if j < front.len() {
                assert(front[j] == id);
                let k = choose|k: int| 0 <= k < before.len() && before[k] == id;
                assert(all[k] == id);
            } else {
                assert(all[all.len() - 1] == id);
            }
        }
    }
}

// ---------------------------------------------------------------------------
// Evicting
// ---------------------------------------------------------------------------

/// The first worker whose id is not in a set.
pub open spec fn first_outside(active: Seq<WorkerSpec>, set: Set<Seq<char>>) -> Option<WorkerSpec>
    decreases active.len(),
{
    if active.len() == 0 {
        None
    } else if !set.contains(active[0].id@) {
        Some(active[0])
    } else {
        first_outside(active.drop_first(), set)
    }
}

/// The first worker outside a set is a member outside of it; without one all members are in the set.
pub proof fn lemma_first_outside(active: Seq<WorkerSpec>, set: Set<Seq<char>>)
    ensures
        match first_outside(active, set) {
            Some(w) => active.contains(w) && !set.contains(w.id@),
            None => forall|i: int| 0 <= i < active.len() ==> set.contains((#[trigger] active[i]).id@),
        },
    decreases active.len(),
{
    if active.len() > 0 {
        let rest = active.drop_first();
        lemma_first_outside(rest, set);
        if !set.contains(active[0].id@) {
            assert(active.contains(active[0]));
        } else {
            match first_outside(rest, set) {
                Some(w) => {
                    let k = choose|k: int| 0 <= k < rest.len() && rest[k] == w;
                    assert(active[k + 1] == w);
                },
                None => {
                    assert forall|i: int| 0 <= i < active.len() implies set.contains(
                        (#[trigger] active[i]).id@,
                    ) by {
                        if i > 0 {
                            assert(rest[i - 1] == active[i]);
                        }
                    }
                },
            }
        }
    }
}

pub(crate) fn find_outside(active: &[WorkerSpec], set: &IdSet, besides: Option<&str>) -> (found: Option<
    WorkerSpec,
>)
    ensures
        found == first_outside(
            active@,
            match besides {
                Some(id) => set@.insert(id@),
                None => set@,
            },
        ),
{
    let ghost all = match besides {
        Some(id) => set@.insert(id@),
        None => set@,
    };
    let mut i: usize = 0;
    assert(active@.skip(0) =~= active@);
    while i < active.len()
        invariant
            i <= active@.len(),
            all == (match besides {
                Some(id) => set@.insert(id@),
                None => set@,
            }),
            first_outside(active@, all) == first_outside(active@.skip(i as int), all),
        decreases active@.len() - i,
    {
        assert(active@.skip(i as int)[0] == active@[i as int]);
        let other: bool = match besides {
            Some(id) => !str_eq(active[i].id.as_str(), id),
            None => true,
        };
        if other && !set.contains(active[i].id.as_str()) {
            return Some(active[i].clone());
        }
        assert(active@.skip(i as int).drop_first() =~= active@.skip(i + 1));
        i = i + 1;
    }
    None
}

/// How far an eviction is.
#[derive(Debug)]
pub enum EvictStage {
    /// The actor's state is asked for.
    Looking,
    /// The removal is published.
    Publishing(PublishRemoval),
    /// The actor handles its own commit.
    Handling { expected: ExpectedGroupState },
    /// The other members handle the commit.
    Spreading,
    /// The actor failed; its failure is written down.
    LosingActor { error: Failure },
    /// Other members failed; their failures are written down.
    LosingOthers { error: Failure },
    /// Nothing is left to do.
    Over,
}

/// The eviction of workers that died. One that is alive acts for the group; where it dies too,
/// another one takes its place.
#[derive(Debug)]
pub struct Evict {
    pub active: Vec<WorkerSpec>,
    pub dead: IdSet,
    pub spread: Spread,
    pub plateau_size: usize,
    pub actor: Option<WorkerSpec>,
    pub stage: EvictStage,
}

/// The place in the run that an eviction belongs to.
pub open spec fn evict_marks(plateau_size: usize, active: nat) -> command::Marks {
    command::Marks::at(
        plateau_size,
        plateau_size,
        active as usize,
        "oom_eviction"@,
        "evict_commit"@,
    )
}

/// An operation succeeded.
pub open spec fn succeeded(next: Next<Result<(), Failure>>) -> bool {
    next is Done && next->Done_0 is Ok
}

/// An operation failed.
pub open spec fn failed(next: Next<Result<(), Failure>>, error: failure::FailureView) -> bool {
    next is Done && next->Done_0 is Err && next->Done_0->Err_0@ == error
}

impl Evict {
    /// While something is left to do there is an actor that is alive.
    pub open spec fn wf(self) -> bool {
        &&& !(self.stage is Over) ==> {
            &&& self.actor is Some
            &&& self.active@.contains(self.actor->0)
            &&& !self.dead@.contains(self.actor->0.id@)
        }
        &&& self.stage matches EvictStage::Publishing(removal) ==> removal.wf()
            && removal.actor == self.actor->0 && removal.dead@ == self.dead@ && removal.cursor@
            == self.marks()
    }

    /// The place in the run.
    pub open spec fn marks(self) -> command::Marks {
        evict_marks(self.plateau_size, self.active@.len())
    }

    /// What does not change.
    pub open spec fn same_task(self, other: Evict) -> bool {
        &&& self.spread == other.spread
        &&& self.plateau_size == other.plateau_size
    }

    /// The report is one that the stage waits for.
    pub open spec fn waits_for(self, report: Report) -> bool {
        match self.stage {
            EvictStage::Looking => report.is_state(),
            EvictStage::Publishing(removal) => removal.waits_for(report),
            EvictStage::Handling { expected: _ } => report is Handled,
            EvictStage::Spreading => report is Spread,
            EvictStage::LosingActor { error: _ } => report is Recorded,
            EvictStage::LosingOthers { error: _ } => report is AllRecorded,
            EvictStage::Over => false,
        }
    }

    /// The first worker that is alive becomes the actor; without one the eviction fails.
    pub open spec fn elects(
        self,
        dead: Set<Seq<char>>,
        after: Evict,
        next: Next<Result<(), Failure>>,
    ) -> bool {
        &&& after.active@ == self.active@
        &&& after.dead@ == dead
        &&& match first_outside(self.active@, dead) {
            Some(actor) => {
                &&& after.actor == Some(actor)
                &&& after.stage is Looking
                &&& next is Do
                &&& next->Do_0.shows(actor)
            },
            None => {
                &&& after.stage is Over
                &&& failed(
                    next,
                    failure::plain("No live OpenMLS member remains to evict OOM workers"@),
                )
            },
        }
    }

    /// The eviction is over: all that died are gone.
    pub open spec fn finishes(self, after: Evict, next: Next<Result<(), Failure>>) -> bool {
        &&& after.active@ == workers::those(self.active@, task::outside(self.dead@))
        &&& after.dead@ == self.dead@
        &&& after.stage is Over
        &&& succeeded(next)
    }

    /// The eviction failed; nobody is gone.
    pub open spec fn fails(
        self,
        error: failure::FailureView,
        after: Evict,
        next: Next<Result<(), Failure>>,
    ) -> bool {
        &&& after.active@ == self.active@
        &&& after.dead@ == self.dead@
        &&& after.stage is Over
        &&& failed(next, error)
    }

    /// All else stays.
    pub open spec fn stays(self, after: Evict) -> bool {
        &&& after.active@ == self.active@
        &&& after.dead@ == self.dead@
        &&& after.actor == self.actor
    }

    /// The actor's failure is written down.
    pub open spec fn loses_actor(
        self,
        error: failure::FailureView,
        after: Evict,
        next: Next<Result<(), Failure>>,
    ) -> bool {
        &&& self.stays(after)
        &&& after.stage is LosingActor
        &&& after.stage->LosingActor_error@ == error
        &&& next is Do
        &&& next->Do_0.records(
            self.marks(),
            self.actor->0,
            error,
            "evict_oom_eviction_actor_and_retry"@,
            first_outside(self.active@, self.dead@.insert(self.actor->0.id@)),
        )
    }

    /// The actor handles its own commit.
    pub open spec fn handles(
        self,
        expected: transport::StateView,
        after: Evict,
        next: Next<Result<(), Failure>>,
    ) -> bool {
        &&& self.stays(after)
        &&& after.stage is Handling
        &&& after.stage->expected@ == expected
        &&& next is Do
        &&& next->Do_0.handles(
            self.actor->0,
            expected,
            self.spread.pending,
            if self.spread.pending {
                "oom_eviction.actor_process_pending"@
            } else {
                "oom_eviction.actor_receive_commit"@
            },
            self.marks(),
        )
    }

    /// The other members that are alive handle the commit.
    pub open spec fn spreads(
        self,
        expected: transport::StateView,
        after: Evict,
        next: Next<Result<(), Failure>>,
    ) -> bool {
        let recipients = workers::those(
            self.active@,
            task::outside(self.dead@.insert(self.actor->0.id@)),
        );
        &&& self.stays(after)
        &&& after.stage is Spreading
        &&& next is Do
        &&& next->Do_0.spreads(
            "oom_eviction"@,
            recipients.len() as usize,
            if self.spread.pending {
                "process_pending"@
            } else {
                "receive_commit"@
            },
            recipients,
            Set::empty(),
            expected,
            self.spread,
            "remove"@,
            self.plateau_size,
            0,
            if self.spread.pending {
                "oom_eviction.fanout_process_pending"@
            } else {
                "oom_eviction.fanout_receive_commit"@
            },
            self.marks(),
        )
    }

    /// How far the eviction is after a report, and what is done then.
    pub open spec fn next(
        self,
        report: Report,
        after: Evict,
        next: Next<Result<(), Failure>>,
    ) -> bool {
        &&& after.same_task(self)
        &&& match (self.stage, report) {
            (EvictStage::Looking, Report::State(Err(error))) => self.loses_actor(
                error@,
                after,
                next,
            ),
            (EvictStage::Looking, Report::State(Ok(before))) => if task::members_in(
                before@.members,
                self.dead@,
                true,
            ).len() == 0 {
                self.finishes(after, next)
            } else {
                &&& self.stays(after)
                &&& after.stage is Publishing
                &&& after.stage->Publishing_0.actor == self.actor->0
                &&& after.stage->Publishing_0.dead@ == self.dead@
                &&& after.stage->Publishing_0.attempt == 1
                &&& after.stage->Publishing_0.stage is Looking
                &&& next is Do
                &&& next->Do_0.shows(self.actor->0)
            },
            (EvictStage::Publishing(removal), _) => exists|
                then: PublishRemoval,
                step: Next<Published>,
            | #[trigger]
                removal.next(report, then, step) && match step {
                    Next::Do(order) => {
                        &&& self.stays(after)
                        &&& after.stage == EvictStage::Publishing(then)
                        &&& next == Next::<Result<(), Failure>>::Do(order)
                    },
                    Next::Done(Ok(expected)) => self.handles(expected@, after, next),
                    Next::Done(Err(error)) => self.loses_actor(error@, after, next),
                },
            (
                EvictStage::Handling { expected },
                Report::Handled(Ok(_)),
            ) => self.spreads(expected@, after, next),
            (
                EvictStage::Handling { expected },
                Report::Handled(Err(error)),
            ) => self.loses_actor(error@, after, next),
            (EvictStage::Spreading, Report::Spread(Ok(_))) => self.finishes(after, next),
            (EvictStage::Spreading, Report::Spread(Err(error))) => {
                &&& self.stays(after)
                &&& after.stage is LosingOthers
                &&& after.stage->LosingOthers_error@ == error@
                &&& next is Do
                &&& next->Do_0.records_all(
                    self.marks(),
                    error@,
                    "evict_oom_eviction_recipient_and_retry"@,
                    self.actor,
                )
            },
            (EvictStage::LosingActor { error }, Report::Recorded(Ok(goes_on))) => if goes_on {
                self.elects(self.dead@.insert(self.actor->0.id@), after, next)
            } else {
                self.fails(error@, after, next)
            },
            (EvictStage::LosingActor { error: _ }, Report::Recorded(Err(worse))) => self.fails(
                worse@,
                after,
                next,
            ),
            (
                EvictStage::LosingOthers { error },
                Report::AllRecorded(Ok(Some(more))),
            ) => self.elects(
                self.dead@.union(workers::ids(more@).to_set()),
                after,
                next,
            ),
            (EvictStage::LosingOthers { error }, Report::AllRecorded(Ok(None))) => self.fails(
                error@,
                after,
                next,
            ),
            (EvictStage::LosingOthers { error: _ }, Report::AllRecorded(Err(worse))) => self.fails(
                worse@,
                after,
                next,
            ),
            _ => true,
        }
    }

    /// An eviction that has begun, or that was over at once.
    pub open spec fn begun(
        self,
        active: Seq<WorkerSpec>,
        dead: Seq<WorkerSpec>,
        spread: Spread,
        plateau_size: usize,
        next: Next<Result<(), Failure>>,
    ) -> bool {
        &&& self.wf()
        &&& self.active@ == active
        &&& self.spread == spread
        &&& self.plateau_size == plateau_size
        &&& if dead.len() == 0 {
            &&& self.stage is Over
            &&& succeeded(next)
        } else {
            self.elects(workers::ids(dead).to_set(), self, next)
        }
    }

    /// Begins an eviction. Where nobody died there is nothing to do.
    pub fn start(
        active: &[WorkerSpec],
        dead_workers: &[WorkerSpec],
        spread: Spread,
        plateau_size: usize,
    ) -> (made: (Evict, Next<Result<(), Failure>>))
        ensures
            made.0.begun(active@, dead_workers@, spread, plateau_size, made.1),
    {
        let mut evict: Evict = Evict {
            active: copy_workers(active),
            dead: IdSet::new(),
            spread: spread,
            plateau_size: plateau_size,
            actor: None,
            stage: EvictStage::Over,
        };
        if dead_workers.len() == 0 {
            return (evict, Next::Done(Ok(())));
        }
        evict.mourn(dead_workers);
        assert(evict.dead@ =~= workers::ids(dead_workers@).to_set());
        let next: Next<Result<(), Failure>> = evict.elect();
        (evict, next)
    }

    /// Counts more workers among those that died.
    fn mourn(&mut self, more: &[WorkerSpec])
        ensures
            final(self).dead@ == old(self).dead@.union(workers::ids(more@).to_set()),
            final(self).active == old(self).active,
            final(self).same_task(*old(self)),
            final(self).actor == old(self).actor,
            final(self).stage == old(self).stage,
    {
        let ghost names = workers::ids(more@);
        let mut i: usize = 0;
        assert(names.take(0).to_set() =~= Set::<Seq<char>>::empty());
        assert(self.dead@ =~= old(self).dead@.union(names.take(0).to_set()));
        while i < more.len()
            invariant
                i <= more@.len(),
                names == workers::ids(more@),
                self.dead@ == old(self).dead@.union(names.take(i as int).to_set()),
                self.active == old(self).active,
                self.same_task(*old(self)),
                self.actor == old(self).actor,
                self.stage == old(self).stage,
            decreases more@.len() - i,
        {
            self.dead.insert(more[i].id.as_str());
            proof {
                assert(names.take(i + 1) =~= names.take(i as int).push(names[i as int]));
                names.take(i as int).lemma_push_to_set_commute(names[i as int]);
                assert(self.dead@ =~= old(self).dead@.union(names.take(i + 1).to_set()));
            }
            i = i + 1;
        }
        assert(names.take(i as int) =~= names);
    }

    fn elect(&mut self) -> (next: Next<Result<(), Failure>>)
        ensures
            final(self).wf(),
            final(self).same_task(*old(self)),
            old(self).elects(old(self).dead@, *final(self), next),
    {
        match find_outside(self.active.as_slice(), &self.dead, None) {
            Some(actor) => {
                proof {
                    lemma_first_outside(self.active@, self.dead@);
                }
                self.actor = Some(actor.clone());
                self.stage = EvictStage::Looking;
                Next::Do(Order::ShowState { worker: actor })
            },
            None => {
                self.stage = EvictStage::Over;
                Next::Done(
                    Err(
                        Failure::plain(
                            "No live OpenMLS member remains to evict OOM workers".to_owned(),
                        ),
                    ),
                )
            },
        }
    }

    fn cursor(&self) -> (cursor: BenchmarkCursor)
        ensures
            cursor@ == self.marks(),
    {
        BenchmarkCursor::new(
            self.plateau_size,
            self.plateau_size,
            self.active.len(),
            "oom_eviction",
            "evict_commit",
        )
    }

    fn finish(&mut self) -> (next: Next<Result<(), Failure>>)
        ensures
            final(self).wf(),
            final(self).same_task(*old(self)),
            old(self).finishes(*final(self), next),
    {
        let dead: &IdSet = &self.dead;
        let keep = |w: &WorkerSpec| -> (yes: bool)
            ensures
                yes == !dead@.contains(w.id@),
        { !dead.contains(w.id.as_str()) };
        let left: Vec<WorkerSpec> = copies_of(
            self.active.as_slice(),
            keep,
            Ghost(task::outside(self.dead@)),
        );
        self.active = left;
        self.stage = EvictStage::Over;
        Next::Done(Ok(()))
    }

    fn fail(&mut self, error: Failure) -> (next: Next<Result<(), Failure>>)
        ensures
            final(self).wf(),
            final(self).same_task(*old(self)),
            old(self).fails(error@, *final(self), next),
    {
        self.stage = EvictStage::Over;
        Next::Done(Err(error))
    }

    fn lose_actor(&mut self, actor: WorkerSpec, error: Failure) -> (next: Next<
        Result<(), Failure>,
    >)
        requires
            old(self).actor == Some(actor),
            old(self).active@.contains(actor),
            !old(self).dead@.contains(actor.id@),
        ensures
            final(self).wf(),
            final(self).same_task(*old(self)),
            old(self).loses_actor(error@, *final(self), next),
    {
        let other: Option<WorkerSpec> = find_outside(
            self.active.as_slice(),
            &self.dead,
            Some(actor.id.as_str()),
        );
        let order: Order = Order::Record {
            cursor: self.cursor(),
            worker: actor,
            error: error.clone(),
            action: "evict_oom_eviction_actor_and_retry",
            reassigned_to: other,
        };
        self.stage = EvictStage::LosingActor { error: error };
        Next::Do(order)
    }

    fn handle(&mut self, actor: WorkerSpec, expected: ExpectedGroupState) -> (next: Next<
        Result<(), Failure>,
    >)
        requires
            old(self).actor == Some(actor),
            old(self).active@.contains(actor),
            !old(self).dead@.contains(actor.id@),
        ensures
            final(self).wf(),
            final(self).same_task(*old(self)),
            old(self).handles(expected@, *final(self), next),
    {
        let order: Order = Order::Handle {
            worker: actor,
            expected: expected.clone(),
            pending: self.spread.pending,
            phase: if self.spread.pending {
                "oom_eviction.actor_process_pending"
            } else {
                "oom_eviction.actor_receive_commit"
            },
            cursor: self.cursor(),
        };
        self.stage = EvictStage::Handling { expected: expected };
        Next::Do(order)
    }

    fn spread_commit(&mut self, actor: WorkerSpec, expected: ExpectedGroupState) -> (next: Next<
        Result<(), Failure>,
    >)
        requires
            old(self).actor == Some(actor),
            old(self).active@.contains(actor),
            !old(self).dead@.contains(actor.id@),
        ensures
            final(self).wf(),
            final(self).same_task(*old(self)),
            old(self).spreads(expected@, *final(self), next),
    {
        let dead: &IdSet = &self.dead;
        let keep = |w: &WorkerSpec| -> (yes: bool)
            ensures
                yes == !dead@.insert(actor.id@).contains(w.id@),
        { !str_eq(w.id.as_str(), actor.id.as_str()) && !dead.contains(w.id.as_str()) };
        let recipients: Vec<WorkerSpec> = copies_of(
            self.active.as_slice(),
            keep,
            Ghost(task::outside(self.dead@.insert(actor.id@))),
        );
        let order: Order = Order::SpreadCommit {
            phase: "oom_eviction",
            group_size: recipients.len(),
            operation: if self.spread.pending {
                "process_pending"
            } else {
                "receive_commit"
            },
            task: CommitFanout {
                recipients: recipients,
                removed: IdSet::new(),
                expected: expected,
                spread: self.spread,
                create_op: "remove",
                plateau_size: self.plateau_size,
                seq_no: 0,
                phase: if self.spread.pending {
                    "oom_eviction.fanout_process_pending"
                } else {
                    "oom_eviction.fanout_receive_commit"
                },
                cursor: self.cursor(),
            },
        };
        self.stage = EvictStage::Spreading;
        Next::Do(order)
    }

    /// What is done after a report.
    pub fn step(&mut self, report: Report) -> (next: Next<Result<(), Failure>>)
        requires
            old(self).wf(),
            old(self).waits_for(report),
        ensures
            final(self).wf(),
            old(self).next(report, *final(self), next),
    {
        let ghost given = report;
        let actor: WorkerSpec = match &self.actor {
            Some(actor) => actor.clone(),
            None => {
                return Next::Done(Ok(()));
            },
        };
        let mut stage: EvictStage = EvictStage::Over;
        std::mem::swap(&mut stage, &mut self.stage);
        match (stage, report) {
            (EvictStage::Looking, Report::State(Err(error))) => self.lose_actor(actor, error),
            (EvictStage::Looking, Report::State(Ok(before))) => {
                let removed: Vec<String> = split_members(&before.members, &self.dead, true);
                assert(text::texts(removed@).len() == removed@.len());
                if removed.len() == 0 {
                    self.finish()
                } else {
                    let (removal, order): (PublishRemoval, Order) = PublishRemoval::new(
                        &actor,
                        &self.dead,
                        &self.cursor(),
                    );
                    self.stage = EvictStage::Publishing(removal);
                    Next::Do(order)
                }
            },
            (EvictStage::Publishing(removal), report) => {
                let mut removal: PublishRemoval = removal;
                let ghost before = removal;
                let step: Next<Published> = removal.step(report);
                assert(before.next(given, removal, step));
                match step {
                    Next::Do(order) => {
                        self.stage = EvictStage::Publishing(removal);
                        Next::Do(order)
                    },
                    Next::Done(Ok(expected)) => self.handle(actor, expected),
                    Next::Done(Err(error)) => self.lose_actor(actor, error),
                }
            },
            (EvictStage::Handling { expected }, Report::Handled(Ok(_))) => self.spread_commit(
                actor,
                expected,
            ),
            (EvictStage::Handling { expected: _ }, Report::Handled(Err(error))) => self.lose_actor(
                actor,
                error,
            ),
            (EvictStage::Spreading, Report::Spread(Ok(_))) => self.finish(),
            (EvictStage::Spreading, Report::Spread(Err(error))) => {
                let order: Order = Order::RecordAll {
                    cursor: self.cursor(),
                    error: error.clone(),
                    action: "evict_oom_eviction_recipient_and_retry",
                    reassigned_to: Some(actor),
                };
                self.stage = EvictStage::LosingOthers { error: error };
                Next::Do(order)
            },
            (EvictStage::LosingActor { error }, Report::Recorded(Ok(goes_on))) => {
                if goes_on {
                    self.dead.insert(actor.id.as_str());
                    self.elect()
                } else {
                    self.fail(error)
                }
            },
            (EvictStage::LosingActor { error: _ }, Report::Recorded(Err(worse))) => self.fail(worse),
            (EvictStage::LosingOthers { error: _ }, Report::AllRecorded(Ok(Some(more)))) => {
                self.mourn(more.as_slice());
                self.elect()
            },
            (EvictStage::LosingOthers { error }, Report::AllRecorded(Ok(None))) => self.fail(error),
            (EvictStage::LosingOthers { error: _ }, Report::AllRecorded(Err(worse))) => self.fail(
                worse,
            ),
            (stage, _) => {
                self.stage = stage;
                Next::Do(Order::ShowState { worker: actor })
            },
        }
    }
}

/// How many workers are alive.
pub open spec fn alive(active: Seq<WorkerSpec>, dead: Set<Seq<char>>) -> nat {
    workers::those(active, task::outside(dead)).len()
}

proof fn lemma_fewer_alive(
    active: Seq<WorkerSpec>,
    dead: Set<Seq<char>>,
    more: Set<Seq<char>>,
    w: WorkerSpec,
)
    requires
        dead.subset_of(more),
    ensures
        alive(active, more) <= alive(active, dead),
        active.contains(w) && !dead.contains(w.id@) && more.contains(w.id@) ==> alive(active, more)
            < alive(active, dead),
    decreases active.len(),
{
    if active.len() > 0 {
        let front = active.drop_last();
        lemma_fewer_alive(front, dead, more, w);
        if active.contains(w) {
            let k = choose|k: int| 0 <= k < active.len() && active[k] == w;
            if k < front.len() {
                assert(front[k] == w);
            }
        }
    }
}

/// An eviction only takes workers out of the group, only those that died, and, where it succeeds,
/// all of them. Nobody that died comes back to life while it lasts, and where the actor dies fewer
/// workers are alive, so that the actors come to an end.
pub proof fn law_eviction(
    evict: Evict,
    report: Report,
    after: Evict,
    next: Next<Result<(), Failure>>,
)
    requires
        evict.wf(),
        evict.waits_for(report),
        evict.next(report, after, next),
    ensures
        evict.dead@.subset_of(after.dead@),
        succeeded(next) ==> after.active@ == workers::those(
            evict.active@,
            task::outside(after.dead@),
        ),
        !succeeded(next) ==> after.active@ == evict.active@,
        forall|w: WorkerSpec| #[trigger] after.active@.contains(w) ==> evict.active@.contains(w),
        evict.stage is LosingActor && next is Do ==> alive(evict.active@, after.dead@) < alive(
            evict.active@,
            evict.dead@,
        ),
{
    workers::lemma_those(evict.active@, task::outside(after.dead@));
    if evict.stage is LosingActor && next is Do {
        lemma_fewer_alive(evict.active@, evict.dead@, after.dead@, evict.actor->0);
    }
}

/// What ends the eviction of some workers, or leads on.
pub type Evicted = Next<Result<(), Failure>>;

/// An id is that of one of some workers.
pub open spec fn is_one_of(dead: Seq<WorkerSpec>, id: Seq<char>) -> bool {
    exists|k: int| 0 <= k < dead.len() && (#[trigger] dead[k]).id@ == id
}

proof fn lemma_ids(dead: Seq<WorkerSpec>, id: Seq<char>)
    ensures
        workers::ids(dead).to_set().contains(id) == is_one_of(dead, id),
{
    let ids = workers::ids(dead);
    if is_one_of(dead, id) {
        let k = choose|k: int| 0 <= k < dead.len() && (#[trigger] dead[k]).id@ == id;
        assert(ids[k] == id);
    }
    if ids.contains(id) {
        let k = choose|k: int| 0 <= k < ids.len() && ids[k] == id;
        assert(dead[k].id@ == id);
    }
}

/// An eviction that goes well, from its beginning to its end. A member that did not die is asked for
/// its state, twice, and then asked to remove all those that died and that it knows, by their ids, and
/// nobody else. It handles its own commit, which leads into the next epoch, without those that died.
/// After that each other member that did not die is told to handle the same commit, as often as it is a
/// member. In the end those that died are gone, and nobody else.
pub proof fn law_eviction_that_goes_well(
    active: Seq<WorkerSpec>,
    dead: Seq<WorkerSpec>,
    spread: Spread,
    plateau_size: usize,
    begun: Evict,
    show: Evicted,
    first: transport::GroupStateSnapshot,
    looking: Evict,
    again: Evicted,
    before: transport::GroupStateSnapshot,
    asked: Evict,
    remove: Evicted,
    response: CommandResponse,
    committed: Evict,
    handle: Evicted,
    handled: Evict,
    spreading: Evicted,
    ended: Evict,
    end: Evicted,
)
    requires
        begun.begun(active, dead, spread, plateau_size, show),
        dead.len() > 0,
        exists|i: int| 0 <= i < active.len() && !is_one_of(dead, (#[trigger] active[i]).id@),
        begun.next(Report::State(Ok(first)), looking, again),
        exists|i: int| 0 <= i < first@.members.len() && is_one_of(dead, #[trigger] first@.members[i]),
        looking.next(Report::State(Ok(before)), asked, remove),
        before.epoch < u64::MAX,
        forall|k: int| 0 <= k < dead.len() ==> before@.members.contains((#[trigger] dead[k]).id@),
        asked.next(Report::Answered(Ok(response)), committed, handle),
        response.status@ == "ok"@,
        text::occurs(response.message@, "removed locally; group commit published"@),
        committed.next(Report::Handled(Ok(())), handled, spreading),
        handled.next(Report::Spread(Ok(())), ended, end),
    ensures
        ({
            let actor = show->Do_0->ShowState_worker;
            &&& show matches Next::Do(Order::ShowState { worker }) && active.contains(worker)
                && !is_one_of(dead, worker.id@)
            &&& again matches Next::Do(Order::ShowState { worker }) && worker == actor
            &&& remove matches Next::Do(Order::Ask { worker, command, .. }) && worker == actor && (
            command@ matches command::CommandView::RemoveMembers { members } && forall|
                id: Seq<char>,
            | #[trigger]
                members.contains(id) <==> is_one_of(dead, id))
            &&& handle matches Next::Do(Order::Handle { worker, expected, pending, .. }) && worker
                == actor && pending == spread.pending && expected@.group_id == before@.group_id
                && expected@.epoch == before@.epoch + 1 && (forall|id: Seq<char>| #[trigger]
                expected@.members.contains(id) <==> before@.members.contains(id) && !is_one_of(
                    dead,
                    id,
                )) && (spreading matches Next::Do(Order::SpreadCommit { task, .. })
                && task.expected@ == expected@ && task.spread == spread && task.removed@ == Set::<
                Seq<char>,
            >::empty() && forall|w: WorkerSpec|
                workers::times(#[trigger] task.recipients@, w) == (if w.id@ == actor.id@
                    || is_one_of(dead, w.id@) {
                    0
                } else {
                    workers::times(active, w)
                }))
            &&& end matches Next::Done(Ok(_))
            &&& forall|w: WorkerSpec| #[trigger]
                workers::times(ended.active@, w) == (if is_one_of(dead, w.id@) {
                    0
                } else {
                    workers::times(active, w)
                })
        }),
{
    let gone = workers::ids(dead).to_set();
    assert forall|id: Seq<char>| #[trigger] gone.contains(id) == is_one_of(dead, id) by {
        lemma_ids(dead, id);
    }
    lemma_first_outside(active, gone);
    let i = choose|i: int| 0 <= i < active.len() && !is_one_of(dead, (#[trigger] active[i]).id@);
    assert(active.contains(active[i]));
    let actor = begun.actor->0;
    let known = choose|i: int|
        0 <= i < first@.members.len() && is_one_of(dead, #[trigger] first@.members[i]);
    lemma_members_in(first@.members, gone, true, first@.members[known]);
    assert(task::members_in(first@.members, gone, true).len() > 0);
    assert forall|id: Seq<char>| #[trigger] gone.contains(id) implies before@.members.contains(
        id,
    ) by {
        let k = choose|k: int| 0 <= k < dead.len() && (#[trigger] dead[k]).id@ == id;
        assert(before@.members.contains(dead[k].id@));
    }
    let removed = task::members_in(before@.members, gone, true);
    assert forall|id: Seq<char>| #[trigger] removed.contains(id) == is_one_of(dead, id) by {
        lemma_members_in(before@.members, gone, true, id);
        assert(gone.contains(id) == is_one_of(dead, id));
    }
    assert(is_one_of(dead, dead[0].id@));
    assert(removed.contains(dead[0].id@));
    let kept = task::members_in(before@.members, gone, false);
    lemma_ascending(kept);
    let removal = looking.stage->Publishing_0;
    let (then, step) = choose|then: PublishRemoval, step: Next<Published>| #[trigger]
        removal.next(Report::State(Ok(before)), then, step) && match step {
            Next::Do(order) => {
                &&& looking.stays(asked)
                &&& asked.stage == EvictStage::Publishing(then)
                &&& remove == Next::<Result<(), Failure>>::Do(order)
            },
            Next::Done(Ok(expected)) => looking.handles(expected@, asked, remove),
            Next::Done(Err(error)) => looking.loses_actor(error@, asked, remove),
        };
    assert(removal.knows_all(before@.members));
    assert(removal.removes(before@, then, step));
    let (then2, step2) = choose|then: PublishRemoval, step: Next<Published>| #[trigger]
        asked.stage->Publishing_0.next(Report::Answered(Ok(response)), then, step) && match step {
            Next::Do(order) => {
                &&& asked.stays(committed)
                &&& committed.stage == EvictStage::Publishing(then)
                &&& handle == Next::<Result<(), Failure>>::Do(order)
            },
            Next::Done(Ok(expected)) => asked.handles(expected@, committed, handle),
            Next::Done(Err(error)) => asked.loses_actor(error@, committed, handle),
        };
    let expected = handle->Do_0->Handle_expected;
    assert forall|id: Seq<char>| #[trigger] expected@.members.contains(id)
        <==> before@.members.contains(id) && !is_one_of(dead, id) by {
        lemma_members_in(before@.members, gone, false, id);
        assert(gone.contains(id) == is_one_of(dead, id));
    }
    let besides = gone.insert(actor.id@);
    assert forall|w: WorkerSpec| workers::times(
        #[trigger] workers::those(active, task::outside(besides)),
        w,
    ) == (if w.id@ == actor.id@ || is_one_of(dead, w.id@) {
        0
    } else {
        workers::times(active, w)
    }) by {
        workers::lemma_times_chosen(active, task::outside(besides), w);
        assert(gone.contains(w.id@) == is_one_of(dead, w.id@));
    }
    assert forall|w: WorkerSpec| #[trigger] workers::times(ended.active@, w) == (if is_one_of(
        dead,
        w.id@,
    ) {
        0
    } else {
        workers::times(active, w)
    }) by {
        workers::lemma_times_chosen(active, task::outside(gone), w);
        assert(gone.contains(w.id@) == is_one_of(dead, w.id@));
    }
}

/// Where the member that acts knows nobody of those that died, they are gone at once, and nobody is
/// asked to remove them. Where nobody died nothing is done. Where all died nobody can act, and the
/// eviction fails.
pub proof fn law_eviction_at_once(
    active: Seq<WorkerSpec>,
    dead: Seq<WorkerSpec>,
    spread: Spread,
    plateau_size: usize,
    begun: Evict,
    show: Evicted,
    before: transport::GroupStateSnapshot,
    ended: Evict,
    end: Evicted,
)
    requires
        begun.begun(active, dead, spread, plateau_size, show),
        show is Do ==> begun.next(Report::State(Ok(before)), ended, end),
    ensures
        dead.len() == 0 ==> (show matches Next::Done(Ok(_))) && begun.active@ == active,
        dead.len() > 0 && (forall|i: int|
            0 <= i < active.len() ==> is_one_of(dead, (#[trigger] active[i]).id@)) ==> (
        show matches Next::Done(Err(_))) && begun.active@ == active,
        dead.len() > 0 && (exists|i: int|
            0 <= i < active.len() && !is_one_of(dead, (#[trigger] active[i]).id@)) && (forall|
            i: int,
        |
            0 <= i < before@.members.len() ==> !is_one_of(dead, #[trigger] before@.members[i]))
            ==> (end matches Next::Done(Ok(_))) && forall|w: WorkerSpec| #[trigger]
            workers::times(ended.active@, w) == (if is_one_of(dead, w.id@) {
                0
            } else {
                workers::times(active, w)
            }),
{
    let gone = workers::ids(dead).to_set();
    assert forall|id: Seq<char>| #[trigger] gone.contains(id) == is_one_of(dead, id) by {
        lemma_ids(dead, id);
    }
    lemma_first_outside(active, gone);
    if dead.len() > 0 && exists|i: int|
        0 <= i < active.len() && !is_one_of(dead, (#[trigger] active[i]).id@) {
        let i = choose|i: int|
            0 <= i < active.len() && !is_one_of(dead, (#[trigger] active[i]).id@);
        assert(active.contains(active[i]));
        let known = task::members_in(before@.members, gone, true);
        if known.len() > 0 {
            lemma_members_in(before@.members, gone, true, known[0]);
            assert(known.contains(known[0]));
            let k = choose|k: int| 0 <= k < before@.members.len() && before@.members[k] == known[0];
            assert(is_one_of(dead, before@.members[k]));
        }
        assert forall|w: WorkerSpec| workers::times(
            #[trigger] workers::those(active, task::outside(gone)),
            w,
        ) == (if is_one_of(dead, w.id@) {
            0
        } else {
            workers::times(active, w)
        }) by {
            workers::lemma_times_chosen(active, task::outside(gone), w);
            assert(gone.contains(w.id@) == is_one_of(dead, w.id@));
        }
    }
}

/// Where the member that acts fails, its failure is written down, as it came. Where the run goes on, a
/// member acts that neither died nor is the one that failed, if there is one. Where it does not go on,
/// the eviction fails with what the member failed with.
pub proof fn law_eviction_whose_actor_fails(
    evict: Evict,
    error: Failure,
    report: Report,
    losing: Evict,
    record: Evicted,
    verdict: Result<bool, Failure>,
    after: Evict,
    next: Evicted,
)
    requires
        evict.wf(),
        evict.waits_for(report),
        ({
            ||| evict.stage is Looking && report == Report::State(Err(error))
            ||| evict.stage is Handling && report == Report::Handled(Err(error))
        }),
        evict.next(report, losing, record),
        losing.next(Report::Recorded(verdict), after, next),
    ensures
        ({
            let actor = evict.actor->0;
            let others = exists|i: int|
                0 <= i < evict.active@.len() && !evict.dead@.contains(
                    (#[trigger] evict.active@[i]).id@,
                ) && evict.active@[i].id@ != actor.id@;
            &&& record matches Next::Do(Order::Record { worker, error: e, reassigned_to, .. })
                && worker == actor && e@ == error@ && reassigned_to is Some == others
            &&& verdict matches Err(worse) ==> (next matches Next::Done(Err(e)) && e@ == worse@)
            &&& verdict == Ok::<bool, Failure>(false) ==> (next matches Next::Done(Err(e)) && e@
                == error@)
            &&& verdict == Ok::<bool, Failure>(true) ==> after.dead@.contains(actor.id@)
                && if others {
                next matches Next::Do(Order::ShowState { worker }) && evict.active@.contains(worker)
                    && worker.id@ != actor.id@ && !evict.dead@.contains(worker.id@)
                    && record->Do_0->Record_reassigned_to == Some(worker)
            } else {
                next matches Next::Done(Err(_))
            }
            &&& after.active@ == evict.active@
        }),
{
    let actor = evict.actor->0;
    let dead = evict.dead@.insert(actor.id@);
    lemma_first_outside(evict.active@, dead);
    if exists|i: int|
        0 <= i < evict.active@.len() && !evict.dead@.contains((#[trigger] evict.active@[i]).id@)
            && evict.active@[i].id@ != actor.id@ {
        let i = choose|i: int|
            0 <= i < evict.active@.len() && !evict.dead@.contains(
                (#[trigger] evict.active@[i]).id@,
            ) && evict.active@[i].id@ != actor.id@;
        assert(evict.active@.contains(evict.active@[i]));
    }
}

/// Where other members fail to handle the commit, their failures are written down. Where the run goes
/// on without some of them, they count as dead too, and a member acts that did not die. Where it does
/// not go on, the eviction fails with what they failed with.
pub proof fn law_eviction_whose_commit_is_not_handled(
    evict: Evict,
    error: Failure,
    losing: Evict,
    record: Evicted,
    verdict: Result<Option<Vec<WorkerSpec>>, Failure>,
    after: Evict,
    next: Evicted,
)
    requires
        evict.wf(),
        evict.stage is Spreading,
        evict.next(Report::Spread(Err(error)), losing, record),
        losing.next(Report::AllRecorded(verdict), after, next),
    ensures
        record matches Next::Do(Order::RecordAll { error: e, reassigned_to, .. }) && e@ == error@
            && reassigned_to == evict.actor,
        verdict matches Err(worse) ==> (next matches Next::Done(Err(e)) && e@ == worse@),
        verdict matches Ok(None) ==> (next matches Next::Done(Err(e)) && e@ == error@),
        verdict matches Ok(Some(more)) ==> {
            let lives = |w: WorkerSpec| !evict.dead@.contains(w.id@) && !is_one_of(more@, w.id@);
            &&& forall|id: Seq<char>| #[trigger]
                after.dead@.contains(id) <==> evict.dead@.contains(id) || is_one_of(more@, id)
            &&& if exists|i: int|
                0 <= i < evict.active@.len() && lives(#[trigger] evict.active@[i]) {
                next matches Next::Do(Order::ShowState { worker }) && evict.active@.contains(worker)
                    && lives(worker)
            } else {
                next matches Next::Done(Err(_))
            }
        },
        after.active@ == evict.active@,
{
    if let Ok(Some(more)) = verdict {
        let lives = |w: WorkerSpec| !evict.dead@.contains(w.id@) && !is_one_of(more@, w.id@);
        let dead = evict.dead@.union(workers::ids(more@).to_set());
        assert forall|id: Seq<char>| #[trigger] dead.contains(id) <==> evict.dead@.contains(id)
            || is_one_of(more@, id) by {
            lemma_ids(more@, id);
        }
        lemma_first_outside(evict.active@, dead);
        if exists|i: int| 0 <= i < evict.active@.len() && lives(#[trigger] evict.active@[i]) {
            let i = choose|i: int| 0 <= i < evict.active@.len() && lives(#[trigger] evict.active@[i]);
            assert(evict.active@.contains(evict.active@[i]));
        }
    }
}

/// A removal that keeps losing the race for the epoch is tried three times. Each time what waits is
/// handled first, and the state is asked for again; after the third time the removal fails.
pub proof fn law_removal_is_tried_three_times(
    removal: PublishRemoval,
    before: transport::GroupStateSnapshot,
    catching: PublishRemoval,
    catch_up: Next<Published>,
    answer: String,
    after: PublishRemoval,
    next: Next<Published>,
)
    requires
        removal.wf(),
        removal.stage is Looking,
        exists|id: Seq<char>| #[trigger]
            removal.dead@.contains(id) && !before@.members.contains(id),
        removal.next(Report::State(Ok(before)), catching, catch_up),
        catching.next(Report::Sent(Ok(answer)), after, next),
    ensures
        catch_up matches Next::Do(Order::Send { worker, command, .. }) && worker == removal.actor
            && (command@ matches command::CommandView::ProcessPending { kinds, .. } && kinds
            == Some(seq![PendingKind::Commits])),
        removal.attempt < 3 ==> after.attempt == removal.attempt + 1 && (
        next matches Next::Do(Order::ShowState { worker }) && worker == removal.actor),
        removal.attempt >= 3 ==> (next matches Next::Done(Err(_))),
{
}

/// Who acts in an eviction that begins is a member that did not die; where all died, nobody acts.
pub proof fn lemma_acts(active: Seq<WorkerSpec>, dead: Seq<WorkerSpec>)
    ensures
        match first_outside(active, workers::ids(dead).to_set()) {
            Some(w) => active.contains(w) && !is_one_of(dead, w.id@),
            None => forall|i: int|
                0 <= i < active.len() ==> is_one_of(dead, (#[trigger] active[i]).id@),
        },
        forall|id: Seq<char>| #[trigger]
            workers::ids(dead).to_set().contains(id) == is_one_of(dead, id),
{
    let gone = workers::ids(dead).to_set();
    assert forall|id: Seq<char>| #[trigger] gone.contains(id) == is_one_of(dead, id) by {
        lemma_ids(dead, id);
    }
    lemma_first_outside(active, gone);
}

} // verus!
