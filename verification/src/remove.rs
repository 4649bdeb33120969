//! Removing members from the group in one commit.

use rand::rngs::StdRng;
use std::collections::VecDeque;
use vstd::prelude::*;

use crate::add;
use crate::batch::MembershipBatchDecision;
use crate::command;
use crate::command::{BenchmarkCursor, Command};
use crate::draw;
use crate::draw::draw_below;
use crate::evict;
use crate::evict::Evict;
use crate::expect;
use crate::expect::{debug_texts, expected_group_state, ExpectedGroupState};
use crate::failure;
use crate::failure::Failure;
use crate::order;
use crate::roles;
use crate::roles::choose_remove_actor_and_removable_indices;
use crate::table::{id_set, IdSet};
use crate::task;
use crate::task::{first_other, split_members, CommitFanout, Next, Order, Report, Spread};
use crate::text;
use crate::text::{copy_texts, decimal_text, str_eq};
use crate::transport;
use crate::workers;
use crate::workers::{copies_of, ids_of, WorkerSpec};

verus! {

// ---------------------------------------------------------------------------
// Who leaves
// ---------------------------------------------------------------------------

/// A list without the item at a place; the last item takes that place.
pub open spec fn swapped_out(list: Seq<usize>, at: int) -> Seq<usize> {
    list.update(at, list.last()).drop_last()
}

/// Places drawn from a list one after the other, and the state of the generator after that.
pub open spec fn drawn_places(places: Seq<usize>, n: nat, state: int) -> (Seq<usize>, int)
    decreases n,
{
    if n == 0 {
        (Seq::empty(), state)
    } else {
        let at = draw::draw_at(state, 0, places.len() - 1);
        let (more, end) = drawn_places(
            swapped_out(places, at),
            (n - 1) as nat,
            draw::state_after_draw(state, 0, places.len() - 1),
        );
        (seq![places[at]] + more, end)
    }
}

/// Draws places from a list one after the other.
fn draw_places(places: Vec<usize>, n: usize, rng: &mut StdRng) -> (chosen: Vec<usize>)
    requires
        n <= places@.len(),
        places@.no_duplicates(),
    ensures
        (chosen@, draw::generator_state(*final(rng))) == drawn_places(
            places@,
            n as nat,
            draw::generator_state(*old(rng)),
        ),
        chosen@.len() == n,
        chosen@.no_duplicates(),
        forall|k: int| 0 <= k < chosen@.len() ==> places@.contains(#[trigger] chosen@[k]),
{
    let ghost all = places@;
    let ghost first = draw::generator_state(*rng);
    let mut left: Vec<usize> = places;
    let mut chosen: Vec<usize> = Vec::new();
    assert(chosen@ + drawn_places(all, n as nat, first).0 =~= drawn_places(all, n as nat, first).0);
    while chosen.len() < n
        invariant
            chosen@.len() <= n <= all.len(),
            left@.len() + chosen@.len() == all.len(),
            (
                chosen@ + drawn_places(
                    left@,
                    (n - chosen@.len()) as nat,
                    draw::generator_state(*rng),
                ).0,
                drawn_places(left@, (n - chosen@.len()) as nat, draw::generator_state(*rng)).1,
            ) == drawn_places(all, n as nat, first),
            left@.no_duplicates(),
            chosen@.no_duplicates(),
            forall|k: int| 0 <= k < chosen@.len() ==> all.contains(#[trigger] chosen@[k]),
            forall|k: int| 0 <= k < left@.len() ==> all.contains(#[trigger] left@[k]),
            forall|k: int| 0 <= k < left@.len() ==> !chosen@.contains(#[trigger] left@[k]),
        decreases n - chosen@.len(),
    {
        let ghost left_before = left@;
        let ghost chosen_before = chosen@;
        let at: usize = draw_below(rng, left.len());
        let place: usize = left.swap_remove(at);
        assert(left@ == swapped_out(left_before, at as int));
        chosen.push(place);
        proof {
            let rest = drawn_places(
                left@,
                (n - chosen@.len()) as nat,
                draw::generator_state(*rng),
            );
            assert(chosen@ + rest.0 =~= chosen_before + (seq![place] + rest.0));
            assert forall|k: int| 0 <= k < left@.len() implies all.contains(#[trigger] left@[k])
                && !chosen@.contains(left@[k]) by {
                let from = if k == at { left_before.len() - 1 } else { k };
                assert(left@[k] == left_before[from]);
                assert(left_before[from] != place);
                if chosen@.contains(left@[k]) {
                    let j = choose|j: int| 0 <= j < chosen@.len() && chosen@[j] == left@[k];
                    assert(j < chosen_before.len());
                    assert(chosen_before[j] == left_before[from]);
                }
            }
            assert forall|j: int, k: int| 0 <= j < k < left@.len() implies left@[j] != left@[k] by {
                let x = if j == at { left_before.len() - 1 } else { j };
                let y = if k == at { left_before.len() - 1 } else { k };
                assert(left@[j] == left_before[x]);
                assert(left@[k] == left_before[y]);
            }
            assert forall|j: int, k: int| 0 <= j < k < chosen@.len() implies chosen@[j]
                != chosen@[k] by {
                if k == chosen_before.len() {
                    assert(left_before[at as int] == place);
                    assert(!chosen_before.contains(place));
                    assert(chosen_before[j] == chosen@[j]);
                }
            }
            assert forall|k: int| 0 <= k < chosen@.len() implies all.contains(
                #[trigger] chosen@[k],
            ) by {
                if k == chosen_before.len() {
                    assert(left_before[at as int] == place);
                } else {
                    assert(chosen_before[k] == chosen@[k]);
                }
            }
        }
    }
    assert(chosen@ + drawn_places(left@, 0, draw::generator_state(*rng)).0 =~= chosen@);
    chosen
}

/// The workers at places of a list.
pub open spec fn at_places(active: Seq<WorkerSpec>, places: Seq<usize>) -> Seq<WorkerSpec> {
    places.map_values(|at: usize| active[at as int])
}

/// The place of the member that removes others.
pub open spec fn remover_at(
    active: Seq<WorkerSpec>,
    forced: Option<Seq<char>>,
    devices: bool,
    measured: bool,
    batch: usize,
    state: int,
    at: usize,
) -> bool {
    if forced is Some && workers::has_id(active, forced->0) {
        roles::first_with_id(active, forced->0, at as int)
    } else {
        let actors = roles::removal_actors(active, devices, measured, batch as int);
        at == actors[draw::draw_at(state, 0, actors.len() - 1)]
    }
}

/// The state of the generator once the member that removes others is chosen.
pub open spec fn state_after_choice(
    active: Seq<WorkerSpec>,
    forced: Option<Seq<char>>,
    devices: bool,
    measured: bool,
    batch: usize,
    state: int,
) -> int {
    if forced is Some && workers::has_id(active, forced->0) {
        state
    } else {
        draw::state_after_draw(
            state,
            0,
            roles::removal_actors(active, devices, measured, batch as int).len() - 1,
        )
    }
}

// ---------------------------------------------------------------------------
// The removal
// ---------------------------------------------------------------------------

/// How far a removal is.
#[derive(Debug)]
pub enum RemoveStage {
    /// The actor's state is asked for.
    Looking,
    /// The actor removes the members.
    Committing { expected: ExpectedGroupState },
    /// The actor failed; its failure is written down.
    LosingActor { error: Failure },
    /// The actor is taken out.
    Evicting(Evict),
    /// The actor handles its own commit.
    Handling { expected: ExpectedGroupState },
    /// The other members, also those that leave, handle the commit.
    Spreading,
    /// The work is reported.
    Reporting,
    /// Nothing is left to do.
    Over,
}

/// The removal of members in one commit.
#[derive(Debug)]
pub struct RemoveMembers {
    pub active: Vec<WorkerSpec>,
    pub idle: VecDeque<WorkerSpec>,
    pub decision: MembershipBatchDecision,
    pub spread: Spread,
    pub plateau_size: usize,
    pub actor: Option<WorkerSpec>,
    pub actor_idx: usize,
    /// The places of the members that leave.
    pub places: Vec<usize>,
    pub removed: Vec<WorkerSpec>,
    pub removed_ids: Vec<String>,
    pub removed_set: IdSet,
    pub stage: RemoveStage,
}

/// What a removal leads to.
pub type Removed = Next<Result<(), Failure>>;

/// Why a removal cannot begin.
pub open spec fn remove_refused(active: nat, batch: nat) -> Option<Seq<char>> {
    if active <= 1 {
        Some("Cannot remove the last remaining member"@)
    } else if batch == 0 {
        Some("Cannot remove zero members"@)
    } else if batch >= active {
        Some(
            "Requested remove batch of "@ + text::decimal(batch) + " members from "@
                + text::decimal(active)
                + " active members; actor self-removal is not supported"@,
        )
    } else {
        None
    }
}

/// Why a removal cannot begin: all others are protected.
pub open spec fn all_protected(active: nat, actor: Seq<char>) -> Seq<char> {
    "Cannot remove any member from "@ + text::decimal(active)
        + " active members without removing protected clients; actor="@ + actor
}

fn refuse_remove(active: usize, batch: usize) -> (refused: Option<String>)
    ensures
        text::maybe(refused) == remove_refused(active as nat, batch as nat),
{
    if active <= 1 {
        Some("Cannot remove the last remaining member".to_owned())
    } else if batch == 0 {
        Some("Cannot remove zero members".to_owned())
    } else if batch >= active {
        let mut out: String = "Requested remove batch of ".to_owned();
        out.append(decimal_text(batch as u128).as_str());
        out.append(" members from ");
        out.append(decimal_text(active as u128).as_str());
        out.append(" active members; actor self-removal is not supported");
        Some(out)
    } else {
        None
    }
}

/// The smaller of two counts.
pub open spec fn smaller(a: nat, b: nat) -> nat {
    if a < b {
        a
    } else {
        b
    }
}

impl RemoveMembers {
    /// The place in the run.
    pub open spec fn marks(self) -> command::Marks {
        command::Marks::at(
            self.plateau_size,
            self.plateau_size,
            self.active@.len() as usize,
            "membership_remove"@,
            "remove_commit"@,
        ).batched(self.decision)
    }

    /// Those that leave are members at different places, none of them the actor.
    pub open spec fn wf(self) -> bool {
        &&& self.removed_set@ == workers::ids(self.removed@).to_set()
        &&& text::texts(self.removed_ids@) == workers::ids(self.removed@)
        &&& !(self.stage is Over || self.stage is Reporting) ==> {
            &&& self.actor is Some
            &&& self.actor_idx < self.active@.len()
            &&& self.actor->0 == self.active@[self.actor_idx as int]
            &&& self.places@.no_duplicates()
            &&& !self.places@.contains(self.actor_idx)
            &&& forall|k: int|
                0 <= k < self.places@.len() ==> (#[trigger] self.places@[k]) < self.active@.len()
            &&& self.removed@ == at_places(self.active@, self.places@)
        }
        &&& self.stage matches RemoveStage::Evicting(evict) ==> evict.wf() && evict.active@
            == self.active@
    }

    /// The report is one that the stage waits for.
    pub open spec fn waits_for(self, report: Report) -> bool {
        match self.stage {
            RemoveStage::Looking => report.is_state(),
            RemoveStage::Committing { expected: _ } => report is Sent,
            RemoveStage::LosingActor { error: _ } => report is Recorded,
            RemoveStage::Evicting(evict) => evict.waits_for(report),
            RemoveStage::Handling { expected: _ } => report is Handled,
            RemoveStage::Spreading => report is Spread,
            RemoveStage::Reporting => report is Ticked,
            RemoveStage::Over => false,
        }
    }

    /// What does not change.
    pub open spec fn same_task(self, other: RemoveMembers) -> bool {
        &&& self.decision == other.decision
        &&& self.spread == other.spread
        &&& self.plateau_size == other.plateau_size
        &&& self.actor == other.actor
        &&& self.actor_idx == other.actor_idx
        &&& self.places@ == other.places@
        &&& self.removed@ == other.removed@
    }

    /// The members and the idle workers stay.
    pub open spec fn stays(self, after: RemoveMembers) -> bool {
        &&& after.active@ == self.active@
        &&& after.idle@ == self.idle@
    }

    /// The removal failed.
    pub open spec fn fails(
        self,
        error: failure::FailureView,
        after: RemoveMembers,
        next: Removed,
    ) -> bool {
        &&& self.stays(after)
        &&& after.stage is Over
        &&& evict::failed(next, error)
    }

    /// The state of the group without those that leave.
    pub open spec fn without_removed(self, before: transport::StateView) -> transport::StateView {
        transport::StateView {
            group_id: before.group_id,
            epoch: (before.epoch + 1) as u64,
            members: order::ascending(
                task::members_in(before.members, workers::ids(self.removed@).to_set(), false),
            ),
        }
    }

    /// The label of the work that is done.
    pub open spec fn label(self) -> Seq<char> {
        "remove "@ + text::decimal(self.removed@.len()) + " member(s) "@ + expect::debug_shown(
            workers::ids(self.removed@),
        ) + " actor="@ + self.actor->0.id@
    }

    /// How far the removal is after a report, and what is done then.
    pub open spec fn next(self, report: Report, after: RemoveMembers, next: Removed) -> bool {
        &&& after.same_task(self)
        &&& match (self.stage, report) {
            (RemoveStage::Looking, Report::State(Err(error))) => self.fails(error@, after, next),
            (RemoveStage::Looking, Report::State(Ok(before))) => {
                &&& self.stays(after)
                &&& after.stage is Committing
                &&& after.stage->Committing_expected@ == self.without_removed(before@)
                &&& next is Do
                &&& next->Do_0.sends(
                    self.actor->0,
                    command::CommandView::RemoveMembers { members: workers::ids(self.removed@) },
                    "removed locally; group commit published"@,
                    Some("remove_member.create"@),
                    self.marks(),
                )
            },
            (RemoveStage::Committing { expected: _ }, Report::Sent(Err(error))) => {
                &&& self.stays(after)
                &&& after.stage is LosingActor
                &&& after.stage->LosingActor_error@ == error@
                &&& next is Do
                &&& next->Do_0.records(
                    self.marks(),
                    self.actor->0,
                    error@,
                    "evict_remove_actor_and_retry"@,
                    task::other_than(self.active@, self.actor->0.id@),
                )
            },
            (RemoveStage::Committing { expected }, Report::Sent(Ok(_))) => {
                &&& self.stays(after)
                &&& after.stage is Handling
                &&& after.stage->Handling_expected@ == expected@
                &&& next is Do
                &&& next->Do_0.handles(
                    self.actor->0,
                    expected@,
                    self.spread.pending,
                    if self.spread.pending {
                        "remove_member.actor_process_pending"@
                    } else {
                        "remove_member.actor_receive_commit"@
                    },
                    self.marks(),
                )
            },
            (RemoveStage::LosingActor { error }, Report::Recorded(Ok(goes_on))) => if goes_on {
                &&& self.stays(after)
                &&& add::begins_eviction(
                    self.active@,
                    seq![self.actor->0],
                    self.spread,
                    self.plateau_size,
                    match after.stage {
                        RemoveStage::Evicting(evict) => Some(evict),
                        _ => None,
                    },
                    after.stage is Over,
                    next,
                )
            } else {
                self.fails(error@, after, next)
            },
            (RemoveStage::LosingActor { error: _ }, Report::Recorded(Err(worse))) => self.fails(
                worse@,
                after,
                next,
            ),
            (RemoveStage::Evicting(evict), _) => exists|then: Evict, step: Removed| #[trigger]
                evict.next(report, then, step) && match step {
                    Next::Do(_) => {
                        &&& self.stays(after)
                        &&& after.stage == RemoveStage::Evicting(then)
                        &&& next == step
                    },
                    Next::Done(Ok(_)) => {
                        &&& after.active@ == then.active@
                        &&& after.idle@ == self.idle@
                        &&& after.stage is Over
                        &&& evict::succeeded(next)
                    },
                    Next::Done(Err(error)) => self.fails(error@, after, next),
                },
            (RemoveStage::Handling { expected: _ }, Report::Handled(Err(error))) => self.fails(
                error@,
                after,
                next,
            ),
            (RemoveStage::Handling { expected }, Report::Handled(Ok(_))) => {
                &&& self.stays(after)
                &&& after.stage is Spreading
                &&& next is Do
                &&& next->Do_0.spreads(
                    "remove_member"@,
                    self.active@.len() as usize,
                    "receive_commit"@,
                    workers::those(self.active@, task::outside(set![self.actor->0.id@])),
                    workers::ids(self.removed@).to_set(),
                    expected@,
                    self.spread,
                    "remove"@,
                    self.plateau_size,
                    0,
                    if self.spread.pending {
                        "remove_member.fanout_process_pending"@
                    } else {
                        "remove_member.fanout_receive_commit"@
                    },
                    self.marks(),
                )
            },
            (RemoveStage::Spreading, Report::Spread(Err(error))) => self.fails(error@, after, next),
            (RemoveStage::Spreading, Report::Spread(Ok(_))) => {
                &&& after.active@ == workers::those(
                    self.active@,
                    task::outside(workers::ids(self.removed@).to_set()),
                )
                &&& after.idle@ == self.removed@.reverse() + self.idle@
                &&& after.stage is Reporting
                &&& next is Do
                &&& next->Do_0.ticks(self.removed@.len() as usize, self.label())
            },
            (RemoveStage::Reporting, Report::Ticked) => {
                &&& self.stays(after)
                &&& after.stage is Over
                &&& evict::succeeded(next)
            },
            _ => true,
        }
    }

    /// A removal that has begun, or could not begin.
    pub open spec fn started(
        self,
        active: Seq<WorkerSpec>,
        idle: Seq<WorkerSpec>,
        decision: MembershipBatchDecision,
        spread: Spread,
        forced: Option<Seq<char>>,
        devices: bool,
        measured: bool,
        plateau_size: usize,
        state: int,
        next: Removed,
        state_after: int,
    ) -> bool {
        &&& self.wf()
        &&& self.active@ == active
        &&& self.idle@ == idle
        &&& self.spread == spread
        &&& self.plateau_size == plateau_size
        &&& match remove_refused(active.len(), decision.effective as nat) {
            Some(why) => {
                &&& self.stage is Over
                &&& evict::failed(next, failure::plain(why))
                &&& state_after == state
            },
            None => {
                let chosen = state_after_choice(
                    active,
                    forced,
                    devices,
                    measured,
                    decision.effective,
                    state,
                );
                let actor = active[self.actor_idx as int];
                let free = roles::removable(active, self.actor_idx as int, devices, measured);
                let n = smaller(decision.effective as nat, free.len());
                &&& remover_at(
                    active,
                    forced,
                    devices,
                    measured,
                    decision.effective,
                    state,
                    self.actor_idx,
                )
                &&& self.actor_idx < active.len()
                &&& if free.len() == 0 {
                    &&& self.stage is Over
                    &&& evict::failed(
                        next,
                        failure::plain(all_protected(active.len(), actor.id@)),
                    )
                    &&& state_after == chosen
                } else {
                    &&& self.decision == (MembershipBatchDecision {
                        effective: n as usize,
                        ..decision
                    })
                    &&& self.actor == Some(actor)
                    &&& (self.places@, state_after) == drawn_places(free, n, chosen)
                    &&& self.places@.len() == n
                    &&& self.removed@ == at_places(active, self.places@)
                    &&& forall|k: int|
                        0 <= k < n ==> !roles::protected(devices, measured)(
                            #[trigger] self.removed@[k],
                        )
                    &&& self.stage is Looking
                    &&& next is Do
                    &&& next->Do_0.shows(actor)
                }
            },
        }
    }

    /// Begins a removal. At most as many members leave as are not protected.
    pub fn start(
        active: Vec<WorkerSpec>,
        idle: VecDeque<WorkerSpec>,
        decision: MembershipBatchDecision,
        spread: Spread,
        forced_actor_id: Option<&str>,
        protect_external_members: bool,
        protect_profile_enabled_members: bool,
        plateau_size: usize,
        rng: &mut StdRng,
    ) -> (made: (RemoveMembers, Removed))
        ensures
            made.0.wf(),
            made.0.started(
                active@,
                idle@,
                decision,
                spread,
                text::named(forced_actor_id),
                protect_external_members,
                protect_profile_enabled_members,
                plateau_size,
                draw::generator_state(*old(rng)),
                made.1,
                draw::generator_state(*final(rng)),
            ),
    {
        let batch: usize = decision.effective;
        let mut remove: RemoveMembers = RemoveMembers {
            active: active,
            idle: idle,
            decision: decision,
            spread: spread,
            plateau_size: plateau_size,
            actor: None,
            actor_idx: 0,
            places: Vec::new(),
            removed: Vec::new(),
            removed_ids: Vec::new(),
            removed_set: IdSet::new(),
            stage: RemoveStage::Over,
        };
        assert(workers::ids(remove.removed@) =~= Seq::<Seq<char>>::empty());
        assert(text::texts(remove.removed_ids@) =~= Seq::<Seq<char>>::empty());
        assert(workers::ids(remove.removed@).to_set() =~= Set::<Seq<char>>::empty());
        if let Some(why) = refuse_remove(remove.active.len(), batch) {
            return (remove, Next::Done(Err(Failure::plain(why))));
        }
        let (actor_idx, free): (usize, Vec<usize>) =
            match choose_remove_actor_and_removable_indices(
            remove.active.as_slice(),
            forced_actor_id,
            protect_external_members,
            protect_profile_enabled_members,
            batch,
            rng,
        ) {
            Some(chosen) => chosen,
            None => {
                return (remove, Next::Done(Ok(())));
            },
        };
        proof {
            roles::law_removable(
                active@,
                actor_idx as int,
                protect_external_members,
                protect_profile_enabled_members,
            );
        }
        let actor: WorkerSpec = remove.active[actor_idx].clone();
        remove.actor_idx = actor_idx;
        if free.len() == 0 {
            let mut why: String = "Cannot remove any member from ".to_owned();
            why.append(decimal_text(remove.active.len() as u128).as_str());
            why.append(" active members without removing protected clients; actor=");
            why.append(actor.id.as_str());
            return (remove, Next::Done(Err(Failure::plain(why))));
        }
        let n: usize = if free.len() < batch {
            free.len()
        } else {
            batch
        };
        let ghost free_places = free@;
        let places: Vec<usize> = draw_places(free, n, rng);
        let mut removed: Vec<WorkerSpec> = Vec::new();
        let mut i: usize = 0;
        while i < places.len()
            invariant
                i <= places@.len(),
                remove.active@ == active@,
                forall|k: int| 0 <= k < places@.len() ==> (#[trigger] places@[k]) < active@.len(),
                removed@.len() == i,
                forall|k: int| 0 <= k < i ==> #[trigger] removed@[k] == active@[places@[k] as int],
            decreases places@.len() - i,
        {
            removed.push(remove.active[places[i]].clone());
            i = i + 1;
        }
        assert(removed@ =~= at_places(active@, places@));
        remove.decision.effective = n;
        remove.actor = Some(actor.clone());
        remove.places = places;
        remove.removed_ids = ids_of(removed.as_slice());
        remove.removed_set = id_set(&remove.removed_ids);
        remove.removed = removed;
        remove.stage = RemoveStage::Looking;
        proof {
            assert forall|k: int| 0 <= k < n implies !roles::protected(
                protect_external_members,
                protect_profile_enabled_members,
            )(#[trigger] remove.removed@[k]) by {
                assert(free_places.contains(remove.places@[k]));
            }
            if remove.places@.contains(actor_idx) {
                let k = choose|k: int|
                    0 <= k < remove.places@.len() && remove.places@[k] == actor_idx;
                assert(free_places.contains(remove.places@[k]));
            }
        }
        (remove, Next::Do(Order::ShowState { worker: actor }))
    }

    fn cursor(&self) -> (cursor: BenchmarkCursor)
        ensures
            cursor@ == self.marks(),
    {
        BenchmarkCursor::new(
            self.plateau_size,
            self.plateau_size,
            self.active.len(),
            "membership_remove",
            "remove_commit",
        ).with_membership_batch(&self.decision)
    }

    fn fail(&mut self, error: Failure) -> (next: Removed)
        requires
            old(self).removed_set@ == workers::ids(old(self).removed@).to_set(),
            text::texts(old(self).removed_ids@) == workers::ids(old(self).removed@),
        ensures
            final(self).wf(),
            final(self).same_task(*old(self)),
            old(self).fails(error@, *final(self), next),
    {
        self.stage = RemoveStage::Over;
        Next::Done(Err(error))
    }

    fn finish(&mut self, actor: WorkerSpec) -> (next: Removed)
        requires
            old(self).removed_set@ == workers::ids(old(self).removed@).to_set(),
            text::texts(old(self).removed_ids@) == workers::ids(old(self).removed@),
            old(self).actor == Some(actor),
        ensures
            final(self).wf(),
            final(self).same_task(*old(self)),
            final(self).active@ == workers::those(
                old(self).active@,
                task::outside(workers::ids(old(self).removed@).to_set()),
            ),
            final(self).idle@ == old(self).removed@.reverse() + old(self).idle@,
            final(self).stage is Reporting,
            next is Do,
            next->Do_0.ticks(old(self).removed@.len() as usize, old(self).label()),
    {
        let ghost start = *self;
        let removed_set: &IdSet = &self.removed_set;
        let keep = |w: &WorkerSpec| -> (yes: bool)
            ensures
                yes == !removed_set@.contains(w.id@),
        { !removed_set.contains(w.id.as_str()) };
        let left: Vec<WorkerSpec> = copies_of(
            self.active.as_slice(),
            keep,
            Ghost(task::outside(self.removed_set@)),
        );
        let mut i: usize = 0;
        assert(start.removed@.take(0).reverse() + start.idle@ =~= start.idle@);
        while i < self.removed.len()
            invariant
                i <= self.removed@.len(),
                start == *old(self),
                *self == (RemoveMembers { idle: self.idle, ..start }),
                self.idle@ == start.removed@.take(i as int).reverse() + start.idle@,
            decreases self.removed@.len() - i,
        {
            self.idle.push_front(self.removed[i].clone());
            i = i + 1;
            assert(self.idle@ =~= start.removed@.take(i as int).reverse() + start.idle@);
        }
        assert(start.removed@.take(i as int) =~= start.removed@);
        self.active = left;
        let mut label: String = "remove ".to_owned();
        label.append(decimal_text(self.removed.len() as u128).as_str());
        label.append(" member(s) ");
        label.append(debug_texts(&self.removed_ids).as_str());
        label.append(" actor=");
        label.append(actor.id.as_str());
        self.stage = RemoveStage::Reporting;
        Next::Do(Order::Tick { units: self.removed.len(), label: label })
    }

    /// What is done after a report.
    #[verifier::rlimit(40)]
    pub fn step(&mut self, report: Report) -> (next: Removed)
        requires
            old(self).wf(),
            old(self).waits_for(report),
        ensures
            final(self).wf(),
            old(self).next(report, *final(self), next),
    {
        let ghost given = report;
        let actor: WorkerSpec = match &self.actor {
            Some(actor) => actor.clone(),
            None => {
                self.stage = RemoveStage::Over;
                return Next::Done(Ok(()));
            },
        };
        let mut stage: RemoveStage = RemoveStage::Over;
        std::mem::swap(&mut stage, &mut self.stage);
        match (stage, report) {
            (RemoveStage::Looking, Report::State(Err(error))) => self.fail(error),
            (RemoveStage::Looking, Report::State(Ok(before))) => {
                let members: Vec<String> = split_members(&before.members, &self.removed_set, false);
                let expected: ExpectedGroupState = expected_group_state(
                    &before,
                    before.epoch + 1,
                    &members,
                );
                let order: Order = Order::Send {
                    worker: actor,
                    command: Command::RemoveMembers { members: copy_texts(&self.removed_ids) },
                    ok_fragment: "removed locally; group commit published".to_owned(),
                    phase: Some("remove_member.create".to_owned()),
                    cursor: Some(self.cursor()),
                };
                self.stage = RemoveStage::Committing { expected: expected };
                Next::Do(order)
            },
            (RemoveStage::Committing { expected: _ }, Report::Sent(Err(error))) => {
                let other: Option<WorkerSpec> = first_other(
                    self.active.as_slice(),
                    actor.id.as_str(),
                );
                let order: Order = Order::Record {
                    cursor: self.cursor(),
                    worker: actor,
                    error: error.clone(),
                    action: "evict_remove_actor_and_retry",
                    reassigned_to: other,
                };
                self.stage = RemoveStage::LosingActor { error: error };
                Next::Do(order)
            },
            (RemoveStage::Committing { expected }, Report::Sent(Ok(_))) => {
                let order: Order = Order::Handle {
                    worker: actor,
                    expected: expected.clone(),
                    pending: self.spread.pending,
                    phase: if self.spread.pending {
                        "remove_member.actor_process_pending"
                    } else {
                        "remove_member.actor_receive_commit"
                    },
                    cursor: self.cursor(),
                };
                self.stage = RemoveStage::Handling { expected: expected };
                Next::Do(order)
            },
            (RemoveStage::LosingActor { error }, Report::Recorded(Ok(goes_on))) => {
                if goes_on {
                    let dead: Vec<WorkerSpec> = vec![actor];
                    assert(dead@ =~= seq![self.actor->0]);
                    let (evict, next): (Evict, Removed) = Evict::start(
                        self.active.as_slice(),
                        dead.as_slice(),
                        self.spread,
                        self.plateau_size,
                    );
                    self.stage = match &next {
                        Next::Do(_) => RemoveStage::Evicting(evict),
                        Next::Done(_) => RemoveStage::Over,
                    };
                    next
                } else {
                    self.fail(error)
                }
            },
            (RemoveStage::LosingActor { error: _ }, Report::Recorded(Err(worse))) => self.fail(
                worse,
            ),
            (RemoveStage::Evicting(evict), report) => {
                let mut evict: Evict = evict;
                let ghost before = evict;
                let step: Removed = evict.step(report);
                assert(before.next(given, evict, step));
                match step {
                    Next::Do(order) => {
                        proof {
                            evict::law_eviction(before, given, evict, step);
                        }
                        self.stage = RemoveStage::Evicting(evict);
                        Next::Do(order)
                    },
                    Next::Done(Ok(_)) => {
                        self.active = evict.active;
                        Next::Done(Ok(()))
                    },
                    Next::Done(Err(error)) => self.fail(error),
                }
            },
            (RemoveStage::Handling { expected: _ }, Report::Handled(Err(error))) => self.fail(error),
            (RemoveStage::Handling { expected }, Report::Handled(Ok(_))) => {
                let keep = |w: &WorkerSpec| -> (yes: bool)
                    ensures
                        yes == !set![actor.id@].contains(w.id@),
                { !str_eq(w.id.as_str(), actor.id.as_str()) };
                let recipients: Vec<WorkerSpec> = copies_of(
                    self.active.as_slice(),
                    keep,
                    Ghost(task::outside(set![actor.id@])),
                );
                let order: Order = Order::SpreadCommit {
                    phase: "remove_member",
                    group_size: self.active.len(),
                    operation: "receive_commit",
                    task: CommitFanout {
                        recipients: recipients,
                        removed: self.removed_set.copy(),
                        expected: expected,
                        spread: self.spread,
                        create_op: "remove",
                        plateau_size: self.plateau_size,
                        seq_no: 0,
                        phase: if self.spread.pending {
                            "remove_member.fanout_process_pending"
                        } else {
                            "remove_member.fanout_receive_commit"
                        },
                        cursor: self.cursor(),
                    },
                };
                self.stage = RemoveStage::Spreading;
                Next::Do(order)
            },
            (RemoveStage::Spreading, Report::Spread(Err(error))) => self.fail(error),
            (RemoveStage::Spreading, Report::Spread(Ok(_))) => self.finish(actor),
            (RemoveStage::Reporting, Report::Ticked) => Next::Done(Ok(())),
            (stage, _) => {
                self.stage = stage;
                Next::Done(Ok(()))
            },
        }
    }

    /// How often a worker is held, as a member or as an idle worker.
    pub open spec fn held(self, w: WorkerSpec) -> nat {
        workers::times(self.active@, w) + workers::times(self.idle@, w)
    }
}

proof fn lemma_times_at_places(active: Seq<WorkerSpec>, places: Seq<usize>, w: WorkerSpec)
    requires
        active.len() <= usize::MAX,
        places.no_duplicates(),
        forall|k: int| 0 <= k < places.len() ==> (#[trigger] places[k]) < active.len(),
    ensures
        workers::times(at_places(active, places), w) <= workers::times(active, w),
    decreases active.len(),
{
    let chosen = at_places(active, places);
    if active.len() == 0 {
        workers::lemma_times_none(chosen, w);
        if places.len() > 0 {
            assert(places[0] < active.len());
        }
    } else {
        let last = (active.len() - 1) as usize;
        let front = active.drop_last();
        assert(active =~= front.push(active.last()));
        workers::lemma_times_pushed(front, active.last(), w);
        if places.contains(last) {
            let k = choose|k: int| 0 <= k < places.len() && places[k] == last;
            let rest = places.remove(k);
            assert forall|i: int| 0 <= i < rest.len() implies (#[trigger] rest[i]) < front.len() by {
                let from = if i < k { i } else { i + 1 };
                assert(rest[i] == places[from]);
                assert(places[from] != places[k]);
            }
            lemma_times_at_places(front, rest, w);
            assert(at_places(front, rest) =~= chosen.remove(k));
            chosen.to_multiset_ensures();
            assert(chosen.remove(k).to_multiset() =~= chosen.to_multiset().remove(chosen[k]));
            workers::lemma_times_none(chosen, chosen[k]);
            assert(chosen.contains(chosen[k]));
        } else {
            assert forall|i: int| 0 <= i < places.len() implies (#[trigger] places[i])
                < front.len() by {
                assert(places.contains(places[i]));
            }
            lemma_times_at_places(front, places, w);
            assert(at_places(front, places) =~= chosen);
        }
    }
}

/// A removal makes no worker up and puts none in two places: no worker is held more often after a
/// step than before it. Where no two members have the same id, a removal that goes through loses
/// nobody either, and the actor stays a member.
pub proof fn law_removal_keeps_workers(
    remove: RemoveMembers,
    report: Report,
    after: RemoveMembers,
    next: Removed,
    w: WorkerSpec,
)
    requires
        remove.wf(),
        remove.waits_for(report),
        remove.next(report, after, next),
    ensures
        after.held(w) <= remove.held(w),
        remove.stage is Spreading && workers::distinct(remove.active@) ==> after.held(w)
            == remove.held(w),
        remove.stage is Spreading && workers::distinct(remove.active@) ==> after.active@.contains(
            remove.actor->0,
        ),
{
    match (remove.stage, report) {
        (RemoveStage::Evicting(evict), _) => {
            let (then, step) = choose|then: Evict, step: Removed| #[trigger]
                evict.next(report, then, step) && match step {
                    Next::Do(_) => {
                        &&& remove.stays(after)
                        &&& after.stage == RemoveStage::Evicting(then)
                        &&& next == step
                    },
                    Next::Done(Ok(_)) => {
                        &&& after.active@ == then.active@
                        &&& after.idle@ == remove.idle@
                        &&& after.stage is Over
                        &&& evict::succeeded(next)
                    },
                    Next::Done(Err(error)) => remove.fails(error@, after, next),
                };
            evict::law_eviction(evict, report, then, step);
            workers::lemma_times_chosen(remove.active@, task::outside(then.dead@), w);
        },
        (RemoveStage::Spreading, Report::Spread(Ok(_))) => {
            lemma_removed_held(remove, after, w);
        },
        _ => {
            if remove.stage is Spreading {
                assert(remove.active@[remove.actor_idx as int] == remove.actor->0);
            }
        },
    }
}

proof fn lemma_removed_held(remove: RemoveMembers, after: RemoveMembers, w: WorkerSpec)
    requires
        remove.wf(),
        remove.stage is Spreading,
        after.active@ == workers::those(
            remove.active@,
            task::outside(workers::ids(remove.removed@).to_set()),
        ),
        after.idle@ == remove.removed@.reverse() + remove.idle@,
    ensures
        after.held(w) <= remove.held(w),
        workers::distinct(remove.active@) ==> after.held(w) == remove.held(w),
        workers::distinct(remove.active@) ==> after.active@.contains(remove.actor->0),
{
    let active = remove.active@;
    let removed = remove.removed@;
    let names = workers::ids(removed);
    let kept = task::outside(names.to_set());
    workers::lemma_times_chosen(active, kept, w);
    workers::lemma_times_joined(removed.reverse(), remove.idle@, w);
    removed.lemma_reverse_to_multiset();
    assert(remove.active.len() == active.len());
    lemma_times_at_places(active, remove.places@, w);
    workers::lemma_times_none(removed, w);
    workers::lemma_times_none(active, w);
    if removed.contains(w) {
        let k = choose|k: int| 0 <= k < removed.len() && removed[k] == w;
        assert(names[k] == w.id@);
        assert(names.contains(w.id@));
    }
    if workers::distinct(active) {
        let all = workers::ids(active);
        if !kept(w) && active.contains(w) {
            assert(names.contains(w.id@));
            let k = choose|k: int| 0 <= k < names.len() && names[k] == w.id@;
            let at = remove.places@[k] as int;
            assert(all[at] == w.id@);
            let i = choose|i: int| 0 <= i < active.len() && active[i] == w;
            assert(all[i] == w.id@);
            assert(i == at);
            assert(removed[k] == w);
            lemma_times_once(active, w);
        }
        let actor = remove.actor->0;
        if names.contains(actor.id@) {
            let k = choose|k: int| 0 <= k < names.len() && names[k] == actor.id@;
            let at = remove.places@[k];
            assert(all[at as int] == all[remove.actor_idx as int]);
            assert(at == remove.actor_idx);
            assert(remove.places@.contains(remove.actor_idx));
        }
        workers::lemma_those(active, kept);
        assert(active.contains(active[remove.actor_idx as int]));
        assert(kept(actor));
    }
}

proof fn lemma_times_once(active: Seq<WorkerSpec>, w: WorkerSpec)
    requires
        workers::distinct(active),
    ensures
        workers::times(active, w) <= 1,
{
    let all = workers::ids(active);
    assert forall|i: int, j: int| 0 <= i < active.len() && 0 <= j < active.len() && i
        != j implies active[i] != active[j] by {
        assert(all[i] != all[j]);
    }
    assert(active.no_duplicates());
    active.lemma_multiset_has_no_duplicates();
    workers::lemma_times_none(active, w);
    active.to_multiset_ensures();
}

/// A removal that goes well, from its beginning to its end. The actor is a member, and it is told to
/// remove, by their ids, as many other members as were decided on, or as many as may leave. None of
/// them is protected. It then handles its own commit, which leads into the next epoch, without those
/// that leave. After that each member with another id than the actor's is told to handle the same
/// commit, as often as it is a member: those that leave are told too, and are expected to find
/// themselves removed. In the end those that left are idle, and nobody else came or went.
pub proof fn law_removal_that_goes_well(
    active: Seq<WorkerSpec>,
    idle: Seq<WorkerSpec>,
    decision: MembershipBatchDecision,
    spread: Spread,
    forced: Option<Seq<char>>,
    devices: bool,
    measured: bool,
    plateau_size: usize,
    state: int,
    state_after: int,
    begun: RemoveMembers,
    show: Removed,
    before: transport::GroupStateSnapshot,
    asked: RemoveMembers,
    remove: Removed,
    answer: String,
    committed: RemoveMembers,
    handle: Removed,
    handled: RemoveMembers,
    spreading: Removed,
    over: RemoveMembers,
    tick: Removed,
    ended: RemoveMembers,
    end: Removed,
)
    requires
        active.len() <= usize::MAX,
        begun.started(
            active,
            idle,
            decision,
            spread,
            forced,
            devices,
            measured,
            plateau_size,
            state,
            show,
            state_after,
        ),
        show is Do,
        begun.next(Report::State(Ok(before)), asked, remove),
        before.epoch < u64::MAX,
        asked.next(Report::Sent(Ok(answer)), committed, handle),
        committed.next(Report::Handled(Ok(())), handled, spreading),
        handled.next(Report::Spread(Ok(())), over, tick),
        over.next(Report::Ticked, ended, end),
    ensures
        ({
            let actor = show->Do_0->ShowState_worker;
            let leaving = over.removed@;
            let gone = |id: Seq<char>|
                exists|k: int| 0 <= k < leaving.len() && (#[trigger] leaving[k]).id@ == id;
            &&& show->Do_0 is ShowState
            &&& active.contains(actor)
            &&& 0 < leaving.len() <= decision.effective
            &&& forall|k: int|
                0 <= k < leaving.len() ==> active.contains(#[trigger] leaving[k]) && !(devices
                    && workers::external(leaving[k])) && !(measured && leaving[k].profile_enabled)
            &&& forall|w: WorkerSpec| #[trigger]
                workers::times(leaving, w) <= workers::times(active, w)
            &&& workers::distinct(active) ==> !gone(actor.id@)
            &&& remove matches Next::Do(Order::Send { worker, command, .. }) && worker == actor && (
            command@ matches command::CommandView::RemoveMembers { members } && members.len()
                == leaving.len() && forall|k: int|
                0 <= k < members.len() ==> #[trigger] members[k] == leaving[k].id@)
            &&& handle matches Next::Do(Order::Handle { worker, expected, pending, .. }) && worker
                == actor && pending == spread.pending && expected@.group_id == before@.group_id
                && expected@.epoch == before@.epoch + 1 && (forall|id: Seq<char>| #[trigger]
                expected@.members.contains(id) <==> before@.members.contains(id) && !gone(id)) && (
            spreading matches Next::Do(Order::SpreadCommit { task, .. }) && task.expected@
                == expected@ && task.spread == spread && (forall|w: WorkerSpec|
                workers::times(#[trigger] task.recipients@, w) == (if w.id@ == actor.id@ {
                    0
                } else {
                    workers::times(active, w)
                })) && forall|id: Seq<char>| #[trigger] task.removed@.contains(id) <==> gone(id))
            &&& tick matches Next::Do(Order::Tick { units, .. }) && units == leaving.len()
            &&& end matches Next::Done(Ok(_))
            &&& forall|w: WorkerSpec| #[trigger]
                workers::times(ended.active@, w) == (if gone(w.id@) {
                    0
                } else {
                    workers::times(active, w)
                })
            &&& forall|w: WorkerSpec| #[trigger]
                workers::times(ended.idle@, w) == workers::times(idle, w) + workers::times(
                    leaving,
                    w,
                )
        }),
{
    let actor = show->Do_0->ShowState_worker;
    let leaving = over.removed@;
    let names = workers::ids(leaving);
    let gone = |id: Seq<char>|
        exists|k: int| 0 <= k < leaving.len() && (#[trigger] leaving[k]).id@ == id;
    assert forall|id: Seq<char>| names.to_set().contains(id) == #[trigger] gone(id) by {
        if gone(id) {
            let k = choose|k: int| 0 <= k < leaving.len() && (#[trigger] leaving[k]).id@ == id;
            assert(names[k] == id);
        }
        if names.contains(id) {
            let k = choose|k: int| 0 <= k < names.len() && names[k] == id;
            assert(leaving[k].id@ == id);
        }
    }
    let at = begun.actor_idx as int;
    assert(active[at] == actor);
    assert forall|k: int| 0 <= k < leaving.len() implies active.contains(#[trigger] leaving[k])
        && !(devices && workers::external(leaving[k])) && !(measured
        && leaving[k].profile_enabled) by {
        assert(leaving[k] == active[begun.places@[k] as int]);
        assert(!roles::protected(devices, measured)(begun.removed@[k]));
    }
    assert forall|w: WorkerSpec| #[trigger] workers::times(leaving, w) <= workers::times(
        active,
        w,
    ) by {
        lemma_times_at_places(active, begun.places@, w);
    }
    if workers::distinct(active) && gone(actor.id@) {
        let k = choose|k: int| 0 <= k < leaving.len() && (#[trigger] leaving[k]).id@ == actor.id@;
        let place = begun.places@[k] as int;
        assert(workers::ids(active)[place] == workers::ids(active)[at]);
        assert(begun.places@.contains(begun.actor_idx));
    }
    let kept = task::members_in(before@.members, names.to_set(), false);
    evict::lemma_ascending(kept);
    let expected = handle->Do_0->Handle_expected;
    assert forall|id: Seq<char>| #[trigger] expected@.members.contains(id)
        <==> before@.members.contains(id) && !gone(id) by {
        evict::lemma_members_in(before@.members, names.to_set(), false, id);
    }
    let task = spreading->Do_0->SpreadCommit_task;
    assert forall|w: WorkerSpec| workers::times(#[trigger] task.recipients@, w) == (if w.id@
        == actor.id@ {
        0
    } else {
        workers::times(active, w)
    }) by {
        workers::lemma_times_chosen(active, task::outside(set![actor.id@]), w);
    }
    assert forall|w: WorkerSpec| #[trigger] workers::times(ended.active@, w) == (if gone(w.id@) {
        0
    } else {
        workers::times(active, w)
    }) by {
        workers::lemma_times_chosen(active, task::outside(names.to_set()), w);
    }
    leaving.lemma_reverse_to_multiset();
    assert forall|w: WorkerSpec| #[trigger] workers::times(ended.idle@, w) == workers::times(idle, w)
        + workers::times(leaving, w) by {
        workers::lemma_times_joined(leaving.reverse(), idle, w);
    }
}

/// Where the acting member fails, its failure is written down, as it came. Where the run goes on, the
/// member is taken out: another member is asked for its state, if there is one. Where it does not go
/// on, the removal fails with what the member failed with.
pub proof fn law_removal_whose_actor_fails(
    phase: RemoveMembers,
    error: Failure,
    report: Report,
    losing: RemoveMembers,
    record: Removed,
    verdict: Result<bool, Failure>,
    after: RemoveMembers,
    next: Removed,
)
    requires
        phase.wf(),
        phase.waits_for(report),
        ({
            phase.stage is Committing && report == Report::Sent(Err(error))
        }),
        phase.next(report, losing, record),
        losing.next(Report::Recorded(verdict), after, next),
    ensures
        ({
            let actor = phase.actor->0;
            let others = exists|i: int|
                0 <= i < phase.active@.len() && (#[trigger] phase.active@[i]).id@ != actor.id@;
            &&& record matches Next::Do(Order::Record { worker, error: e, reassigned_to, .. })
                && worker == actor && e@ == error@ && (match reassigned_to {
                Some(other) => phase.active@.contains(other) && other.id@ != actor.id@,
                None => !others,
            })
            &&& verdict matches Err(worse) ==> (next matches Next::Done(Err(e)) && e@ == worse@)
            &&& verdict == Ok::<bool, Failure>(false) ==> (next matches Next::Done(Err(e)) && e@
                == error@)
            &&& verdict == Ok::<bool, Failure>(true) ==> if others {
                next matches Next::Do(Order::ShowState { worker }) && phase.active@.contains(worker)
                    && worker.id@ != actor.id@ && after.stage is Evicting && forall|
                    id: Seq<char>,
                | #[trigger]
                    after.stage->Evicting_0.dead@.contains(id) <==> id == actor.id@
            } else {
                next matches Next::Done(Err(_))
            }
            &&& after.active@ == phase.active@ && after.idle@ == phase.idle@
        }),
{
    let actor = phase.actor->0;
    let dead = seq![actor];
    task::lemma_other_than(phase.active@, actor.id@);
    evict::lemma_acts(phase.active@, dead);
    assert forall|id: Seq<char>| #[trigger] evict::is_one_of(dead, id) <==> id == actor.id@ by {
        assert(dead[0].id@ == actor.id@);
    }
    if phase.active@.len() > 0 && exists|i: int|
        0 <= i < phase.active@.len() && (#[trigger] phase.active@[i]).id@ != actor.id@ {
        let i = choose|i: int|
            0 <= i < phase.active@.len() && (#[trigger] phase.active@[i]).id@ != actor.id@;
        assert(!evict::is_one_of(dead, phase.active@[i].id@));
    }
}

/// Whatever the removal orders itself names the place in the run where it stands, and the batch that
/// was decided on.
pub proof fn law_removal_marks(
    phase: RemoveMembers,
    report: Report,
    after: RemoveMembers,
    next: Removed,
)
    requires
        phase.wf(),
        phase.waits_for(report),
        phase.next(report, after, next),
        !(after.stage is Evicting),
        next is Do,
    ensures
        next->Do_0.place() matches Some(place) ==> {
            &&& place.plateau_index == Some(phase.plateau_size)
            &&& place.target_size == Some(phase.plateau_size)
            &&& place.active_size == Some(phase.active@.len() as usize)
            &&& place.phase == Some("membership_remove"@)
            &&& place.operation == Some("remove_commit"@)
            &&& place.operation_seq is None
            &&& place.payload_size is None
            &&& place.batch_requested == Some(phase.decision.requested)
            &&& place.batch_effective == Some(phase.decision.effective)
            &&& place.batch_group_cap == Some(phase.decision.group_cap)
            &&& place.batch_transition_cap == Some(phase.decision.transition_cap)
            &&& place.batch_source == Some(phase.decision.source@)
        },
{
}

/// Where the acting member's state cannot be had, or a commit is not handled, the removal fails with
/// what went wrong, and nobody has left.
pub proof fn law_removal_that_fails(
    phase: RemoveMembers,
    error: Failure,
    report: Report,
    after: RemoveMembers,
    next: Removed,
)
    requires
        phase.wf(),
        phase.waits_for(report),
        ({
            ||| phase.stage is Looking && report == Report::State(Err(error))
            ||| phase.stage is Handling && report == Report::Handled(Err(error))
            ||| phase.stage is Spreading && report == Report::Spread(Err(error))
        }),
        phase.next(report, after, next),
    ensures
        next matches Next::Done(Err(e)) && e@ == error@,
        after.active@ == phase.active@,
        after.idle@ == phase.idle@,
{
}

/// As many members leave as were decided on, or else all that may: each member at another place than the
/// acting one that is not protected. A removal does not begin only where it is refused, or where the
/// acting member may remove nobody.
pub proof fn law_as_many_leave_as_may(
    active: Seq<WorkerSpec>,
    idle: Seq<WorkerSpec>,
    decision: MembershipBatchDecision,
    spread: Spread,
    forced: Option<Seq<char>>,
    devices: bool,
    measured: bool,
    plateau_size: usize,
    state: int,
    state_after: int,
    begun: RemoveMembers,
    show: Removed,
    i: usize,
)
    requires
        active.len() <= usize::MAX,
        begun.started(
            active,
            idle,
            decision,
            spread,
            forced,
            devices,
            measured,
            plateau_size,
            state,
            show,
            state_after,
        ),
        i < active.len(),
        i != begun.actor_idx,
        !(devices && workers::external(active[i as int])),
        !(measured && active[i as int].profile_enabled),
    ensures
        show is Do ==> begun.removed@.len() == begun.decision.effective && (begun.removed@.len()
            == decision.effective || (begun.removed@.len() < decision.effective
            && begun.places@.contains(i) && begun.removed@.contains(active[i as int]))),
        0 < decision.effective < active.len() ==> show is Do,
{
    let actor = begun.actor_idx as int;
    roles::law_removable(active, actor, devices, measured);
    let free = roles::removable(active, actor, devices, measured);
    assert(!roles::protected(devices, measured)(active[i as int]));
    assert(free.contains(i));
    if show is Do && begun.removed@.len() < decision.effective {
        let places = begun.places@;
        assert(places.len() == free.len());
        assert forall|x: usize| #[trigger] places.contains(x) implies free.contains(x) by {
            let k = choose|k: int| 0 <= k < places.len() && places[k] == x;
            assert(begun.removed@[k] == active[x as int]);
            assert(!roles::protected(devices, measured)(begun.removed@[k]));
        }
        assert(free.no_duplicates());
        free.unique_seq_to_set();
        places.unique_seq_to_set();
        assert(places.to_set().subset_of(free.to_set())) by {
            assert forall|x: usize| places.to_set().contains(x) implies free.to_set().contains(
                x,
            ) by {
                assert(places.contains(x));
            }
        }
        vstd::set_lib::lemma_subset_equality(places.to_set(), free.to_set());
        assert(free.to_set().contains(i));
        assert(places.contains(i));
        let k = choose|k: int| 0 <= k < places.len() && places[k] == i;
        assert(begun.removed@[k] == active[i as int]);
    }
}

/// The member that is asked for acts, where it is one: the first with that id. A removal that would take
/// everybody, or nobody, fails and changes nothing.
pub proof fn law_remover(
    active: Seq<WorkerSpec>,
    idle: Seq<WorkerSpec>,
    decision: MembershipBatchDecision,
    spread: Spread,
    forced: Option<Seq<char>>,
    devices: bool,
    measured: bool,
    plateau_size: usize,
    state: int,
    state_after: int,
    begun: RemoveMembers,
    show: Removed,
)
    requires
        begun.started(
            active,
            idle,
            decision,
            spread,
            forced,
            devices,
            measured,
            plateau_size,
            state,
            show,
            state_after,
        ),
    ensures
        forced matches Some(id) ==> (exists|i: int|
            0 <= i < active.len() && (#[trigger] active[i]).id@ == id) ==> show is Do ==> {
            let actor = show->Do_0->ShowState_worker;
            &&& actor.id@ == id
            &&& exists|i: int|
                0 <= i < active.len() && #[trigger] active[i] == actor && forall|j: int|
                    0 <= j < i ==> (#[trigger] active[j]).id@ != id
        },
        active.len() <= 1 || decision.effective == 0 || decision.effective >= active.len() ==> (
        show matches Next::Done(Err(_))) && begun.active@ == active && begun.idle@ == idle,
{
    if forced is Some && workers::has_id(active, forced->0) && show is Do {
        let at = begun.actor_idx as int;
        assert(roles::first_with_id(active, forced->0, at));
        assert(active[at] == show->Do_0->ShowState_worker);
        assert forall|j: int| 0 <= j < at implies (#[trigger] active[j]).id@ != forced->0 by {}
    }
}

} // verus!
