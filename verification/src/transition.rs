//! Bringing the group to the size of the next plateau.

use rand::rngs::StdRng;
use std::collections::VecDeque;
use vstd::prelude::*;

use crate::add;
use crate::add::{AddMembers, Added};
use crate::batch;
use crate::batch::{MembershipBatchDecision, MembershipBatchPlans};
use crate::draw;
use crate::draw::shuffle;
use crate::evict;
use crate::failure;
use crate::failure::Failure;
use crate::remove;
use crate::remove::{RemoveMembers, Removed};
use crate::roles;
use crate::roles::least_used_external_actor_id;
use crate::table;
use crate::table::{Counts, IdSet};
use crate::task::{Next, Report, Spread};
use crate::text;
use crate::text::str_eq;
use crate::workers;
use crate::workers::{copies_of, ids_of, is_external_device, WorkerSpec};

verus! {

// ---------------------------------------------------------------------------
// Chance
// ---------------------------------------------------------------------------

/// What a run draws from: its generator and its planners of batch sizes. It also knows the measured
/// workers that have already added members.
#[derive(Debug)]
pub struct Chance {
    pub rng: StdRng,
    pub add_batches: MembershipBatchPlans,
    pub remove_batches: MembershipBatchPlans,
    pub profiled_add_actor_seen: IdSet,
}

/// What a run draws from.
pub struct ChanceView {
    pub state: int,
    pub add_batches: batch::PlansView,
    pub remove_batches: batch::PlansView,
    pub seen: Set<Seq<char>>,
}

impl View for Chance {
    type V = ChanceView;

    open spec fn view(&self) -> ChanceView {
        ChanceView {
            state: draw::generator_state(self.rng),
            add_batches: self.add_batches@,
            remove_batches: self.remove_batches@,
            seen: self.profiled_add_actor_seen@,
        }
    }
}

impl Chance {
    /// The planners are consistent.
    pub open spec fn wf(self) -> bool {
        &&& self.add_batches.wf()
        &&& self.remove_batches.wf()
    }

    /// What a run with a given seed draws from.
    pub fn new(scenario_seed: u64) -> (chance: Chance)
        ensures
            chance.wf(),
            chance@ == (ChanceView {
                state: draw::seeded_state(scenario_seed),
                add_batches: batch::PlansView::seeded(
                    scenario_seed ^ batch::ADD_BATCH_SEED_DOMAIN,
                ),
                remove_batches: batch::PlansView::seeded(
                    scenario_seed ^ batch::REMOVE_BATCH_SEED_DOMAIN,
                ),
                seen: Set::empty(),
            }),
    {
        Chance {
            rng: draw::seeded(scenario_seed),
            add_batches: MembershipBatchPlans::new(scenario_seed ^ batch::ADD_BATCH_SEED_DOMAIN),
            remove_batches: MembershipBatchPlans::new(
                scenario_seed ^ batch::REMOVE_BATCH_SEED_DOMAIN,
            ),
            profiled_add_actor_seen: IdSet::new(),
        }
    }
}

// ---------------------------------------------------------------------------
// Whose turn it is
// ---------------------------------------------------------------------------

/// The device whose turn it is, and the state of the generator after the choice.
pub open spec fn device_turn(
    active: Seq<WorkerSpec>,
    uses: Map<Seq<char>, usize>,
    lane: bool,
    state: int,
) -> (Option<Seq<char>>, int) {
    if lane && roles::fewest_uses(active, uses) is Some {
        let least = roles::least_used(active, uses);
        (
            Some(draw::shuffled(workers::ids(least), state).last()),
            draw::state_after_shuffle(state, least.len() as int),
        )
    } else {
        (None, state)
    }
}

fn take_device_turn(active: &[WorkerSpec], uses: &Counts, lane: bool, rng: &mut StdRng) -> (device:
    Option<String>)
    ensures
        (text::maybe(device), draw::generator_state(*final(rng))) == device_turn(
            active@,
            uses@,
            lane,
            draw::generator_state(*old(rng)),
        ),
{
    if lane {
        least_used_external_actor_id(active, uses, rng)
    } else {
        None
    }
}

/// A measured worker whose id is not in a set.
pub open spec fn profiled_outside(seen: Set<Seq<char>>) -> spec_fn(WorkerSpec) -> bool {
    |w: WorkerSpec| w.profile_enabled && !seen.contains(w.id@)
}

/// The measured worker whose turn it is, and the state of the generator after the choice: one that
/// has not acted yet, or else the first one.
pub open spec fn profiled_turn(
    active: Seq<WorkerSpec>,
    seen: Set<Seq<char>>,
    measured: bool,
    state: int,
) -> (Option<Seq<char>>, int) {
    if measured {
        let fresh = workers::ids(workers::those(active, profiled_outside(seen)));
        let all = workers::those(active, workers::profiled());
        (
            if fresh.len() > 0 {
                Some(draw::shuffled(fresh, state).last())
            } else if all.len() > 0 {
                Some(all[0].id@)
            } else {
                None
            },
            draw::state_after_shuffle(state, fresh.len() as int),
        )
    } else {
        (None, state)
    }
}

fn take_profiled_turn(
    active: &[WorkerSpec],
    seen: &IdSet,
    measured: bool,
    rng: &mut StdRng,
) -> (actor: Option<String>)
    ensures
        (text::maybe(actor), draw::generator_state(*final(rng))) == profiled_turn(
            active@,
            seen@,
            measured,
            draw::generator_state(*old(rng)),
        ),
{
    if !measured {
        return None;
    }
    let fresh_only = |w: &WorkerSpec| -> (yes: bool)
        ensures
            yes == (w.profile_enabled && !seen@.contains(w.id@)),
    { w.profile_enabled && !seen.contains(w.id.as_str()) };
    let fresh: Vec<WorkerSpec> = copies_of(active, fresh_only, Ghost(profiled_outside(seen@)));
    let mut names: Vec<String> = ids_of(fresh.as_slice());
    let ghost before = names@;
    let ghost state = draw::generator_state(*rng);
    shuffle(&mut names, rng);
    proof {
        draw::lemma_in_order_keeps_items(
            before,
            draw::shuffled_order(state, before.len() as int).0,
        );
        assert(text::texts(before) == workers::ids(fresh@));
        assert(text::texts(names@) =~= draw::shuffled(text::texts(before), state));
    }
    match names.pop() {
        Some(name) => {
            assert(text::texts(draw::shuffled(before, state)).last() == name@);
            Some(name)
        },
        None => {
            let profiled = |w: &WorkerSpec| -> (yes: bool)
                ensures
                    yes == w.profile_enabled,
            { w.profile_enabled };
            let all: Vec<WorkerSpec> = copies_of(active, profiled, Ghost(workers::profiled()));
            if all.len() > 0 {
                Some(all[0].id.clone())
            } else {
                None
            }
        },
    }
}

/// A device that did not act yet, other than one given.
pub open spec fn device_waiting(
    uses: Map<Seq<char>, usize>,
    besides: Option<Seq<char>>,
) -> spec_fn(WorkerSpec) -> bool {
    |w: WorkerSpec|
        workers::external(w) && besides != Some(w.id@) && table::count_of(uses, w.id@) == 0
}

/// The largest batch: one member is kept for each device that still waits, but one is always left.
pub open spec fn turn_cap(
    active: Seq<WorkerSpec>,
    uses: Map<Seq<char>, usize>,
    device: Option<Seq<char>>,
    lane: bool,
    max_allowed: nat,
) -> nat {
    let waiting = if lane {
        workers::those(active, device_waiting(uses, device)).len()
    } else {
        0
    };
    if waiting >= max_allowed {
        1
    } else {
        (max_allowed - waiting) as nat
    }
}

fn cap_turn(
    active: &[WorkerSpec],
    uses: &Counts,
    device: &Option<String>,
    lane: bool,
    max_allowed: usize,
) -> (cap: usize)
    requires
        max_allowed > 0,
    ensures
        cap == turn_cap(active@, uses@, text::maybe(*device), lane, max_allowed as nat),
        1 <= cap <= max_allowed,
{
    let waiting: usize = if lane {
        let waits = |w: &WorkerSpec| -> (yes: bool)
            ensures
                yes == (workers::external(*w) && text::maybe(*device) != Some(w.id@)
                    && table::count_of(uses@, w.id@) == 0),
        {
            let other: bool = match device {
                Some(id) => !str_eq(id.as_str(), w.id.as_str()),
                None => true,
            };
            is_external_device(w) && other && uses.count(w.id.as_str()) == 0
        };
        copies_of(active, waits, Ghost(device_waiting(uses@, text::maybe(*device)))).len()
    } else {
        0
    };
    if waiting >= max_allowed {
        1
    } else {
        max_allowed - waiting
    }
}

/// The uses of devices after one more use.
pub open spec fn used(uses: Map<Seq<char>, usize>, device: Option<Seq<char>>) -> Map<
    Seq<char>,
    usize,
> {
    match device {
        Some(id) => table::one_more(uses, id),
        None => uses,
    }
}

/// The measured workers that have acted, once an actor acts.
pub open spec fn seen_after(
    active: Seq<WorkerSpec>,
    seen: Set<Seq<char>>,
    actor: Option<Seq<char>>,
) -> Set<Seq<char>> {
    match actor {
        Some(id) => if exists|i: int|
            0 <= i < active.len() && (#[trigger] active[i]).id@ == id && active[i].profile_enabled {
            seen.insert(id)
        } else {
            seen
        },
        None => seen,
    }
}

fn note_actor(active: &[WorkerSpec], seen: &mut IdSet, actor: &Option<String>)
    ensures
        final(seen)@ == seen_after(active@, old(seen)@, text::maybe(*actor)),
{
    if let Some(id) = actor {
        let mut i: usize = 0;
        while i < active.len()
            invariant
                i <= active@.len(),
                text::maybe(*actor) == Some(id@),
                seen@ == old(seen)@,
                forall|j: int|
                    0 <= j < i ==> !((#[trigger] active@[j]).id@ == id@
                        && active@[j].profile_enabled),
            decreases active@.len() - i,
        {
            if active[i].profile_enabled && str_eq(active[i].id.as_str(), id.as_str()) {
                seen.insert(id.as_str());
                return;
            }
            i = i + 1;
        }
    }
}

/// The first of two names that is there.
pub open spec fn either(a: Option<Seq<char>>, b: Option<Seq<char>>) -> Option<Seq<char>> {
    if a is Some {
        a
    } else {
        b
    }
}

/// A text that may be missing, borrowed.
pub(crate) fn borrowed(text: &Option<String>) -> (out: Option<&str>)
    ensures
        text::named(out) == text::maybe(*text),
{
    match text {
        Some(text) => Some(text.as_str()),
        None => None,
    }
}

// ---------------------------------------------------------------------------
// The transition
// ---------------------------------------------------------------------------

/// How far a transition is.
#[derive(Debug)]
pub enum TransitionStage {
    Adding(AddMembers),
    Removing(RemoveMembers),
    /// Nothing is left to do.
    Over,
}

/// The transition to another group size. While members are added or removed, that operation holds
/// the members and the idle workers.
#[derive(Debug)]
pub struct Transition {
    pub active: Vec<WorkerSpec>,
    pub idle: VecDeque<WorkerSpec>,
    pub target_size: usize,
    pub spread: Spread,
    /// Whether the devices take turns, and stay.
    pub external_coverage_lane: bool,
    /// Whether the measured workers take turns, and stay.
    pub protect_profile_enabled_members: bool,
    pub plateau_index: usize,
    pub add_uses: Counts,
    pub remove_uses: Counts,
    pub stage: TransitionStage,
}

/// What a transition leads to.
pub type Moved = Next<Result<(), Failure>>;

/// The smaller of two counts.
pub open spec fn fewer(a: nat, b: nat) -> nat {
    if a < b {
        a
    } else {
        b
    }
}

impl Transition {
    /// An operation that is under way is consistent.
    pub open spec fn wf(self) -> bool {
        &&& self.stage matches TransitionStage::Adding(add) ==> add.wf()
        &&& self.stage matches TransitionStage::Removing(remove) ==> remove.wf()
    }

    /// The report is one that the stage waits for.
    pub open spec fn waits_for(self, report: Report) -> bool {
        match self.stage {
            TransitionStage::Adding(add) => add.waits_for(report),
            TransitionStage::Removing(remove) => remove.waits_for(report),
            TransitionStage::Over => false,
        }
    }

    /// What does not change.
    pub open spec fn same_task(self, other: Transition) -> bool {
        &&& self.target_size == other.target_size
        &&& self.spread == other.spread
        &&& self.external_coverage_lane == other.external_coverage_lane
        &&& self.protect_profile_enabled_members == other.protect_profile_enabled_members
        &&& self.plateau_index == other.plateau_index
    }

    /// The uses stay.
    pub open spec fn same_uses(self, other: Transition) -> bool {
        &&& self.add_uses@ == other.add_uses@
        &&& self.remove_uses@ == other.remove_uses@
    }

    /// The transition is over, with these members and idle workers.
    pub open spec fn ends(self, active: Seq<WorkerSpec>, idle: Seq<WorkerSpec>) -> bool {
        &&& self.active@ == active
        &&& self.idle@ == idle
        &&& self.stage is Over
    }

    /// Members are to be added: a device or a measured worker whose turn it is acts, or else one
    /// that is drawn.
    pub open spec fn adds(
        self,
        active: Seq<WorkerSpec>,
        idle: Seq<WorkerSpec>,
        chance: ChanceView,
        after: Transition,
        next: Moved,
        chance_after: ChanceView,
    ) -> bool {
        let max_allowed = fewer((self.target_size - active.len()) as nat, idle.len());
        let (device, state1) = device_turn(
            active,
            self.add_uses@,
            self.external_coverage_lane,
            chance.state,
        );
        let (profiled, state2) = profiled_turn(
            active,
            chance.seen,
            self.protect_profile_enabled_members,
            state1,
        );
        let actor = either(device, profiled);
        let uses = used(self.add_uses@, device);
        let cap = turn_cap(active, uses, device, self.external_coverage_lane, max_allowed) as usize;
        &&& after.add_uses@ == uses
        &&& after.remove_uses@ == self.remove_uses@
        &&& chance_after.seen == seen_after(active, chance.seen, actor)
        &&& chance_after.add_batches == chance.add_batches.advanced(device, cap)
        &&& chance_after.remove_batches == chance.remove_batches
        &&& exists|begun: AddMembers, decision: MembershipBatchDecision, step: Added|
            {
                &&& #[trigger] begun.started(
                    active,
                    idle,
                    decision,
                    self.spread,
                    actor,
                    self.plateau_index,
                    self.target_size,
                    state2,
                    step,
                    chance_after.state,
                )
                &&& batch::decided_for(chance.add_batches, device, cap, decision)
                &&& after.holds_add(begun, step, next)
            }
    }

    /// An addition is under way, or it failed.
    pub open spec fn holds_add(self, add: AddMembers, step: Added, next: Moved) -> bool {
        match step {
            Next::Do(_) => self.stage == TransitionStage::Adding(add) && next == step,
            Next::Done(Err(error)) => self.ends(add.active@, add.idle@) && evict::failed(
                next,
                error@,
            ),
            Next::Done(Ok(_)) => false,
        }
    }

    /// A removal is under way, or it failed.
    pub open spec fn holds_remove(self, remove: RemoveMembers, step: Removed, next: Moved) -> bool {
        match step {
            Next::Do(_) => self.stage == TransitionStage::Removing(remove) && next == step,
            Next::Done(Err(error)) => self.ends(remove.active@, remove.idle@) && evict::failed(
                next,
                error@,
            ),
            Next::Done(Ok(_)) => false,
        }
    }

    /// Members are to be removed: a device whose turn it is acts, or else one that is drawn.
    pub open spec fn removes(
        self,
        active: Seq<WorkerSpec>,
        idle: Seq<WorkerSpec>,
        chance: ChanceView,
        after: Transition,
        next: Moved,
        chance_after: ChanceView,
    ) -> bool {
        let max_allowed = fewer(
            (active.len() - self.target_size) as nat,
            (active.len() - 1) as nat,
        );
        let (device, state1) = device_turn(
            active,
            self.remove_uses@,
            self.external_coverage_lane,
            chance.state,
        );
        let uses = used(self.remove_uses@, device);
        let cap = turn_cap(active, uses, device, self.external_coverage_lane, max_allowed) as usize;
        &&& after.add_uses@ == self.add_uses@
        &&& after.remove_uses@ == uses
        &&& chance_after.seen == chance.seen
        &&& chance_after.add_batches == chance.add_batches
        &&& chance_after.remove_batches == chance.remove_batches.advanced(device, cap)
        &&& exists|begun: RemoveMembers, decision: MembershipBatchDecision, step: Removed|
            {
                &&& #[trigger] begun.started(
                    active,
                    idle,
                    decision,
                    self.spread,
                    device,
                    self.external_coverage_lane,
                    self.protect_profile_enabled_members,
                    self.target_size,
                    state1,
                    step,
                    chance_after.state,
                )
                &&& batch::decided_for(chance.remove_batches, device, cap, decision)
                &&& after.holds_remove(begun, step, next)
            }
    }

    /// While there are too many members, some are removed.
    pub open spec fn shrinks(
        self,
        active: Seq<WorkerSpec>,
        idle: Seq<WorkerSpec>,
        chance: ChanceView,
        after: Transition,
        next: Moved,
        chance_after: ChanceView,
    ) -> bool {
        if active.len() <= self.target_size {
            &&& after.ends(active, idle)
            &&& after.same_uses(self)
            &&& chance_after == chance
            &&& evict::succeeded(next)
        } else if active.len() == 1 {
            &&& after.ends(active, idle)
            &&& after.same_uses(self)
            &&& chance_after == chance
            &&& evict::failed(next, failure::plain("Cannot remove the last remaining member"@))
        } else {
            self.removes(active, idle, chance, after, next, chance_after)
        }
    }

    /// While there are too few members, and idle workers are left, some are added.
    pub open spec fn grows(
        self,
        active: Seq<WorkerSpec>,
        idle: Seq<WorkerSpec>,
        chance: ChanceView,
        after: Transition,
        next: Moved,
        chance_after: ChanceView,
    ) -> bool {
        if active.len() < self.target_size && idle.len() > 0 {
            self.adds(active, idle, chance, after, next, chance_after)
        } else {
            self.shrinks(active, idle, chance, after, next, chance_after)
        }
    }

    /// What follows a step of an addition.
    pub open spec fn after_add(
        self,
        add: AddMembers,
        step: Added,
        chance: ChanceView,
        after: Transition,
        next: Moved,
        chance_after: ChanceView,
    ) -> bool {
        if evict::succeeded(step) {
            self.grows(add.active@, add.idle@, chance, after, next, chance_after)
        } else {
            &&& after.holds_add(add, step, next)
            &&& after.same_uses(self)
            &&& chance_after == chance
        }
    }

    /// What follows a step of a removal.
    pub open spec fn after_remove(
        self,
        remove: RemoveMembers,
        step: Removed,
        chance: ChanceView,
        after: Transition,
        next: Moved,
        chance_after: ChanceView,
    ) -> bool {
        if evict::succeeded(step) {
            self.shrinks(remove.active@, remove.idle@, chance, after, next, chance_after)
        } else {
            &&& after.holds_remove(remove, step, next)
            &&& after.same_uses(self)
            &&& chance_after == chance
        }
    }

    /// How far the transition is after a report, and what is done then.
    pub open spec fn next(
        self,
        report: Report,
        chance: ChanceView,
        after: Transition,
        next: Moved,
        chance_after: ChanceView,
    ) -> bool {
        &&& after.same_task(self)
        &&& match self.stage {
            TransitionStage::Adding(add) => exists|then: AddMembers, step: Added| #[trigger]
                add.next(report, then, step) && self.after_add(
                    then,
                    step,
                    chance,
                    after,
                    next,
                    chance_after,
                ),
            TransitionStage::Removing(remove) => exists|
                then: RemoveMembers,
                step: Removed,
            | #[trigger]
                remove.next(report, then, step) && self.after_remove(
                    then,
                    step,
                    chance,
                    after,
                    next,
                    chance_after,
                ),
            TransitionStage::Over => true,
        }
    }

    /// A transition that has not begun.
    pub open spec fn fresh(
        self,
        target_size: usize,
        spread: Spread,
        external_coverage_lane: bool,
        protect_profile_enabled_members: bool,
        plateau_index: usize,
    ) -> bool {
        &&& self.target_size == target_size
        &&& self.spread == spread
        &&& self.external_coverage_lane == external_coverage_lane
        &&& self.protect_profile_enabled_members == protect_profile_enabled_members
        &&& self.plateau_index == plateau_index
        &&& self.add_uses@ == Map::<Seq<char>, usize>::empty()
        &&& self.remove_uses@ == Map::<Seq<char>, usize>::empty()
    }

    /// Begins a transition.
    pub fn start(
        active: Vec<WorkerSpec>,
        idle: VecDeque<WorkerSpec>,
        target_size: usize,
        spread: Spread,
        external_coverage_lane: bool,
        protect_profile_enabled_members: bool,
        plateau_index: usize,
        chance: &mut Chance,
    ) -> (made: (Transition, Moved))
        requires
            old(chance).wf(),
        ensures
            final(chance).wf(),
            made.0.started(
                active@,
                idle@,
                target_size,
                spread,
                external_coverage_lane,
                protect_profile_enabled_members,
                plateau_index,
                old(chance)@,
                made.1,
                final(chance)@,
            ),
    {
        let mut transition: Transition = Transition {
            active: active,
            idle: idle,
            target_size: target_size,
            spread: spread,
            external_coverage_lane: external_coverage_lane,
            protect_profile_enabled_members: protect_profile_enabled_members,
            plateau_index: plateau_index,
            add_uses: Counts::new(),
            remove_uses: Counts::new(),
            stage: TransitionStage::Over,
        };
        let ghost fresh = transition;
        let next: Moved = transition.grow(chance);
        assert(fresh.fresh(
            target_size,
            spread,
            external_coverage_lane,
            protect_profile_enabled_members,
            plateau_index,
        ));
        (transition, next)
    }

    /// A transition that has begun.
    pub open spec fn started(
        self,
        active: Seq<WorkerSpec>,
        idle: Seq<WorkerSpec>,
        target_size: usize,
        spread: Spread,
        external_coverage_lane: bool,
        protect_profile_enabled_members: bool,
        plateau_index: usize,
        chance: ChanceView,
        next: Moved,
        chance_after: ChanceView,
    ) -> bool {
        &&& self.wf()
        &&& exists|fresh: Transition|
            {
                &&& #[trigger] fresh.fresh(
                    target_size,
                    spread,
                    external_coverage_lane,
                    protect_profile_enabled_members,
                    plateau_index,
                )
                &&& self.same_task(fresh)
                &&& fresh.grows(active, idle, chance, self, next, chance_after)
            }
    }

    fn finish(&mut self, result: Result<(), Failure>) -> (next: Moved)
        ensures
            final(self).wf(),
            final(self).same_task(*old(self)),
            final(self).same_uses(*old(self)),
            final(self).ends(old(self).active@, old(self).idle@),
            next == Next::<Result<(), Failure>>::Done(result),
    {
        self.stage = TransitionStage::Over;
        Next::Done(result)
    }

    /// The members and the idle workers, handed over.
    fn hand_over(&mut self) -> (held: (Vec<WorkerSpec>, VecDeque<WorkerSpec>))
        ensures
            held.0@ == old(self).active@,
            held.1@ == old(self).idle@,
            final(self).same_task(*old(self)),
            final(self).same_uses(*old(self)),
            final(self).stage == old(self).stage,
    {
        let mut active: Vec<WorkerSpec> = Vec::new();
        std::mem::swap(&mut active, &mut self.active);
        let mut idle: VecDeque<WorkerSpec> = VecDeque::new();
        std::mem::swap(&mut idle, &mut self.idle);
        (active, idle)
    }

    fn grow(&mut self, chance: &mut Chance) -> (next: Moved)
        requires
            old(chance).wf(),
        ensures
            final(chance).wf(),
            final(self).wf(),
            final(self).same_task(*old(self)),
            old(self).grows(
                old(self).active@,
                old(self).idle@,
                old(chance)@,
                *final(self),
                next,
                final(chance)@,
            ),
    {
        if self.active.len() >= self.target_size || self.idle.len() == 0 {
            return self.shrink(chance);
        }
        let ghost start = *self;
        let ghost luck = chance@;
        let remaining: usize = self.target_size - self.active.len();
        let max_allowed: usize = if remaining < self.idle.len() {
            remaining
        } else {
            self.idle.len()
        };
        let device: Option<String> = take_device_turn(
            self.active.as_slice(),
            &self.add_uses,
            self.external_coverage_lane,
            &mut chance.rng,
        );
        let profiled: Option<String> = take_profiled_turn(
            self.active.as_slice(),
            &chance.profiled_add_actor_seen,
            self.protect_profile_enabled_members,
            &mut chance.rng,
        );
        let ghost state2 = draw::generator_state(chance.rng);
        if let Some(id) = &device {
            self.add_uses.count_one(id.as_str());
        }
        let actor: Option<String> = match &device {
            Some(id) => Some(id.clone()),
            None => profiled,
        };
        note_actor(self.active.as_slice(), &mut chance.profiled_add_actor_seen, &actor);
        let cap: usize = cap_turn(
            self.active.as_slice(),
            &self.add_uses,
            &device,
            self.external_coverage_lane,
            max_allowed,
        );
        let decision: MembershipBatchDecision = chance.add_batches.next_batch(
            self.active.len(),
            cap,
            borrowed(&device),
        );
        let (active, idle): (Vec<WorkerSpec>, VecDeque<WorkerSpec>) = self.hand_over();
        let (add, step): (AddMembers, Added) = AddMembers::start(
            active,
            idle,
            decision,
            self.spread,
            borrowed(&actor),
            &mut chance.rng,
            self.plateau_index,
            self.target_size,
        );
        let ghost turn = device_turn(
            start.active@,
            start.add_uses@,
            start.external_coverage_lane,
            luck.state,
        );
        let ghost second = profiled_turn(
            start.active@,
            luck.seen,
            start.protect_profile_enabled_members,
            turn.1,
        );
        assert(turn.0 == text::maybe(device));
        assert(second.1 == state2);
        assert(either(turn.0, second.0) == text::maybe(actor));
        assert(add.started(
            start.active@,
            start.idle@,
            decision,
            start.spread,
            either(turn.0, second.0),
            start.plateau_index,
            start.target_size,
            second.1,
            step,
            chance@.state,
        ));
        assert(batch::decided_for(luck.add_batches, turn.0, cap, decision));
        let next: Moved = self.hold_add(add, step);
        assert(max_allowed == fewer(
            (start.target_size - start.active@.len()) as nat,
            start.idle@.len(),
        ));
        assert(self.add_uses@ == used(start.add_uses@, text::maybe(device)));
        assert(cap == turn_cap(
            start.active@,
            self.add_uses@,
            text::maybe(device),
            start.external_coverage_lane,
            max_allowed as nat,
        ));
        assert(start.adds(start.active@, start.idle@, luck, *self, next, chance@));
        next
    }

    fn hold_add(&mut self, add: AddMembers, step: Added) -> (next: Moved)
        requires
            add.wf(),
            !evict::succeeded(step),
        ensures
            final(self).wf(),
            final(self).same_task(*old(self)),
            final(self).same_uses(*old(self)),
            final(self).holds_add(add, step, next),
    {
        match step {
            Next::Do(order) => {
                self.stage = TransitionStage::Adding(add);
                Next::Do(order)
            },
            Next::Done(result) => {
                self.active = add.active;
                self.idle = add.idle;
                self.finish(result)
            },
        }
    }

    fn hold_remove(&mut self, remove: RemoveMembers, step: Removed) -> (next: Moved)
        requires
            remove.wf(),
            !evict::succeeded(step),
        ensures
            final(self).wf(),
            final(self).same_task(*old(self)),
            final(self).same_uses(*old(self)),
            final(self).holds_remove(remove, step, next),
    {
        match step {
            Next::Do(order) => {
                self.stage = TransitionStage::Removing(remove);
                Next::Do(order)
            },
            Next::Done(result) => {
                self.active = remove.active;
                self.idle = remove.idle;
                self.finish(result)
            },
        }
    }

    fn shrink(&mut self, chance: &mut Chance) -> (next: Moved)
        requires
            old(chance).wf(),
        ensures
            final(chance).wf(),
            final(self).wf(),
            final(self).same_task(*old(self)),
            old(self).shrinks(
                old(self).active@,
                old(self).idle@,
                old(chance)@,
                *final(self),
                next,
                final(chance)@,
            ),
    {
        if self.active.len() <= self.target_size {
            return self.finish(Ok(()));
        }
        if self.active.len() == 1 {
            return self.finish(
                Err(Failure::plain("Cannot remove the last remaining member".to_owned())),
            );
        }
        let ghost start = *self;
        let ghost luck = chance@;
        let remaining: usize = self.active.len() - self.target_size;
        let others: usize = self.active.len() - 1;
        let max_allowed: usize = if remaining < others {
            remaining
        } else {
            others
        };
        let device: Option<String> = take_device_turn(
            self.active.as_slice(),
            &self.remove_uses,
            self.external_coverage_lane,
            &mut chance.rng,
        );
        let ghost state1 = draw::generator_state(chance.rng);
        if let Some(id) = &device {
            self.remove_uses.count_one(id.as_str());
        }
        let cap: usize = cap_turn(
            self.active.as_slice(),
            &self.remove_uses,
            &device,
            self.external_coverage_lane,
            max_allowed,
        );
        let decision: MembershipBatchDecision = chance.remove_batches.next_batch(
            self.active.len(),
            cap,
            borrowed(&device),
        );
        let (active, idle): (Vec<WorkerSpec>, VecDeque<WorkerSpec>) = self.hand_over();
        let (remove, step): (RemoveMembers, Removed) = RemoveMembers::start(
            active,
            idle,
            decision,
            self.spread,
            borrowed(&device),
            self.external_coverage_lane,
            self.protect_profile_enabled_members,
            self.target_size,
            &mut chance.rng,
        );
        let ghost turn = device_turn(
            start.active@,
            start.remove_uses@,
            start.external_coverage_lane,
            luck.state,
        );
        assert(turn == (text::maybe(device), state1));
        assert(remove.started(
            start.active@,
            start.idle@,
            decision,
            start.spread,
            turn.0,
            start.external_coverage_lane,
            start.protect_profile_enabled_members,
            start.target_size,
            turn.1,
            step,
            chance@.state,
        ));
        assert(batch::decided_for(luck.remove_batches, turn.0, cap, decision));
        let next: Moved = self.hold_remove(remove, step);
        assert(max_allowed == fewer(
            (start.active@.len() - start.target_size) as nat,
            (start.active@.len() - 1) as nat,
        ));
        assert(self.remove_uses@ == used(start.remove_uses@, text::maybe(device)));
        assert(cap == turn_cap(
            start.active@,
            self.remove_uses@,
            text::maybe(device),
            start.external_coverage_lane,
            max_allowed as nat,
        ));
        assert(start.removes(start.active@, start.idle@, luck, *self, next, chance@));
        next
    }

    /// What is done after a report.
    pub fn step(&mut self, report: Report, chance: &mut Chance) -> (next: Moved)
        requires
            old(self).wf(),
            old(self).waits_for(report),
            old(chance).wf(),
        ensures
            final(self).wf(),
            final(chance).wf(),
            old(self).next(report, old(chance)@, *final(self), next, final(chance)@),
    {
        let ghost given = report;
        let mut stage: TransitionStage = TransitionStage::Over;
        std::mem::swap(&mut stage, &mut self.stage);
        match stage {
            TransitionStage::Adding(add) => {
                let mut add: AddMembers = add;
                let ghost before = add;
                let step: Added = add.step(report);
                assert(before.next(given, add, step));
                match step {
                    Next::Done(Ok(_)) => {
                        self.active = add.active;
                        self.idle = add.idle;
                        self.grow(chance)
                    },
                    step => self.hold_add(add, step),
                }
            },
            TransitionStage::Removing(remove) => {
                let mut remove: RemoveMembers = remove;
                let ghost before = remove;
                let step: Removed = remove.step(report);
                assert(before.next(given, remove, step));
                match step {
                    Next::Done(Ok(_)) => {
                        self.active = remove.active;
                        self.idle = remove.idle;
                        self.shrink(chance)
                    },
                    step => self.hold_remove(remove, step),
                }
            },
            TransitionStage::Over => Next::Done(Ok(())),
        }
    }
}

impl Transition {
    /// How often a worker is held, as a member, as an idle worker or as a joiner.
    pub open spec fn held(self, w: WorkerSpec) -> nat {
        match self.stage {
            TransitionStage::Adding(add) => add.held(w),
            TransitionStage::Removing(remove) => remove.held(w),
            TransitionStage::Over => workers::times(self.active@, w) + workers::times(
                self.idle@,
                w,
            ),
        }
    }
}

proof fn lemma_shrinks_hold(
    transition: Transition,
    active: Seq<WorkerSpec>,
    idle: Seq<WorkerSpec>,
    chance: ChanceView,
    after: Transition,
    next: Moved,
    chance_after: ChanceView,
    w: WorkerSpec,
)
    requires
        transition.shrinks(active, idle, chance, after, next, chance_after),
    ensures
        after.held(w) == workers::times(active, w) + workers::times(idle, w),
        evict::succeeded(next) ==> after.ends(active, idle) && active.len()
            <= transition.target_size,
{
}

/// A transition that grows the group holds the members and the idle workers.
pub proof fn lemma_grows_hold(
    transition: Transition,
    active: Seq<WorkerSpec>,
    idle: Seq<WorkerSpec>,
    chance: ChanceView,
    after: Transition,
    next: Moved,
    chance_after: ChanceView,
    w: WorkerSpec,
)
    requires
        transition.grows(active, idle, chance, after, next, chance_after),
    ensures
        after.held(w) == workers::times(active, w) + workers::times(idle, w),
        evict::succeeded(next) ==> after.ends(active, idle) && active.len()
            <= transition.target_size && (active.len() == transition.target_size || idle.len()
            == 0),
{
    if active.len() < transition.target_size && idle.len() > 0 {
        let (device, state1) = device_turn(
            active,
            transition.add_uses@,
            transition.external_coverage_lane,
            chance.state,
        );
        let (profiled, state2) = profiled_turn(
            active,
            chance.seen,
            transition.protect_profile_enabled_members,
            state1,
        );
        let (begun, decision, step) = choose|
            begun: AddMembers,
            decision: MembershipBatchDecision,
            step: Added,
        |
            {
                &&& #[trigger] begun.started(
                    active,
                    idle,
                    decision,
                    transition.spread,
                    either(device, profiled),
                    transition.plateau_index,
                    transition.target_size,
                    state2,
                    step,
                    chance_after.state,
                )
                &&& after.holds_add(begun, step, next)
            };
        add::lemma_started_holds(
            begun,
            active,
            idle,
            decision,
            transition.spread,
            either(device, profiled),
            transition.plateau_index,
            transition.target_size,
            state2,
            step,
            chance_after.state,
            w,
        );
    } else {
        lemma_shrinks_hold(transition, active, idle, chance, after, next, chance_after, w);
    }
}

/// A transition makes no worker up and puts none in two places. Where it succeeds, the group is not
/// larger than it should be; where it was growing, it is as large as it should be, or no idle
/// worker is left.
pub proof fn law_transition(
    transition: Transition,
    report: Report,
    chance: ChanceView,
    after: Transition,
    next: Moved,
    chance_after: ChanceView,
    w: WorkerSpec,
)
    requires
        transition.wf(),
        transition.waits_for(report),
        transition.next(report, chance, after, next, chance_after),
    ensures
        after.held(w) <= transition.held(w),
        evict::succeeded(next) ==> after.stage is Over && after.active@.len()
            <= transition.target_size,
        evict::succeeded(next) && transition.stage is Adding ==> after.active@.len()
            == transition.target_size || after.idle@.len() == 0,
{
    match transition.stage {
        TransitionStage::Adding(add) => {
            let (then, step) = choose|then: AddMembers, step: Added| #[trigger]
                add.next(report, then, step) && transition.after_add(
                    then,
                    step,
                    chance,
                    after,
                    next,
                    chance_after,
                );
            add::law_addition_keeps_workers(add, report, then, step, w);
            add::lemma_over(add, report, then, step, w);
            if evict::succeeded(step) {
                lemma_grows_hold(
                    transition,
                    then.active@,
                    then.idle@,
                    chance,
                    after,
                    next,
                    chance_after,
                    w,
                );
            }
        },
        TransitionStage::Removing(remove) => {
            let (then, step) = choose|then: RemoveMembers, step: Removed| #[trigger]
                remove.next(report, then, step) && transition.after_remove(
                    then,
                    step,
                    chance,
                    after,
                    next,
                    chance_after,
                );
            remove::law_removal_keeps_workers(remove, report, then, step, w);
            if evict::succeeded(step) {
                lemma_shrinks_hold(
                    transition,
                    then.active@,
                    then.idle@,
                    chance,
                    after,
                    next,
                    chance_after,
                    w,
                );
            }
        },
        TransitionStage::Over => {},
    }
}

/// Where a transition goes. With too few members the next idle worker makes a key package, in order to
/// join; with too many a member is asked for its state, in order to remove others; otherwise nothing
/// is left to do. At most as many members are added as are missing, and as there are idle workers. At
/// most as many are removed as there are too many.
pub proof fn law_transition_direction(
    transition: Transition,
    active: Seq<WorkerSpec>,
    idle: Seq<WorkerSpec>,
    chance: ChanceView,
    after: Transition,
    next: Moved,
    chance_after: ChanceView,
)
    requires
        active.len() <= usize::MAX,
        idle.len() <= usize::MAX,
        transition.grows(active, idle, chance, after, next, chance_after),
    ensures
        ({
            let target = transition.target_size;
            if active.len() < target && idle.len() > 0 {
                match next {
                    Next::Do(order) => {
                        &&& order matches crate::task::Order::Send { worker, command, .. } && worker == idle[0]
                            && command@ == crate::command::CommandView::GenerateKeyPackage
                        &&& after.stage matches TransitionStage::Adding(add) && add.active@ == active
                            && add.actor is Some && active.contains(add.actor->0) && 1 <= add.decision.transition_cap <= target
                            - active.len() && add.decision.transition_cap <= idle.len()
                            && add.decision.requested == add.decision.effective && (
                        !transition.external_coverage_lane ==> add.decision.transition_cap == target
                            - active.len() || add.decision.transition_cap == idle.len())
                    },
                    Next::Done(result) => result is Err,
                }
            } else if active.len() <= target {
                &&& next matches Next::Done(Ok(_))
                &&& after.active@ == active
                &&& after.idle@ == idle
            } else if active.len() == 1 {
                &&& next matches Next::Done(Err(_))
                &&& after.active@ == active
                &&& after.idle@ == idle
            } else {
                match next {
                    Next::Do(order) => {
                        &&& order matches crate::task::Order::ShowState { worker } && active.contains(worker)
                        &&& after.stage matches TransitionStage::Removing(remove)
                            && remove.active@ == active && remove.idle@ == idle && 1
                            <= remove.decision.transition_cap <= active.len() - target
                            && remove.decision.transition_cap < active.len() && (
                        !transition.external_coverage_lane ==> remove.decision.transition_cap
                            == active.len() - target || remove.decision.transition_cap
                            == active.len() - 1)
                    },
                    Next::Done(result) => result is Err,
                }
            }
        }),
{
}

/// How large a batch may be: one place is kept for each device that did not act yet and does not act
/// now, but one is always left.
pub proof fn law_turn_cap(
    active: Seq<WorkerSpec>,
    uses: Map<Seq<char>, usize>,
    device: Option<Seq<char>>,
    lane: bool,
    max_allowed: nat,
)
    requires
        max_allowed > 0,
    ensures
        ({
            let cap = turn_cap(active, uses, device, lane, max_allowed);
            let waits = |w: WorkerSpec|
                workers::external(w) && device != Some(w.id@) && table::count_of(uses, w.id@) == 0;
            &&& 1 <= cap <= max_allowed
            &&& !lane ==> cap == max_allowed
            &&& lane ==> cap == 1 || cap + active.filter(waits).len() == max_allowed
            &&& lane && active.filter(waits).len() < max_allowed ==> cap + active.filter(waits).len()
                == max_allowed
        }),
{
    let waits = |w: WorkerSpec|
        workers::external(w) && device != Some(w.id@) && table::count_of(uses, w.id@) == 0;
    workers::lemma_count_of_places(active, device_waiting(uses, device));
    assert(waits =~= device_waiting(uses, device));
}

/// Once a device has acted its use counts, and that of no other; a measured member that acted is
/// remembered as one.
pub proof fn law_uses(
    active: Seq<WorkerSpec>,
    uses: Map<Seq<char>, usize>,
    seen: Set<Seq<char>>,
    device: Option<Seq<char>>,
    id: Seq<char>,
)
    requires
        table::count_of(uses, id) < usize::MAX,
    ensures
        table::count_of(used(uses, device), id) == table::count_of(uses, id) + (if device == Some(
            id,
        ) {
            1int
        } else {
            0
        }),
        seen_after(active, seen, device).contains(id) <==> seen.contains(id) || (device == Some(id)
            && exists|i: int|
            0 <= i < active.len() && (#[trigger] active[i]).id@ == id && active[i].profile_enabled),
{
}

} // verus!
