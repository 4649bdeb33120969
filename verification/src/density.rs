//! Additions by each measured device, until there are enough of them to compare.

use rand::rngs::StdRng;
use std::collections::VecDeque;
use vstd::prelude::*;

use crate::add;
use crate::add::{AddMembers, Added};
use crate::batch;
use crate::batch::{
    membership_batch_group_cap, MembershipBatchDecision, MAX_RANDOM_MEMBERSHIP_BATCH_SIZE,
};
use crate::draw;
use crate::evict;
use crate::failure;
use crate::failure::Failure;
use crate::order;
use crate::order::sort_texts;
use crate::remove;
use crate::remove::{RemoveMembers, Removed};
use crate::roles;
use crate::roles::least_sampled_active_external_id;
use crate::table;
use crate::table::Counts;
use crate::task::{Next, Report, Spread};
use crate::text;
use crate::text::decimal_text;
use crate::transition;
use crate::transition::borrowed;
use crate::workers;
use crate::workers::{copies_of, ids_of, is_external_device, position_of, WorkerSpec};

verus! {

// ---------------------------------------------------------------------------
// Restoring the plateau
// ---------------------------------------------------------------------------

/// The first worker with an id is moved to the front.
pub open spec fn to_front(idle: Seq<WorkerSpec>, id: Seq<char>, after: Seq<WorkerSpec>) -> bool {
    if workers::has_id(idle, id) {
        exists|at: int| #[trigger]
            roles::first_with_id(idle, id, at) && after == seq![idle[at]] + idle.remove(at)
    } else {
        after == idle
    }
}

/// Workers are moved to the front one after the other, the last name first, so that they end up in
/// the order of the names.
pub open spec fn all_to_front(
    idle: Seq<WorkerSpec>,
    names: Seq<Seq<char>>,
    after: Seq<WorkerSpec>,
) -> bool
    decreases names.len(),
{
    if names.len() == 0 {
        after == idle
    } else {
        exists|mid: Seq<WorkerSpec>| #[trigger]
            to_front(idle, names.last(), mid) && all_to_front(mid, names.drop_last(), after)
    }
}

/// The names of the measured devices among idle workers, in their order.
pub open spec fn device_names(list: Seq<WorkerSpec>) -> Seq<Seq<char>> {
    order::ascending(workers::ids(workers::those(list, workers::profiled_external())))
}

pub(crate) fn copy_of_queue(idle: &VecDeque<WorkerSpec>) -> (out: Vec<WorkerSpec>)
    ensures
        out@ == idle@,
{
    let mut out: Vec<WorkerSpec> = Vec::new();
    let mut i: usize = 0;
    while i < idle.len()
        invariant
            i <= idle@.len(),
            out@ == idle@.take(i as int),
        decreases idle@.len() - i,
    {
        out.push(idle[i].clone());
        i = i + 1;
        assert(out@ =~= idle@.take(i as int));
    }
    assert(idle@.take(i as int) =~= idle@);
    out
}

/// The measured devices among the idle workers come first, in the order of their names.
fn requeue_devices(idle: VecDeque<WorkerSpec>) -> (out: VecDeque<WorkerSpec>)
    ensures
        all_to_front(idle@, device_names(idle@), out@),
{
    let mut out: VecDeque<WorkerSpec> = idle;
    let ghost first = out@;
    let device = |w: &WorkerSpec| -> (yes: bool)
        ensures
            yes == (w.profile_enabled && workers::external(*w)),
    { w.profile_enabled && is_external_device(w) };
    let devices: Vec<WorkerSpec> = copies_of(
        copy_of_queue(&out).as_slice(),
        device,
        Ghost(workers::profiled_external()),
    );
    let mut names: Vec<String> = sort_texts(&ids_of(devices.as_slice()));
    let ghost all = text::texts(names@);
    while names.len() > 0
        invariant
            forall|end: Seq<WorkerSpec>| #[trigger]
                all_to_front(out@, text::texts(names@), end) ==> all_to_front(first, all, end),
        decreases names@.len(),
    {
        let ghost names_before = text::texts(names@);
        let ghost before = out@;
        if let Some(name) = names.pop() {
            assert(names_before.drop_last() =~= text::texts(names@));
            assert(names_before.last() == name@);
            let found: Option<usize> = position_of(copy_of_queue(&out).as_slice(), name.as_str());
            if let Some(at) = found {
                assert(before[at as int].id@ == name@);
                assert(roles::first_with_id(before, name@, at as int));
                if let Some(worker) = out.remove(at) {
                    out.push_front(worker);
                }
            }
            assert(to_front(before, name@, out@));
            assert forall|end: Seq<WorkerSpec>| #[trigger]
                all_to_front(out@, text::texts(names@), end) implies all_to_front(
                first,
                all,
                end,
            ) by {
                assert(to_front(before, names_before.last(), out@));
                assert(all_to_front(before, names_before, end));
            }
        }
    }
    assert(text::texts(names@) =~= Seq::<Seq<char>>::empty());
    assert(all_to_front(out@, text::texts(names@), out@));
    out
}

proof fn lemma_all_to_front_holds(
    idle: Seq<WorkerSpec>,
    names: Seq<Seq<char>>,
    after: Seq<WorkerSpec>,
    w: WorkerSpec,
)
    requires
        all_to_front(idle, names, after),
    ensures
        workers::times(after, w) == workers::times(idle, w),
    decreases names.len(),
{
    if names.len() > 0 {
        let mid = choose|mid: Seq<WorkerSpec>| #[trigger]
            to_front(idle, names.last(), mid) && all_to_front(mid, names.drop_last(), after);
        lemma_all_to_front_holds(mid, names.drop_last(), after, w);
        if workers::has_id(idle, names.last()) {
            let at = choose|at: int| #[trigger]
                roles::first_with_id(idle, names.last(), at) && mid == seq![idle[at]]
                    + idle.remove(at);
            workers::lemma_times_joined(workers::just(idle[at]), idle.remove(at), w);
            workers::lemma_times_cut(idle, at, w);
            workers::lemma_times_cut(idle.skip(at), 0, w);
            assert(idle.skip(at).skip(1) =~= idle.skip(at + 1));
            assert(idle.remove(at) =~= idle.take(at) + idle.skip(at + 1));
            workers::lemma_times_joined(idle.take(at), idle.skip(at + 1), w);
        }
    }
}

/// How far a restoration is.
#[derive(Debug)]
pub enum RestoreStage {
    /// Members are added to a group that had a given size before.
    Adding { add: AddMembers, before: usize },
    /// Nothing is left to do.
    Over,
}

/// The restoration of the group's size from the idle workers.
#[derive(Debug)]
pub struct RestorePlateau {
    pub active: Vec<WorkerSpec>,
    pub idle: VecDeque<WorkerSpec>,
    pub spread: Spread,
    pub plateau_size: usize,
    pub plateau_index: usize,
    pub stage: RestoreStage,
}

/// What a restoration leads to.
pub type Restored = Next<Result<(), Failure>>;

/// A batch whose size is given.
pub open spec fn fixed_batch(size: usize, source: Seq<char>, decision: MembershipBatchDecision) -> bool {
    &&& decision.requested == size
    &&& decision.effective == size
    &&& decision.group_cap == MAX_RANDOM_MEMBERSHIP_BATCH_SIZE
    &&& decision.transition_cap == size
    &&& decision.source@ == source
}

fn fix_batch(size: usize, source: &'static str, group: usize) -> (decision: MembershipBatchDecision)
    ensures
        fixed_batch(size, source@, decision),
{
    MembershipBatchDecision {
        requested: size,
        effective: size,
        group_cap: membership_batch_group_cap(group),
        transition_cap: size,
        source: source,
    }
}

/// The text on a restoration that failed.
pub open spec fn not_restored(what: Seq<char>, plateau: nat, active: nat, idle: nat) -> Seq<char> {
    "external density recovery "@ + what + text::decimal(plateau) + " (active="@ + text::decimal(
        active,
    ) + ", idle="@ + text::decimal(idle) + ")"@
}

fn not_restored_text(what: &str, plateau: usize, active: usize, idle: usize) -> (out: String)
    ensures
        out@ == not_restored(what@, plateau as nat, active as nat, idle as nat),
{
    let mut out: String = "external density recovery ".to_owned();
    out.append(what);
    out.append(decimal_text(plateau as u128).as_str());
    out.append(" (active=");
    out.append(decimal_text(active as u128).as_str());
    out.append(", idle=");
    out.append(decimal_text(idle as u128).as_str());
    out.append(")");
    out
}

/// The first measured device among members.
pub open spec fn first_device(active: Seq<WorkerSpec>) -> Option<Seq<char>> {
    let devices = workers::those(active, workers::profiled_external());
    if devices.len() > 0 {
        Some(devices[0].id@)
    } else {
        None
    }
}

impl RestorePlateau {
    /// An addition that is under way is consistent.
    pub open spec fn wf(self) -> bool {
        self.stage matches RestoreStage::Adding { add, before: _ } ==> add.wf()
    }

    /// The report is one that the stage waits for.
    pub open spec fn waits_for(self, report: Report) -> bool {
        match self.stage {
            RestoreStage::Adding { add, before: _ } => add.waits_for(report),
            RestoreStage::Over => false,
        }
    }

    /// What does not change.
    pub open spec fn same_task(self, other: RestorePlateau) -> bool {
        &&& self.spread == other.spread
        &&& self.plateau_size == other.plateau_size
        &&& self.plateau_index == other.plateau_index
    }

    /// The restoration is over, with these members and idle workers.
    pub open spec fn ends(self, active: Seq<WorkerSpec>, idle: Seq<WorkerSpec>) -> bool {
        &&& self.active@ == active
        &&& self.idle@ == idle
        &&& self.stage is Over
    }

    /// The size of the next batch.
    pub open spec fn batch(self, active: nat, idle: nat) -> nat {
        transition::fewer(
            transition::fewer((self.plateau_size - active) as nat, idle),
            MAX_RANDOM_MEMBERSHIP_BATCH_SIZE as nat,
        )
    }

    /// While there are too few members, and idle workers are left, some are added by the first
    /// measured device, or else by one that is drawn.
    pub open spec fn grows(
        self,
        active: Seq<WorkerSpec>,
        idle: Seq<WorkerSpec>,
        state: int,
        after: RestorePlateau,
        next: Restored,
        state_after: int,
    ) -> bool {
        if active.len() < self.plateau_size && idle.len() > 0 {
            exists|begun: AddMembers, decision: MembershipBatchDecision, step: Added|
                {
                    &&& #[trigger] begun.started(
                        active,
                        idle,
                        decision,
                        self.spread,
                        first_device(active),
                        self.plateau_index,
                        self.plateau_size,
                        state,
                        step,
                        state_after,
                    )
                    &&& fixed_batch(
                        self.batch(active.len(), idle.len()) as usize,
                        "external_density_recovery"@,
                        decision,
                    )
                    &&& after.holds(begun, active.len(), step, next)
                }
        } else {
            &&& after.ends(active, idle)
            &&& state_after == state
            &&& if active.len() == self.plateau_size {
                evict::succeeded(next)
            } else {
                evict::failed(
                    next,
                    failure::plain(
                        not_restored(
                            "could not restore plateau "@,
                            self.plateau_size as nat,
                            active.len(),
                            idle.len(),
                        ),
                    ),
                )
            }
        }
    }

    /// An addition is under way, or it failed.
    pub open spec fn holds(self, add: AddMembers, before: nat, step: Added, next: Restored) -> bool {
        match step {
            Next::Do(_) => {
                &&& self.stage matches RestoreStage::Adding { add: held, before: size }
                &&& held == add
                &&& size == before
                &&& next == step
            },
            Next::Done(Err(error)) => self.ends(add.active@, add.idle@) && evict::failed(
                next,
                error@,
            ),
            Next::Done(Ok(_)) => false,
        }
    }

    /// What follows a step of an addition. One that leaves the group as small as it was is the
    /// last.
    pub open spec fn after_add(
        self,
        add: AddMembers,
        before: usize,
        step: Added,
        state: int,
        after: RestorePlateau,
        next: Restored,
        state_after: int,
    ) -> bool {
        if !evict::succeeded(step) {
            &&& after.holds(add, before as nat, step, next)
            &&& state_after == state
        } else if add.active@.len() <= before {
            &&& after.ends(add.active@, add.idle@)
            &&& state_after == state
            &&& evict::failed(
                next,
                failure::plain(
                    not_restored(
                        "made no progress at plateau "@,
                        self.plateau_size as nat,
                        add.active@.len(),
                        add.idle@.len(),
                    ),
                ),
            )
        } else {
            self.grows(add.active@, add.idle@, state, after, next, state_after)
        }
    }

    /// How far the restoration is after a report, and what is done then.
    pub open spec fn next(
        self,
        report: Report,
        state: int,
        after: RestorePlateau,
        next: Restored,
        state_after: int,
    ) -> bool {
        &&& after.same_task(self)
        &&& match self.stage {
            RestoreStage::Adding { add, before } => exists|
                then: AddMembers,
                step: Added,
            | #[trigger]
                add.next(report, then, step) && self.after_add(
                    then,
                    before,
                    step,
                    state,
                    after,
                    next,
                    state_after,
                ),
            RestoreStage::Over => true,
        }
    }

    /// A restoration that has begun, or ended at once.
    pub open spec fn started(
        self,
        active: Seq<WorkerSpec>,
        idle: Seq<WorkerSpec>,
        spread: Spread,
        plateau_size: usize,
        plateau_index: usize,
        state: int,
        next: Restored,
        state_after: int,
    ) -> bool {
        &&& self.wf()
        &&& self.spread == spread
        &&& self.plateau_size == plateau_size
        &&& self.plateau_index == plateau_index
        &&& exists|queue: Seq<WorkerSpec>| #[trigger]
            all_to_front(idle, device_names(idle), queue) && self.grows(
                active,
                queue,
                state,
                self,
                next,
                state_after,
            )
    }

    /// Begins a restoration. The measured devices among the idle workers come back first.
    pub fn start(
        active: Vec<WorkerSpec>,
        idle: VecDeque<WorkerSpec>,
        spread: Spread,
        plateau_size: usize,
        plateau_index: usize,
        rng: &mut StdRng,
    ) -> (made: (RestorePlateau, Restored))
        ensures
            made.0.started(
                active@,
                idle@,
                spread,
                plateau_size,
                plateau_index,
                draw::generator_state(*old(rng)),
                made.1,
                draw::generator_state(*final(rng)),
            ),
    {
        let queue: VecDeque<WorkerSpec> = requeue_devices(idle);
        let mut restore: RestorePlateau = RestorePlateau {
            active: active,
            idle: queue,
            spread: spread,
            plateau_size: plateau_size,
            plateau_index: plateau_index,
            stage: RestoreStage::Over,
        };
        assert(all_to_front(idle@, device_names(idle@), queue@));
        let next: Restored = restore.grow(rng);
        (restore, next)
    }

    fn finish(&mut self, result: Result<(), Failure>) -> (next: Restored)
        ensures
            final(self).wf(),
            final(self).same_task(*old(self)),
            final(self).ends(old(self).active@, old(self).idle@),
            next == Next::<Result<(), Failure>>::Done(result),
    {
        self.stage = RestoreStage::Over;
        Next::Done(result)
    }

    fn hold(&mut self, add: AddMembers, before: usize, step: Added) -> (next: Restored)
        requires
            add.wf(),
            !evict::succeeded(step),
        ensures
            final(self).wf(),
            final(self).same_task(*old(self)),
            final(self).holds(add, before as nat, step, next),
    {
        match step {
            Next::Do(order) => {
                self.stage = RestoreStage::Adding { add: add, before: before };
                Next::Do(order)
            },
            Next::Done(result) => {
                self.active = add.active;
                self.idle = add.idle;
                self.finish(result)
            },
        }
    }

    fn grow(&mut self, rng: &mut StdRng) -> (next: Restored)
        ensures
            final(self).wf(),
            final(self).same_task(*old(self)),
            old(self).grows(
                old(self).active@,
                old(self).idle@,
                draw::generator_state(*old(rng)),
                *final(self),
                next,
                draw::generator_state(*final(rng)),
            ),
            final(self).grows(
                old(self).active@,
                old(self).idle@,
                draw::generator_state(*old(rng)),
                *final(self),
                next,
                draw::generator_state(*final(rng)),
            ),
    {
        let ghost start = *self;
        let ghost state = draw::generator_state(*rng);
        if self.active.len() < self.plateau_size && self.idle.len() > 0 {
            let missing: usize = self.plateau_size - self.active.len();
            let there: usize = if missing < self.idle.len() {
                missing
            } else {
                self.idle.len()
            };
            let size: usize = if there < MAX_RANDOM_MEMBERSHIP_BATCH_SIZE {
                there
            } else {
                MAX_RANDOM_MEMBERSHIP_BATCH_SIZE
            };
            assert(size == self.batch(self.active@.len(), self.idle@.len()));
            let actor: Option<String> = find_first_device(self.active.as_slice());
            let before: usize = self.active.len();
            let decision: MembershipBatchDecision = fix_batch(
                size,
                "external_density_recovery",
                before,
            );
            let mut active: Vec<WorkerSpec> = Vec::new();
            std::mem::swap(&mut active, &mut self.active);
            let mut idle: VecDeque<WorkerSpec> = VecDeque::new();
            std::mem::swap(&mut idle, &mut self.idle);
            let (add, step): (AddMembers, Added) = AddMembers::start(
                active,
                idle,
                decision,
                self.spread,
                borrowed(&actor),
                rng,
                self.plateau_index,
                self.plateau_size,
            );
            assert(add.started(
                start.active@,
                start.idle@,
                decision,
                start.spread,
                first_device(start.active@),
                start.plateau_index,
                start.plateau_size,
                state,
                step,
                draw::generator_state(*rng),
            ));
            return self.hold(add, before, step);
        }
        if self.active.len() == self.plateau_size {
            return self.finish(Ok(()));
        }
        let why: String = not_restored_text(
            "could not restore plateau ",
            self.plateau_size,
            self.active.len(),
            self.idle.len(),
        );
        self.finish(Err(Failure::plain(why)))
    }

    /// What is done after a report.
    pub fn step(&mut self, report: Report, rng: &mut StdRng) -> (next: Restored)
        requires
            old(self).wf(),
            old(self).waits_for(report),
        ensures
            final(self).wf(),
            old(self).next(
                report,
                draw::generator_state(*old(rng)),
                *final(self),
                next,
                draw::generator_state(*final(rng)),
            ),
    {
        let ghost given = report;
        let mut stage: RestoreStage = RestoreStage::Over;
        std::mem::swap(&mut stage, &mut self.stage);
        match stage {
            RestoreStage::Adding { add, before } => {
                let mut add: AddMembers = add;
                let ghost first = add;
                let step: Added = add.step(report);
                assert(first.next(given, add, step));
                match step {
                    Next::Done(Ok(_)) => {
                        self.active = add.active;
                        self.idle = add.idle;
                        if self.active.len() <= before {
                            let why: String = not_restored_text(
                                "made no progress at plateau ",
                                self.plateau_size,
                                self.active.len(),
                                self.idle.len(),
                            );
                            self.finish(Err(Failure::plain(why)))
                        } else {
                            self.grow(rng)
                        }
                    },
                    step => self.hold(add, before, step),
                }
            },
            RestoreStage::Over => Next::Done(Ok(())),
        }
    }

    /// How often a worker is held, as a member, as an idle worker or as a joiner.
    pub open spec fn held(self, w: WorkerSpec) -> nat {
        match self.stage {
            RestoreStage::Adding { add, before: _ } => add.held(w),
            RestoreStage::Over => workers::times(self.active@, w) + workers::times(self.idle@, w),
        }
    }
}

pub(crate) fn find_first_device(active: &[WorkerSpec]) -> (found: Option<String>)
    ensures
        text::maybe(found) == first_device(active@),
{
    let device = |w: &WorkerSpec| -> (yes: bool)
        ensures
            yes == (w.profile_enabled && workers::external(*w)),
    { w.profile_enabled && is_external_device(w) };
    let devices: Vec<WorkerSpec> = copies_of(active, device, Ghost(workers::profiled_external()));
    if devices.len() > 0 {
        Some(devices[0].id.clone())
    } else {
        None
    }
}

proof fn lemma_restore_grows_holds(
    restore: RestorePlateau,
    active: Seq<WorkerSpec>,
    idle: Seq<WorkerSpec>,
    state: int,
    after: RestorePlateau,
    next: Restored,
    state_after: int,
    w: WorkerSpec,
)
    requires
        restore.grows(active, idle, state, after, next, state_after),
    ensures
        after.held(w) == workers::times(active, w) + workers::times(idle, w),
        evict::succeeded(next) ==> after.ends(active, idle) && active.len() == restore.plateau_size,
{
    if active.len() < restore.plateau_size && idle.len() > 0 {
        let (begun, decision, step) = choose|
            begun: AddMembers,
            decision: MembershipBatchDecision,
            step: Added,
        |
            {
                &&& #[trigger] begun.started(
                    active,
                    idle,
                    decision,
                    restore.spread,
                    first_device(active),
                    restore.plateau_index,
                    restore.plateau_size,
                    state,
                    step,
                    state_after,
                )
                &&& after.holds(begun, active.len(), step, next)
            };
        add::lemma_started_holds(
            begun,
            active,
            idle,
            decision,
            restore.spread,
            first_device(active),
            restore.plateau_index,
            restore.plateau_size,
            state,
            step,
            state_after,
            w,
        );
    }
}

/// A restoration makes no worker up and puts none in two places, and where it succeeds the group
/// has the size of the plateau.
pub proof fn law_restoration(
    restore: RestorePlateau,
    report: Report,
    state: int,
    after: RestorePlateau,
    next: Restored,
    state_after: int,
    w: WorkerSpec,
)
    requires
        restore.wf(),
        restore.waits_for(report),
        restore.next(report, state, after, next, state_after),
    ensures
        after.held(w) <= restore.held(w),
        evict::succeeded(next) ==> after.stage is Over && after.active@.len()
            == restore.plateau_size,
{
    match restore.stage {
        RestoreStage::Adding { add, before } => {
            let (then, step) = choose|then: AddMembers, step: Added| #[trigger]
                add.next(report, then, step) && restore.after_add(
                    then,
                    before,
                    step,
                    state,
                    after,
                    next,
                    state_after,
                );
            add::law_addition_keeps_workers(add, report, then, step, w);
            add::lemma_over(add, report, then, step, w);
            if evict::succeeded(step) && then.active@.len() > before {
                lemma_restore_grows_holds(
                    restore,
                    then.active@,
                    then.idle@,
                    state,
                    after,
                    next,
                    state_after,
                    w,
                );
            }
        },
        RestoreStage::Over => {},
    }
}

pub proof fn lemma_restore_started_holds(
    begun: RestorePlateau,
    active: Seq<WorkerSpec>,
    idle: Seq<WorkerSpec>,
    spread: Spread,
    plateau_size: usize,
    plateau_index: usize,
    state: int,
    next: Restored,
    state_after: int,
    w: WorkerSpec,
)
    requires
        begun.started(
            active,
            idle,
            spread,
            plateau_size,
            plateau_index,
            state,
            next,
            state_after,
        ),
    ensures
        begun.held(w) == workers::times(active, w) + workers::times(idle, w),
        next is Done ==> begun.stage is Over,
{
    let queue = choose|queue: Seq<WorkerSpec>| #[trigger]
        all_to_front(idle, device_names(idle), queue) && begun.grows(
            active,
            queue,
            state,
            begun,
            next,
            state_after,
        );
    lemma_all_to_front_holds(idle, device_names(idle), queue, w);
    lemma_restore_grows_holds(begun, active, queue, state, begun, next, state_after, w);
}

// ---------------------------------------------------------------------------
// The phase
// ---------------------------------------------------------------------------

/// The name of the source of a batch.
pub open spec fn density_source(batch_size: usize, reset: bool) -> Seq<char> {
    if batch_size == 1 && !reset {
        "external_density_k1"@
    } else if batch_size == 8 && !reset {
        "external_density_k8"@
    } else if batch_size == 1 {
        "external_density_reset_k1"@
    } else if batch_size == 8 {
        "external_density_reset_k8"@
    } else {
        "external_density_other"@
    }
}

/// The name of the source of a batch.
pub fn external_density_source(batch_size: usize, reset: bool) -> (source: &'static str)
    ensures
        source@ == density_source(batch_size, reset),
{
    match (batch_size, reset) {
        (1, false) => "external_density_k1",
        (8, false) => "external_density_k8",
        (1, true) => "external_density_reset_k1",
        (8, true) => "external_density_reset_k8",
        _ => "external_density_other",
    }
}

/// A member that has to stay: a measured one, or one on a device.
pub open spec fn staying() -> spec_fn(WorkerSpec) -> bool {
    |w: WorkerSpec| w.profile_enabled || workers::external(w)
}

/// Whether enough members can leave for the largest batch.
pub open spec fn allows_large(active: Seq<WorkerSpec>) -> bool {
    active.len() - workers::those(active, staying()).len() >= MAX_RANDOM_MEMBERSHIP_BATCH_SIZE
}

fn large_allowed(active: &[WorkerSpec]) -> (yes: bool)
    ensures
        yes == allows_large(active@),
{
    let stays = |w: &WorkerSpec| -> (yes: bool)
        ensures
            yes == (w.profile_enabled || workers::external(*w)),
    { w.profile_enabled || is_external_device(w) };
    let protected: usize = copies_of(active, stays, Ghost(staying())).len();
    proof {
        workers::lemma_those(active@, staying());
    }
    active.len() - protected >= MAX_RANDOM_MEMBERSHIP_BATCH_SIZE
}

/// What follows a restoration.
#[derive(Debug)]
pub enum AfterRestore {
    /// The batch that was chosen before it.
    Remove { size: usize, actor_id: String },
    /// The next choice.
    Choose,
}

/// How far the phase is.
#[derive(Debug)]
pub enum DensityStage {
    Restoring { restore: RestorePlateau, following: AfterRestore },
    Removing { size: usize, actor_id: String, remove: RemoveMembers },
    Adding { size: usize, actor_id: String, add: AddMembers },
    /// Nothing is left to do.
    Over,
}

/// The phase in which each measured device adds members often enough, one at a time and, where
/// enough members can leave, in batches of the largest size.
#[derive(Debug)]
pub struct DensityPhase {
    pub active: Vec<WorkerSpec>,
    pub idle: VecDeque<WorkerSpec>,
    pub spread: Spread,
    pub required: usize,
    pub plateau_size: usize,
    pub plateau_index: usize,
    /// Whether batches of the largest size are added too.
    pub large: bool,
    /// How often each device added one member.
    pub singles: Counts,
    /// How often each device added a batch of the largest size.
    pub larges: Counts,
    pub stage: DensityStage,
}

/// What the phase leads to.
pub type Densified = Next<Result<(), Failure>>;

/// The next batch size and device: the least sampled, the smaller size first.
pub open spec fn density_turn(
    active: Seq<WorkerSpec>,
    singles: Map<Seq<char>, usize>,
    larges: Map<Seq<char>, usize>,
    large: bool,
    required: usize,
    turn: Option<(usize, Seq<char>)>,
) -> bool {
    match turn {
        None => {
            &&& roles::least_sampled(active, singles, required, None)
            &&& large ==> roles::least_sampled(active, larges, required, None)
        },
        Some((size, id)) => if size == 1 {
            &&& roles::least_sampled(active, singles, required, Some(id))
            &&& large ==> forall|j: int|
                0 <= j < active.len() && roles::undersampled(larges, required)(
                    #[trigger] active[j],
                ) ==> table::count_of(singles, id) <= table::count_of(larges, active[j].id@)
        } else {
            &&& large
            &&& size == MAX_RANDOM_MEMBERSHIP_BATCH_SIZE
            &&& roles::least_sampled(active, larges, required, Some(id))
            &&& forall|j: int|
                0 <= j < active.len() && roles::undersampled(singles, required)(
                    #[trigger] active[j],
                ) ==> table::count_of(larges, id) < table::count_of(singles, active[j].id@)
        },
    }
}

/// A turn with the name of its device in full.
pub open spec fn turn_view(turn: Option<(usize, String)>) -> Option<(usize, Seq<char>)> {
    match turn {
        Some((size, id)) => Some((size, id@)),
        None => None,
    }
}

fn take_density_turn(
    active: &[WorkerSpec],
    singles: &Counts,
    larges: &Counts,
    large: bool,
    required: usize,
) -> (turn: Option<(usize, String)>)
    ensures
        density_turn(active@, singles@, larges@, large, required, turn_view(turn)),
{
    let single: Option<String> = least_sampled_active_external_id(active, singles, required);
    if !large {
        return match single {
            Some(id) => Some((1, id)),
            None => None,
        };
    }
    let batch: Option<String> = least_sampled_active_external_id(active, larges, required);
    match (single, batch) {
        (Some(one), Some(many)) => {
            if singles.count(one.as_str()) <= larges.count(many.as_str()) {
                Some((1, one))
            } else {
                Some((MAX_RANDOM_MEMBERSHIP_BATCH_SIZE, many))
            }
        },
        (Some(one), None) => Some((1, one)),
        (None, Some(many)) => Some((MAX_RANDOM_MEMBERSHIP_BATCH_SIZE, many)),
        (None, None) => None,
    }
}

impl DensityPhase {
    /// An operation that is under way is consistent.
    pub open spec fn wf(self) -> bool {
        match self.stage {
            DensityStage::Restoring { restore, following: _ } => restore.wf(),
            DensityStage::Removing { size: _, actor_id: _, remove } => remove.wf(),
            DensityStage::Adding { size: _, actor_id: _, add } => add.wf(),
            DensityStage::Over => true,
        }
    }

    /// The report is one that the stage waits for.
    pub open spec fn waits_for(self, report: Report) -> bool {
        match self.stage {
            DensityStage::Restoring { restore, following: _ } => restore.waits_for(report),
            DensityStage::Removing { size: _, actor_id: _, remove } => remove.waits_for(report),
            DensityStage::Adding { size: _, actor_id: _, add } => add.waits_for(report),
            DensityStage::Over => false,
        }
    }

    /// What does not change.
    pub open spec fn same_task(self, other: DensityPhase) -> bool {
        &&& self.spread == other.spread
        &&& self.required == other.required
        &&& self.plateau_size == other.plateau_size
        &&& self.plateau_index == other.plateau_index
        &&& self.large == other.large
    }

    /// The samples stay.
    pub open spec fn same_samples(self, other: DensityPhase) -> bool {
        &&& self.singles@ == other.singles@
        &&& self.larges@ == other.larges@
    }

    /// The phase is over, with these members and idle workers.
    pub open spec fn ends(self, active: Seq<WorkerSpec>, idle: Seq<WorkerSpec>) -> bool {
        &&& self.active@ == active
        &&& self.idle@ == idle
        &&& self.stage is Over
    }

    /// An operation failed, and the phase with it.
    pub open spec fn fails(
        self,
        active: Seq<WorkerSpec>,
        idle: Seq<WorkerSpec>,
        error: failure::FailureView,
        next: Densified,
    ) -> bool {
        &&& self.ends(active, idle)
        &&& evict::failed(next, error)
    }

    /// The next choice is made. Without a device that has too few samples the phase is over.
    pub open spec fn chooses(
        self,
        active: Seq<WorkerSpec>,
        idle: Seq<WorkerSpec>,
        singles: Map<Seq<char>, usize>,
        larges: Map<Seq<char>, usize>,
        state: int,
        after: DensityPhase,
        next: Densified,
        state_after: int,
    ) -> bool {
        &&& after.singles@ == singles
        &&& after.larges@ == larges
        &&& exists|turn: Option<(usize, Seq<char>)>| #[trigger]
            density_turn(active, singles, larges, self.large, self.required, turn) && match turn {
                None => {
                    &&& after.ends(active, idle)
                    &&& evict::succeeded(next)
                    &&& state_after == state
                },
                Some((size, id)) => if active.len() == self.plateau_size {
                    self.removes(active, idle, size, id, state, after, next, state_after)
                } else {
                    self.restores(active, idle, Some((size, id)), state, after, next, state_after)
                },
            }
    }

    /// The size of the plateau is restored first. A restoration may end at once.
    pub open spec fn restores(
        self,
        active: Seq<WorkerSpec>,
        idle: Seq<WorkerSpec>,
        following: Option<(usize, Seq<char>)>,
        state: int,
        after: DensityPhase,
        next: Densified,
        state_after: int,
    ) -> bool {
        exists|begun: RestorePlateau, step: Restored, state1: int|
            {
                &&& #[trigger] begun.started(
                    active,
                    idle,
                    self.spread,
                    self.plateau_size,
                    self.plateau_index,
                    state,
                    step,
                    state1,
                )
                &&& self.after_restore(begun, following, step, state1, after, next, state_after)
            }
    }

    /// What follows a step of a restoration, other than the next choice.
    pub open spec fn after_restore(
        self,
        restore: RestorePlateau,
        following: Option<(usize, Seq<char>)>,
        step: Restored,
        state: int,
        after: DensityPhase,
        next: Densified,
        state_after: int,
    ) -> bool {
        match step {
            Next::Do(_) => {
                &&& after.stage matches DensityStage::Restoring { restore: held, following: later }
                &&& held == restore
                &&& following_view(later) == following
                &&& next == step
                &&& state_after == state
            },
            Next::Done(Err(error)) => {
                &&& after.fails(restore.active@, restore.idle@, error@, next)
                &&& state_after == state
            },
            Next::Done(Ok(_)) => match following {
                Some((size, id)) => self.removes(
                    restore.active@,
                    restore.idle@,
                    size,
                    id,
                    state,
                    after,
                    next,
                    state_after,
                ),
                None => true,
            },
        }
    }

    /// Members are removed, so that the device can add as many.
    pub open spec fn removes(
        self,
        active: Seq<WorkerSpec>,
        idle: Seq<WorkerSpec>,
        size: usize,
        id: Seq<char>,
        state: int,
        after: DensityPhase,
        next: Densified,
        state_after: int,
    ) -> bool {
        exists|begun: RemoveMembers, decision: MembershipBatchDecision, step: Removed|
            {
                &&& #[trigger] begun.started(
                    active,
                    idle,
                    decision,
                    self.spread,
                    Some(id),
                    true,
                    true,
                    self.plateau_size,
                    state,
                    step,
                    state_after,
                )
                &&& fixed_batch(size, density_source(size, true), decision)
                &&& after.holds_remove(begun, size, id, step, next)
            }
    }

    /// A removal is under way, or it failed.
    pub open spec fn holds_remove(
        self,
        remove: RemoveMembers,
        size: usize,
        id: Seq<char>,
        step: Removed,
        next: Densified,
    ) -> bool {
        match step {
            Next::Do(_) => {
                &&& self.stage matches DensityStage::Removing {
                    size: held_size,
                    actor_id: held_id,
                    remove: held,
                }
                &&& held == remove
                &&& held_size == size
                &&& held_id@ == id
                &&& next == step
            },
            Next::Done(Err(error)) => self.fails(remove.active@, remove.idle@, error@, next),
            Next::Done(Ok(_)) => false,
        }
    }

    /// The device adds members.
    pub open spec fn adds(
        self,
        active: Seq<WorkerSpec>,
        idle: Seq<WorkerSpec>,
        size: usize,
        id: Seq<char>,
        state: int,
        after: DensityPhase,
        next: Densified,
        state_after: int,
    ) -> bool {
        exists|begun: AddMembers, decision: MembershipBatchDecision, step: Added|
            {
                &&& #[trigger] begun.started(
                    active,
                    idle,
                    decision,
                    self.spread,
                    Some(id),
                    self.plateau_index,
                    self.plateau_size,
                    state,
                    step,
                    state_after,
                )
                &&& fixed_batch(size, density_source(size, false), decision)
                &&& after.holds_add(begun, size, id, step, next)
            }
    }

    /// An addition is under way, or it failed.
    pub open spec fn holds_add(
        self,
        add: AddMembers,
        size: usize,
        id: Seq<char>,
        step: Added,
        next: Densified,
    ) -> bool {
        match step {
            Next::Do(_) => {
                &&& self.stage matches DensityStage::Adding {
                    size: held_size,
                    actor_id: held_id,
                    add: held,
                }
                &&& held == add
                &&& held_size == size
                &&& held_id@ == id
                &&& next == step
            },
            Next::Done(Err(error)) => self.fails(add.active@, add.idle@, error@, next),
            Next::Done(Ok(_)) => false,
        }
    }

    /// The plateau is restored, and then the next choice is made.
    pub open spec fn restores_and_chooses(
        self,
        active: Seq<WorkerSpec>,
        idle: Seq<WorkerSpec>,
        state: int,
        after: DensityPhase,
        next: Densified,
        state_after: int,
    ) -> bool {
        exists|begun: RestorePlateau, step: Restored, state1: int|
            {
                &&& #[trigger] begun.started(
                    active,
                    idle,
                    self.spread,
                    self.plateau_size,
                    self.plateau_index,
                    state,
                    step,
                    state1,
                )
                &&& self.restored(begun, None, step, state1, after, next, state_after)
            }
    }

    /// What follows a step of a restoration.
    pub open spec fn restored(
        self,
        restore: RestorePlateau,
        following: Option<(usize, Seq<char>)>,
        step: Restored,
        state: int,
        after: DensityPhase,
        next: Densified,
        state_after: int,
    ) -> bool {
        if evict::succeeded(step) && following is None {
            self.chooses(
                restore.active@,
                restore.idle@,
                self.singles@,
                self.larges@,
                state,
                after,
                next,
                state_after,
            )
        } else {
            &&& after.same_samples(self)
            &&& self.after_restore(restore, following, step, state, after, next, state_after)
        }
    }

    /// What follows a step of a removal.
    pub open spec fn after_remove(
        self,
        remove: RemoveMembers,
        size: usize,
        id: Seq<char>,
        step: Removed,
        state: int,
        after: DensityPhase,
        next: Densified,
        state_after: int,
    ) -> bool {
        let active = remove.active@;
        if !evict::succeeded(step) {
            &&& after.holds_remove(remove, size, id, step, next)
            &&& after.same_samples(self)
            &&& state_after == state
        } else if workers::has_id(active, id) && active.len() == (if self.plateau_size > size {
            self.plateau_size - size
        } else {
            0
        }) {
            &&& self.adds(active, remove.idle@, size, id, state, after, next, state_after)
            &&& after.same_samples(self)
        } else {
            self.restores_and_chooses(active, remove.idle@, state, after, next, state_after)
        }
    }

    /// What follows a step of an addition. It counts where the device is still a member of a group
    /// that has the size of the plateau.
    pub open spec fn after_add(
        self,
        add: AddMembers,
        size: usize,
        id: Seq<char>,
        step: Added,
        state: int,
        after: DensityPhase,
        next: Densified,
        state_after: int,
    ) -> bool {
        let active = add.active@;
        if !evict::succeeded(step) {
            &&& after.holds_add(add, size, id, step, next)
            &&& after.same_samples(self)
            &&& state_after == state
        } else if workers::has_id(active, id) && active.len() == self.plateau_size {
            self.chooses(
                active,
                add.idle@,
                if size == 1 {
                    table::one_more(self.singles@, id)
                } else {
                    self.singles@
                },
                if size == 1 {
                    self.larges@
                } else {
                    table::one_more(self.larges@, id)
                },
                state,
                after,
                next,
                state_after,
            )
        } else {
            self.restores_and_chooses(active, add.idle@, state, after, next, state_after)
        }
    }

    /// How far the phase is after a report, and what is done then.
    pub open spec fn next(
        self,
        report: Report,
        state: int,
        after: DensityPhase,
        next: Densified,
        state_after: int,
    ) -> bool {
        &&& after.same_task(self)
        &&& match self.stage {
            DensityStage::Restoring { restore, following } => exists|
                then: RestorePlateau,
                step: Restored,
                state1: int,
            | #[trigger]
                restore.next(report, state, then, step, state1) && self.restored(
                    then,
                    following_view(following),
                    step,
                    state1,
                    after,
                    next,
                    state_after,
                ),
            DensityStage::Removing { size, actor_id, remove } => exists|
                then: RemoveMembers,
                step: Removed,
            | #[trigger]
                remove.next(report, then, step) && self.after_remove(
                    then,
                    size,
                    actor_id@,
                    step,
                    state,
                    after,
                    next,
                    state_after,
                ),
            DensityStage::Adding { size, actor_id, add } => exists|
                then: AddMembers,
                step: Added,
            | #[trigger]
                add.next(report, then, step) && self.after_add(
                    then,
                    size,
                    actor_id@,
                    step,
                    state,
                    after,
                    next,
                    state_after,
                ),
            DensityStage::Over => true,
        }
    }

    /// The phase as it begins.
    pub open spec fn started(
        self,
        active: Seq<WorkerSpec>,
        idle: Seq<WorkerSpec>,
        spread: Spread,
        lane: bool,
        required: usize,
        plateau_size: usize,
        plateau_index: usize,
        state: int,
        next: Densified,
        state_after: int,
    ) -> bool {
        &&& self.wf()
        &&& self.spread == spread
        &&& self.required == required
        &&& self.plateau_size == plateau_size
        &&& self.plateau_index == plateau_index
        &&& self.large == allows_large(active)
        &&& if !lane || required == 0 {
            &&& self.ends(active, idle)
            &&& evict::succeeded(next)
            &&& state_after == state
        } else {
            self.chooses(
                active,
                idle,
                Map::empty(),
                Map::empty(),
                state,
                self,
                next,
                state_after,
            )
        }
    }

    /// Begins the phase. Outside of the lane of devices, or where no samples are required, there is
    /// nothing to do.
    pub fn start(
        active: Vec<WorkerSpec>,
        idle: VecDeque<WorkerSpec>,
        spread: Spread,
        external_coverage_lane: bool,
        min_profiled_samples_per_operation: usize,
        plateau_size: usize,
        plateau_index: usize,
        rng: &mut StdRng,
    ) -> (made: (DensityPhase, Densified))
        ensures
            made.0.started(
                active@,
                idle@,
                spread,
                external_coverage_lane,
                min_profiled_samples_per_operation,
                plateau_size,
                plateau_index,
                draw::generator_state(*old(rng)),
                made.1,
                draw::generator_state(*final(rng)),
            ),
    {
        let large: bool = large_allowed(active.as_slice());
        let mut phase: DensityPhase = DensityPhase {
            active: active,
            idle: idle,
            spread: spread,
            required: min_profiled_samples_per_operation,
            plateau_size: plateau_size,
            plateau_index: plateau_index,
            large: large,
            singles: Counts::new(),
            larges: Counts::new(),
            stage: DensityStage::Over,
        };
        if !external_coverage_lane || min_profiled_samples_per_operation == 0 {
            return (phase, Next::Done(Ok(())));
        }
        let next: Densified = phase.choose_next(rng);
        (phase, next)
    }

    fn fail(&mut self, error: Failure) -> (next: Densified)
        ensures
            final(self).wf(),
            final(self).same_task(*old(self)),
            final(self).same_samples(*old(self)),
            final(self).fails(old(self).active@, old(self).idle@, error@, next),
    {
        self.stage = DensityStage::Over;
        Next::Done(Err(error))
    }

    /// The members and the idle workers, handed over.
    fn hand_over(&mut self) -> (held: (Vec<WorkerSpec>, VecDeque<WorkerSpec>))
        ensures
            held.0@ == old(self).active@,
            held.1@ == old(self).idle@,
            final(self).same_task(*old(self)),
            final(self).same_samples(*old(self)),
            final(self).stage == old(self).stage,
    {
        let mut active: Vec<WorkerSpec> = Vec::new();
        std::mem::swap(&mut active, &mut self.active);
        let mut idle: VecDeque<WorkerSpec> = VecDeque::new();
        std::mem::swap(&mut idle, &mut self.idle);
        (active, idle)
    }

    fn remove(&mut self, size: usize, actor_id: String, rng: &mut StdRng) -> (next: Densified)
        ensures
            final(self).wf(),
            final(self).same_task(*old(self)),
            final(self).same_samples(*old(self)),
            old(self).removes(
                old(self).active@,
                old(self).idle@,
                size,
                actor_id@,
                draw::generator_state(*old(rng)),
                *final(self),
                next,
                draw::generator_state(*final(rng)),
            ),
    {
        let ghost start = *self;
        let decision: MembershipBatchDecision = fix_batch(
            size,
            external_density_source(size, true),
            self.active.len(),
        );
        let (active, idle): (Vec<WorkerSpec>, VecDeque<WorkerSpec>) = self.hand_over();
        let (remove, step): (RemoveMembers, Removed) = RemoveMembers::start(
            active,
            idle,
            decision,
            self.spread,
            Some(actor_id.as_str()),
            true,
            true,
            self.plateau_size,
            rng,
        );
        assert(remove.started(
            start.active@,
            start.idle@,
            decision,
            start.spread,
            Some(actor_id@),
            true,
            true,
            start.plateau_size,
            draw::generator_state(*old(rng)),
            step,
            draw::generator_state(*rng),
        ));
        self.hold_remove(remove, size, actor_id, step)
    }

    fn hold_remove(
        &mut self,
        remove: RemoveMembers,
        size: usize,
        actor_id: String,
        step: Removed,
    ) -> (next: Densified)
        requires
            remove.wf(),
            !evict::succeeded(step),
        ensures
            final(self).wf(),
            final(self).same_task(*old(self)),
            final(self).same_samples(*old(self)),
            final(self).holds_remove(remove, size, actor_id@, step, next),
    {
        match step {
            Next::Do(order) => {
                self.stage = DensityStage::Removing {
                    size: size,
                    actor_id: actor_id,
                    remove: remove,
                };
                Next::Do(order)
            },
            Next::Done(Err(error)) => {
                self.active = remove.active;
                self.idle = remove.idle;
                self.fail(error)
            },
            Next::Done(Ok(_)) => Next::Done(Ok(())),
        }
    }

    fn add(&mut self, size: usize, actor_id: String, rng: &mut StdRng) -> (next: Densified)
        ensures
            final(self).wf(),
            final(self).same_task(*old(self)),
            final(self).same_samples(*old(self)),
            old(self).adds(
                old(self).active@,
                old(self).idle@,
                size,
                actor_id@,
                draw::generator_state(*old(rng)),
                *final(self),
                next,
                draw::generator_state(*final(rng)),
            ),
    {
        let ghost start = *self;
        let decision: MembershipBatchDecision = fix_batch(
            size,
            external_density_source(size, false),
            self.active.len(),
        );
        let (active, idle): (Vec<WorkerSpec>, VecDeque<WorkerSpec>) = self.hand_over();
        let (add, step): (AddMembers, Added) = AddMembers::start(
            active,
            idle,
            decision,
            self.spread,
            Some(actor_id.as_str()),
            rng,
            self.plateau_index,
            self.plateau_size,
        );
        assert(add.started(
            start.active@,
            start.idle@,
            decision,
            start.spread,
            Some(actor_id@),
            start.plateau_index,
            start.plateau_size,
            draw::generator_state(*old(rng)),
            step,
            draw::generator_state(*rng),
        ));
        self.hold_add(add, size, actor_id, step)
    }

    fn hold_add(&mut self, add: AddMembers, size: usize, actor_id: String, step: Added) -> (next:
        Densified)
        requires
            add.wf(),
            !evict::succeeded(step),
        ensures
            final(self).wf(),
            final(self).same_task(*old(self)),
            final(self).same_samples(*old(self)),
            final(self).holds_add(add, size, actor_id@, step, next),
    {
        match step {
            Next::Do(order) => {
                self.stage = DensityStage::Adding { size: size, actor_id: actor_id, add: add };
                Next::Do(order)
            },
            Next::Done(Err(error)) => {
                self.active = add.active;
                self.idle = add.idle;
                self.fail(error)
            },
            Next::Done(Ok(_)) => Next::Done(Ok(())),
        }
    }

    fn restore(&mut self, rng: &mut StdRng) -> (begun: (RestorePlateau, Restored))
        ensures
            final(self).same_task(*old(self)),
            final(self).same_samples(*old(self)),
            final(self).stage == old(self).stage,
            begun.0.started(
                old(self).active@,
                old(self).idle@,
                old(self).spread,
                old(self).plateau_size,
                old(self).plateau_index,
                draw::generator_state(*old(rng)),
                begun.1,
                draw::generator_state(*final(rng)),
            ),
    {
        let (active, idle): (Vec<WorkerSpec>, VecDeque<WorkerSpec>) = self.hand_over();
        RestorePlateau::start(
            active,
            idle,
            self.spread,
            self.plateau_size,
            self.plateau_index,
            rng,
        )
    }

    fn follow(
        &mut self,
        restore: RestorePlateau,
        following: AfterRestore,
        step: Restored,
        rng: &mut StdRng,
    ) -> (next: Densified)
        requires
            restore.wf(),
            evict::succeeded(step) ==> following is Remove,
        ensures
            final(self).wf(),
            final(self).same_task(*old(self)),
            final(self).same_samples(*old(self)),
            old(self).after_restore(
                restore,
                following_view(following),
                step,
                draw::generator_state(*old(rng)),
                *final(self),
                next,
                draw::generator_state(*final(rng)),
            ),
    {
        match step {
            Next::Do(order) => {
                self.stage = DensityStage::Restoring { restore: restore, following: following };
                Next::Do(order)
            },
            Next::Done(Err(error)) => {
                self.active = restore.active;
                self.idle = restore.idle;
                self.fail(error)
            },
            Next::Done(Ok(_)) => {
                self.active = restore.active;
                self.idle = restore.idle;
                match following {
                    AfterRestore::Remove { size, actor_id } => self.remove(size, actor_id, rng),
                    AfterRestore::Choose => Next::Done(Ok(())),
                }
            },
        }
    }

    fn choose_next(&mut self, rng: &mut StdRng) -> (next: Densified)
        ensures
            final(self).wf(),
            final(self).same_task(*old(self)),
            old(self).chooses(
                old(self).active@,
                old(self).idle@,
                old(self).singles@,
                old(self).larges@,
                draw::generator_state(*old(rng)),
                *final(self),
                next,
                draw::generator_state(*final(rng)),
            ),
            final(self).chooses(
                old(self).active@,
                old(self).idle@,
                old(self).singles@,
                old(self).larges@,
                draw::generator_state(*old(rng)),
                *final(self),
                next,
                draw::generator_state(*final(rng)),
            ),
    {
        let ghost start = *self;
        let ghost state = draw::generator_state(*rng);
        let turn: Option<(usize, String)> = take_density_turn(
            self.active.as_slice(),
            &self.singles,
            &self.larges,
            self.large,
            self.required,
        );
        let ghost shown = turn_view(turn);
        assert(density_turn(
            start.active@,
            start.singles@,
            start.larges@,
            start.large,
            start.required,
            shown,
        ));
        match turn {
            None => {
                self.stage = DensityStage::Over;
                Next::Done(Ok(()))
            },
            Some((size, actor_id)) => {
                if self.active.len() == self.plateau_size {
                    let next: Densified = self.remove(size, actor_id, rng);
                    assert(self.removes(
                        start.active@,
                        start.idle@,
                        size,
                        actor_id@,
                        state,
                        *self,
                        next,
                        draw::generator_state(*rng),
                    ));
                    next
                } else {
                    let (restore, step): (RestorePlateau, Restored) = self.restore(rng);
                    let ghost state1 = draw::generator_state(*rng);
                    let next: Densified = self.follow(
                        restore,
                        AfterRestore::Remove { size: size, actor_id: actor_id },
                        step,
                        rng,
                    );
                    assert(start.after_restore(
                        restore,
                        shown,
                        step,
                        state1,
                        *self,
                        next,
                        draw::generator_state(*rng),
                    ));
                    assert(self.after_restore(
                        restore,
                        shown,
                        step,
                        state1,
                        *self,
                        next,
                        draw::generator_state(*rng),
                    ));
                    next
                }
            },
        }
    }

    fn take_restored(
        &mut self,
        restore: RestorePlateau,
        following: AfterRestore,
        step: Restored,
        rng: &mut StdRng,
    ) -> (next: Densified)
        requires
            restore.wf(),
        ensures
            final(self).wf(),
            final(self).same_task(*old(self)),
            old(self).restored(
                restore,
                following_view(following),
                step,
                draw::generator_state(*old(rng)),
                *final(self),
                next,
                draw::generator_state(*final(rng)),
            ),
    {
        match (step, following) {
            (Next::Done(Ok(_)), AfterRestore::Choose) => {
                self.active = restore.active;
                self.idle = restore.idle;
                self.choose_next(rng)
            },
            (step, following) => self.follow(restore, following, step, rng),
        }
    }

    fn restore_and_choose(&mut self, rng: &mut StdRng) -> (next: Densified)
        ensures
            final(self).wf(),
            final(self).same_task(*old(self)),
            old(self).restores_and_chooses(
                old(self).active@,
                old(self).idle@,
                draw::generator_state(*old(rng)),
                *final(self),
                next,
                draw::generator_state(*final(rng)),
            ),
    {
        let ghost start = *self;
        let (restore, step): (RestorePlateau, Restored) = self.restore(rng);
        let ghost state1 = draw::generator_state(*rng);
        let next: Densified = self.take_restored(restore, AfterRestore::Choose, step, rng);
        assert(start.restored(
            restore,
            None,
            step,
            state1,
            *self,
            next,
            draw::generator_state(*rng),
        ));
        next
    }

    fn has_member(&self, id: &str) -> (yes: bool)
        ensures
            yes == workers::has_id(self.active@, id@),
    {
        match position_of(self.active.as_slice(), id) {
            Some(at) => {
                assert(self.active@[at as int].id@ == id@);
                true
            },
            None => false,
        }
    }

    /// What is done after a report.
    pub fn step(&mut self, report: Report, rng: &mut StdRng) -> (next: Densified)
        requires
            old(self).wf(),
            old(self).waits_for(report),
        ensures
            final(self).wf(),
            old(self).next(
                report,
                draw::generator_state(*old(rng)),
                *final(self),
                next,
                draw::generator_state(*final(rng)),
            ),
    {
        let ghost given = report;
        let ghost state = draw::generator_state(*rng);
        let ghost start = *self;
        let mut stage: DensityStage = DensityStage::Over;
        std::mem::swap(&mut stage, &mut self.stage);
        match stage {
            DensityStage::Restoring { restore, following } => {
                let mut restore: RestorePlateau = restore;
                let ghost before = restore;
                let step: Restored = restore.step(report, rng);
                let ghost state1 = draw::generator_state(*rng);
                assert(before.next(given, state, restore, step, state1));
                let ghost later = following_view(following);
                let next: Densified = self.take_restored(restore, following, step, rng);
                assert(start.restored(
                    restore,
                    later,
                    step,
                    state1,
                    *self,
                    next,
                    draw::generator_state(*rng),
                ));
                next
            },
            DensityStage::Removing { size, actor_id, remove } => {
                let mut remove: RemoveMembers = remove;
                let ghost before = remove;
                let step: Removed = remove.step(report);
                assert(before.next(given, remove, step));
                let ghost id = actor_id@;
                let next: Densified = match step {
                    Next::Done(Ok(_)) => {
                        self.active = remove.active;
                        self.idle = remove.idle;
                        let left: usize = if self.plateau_size > size {
                            self.plateau_size - size
                        } else {
                            0
                        };
                        if self.has_member(actor_id.as_str()) && self.active.len() == left {
                            self.add(size, actor_id, rng)
                        } else {
                            self.restore_and_choose(rng)
                        }
                    },
                    step => self.hold_remove(remove, size, actor_id, step),
                };
                assert(start.after_remove(
                    remove,
                    size,
                    id,
                    step,
                    state,
                    *self,
                    next,
                    draw::generator_state(*rng),
                ));
                next
            },
            DensityStage::Adding { size, actor_id, add } => {
                let mut add: AddMembers = add;
                let ghost before = add;
                let step: Added = add.step(report);
                assert(before.next(given, add, step));
                let ghost id = actor_id@;
                let next: Densified = match step {
                    Next::Done(Ok(_)) => {
                        self.active = add.active;
                        self.idle = add.idle;
                        if self.has_member(actor_id.as_str()) && self.active.len()
                            == self.plateau_size {
                            if size == 1 {
                                self.singles.count_one(actor_id.as_str());
                            } else {
                                self.larges.count_one(actor_id.as_str());
                            }
                            self.choose_next(rng)
                        } else {
                            self.restore_and_choose(rng)
                        }
                    },
                    step => self.hold_add(add, size, actor_id, step),
                };
                assert(start.after_add(
                    add,
                    size,
                    id,
                    step,
                    state,
                    *self,
                    next,
                    draw::generator_state(*rng),
                ));
                next
            },
            DensityStage::Over => Next::Done(Ok(())),
        }
    }

    /// How often a worker is held, as a member, as an idle worker or as a joiner.
    pub open spec fn held(self, w: WorkerSpec) -> nat {
        match self.stage {
            DensityStage::Restoring { restore, following: _ } => restore.held(w),
            DensityStage::Removing { size: _, actor_id: _, remove } => remove.held(w),
            DensityStage::Adding { size: _, actor_id: _, add } => add.held(w),
            DensityStage::Over => workers::times(self.active@, w) + workers::times(self.idle@, w),
        }
    }
}

/// What follows a restoration: a batch that was chosen, or the next choice.
pub open spec fn following_view(following: AfterRestore) -> Option<(usize, Seq<char>)> {
    match following {
        AfterRestore::Remove { size, actor_id } => Some((size, actor_id@)),
        AfterRestore::Choose => None,
    }
}

/// How often a worker is among members and idle workers.
pub open spec fn among(active: Seq<WorkerSpec>, idle: Seq<WorkerSpec>, w: WorkerSpec) -> nat {
    workers::times(active, w) + workers::times(idle, w)
}

/// No measured device among the members has too few samples.
pub open spec fn enough(phase: DensityPhase) -> bool {
    &&& roles::least_sampled(phase.active@, phase.singles@, phase.required, None)
    &&& phase.large ==> roles::least_sampled(phase.active@, phase.larges@, phase.required, None)
}

proof fn lemma_adds_hold(
    phase: DensityPhase,
    active: Seq<WorkerSpec>,
    idle: Seq<WorkerSpec>,
    size: usize,
    id: Seq<char>,
    state: int,
    after: DensityPhase,
    next: Densified,
    state_after: int,
    w: WorkerSpec,
)
    requires
        phase.adds(active, idle, size, id, state, after, next, state_after),
    ensures
        after.held(w) == among(active, idle, w),
        !evict::succeeded(next),
{
    let (begun, decision, step) = choose|
        begun: AddMembers,
        decision: MembershipBatchDecision,
        step: Added,
    |
        {
            &&& #[trigger] begun.started(
                active,
                idle,
                decision,
                phase.spread,
                Some(id),
                phase.plateau_index,
                phase.plateau_size,
                state,
                step,
                state_after,
            )
            &&& after.holds_add(begun, size, id, step, next)
        };
    add::lemma_started_holds(
        begun,
        active,
        idle,
        decision,
        phase.spread,
        Some(id),
        phase.plateau_index,
        phase.plateau_size,
        state,
        step,
        state_after,
        w,
    );
}

proof fn lemma_removes_hold(
    phase: DensityPhase,
    active: Seq<WorkerSpec>,
    idle: Seq<WorkerSpec>,
    size: usize,
    id: Seq<char>,
    state: int,
    after: DensityPhase,
    next: Densified,
    state_after: int,
    w: WorkerSpec,
)
    requires
        phase.removes(active, idle, size, id, state, after, next, state_after),
    ensures
        after.held(w) == among(active, idle, w),
        !evict::succeeded(next),
{
}

proof fn lemma_after_restore_holds(
    phase: DensityPhase,
    restore: RestorePlateau,
    following: Option<(usize, Seq<char>)>,
    step: Restored,
    state: int,
    after: DensityPhase,
    next: Densified,
    state_after: int,
    w: WorkerSpec,
)
    requires
        phase.after_restore(restore, following, step, state, after, next, state_after),
        step is Done ==> restore.stage is Over,
        evict::succeeded(step) ==> following is Some,
    ensures
        after.held(w) == restore.held(w),
        !evict::succeeded(next),
{
    if evict::succeeded(step) {
        let (size, id) = following->0;
        lemma_removes_hold(
            phase,
            restore.active@,
            restore.idle@,
            size,
            id,
            state,
            after,
            next,
            state_after,
            w,
        );
    }
}

proof fn lemma_chooses_hold(
    phase: DensityPhase,
    active: Seq<WorkerSpec>,
    idle: Seq<WorkerSpec>,
    singles: Map<Seq<char>, usize>,
    larges: Map<Seq<char>, usize>,
    state: int,
    after: DensityPhase,
    next: Densified,
    state_after: int,
    w: WorkerSpec,
)
    requires
        phase.chooses(active, idle, singles, larges, state, after, next, state_after),
        after.same_task(phase),
    ensures
        after.held(w) == among(active, idle, w),
        evict::succeeded(next) ==> after.stage is Over && enough(after),
{
    let turn = choose|turn: Option<(usize, Seq<char>)>| #[trigger]
        density_turn(active, singles, larges, phase.large, phase.required, turn) && match turn {
            None => {
                &&& after.ends(active, idle)
                &&& evict::succeeded(next)
                &&& state_after == state
            },
            Some((size, id)) => if active.len() == phase.plateau_size {
                phase.removes(active, idle, size, id, state, after, next, state_after)
            } else {
                phase.restores(active, idle, Some((size, id)), state, after, next, state_after)
            },
        };
    if turn is Some {
        let (size, id) = turn->0;
        if active.len() == phase.plateau_size {
            lemma_removes_hold(
                phase,
                active,
                idle,
                size,
                id,
                state,
                after,
                next,
                state_after,
                w,
            );
        } else {
            let (begun, step, state1) = choose|begun: RestorePlateau, step: Restored, state1: int|
                {
                    &&& #[trigger] begun.started(
                        active,
                        idle,
                        phase.spread,
                        phase.plateau_size,
                        phase.plateau_index,
                        state,
                        step,
                        state1,
                    )
                    &&& phase.after_restore(begun, turn, step, state1, after, next, state_after)
                };
            lemma_restore_started_holds(
                begun,
                active,
                idle,
                phase.spread,
                phase.plateau_size,
                phase.plateau_index,
                state,
                step,
                state1,
                w,
            );
            lemma_after_restore_holds(
                phase,
                begun,
                turn,
                step,
                state1,
                after,
                next,
                state_after,
                w,
            );
        }
    }
}

proof fn lemma_restored_holds(
    phase: DensityPhase,
    restore: RestorePlateau,
    following: Option<(usize, Seq<char>)>,
    step: Restored,
    state: int,
    after: DensityPhase,
    next: Densified,
    state_after: int,
    w: WorkerSpec,
)
    requires
        phase.restored(restore, following, step, state, after, next, state_after),
        after.same_task(phase),
        step is Done ==> restore.stage is Over,
    ensures
        after.held(w) == restore.held(w),
        evict::succeeded(next) ==> after.stage is Over && enough(after),
{
    if evict::succeeded(step) && following is None {
        lemma_chooses_hold(
            phase,
            restore.active@,
            restore.idle@,
            phase.singles@,
            phase.larges@,
            state,
            after,
            next,
            state_after,
            w,
        );
    } else {
        lemma_after_restore_holds(
            phase,
            restore,
            following,
            step,
            state,
            after,
            next,
            state_after,
            w,
        );
    }
}

proof fn lemma_restores_and_chooses_hold(
    phase: DensityPhase,
    active: Seq<WorkerSpec>,
    idle: Seq<WorkerSpec>,
    state: int,
    after: DensityPhase,
    next: Densified,
    state_after: int,
    w: WorkerSpec,
)
    requires
        phase.restores_and_chooses(active, idle, state, after, next, state_after),
        after.same_task(phase),
    ensures
        after.held(w) == among(active, idle, w),
        evict::succeeded(next) ==> after.stage is Over && enough(after),
{
    let (begun, step, state1) = choose|begun: RestorePlateau, step: Restored, state1: int|
        {
            &&& #[trigger] begun.started(
                active,
                idle,
                phase.spread,
                phase.plateau_size,
                phase.plateau_index,
                state,
                step,
                state1,
            )
            &&& phase.restored(begun, None, step, state1, after, next, state_after)
        };
    lemma_restore_started_holds(
        begun,
        active,
        idle,
        phase.spread,
        phase.plateau_size,
        phase.plateau_index,
        state,
        step,
        state1,
        w,
    );
    lemma_restored_holds(phase, begun, None, step, state1, after, next, state_after, w);
}

/// The phase makes no worker up and puts none in two places. Where it succeeds, each measured device
/// among the members has added one member at a time often enough, and large batches too, where
/// they are added.
pub proof fn law_density(
    phase: DensityPhase,
    report: Report,
    state: int,
    after: DensityPhase,
    next: Densified,
    state_after: int,
    w: WorkerSpec,
)
    requires
        phase.wf(),
        phase.waits_for(report),
        phase.next(report, state, after, next, state_after),
    ensures
        after.held(w) <= phase.held(w),
        evict::succeeded(next) ==> after.stage is Over && enough(after),
{
    match phase.stage {
        DensityStage::Restoring { restore, following } => {
            let (then, step, state1) = choose|then: RestorePlateau, step: Restored, state1: int|
                #[trigger]
                restore.next(report, state, then, step, state1) && phase.restored(
                    then,
                    following_view(following),
                    step,
                    state1,
                    after,
                    next,
                    state_after,
                );
            law_restoration(restore, report, state, then, step, state1, w);
            lemma_restored_holds(
                phase,
                then,
                following_view(following),
                step,
                state1,
                after,
                next,
                state_after,
                w,
            );
        },
        DensityStage::Removing { size, actor_id, remove } => {
            let (then, step) = choose|then: RemoveMembers, step: Removed| #[trigger]
                remove.next(report, then, step) && phase.after_remove(
                    then,
                    size,
                    actor_id@,
                    step,
                    state,
                    after,
                    next,
                    state_after,
                );
            remove::law_removal_keeps_workers(remove, report, then, step, w);
            let id = actor_id@;
            if evict::succeeded(step) {
                if workers::has_id(then.active@, id) && then.active@.len() == (
                if phase.plateau_size > size {
                    phase.plateau_size - size
                } else {
                    0
                }) {
                    lemma_adds_hold(
                        phase,
                        then.active@,
                        then.idle@,
                        size,
                        id,
                        state,
                        after,
                        next,
                        state_after,
                        w,
                    );
                } else {
                    lemma_restores_and_chooses_hold(
                        phase,
                        then.active@,
                        then.idle@,
                        state,
                        after,
                        next,
                        state_after,
                        w,
                    );
                }
            }
        },
        DensityStage::Adding { size, actor_id, add } => {
            let (then, step) = choose|then: AddMembers, step: Added| #[trigger]
                add.next(report, then, step) && phase.after_add(
                    then,
                    size,
                    actor_id@,
                    step,
                    state,
                    after,
                    next,
                    state_after,
                );
            add::law_addition_keeps_workers(add, report, then, step, w);
            add::lemma_over(add, report, then, step, w);
            if evict::succeeded(step) {
                let id = actor_id@;
                if workers::has_id(then.active@, id) && then.active@.len()
                    == phase.plateau_size {
                    lemma_chooses_hold(
                        phase,
                        then.active@,
                        then.idle@,
                        after.singles@,
                        after.larges@,
                        state,
                        after,
                        next,
                        state_after,
                        w,
                    );
                } else {
                    lemma_restores_and_chooses_hold(
                        phase,
                        then.active@,
                        then.idle@,
                        state,
                        after,
                        next,
                        state_after,
                        w,
                    );
                }
            }
        },
        DensityStage::Over => {},
    }
}

/// The phase begins with the members and the idle workers that it is given.
pub proof fn lemma_density_begins(
    phase: DensityPhase,
    active: Seq<WorkerSpec>,
    idle: Seq<WorkerSpec>,
    spread: Spread,
    lane: bool,
    required: usize,
    plateau_size: usize,
    plateau_index: usize,
    state: int,
    next: Densified,
    state_after: int,
    w: WorkerSpec,
)
    requires
        phase.started(
            active,
            idle,
            spread,
            lane,
            required,
            plateau_size,
            plateau_index,
            state,
            next,
            state_after,
        ),
    ensures
        phase.held(w) == among(active, idle, w),
        evict::succeeded(next) ==> phase.stage is Over,
{
    if lane && required > 0 {
        lemma_chooses_hold(
            phase,
            active,
            idle,
            Map::empty(),
            Map::empty(),
            state,
            phase,
            next,
            state_after,
            w,
        );
    }
}

/// Whose turn it is. Without a measured device among the members that added too seldom, one at a time
/// or, where they are added, in batches of eight, it is nobody's turn. Otherwise a measured device that
/// added too seldom adds members, one or eight, and no other that added too seldom did so less often.
pub proof fn law_density_turn(
    active: Seq<WorkerSpec>,
    singles: Map<Seq<char>, usize>,
    larges: Map<Seq<char>, usize>,
    large: bool,
    required: usize,
    turn: Option<(usize, Seq<char>)>,
)
    requires
        density_turn(active, singles, larges, large, required, turn),
    ensures
        ({
            let device = |w: WorkerSpec| w.profile_enabled && workers::external(w);
            let one = |w: WorkerSpec| table::count_of(singles, w.id@);
            let eight = |w: WorkerSpec| table::count_of(larges, w.id@);
            match turn {
                None => forall|i: int|
                    0 <= i < active.len() && device(#[trigger] active[i]) ==> one(active[i])
                        >= required && (large ==> eight(active[i]) >= required),
                Some((size, id)) => {
                    &&& size == 1 || (large && size == 8)
                    &&& exists|i: int|
                        {
                            let least = if size == 1 {
                                one(active[i])
                            } else {
                                eight(active[i])
                            };
                            &&& 0 <= i < active.len()
                            &&& (#[trigger] active[i]).id@ == id
                            &&& device(active[i])
                            &&& least < required
                            &&& forall|j: int|
                                0 <= j < active.len() && device(#[trigger] active[j]) ==> (one(
                                    active[j],
                                ) >= required || least <= one(active[j])) && (large ==> eight(
                                    active[j],
                                ) >= required || least <= eight(active[j]))
                        }
                },
            }
        }),
{
    let device = |w: WorkerSpec| w.profile_enabled && workers::external(w);
    match turn {
        None => {
            assert forall|i: int| 0 <= i < active.len() && device(#[trigger] active[i]) implies
                table::count_of(singles, active[i].id@) >= required && (large ==> table::count_of(
                larges,
                active[i].id@,
            ) >= required) by {
                assert(!roles::undersampled(singles, required)(active[i]));
                if large {
                    assert(!roles::undersampled(larges, required)(active[i]));
                }
            }
        },
        Some((size, id)) => {
            let samples = if size == 1 {
                singles
            } else {
                larges
            };
            let i = choose|i: int|
                {
                    &&& 0 <= i < active.len()
                    &&& (#[trigger] active[i]).id@ == id
                    &&& roles::undersampled(samples, required)(active[i])
                    &&& forall|j: int|
                        0 <= j < active.len() && roles::undersampled(samples, required)(
                            #[trigger] active[j],
                        ) ==> roles::sampled_before(samples, active[i], active[j])
                };
            let least = table::count_of(samples, id);
            assert(active[i].id@ == id && device(active[i]) && least < required);
            assert forall|j: int| 0 <= j < active.len() && device(#[trigger] active[j]) implies (
            table::count_of(singles, active[j].id@) >= required || least <= table::count_of(
                singles,
                active[j].id@,
            )) && (large ==> table::count_of(larges, active[j].id@) >= required || least
                <= table::count_of(larges, active[j].id@)) by {
                if table::count_of(singles, active[j].id@) < required {
                    assert(roles::undersampled(singles, required)(active[j]));
                }
                if table::count_of(larges, active[j].id@) < required {
                    assert(roles::undersampled(larges, required)(active[j]));
                }
            }
        },
    }
}

/// Where the phase succeeds, each measured device among the members has added one member at a time as
/// often as is required, and eight at a time too where such batches are added.
pub proof fn law_density_is_reached(
    phase: DensityPhase,
    report: Report,
    state: int,
    after: DensityPhase,
    next: Densified,
    state_after: int,
    i: int,
)
    requires
        phase.wf(),
        phase.waits_for(report),
        phase.next(report, state, after, next, state_after),
        next matches Next::Done(Ok(_)),
        0 <= i < after.active@.len(),
        after.active@[i].profile_enabled,
        workers::external(after.active@[i]),
    ensures
        table::count_of(after.singles@, after.active@[i].id@) >= phase.required,
        phase.large ==> table::count_of(after.larges@, after.active@[i].id@) >= phase.required,
{
    law_density(phase, report, state, after, next, state_after, after.active@[i]);
    assert(!roles::undersampled(after.singles@, after.required)(after.active@[i]));
    if phase.large {
        assert(!roles::undersampled(after.larges@, after.required)(after.active@[i]));
    }
}

/// Batches of eight are added where at least eight members are neither measured nor on a device.
pub proof fn law_large_batches(
    phase: DensityPhase,
    active: Seq<WorkerSpec>,
    idle: Seq<WorkerSpec>,
    spread: Spread,
    lane: bool,
    required: usize,
    plateau_size: usize,
    plateau_index: usize,
    state: int,
    next: Densified,
    state_after: int,
)
    requires
        phase.started(
            active,
            idle,
            spread,
            lane,
            required,
            plateau_size,
            plateau_index,
            state,
            next,
            state_after,
        ),
    ensures
        phase.large <==> active.filter(
            |w: WorkerSpec| !w.profile_enabled && !workers::external(w),
        ).len() >= 8,
        !lane || required == 0 ==> (next matches Next::Done(Ok(_))) && phase.active@ == active
            && phase.idle@ == idle,
{
    let free = |w: WorkerSpec| !w.profile_enabled && !workers::external(w);
    workers::lemma_count_of_places(active, staying());
    lemma_two_parts(active, staying(), free);
}

proof fn lemma_two_parts(
    list: Seq<WorkerSpec>,
    a: spec_fn(WorkerSpec) -> bool,
    b: spec_fn(WorkerSpec) -> bool,
)
    requires
        forall|w: WorkerSpec| #[trigger] a(w) == !b(w),
    ensures
        list.filter(a).len() + list.filter(b).len() == list.len(),
    decreases list.len(),
{
    reveal(Seq::filter);
    if list.len() > 0 {
        lemma_two_parts(list.drop_last(), a, b);
        assert(a(list.last()) == !b(list.last()));
    }
}

/// An addition by a device counts for that device and the size of the batch, once, where the device is
/// still a member and the group has the size of the plateau. It counts for no other device and not for
/// the other size. Otherwise, and where it fails, nothing counts.
pub proof fn law_density_counts(
    phase: DensityPhase,
    add: AddMembers,
    size: usize,
    id: Seq<char>,
    step: Added,
    state: int,
    after: DensityPhase,
    next: Densified,
    state_after: int,
    other: Seq<char>,
)
    requires
        phase.after_add(add, size, id, step, state, after, next, state_after),
        evict::succeeded(step),
        exists|i: int| 0 <= i < add.active@.len() && (#[trigger] add.active@[i]).id@ == id,
        add.active@.len() == phase.plateau_size,
        table::count_of(phase.singles@, other) < usize::MAX,
        table::count_of(phase.larges@, other) < usize::MAX,
    ensures
        table::count_of(after.singles@, other) == table::count_of(phase.singles@, other) + (if size
            == 1 && other == id {
            1int
        } else {
            0
        }),
        table::count_of(after.larges@, other) == table::count_of(phase.larges@, other) + (if size
            != 1 && other == id {
            1int
        } else {
            0
        }),
{
}

/// A removal that makes room for a device: the device acts, nobody that is measured or on a device
/// leaves, and at most as many leave as the device adds then.
pub proof fn law_room_for_a_device(
    phase: DensityPhase,
    active: Seq<WorkerSpec>,
    idle: Seq<WorkerSpec>,
    size: usize,
    id: Seq<char>,
    state: int,
    after: DensityPhase,
    next: Densified,
    state_after: int,
)
    requires
        phase.removes(active, idle, size, id, state, after, next, state_after),
        next is Do,
    ensures
        after.stage is Removing,
        ({
            let remove = after.stage->Removing_remove;
            &&& after.stage->Removing_size == size
            &&& after.stage->Removing_actor_id@ == id
            &&& remove.active@ == active
            &&& 0 < remove.removed@.len() <= size
            &&& forall|k: int|
                0 <= k < remove.removed@.len() ==> !(
                #[trigger] remove.removed@[k]).profile_enabled && !workers::external(
                    remove.removed@[k],
                )
            &&& workers::has_id(active, id) ==> (
            next->Do_0 matches crate::task::Order::ShowState { worker } && worker.id@ == id)
        }),
{
    let remove = after.stage->Removing_remove;
    assert forall|k: int| 0 <= k < remove.removed@.len() implies !(
    #[trigger] remove.removed@[k]).profile_enabled && !workers::external(remove.removed@[k]) by {
        assert(!roles::protected(true, true)(remove.removed@[k]));
    }
}

/// A restoration adds members while some are missing and idle workers are left: the first idle worker
/// makes a key package, in order to join. At most as many are added as are missing, as there are idle
/// workers, and eight. It is over where the group has the size of the plateau, and fails where idle
/// workers are missing or there are too many members.
pub proof fn law_restoration_direction(
    restore: RestorePlateau,
    active: Seq<WorkerSpec>,
    idle: Seq<WorkerSpec>,
    state: int,
    after: RestorePlateau,
    next: Restored,
    state_after: int,
)
    requires
        active.len() <= usize::MAX,
        idle.len() <= usize::MAX,
        restore.grows(active, idle, state, after, next, state_after),
    ensures
        if active.len() < restore.plateau_size && idle.len() > 0 {
            match next {
                Next::Do(order) => {
                    &&& order matches crate::task::Order::Send { worker, command, .. } && worker
                        == idle[0] && command@ == crate::command::CommandView::GenerateKeyPackage
                    &&& after.stage matches RestoreStage::Adding { add, before } && before
                        == active.len() && add.active@ == active && 1 <= add.decision.effective
                        && add.decision.effective <= restore.plateau_size - active.len()
                        && add.decision.effective <= idle.len() && add.decision.effective <= 8 && (
                    add.decision.effective == restore.plateau_size - active.len()
                        || add.decision.effective == idle.len() || add.decision.effective == 8)
                },
                Next::Done(result) => result is Err,
            }
        } else {
            &&& after.active@ == active
            &&& after.idle@ == idle
            &&& if active.len() == restore.plateau_size {
                next matches Next::Done(Ok(_))
            } else {
                next matches Next::Done(Err(_))
            }
        },
{
}

} // verus!
