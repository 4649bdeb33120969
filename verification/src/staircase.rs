//! A whole run: the group visits one plateau after the other.

use rand::rngs::StdRng;
use std::collections::VecDeque;
use vstd::prelude::*;

use crate::application;
use crate::application::{ApplicationPhase, Sent};
use crate::command;
use crate::command::Command;
use crate::converge;
use crate::converge::{ensure_converged, Converge, Converged};
use crate::density;
use crate::density::{Densified, DensityPhase};
use crate::draw;
use crate::evict;
use crate::failure;
use crate::failure::Failure;
use crate::flags::{PayloadSizes, PlateauOrder, StepSize};
use crate::plateau;
use crate::plateau::build_plateau_sequence_for_order;
use crate::rejoin;
use crate::rejoin::{RejoinPhase, Rejoined};
use crate::roles;
use crate::roles::protected_member_floor;
use crate::task::{Next, Order, Report, Spread};
use crate::text;
use crate::text::{decimal_text, join};
use crate::transition;
use crate::transition::{Chance, Moved, Transition};
use crate::units;
use crate::update;
use crate::update::{UpdatePhase, Updated};
use crate::workers;
use crate::workers::{
    copies_of, copy_workers, frontload_profile_enabled_singletons_in_idle, is_external_device,
    WorkerSpec,
};

verus! {

// ---------------------------------------------------------------------------
// Planning
// ---------------------------------------------------------------------------

/// The smallest group size of a run: protected members never leave.
pub open spec fn smallest_size(
    all: Seq<WorkerSpec>,
    min_size: usize,
    profile_only_singletons: bool,
    lane: bool,
) -> int {
    units::greatest(
        min_size as int,
        workers::ids(
            workers::those(all, roles::protected(lane, profile_only_singletons)),
        ).to_set().len() as int,
    )
}

/// The sizes of a list as they are shown.
pub open spec fn sizes_shown(sizes: Seq<usize>) -> Seq<char> {
    "["@ + text::joined(crate::flags::decimals(sizes), ", "@) + "]"@
}

pub(crate) fn sizes_text(sizes: &Vec<usize>) -> (out: String)
    ensures
        out@ == sizes_shown(sizes@),
{
    let mut parts: Vec<String> = Vec::new();
    let mut i: usize = 0;
    while i < sizes.len()
        invariant
            i <= sizes@.len(),
            parts@.len() == i,
            forall|j: int|
                0 <= j < i ==> (#[trigger] parts@[j])@ == text::decimal(sizes@[j] as nat),
        decreases sizes@.len() - i,
    {
        parts.push(decimal_text(sizes[i] as u128));
        i = i + 1;
    }
    assert(text::texts(parts@) =~= crate::flags::decimals(sizes@));
    let mut out: String = "[".to_owned();
    out.append(join(&parts, ", ").as_str());
    out.append("]");
    out
}

/// Why the plateaus of a run cannot be visited.
pub open spec fn plateaus_refused(smallest: int, max_size: usize, given: Seq<usize>) -> Option<
    Seq<char>,
> {
    if smallest > max_size {
        Some(
            "protected calibration members require min-size "@ + text::decimal(smallest as nat)
                + ", but max-size is "@ + text::decimal(max_size as nat),
        )
    } else if given.len() > 0 && given[0] < smallest {
        Some(
            "explicit --plateau-sizes starts below protected minimum "@ + text::decimal(
                smallest as nat,
            ) + "; got "@ + sizes_shown(given),
        )
    } else {
        None
    }
}

/// The smallest group size and the plateaus of a run: those that are given, or else those that the
/// seed gives.
pub fn plan_plateaus(
    all: &[WorkerSpec],
    min_size: usize,
    max_size: usize,
    given: &Vec<usize>,
    step_size: &StepSize,
    roundtrips: usize,
    plateau_order: PlateauOrder,
    profile_only_singletons: bool,
    external_coverage_lane: bool,
    scenario_seed: u64,
) -> (result: Result<(usize, Vec<usize>), String>)
    requires
        step_size.wf(),
    ensures
        ({
            let smallest = smallest_size(
                all@,
                min_size,
                profile_only_singletons,
                external_coverage_lane,
            );
            match plateaus_refused(smallest, max_size, given@) {
                Some(why) => result is Err && result->Err_0@ == why,
                None => {
                    &&& result is Ok
                    &&& result->Ok_0.0 == smallest
                    &&& (result->Ok_0.1)@ == (if given@.len() > 0 {
                        given@
                    } else {
                        plateau::plateaus(
                            smallest as usize,
                            max_size,
                            *step_size,
                            roundtrips as nat,
                            plateau_order,
                            draw::seeded_state(scenario_seed),
                        ).0
                    })
                },
            }
        }),
{
    let floor: usize = protected_member_floor(all, profile_only_singletons, external_coverage_lane);
    let smallest: usize = if min_size >= floor {
        min_size
    } else {
        floor
    };
    if smallest > max_size {
        let mut why: String = "protected calibration members require min-size ".to_owned();
        why.append(decimal_text(smallest as u128).as_str());
        why.append(", but max-size is ");
        why.append(decimal_text(max_size as u128).as_str());
        return Err(why);
    }
    if given.len() > 0 {
        if given[0] < smallest {
            let mut why: String =
                "explicit --plateau-sizes starts below protected minimum ".to_owned();
            why.append(decimal_text(smallest as u128).as_str());
            why.append("; got ");
            why.append(sizes_text(given).as_str());
            return Err(why);
        }
        let mut sizes: Vec<usize> = Vec::new();
        let mut i: usize = 0;
        while i < given.len()
            invariant
                i <= given@.len(),
                sizes@ == given@.take(i as int),
            decreases given@.len() - i,
        {
            sizes.push(given[i]);
            i = i + 1;
            assert(sizes@ =~= given@.take(i as int));
        }
        assert(sizes@ =~= given@);
        return Ok((smallest, sizes));
    }
    let mut rng: StdRng = draw::seeded(scenario_seed);
    let sizes: Vec<usize> = build_plateau_sequence_for_order(
        smallest,
        max_size,
        step_size,
        roundtrips,
        plateau_order,
        &mut rng,
    );
    Ok((smallest, sizes))
}

/// How many workers are on devices of their own.
pub fn external_device_count(all: &[WorkerSpec]) -> (count: usize)
    ensures
        count == workers::those(all@, workers::on_device()).len(),
{
    let device = |w: &WorkerSpec| -> (yes: bool)
        ensures
            yes == workers::external(*w),
    { is_external_device(w) };
    copies_of(all, device, Ghost(workers::on_device())).len()
}

// ---------------------------------------------------------------------------
// The run
// ---------------------------------------------------------------------------

/// What a run does.
#[derive(Debug)]
pub struct RunPlan {
    pub plateaus: Vec<usize>,
    pub spread: Spread,
    pub external_coverage_lane: bool,
    pub profile_only_singletons: bool,
    pub remove_rejoin: bool,
    pub min_profiled_samples_per_operation: usize,
    pub update_rounds: usize,
    pub max_update_samples_per_plateau: usize,
    pub app_rounds: usize,
    pub max_app_samples_per_payload: usize,
    pub payload_sizes: PayloadSizes,
}

/// How far a run is.
#[derive(Debug)]
pub enum RunStage {
    /// The leader creates the group.
    Creating,
    /// That is reported.
    Reporting,
    /// The leader is asked for its state.
    Asking,
    /// The group is brought to the size of the plateau.
    Moving(Transition),
    /// The members agree on a state, before the phases of the plateau or in between.
    Converging { converge: Converge, between: bool },
    /// Members are removed and join again.
    Rejoining(RejoinPhase),
    /// Devices add members often enough.
    Densifying(DensityPhase),
    /// Members renew their keys.
    Updating(UpdatePhase),
    /// Members send messages.
    Applying(ApplicationPhase),
    /// Nothing is left to do.
    Over,
}

/// A whole run. While a phase is under way it holds the members, and the idle workers where it
/// needs them.
#[derive(Debug)]
pub struct Run {
    pub active: Vec<WorkerSpec>,
    pub idle: VecDeque<WorkerSpec>,
    pub plan: RunPlan,
    /// How many plateaus are done.
    pub at: usize,
    pub stage: RunStage,
}

/// What a run leads to.
pub type Ran = Next<Result<(), Failure>>;

/// The same chance, with the generator in another state.
pub open spec fn with_state(chance: transition::ChanceView, state: int) -> transition::ChanceView {
    transition::ChanceView { state: state, ..chance }
}

impl RunPlan {
    /// A range of payload sizes is not empty.
    pub open spec fn wf(self) -> bool {
        self.payload_sizes.wf()
    }

    /// The run failed.
    pub open spec fn fails(
        self,
        active: Seq<WorkerSpec>,
        idle: Seq<WorkerSpec>,
        error: failure::FailureView,
        after: Run,
        next: Ran,
    ) -> bool {
        &&& after.active@ == active
        &&& after.idle@ == idle
        &&& after.stage is Over
        &&& evict::failed(next, error)
    }

    /// A phase failed or goes on.
    pub open spec fn goes_on(
        self,
        stage: RunStage,
        active: Seq<WorkerSpec>,
        idle: Seq<WorkerSpec>,
        step: Ran,
        after: Run,
        next: Ran,
    ) -> bool {
        match step {
            Next::Do(_) => after.stage == stage && next == step,
            Next::Done(Err(error)) => self.fails(active, idle, error@, after, next),
            Next::Done(Ok(_)) => false,
        }
    }

    /// A plateau begins, or the run is over.
    pub open spec fn begins(
        self,
        at: int,
        active: Seq<WorkerSpec>,
        idle: Seq<WorkerSpec>,
        chance: transition::ChanceView,
        after: Run,
        next: Ran,
        chance_after: transition::ChanceView,
    ) -> bool {
        &&& after.at == at
        &&& if at >= self.plateaus@.len() {
            &&& after.active@ == active
            &&& after.idle@ == idle
            &&& after.stage is Over
            &&& evict::succeeded(next)
            &&& chance_after == chance
        } else {
            exists|begun: Transition, step: Moved|
                {
                    &&& #[trigger] begun.started(
                        active,
                        idle,
                        self.plateaus@[at],
                        self.spread,
                        self.external_coverage_lane,
                        self.profile_only_singletons,
                        (at + 1) as usize,
                        chance,
                        step,
                        chance_after,
                    )
                    &&& self.after_moving(at, begun, step, after, next)
                }
        }
    }

    /// What follows a step of a transition.
    pub open spec fn after_moving(
        self,
        at: int,
        then: Transition,
        step: Moved,
        after: Run,
        next: Ran,
    ) -> bool {
        if evict::succeeded(step) {
            self.converges(at, then.active@, then.idle@, false, after, next)
        } else {
            self.goes_on(
                RunStage::Moving(then),
                then.active@,
                then.idle@,
                step,
                after,
                next,
            )
        }
    }

    /// The members are asked for their states.
    pub open spec fn converges(
        self,
        at: int,
        active: Seq<WorkerSpec>,
        idle: Seq<WorkerSpec>,
        between: bool,
        after: Run,
        next: Ran,
    ) -> bool {
        &&& after.stage matches RunStage::Converging { converge, between: held }
        &&& held == between
        &&& after.idle@ == idle
        &&& next is Do
        &&& converge.started(
            active,
            self.spread,
            self.plateaus@[at],
            (at + 1) as usize,
            Next::Do(next->Do_0),
        )
    }

    /// What follows a step of an agreement.
    pub open spec fn after_converging(
        self,
        at: int,
        then: Converge,
        idle: Seq<WorkerSpec>,
        between: bool,
        step: Converged,
        chance: transition::ChanceView,
        after: Run,
        next: Ran,
        chance_after: transition::ChanceView,
    ) -> bool {
        match step {
            Next::Do(order) => {
                &&& after.stage == (RunStage::Converging { converge: then, between })
                &&& after.idle@ == idle
                &&& after.at == at
                &&& next == Next::<Result<(), Failure>>::Do(order)
                &&& chance_after == chance
            },
            Next::Done(Err(error)) => {
                &&& self.fails(then.active@, idle, error@, after, next)
                &&& chance_after == chance
            },
            Next::Done(Ok(_)) => if between {
                self.applies(at, then.active@, idle, chance, after, next, chance_after)
            } else if self.remove_rejoin {
                self.rejoins(at, then.active@, idle, chance, after, next, chance_after)
            } else {
                self.densifies(at, then.active@, idle, chance, after, next, chance_after)
            },
        }
    }

    /// Members are removed and join again.
    pub open spec fn rejoins(
        self,
        at: int,
        active: Seq<WorkerSpec>,
        idle: Seq<WorkerSpec>,
        chance: transition::ChanceView,
        after: Run,
        next: Ran,
        chance_after: transition::ChanceView,
    ) -> bool {
        exists|begun: RejoinPhase, step: Rejoined, state: int|
            {
                &&& #[trigger] begun.started(
                    active,
                    idle,
                    self.spread,
                    self.external_coverage_lane,
                    self.min_profiled_samples_per_operation,
                    self.plateaus@[at],
                    (at + 1) as usize,
                    chance.state,
                    step,
                    state,
                )
                &&& self.after_rejoining(
                    at,
                    begun,
                    step,
                    with_state(chance, state),
                    after,
                    next,
                    chance_after,
                )
            }
    }

    /// What follows a step of that phase; after it the plateau is done.
    pub open spec fn after_rejoining(
        self,
        at: int,
        then: RejoinPhase,
        step: Rejoined,
        chance: transition::ChanceView,
        after: Run,
        next: Ran,
        chance_after: transition::ChanceView,
    ) -> bool {
        if evict::succeeded(step) {
            self.begins(at + 1, then.active@, then.idle@, chance, after, next, chance_after)
        } else {
            &&& self.goes_on(
                RunStage::Rejoining(then),
                then.active@,
                then.idle@,
                step,
                after,
                next,
            )
            &&& after.at == at
            &&& chance_after == chance
        }
    }

    /// Devices add members often enough.
    pub open spec fn densifies(
        self,
        at: int,
        active: Seq<WorkerSpec>,
        idle: Seq<WorkerSpec>,
        chance: transition::ChanceView,
        after: Run,
        next: Ran,
        chance_after: transition::ChanceView,
    ) -> bool {
        exists|begun: DensityPhase, step: Densified, state: int|
            {
                &&& #[trigger] begun.started(
                    active,
                    idle,
                    self.spread,
                    self.external_coverage_lane,
                    self.min_profiled_samples_per_operation,
                    self.plateaus@[at],
                    (at + 1) as usize,
                    chance.state,
                    step,
                    state,
                )
                &&& self.after_densifying(
                    at,
                    begun,
                    step,
                    with_state(chance, state),
                    after,
                    next,
                    chance_after,
                )
            }
    }

    /// What follows a step of that phase; after it members renew their keys.
    pub open spec fn after_densifying(
        self,
        at: int,
        then: DensityPhase,
        step: Densified,
        chance: transition::ChanceView,
        after: Run,
        next: Ran,
        chance_after: transition::ChanceView,
    ) -> bool {
        &&& after.at == at
        &&& if evict::succeeded(step) {
            self.updates(at, then.active@, then.idle@, chance, after, next, chance_after)
        } else {
            &&& self.goes_on(
                RunStage::Densifying(then),
                then.active@,
                then.idle@,
                step,
                after,
                next,
            )
            &&& chance_after == chance
        }
    }

    /// Members renew their keys.
    pub open spec fn updates(
        self,
        at: int,
        active: Seq<WorkerSpec>,
        idle: Seq<WorkerSpec>,
        chance: transition::ChanceView,
        after: Run,
        next: Ran,
        chance_after: transition::ChanceView,
    ) -> bool {
        exists|begun: UpdatePhase, step: Updated, state: int|
            {
                &&& #[trigger] begun.started(
                    active,
                    self.spread,
                    self.plateaus@[at],
                    (at + 1) as usize,
                    units::updates_of(
                        self.plateaus@[at] as int,
                        self.update_rounds as int,
                        self.max_update_samples_per_plateau as int,
                    ) as usize,
                    self.external_coverage_lane,
                    self.min_profiled_samples_per_operation,
                    chance.state,
                    step,
                    state,
                )
                &&& chance_after == with_state(chance, state)
                &&& self.after_updating(at, begun, idle, step, after, next)
            }
    }

    /// What follows a step of that phase; after it the members agree again.
    pub open spec fn after_updating(
        self,
        at: int,
        then: UpdatePhase,
        idle: Seq<WorkerSpec>,
        step: Updated,
        after: Run,
        next: Ran,
    ) -> bool {
        &&& after.at == at
        &&& if evict::succeeded(step) {
            self.converges(at, then.active@, idle, true, after, next)
        } else {
            &&& self.goes_on(RunStage::Updating(then), then.active@, idle, step, after, next)
            &&& after.idle@ == idle
        }
    }

    /// Members send messages.
    pub open spec fn applies(
        self,
        at: int,
        active: Seq<WorkerSpec>,
        idle: Seq<WorkerSpec>,
        chance: transition::ChanceView,
        after: Run,
        next: Ran,
        chance_after: transition::ChanceView,
    ) -> bool {
        exists|begun: ApplicationPhase, step: Sent, state: int|
            {
                &&& #[trigger] begun.started(
                    active,
                    self.spread,
                    self.plateaus@[at],
                    (at + 1) as usize,
                    units::sends_of(
                        self.plateaus@[at] as int,
                        self.app_rounds as int,
                        self.max_app_samples_per_payload as int,
                    ) as usize,
                    self.payload_sizes,
                    self.external_coverage_lane,
                    self.min_profiled_samples_per_operation,
                    chance.state,
                    step,
                    state,
                )
                &&& self.after_applying(
                    at,
                    begun,
                    idle,
                    step,
                    with_state(chance, state),
                    after,
                    next,
                    chance_after,
                )
            }
    }

    /// What follows a step of that phase; after it the plateau is done.
    pub open spec fn after_applying(
        self,
        at: int,
        then: ApplicationPhase,
        idle: Seq<WorkerSpec>,
        step: Sent,
        chance: transition::ChanceView,
        after: Run,
        next: Ran,
        chance_after: transition::ChanceView,
    ) -> bool {
        if evict::succeeded(step) {
            self.begins(at + 1, then.active@, idle, chance, after, next, chance_after)
        } else {
            &&& self.goes_on(RunStage::Applying(then), then.active@, idle, step, after, next)
            &&& after.idle@ == idle
            &&& after.at == at
            &&& chance_after == chance
        }
    }
}

impl Run {
    /// The phase that is under way is consistent, and belongs to a plateau.
    pub open spec fn wf(self) -> bool {
        &&& self.plan.wf()
        &&& match self.stage {
            RunStage::Creating => self.active@.len() > 0,
            RunStage::Reporting => true,
            RunStage::Asking => true,
            RunStage::Moving(transition) => transition.wf() && self.at < self.plan.plateaus@.len(),
            RunStage::Converging { converge, between: _ } => converge.wf() && self.at
                < self.plan.plateaus@.len(),
            RunStage::Rejoining(phase) => phase.wf() && self.at < self.plan.plateaus@.len(),
            RunStage::Densifying(phase) => phase.wf() && self.at < self.plan.plateaus@.len(),
            RunStage::Updating(phase) => phase.wf() && self.at < self.plan.plateaus@.len(),
            RunStage::Applying(phase) => phase.wf() && self.at < self.plan.plateaus@.len(),
            RunStage::Over => true,
        }
        &&& self.at <= self.plan.plateaus@.len()
    }

    /// The report is one that the stage waits for.
    pub open spec fn waits_for(self, report: Report) -> bool {
        match self.stage {
            RunStage::Creating => report is Sent,
            RunStage::Reporting => report is Ticked,
            RunStage::Asking => report is Gathered,
            RunStage::Moving(transition) => transition.waits_for(report),
            RunStage::Converging { converge, between: _ } => converge.waits_for(report),
            RunStage::Rejoining(phase) => phase.waits_for(report),
            RunStage::Densifying(phase) => phase.waits_for(report),
            RunStage::Updating(phase) => phase.waits_for(report),
            RunStage::Applying(phase) => phase.waits_for(report),
            RunStage::Over => false,
        }
    }

    /// The members and the idle workers stay.
    pub open spec fn stays(self, after: Run) -> bool {
        &&& after.active@ == self.active@
        &&& after.idle@ == self.idle@
        &&& after.at == self.at
    }

    /// How far the run is after a report, and what is done then.
    pub open spec fn next(
        self,
        report: Report,
        chance: transition::ChanceView,
        after: Run,
        next: Ran,
        chance_after: transition::ChanceView,
    ) -> bool {
        &&& after.plan == self.plan
        &&& match (self.stage, report) {
            (RunStage::Creating, Report::Sent(Err(error))) => {
                &&& self.plan.fails(self.active@, self.idle@, error@, after, next)
                &&& chance_after == chance
            },
            (RunStage::Creating, Report::Sent(Ok(_))) => {
                &&& self.stays(after)
                &&& after.stage is Reporting
                &&& next is Do
                &&& next->Do_0.ticks(1, "create_group"@)
                &&& chance_after == chance
            },
            (RunStage::Reporting, Report::Ticked) => {
                &&& self.stays(after)
                &&& after.stage is Asking
                &&& next is Do
                &&& next->Do_0.gathers(self.active@)
                &&& chance_after == chance
            },
            (RunStage::Asking, Report::Gathered(Err(error))) => {
                &&& self.plan.fails(self.active@, self.idle@, error@, after, next)
                &&& chance_after == chance
            },
            (RunStage::Asking, Report::Gathered(Ok(answers))) => match converge::convergence(
                self.active@,
                answers@,
            ) {
                Err(why) => {
                    &&& self.plan.fails(
                        self.active@,
                        self.idle@,
                        failure::plain(why),
                        after,
                        next,
                    )
                    &&& chance_after == chance
                },
                Ok(_) => self.plan.begins(
                    self.at as int,
                    self.active@,
                    self.idle@,
                    chance,
                    after,
                    next,
                    chance_after,
                ),
            },
            (RunStage::Moving(transition), _) => exists|then: Transition, step: Moved| #[trigger]
                transition.next(report, chance, then, step, chance_after) && after.at == self.at
                    && self.plan.after_moving(self.at as int, then, step, after, next),
            (RunStage::Converging { converge, between }, _) => exists|
                then: Converge,
                step: Converged,
            | #[trigger]
                converge.next(report, then, step) && self.plan.after_converging(
                    self.at as int,
                    then,
                    self.idle@,
                    between,
                    step,
                    chance,
                    after,
                    next,
                    chance_after,
                ),
            (RunStage::Rejoining(phase), _) => exists|
                then: RejoinPhase,
                step: Rejoined,
                state: int,
            | #[trigger]
                phase.next(report, chance.state, then, step, state) && self.plan.after_rejoining(
                    self.at as int,
                    then,
                    step,
                    with_state(chance, state),
                    after,
                    next,
                    chance_after,
                ),
            (RunStage::Densifying(phase), _) => exists|
                then: DensityPhase,
                step: Densified,
                state: int,
            | #[trigger]
                phase.next(report, chance.state, then, step, state) && self.plan.after_densifying(
                    self.at as int,
                    then,
                    step,
                    with_state(chance, state),
                    after,
                    next,
                    chance_after,
                ),
            (RunStage::Updating(phase), _) => chance_after == chance && exists|
                then: UpdatePhase,
                step: Updated,
            | #[trigger]
                phase.next(report, then, step) && self.plan.after_updating(
                    self.at as int,
                    then,
                    self.idle@,
                    step,
                    after,
                    next,
                ),
            (RunStage::Applying(phase), _) => exists|
                then: ApplicationPhase,
                step: Sent,
                state: int,
            | #[trigger]
                phase.next(report, chance.state, then, step, state) && self.plan.after_applying(
                    self.at as int,
                    then,
                    self.idle@,
                    step,
                    with_state(chance, state),
                    after,
                    next,
                    chance_after,
                ),
            _ => true,
        }
    }

    /// The idle workers at the start: all but the leader, the measured ones first where only those
    /// that are alone are measured.
    pub open spec fn waiting_line(all: Seq<WorkerSpec>, profile_only_singletons: bool) -> Seq<
        WorkerSpec,
    > {
        if profile_only_singletons {
            workers::frontloaded(all.skip(1))
        } else {
            all.skip(1)
        }
    }

    /// Begins a run: the first worker creates the group, all others wait.
    pub fn start(all: &[WorkerSpec], plan: RunPlan) -> (made: (Run, Order))
        requires
            all@.len() > 0,
            plan.wf(),
        ensures
            made.0.wf(),
            made.0.active@ == seq![all@[0]],
            made.0.idle@ == Run::waiting_line(all@, plan.profile_only_singletons),
            made.0.plan == plan,
            made.0.at == 0,
            made.0.stage is Creating,
            made.1.sends(
                all@[0],
                command::CommandView::CreateGroup,
                "group created and DS group state registered"@,
                None,
                command::Marks::none(),
            ),
    {
        let active: Vec<WorkerSpec> = vec![all[0].clone()];
        assert(active@ =~= seq![all@[0]]);
        let mut idle: VecDeque<WorkerSpec> = VecDeque::new();
        let mut i: usize = 1;
        assert(idle@ =~= all@.subrange(1, 1));
        while i < all.len()
            invariant
                1 <= i <= all@.len(),
                idle@ == all@.subrange(1, i as int),
            decreases all@.len() - i,
        {
            idle.push_back(all[i].clone());
            i = i + 1;
            assert(idle@ =~= all@.subrange(1, i as int));
        }
        assert(idle@ =~= all@.skip(1));
        if plan.profile_only_singletons {
            idle = frontload_profile_enabled_singletons_in_idle(idle);
        }
        let order: Order = Order::Send {
            worker: all[0].clone(),
            command: Command::CreateGroup,
            ok_fragment: "group created and DS group state registered".to_owned(),
            phase: None,
            cursor: None,
        };
        let run: Run = Run {
            active: active,
            idle: idle,
            plan: plan,
            at: 0,
            stage: RunStage::Creating,
        };
        (run, order)
    }

    fn fail(&mut self, error: Failure) -> (next: Ran)
        requires
            old(self).plan.wf(),
            old(self).at <= old(self).plan.plateaus@.len(),
        ensures
            final(self).wf(),
            final(self).plan == old(self).plan,
            final(self).at == old(self).at,
            old(self).plan.fails(old(self).active@, old(self).idle@, error@, *final(self), next),
    {
        self.stage = RunStage::Over;
        Next::Done(Err(error))
    }

    /// The members and the idle workers, handed over.
    fn hand_over(&mut self) -> (held: (Vec<WorkerSpec>, VecDeque<WorkerSpec>))
        ensures
            held.0@ == old(self).active@,
            held.1@ == old(self).idle@,
            final(self).plan == old(self).plan,
            final(self).at == old(self).at,
    {
        let mut idle: VecDeque<WorkerSpec> = VecDeque::new();
        std::mem::swap(&mut idle, &mut self.idle);
        (self.hand_over_members(), idle)
    }

    /// The members, handed over.
    fn hand_over_members(&mut self) -> (held: Vec<WorkerSpec>)
        ensures
            held@ == old(self).active@,
            final(self).idle == old(self).idle,
            final(self).plan == old(self).plan,
            final(self).at == old(self).at,
    {
        let mut active: Vec<WorkerSpec> = Vec::new();
        std::mem::swap(&mut active, &mut self.active);
        active
    }

    fn begin_plateau(&mut self, chance: &mut Chance) -> (next: Ran)
        requires
            old(self).plan.wf(),
            old(self).at <= old(self).plan.plateaus@.len(),
            old(chance).wf(),
        ensures
            final(self).wf(),
            final(chance).wf(),
            final(self).plan == old(self).plan,
            old(self).plan.begins(
                old(self).at as int,
                old(self).active@,
                old(self).idle@,
                old(chance)@,
                *final(self),
                next,
                final(chance)@,
            ),
    {
        let ghost start = *self;
        let ghost luck = chance@;
        if self.at >= self.plan.plateaus.len() {
            self.stage = RunStage::Over;
            return Next::Done(Ok(()));
        }
        let at: usize = self.at;
        assert(self.plan.plateaus.len() == self.plan.plateaus@.len());
        let (active, idle): (Vec<WorkerSpec>, VecDeque<WorkerSpec>) = self.hand_over();
        let (transition, step): (Transition, Moved) = Transition::start(
            active,
            idle,
            self.plan.plateaus[at],
            self.plan.spread,
            self.plan.external_coverage_lane,
            self.plan.profile_only_singletons,
            at + 1,
            chance,
        );
        assert(transition.started(
            start.active@,
            start.idle@,
            start.plan.plateaus@[start.at as int],
            start.plan.spread,
            start.plan.external_coverage_lane,
            start.plan.profile_only_singletons,
            (start.at + 1) as usize,
            luck,
            step,
            chance@,
        ));
        self.take_moved(transition, step)
    }

    fn take_moved(&mut self, transition: Transition, step: Moved) -> (next: Ran)
        requires
            old(self).plan.wf(),
            old(self).at < old(self).plan.plateaus@.len(),
            transition.wf(),
        ensures
            final(self).wf(),
            final(self).plan == old(self).plan,
            final(self).at == old(self).at,
            old(self).plan.after_moving(
                old(self).at as int,
                transition,
                step,
                *final(self),
                next,
            ),
    {
        match step {
            Next::Do(order) => {
                self.stage = RunStage::Moving(transition);
                Next::Do(order)
            },
            Next::Done(Err(error)) => {
                self.active = transition.active;
                self.idle = transition.idle;
                self.fail(error)
            },
            Next::Done(Ok(_)) => {
                self.active = transition.active;
                self.idle = transition.idle;
                self.converge(false)
            },
        }
    }

    fn converge(&mut self, between: bool) -> (next: Ran)
        requires
            old(self).plan.wf(),
            old(self).at < old(self).plan.plateaus@.len(),
        ensures
            final(self).wf(),
            final(self).plan == old(self).plan,
            final(self).at == old(self).at,
            old(self).plan.converges(
                old(self).at as int,
                old(self).active@,
                old(self).idle@,
                between,
                *final(self),
                next,
            ),
    {
        let at: usize = self.at;
        assert(self.plan.plateaus.len() == self.plan.plateaus@.len());
        let active: Vec<WorkerSpec> = self.hand_over_members();
        let (converge, step): (Converge, Converged) = Converge::start(
            active,
            self.plan.spread,
            self.plan.plateaus[at],
            at + 1,
        );
        self.stage = RunStage::Converging { converge: converge, between: between };
        match step {
            Next::Do(order) => Next::Do(order),
            Next::Done(_) => Next::Done(Ok(())),
        }
    }

    fn take_converged(
        &mut self,
        converge: Converge,
        between: bool,
        step: Converged,
        chance: &mut Chance,
    ) -> (next: Ran)
        requires
            old(self).plan.wf(),
            old(self).at < old(self).plan.plateaus@.len(),
            converge.wf(),
            old(chance).wf(),
        ensures
            final(self).wf(),
            final(chance).wf(),
            final(self).plan == old(self).plan,
            old(self).plan.after_converging(
                old(self).at as int,
                converge,
                old(self).idle@,
                between,
                step,
                old(chance)@,
                *final(self),
                next,
                final(chance)@,
            ),
    {
        match step {
            Next::Do(order) => {
                self.stage = RunStage::Converging { converge: converge, between: between };
                Next::Do(order)
            },
            Next::Done(Err(error)) => {
                self.active = converge.active;
                self.fail(error)
            },
            Next::Done(Ok(_)) => {
                self.active = converge.active;
                if between {
                    self.apply(chance)
                } else if self.plan.remove_rejoin {
                    self.rejoin(chance)
                } else {
                    self.densify(chance)
                }
            },
        }
    }

    fn rejoin(&mut self, chance: &mut Chance) -> (next: Ran)
        requires
            old(self).plan.wf(),
            old(self).at < old(self).plan.plateaus@.len(),
            old(chance).wf(),
        ensures
            final(self).wf(),
            final(chance).wf(),
            final(self).plan == old(self).plan,
            old(self).plan.rejoins(
                old(self).at as int,
                old(self).active@,
                old(self).idle@,
                old(chance)@,
                *final(self),
                next,
                final(chance)@,
            ),
    {
        let ghost start = *self;
        let ghost luck = chance@;
        let at: usize = self.at;
        assert(self.plan.plateaus.len() == self.plan.plateaus@.len());
        let (active, idle): (Vec<WorkerSpec>, VecDeque<WorkerSpec>) = self.hand_over();
        let (phase, step): (RejoinPhase, Rejoined) = RejoinPhase::start(
            active,
            idle,
            self.plan.spread,
            self.plan.external_coverage_lane,
            self.plan.min_profiled_samples_per_operation,
            self.plan.plateaus[at],
            at + 1,
            &mut chance.rng,
        );
        let ghost state = chance@.state;
        assert(chance@ == with_state(luck, state));
        assert(phase.started(
            start.active@,
            start.idle@,
            start.plan.spread,
            start.plan.external_coverage_lane,
            start.plan.min_profiled_samples_per_operation,
            start.plan.plateaus@[start.at as int],
            (start.at + 1) as usize,
            luck.state,
            step,
            state,
        ));
        self.take_rejoined(phase, step, chance)
    }

    fn take_rejoined(&mut self, phase: RejoinPhase, step: Rejoined, chance: &mut Chance) -> (next:
        Ran)
        requires
            old(self).plan.wf(),
            old(self).at < old(self).plan.plateaus@.len(),
            phase.wf(),
            old(chance).wf(),
        ensures
            final(self).wf(),
            final(chance).wf(),
            final(self).plan == old(self).plan,
            old(self).plan.after_rejoining(
                old(self).at as int,
                phase,
                step,
                old(chance)@,
                *final(self),
                next,
                final(chance)@,
            ),
    {
        match step {
            Next::Do(order) => {
                self.stage = RunStage::Rejoining(phase);
                Next::Do(order)
            },
            Next::Done(Err(error)) => {
                self.active = phase.active;
                self.idle = phase.idle;
                self.fail(error)
            },
            Next::Done(Ok(_)) => {
                self.active = phase.active;
                self.idle = phase.idle;
        assert(self.plan.plateaus.len() == self.plan.plateaus@.len());
                self.at = self.at + 1;
                self.begin_plateau(chance)
            },
        }
    }

    fn densify(&mut self, chance: &mut Chance) -> (next: Ran)
        requires
            old(self).plan.wf(),
            old(self).at < old(self).plan.plateaus@.len(),
            old(chance).wf(),
        ensures
            final(self).wf(),
            final(chance).wf(),
            final(self).plan == old(self).plan,
            old(self).plan.densifies(
                old(self).at as int,
                old(self).active@,
                old(self).idle@,
                old(chance)@,
                *final(self),
                next,
                final(chance)@,
            ),
    {
        let ghost start = *self;
        let ghost luck = chance@;
        let at: usize = self.at;
        assert(self.plan.plateaus.len() == self.plan.plateaus@.len());
        let (active, idle): (Vec<WorkerSpec>, VecDeque<WorkerSpec>) = self.hand_over();
        let (phase, step): (DensityPhase, Densified) = DensityPhase::start(
            active,
            idle,
            self.plan.spread,
            self.plan.external_coverage_lane,
            self.plan.min_profiled_samples_per_operation,
            self.plan.plateaus[at],
            at + 1,
            &mut chance.rng,
        );
        let ghost state = chance@.state;
        assert(chance@ == with_state(luck, state));
        assert(phase.started(
            start.active@,
            start.idle@,
            start.plan.spread,
            start.plan.external_coverage_lane,
            start.plan.min_profiled_samples_per_operation,
            start.plan.plateaus@[start.at as int],
            (start.at + 1) as usize,
            luck.state,
            step,
            state,
        ));
        self.take_densified(phase, step, chance)
    }

    fn take_densified(&mut self, phase: DensityPhase, step: Densified, chance: &mut Chance) -> (
    next: Ran)
        requires
            old(self).plan.wf(),
            old(self).at < old(self).plan.plateaus@.len(),
            phase.wf(),
            old(chance).wf(),
        ensures
            final(self).wf(),
            final(chance).wf(),
            final(self).plan == old(self).plan,
            old(self).plan.after_densifying(
                old(self).at as int,
                phase,
                step,
                old(chance)@,
                *final(self),
                next,
                final(chance)@,
            ),
    {
        match step {
            Next::Do(order) => {
                self.stage = RunStage::Densifying(phase);
                Next::Do(order)
            },
            Next::Done(Err(error)) => {
                self.active = phase.active;
                self.idle = phase.idle;
                self.fail(error)
            },
            Next::Done(Ok(_)) => {
                self.active = phase.active;
                self.idle = phase.idle;
                self.update(chance)
            },
        }
    }

    fn update(&mut self, chance: &mut Chance) -> (next: Ran)
        requires
            old(self).plan.wf(),
            old(self).at < old(self).plan.plateaus@.len(),
            old(chance).wf(),
        ensures
            final(self).wf(),
            final(chance).wf(),
            final(self).plan == old(self).plan,
            final(self).at == old(self).at,
            old(self).plan.updates(
                old(self).at as int,
                old(self).active@,
                old(self).idle@,
                old(chance)@,
                *final(self),
                next,
                final(chance)@,
            ),
    {
        let ghost start = *self;
        let ghost luck = chance@;
        let at: usize = self.at;
        assert(self.plan.plateaus.len() == self.plan.plateaus@.len());
        let active: Vec<WorkerSpec> = self.hand_over_members();
        let (phase, step): (UpdatePhase, Updated) = UpdatePhase::start(
            active,
            self.plan.spread,
            self.plan.plateaus[at],
            at + 1,
            self.plan.update_rounds,
            self.plan.max_update_samples_per_plateau,
            self.plan.external_coverage_lane,
            self.plan.min_profiled_samples_per_operation,
            &mut chance.rng,
        );
        let ghost state = chance@.state;
        assert(chance@ == with_state(luck, state));
        assert(phase.started(
            start.active@,
            start.plan.spread,
            start.plan.plateaus@[start.at as int],
            (start.at + 1) as usize,
            units::updates_of(
                start.plan.plateaus@[start.at as int] as int,
                start.plan.update_rounds as int,
                start.plan.max_update_samples_per_plateau as int,
            ) as usize,
            start.plan.external_coverage_lane,
            start.plan.min_profiled_samples_per_operation,
            luck.state,
            step,
            state,
        ));
        self.take_updated(phase, step)
    }

    fn take_updated(&mut self, phase: UpdatePhase, step: Updated) -> (next: Ran)
        requires
            old(self).plan.wf(),
            old(self).at < old(self).plan.plateaus@.len(),
            phase.wf(),
        ensures
            final(self).wf(),
            final(self).plan == old(self).plan,
            final(self).at == old(self).at,
            old(self).plan.after_updating(
                old(self).at as int,
                phase,
                old(self).idle@,
                step,
                *final(self),
                next,
            ),
    {
        match step {
            Next::Do(order) => {
                self.stage = RunStage::Updating(phase);
                Next::Do(order)
            },
            Next::Done(Err(error)) => {
                self.active = phase.active;
                self.fail(error)
            },
            Next::Done(Ok(_)) => {
                self.active = phase.active;
                self.converge(true)
            },
        }
    }

    fn apply(&mut self, chance: &mut Chance) -> (next: Ran)
        requires
            old(self).plan.wf(),
            old(self).at < old(self).plan.plateaus@.len(),
            old(chance).wf(),
        ensures
            final(self).wf(),
            final(chance).wf(),
            final(self).plan == old(self).plan,
            old(self).plan.applies(
                old(self).at as int,
                old(self).active@,
                old(self).idle@,
                old(chance)@,
                *final(self),
                next,
                final(chance)@,
            ),
    {
        let ghost start = *self;
        let ghost luck = chance@;
        let at: usize = self.at;
        assert(self.plan.plateaus.len() == self.plan.plateaus@.len());
        let active: Vec<WorkerSpec> = self.hand_over_members();
        let (phase, step): (ApplicationPhase, Sent) = ApplicationPhase::start(
            active,
            self.plan.spread,
            self.plan.plateaus[at],
            at + 1,
            self.plan.app_rounds,
            self.plan.max_app_samples_per_payload,
            &self.plan.payload_sizes,
            self.plan.external_coverage_lane,
            self.plan.min_profiled_samples_per_operation,
            &mut chance.rng,
        );
        let ghost state = chance@.state;
        assert(chance@ == with_state(luck, state));
        assert(phase.started(
            start.active@,
            start.plan.spread,
            start.plan.plateaus@[start.at as int],
            (start.at + 1) as usize,
            units::sends_of(
                start.plan.plateaus@[start.at as int] as int,
                start.plan.app_rounds as int,
                start.plan.max_app_samples_per_payload as int,
            ) as usize,
            start.plan.payload_sizes,
            start.plan.external_coverage_lane,
            start.plan.min_profiled_samples_per_operation,
            luck.state,
            step,
            state,
        ));
        self.take_sent(phase, step, chance)
    }

    fn take_sent(&mut self, phase: ApplicationPhase, step: Sent, chance: &mut Chance) -> (next: Ran)
        requires
            old(self).plan.wf(),
            old(self).at < old(self).plan.plateaus@.len(),
            phase.wf(),
            old(chance).wf(),
        ensures
            final(self).wf(),
            final(chance).wf(),
            final(self).plan == old(self).plan,
            old(self).plan.after_applying(
                old(self).at as int,
                phase,
                old(self).idle@,
                step,
                old(chance)@,
                *final(self),
                next,
                final(chance)@,
            ),
    {
        match step {
            Next::Do(order) => {
                self.stage = RunStage::Applying(phase);
                Next::Do(order)
            },
            Next::Done(Err(error)) => {
                self.active = phase.active;
                self.fail(error)
            },
            Next::Done(Ok(_)) => {
                self.active = phase.active;
                assert(self.plan.plateaus.len() == self.plan.plateaus@.len());
                self.at = self.at + 1;
                self.begin_plateau(chance)
            },
        }
    }

    /// What is done after a report.
    pub fn step(&mut self, report: Report, chance: &mut Chance) -> (next: Ran)
        requires
            old(self).wf(),
            old(self).waits_for(report),
            old(chance).wf(),
        ensures
            final(self).wf(),
            final(chance).wf(),
            old(self).next(report, old(chance)@, *final(self), next, final(chance)@),
    {
        let ghost given = report;
        let ghost luck = chance@;
        let mut stage: RunStage = RunStage::Over;
        std::mem::swap(&mut stage, &mut self.stage);
        match (stage, report) {
            (RunStage::Creating, Report::Sent(Err(error))) => self.fail(error),
            (RunStage::Creating, Report::Sent(Ok(_))) => {
                self.stage = RunStage::Reporting;
                Next::Do(Order::Tick { units: 1, label: "create_group".to_owned() })
            },
            (RunStage::Reporting, Report::Ticked) => {
                self.stage = RunStage::Asking;
                Next::Do(Order::Gather { workers: copy_workers(self.active.as_slice()) })
            },
            (RunStage::Asking, Report::Gathered(Err(error))) => self.fail(error),
            (RunStage::Asking, Report::Gathered(Ok(answers))) => {
                match ensure_converged(self.active.as_slice(), answers.as_slice()) {
                    Ok(_) => self.begin_plateau(chance),
                    Err(why) => self.fail(Failure::plain(why)),
                }
            },
            (RunStage::Moving(transition), report) => {
                let mut transition: Transition = transition;
                let ghost before = transition;
                let step: Moved = transition.step(report, chance);
                assert(before.next(given, luck, transition, step, chance@));
                self.take_moved(transition, step)
            },
            (RunStage::Converging { converge, between }, report) => {
                let mut converge: Converge = converge;
                let ghost before = converge;
                let step: Converged = converge.step(report);
                assert(before.next(given, converge, step));
                self.take_converged(converge, between, step, chance)
            },
            (RunStage::Rejoining(phase), report) => {
                let mut phase: RejoinPhase = phase;
                let ghost before = phase;
                let step: Rejoined = phase.step(report, &mut chance.rng);
                let ghost state = chance@.state;
                assert(chance@ == with_state(luck, state));
                assert(before.next(given, luck.state, phase, step, state));
                self.take_rejoined(phase, step, chance)
            },
            (RunStage::Densifying(phase), report) => {
                let mut phase: DensityPhase = phase;
                let ghost before = phase;
                let step: Densified = phase.step(report, &mut chance.rng);
                let ghost state = chance@.state;
                assert(chance@ == with_state(luck, state));
                assert(before.next(given, luck.state, phase, step, state));
                self.take_densified(phase, step, chance)
            },
            (RunStage::Updating(phase), report) => {
                let mut phase: UpdatePhase = phase;
                let ghost before = phase;
                let step: Updated = phase.step(report);
                assert(before.next(given, phase, step));
                self.take_updated(phase, step)
            },
            (RunStage::Applying(phase), report) => {
                let mut phase: ApplicationPhase = phase;
                let ghost before = phase;
                let step: Sent = phase.step(report, &mut chance.rng);
                let ghost state = chance@.state;
                assert(chance@ == with_state(luck, state));
                assert(before.next(given, luck.state, phase, step, state));
                self.take_sent(phase, step, chance)
            },
            (stage, _) => {
                self.stage = stage;
                Next::Done(Ok(()))
            },
        }
    }
}

impl Run {
    /// How often a worker is held, as a member, as an idle worker or as a joiner.
    pub open spec fn held(self, w: WorkerSpec) -> nat {
        match self.stage {
            RunStage::Moving(transition) => transition.held(w),
            RunStage::Converging { converge, between: _ } => density::among(
                converge.active@,
                self.idle@,
                w,
            ),
            RunStage::Rejoining(phase) => phase.held(w),
            RunStage::Densifying(phase) => phase.held(w),
            RunStage::Updating(phase) => density::among(phase.active@, self.idle@, w),
            RunStage::Applying(phase) => density::among(phase.active@, self.idle@, w),
            _ => density::among(self.active@, self.idle@, w),
        }
    }

    /// The two that take part in a cycle, if there is one, are different workers of the run.
    pub open spec fn apart(self) -> bool {
        self.stage matches RunStage::Rejoining(phase) ==> phase.apart()
    }
}

proof fn lemma_begins_holds(
    plan: RunPlan,
    at: int,
    active: Seq<WorkerSpec>,
    idle: Seq<WorkerSpec>,
    chance: transition::ChanceView,
    after: Run,
    next: Ran,
    chance_after: transition::ChanceView,
    w: WorkerSpec,
)
    requires
        plan.begins(at, active, idle, chance, after, next, chance_after),
    ensures
        after.held(w) == density::among(active, idle, w),
{
    if at < plan.plateaus@.len() {
        let (begun, step) = choose|begun: Transition, step: Moved|
            {
                &&& #[trigger] begun.started(
                    active,
                    idle,
                    plan.plateaus@[at],
                    plan.spread,
                    plan.external_coverage_lane,
                    plan.profile_only_singletons,
                    (at + 1) as usize,
                    chance,
                    step,
                    chance_after,
                )
                &&& plan.after_moving(at, begun, step, after, next)
            };
        let fresh = choose|fresh: Transition|
            {
                &&& #[trigger] fresh.fresh(
                    plan.plateaus@[at],
                    plan.spread,
                    plan.external_coverage_lane,
                    plan.profile_only_singletons,
                    (at + 1) as usize,
                )
                &&& begun.same_task(fresh)
                &&& fresh.grows(active, idle, chance, begun, step, chance_after)
            };
        transition::lemma_grows_hold(fresh, active, idle, chance, begun, step, chance_after, w);
    }
}

proof fn lemma_updates_hold(
    plan: RunPlan,
    at: int,
    active: Seq<WorkerSpec>,
    idle: Seq<WorkerSpec>,
    chance: transition::ChanceView,
    after: Run,
    next: Ran,
    chance_after: transition::ChanceView,
    w: WorkerSpec,
)
    requires
        plan.updates(at, active, idle, chance, after, next, chance_after),
    ensures
        after.held(w) == density::among(active, idle, w),
{
}

/// A run makes no worker up and puts none in two places: from the start to the end, no worker is held
/// more often after a step than before it.
#[verifier::rlimit(40)]
pub proof fn law_run_keeps_workers(
    run: Run,
    report: Report,
    chance: transition::ChanceView,
    after: Run,
    next: Ran,
    chance_after: transition::ChanceView,
    w: WorkerSpec,
)
    requires
        run.wf(),
        run.apart(),
        run.waits_for(report),
        run.next(report, chance, after, next, chance_after),
    ensures
        after.held(w) <= run.held(w),
{
    let plan = run.plan;
    let at = run.at as int;
    match run.stage {
        RunStage::Asking => {
            if let Report::Gathered(Ok(answers)) = report {
                if converge::convergence(run.active@, answers@) is Ok {
                    lemma_begins_holds(
                        plan,
                        at,
                        run.active@,
                        run.idle@,
                        chance,
                        after,
                        next,
                        chance_after,
                        w,
                    );
                }
            }
        },
        RunStage::Moving(transition) => {
            let (then, step) = choose|then: Transition, step: Moved| #[trigger]
                transition.next(report, chance, then, step, chance_after) && after.at == run.at
                    && plan.after_moving(at, then, step, after, next);
            transition::law_transition(transition, report, chance, then, step, chance_after, w);
        },
        RunStage::Converging { converge, between } => {
            let (then, step) = choose|then: Converge, step: Converged| #[trigger]
                converge.next(report, then, step) && plan.after_converging(
                    at,
                    then,
                    run.idle@,
                    between,
                    step,
                    chance,
                    after,
                    next,
                    chance_after,
                );
            converge::law_converge(converge, report, then, step);
            assert(workers::times(then.active@, w) <= workers::times(converge.active@, w));
            if step is Done && step->Done_0 is Ok {
                lemma_after_converging_holds(
                    plan,
                    at,
                    then.active@,
                    run.idle@,
                    between,
                    chance,
                    after,
                    next,
                    chance_after,
                    w,
                );
            }
        },
        RunStage::Rejoining(phase) => {
            let (then, step, state) = choose|then: RejoinPhase, step: Rejoined, state: int|
                #[trigger]
                phase.next(report, chance.state, then, step, state) && plan.after_rejoining(
                    at,
                    then,
                    step,
                    with_state(chance, state),
                    after,
                    next,
                    chance_after,
                );
            rejoin::law_rejoin_phase(phase, report, chance.state, then, step, state, w);
            if evict::succeeded(step) {
                lemma_begins_holds(
                    plan,
                    at + 1,
                    then.active@,
                    then.idle@,
                    with_state(chance, state),
                    after,
                    next,
                    chance_after,
                    w,
                );
            }
        },
        RunStage::Densifying(phase) => {
            let (then, step, state) = choose|then: DensityPhase, step: Densified, state: int|
                #[trigger]
                phase.next(report, chance.state, then, step, state) && plan.after_densifying(
                    at,
                    then,
                    step,
                    with_state(chance, state),
                    after,
                    next,
                    chance_after,
                );
            density::law_density(phase, report, chance.state, then, step, state, w);
            if evict::succeeded(step) {
                lemma_updates_hold(
                    plan,
                    at,
                    then.active@,
                    then.idle@,
                    with_state(chance, state),
                    after,
                    next,
                    chance_after,
                    w,
                );
            }
        },
        RunStage::Updating(phase) => {
            let (then, step) = choose|then: UpdatePhase, step: Updated| #[trigger]
                phase.next(report, then, step) && plan.after_updating(
                    at,
                    then,
                    run.idle@,
                    step,
                    after,
                    next,
                );
            update::law_update_phase(phase, report, then, step);
            assert(workers::times(then.active@, w) <= workers::times(phase.active@, w));
        },
        RunStage::Applying(phase) => {
            let (then, step, state) = choose|then: ApplicationPhase, step: Sent, state: int|
                #[trigger]
                phase.next(report, chance.state, then, step, state) && plan.after_applying(
                    at,
                    then,
                    run.idle@,
                    step,
                    with_state(chance, state),
                    after,
                    next,
                    chance_after,
                );
            application::law_application_phase(phase, report, chance.state, then, step, state);
            assert(workers::times(then.active@, w) <= workers::times(phase.active@, w));
            if evict::succeeded(step) {
                lemma_begins_holds(
                    plan,
                    at + 1,
                    then.active@,
                    run.idle@,
                    with_state(chance, state),
                    after,
                    next,
                    chance_after,
                    w,
                );
            }
        },
        _ => {},
    }
}

proof fn lemma_after_converging_holds(
    plan: RunPlan,
    at: int,
    active: Seq<WorkerSpec>,
    idle: Seq<WorkerSpec>,
    between: bool,
    chance: transition::ChanceView,
    after: Run,
    next: Ran,
    chance_after: transition::ChanceView,
    w: WorkerSpec,
)
    requires
        if between {
            plan.applies(at, active, idle, chance, after, next, chance_after)
        } else if plan.remove_rejoin {
            plan.rejoins(at, active, idle, chance, after, next, chance_after)
        } else {
            plan.densifies(at, active, idle, chance, after, next, chance_after)
        },
    ensures
        after.held(w) == density::among(active, idle, w),
{
    if between {
        let (begun, step, state) = choose|begun: ApplicationPhase, step: Sent, state: int|
            {
                &&& #[trigger] begun.started(
                    active,
                    plan.spread,
                    plan.plateaus@[at],
                    (at + 1) as usize,
                    units::sends_of(
                        plan.plateaus@[at] as int,
                        plan.app_rounds as int,
                        plan.max_app_samples_per_payload as int,
                    ) as usize,
                    plan.payload_sizes,
                    plan.external_coverage_lane,
                    plan.min_profiled_samples_per_operation,
                    chance.state,
                    step,
                    state,
                )
                &&& plan.after_applying(
                    at,
                    begun,
                    idle,
                    step,
                    with_state(chance, state),
                    after,
                    next,
                    chance_after,
                )
            };
        application::lemma_application_begins(
            begun,
            active,
            plan.spread,
            plan.plateaus@[at],
            (at + 1) as usize,
            units::sends_of(
                plan.plateaus@[at] as int,
                plan.app_rounds as int,
                plan.max_app_samples_per_payload as int,
            ) as usize,
            plan.payload_sizes,
            plan.external_coverage_lane,
            plan.min_profiled_samples_per_operation,
            chance.state,
            step,
            state,
        );
        if evict::succeeded(step) {
            lemma_begins_holds(
                plan,
                at + 1,
                active,
                idle,
                with_state(chance, state),
                after,
                next,
                chance_after,
                w,
            );
        }
    } else if plan.remove_rejoin {
        let (begun, step, state) = choose|begun: RejoinPhase, step: Rejoined, state: int|
            {
                &&& #[trigger] begun.started(
                    active,
                    idle,
                    plan.spread,
                    plan.external_coverage_lane,
                    plan.min_profiled_samples_per_operation,
                    plan.plateaus@[at],
                    (at + 1) as usize,
                    chance.state,
                    step,
                    state,
                )
                &&& plan.after_rejoining(
                    at,
                    begun,
                    step,
                    with_state(chance, state),
                    after,
                    next,
                    chance_after,
                )
            };
        rejoin::lemma_rejoin_begins(
            begun,
            active,
            idle,
            plan.spread,
            plan.external_coverage_lane,
            plan.min_profiled_samples_per_operation,
            plan.plateaus@[at],
            (at + 1) as usize,
            chance.state,
            step,
            state,
            w,
        );
        if evict::succeeded(step) {
            lemma_begins_holds(
                plan,
                at + 1,
                begun.active@,
                begun.idle@,
                with_state(chance, state),
                after,
                next,
                chance_after,
                w,
            );
        }
    } else {
        let (begun, step, state) = choose|begun: DensityPhase, step: Densified, state: int|
            {
                &&& #[trigger] begun.started(
                    active,
                    idle,
                    plan.spread,
                    plan.external_coverage_lane,
                    plan.min_profiled_samples_per_operation,
                    plan.plateaus@[at],
                    (at + 1) as usize,
                    chance.state,
                    step,
                    state,
                )
                &&& plan.after_densifying(
                    at,
                    begun,
                    step,
                    with_state(chance, state),
                    after,
                    next,
                    chance_after,
                )
            };
        density::lemma_density_begins(
            begun,
            active,
            idle,
            plan.spread,
            plan.external_coverage_lane,
            plan.min_profiled_samples_per_operation,
            plan.plateaus@[at],
            (at + 1) as usize,
            chance.state,
            step,
            state,
            w,
        );
        if evict::succeeded(step) {
            lemma_updates_hold(
                plan,
                at,
                begun.active@,
                begun.idle@,
                with_state(chance, state),
                after,
                next,
                chance_after,
                w,
            );
        }
    }
}

/// What is under way belongs to the plateau where the run stands: it is about a group of that size, and
/// names the plateau by its number, counted from one.
pub open spec fn in_place(run: Run) -> bool {
    let size = run.plan.plateaus@[run.at as int];
    let number = (run.at + 1) as usize;
    match run.stage {
        RunStage::Moving(transition) => transition.target_size == size && transition.plateau_index
            == number && transition.external_coverage_lane == run.plan.external_coverage_lane
            && transition.protect_profile_enabled_members == run.plan.profile_only_singletons
            && transition.spread == run.plan.spread,
        RunStage::Converging { converge, between } => converge.plateau_size == size
            && converge.plateau_index == number && converge.spread == run.plan.spread && (between
            ==> !run.plan.remove_rejoin),
        RunStage::Rejoining(phase) => phase.plateau_size == size && phase.plateau_index == number
            && phase.spread == run.plan.spread && run.plan.remove_rejoin,
        RunStage::Densifying(phase) => phase.plateau_size == size && phase.plateau_index == number
            && phase.spread == run.plan.spread && !run.plan.remove_rejoin,
        RunStage::Updating(phase) => phase.plateau_size == size && phase.plateau_index == number
            && phase.spread == run.plan.spread && !run.plan.remove_rejoin,
        RunStage::Applying(phase) => phase.plateau_size == size && phase.plateau_index == number
            && !run.plan.remove_rejoin && phase.external_coverage_lane
            == run.plan.external_coverage_lane && phase.min_samples
            == run.plan.min_profiled_samples_per_operation,
        _ => true,
    }
}

/// The run is as it may be where a plateau begins, or where all are done.
spec fn is_begun(plan: RunPlan, at: int, after: Run, next: Ran) -> bool {
    &&& after.at == at
    &&& in_place(after)
    &&& after.stage is Moving || (after.stage matches RunStage::Converging { between, .. }
        && !between) || after.stage is Over
    &&& next is Done == after.stage is Over
    &&& (next matches Next::Done(Ok(_))) ==> at >= plan.plateaus@.len()
    &&& at >= plan.plateaus@.len() ==> (next matches Next::Done(Ok(_)))
}

proof fn lemma_moved(plan: RunPlan, at: int, then: Transition, step: Moved, after: Run, next: Ran)
    requires
        after.plan == plan,
        after.at == at,
        0 <= at < plan.plateaus@.len() <= usize::MAX,
        then.target_size == plan.plateaus@[at],
        then.plateau_index == (at + 1) as usize,
        then.external_coverage_lane == plan.external_coverage_lane,
        then.protect_profile_enabled_members == plan.profile_only_singletons,
        then.spread == plan.spread,
        plan.after_moving(at, then, step, after, next),
    ensures
        is_begun(plan, at, after, next),
        after.stage is Over ==> (next matches Next::Done(Err(_))),
{
}

proof fn lemma_begun(
    plan: RunPlan,
    at: int,
    active: Seq<WorkerSpec>,
    idle: Seq<WorkerSpec>,
    chance: transition::ChanceView,
    after: Run,
    next: Ran,
    chance_after: transition::ChanceView,
)
    requires
        after.plan == plan,
        0 <= at,
        plan.plateaus@.len() <= usize::MAX,
        plan.begins(at, active, idle, chance, after, next, chance_after),
    ensures
        is_begun(plan, at, after, next),
{
    if at < plan.plateaus@.len() {
        let (begun, step) = choose|begun: Transition, step: Moved|
            {
                &&& #[trigger] begun.started(
                    active,
                    idle,
                    plan.plateaus@[at],
                    plan.spread,
                    plan.external_coverage_lane,
                    plan.profile_only_singletons,
                    (at + 1) as usize,
                    chance,
                    step,
                    chance_after,
                )
                &&& plan.after_moving(at, begun, step, after, next)
            };
        lemma_moved(plan, at, begun, step, after, next);
    }
}

/// The run is as it may be where members are to renew their keys.
spec fn is_updating(plan: RunPlan, at: int, after: Run, next: Ran) -> bool {
    &&& after.at == at
    &&& in_place(after)
    &&& after.stage is Updating || (after.stage matches RunStage::Converging { between, .. }
        && between) || after.stage is Over
    &&& next is Done == after.stage is Over
    &&& after.stage is Over ==> (next matches Next::Done(Err(_)))
}

proof fn lemma_updating(
    plan: RunPlan,
    at: int,
    active: Seq<WorkerSpec>,
    idle: Seq<WorkerSpec>,
    chance: transition::ChanceView,
    after: Run,
    next: Ran,
    chance_after: transition::ChanceView,
)
    requires
        after.plan == plan,
        0 <= at < plan.plateaus@.len() <= usize::MAX,
        !plan.remove_rejoin,
        plan.updates(at, active, idle, chance, after, next, chance_after),
    ensures
        is_updating(plan, at, after, next),
{
}

/// The order of things. On each plateau the group is brought to its size first, and then its members
/// agree on a state. After that either members are removed and join again, or devices add members,
/// members renew their keys, the members agree again, and members send messages. Only then comes the
/// next plateau. All that is done belongs to the plateau where the run stands. The run succeeds only
/// when all plateaus are done.
#[verifier::rlimit(60)]
pub proof fn law_run_in_order(
    run: Run,
    report: Report,
    chance: transition::ChanceView,
    after: Run,
    next: Ran,
    chance_after: transition::ChanceView,
)
    requires
        run.wf(),
        run.waits_for(report),
        run.plan.plateaus@.len() <= usize::MAX,
        run.next(report, chance, after, next, chance_after),
        in_place(run),
    ensures
        after.plan == run.plan,
        !(after.stage is Over) ==> in_place(after),
        next is Done <==> after.stage is Over,
        (next matches Next::Done(Ok(_))) ==> after.at == run.plan.plateaus@.len(),
        !(after.stage is Over) ==> match run.stage {
            RunStage::Creating => after.stage is Reporting,
            RunStage::Reporting => after.stage is Asking,
            RunStage::Asking => after.at == run.at && begins_plateau(after),
            RunStage::Moving(_) => after.at == run.at && begins_plateau(after),
            RunStage::Converging { between, .. } => if after.at == run.at {
                ||| after.stage matches RunStage::Converging { between: b, .. } && b == between
                ||| if between {
                    after.stage is Applying
                } else if run.plan.remove_rejoin {
                    after.stage is Rejoining
                } else {
                    after.stage is Densifying || after.stage is Updating || (
                    after.stage matches RunStage::Converging { between: b, .. } && b)
                }
            } else {
                after.at == run.at + 1 && begins_plateau(after) && (between
                    || run.plan.remove_rejoin)
            },
            RunStage::Rejoining(_) => if after.at == run.at {
                after.stage is Rejoining
            } else {
                after.at == run.at + 1 && begins_plateau(after)
            },
            RunStage::Densifying(_) => after.at == run.at && (after.stage is Densifying
                || after.stage is Updating || (
            after.stage matches RunStage::Converging { between, .. } && between)),
            RunStage::Updating(_) => after.at == run.at && (after.stage is Updating || (
            after.stage matches RunStage::Converging { between, .. } && between)),
            RunStage::Applying(_) => if after.at == run.at {
                after.stage is Applying
            } else {
                after.at == run.at + 1 && begins_plateau(after)
            },
            RunStage::Over => false,
        },
{
    let plan = run.plan;
    let at = run.at as int;
    match run.stage {
        RunStage::Asking => {
            if let Report::Gathered(Ok(answers)) = report {
                if converge::convergence(run.active@, answers@) is Ok {
                    lemma_begun(
                        plan,
                        at,
                        run.active@,
                        run.idle@,
                        chance,
                        after,
                        next,
                        chance_after,
                    );
                }
            }
        },
        RunStage::Moving(transition) => {
            let (then, step) = choose|then: Transition, step: Moved| #[trigger]
                transition.next(report, chance, then, step, chance_after) && after.at == run.at
                    && plan.after_moving(at, then, step, after, next);
            lemma_moved(plan, at, then, step, after, next);
        },
        RunStage::Converging { converge, between } => {
            let (then, step) = choose|then: Converge, step: Converged| #[trigger]
                converge.next(report, then, step) && plan.after_converging(
                    at,
                    then,
                    run.idle@,
                    between,
                    step,
                    chance,
                    after,
                    next,
                    chance_after,
                );
            if step is Done && step->Done_0 is Ok {
                lemma_after_agreement(
                    plan,
                    at,
                    then.active@,
                    run.idle@,
                    between,
                    chance,
                    after,
                    next,
                    chance_after,
                );
            }
        },
        RunStage::Rejoining(phase) => {
            let (then, step, state) = choose|then: RejoinPhase, step: Rejoined, state: int|
                #[trigger]
                phase.next(report, chance.state, then, step, state) && plan.after_rejoining(
                    at,
                    then,
                    step,
                    with_state(chance, state),
                    after,
                    next,
                    chance_after,
                );
            if evict::succeeded(step) {
                lemma_begun(
                    plan,
                    at + 1,
                    then.active@,
                    then.idle@,
                    with_state(chance, state),
                    after,
                    next,
                    chance_after,
                );
            }
        },
        RunStage::Densifying(phase) => {
            let (then, step, state) = choose|then: DensityPhase, step: Densified, state: int|
                #[trigger]
                phase.next(report, chance.state, then, step, state) && plan.after_densifying(
                    at,
                    then,
                    step,
                    with_state(chance, state),
                    after,
                    next,
                    chance_after,
                );
            if evict::succeeded(step) {
                lemma_updating(
                    plan,
                    at,
                    then.active@,
                    then.idle@,
                    with_state(chance, state),
                    after,
                    next,
                    chance_after,
                );
            }
        },
        RunStage::Updating(phase) => {},
        RunStage::Applying(phase) => {
            let (then, step, state) = choose|then: ApplicationPhase, step: Sent, state: int|
                #[trigger]
                phase.next(report, chance.state, then, step, state) && plan.after_applying(
                    at,
                    then,
                    run.idle@,
                    step,
                    with_state(chance, state),
                    after,
                    next,
                    chance_after,
                );
            if evict::succeeded(step) {
                lemma_begun(
                    plan,
                    at + 1,
                    then.active@,
                    run.idle@,
                    with_state(chance, state),
                    after,
                    next,
                    chance_after,
                );
            }
        },
        _ => {},
    }
}

/// A plateau begins: the group is brought to its size, or, where it has it already, the members agree.
pub open spec fn begins_plateau(run: Run) -> bool {
    run.stage is Moving || (run.stage matches RunStage::Converging { between, .. } && !between)
}

proof fn lemma_after_agreement(
    plan: RunPlan,
    at: int,
    active: Seq<WorkerSpec>,
    idle: Seq<WorkerSpec>,
    between: bool,
    chance: transition::ChanceView,
    after: Run,
    next: Ran,
    chance_after: transition::ChanceView,
)
    requires
        after.plan == plan,
        0 <= at < plan.plateaus@.len() <= usize::MAX,
        between ==> !plan.remove_rejoin,
        if between {
            plan.applies(at, active, idle, chance, after, next, chance_after)
        } else if plan.remove_rejoin {
            plan.rejoins(at, active, idle, chance, after, next, chance_after)
        } else {
            plan.densifies(at, active, idle, chance, after, next, chance_after)
        },
    ensures
        next is Done <==> after.stage is Over,
        in_place(after),
        (next matches Next::Done(Ok(_))) ==> after.at == plan.plateaus@.len(),
        !(after.stage is Over) ==> if after.at == at {
            if between {
                after.stage is Applying
            } else if plan.remove_rejoin {
                after.stage is Rejoining
            } else {
                after.stage is Densifying || after.stage is Updating || (
                after.stage matches RunStage::Converging { between: b, .. } && b)
            }
        } else {
            after.at == at + 1 && begins_plateau(after) && (between || plan.remove_rejoin)
        },
{
    if between {
        let (begun, step, state) = choose|begun: ApplicationPhase, step: Sent, state: int|
            {
                &&& #[trigger] begun.started(
                    active,
                    plan.spread,
                    plan.plateaus@[at],
                    (at + 1) as usize,
                    units::sends_of(
                        plan.plateaus@[at] as int,
                        plan.app_rounds as int,
                        plan.max_app_samples_per_payload as int,
                    ) as usize,
                    plan.payload_sizes,
                    plan.external_coverage_lane,
                    plan.min_profiled_samples_per_operation,
                    chance.state,
                    step,
                    state,
                )
                &&& plan.after_applying(
                    at,
                    begun,
                    idle,
                    step,
                    with_state(chance, state),
                    after,
                    next,
                    chance_after,
                )
            };
        if evict::succeeded(step) {
            lemma_begun(
                plan,
                at + 1,
                begun.active@,
                idle,
                with_state(chance, state),
                after,
                next,
                chance_after,
            );
        }
    } else if plan.remove_rejoin {
        let (begun, step, state) = choose|begun: RejoinPhase, step: Rejoined, state: int|
            {
                &&& #[trigger] begun.started(
                    active,
                    idle,
                    plan.spread,
                    plan.external_coverage_lane,
                    plan.min_profiled_samples_per_operation,
                    plan.plateaus@[at],
                    (at + 1) as usize,
                    chance.state,
                    step,
                    state,
                )
                &&& plan.after_rejoining(
                    at,
                    begun,
                    step,
                    with_state(chance, state),
                    after,
                    next,
                    chance_after,
                )
            };
        if evict::succeeded(step) {
            lemma_begun(
                plan,
                at + 1,
                begun.active@,
                begun.idle@,
                with_state(chance, state),
                after,
                next,
                chance_after,
            );
        }
    } else {
        let (begun, step, state) = choose|begun: DensityPhase, step: Densified, state: int|
            {
                &&& #[trigger] begun.started(
                    active,
                    idle,
                    plan.spread,
                    plan.external_coverage_lane,
                    plan.min_profiled_samples_per_operation,
                    plan.plateaus@[at],
                    (at + 1) as usize,
                    chance.state,
                    step,
                    state,
                )
                &&& plan.after_densifying(
                    at,
                    begun,
                    step,
                    with_state(chance, state),
                    after,
                    next,
                    chance_after,
                )
            };
        if evict::succeeded(step) {
            lemma_updating(
                plan,
                at,
                begun.active@,
                begun.idle@,
                with_state(chance, state),
                after,
                next,
                chance_after,
            );
        }
    }
}

} // verus!
