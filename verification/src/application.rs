//! The phase in which members send messages to the group, one after the other.

use rand::rngs::StdRng;
use vstd::prelude::*;

use crate::add;
use crate::command;
use crate::command::{BenchmarkCursor, Command};
use crate::draw;
use crate::evict;
use crate::evict::Evict;
use crate::failure;
use crate::failure::Failure;
use crate::flags::{PayloadSizeSource, PayloadSizes};
use crate::plan;
use crate::plan::{plan_messages, ActorPlan};
use crate::rejoin;
use crate::rejoin::drop_place;
use crate::sampling;
use crate::sampling::sampled_member_index;
use crate::table;
use crate::table::Counts;
use crate::task;
use crate::task::{first_other, MessageFanout, Next, Order, Report, Spread};
use crate::text;
use crate::text::decimal_text;
use crate::units;
use crate::units::{
    add_up, app_sends_per_payload_for_plateau, deterministic_payload, payload_fits,
};
use crate::update;
use crate::workers;
use crate::workers::{active_profiled_indices, copy_workers, WorkerSpec};

verus! {

/// How far the phase is.
#[derive(Debug)]
pub enum ApplicationStage {
    /// The actor sends the message.
    Sending,
    /// The other members take the message.
    Spreading,
    /// The actor failed; its failure is written down.
    LosingActor { error: Failure },
    /// Other members failed; their failures are written down.
    LosingOthers { error: Failure },
    /// All that died are taken out.
    Evicting(Evict),
    /// The work is reported.
    Reporting,
    /// Nothing is left to do.
    Over,
}

/// The phase in which members send messages. For each source of sizes there is a plan of its own.
#[derive(Debug)]
pub struct ApplicationPhase {
    pub active: Vec<WorkerSpec>,
    /// How commits are spread that take members out.
    pub spread: Spread,
    pub plateau_size: usize,
    pub plateau_index: usize,
    pub per_payload_count: usize,
    pub external_coverage_lane: bool,
    pub min_samples: usize,
    /// The sources whose turn is still to come.
    pub sources: Vec<PayloadSizeSource>,
    pub source: PayloadSizeSource,
    pub plan: ActorPlan,
    /// How often each device sent a message.
    pub samples: Counts,
    /// How many turns are done.
    pub seq_no: usize,
    pub actor: Option<WorkerSpec>,
    pub actor_idx: usize,
    pub payload_size: usize,
    pub stage: ApplicationStage,
}

/// What the phase leads to.
pub type Sent = Next<Result<(), Failure>>;

/// A text of a given number of bytes that repeats another one.
pub open spec fn is_payload(message: Seq<char>, seed: Seq<char>, len: usize) -> bool {
    &&& units::byte_len(message) == len
    &&& message == units::repeated(seed, message.len())
}

/// The text where a message would have to end within a character.
pub open spec fn cut_text(len: usize, actor: Seq<char>) -> Seq<char> {
    "application payload of "@ + text::decimal(len as nat)
        + " bytes would cut a character; actor="@ + actor
}

/// What a message phase is about.
pub struct MessageTask {
    pub plateau_size: usize,
    pub plateau_index: usize,
    pub per_payload_count: usize,
    pub lane: bool,
    pub min_samples: usize,
}

impl MessageTask {
    /// The place in the run.
    pub open spec fn marks(self, active: nat, seq_no: usize, payload_size: usize) -> command::Marks {
        command::Marks::at(
            self.plateau_index,
            self.plateau_size,
            active as usize,
            "application"@,
            "send_application_message"@,
        ).numbered(update::number_of(seq_no), Some(payload_size))
    }

    /// A member sends a message of a size that the source gives.
    pub open spec fn sends(
        self,
        active: Seq<WorkerSpec>,
        sources: Seq<PayloadSizeSource>,
        source: PayloadSizeSource,
        planned: plan::PlanOfActors,
        samples: Map<Seq<char>, usize>,
        seq_no: usize,
        device: Option<Seq<char>>,
        state: int,
        after: ApplicationPhase,
        next: Sent,
    ) -> bool {
        let size = source.size_at(state) as usize;
        let actor = active[after.actor_idx as int];
        let seed = units::payload_seed(self.plateau_size, size, seq_no, actor.id@);
        &&& after.active@ == active
        &&& planned.acts_at(active, seq_no, device, after.actor_idx)
        &&& if units::cuts_cleanly(seed, size as int) {
            &&& after.sources@ == sources
            &&& after.source == source
            &&& after.plan@ == planned
            &&& after.samples@ == samples
            &&& after.seq_no == seq_no
            &&& after.actor == Some(actor)
            &&& after.payload_size == size
            &&& after.stage is Sending
            &&& next is Do
            &&& exists|message: Seq<char>| #[trigger]
                is_payload(message, seed, size) && next->Do_0.sends(
                    actor,
                    command::CommandView::SendApplicationMessage { message },
                    "application message broadcast to group"@,
                    Some("application.create"@),
                    self.marks(active.len(), seq_no, size),
                )
        } else {
            &&& after.stage is Over
            &&& evict::failed(next, failure::plain(cut_text(size, actor.id@)))
        }
    }

    /// The next turn of a source. Without one the next source is opened; without two members, or
    /// without a measured one, the phase is over.
    pub open spec fn turns(
        self,
        active: Seq<WorkerSpec>,
        sources: Seq<PayloadSizeSource>,
        source: PayloadSizeSource,
        planned: plan::PlanOfActors,
        samples: Map<Seq<char>, usize>,
        seq_no: usize,
        state: int,
        after: ApplicationPhase,
        next: Sent,
        state_after: int,
    ) -> bool
        decreases sources.len(), 1int,
    {
        exists|device: Option<Seq<char>>|
            {
                &&& #[trigger] planned.device_next(active, samples, device)
                &&& if planned.done(seq_no, device) {
                    self.opens(active, sources, state, after, next, state_after)
                } else if active.len() < 2 || workers::places(active, workers::profiled()).len()
                    == 0 {
                    &&& after.ends(active)
                    &&& evict::succeeded(next)
                    &&& state_after == state
                } else {
                    &&& self.sends(
                        active,
                        sources,
                        source,
                        planned,
                        samples,
                        seq_no,
                        device,
                        state,
                        after,
                        next,
                    )
                    &&& state_after == source.state_after(state)
                }
            }
    }

    /// The next source is opened, and a plan is made for it.
    pub open spec fn opens(
        self,
        active: Seq<WorkerSpec>,
        sources: Seq<PayloadSizeSource>,
        state: int,
        after: ApplicationPhase,
        next: Sent,
        state_after: int,
    ) -> bool
        decreases sources.len(), 0int,
    {
        if sources.len() == 0 {
            &&& after.ends(active)
            &&& evict::succeeded(next)
            &&& state_after == state
        } else {
            let (planned, state1) = plan::message_plan(
                active,
                self.per_payload_count,
                self.lane,
                self.min_samples,
                state,
            );
            self.turns(
                active,
                sources.skip(1),
                sources[0],
                planned,
                Map::empty(),
                0,
                state1,
                after,
                next,
                state_after,
            )
        }
    }
}

impl ApplicationPhase {
    /// What the phase is about.
    pub open spec fn task(self) -> MessageTask {
        MessageTask {
            plateau_size: self.plateau_size,
            plateau_index: self.plateau_index,
            per_payload_count: self.per_payload_count,
            lane: self.external_coverage_lane,
            min_samples: self.min_samples,
        }
    }

    /// While something is left to do there is an actor in its place, and a plan.
    pub open spec fn wf(self) -> bool {
        &&& forall|i: int| 0 <= i < self.sources@.len() ==> (#[trigger] self.sources@[i]).wf()
        &&& !(self.stage is Over) ==> self.plan.total > 0 && self.source.wf()
            && self.per_payload_count > 0
        &&& !(self.stage is Over || self.stage is Evicting) ==> {
            &&& self.actor is Some
            &&& self.actor_idx < self.active@.len()
            &&& self.actor->0 == self.active@[self.actor_idx as int]
        }
        &&& self.stage matches ApplicationStage::Evicting(evict) ==> evict.wf() && evict.active@
            == self.active@
    }

    /// The report is one that the stage waits for.
    pub open spec fn waits_for(self, report: Report) -> bool {
        match self.stage {
            ApplicationStage::Sending => report is Sent,
            ApplicationStage::Spreading => report is Spread,
            ApplicationStage::LosingActor { error: _ } => report is Recorded,
            ApplicationStage::LosingOthers { error: _ } => report is AllRecorded,
            ApplicationStage::Evicting(evict) => evict.waits_for(report),
            ApplicationStage::Reporting => report is Ticked,
            ApplicationStage::Over => false,
        }
    }

    /// What does not change.
    pub open spec fn same_task(self, other: ApplicationPhase) -> bool {
        &&& self.spread == other.spread
        &&& self.task() == other.task()
    }

    /// The turns stay.
    pub open spec fn same_turn(self, other: ApplicationPhase) -> bool {
        &&& self.sources@ == other.sources@
        &&& self.source == other.source
        &&& self.plan@ == other.plan@
        &&& self.samples@ == other.samples@
        &&& self.seq_no == other.seq_no
    }

    /// All else stays.
    pub open spec fn stays(self, after: ApplicationPhase) -> bool {
        &&& after.active@ == self.active@
        &&& after.same_turn(self)
        &&& after.actor == self.actor
        &&& after.actor_idx == self.actor_idx
        &&& after.payload_size == self.payload_size
    }

    /// The place in the run, now.
    pub open spec fn here(self) -> command::Marks {
        self.task().marks(self.active@.len(), self.seq_no, self.payload_size)
    }

    /// The phase is over.
    pub open spec fn ends(self, active: Seq<WorkerSpec>) -> bool {
        &&& self.active@ == active
        &&& self.stage is Over
    }

    /// The phase failed.
    pub open spec fn fails(
        self,
        error: failure::FailureView,
        after: ApplicationPhase,
        next: Sent,
    ) -> bool {
        &&& after.ends(self.active@)
        &&& evict::failed(next, error)
    }

    /// The turn is taken again.
    pub open spec fn again(
        self,
        active: Seq<WorkerSpec>,
        state: int,
        after: ApplicationPhase,
        next: Sent,
        state_after: int,
    ) -> bool {
        self.task().turns(
            active,
            self.sources@,
            self.source,
            self.plan@,
            self.samples@,
            self.seq_no,
            state,
            after,
            next,
            state_after,
        )
    }

    /// The member whose handling is measured, besides all devices; no one has the empty name.
    pub open spec fn sampled(self) -> Seq<char> {
        let others = rejoin::without_place(
            workers::places(self.active@, workers::profiled()),
            self.actor_idx,
        );
        if others.len() == 0 {
            Seq::empty()
        } else {
            self.active@[others[sampling::member_at(
                others.len() as int,
                self.plan.total as int,
                self.seq_no as int,
            )] as int].id@
        }
    }

    /// The label of the work that is done.
    pub open spec fn label(self) -> Seq<char> {
        "plateau "@ + text::decimal(self.plateau_size as nat) + " app payload="@ + text::decimal(
            self.payload_size as nat,
        ) + " "@ + text::decimal(update::number_of(self.seq_no) as nat) + "/"@ + text::decimal(
            self.plan.total as nat,
        ) + " actor="@ + self.actor->0.id@
    }

    /// Those that died are taken out, and the turn is taken again.
    pub open spec fn evicts(
        self,
        dead: Seq<WorkerSpec>,
        state: int,
        after: ApplicationPhase,
        next: Sent,
        state_after: int,
    ) -> bool {
        if dead.len() == 0 {
            self.again(self.active@, state, after, next, state_after)
        } else {
            &&& after.active@ == self.active@
            &&& after.same_turn(self)
            &&& state_after == state
            &&& add::begins_eviction(
                self.active@,
                dead,
                self.spread,
                self.plateau_size,
                match after.stage {
                    ApplicationStage::Evicting(evict) => Some(evict),
                    _ => None,
                },
                after.stage is Over,
                next,
            )
        }
    }

    /// What follows a step of an eviction.
    pub open spec fn after_evict(
        self,
        evict: Evict,
        step: Sent,
        state: int,
        after: ApplicationPhase,
        next: Sent,
        state_after: int,
    ) -> bool {
        match step {
            Next::Do(_) => {
                &&& after.active@ == self.active@
                &&& after.same_turn(self)
                &&& after.stage == ApplicationStage::Evicting(evict)
                &&& next == step
                &&& state_after == state
            },
            Next::Done(Ok(_)) => self.again(evict.active@, state, after, next, state_after),
            Next::Done(Err(error)) => {
                &&& self.fails(error@, after, next)
                &&& state_after == state
            },
        }
    }

    /// How far the phase is after a report, and what is done then.
    pub open spec fn next(
        self,
        report: Report,
        state: int,
        after: ApplicationPhase,
        next: Sent,
        state_after: int,
    ) -> bool {
        &&& after.same_task(self)
        &&& match (self.stage, report) {
            (ApplicationStage::Sending, Report::Sent(Err(error))) => {
                &&& self.stays(after)
                &&& after.stage is LosingActor
                &&& after.stage->LosingActor_error@ == error@
                &&& next is Do
                &&& next->Do_0.records(
                    self.here(),
                    self.actor->0,
                    error@,
                    "evict_application_actor_and_retry"@,
                    task::other_than(self.active@, self.actor->0.id@),
                )
                &&& state_after == state
            },
            (ApplicationStage::Sending, Report::Sent(Ok(_))) => {
                &&& self.stays(after)
                &&& after.stage is Spreading
                &&& next is Do
                &&& next->Do_0.spreads_message(
                    "application"@,
                    self.plateau_size,
                    "receive_application_message"@,
                    self.active@.remove(self.actor_idx as int),
                    self.sampled(),
                    self.here(),
                )
                &&& state_after == state
            },
            (ApplicationStage::Spreading, Report::Spread(Err(error))) => {
                &&& self.stays(after)
                &&& after.stage is LosingOthers
                &&& after.stage->LosingOthers_error@ == error@
                &&& next is Do
                &&& next->Do_0.records_all(
                    self.here(),
                    error@,
                    "evict_application_recipient_and_retry"@,
                    self.actor,
                )
                &&& state_after == state
            },
            (ApplicationStage::Spreading, Report::Spread(Ok(_))) => {
                &&& self.stays(after)
                &&& after.stage is Reporting
                &&& next is Do
                &&& next->Do_0.ticks(1, self.label())
                &&& state_after == state
            },
            (
                ApplicationStage::LosingActor { error },
                Report::Recorded(Ok(goes_on)),
            ) => if goes_on {
                self.evicts(seq![self.actor->0], state, after, next, state_after)
            } else {
                self.fails(error@, after, next) && state_after == state
            },
            (
                ApplicationStage::LosingActor { error: _ },
                Report::Recorded(Err(worse)),
            ) => self.fails(worse@, after, next) && state_after == state,
            (
                ApplicationStage::LosingOthers { error: _ },
                Report::AllRecorded(Ok(Some(dead))),
            ) => self.evicts(dead@, state, after, next, state_after),
            (
                ApplicationStage::LosingOthers { error },
                Report::AllRecorded(Ok(None)),
            ) => self.fails(error@, after, next) && state_after == state,
            (
                ApplicationStage::LosingOthers { error: _ },
                Report::AllRecorded(Err(worse)),
            ) => self.fails(worse@, after, next) && state_after == state,
            (ApplicationStage::Evicting(evict), _) => exists|then: Evict, step: Sent| #[trigger]
                evict.next(report, then, step) && self.after_evict(
                    then,
                    step,
                    state,
                    after,
                    next,
                    state_after,
                ),
            (ApplicationStage::Reporting, Report::Ticked) => self.task().turns(
                self.active@,
                self.sources@,
                self.source,
                self.plan@,
                if self.plan.density {
                    table::one_more(self.samples@, self.actor->0.id@)
                } else {
                    self.samples@
                },
                update::number_of(self.seq_no),
                state,
                after,
                next,
                state_after,
            ),
            _ => true,
        }
    }

    /// The phase as it begins. It needs two members, a measured one, and something to send.
    pub open spec fn started(
        self,
        active: Seq<WorkerSpec>,
        spread: Spread,
        plateau_size: usize,
        plateau_index: usize,
        per_payload_count: usize,
        payload_sizes: PayloadSizes,
        lane: bool,
        min_samples: usize,
        state: int,
        next: Sent,
        state_after: int,
    ) -> bool {
        &&& self.wf()
        &&& self.spread == (Spread { pending: false, ..spread })
        &&& self.plateau_size == plateau_size
        &&& self.plateau_index == plateau_index
        &&& self.per_payload_count == per_payload_count
        &&& self.external_coverage_lane == lane
        &&& self.min_samples == min_samples
        &&& if active.len() < 2 || per_payload_count == 0 || workers::places(
            active,
            workers::profiled(),
        ).len() == 0 {
            &&& self.ends(active)
            &&& evict::succeeded(next)
            &&& state_after == state
        } else {
            self.task().opens(
                active,
                payload_sizes.sources_at(state),
                payload_sizes.state_after(state),
                self,
                next,
                state_after,
            )
        }
    }

    /// Begins the phase.
    pub fn start(
        active: Vec<WorkerSpec>,
        spread: Spread,
        plateau_size: usize,
        plateau_index: usize,
        app_rounds: usize,
        max_app_samples_per_payload: usize,
        payload_sizes: &PayloadSizes,
        external_coverage_lane: bool,
        min_profiled_samples_per_operation: usize,
        rng: &mut StdRng,
    ) -> (made: (ApplicationPhase, Sent))
        requires
            payload_sizes.wf(),
        ensures
            made.0.started(
                active@,
                spread,
                plateau_size,
                plateau_index,
                units::sends_of(
                    plateau_size as int,
                    app_rounds as int,
                    max_app_samples_per_payload as int,
                ) as usize,
                *payload_sizes,
                external_coverage_lane,
                min_profiled_samples_per_operation,
                draw::generator_state(*old(rng)),
                made.1,
                draw::generator_state(*final(rng)),
            ),
    {
        let per_payload_count: usize = app_sends_per_payload_for_plateau(
            plateau_size,
            app_rounds,
            max_app_samples_per_payload,
        );
        let calm: Spread = Spread {
            pending: false,
            max_samples: spread.max_samples,
            seed: spread.seed,
        };
        let none: ActorPlan = ActorPlan {
            required_ids: Vec::new(),
            external_id: None,
            external_seq: None,
            forced_seq: None,
            total: 0,
            density: false,
            min_samples: min_profiled_samples_per_operation,
        };
        let mut phase: ApplicationPhase = ApplicationPhase {
            active: active,
            spread: calm,
            plateau_size: plateau_size,
            plateau_index: plateau_index,
            per_payload_count: per_payload_count,
            external_coverage_lane: external_coverage_lane,
            min_samples: min_profiled_samples_per_operation,
            sources: Vec::new(),
            source: PayloadSizeSource::Fixed(0),
            plan: none,
            samples: Counts::new(),
            seq_no: 0,
            actor: None,
            actor_idx: 0,
            payload_size: 0,
            stage: ApplicationStage::Over,
        };
        if phase.active.len() < 2 || per_payload_count == 0 || active_profiled_indices(
            phase.active.as_slice(),
        ).len() == 0 {
            return (phase, Next::Done(Ok(())));
        }
        phase.sources = payload_sizes.shuffled_sources(rng);
        let next: Sent = phase.open_source(rng);
        (phase, next)
    }

    fn cursor(&self) -> (cursor: BenchmarkCursor)
        ensures
            cursor@ == self.here(),
    {
        BenchmarkCursor::new(
            self.plateau_index,
            self.plateau_size,
            self.active.len(),
            "application",
            "send_application_message",
        ).at_operation(add_up(self.seq_no, 1), Some(self.payload_size))
    }

    fn fail(&mut self, error: Failure) -> (next: Sent)
        requires
            forall|i: int|
                0 <= i < old(self).sources@.len() ==> (#[trigger] old(self).sources@[i]).wf(),
        ensures
            final(self).wf(),
            final(self).same_task(*old(self)),
            old(self).fails(error@, *final(self), next),
    {
        self.stage = ApplicationStage::Over;
        Next::Done(Err(error))
    }

    fn open_source(&mut self, rng: &mut StdRng) -> (next: Sent)
        requires
            old(self).per_payload_count > 0,
            forall|i: int|
                0 <= i < old(self).sources@.len() ==> (#[trigger] old(self).sources@[i]).wf(),
        ensures
            final(self).wf(),
            final(self).same_task(*old(self)),
            old(self).task().opens(
                old(self).active@,
                old(self).sources@,
                draw::generator_state(*old(rng)),
                *final(self),
                next,
                draw::generator_state(*final(rng)),
            ),
        decreases old(self).sources@.len(), 0int,
    {
        if self.sources.len() == 0 {
            self.stage = ApplicationStage::Over;
            return Next::Done(Ok(()));
        }
        self.source = self.sources.remove(0);
        assert(self.sources@ =~= old(self).sources@.skip(1));
        self.plan = plan_messages(
            self.active.as_slice(),
            self.per_payload_count,
            self.external_coverage_lane,
            self.min_samples,
            rng,
        );
        self.samples = Counts::new();
        self.seq_no = 0;
        self.turn(rng)
    }

    fn turn(&mut self, rng: &mut StdRng) -> (next: Sent)
        requires
            old(self).per_payload_count > 0,
            old(self).plan.total > 0,
            old(self).source.wf(),
            forall|i: int|
                0 <= i < old(self).sources@.len() ==> (#[trigger] old(self).sources@[i]).wf(),
        ensures
            final(self).wf(),
            final(self).same_task(*old(self)),
            old(self).again(
                old(self).active@,
                draw::generator_state(*old(rng)),
                *final(self),
                next,
                draw::generator_state(*final(rng)),
            ),
        decreases old(self).sources@.len(), 1int,
    {
        let ghost start = *self;
        let ghost state = draw::generator_state(*rng);
        let device: Option<String> = self.plan.next_device(
            self.active.as_slice(),
            &self.samples,
        );
        assert(self.plan@.device_next(self.active@, self.samples@, text::maybe(device)));
        if self.plan.is_done(self.seq_no, &device) {
            return self.open_source(rng);
        }
        if self.active.len() < 2 || active_profiled_indices(self.active.as_slice()).len() == 0 {
            self.stage = ApplicationStage::Over;
            return Next::Done(Ok(()));
        }
        let at: usize = self.plan.actor_at(self.active.as_slice(), self.seq_no, &device);
        let actor: WorkerSpec = self.active[at].clone();
        let size: usize = self.source.sample(rng);
        self.actor_idx = at;
        self.actor = Some(actor.clone());
        self.payload_size = size;
        if !payload_fits(size, self.plateau_size, size, self.seq_no, actor.id.as_str()) {
            let mut why: String = "application payload of ".to_owned();
            why.append(decimal_text(size as u128).as_str());
            why.append(" bytes would cut a character; actor=");
            why.append(actor.id.as_str());
            self.stage = ApplicationStage::Over;
            let next: Sent = Next::Done(Err(Failure::plain(why)));
            assert(start.task().sends(
                start.active@,
                start.sources@,
                start.source,
                start.plan@,
                start.samples@,
                start.seq_no,
                text::maybe(device),
                state,
                *self,
                next,
            ));
            return next;
        }
        let message: String = deterministic_payload(
            size,
            self.plateau_size,
            size,
            self.seq_no,
            actor.id.as_str(),
        );
        assert(is_payload(
            message@,
            units::payload_seed(self.plateau_size, size, self.seq_no, actor.id@),
            size,
        ));
        let order: Order = Order::Send {
            worker: actor,
            command: Command::SendApplicationMessage { message: message },
            ok_fragment: "application message broadcast to group".to_owned(),
            phase: Some("application.create".to_owned()),
            cursor: Some(self.cursor()),
        };
        self.stage = ApplicationStage::Sending;
        let next: Sent = Next::Do(order);
        assert(start.task().sends(
            start.active@,
            start.sources@,
            start.source,
            start.plan@,
            start.samples@,
            start.seq_no,
            text::maybe(device),
            state,
            *self,
            next,
        ));
        next
    }

    fn evict(&mut self, dead: Vec<WorkerSpec>, rng: &mut StdRng) -> (next: Sent)
        requires
            old(self).per_payload_count > 0,
            old(self).plan.total > 0,
            old(self).source.wf(),
            forall|i: int|
                0 <= i < old(self).sources@.len() ==> (#[trigger] old(self).sources@[i]).wf(),
        ensures
            final(self).wf(),
            final(self).same_task(*old(self)),
            old(self).evicts(
                dead@,
                draw::generator_state(*old(rng)),
                *final(self),
                next,
                draw::generator_state(*final(rng)),
            ),
    {
        if dead.len() == 0 {
            return self.turn(rng);
        }
        let (evict, next): (Evict, Sent) = Evict::start(
            self.active.as_slice(),
            dead.as_slice(),
            self.spread,
            self.plateau_size,
        );
        self.stage = match &next {
            Next::Do(_) => ApplicationStage::Evicting(evict),
            Next::Done(_) => ApplicationStage::Over,
        };
        next
    }

    fn sampled_id(&self) -> (id: String)
        requires
            self.plan.total > 0,
        ensures
            id@ == self.sampled(),
    {
        let places: Vec<usize> = active_profiled_indices(self.active.as_slice());
        let others: Vec<usize> = drop_place(&places, self.actor_idx);
        if others.len() == 0 {
            let none: String = String::new();
            assert(none@ =~= Seq::<char>::empty());
            return none;
        }
        proof {
            assert(self.active.len() == self.active@.len());
            workers::lemma_places(self.active@, workers::profiled());
            rejoin::lemma_without_place(places@, self.actor_idx);
        }
        let at: usize = sampled_member_index(others.len(), self.plan.total, self.seq_no);
        assert(places@.contains(others@[at as int]));
        self.active[others[at]].id.clone()
    }

    /// What is done after a report.
    #[verifier::rlimit(40)]
    pub fn step(&mut self, report: Report, rng: &mut StdRng) -> (next: Sent)
        requires
            old(self).wf(),
            old(self).waits_for(report),
        ensures
            final(self).wf(),
            old(self).next(
                report,
                draw::generator_state(*old(rng)),
                *final(self),
                next,
                draw::generator_state(*final(rng)),
            ),
    {
        let ghost given = report;
        let ghost start = *self;
        let ghost state = draw::generator_state(*rng);
        let mut stage: ApplicationStage = ApplicationStage::Over;
        std::mem::swap(&mut stage, &mut self.stage);
        if let ApplicationStage::Evicting(evict) = stage {
            let mut evict: Evict = evict;
            let ghost before = evict;
            let step: Sent = evict.step(report);
            assert(before.next(given, evict, step));
            proof {
                evict::law_eviction(before, given, evict, step);
            }
            let next: Sent = match step {
                Next::Do(order) => {
                    self.stage = ApplicationStage::Evicting(evict);
                    Next::Do(order)
                },
                Next::Done(Ok(_)) => {
                    self.active = evict.active;
                    self.turn(rng)
                },
                Next::Done(Err(error)) => self.fail(error),
            };
            assert(start.after_evict(
                evict,
                step,
                state,
                *self,
                next,
                draw::generator_state(*rng),
            ));
            return next;
        }
        let actor: WorkerSpec = match &self.actor {
            Some(actor) => actor.clone(),
            None => {
                return Next::Done(Ok(()));
            },
        };
        match (stage, report) {
            (ApplicationStage::Sending, Report::Sent(Err(error))) => {
                let other: Option<WorkerSpec> = first_other(
                    self.active.as_slice(),
                    actor.id.as_str(),
                );
                let order: Order = Order::Record {
                    cursor: self.cursor(),
                    worker: actor,
                    error: error.clone(),
                    action: "evict_application_actor_and_retry",
                    reassigned_to: other,
                };
                self.stage = ApplicationStage::LosingActor { error: error };
                Next::Do(order)
            },
            (ApplicationStage::Sending, Report::Sent(Ok(_))) => {
                let mut recipients: Vec<WorkerSpec> = copy_workers(self.active.as_slice());
                recipients.remove(self.actor_idx);
                let order: Order = Order::SpreadMessage {
                    phase: "application",
                    group_size: self.plateau_size,
                    operation: "receive_application_message",
                    task: MessageFanout {
                        recipients: recipients,
                        sampled_id: self.sampled_id(),
                        cursor: self.cursor(),
                    },
                };
                self.stage = ApplicationStage::Spreading;
                Next::Do(order)
            },
            (ApplicationStage::Spreading, Report::Spread(Err(error))) => {
                let order: Order = Order::RecordAll {
                    cursor: self.cursor(),
                    error: error.clone(),
                    action: "evict_application_recipient_and_retry",
                    reassigned_to: Some(actor),
                };
                self.stage = ApplicationStage::LosingOthers { error: error };
                Next::Do(order)
            },
            (ApplicationStage::Spreading, Report::Spread(Ok(_))) => {
                let mut label: String = "plateau ".to_owned();
                label.append(decimal_text(self.plateau_size as u128).as_str());
                label.append(" app payload=");
                label.append(decimal_text(self.payload_size as u128).as_str());
                label.append(" ");
                label.append(decimal_text(add_up(self.seq_no, 1) as u128).as_str());
                label.append("/");
                label.append(decimal_text(self.plan.total as u128).as_str());
                label.append(" actor=");
                label.append(actor.id.as_str());
                self.stage = ApplicationStage::Reporting;
                Next::Do(Order::Tick { units: 1, label: label })
            },
            (ApplicationStage::LosingActor { error }, Report::Recorded(Ok(goes_on))) => {
                if goes_on {
                    let dead: Vec<WorkerSpec> = vec![actor];
                    assert(dead@ =~= seq![self.actor->0]);
                    self.evict(dead, rng)
                } else {
                    self.fail(error)
                }
            },
            (ApplicationStage::LosingActor { error: _ }, Report::Recorded(Err(worse))) => self.fail(
                worse,
            ),
            (
                ApplicationStage::LosingOthers { error: _ },
                Report::AllRecorded(Ok(Some(dead))),
            ) => self.evict(dead, rng),
            (ApplicationStage::LosingOthers { error }, Report::AllRecorded(Ok(None))) => self.fail(
                error,
            ),
            (
                ApplicationStage::LosingOthers { error: _ },
                Report::AllRecorded(Err(worse)),
            ) => self.fail(worse),
            (ApplicationStage::Reporting, Report::Ticked) => {
                if self.plan.density {
                    self.samples.count_one(actor.id.as_str());
                }
                self.seq_no = add_up(self.seq_no, 1);
                self.turn(rng)
            },
            (stage, _) => {
                self.stage = stage;
                Next::Done(Ok(()))
            },
        }
    }
}

proof fn lemma_turns_keep_members(
    task: MessageTask,
    active: Seq<WorkerSpec>,
    sources: Seq<PayloadSizeSource>,
    source: PayloadSizeSource,
    planned: plan::PlanOfActors,
    samples: Map<Seq<char>, usize>,
    seq_no: usize,
    state: int,
    after: ApplicationPhase,
    next: Sent,
    state_after: int,
)
    requires
        task.turns(
            active,
            sources,
            source,
            planned,
            samples,
            seq_no,
            state,
            after,
            next,
            state_after,
        ),
    ensures
        after.active@ == active,
    decreases sources.len(),
{
    let device = choose|device: Option<Seq<char>>|
        {
            &&& #[trigger] planned.device_next(active, samples, device)
            &&& if planned.done(seq_no, device) {
                task.opens(active, sources, state, after, next, state_after)
            } else if active.len() < 2 || workers::places(active, workers::profiled()).len() == 0 {
                &&& after.ends(active)
                &&& evict::succeeded(next)
                &&& state_after == state
            } else {
                &&& task.sends(
                    active,
                    sources,
                    source,
                    planned,
                    samples,
                    seq_no,
                    device,
                    state,
                    after,
                    next,
                )
                &&& state_after == source.state_after(state)
            }
        };
    if planned.done(seq_no, device) && sources.len() > 0 {
        let (opened, state1) = plan::message_plan(
            active,
            task.per_payload_count,
            task.lane,
            task.min_samples,
            state,
        );
        lemma_turns_keep_members(
            task,
            active,
            sources.skip(1),
            sources[0],
            opened,
            Map::empty(),
            0,
            state1,
            after,
            next,
            state_after,
        );
    }
}

/// The phase only takes members out of the group. Nothing that fails counts as a turn: only a turn
/// that is reported does.
pub proof fn law_application_phase(
    phase: ApplicationPhase,
    report: Report,
    state: int,
    after: ApplicationPhase,
    next: Sent,
    state_after: int,
)
    requires
        phase.wf(),
        phase.waits_for(report),
        phase.next(report, state, after, next, state_after),
    ensures
        forall|w: WorkerSpec| #[trigger]
            workers::times(after.active@, w) <= workers::times(phase.active@, w),
        phase.stage is Sending || phase.stage is Spreading ==> after.same_turn(phase),
{
    match (phase.stage, report) {
        (ApplicationStage::Evicting(evict), _) => {
            let (then, step) = choose|then: Evict, step: Sent| #[trigger]
                evict.next(report, then, step) && phase.after_evict(
                    then,
                    step,
                    state,
                    after,
                    next,
                    state_after,
                );
            evict::law_eviction(evict, report, then, step);
            assert forall|w: WorkerSpec| #[trigger]
                workers::times(then.active@, w) <= workers::times(phase.active@, w) by {
                workers::lemma_times_chosen(phase.active@, task::outside(then.dead@), w);
            }
            if evict::succeeded(step) {
                lemma_turns_keep_members(
                    phase.task(),
                    then.active@,
                    phase.sources@,
                    phase.source,
                    phase.plan@,
                    phase.samples@,
                    phase.seq_no,
                    state,
                    after,
                    next,
                    state_after,
                );
            }
        },
        (ApplicationStage::Reporting, Report::Ticked) => {
            lemma_turns_keep_members(
                phase.task(),
                phase.active@,
                phase.sources@,
                phase.source,
                phase.plan@,
                if phase.plan.density {
                    table::one_more(phase.samples@, phase.actor->0.id@)
                } else {
                    phase.samples@
                },
                update::number_of(phase.seq_no),
                state,
                after,
                next,
                state_after,
            );
        },
        (ApplicationStage::LosingOthers { error: _ }, Report::AllRecorded(Ok(Some(dead)))) => {
            if dead@.len() == 0 {
                lemma_turns_keep_members(
                    phase.task(),
                    phase.active@,
                    phase.sources@,
                    phase.source,
                    phase.plan@,
                    phase.samples@,
                    phase.seq_no,
                    state,
                    after,
                    next,
                    state_after,
                );
            }
        },
        _ => {},
    }
}

/// The phase begins with the members that it is given.
pub proof fn lemma_application_begins(
    phase: ApplicationPhase,
    active: Seq<WorkerSpec>,
    spread: Spread,
    plateau_size: usize,
    plateau_index: usize,
    per_payload_count: usize,
    payload_sizes: PayloadSizes,
    lane: bool,
    min_samples: usize,
    state: int,
    next: Sent,
    state_after: int,
)
    requires
        phase.started(
            active,
            spread,
            plateau_size,
            plateau_index,
            per_payload_count,
            payload_sizes,
            lane,
            min_samples,
            state,
            next,
            state_after,
        ),
    ensures
        phase.active@ == active,
{
    if active.len() >= 2 && per_payload_count > 0 && workers::places(
        active,
        workers::profiled(),
    ).len() > 0 && payload_sizes.sources_at(state).len() > 0 {
        let sources = payload_sizes.sources_at(state);
        let (planned, state1) = plan::message_plan(
            active,
            per_payload_count,
            lane,
            min_samples,
            payload_sizes.state_after(state),
        );
        lemma_turns_keep_members(
            phase.task(),
            active,
            sources.skip(1),
            sources[0],
            planned,
            Map::empty(),
            0,
            state1,
            phase,
            next,
            state_after,
        );
    }
}

// ---------------------------------------------------------------------------
// The course of the phase
// ---------------------------------------------------------------------------

/// After a member has sent its message, each other member takes it exactly once, and the sender does
/// not. The handling is measured at a measured member other than the sender, if there is one. Then the
/// turn is reported, once.
pub proof fn law_message_turn_that_goes_well(
    phase: ApplicationPhase,
    answer: String,
    state: int,
    sent: ApplicationPhase,
    spreading: Sent,
    state1: int,
    over: ApplicationPhase,
    tick: Sent,
    state2: int,
)
    requires
        phase.wf(),
        phase.stage is Sending,
        phase.active@.len() <= usize::MAX,
        phase.next(Report::Sent(Ok(answer)), state, sent, spreading, state1),
        sent.next(Report::Spread(Ok(())), state1, over, tick, state2),
    ensures
        ({
            let sender = phase.actor->0;
            let active = phase.active@;
            let at = phase.actor_idx as int;
            &&& active.contains(sender)
            &&& spreading matches Next::Do(Order::SpreadMessage { task, .. }) && (forall|
                w: WorkerSpec,
            |
                workers::times(#[trigger] task.recipients@, w) + (if w == sender {
                    1nat
                } else {
                    0nat
                }) == workers::times(active, w)) && if exists|i: int|
                0 <= i < active.len() && i != at && (#[trigger] active[i]).profile_enabled {
                exists|i: int|
                    0 <= i < active.len() && i != at && (#[trigger] active[i]).profile_enabled
                        && task.sampled_id@ == active[i].id@
            } else {
                task.sampled_id@ == Seq::<char>::empty()
            }
            &&& tick matches Next::Do(Order::Tick { units, .. }) && units == 1
            &&& sent.active@ == active && over.active@ == active
            &&& over.seq_no == phase.seq_no
            &&& state2 == state
        }),
{
    let active = phase.active@;
    let at = phase.actor_idx;
    assert forall|w: WorkerSpec| workers::times(#[trigger] active.remove(at as int), w) + (if w
        == phase.actor->0 {
        1nat
    } else {
        0nat
    }) == workers::times(active, w) by {
        workers::lemma_times_left_out(active, at as int, w);
    }
    let measured = workers::places(active, workers::profiled());
    let others = rejoin::without_place(measured, at);
    workers::lemma_places(active, workers::profiled());
    rejoin::lemma_without_place(measured, at);
    if others.len() > 0 {
        let k = sampling::member_at(
            others.len() as int,
            phase.plan.total as int,
            phase.seq_no as int,
        );
        sampling::law_sampled_members(
            others.len() as int,
            phase.plan.total as int,
            phase.seq_no as int,
            phase.seq_no + 1,
        );
        let i = others[k] as int;
        assert(measured.contains(others[k]));
        assert(workers::profiled()(active[i]));
        assert(0 <= i < active.len() && i != at && active[i].profile_enabled);
    } else if exists|i: int|
        0 <= i < active.len() && i != at && (#[trigger] active[i]).profile_enabled {
        let i = choose|i: int|
            0 <= i < active.len() && i != at && (#[trigger] active[i]).profile_enabled;
        assert(workers::profiled()(active[i]));
        assert(measured.contains(i as usize));
        lemma_place_left(measured, at, i as usize);
    }
}

/// Another place stays.
proof fn lemma_place_left(places: Seq<usize>, at: usize, other: usize)
    requires
        places.contains(other),
        other != at,
    ensures
        rejoin::without_place(places, at).contains(other),
    decreases places.len(),
{
    let k = choose|k: int| 0 <= k < places.len() && places[k] == other;
    let front = rejoin::without_place(places.drop_last(), at);
    if k == places.len() - 1 {
        assert(front.push(other).last() == other);
    } else {
        assert(places.drop_last()[k] == other);
        lemma_place_left(places.drop_last(), at, other);
        let i = choose|i: int| 0 <= i < front.len() && front[i] == other;
        assert(front.push(places.last())[i] == other);
    }
}

/// The course that the phase takes: where it stands after each report, and what it orders then. The
/// generator of random numbers may be anywhere before and after a step.
pub struct MessageCourse {
    pub phases: Seq<ApplicationPhase>,
    pub nexts: Seq<Sent>,
    pub reports: Seq<Report>,
    pub before: Seq<int>,
    pub behind: Seq<int>,
}

/// What the phase begins with.
pub struct MessageBegin {
    pub active: Seq<WorkerSpec>,
    pub spread: Spread,
    pub plateau_size: usize,
    pub plateau_index: usize,
    pub per_payload_count: usize,
    pub payload_sizes: PayloadSizes,
    pub lane: bool,
    pub min_samples: usize,
    pub state: int,
    pub state_after: int,
}

impl MessageBegin {
    /// How many sources of sizes there are.
    pub open spec fn rounds(self) -> nat {
        match self.payload_sizes {
            PayloadSizes::Fixed(sizes) => draw::shuffled(sizes@, self.state).len(),
            PayloadSizes::UniformRange { min: _, max: _ } => 1,
        }
    }

    /// There is somebody to send, somebody to take it, and something to send; no device is measured.
    pub open spec fn is_plain(self) -> bool {
        &&& !self.lane
        &&& self.per_payload_count > 0
        &&& self.active.len() >= 2
        &&& exists|i: int| 0 <= i < self.active.len() && (#[trigger] self.active[i]).profile_enabled
        &&& forall|i: int|
            0 <= i < self.active.len() ==> !((#[trigger] self.active[i]).profile_enabled
                && workers::external(self.active[i]))
    }

    /// The plan where nobody comes first.
    spec fn plain(self) -> plan::PlanOfActors {
        plan::PlanOfActors {
            required: Seq::empty(),
            external: None,
            external_seq: None,
            forced_seq: None,
            total: self.per_payload_count,
            density: false,
            min_samples: self.min_samples,
        }
    }

    spec fn task(self) -> MessageTask {
        MessageTask {
            plateau_size: self.plateau_size,
            plateau_index: self.plateau_index,
            per_payload_count: self.per_payload_count,
            lane: self.lane,
            min_samples: self.min_samples,
        }
    }
}

impl MessageCourse {
    /// The phase begins, and each report, all of them good, leads to the next step.
    pub open spec fn goes_well(self, begin: MessageBegin) -> bool {
        &&& self.phases.len() == self.reports.len() + 1
        &&& self.nexts.len() == self.reports.len() + 1
        &&& begin.active.len() <= usize::MAX
        &&& self.phases[0].started(
            begin.active,
            begin.spread,
            begin.plateau_size,
            begin.plateau_index,
            begin.per_payload_count,
            begin.payload_sizes,
            begin.lane,
            begin.min_samples,
            begin.state,
            self.nexts[0],
            begin.state_after,
        )
        &&& forall|i: int|
            0 <= i < self.reports.len() ==> (#[trigger] self.reports[i]).is_good()
                && self.phases[i].wf() && self.phases[i].waits_for(self.reports[i])
                && self.phases[i].next(
                self.reports[i],
                self.before[i],
                self.phases[i + 1],
                self.nexts[i + 1],
                self.behind[i],
            )
    }

    /// Whom the command of a turn goes to.
    pub open spec fn told(self, turn: int) -> WorkerSpec {
        self.nexts[3 * turn]->Do_0->Send_worker
    }

    /// The command of a turn tells this member to send a message to the group.
    pub open spec fn sends(self, turn: int, worker: WorkerSpec) -> bool {
        self.nexts[3 * turn] matches Next::Do(Order::Send { worker: w, command, .. }) && w == worker
            && command@ is SendApplicationMessage
    }

    /// How many bytes the message of a turn has.
    pub open spec fn size(self, turn: int) -> nat {
        units::byte_len(self.nexts[3 * turn]->Do_0->Send_command@->SendApplicationMessage_message)
    }

    /// The message of a turn goes to each member but the sender once, and to nobody else.
    pub open spec fn reaches_all_but(
        self,
        turn: int,
        active: Seq<WorkerSpec>,
        sender: WorkerSpec,
    ) -> bool {
        self.nexts[3 * turn + 1] matches Next::Do(Order::SpreadMessage { task, .. }) && forall|
            w: WorkerSpec,
        |
            workers::times(#[trigger] task.recipients@, w) + (if w == sender {
                1nat
            } else {
                0nat
            }) == workers::times(active, w)
    }
}

proof fn lemma_plain(begin: MessageBegin, state: int)
    requires
        begin.is_plain(),
        begin.active.len() <= usize::MAX,
    ensures
        workers::places(begin.active, workers::profiled()).len() > 0,
        plan::message_plan(
            begin.active,
            begin.per_payload_count,
            begin.lane,
            begin.min_samples,
            state,
        ).0 == begin.plain(),
{
    let active = begin.active;
    let measured = workers::places(active, workers::profiled());
    let i = choose|i: int| 0 <= i < active.len() && (#[trigger] active[i]).profile_enabled;
    workers::lemma_places(active, workers::profiled());
    assert(workers::profiled()(active[i]));
    assert(measured.contains(i as usize));
    assert(crate::density::first_device(active) is None) by {
        let devices = workers::those(active, workers::profiled_external());
        workers::lemma_those(active, workers::profiled_external());
        if devices.len() > 0 {
            assert(devices.contains(devices[0]));
            let i = choose|i: int| 0 <= i < active.len() && active[i] == devices[0];
            assert(active[i].profile_enabled);
        }
    }
}

/// The next turn of a source.
proof fn lemma_plain_turn(
    begin: MessageBegin,
    sources: Seq<PayloadSizeSource>,
    source: PayloadSizeSource,
    samples: Map<Seq<char>, usize>,
    seq_no: usize,
    state: int,
    after: ApplicationPhase,
    next: Sent,
    state_after: int,
)
    requires
        begin.is_plain(),
        begin.active.len() <= usize::MAX,
        seq_no < begin.per_payload_count,
        begin.task().turns(
            begin.active,
            sources,
            source,
            begin.plain(),
            samples,
            seq_no,
            state,
            after,
            next,
            state_after,
        ),
    ensures
        begin.task().sends(
            begin.active,
            sources,
            source,
            begin.plain(),
            samples,
            seq_no,
            None,
            state,
            after,
            next,
        ),
{
    lemma_plain(begin, state);
}

/// The first turn of the next source, or the end.
proof fn lemma_plain_source(
    begin: MessageBegin,
    sources: Seq<PayloadSizeSource>,
    state: int,
    after: ApplicationPhase,
    next: Sent,
    state_after: int,
) -> (drawn: int)
    requires
        begin.is_plain(),
        begin.active.len() <= usize::MAX,
        begin.task().opens(begin.active, sources, state, after, next, state_after),
    ensures
        sources.len() == 0 ==> evict::succeeded(next),
        sources.len() > 0 ==> begin.task().sends(
            begin.active,
            sources.skip(1),
            sources[0],
            begin.plain(),
            Map::empty(),
            0,
            None,
            drawn,
            after,
            next,
        ),
{
    let drawn = plan::message_plan(
        begin.active,
        begin.per_payload_count,
        begin.lane,
        begin.min_samples,
        state,
    ).1;
    lemma_plain(begin, state);
    if sources.len() > 0 {
        lemma_plain_turn(
            begin,
            sources.skip(1),
            sources[0],
            Map::empty(),
            0,
            drawn,
            after,
            next,
            state_after,
        );
    }
    drawn
}

/// Where the phase stands as a turn begins.
spec fn turn_begins(
    course: MessageCourse,
    begin: MessageBegin,
    round: int,
    seq_no: int,
    turn: int,
) -> bool {
    let phase = course.phases[3 * turn];
    let next = course.nexts[3 * turn];
    let sources = begin.payload_sizes.sources_at(begin.state);
    &&& phase.task() == begin.task()
    &&& exists|state: int| #[trigger]
        begin.task().sends(
            begin.active,
            sources.skip(round + 1),
            sources[round],
            begin.plain(),
            phase.samples@,
            seq_no as usize,
            None,
            state,
            phase,
            next,
        )
}

proof fn lemma_turn_over(
    course: MessageCourse,
    begin: MessageBegin,
    round: int,
    seq_no: int,
    turn: int,
)
    requires
        course.goes_well(begin),
        begin.is_plain(),
        0 <= round < begin.payload_sizes.sources_at(begin.state).len(),
        0 <= seq_no < begin.per_payload_count,
        0 <= turn,
        3 * turn + 3 < course.phases.len(),
        turn_begins(course, begin, round, seq_no, turn),
    ensures
        ({
            let phase = course.phases[3 * turn];
            let sources = begin.payload_sizes.sources_at(begin.state);
            let measured = workers::places(begin.active, workers::profiled());
            let at = measured[sampling::member_at(
                measured.len() as int,
                begin.per_payload_count as int,
                seq_no,
            )];
            &&& measured.len() > 0
            &&& at < begin.active.len()
            &&& course.sends(turn, begin.active[at as int])
            &&& sources[round] matches PayloadSizeSource::Fixed(size) ==> course.size(turn) == size
            &&& course.reaches_all_but(turn, begin.active, begin.active[at as int])
            &&& begin.task().turns(
                begin.active,
                sources.skip(round + 1),
                sources[round],
                begin.plain(),
                phase.samples@,
                (seq_no + 1) as usize,
                course.before[3 * turn + 2],
                course.phases[3 * turn + 3],
                course.nexts[3 * turn + 3],
                course.behind[3 * turn + 2],
            )
            &&& course.phases[3 * turn + 3].task() == begin.task()
        }),
{
    let k = 3 * turn;
    lemma_plain(begin, 0);
    assert(course.reports[k].is_good());
    assert(course.reports[k + 1].is_good());
    assert(course.reports[k + 2].is_good());
    assert(course.phases[k].next(
        course.reports[k],
        course.before[k],
        course.phases[k + 1],
        course.nexts[k + 1],
        course.behind[k],
    ));
    assert(course.phases[k + 1].next(
        course.reports[k + 1],
        course.before[k + 1],
        course.phases[k + 2],
        course.nexts[k + 2],
        course.behind[k + 1],
    ));
    assert(course.phases[k + 2].next(
        course.reports[k + 2],
        course.before[k + 2],
        course.phases[k + 3],
        course.nexts[k + 3],
        course.behind[k + 2],
    ));
    let active = begin.active;
    let at = course.phases[k].actor_idx as int;
    assert forall|w: WorkerSpec| workers::times(#[trigger] active.remove(at), w) + (if w
        == active[at] {
        1nat
    } else {
        0nat
    }) == workers::times(active, w) by {
        workers::lemma_times_left_out(active, at, w);
    }
}

proof fn lemma_turn_begins(
    course: MessageCourse,
    begin: MessageBegin,
    round: int,
    seq_no: int,
    turn: int,
)
    requires
        course.goes_well(begin),
        begin.is_plain(),
        0 <= round < begin.payload_sizes.sources_at(begin.state).len(),
        0 <= seq_no < begin.per_payload_count,
        turn == round * begin.per_payload_count + seq_no,
        3 * turn < course.phases.len(),
    ensures
        0 <= turn,
        turn_begins(course, begin, round, seq_no, turn),
    decreases round, seq_no,
{
    let sources = begin.payload_sizes.sources_at(begin.state);
    let per = begin.per_payload_count as int;
    assert(0 <= round * per) by (nonlinear_arith)
        requires
            0 <= round,
            0 <= per,
    ;
    lemma_plain(begin, 0);
    if seq_no > 0 {
        lemma_turn_begins(course, begin, round, seq_no - 1, turn - 1);
        lemma_turn_over(course, begin, round, seq_no - 1, turn - 1);
        let k = 3 * turn;
        assert(3 * (turn - 1) + 3 == k);
        lemma_plain_turn(
            begin,
            sources.skip(round + 1),
            sources[round],
            course.phases[k - 3].samples@,
            seq_no as usize,
            course.before[k - 1],
            course.phases[k],
            course.nexts[k],
            course.behind[k - 1],
        );
        lemma_begun(
            course,
            begin,
            round,
            seq_no,
            turn,
            course.phases[k - 3].samples@,
            course.before[k - 1],
        );
    } else if round > 0 {
        assert((round - 1) * per + (per - 1) == turn - 1) by (nonlinear_arith)
            requires
                turn == round * per,
        ;
        lemma_turn_begins(course, begin, round - 1, per - 1, turn - 1);
        lemma_turn_over(course, begin, round - 1, per - 1, turn - 1);
        let k = 3 * turn;
        assert(3 * (turn - 1) + 3 == k);
        let rest = sources.skip(round);
        assert(sources.skip(round - 1 + 1) == rest);
        assert(begin.task().opens(
            begin.active,
            rest,
            course.before[k - 1],
            course.phases[k],
            course.nexts[k],
            course.behind[k - 1],
        ));
        let drawn = lemma_plain_source(
            begin,
            rest,
            course.before[k - 1],
            course.phases[k],
            course.nexts[k],
            course.behind[k - 1],
        );
        assert(rest.skip(1) =~= sources.skip(round + 1));
        assert(rest[0] == sources[round]);
        lemma_begun(course, begin, round, seq_no, turn, Map::empty(), drawn);
    } else {
        assert(turn == 0) by (nonlinear_arith)
            requires
                turn == round * per,
                round == 0,
        ;
        let drawn = lemma_plain_source(
            begin,
            sources,
            begin.payload_sizes.state_after(begin.state),
            course.phases[0],
            course.nexts[0],
            begin.state_after,
        );
        lemma_begun(course, begin, round, seq_no, turn, Map::empty(), drawn);
    }
}

/// A turn has begun where a message is sent.
proof fn lemma_begun(
    course: MessageCourse,
    begin: MessageBegin,
    round: int,
    seq_no: int,
    turn: int,
    samples: Map<Seq<char>, usize>,
    state: int,
)
    requires
        course.phases[3 * turn].task() == begin.task(),
        begin.task().sends(
            begin.active,
            begin.payload_sizes.sources_at(begin.state).skip(round + 1),
            begin.payload_sizes.sources_at(begin.state)[round],
            begin.plain(),
            samples,
            seq_no as usize,
            None,
            state,
            course.phases[3 * turn],
            course.nexts[3 * turn],
        ),
    ensures
        turn_begins(course, begin, round, seq_no, turn),
{
    assert(begin.task().sends(
        begin.active,
        begin.payload_sizes.sources_at(begin.state).skip(round + 1),
        begin.payload_sizes.sources_at(begin.state)[round],
        begin.plain(),
        course.phases[3 * turn].samples@,
        seq_no as usize,
        None,
        state,
        course.phases[3 * turn],
        course.nexts[3 * turn],
    ));
}

/// Where all goes well and no device is measured, the measured members send messages by turns, for
/// each source of sizes as many as were asked for, and then the phase is over. With at least as many
/// turns as there are measured members each of them sends a message of each size; with at most as many
/// none sends two messages of one size. Nobody else sends any. A message has as many bytes as it shall
/// have, and reaches each member but its sender exactly once.
pub proof fn law_measured_members_send_by_turns(course: MessageCourse, begin: MessageBegin)
    requires
        course.goes_well(begin),
        begin.is_plain(),
        course.reports.len() == 3 * (begin.rounds() * begin.per_payload_count),
    ensures
        course.nexts.last() matches Next::Done(Ok(_)),
        forall|round: int, seq_no: int|
            0 <= round < begin.rounds() && 0 <= seq_no < begin.per_payload_count ==> {
                let turn = #[trigger] turn_number(begin, round, seq_no);
                let sender = course.told(turn);
                &&& course.sends(turn, sender)
                &&& begin.active.contains(sender)
                &&& sender.profile_enabled
                &&& course.reaches_all_but(turn, begin.active, sender)
                &&& begin.payload_sizes matches PayloadSizes::Fixed(sizes) ==> course.size(turn)
                    == draw::shuffled(sizes@, begin.state)[round]
            },
        begin.per_payload_count >= begin.active.filter(|w: WorkerSpec| w.profile_enabled).len()
            ==> forall|round: int, i: int|
            0 <= round < begin.rounds() && 0 <= i < begin.active.len()
                && begin.active[i].profile_enabled ==> #[trigger] sends_in_round(
                course,
                begin,
                round,
                begin.active[i],
            ),
        workers::distinct(begin.active) ==> forall|round: int, a: int, b: int|
            {
                &&& 0 <= round < begin.rounds()
                &&& 0 <= a < b < begin.per_payload_count
                &&& b - a < begin.active.filter(|w: WorkerSpec| w.profile_enabled).len()
                    || begin.per_payload_count <= begin.active.filter(
                    |w: WorkerSpec| w.profile_enabled,
                ).len()
            } ==> course.told(#[trigger] turn_number(begin, round, a)) != course.told(
                #[trigger] turn_number(begin, round, b),
            ),
{
    let active = begin.active;
    let sources = begin.payload_sizes.sources_at(begin.state);
    let wanted = workers::profiled();
    let measured = |w: WorkerSpec| w.profile_enabled;
    let places = workers::places(active, wanted);
    let per = begin.per_payload_count as int;
    workers::lemma_places(active, wanted);
    workers::lemma_count_of_places(active, wanted);
    assert(measured =~= wanted);
    lemma_plain(begin, 0);
    assert(sources.len() == begin.rounds());
    assert forall|round: int, seq_no: int|
        0 <= round < begin.rounds() && 0 <= seq_no < begin.per_payload_count implies ({
        let turn = #[trigger] turn_number(begin, round, seq_no);
        let sender = course.told(turn);
        &&& course.sends(turn, sender)
        &&& active.contains(sender)
        &&& sender.profile_enabled
        &&& course.reaches_all_but(turn, active, sender)
        &&& begin.payload_sizes matches PayloadSizes::Fixed(sizes) ==> course.size(turn)
            == draw::shuffled(sizes@, begin.state)[round]
        &&& sender == active[places[sampling::member_at(places.len() as int, per, seq_no)] as int]
    }) by {
        let turn = turn_number(begin, round, seq_no);
        lemma_turn_within(begin, round, seq_no);
        lemma_turn_begins(course, begin, round, seq_no, turn);
        lemma_turn_over(course, begin, round, seq_no, turn);
        sampling::law_sampled_members(places.len() as int, per, seq_no, seq_no + 1);
        let at = places[sampling::member_at(places.len() as int, per, seq_no)];
        assert(wanted(active[at as int]));
    }
    if begin.rounds() == 0 {
        assert(begin.rounds() * per == 0) by (nonlinear_arith)
            requires
                begin.rounds() == 0,
        ;
        let drawn = lemma_plain_source(
            begin,
            sources,
            begin.payload_sizes.state_after(begin.state),
            course.phases[0],
            course.nexts[0],
            begin.state_after,
        );
    } else {
        let round = begin.rounds() - 1;
        let turn = turn_number(begin, round, per - 1);
        assert(turn + 1 == begin.rounds() * per) by (nonlinear_arith)
            requires
                turn == round * per + (per - 1),
                round == begin.rounds() - 1,
        ;
        lemma_turn_within(begin, round, per - 1);
        lemma_turn_begins(course, begin, round, per - 1, turn);
        lemma_turn_over(course, begin, round, per - 1, turn);
        let k = 3 * turn + 3;
        assert(begin.task().opens(
            active,
            sources.skip(round + 1),
            course.before[k - 1],
            course.phases[k],
            course.nexts[k],
            course.behind[k - 1],
        ));
        let drawn = lemma_plain_source(
            begin,
            sources.skip(round + 1),
            course.before[k - 1],
            course.phases[k],
            course.nexts[k],
            course.behind[k - 1],
        );
    }
    if begin.per_payload_count >= active.filter(measured).len() {
        assert forall|round: int, i: int|
            0 <= round < begin.rounds() && 0 <= i < active.len()
                && active[i].profile_enabled implies #[trigger] sends_in_round(
            course,
            begin,
            round,
            active[i],
        ) by {
            assert(wanted(active[i]));
            assert(places.contains(i as usize));
            let seq_no = choose|k: int| 0 <= k < places.len() && places[k] == i as usize;
            vstd::arithmetic::div_mod::lemma_small_mod(seq_no as nat, places.len());
            let turn = turn_number(begin, round, seq_no);
            assert(course.told(turn) == active[i]);
        }
    }
    if workers::distinct(active) {
        assert forall|round: int, a: int, b: int|
            {
                &&& 0 <= round < begin.rounds()
                &&& 0 <= a < b < begin.per_payload_count
                &&& b - a < active.filter(measured).len() || begin.per_payload_count
                    <= active.filter(measured).len()
            } implies course.told(#[trigger] turn_number(begin, round, a)) != course.told(
            #[trigger] turn_number(begin, round, b),
        ) by {
            let n = places.len() as int;
            sampling::law_members_by_turns(n, per, a, b);
            let x = sampling::member_at(n, per, a);
            let y = sampling::member_at(n, per, b);
            let ids = workers::ids(active);
            assert(places[x] != places[y]);
            assert(ids[places[x] as int] != ids[places[y] as int]);
        }
    }
}

/// The turns of the phase, source by source.
pub open spec fn turn_number(begin: MessageBegin, round: int, seq_no: int) -> int {
    round * begin.per_payload_count + seq_no
}

/// A member sends a message while a source of sizes is open.
pub open spec fn sends_in_round(
    course: MessageCourse,
    begin: MessageBegin,
    round: int,
    worker: WorkerSpec,
) -> bool {
    exists|seq_no: int|
        0 <= seq_no < begin.per_payload_count && course.sends(
            #[trigger] turn_number(begin, round, seq_no),
            worker,
        )
}

proof fn lemma_turn_within(begin: MessageBegin, round: int, seq_no: int)
    requires
        0 <= round < begin.rounds(),
        0 <= seq_no < begin.per_payload_count,
    ensures
        0 <= turn_number(begin, round, seq_no),
        turn_number(begin, round, seq_no) + 1 <= begin.rounds() * begin.per_payload_count,
{
    let per = begin.per_payload_count as int;
    let rounds = begin.rounds() as int;
    assert(0 <= round * per && round * per + per <= rounds * per) by (nonlinear_arith)
        requires
            0 <= round < rounds,
            0 <= per,
    ;
}

/// Where the acting member fails, its failure is written down, as it came. Where the run goes on, the
/// member is taken out: another member is asked for its state, if there is one. Where it does not go
/// on, the phase fails with what the member failed with.
pub proof fn law_message_whose_actor_fails(
    phase: ApplicationPhase,
    error: Failure,
    report: Report,
    state: int,
    state1: int,
    losing: ApplicationPhase,
    record: Sent,
    verdict: Result<bool, Failure>,
    state2: int,
    state3: int,
    after: ApplicationPhase,
    next: Sent,
)
    requires
        phase.wf(),
        phase.waits_for(report),
        ({
            phase.stage is Sending && report == Report::Sent(Err(error))
        }),
        phase.next(report, state, losing, record, state1),
        losing.next(Report::Recorded(verdict), state2, after, next, state3),
    ensures
        ({
            let actor = phase.actor->0;
            let others = exists|i: int|
                0 <= i < phase.active@.len() && (#[trigger] phase.active@[i]).id@ != actor.id@;
            &&& record matches Next::Do(Order::Record { worker, error: e, reassigned_to, .. })
                && worker == actor && e@ == error@ && (match reassigned_to {
                Some(other) => phase.active@.contains(other) && other.id@ != actor.id@,
                None => !others,
            })
            &&& verdict matches Err(worse) ==> (next matches Next::Done(Err(e)) && e@ == worse@)
            &&& verdict == Ok::<bool, Failure>(false) ==> (next matches Next::Done(Err(e)) && e@
                == error@)
            &&& verdict == Ok::<bool, Failure>(true) ==> if others {
                next matches Next::Do(Order::ShowState { worker }) && phase.active@.contains(worker)
                    && worker.id@ != actor.id@ && after.stage is Evicting && forall|
                    id: Seq<char>,
                | #[trigger]
                    after.stage->Evicting_0.dead@.contains(id) <==> id == actor.id@
            } else {
                next matches Next::Done(Err(_))
            }
            &&& after.active@ == phase.active@
        }),
{
    let actor = phase.actor->0;
    let dead = seq![actor];
    task::lemma_other_than(phase.active@, actor.id@);
    evict::lemma_acts(phase.active@, dead);
    assert forall|id: Seq<char>| #[trigger] evict::is_one_of(dead, id) <==> id == actor.id@ by {
        assert(dead[0].id@ == actor.id@);
    }
    if phase.active@.len() > 0 && exists|i: int|
        0 <= i < phase.active@.len() && (#[trigger] phase.active@[i]).id@ != actor.id@ {
        let i = choose|i: int|
            0 <= i < phase.active@.len() && (#[trigger] phase.active@[i]).id@ != actor.id@;
        assert(!evict::is_one_of(dead, phase.active@[i].id@));
    }
}

/// Where other members fail, their failures are written down. Where the run goes on without some of
/// them, these are taken out: a member that is none of them is asked for its state, if there is one.
/// Where it does not go on, the phase fails with what they failed with.
pub proof fn law_message_that_others_fail(
    phase: ApplicationPhase,
    error: Failure,
    state: int,
    state1: int,
    losing: ApplicationPhase,
    record: Sent,
    verdict: Result<Option<Vec<WorkerSpec>>, Failure>,
    state2: int,
    state3: int,
    after: ApplicationPhase,
    next: Sent,
)
    requires
        phase.wf(),
        phase.stage is Spreading,
        phase.next(Report::Spread(Err(error)), state, losing, record, state1),
        losing.next(Report::AllRecorded(verdict), state2, after, next, state3),
    ensures
        record matches Next::Do(Order::RecordAll { error: e, reassigned_to, .. }) && e@ == error@
            && reassigned_to == phase.actor,
        verdict matches Err(worse) ==> (next matches Next::Done(Err(e)) && e@ == worse@),
        verdict matches Ok(None) ==> (next matches Next::Done(Err(e)) && e@ == error@),
        verdict matches Ok(Some(dead)) ==> dead@.len() > 0 ==> if exists|i: int|
            0 <= i < phase.active@.len() && !evict::is_one_of(
                dead@,
                (#[trigger] phase.active@[i]).id@,
            ) {
            next matches Next::Do(Order::ShowState { worker }) && phase.active@.contains(worker)
                && !evict::is_one_of(dead@, worker.id@) && after.stage is Evicting && after.active@
                == phase.active@ && forall|id: Seq<char>| #[trigger]
                after.stage->Evicting_0.dead@.contains(id) <==> evict::is_one_of(dead@, id)
        } else {
            next matches Next::Done(Err(_))
        },
{
    if let Ok(Some(dead)) = verdict {
        evict::lemma_acts(phase.active@, dead@);
    }
}

/// What is ordered where a message is sent.
proof fn lemma_turns_send(
    task: MessageTask,
    active: Seq<WorkerSpec>,
    sources: Seq<PayloadSizeSource>,
    source: PayloadSizeSource,
    planned: plan::PlanOfActors,
    samples: Map<Seq<char>, usize>,
    seq_no: usize,
    state: int,
    after: ApplicationPhase,
    next: Sent,
    state_after: int,
)
    requires
        task.turns(
            active,
            sources,
            source,
            planned,
            samples,
            seq_no,
            state,
            after,
            next,
            state_after,
        ),
    ensures
        after.stage is Sending ==> {
            &&& active.contains(after.actor->0)
            &&& next matches Next::Do(Order::Send { worker, command, .. }) && worker
                == after.actor->0 && (
            command@ matches command::CommandView::SendApplicationMessage { message }
                && units::byte_len(message) == after.payload_size)
            &&& next->Do_0.place() is Some
            &&& stands_at(next->Do_0.place()->0, task, active.len(), after.seq_no, after.payload_size)
        },
    decreases sources.len(),
{
    let device = choose|device: Option<Seq<char>>|
        {
            &&& #[trigger] planned.device_next(active, samples, device)
            &&& if planned.done(seq_no, device) {
                task.opens(active, sources, state, after, next, state_after)
            } else if active.len() < 2 || workers::places(active, workers::profiled()).len() == 0 {
                &&& after.ends(active)
                &&& evict::succeeded(next)
                &&& state_after == state
            } else {
                &&& task.sends(
                    active,
                    sources,
                    source,
                    planned,
                    samples,
                    seq_no,
                    device,
                    state,
                    after,
                    next,
                )
                &&& state_after == source.state_after(state)
            }
        };
    if planned.done(seq_no, device) && sources.len() > 0 {
        let (opened, state1) = plan::message_plan(
            active,
            task.per_payload_count,
            task.lane,
            task.min_samples,
            state,
        );
        lemma_turns_send(
            task,
            active,
            sources.skip(1),
            sources[0],
            opened,
            Map::empty(),
            0,
            state1,
            after,
            next,
            state_after,
        );
    }
}

/// A place in the run is the one where a message of the phase belongs.
pub open spec fn stands_at(
    place: command::Marks,
    task: MessageTask,
    active: nat,
    seq_no: usize,
    payload_size: usize,
) -> bool {
    &&& place.plateau_index == Some(task.plateau_index)
    &&& place.target_size == Some(task.plateau_size)
    &&& place.active_size == Some(active as usize)
    &&& place.phase == Some("application"@)
    &&& place.operation == Some("send_application_message"@)
    &&& seq_no < usize::MAX ==> place.operation_seq == Some((seq_no + 1) as usize)
    &&& place.payload_size == Some(payload_size)
    &&& place.batch_requested is None && place.batch_effective is None
}

/// Where a turn is reported, and the phase goes on with another one, a member is told to send a message
/// of the size that the phase remembers, and the order names the place in the run where the phase
/// stands. Until the turn is over the phase does not move, and its orders name the same place.
pub proof fn law_message_marks(
    phase: ApplicationPhase,
    report: Report,
    state: int,
    after: ApplicationPhase,
    next: Sent,
    state_after: int,
)
    requires
        phase.wf(),
        phase.waits_for(report),
        phase.next(report, state, after, next, state_after),
    ensures
        phase.stage is Reporting && after.stage is Sending ==> {
            &&& phase.active@.contains(after.actor->0)
            &&& next matches Next::Do(Order::Send { worker, command, .. }) && worker
                == after.actor->0 && (
            command@ matches command::CommandView::SendApplicationMessage { message }
                && units::byte_len(message) == after.payload_size)
            &&& next->Do_0.place() is Some
            &&& stands_at(
                next->Do_0.place()->0,
                phase.task(),
                phase.active@.len(),
                after.seq_no,
                after.payload_size,
            )
        },
        phase.stage is Sending || phase.stage is Spreading ==> {
            &&& after.seq_no == phase.seq_no
            &&& after.payload_size == phase.payload_size
            &&& next matches Next::Do(order) && (order.place() matches Some(place) ==> stands_at(
                place,
                phase.task(),
                phase.active@.len(),
                phase.seq_no,
                phase.payload_size,
            ))
        },
{
    if phase.stage is Reporting {
        lemma_turns_send(
            phase.task(),
            phase.active@,
            phase.sources@,
            phase.source,
            phase.plan@,
            if phase.plan.density {
                table::one_more(phase.samples@, phase.actor->0.id@)
            } else {
                phase.samples@
            },
            update::number_of(phase.seq_no),
            state,
            after,
            next,
            state_after,
        );
    }
}

} // verus!
