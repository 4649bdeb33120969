//! Which member acts when, in a phase in which members act one after the other.

use rand::rngs::StdRng;
use vstd::prelude::*;

use crate::density;
use crate::density::find_first_device;
use crate::draw;
use crate::draw::draw_below;
use crate::remove;
use crate::roles;
use crate::roles::least_sampled_active_external_id;
use crate::sampling;
use crate::sampling::sampled_member_index;
use crate::table::Counts;
use crate::text;
use crate::units;
use crate::units::times;
use crate::workers;
use crate::workers::{
    active_external_indices, active_profiled_indices, active_profiled_non_external_indices,
    position_of, WorkerSpec,
};

verus! {

/// Which member acts when.
#[derive(Debug)]
pub struct ActorPlan {
    /// The members that act first, one after the other.
    pub required_ids: Vec<String>,
    /// A device, and its turn.
    pub external_id: Option<String>,
    pub external_seq: Option<usize>,
    /// The turn of a measured member in a container.
    pub forced_seq: Option<usize>,
    /// How many turns there are.
    pub total: usize,
    /// Whether devices act until each has enough samples.
    pub density: bool,
    /// How many samples are enough.
    pub min_samples: usize,
}

/// Which member acts when.
#[verifier::ext_equal]
pub struct PlanOfActors {
    pub required: Seq<Seq<char>>,
    pub external: Option<Seq<char>>,
    pub external_seq: Option<usize>,
    pub forced_seq: Option<usize>,
    pub total: usize,
    pub density: bool,
    pub min_samples: usize,
}

impl View for ActorPlan {
    type V = PlanOfActors;

    open spec fn view(&self) -> PlanOfActors {
        PlanOfActors {
            required: text::texts(self.required_ids@),
            external: text::maybe(self.external_id),
            external_seq: self.external_seq,
            forced_seq: self.forced_seq,
            total: self.total,
            density: self.density,
            min_samples: self.min_samples,
        }
    }
}

/// The ids of the members at some places.
pub open spec fn ids_at_places(active: Seq<WorkerSpec>, places: Seq<usize>) -> Seq<Seq<char>> {
    workers::ids(remove::at_places(active, places))
}

/// The members that act first, and the state of the generator after they are chosen: the measured
/// devices and, where no samples are required, one measured member in a container.
pub open spec fn required_actors(
    active: Seq<WorkerSpec>,
    lane: bool,
    min_samples: usize,
    state: int,
) -> (Seq<Seq<char>>, int) {
    let devices = workers::places(active, workers::profiled_external());
    let others = workers::places(active, workers::profiled_in_container());
    if !lane {
        (Seq::empty(), state)
    } else if min_samples == 0 && others.len() > 0 {
        (
            ids_at_places(
                active,
                devices.push(others[draw::draw_at(state, 0, others.len() - 1)]),
            ),
            draw::state_after_draw(state, 0, others.len() - 1),
        )
    } else {
        (ids_at_places(active, devices), state)
    }
}

fn take_required(active: &[WorkerSpec], lane: bool, min_samples: usize, rng: &mut StdRng) -> (names:
    Vec<String>)
    ensures
        (text::texts(names@), draw::generator_state(*final(rng))) == required_actors(
            active@,
            lane,
            min_samples,
            draw::generator_state(*old(rng)),
        ),
{
    let mut names: Vec<String> = Vec::new();
    if !lane {
        assert(text::texts(names@) =~= Seq::<Seq<char>>::empty());
        return names;
    }
    let mut places: Vec<usize> = active_external_indices(active);
    proof {
        assert(active.len() == active@.len());
        workers::lemma_places(active@, workers::profiled_external());
        workers::lemma_places(active@, workers::profiled_in_container());
    }
    if min_samples == 0 {
        let others: Vec<usize> = active_profiled_non_external_indices(active);
        if others.len() > 0 {
            let pick: usize = draw_below(rng, others.len());
            places.push(others[pick]);
        }
    }
    let mut i: usize = 0;
    while i < places.len()
        invariant
            i <= places@.len(),
            forall|k: int| 0 <= k < places@.len() ==> (#[trigger] places@[k]) < active@.len(),
            names@.len() == i,
            forall|k: int| 0 <= k < i ==> (#[trigger] names@[k])@ == active@[places@[k] as int].id@,
        decreases places@.len() - i,
    {
        names.push(active[places[i]].id.clone());
        i = i + 1;
    }
    assert(text::texts(names@) =~= ids_at_places(active@, places@));
    names
}

/// How many turns the members that act first need.
pub open spec fn turns_needed(required: nat, min_samples: usize) -> int {
    units::saturated(
        required * if min_samples > 1 {
            min_samples as int
        } else {
            1
        },
    )
}

fn need_turns(required: usize, min_samples: usize) -> (turns: usize)
    ensures
        turns == turns_needed(required as nat, min_samples),
{
    times(
        required,
        if min_samples > 1 {
            min_samples
        } else {
            1
        },
    )
}

/// The turn of a device, and the state of the generator after the choice.
pub open spec fn drawn_turn(device: Option<Seq<char>>, total: usize, state: int) -> (
    Option<usize>,
    int,
) {
    match device {
        Some(_) => (
            Some(draw::draw_at(state, 0, total - 1) as usize),
            draw::state_after_draw(state, 0, total - 1),
        ),
        None => (None, state),
    }
}

/// The plan of an update phase, and the state of the generator after it is made. Nothing where
/// nobody is measured, or where there is nothing to do.
pub open spec fn update_plan(
    active: Seq<WorkerSpec>,
    base: usize,
    lane: bool,
    min_samples: usize,
    state: int,
) -> (Option<PlanOfActors>, int) {
    let (required, state1) = required_actors(active, lane, min_samples, state);
    let needed = turns_needed(required.len(), min_samples);
    let total = units::greatest(base as int, needed) as usize;
    let device = if lane {
        None
    } else {
        density::first_device(active)
    };
    let (turn, state2) = drawn_turn(device, total, state1);
    if workers::places(active, workers::profiled()).len() == 0 {
        (None, state)
    } else if total == 0 {
        (None, state1)
    } else {
        (
            Some(
                PlanOfActors {
                    required: required,
                    external: device,
                    external_seq: turn,
                    forced_seq: None,
                    total: total,
                    density: lane && min_samples > 0,
                    min_samples: min_samples,
                },
            ),
            state2,
        )
    }
}

/// A plan that may be missing.
pub open spec fn maybe_plan(plan: Option<ActorPlan>) -> Option<PlanOfActors> {
    match plan {
        Some(plan) => Some(plan@),
        None => None,
    }
}

/// Makes the plan of an update phase.
pub fn plan_updates(
    active: &[WorkerSpec],
    base_updates: usize,
    external_coverage_lane: bool,
    min_profiled_samples_per_operation: usize,
    rng: &mut StdRng,
) -> (plan: Option<ActorPlan>)
    ensures
        (maybe_plan(plan), draw::generator_state(*final(rng))) == update_plan(
            active@,
            base_updates,
            external_coverage_lane,
            min_profiled_samples_per_operation,
            draw::generator_state(*old(rng)),
        ),
        plan is Some ==> plan->0.total > 0,
{
    if active_profiled_indices(active).len() == 0 {
        return None;
    }
    let required: Vec<String> = take_required(
        active,
        external_coverage_lane,
        min_profiled_samples_per_operation,
        rng,
    );
    let needed: usize = need_turns(required.len(), min_profiled_samples_per_operation);
    assert(text::texts(required@).len() == required@.len());
    let total: usize = if base_updates >= needed {
        base_updates
    } else {
        needed
    };
    if total == 0 {
        return None;
    }
    let device: Option<String> = if external_coverage_lane {
        None
    } else {
        find_first_device(active)
    };
    let turn: Option<usize> = match &device {
        Some(_) => Some(draw_below(rng, total)),
        None => None,
    };
    Some(
        ActorPlan {
            required_ids: required,
            external_id: device,
            external_seq: turn,
            forced_seq: None,
            total: total,
            density: external_coverage_lane && min_profiled_samples_per_operation > 0,
            min_samples: min_profiled_samples_per_operation,
        },
    )
}

/// Whether a device has to receive a message that a member in a container sends.
pub open spec fn device_receives(active: Seq<WorkerSpec>, lane: bool) -> bool {
    &&& !lane
    &&& density::first_device(active) is Some
    &&& workers::places(active, workers::profiled_in_container()).len() > 0
}

/// How many messages are sent.
pub open spec fn messages_planned(
    active: Seq<WorkerSpec>,
    base: usize,
    lane: bool,
    min_samples: usize,
    required: nat,
) -> usize {
    if lane {
        units::greatest(base as int, turns_needed(required, min_samples)) as usize
    } else if device_receives(active, lane) && base == 1 {
        2
    } else {
        base
    }
}

/// The plan of the messages from one source, and the state of the generator after it is made.
pub open spec fn message_plan(
    active: Seq<WorkerSpec>,
    base: usize,
    lane: bool,
    min_samples: usize,
    state: int,
) -> (PlanOfActors, int) {
    let (required, state1) = required_actors(active, lane, min_samples, state);
    let total = messages_planned(active, base, lane, min_samples, required.len());
    let device = density::first_device(active);
    let (turn, state2) = if lane {
        (None, state1)
    } else {
        drawn_turn(device, total, state1)
    };
    (
        PlanOfActors {
            required: required,
            external: device,
            external_seq: turn,
            forced_seq: if device_receives(active, lane) && total > 1 && turn is Some {
                Some(((turn->0 + 1) % (total as int)) as usize)
            } else {
                None
            },
            total: total,
            density: lane && min_samples > 0,
            min_samples: min_samples,
        },
        state2,
    )
}

/// Makes the plan of the messages from one source.
pub fn plan_messages(
    active: &[WorkerSpec],
    per_payload_count: usize,
    external_coverage_lane: bool,
    min_profiled_samples_per_operation: usize,
    rng: &mut StdRng,
) -> (plan: ActorPlan)
    requires
        per_payload_count > 0,
    ensures
        (plan@, draw::generator_state(*final(rng))) == message_plan(
            active@,
            per_payload_count,
            external_coverage_lane,
            min_profiled_samples_per_operation,
            draw::generator_state(*old(rng)),
        ),
        plan.total > 0,
{
    let others: usize = active_profiled_non_external_indices(active).len();
    let required: Vec<String> = take_required(
        active,
        external_coverage_lane,
        min_profiled_samples_per_operation,
        rng,
    );
    let device: Option<String> = find_first_device(active);
    let receives: bool = match &device {
        Some(_) => !external_coverage_lane && others > 0,
        None => false,
    };
    assert(receives == device_receives(active@, external_coverage_lane));
    let needed: usize = need_turns(required.len(), min_profiled_samples_per_operation);
    assert(text::texts(required@).len() == required@.len());
    let total: usize = if external_coverage_lane {
        if per_payload_count >= needed {
            per_payload_count
        } else {
            needed
        }
    } else if receives && per_payload_count == 1 {
        2
    } else {
        per_payload_count
    };
    let turn: Option<usize> = if external_coverage_lane {
        None
    } else {
        match &device {
            Some(_) => Some(draw_below(rng, total)),
            None => None,
        }
    };
    let forced: Option<usize> = match turn {
        Some(turn) => {
            if receives && total > 1 {
                Some((turn + 1) % total)
            } else {
                None
            }
        },
        None => None,
    };
    ActorPlan {
        required_ids: required,
        external_id: device,
        external_seq: turn,
        forced_seq: forced,
        total: total,
        density: external_coverage_lane && min_profiled_samples_per_operation > 0,
        min_samples: min_profiled_samples_per_operation,
    }
}

// ---------------------------------------------------------------------------
// Whose turn it is
// ---------------------------------------------------------------------------

impl PlanOfActors {
    /// No turn is left, for a device that was chosen or not.
    pub open spec fn done(self, seq_no: usize, device: Option<Seq<char>>) -> bool {
        if self.density {
            device is None
        } else {
            seq_no >= self.total
        }
    }

    /// The device that acts next: the one with the fewest samples, if one has too few.
    pub open spec fn device_next(
        self,
        active: Seq<WorkerSpec>,
        samples: Map<Seq<char>, usize>,
        device: Option<Seq<char>>,
    ) -> bool {
        if self.density {
            roles::least_sampled(active, samples, self.min_samples, device)
        } else {
            device is None
        }
    }

    /// The id that comes first at a turn.
    pub open spec fn first_choice(self, seq_no: usize, device: Option<Seq<char>>) -> Option<
        Seq<char>,
    > {
        if device is Some {
            device
        } else if seq_no < self.required.len() {
            Some(self.required[seq_no as int])
        } else {
            None
        }
    }

    /// The place of the member that acts at a turn: a device that lacks samples, a member that is
    /// required, the device whose turn it is, a member in a container whose turn it is, or else the
    /// measured members by turns.
    pub open spec fn acts_at(
        self,
        active: Seq<WorkerSpec>,
        seq_no: usize,
        device: Option<Seq<char>>,
        at: usize,
    ) -> bool {
        let first = self.first_choice(seq_no, device);
        let profiled = workers::places(active, workers::profiled());
        let contained = workers::places(active, workers::profiled_in_container());
        &&& at < active.len()
        &&& if first is Some && workers::has_id(active, first->0) {
            roles::first_with_id(active, first->0, at as int)
        } else if self.external_seq == Some(seq_no) && self.external is Some && workers::has_id(
            active,
            self.external->0,
        ) {
            roles::first_with_id(active, self.external->0, at as int)
        } else if self.forced_seq == Some(seq_no) && contained.len() > 0 {
            at == contained[sampling::member_at(
                contained.len() as int,
                self.total as int,
                seq_no as int,
            )]
        } else {
            at == profiled[sampling::member_at(
                profiled.len() as int,
                self.total as int,
                seq_no as int,
            )]
        }
    }
}

/// The place of the first member with an id that may be missing.
fn place_of(active: &[WorkerSpec], id: Option<&str>) -> (at: Option<usize>)
    ensures
        match at {
            Some(at) => id is Some && workers::has_id(active@, id->0@) && roles::first_with_id(
                active@,
                id->0@,
                at as int,
            ),
            None => id is None || !workers::has_id(active@, id->0@),
        },
{
    match id {
        Some(id) => match position_of(active, id) {
            Some(at) => {
                assert(active@[at as int].id@ == id@);
                Some(at)
            },
            None => None,
        },
        None => None,
    }
}

impl ActorPlan {
    /// The device that acts next.
    pub(crate) fn next_device(&self, active: &[WorkerSpec], samples: &Counts) -> (device: Option<
        String,
    >)
        ensures
            self@.device_next(active@, samples@, text::maybe(device)),
    {
        if self.density {
            least_sampled_active_external_id(active, samples, self.min_samples)
        } else {
            None
        }
    }

    /// Whether no turn is left.
    pub(crate) fn is_done(&self, seq_no: usize, device: &Option<String>) -> (yes: bool)
        ensures
            yes == self@.done(seq_no, text::maybe(*device)),
    {
        if self.density {
            match device {
                Some(_) => false,
                None => true,
            }
        } else {
            seq_no >= self.total
        }
    }

    /// The place of the member that acts at a turn.
    pub(crate) fn actor_at(
        &self,
        active: &[WorkerSpec],
        seq_no: usize,
        device: &Option<String>,
    ) -> (at: usize)
        requires
            self.total > 0,
            workers::places(active@, workers::profiled()).len() > 0,
        ensures
            self@.acts_at(active@, seq_no, text::maybe(*device), at),
    {
        let first: Option<&str> = match device {
            Some(id) => Some(id.as_str()),
            None => {
                if seq_no < self.required_ids.len() {
                    Some(self.required_ids[seq_no].as_str())
                } else {
                    None
                }
            },
        };
        assert(text::named(first) == self@.first_choice(seq_no, text::maybe(*device)));
        if let Some(at) = place_of(active, first) {
            return at;
        }
        let its_turn: bool = match self.external_seq {
            Some(turn) => turn == seq_no,
            None => false,
        };
        if its_turn {
            let id: Option<&str> = match &self.external_id {
                Some(id) => Some(id.as_str()),
                None => None,
            };
            if let Some(at) = place_of(active, id) {
                return at;
            }
        }
        proof {
            assert(active.len() == active@.len());
            workers::lemma_places(active@, workers::profiled());
            workers::lemma_places(active@, workers::profiled_in_container());
        }
        let forced: bool = match self.forced_seq {
            Some(turn) => turn == seq_no,
            None => false,
        };
        if forced {
            let contained: Vec<usize> = active_profiled_non_external_indices(active);
            if contained.len() > 0 {
                return contained[sampled_member_index(contained.len(), self.total, seq_no)];
            }
        }
        let profiled: Vec<usize> = active_profiled_indices(active);
        profiled[sampled_member_index(profiled.len(), self.total, seq_no)]
    }
}

/// Where the devices have a lane of their own and no number of samples is asked for, each measured
/// device has a turn of its own, both with keys and with messages, and there are turns enough.
pub proof fn law_each_device_has_a_turn(
    active: Seq<WorkerSpec>,
    base: usize,
    state: int,
    i: int,
) -> (turn: int)
    requires
        active.len() < usize::MAX,
        0 <= i < active.len(),
        active[i].profile_enabled,
        workers::external(active[i]),
        base > 0,
    ensures
        0 <= turn,
        update_plan(active, base, true, 0, state).0 matches Some(planned) && turn < planned.total
            && base <= planned.total && !planned.density && forall|at: usize| #[trigger]
            planned.acts_at(active, turn as usize, None, at) ==> active[at as int].id@
                == active[i].id@,
        ({
            let planned = message_plan(active, base, true, 0, state).0;
            turn < planned.total && base <= planned.total && !planned.density && forall|at: usize|
                #[trigger]
                planned.acts_at(active, turn as usize, None, at) ==> active[at as int].id@
                    == active[i].id@
        }),
{
    let devices = workers::places(active, workers::profiled_external());
    let others = workers::places(active, workers::profiled_in_container());
    let measured = workers::places(active, workers::profiled());
    let (required, _) = required_actors(active, true, 0, state);
    workers::lemma_places(active, workers::profiled_external());
    workers::lemma_places(active, workers::profiled());
    workers::lemma_count_of_places(active, workers::profiled_external());
    assert(workers::profiled_external()(active[i]));
    assert(workers::profiled()(active[i]));
    assert(devices.contains(i as usize));
    assert(measured.contains(i as usize));
    let turn = choose|k: int| 0 <= k < devices.len() && devices[k] == i as usize;
    assert(required[turn] == active[i].id@);
    workers::lemma_those(active, workers::profiled_external());
    assert(devices.len() <= active.len());
    assert(required.len() <= active.len() + 1);
    assert(turns_needed(required.len(), 0) == required.len()) by {
        assert(required.len() * 1 == required.len());
    }
    assert(workers::has_id(active, active[i].id@));
    turn
}

/// Without a lane of their own, a measured device acts at the turn that was drawn, both with keys and
/// with messages. Where somebody in a container is measured too, such a one sends the message of the turn
/// after it, the first turn coming after the last, so that the device receives one too. There are as
/// many turns as were asked for; only where both need one and one was asked for there are two messages.
pub proof fn law_drawn_device_has_a_turn(
    active: Seq<WorkerSpec>,
    base: usize,
    min_samples: usize,
    state: int,
    at: usize,
)
    requires
        active.len() <= usize::MAX,
        base > 0,
        exists|i: int|
            0 <= i < active.len() && (#[trigger] active[i]).profile_enabled && workers::external(
                active[i],
            ),
    ensures
        update_plan(active, base, false, min_samples, state).0 matches Some(planned)
            && planned.total == base && planned.external_seq is Some && (planned.acts_at(
            active,
            planned.external_seq->0,
            None,
            at,
        ) ==> is_device(active, active[at as int].id@)),
        ({
            let planned = message_plan(active, base, false, min_samples, state).0;
            let contained = exists|i: int|
                0 <= i < active.len() && (#[trigger] active[i]).profile_enabled
                    && !workers::external(active[i]);
            &&& planned.external_seq is Some
            &&& planned.acts_at(active, planned.external_seq->0, None, at) ==> is_device(
                active,
                active[at as int].id@,
            )
            &&& planned.total == (if contained && base == 1 {
                2
            } else {
                base
            })
            &&& contained ==> {
                let then = ((planned.external_seq->0 + 1) % (planned.total as int)) as usize;
                planned.external_seq->0 < planned.total && planned.acts_at(active, then, None, at)
                    ==> active[at as int].profile_enabled && !workers::external(active[at as int])
            }
        }),
{
    let contained = exists|i: int|
        0 <= i < active.len() && (#[trigger] active[i]).profile_enabled && !workers::external(
            active[i],
        );
    let devices = workers::those(active, workers::profiled_external());
    let measured = workers::places(active, workers::profiled());
    let inside = workers::places(active, workers::profiled_in_container());
    workers::lemma_places(active, workers::profiled());
    workers::lemma_places(active, workers::profiled_in_container());
    workers::lemma_those(active, workers::profiled_external());
    let i = choose|i: int|
        0 <= i < active.len() && (#[trigger] active[i]).profile_enabled && workers::external(
            active[i],
        );
    assert(workers::profiled()(active[i]) && workers::profiled_external()(active[i]));
    assert(measured.contains(i as usize));
    assert(active.contains(active[i]));
    assert(devices.contains(active[i]));
    let first = devices[0];
    assert(devices.contains(first));
    let k = choose|k: int| 0 <= k < active.len() && active[k] == first;
    assert(workers::profiled_external()(active[k]));
    let id = density::first_device(active);
    assert(id == Some(first.id@));
    assert(active[k].id@ == first.id@);
    assert(workers::has_id(active, first.id@));
    assert(is_device(active, first.id@));
    assert(inside.len() > 0 <==> contained) by {
        if contained {
            let c = choose|c: int|
                0 <= c < active.len() && (#[trigger] active[c]).profile_enabled
                    && !workers::external(active[c]);
            assert(workers::profiled_in_container()(active[c]));
            assert(inside.contains(c as usize));
        }
        if inside.len() > 0 {
            let c = inside[0] as int;
            assert(workers::profiled_in_container()(active[c]));
            assert(active[c].profile_enabled && !workers::external(active[c]));
        }
    }
    let planned = message_plan(active, base, false, min_samples, state).0;
    if contained {
        let turn = planned.external_seq->0 as int;
        let total = planned.total as int;
        if 0 <= turn < total {
            let then = (turn + 1) % total;
            assert(then != turn) by {
                if turn + 1 < total {
                    vstd::arithmetic::div_mod::lemma_small_mod((turn + 1) as nat, total as nat);
                } else {
                    vstd::arithmetic::div_mod::lemma_mod_self_0(total);
                }
            }
            sampling::law_sampled_members(inside.len() as int, total, then, then + 1);
            let place = inside[sampling::member_at(inside.len() as int, total, then)];
            assert(workers::profiled_in_container()(active[place as int]));
        }
    }
}

/// A measured member on a device of its own has an id.
pub open spec fn is_device(active: Seq<WorkerSpec>, id: Seq<char>) -> bool {
    exists|i: int|
        0 <= i < active.len() && (#[trigger] active[i]).profile_enabled && workers::external(
            active[i],
        ) && active[i].id@ == id
}

} // verus!
