//! How many members one commit adds or removes: each planner serves the sizes up to its cap in
//! shuffled cycles, the largest first.

use rand::rngs::StdRng;
use std::collections::VecDeque;
use vstd::prelude::*;
use vstd::utf8::encode_utf8;

use crate::draw;
use crate::draw::{seeded, shuffle};
use crate::text;
use crate::text::str_eq;

verus! {

/// The largest number of members that one commit adds or removes.
pub const MAX_RANDOM_MEMBERSHIP_BATCH_SIZE: usize = 8;

/// Keeps the planners of additions apart from those of removals.
pub const ADD_BATCH_SEED_DOMAIN: u64 = 0x4144_4442_4154_4348;

/// Keeps the planners of removals apart from those of additions.
pub const REMOVE_BATCH_SEED_DOMAIN: u64 = 0x524d_5642_4154_4348;

/// Keeps the planners of devices apart from the regular one.
pub const EXTERNAL_BATCH_SEED_DOMAIN: u64 = 0x4558_5442_4154_4348;

/// How many members one commit changes, and why that many.
#[derive(Debug, Clone, Copy, PartialEq, Eq)]
pub struct MembershipBatchDecision {
    pub requested: usize,
    pub effective: usize,
    pub group_cap: usize,
    pub transition_cap: usize,
    pub source: &'static str,
}

/// The largest batch that a group of a given size allows. A commit may add more members than the
/// group has, so the size does not matter.
pub fn membership_batch_group_cap(_current_group_size: usize) -> (cap: usize)
    ensures
        cap == MAX_RANDOM_MEMBERSHIP_BATCH_SIZE,
{
    MAX_RANDOM_MEMBERSHIP_BATCH_SIZE
}

// ---------------------------------------------------------------------------
// Cycles
// ---------------------------------------------------------------------------

/// The sizes from one to `cap`.
pub open spec fn sizes_up_to(cap: usize) -> Seq<usize> {
    Seq::new(cap as nat, |i: int| (i + 1) as usize)
}

/// The place of `value` in `list`.
pub open spec fn place_of(list: Seq<usize>, value: usize) -> int {
    choose|i: int| 0 <= i < list.len() && list[i] == value
}

/// The sizes in the order in which one cycle serves them: shuffled, with the largest moved to the
/// front.
pub open spec fn fresh_cycle(cap: usize, state: int) -> Seq<usize> {
    let order = draw::shuffled(sizes_up_to(cap), state);
    if cap > 1 {
        let at = place_of(order, cap);
        order.update(at, order[0]).update(0, cap)
    } else {
        order
    }
}

/// Each size from one to `cap`, once.
pub open spec fn covers_once(cycle: Seq<usize>, cap: usize) -> bool {
    &&& cycle.len() == cap
    &&& cycle.no_duplicates()
    &&& forall|i: int| 0 <= i < cycle.len() ==> 1 <= #[trigger] cycle[i] <= cap
}

/// A cycle that holds as many sizes as there are, none twice, serves every one of them.
pub proof fn law_cycle_serves_every_size(cycle: Seq<usize>, cap: usize)
    requires
        covers_once(cycle, cap),
    ensures
        forall|size: usize| 1 <= size <= cap ==> #[trigger] cycle.contains(size),
{
    let all = vstd::set_lib::set_int_range(1, cap + 1);
    vstd::set_lib::lemma_int_range(1, cap + 1);
    let served = cycle.map_values(|size: usize| size as int);
    served.unique_seq_to_set();
    assert(served.to_set().subset_of(all)) by {
        assert forall|x: int| served.to_set().contains(x) implies all.contains(x) by {
            let i = choose|i: int| 0 <= i < served.len() && served[i] == x;
            assert(1 <= cycle[i] <= cap);
        }
    }
    vstd::set_lib::lemma_subset_equality(served.to_set(), all);
    assert forall|size: usize| 1 <= size <= cap implies #[trigger] cycle.contains(size) by {
        assert(all.contains(size as int));
        assert(served.to_set().contains(size as int));
        let i = choose|i: int| 0 <= i < served.len() && served[i] == size;
        assert(cycle[i] == size);
    }
}

proof fn lemma_fresh_cycle(cap: usize, state: int)
    requires
        cap > 0,
        draw::is_order_of(draw::shuffled_order(state, cap as int).0, cap as int),
    ensures
        covers_once(fresh_cycle(cap, state), cap),
        fresh_cycle(cap, state)[0] == cap,
        cap > 1 ==> 0 <= place_of(draw::shuffled(sizes_up_to(cap), state), cap) < cap && draw::shuffled(
            sizes_up_to(cap),
            state,
        )[place_of(draw::shuffled(sizes_up_to(cap), state), cap)] == cap,
{
    let sizes = sizes_up_to(cap);
    let order = draw::shuffled(sizes, state);
    draw::lemma_in_order_keeps_items(sizes, draw::shuffled_order(state, cap as int).0);
    assert(sizes[cap - 1] == cap);
    assert(sizes.contains(cap));
    assert(order.contains(cap));
    assert(sizes.no_duplicates());
    let at = place_of(order, cap);
    assert(order[at] == cap);
    let cycle = fresh_cycle(cap, state);
    assert forall|i: int| 0 <= i < cycle.len() implies 1 <= #[trigger] cycle[i] <= cap by {
        let from = if cap > 1 && i == 0 {
            at
        } else if cap > 1 && i == at {
            0
        } else {
            i
        };
        assert(cycle[i] == order[from]);
        assert(order.contains(order[from]));
        assert(sizes.contains(order[from]));
    }
}

// ---------------------------------------------------------------------------
// A planner
// ---------------------------------------------------------------------------

/// A planner: the state of its generator, what is left of its cycle, and the cycle's cap.
pub struct PlanView {
    pub state: int,
    pub cycle: Seq<usize>,
    pub cycle_cap: usize,
}

/// Decides the size of one batch after another.
#[derive(Debug)]
pub struct MembershipBatchPlanner {
    rng: StdRng,
    cycle: VecDeque<usize>,
    cycle_cap: usize,
}

impl View for MembershipBatchPlanner {
    type V = PlanView;

    closed spec fn view(&self) -> PlanView {
        PlanView {
            state: draw::generator_state(self.rng),
            cycle: self.cycle@,
            cycle_cap: self.cycle_cap,
        }
    }
}

/// The largest batch that is feasible.
pub open spec fn feasible(max_allowed: usize) -> usize {
    if max_allowed < MAX_RANDOM_MEMBERSHIP_BATCH_SIZE {
        max_allowed
    } else {
        MAX_RANDOM_MEMBERSHIP_BATCH_SIZE
    }
}

impl PlanView {
    /// What is left of a cycle lies between one and its cap, nothing twice.
    pub open spec fn wf(self) -> bool {
        &&& self.cycle.len() > 0 ==> self.cycle.len() < self.cycle_cap
        &&& self.cycle.no_duplicates()
        &&& forall|i: int|
            0 <= i < self.cycle.len() ==> 1 <= #[trigger] self.cycle[i] <= self.cycle_cap
    }

    /// The cycle that the next batch comes from.
    pub open spec fn turned(self, max_allowed: usize) -> PlanView {
        let cap = feasible(max_allowed);
        if self.cycle.len() == 0 || self.cycle_cap != cap {
            PlanView {
                state: draw::state_after_shuffle(self.state, cap as int),
                cycle: fresh_cycle(cap, self.state),
                cycle_cap: cap,
            }
        } else {
            self
        }
    }

    /// The planner after the next batch.
    pub open spec fn advanced(self, max_allowed: usize) -> PlanView {
        if max_allowed == 0 {
            self
        } else {
            let turned = self.turned(max_allowed);
            PlanView { cycle: turned.cycle.skip(1), ..turned }
        }
    }

    /// The size of the next batch.
    pub open spec fn served(self, max_allowed: usize) -> usize {
        if max_allowed == 0 {
            0
        } else {
            self.turned(max_allowed).cycle[0]
        }
    }

    /// A planner that was just seeded.
    pub open spec fn seeded(seed: u64) -> PlanView {
        PlanView { state: draw::seeded_state(seed), cycle: Seq::empty(), cycle_cap: 0 }
    }
}

/// The sizes that `count` calls in a row serve under one bound.
pub open spec fn served_in_turn(plan: PlanView, max_allowed: usize, count: nat) -> Seq<usize>
    decreases count,
{
    if count == 0 {
        Seq::empty()
    } else {
        seq![plan.served(max_allowed)] + served_in_turn(
            plan.advanced(max_allowed),
            max_allowed,
            (count - 1) as nat,
        )
    }
}

/// The planner after `count` calls in a row under one bound.
pub open spec fn advanced_in_turn(plan: PlanView, max_allowed: usize, count: nat) -> PlanView
    decreases count,
{
    if count == 0 {
        plan
    } else {
        advanced_in_turn(plan.advanced(max_allowed), max_allowed, (count - 1) as nat)
    }
}

/// Under one bound, what is left of a cycle is served from its front to its end, and nothing is
/// drawn meanwhile.
pub proof fn law_rest_is_served(plan: PlanView, max_allowed: usize)
    requires
        max_allowed > 0,
        plan.cycle_cap == feasible(max_allowed),
    ensures
        served_in_turn(plan, max_allowed, plan.cycle.len()) == plan.cycle,
        advanced_in_turn(plan, max_allowed, plan.cycle.len()) == (PlanView {
            cycle: Seq::empty(),
            ..plan
        }),
    decreases plan.cycle.len(),
{
    if plan.cycle.len() > 0 {
        let next = plan.advanced(max_allowed);
        assert(next.cycle == plan.cycle.skip(1));
        law_rest_is_served(next, max_allowed);
        assert(seq![plan.cycle[0]] + plan.cycle.skip(1) =~= plan.cycle);
    } else {
        assert(plan.cycle =~= Seq::empty());
    }
}

/// Once a call has started a cycle, it and the calls after it under the same bound serve each
/// feasible size once, the largest first, and use the cycle up, so that the call after them starts
/// another one. That the cycle holds each size once is what the call that starts it gives. The
/// sizes hang on the planner and the bound alone: planners with the same seed serve the same.
pub proof fn law_cycle_is_served_in_turn(plan: PlanView, max_allowed: usize)
    requires
        max_allowed > 0,
        plan.cycle.len() == 0 || plan.cycle_cap != feasible(max_allowed),
        plan.served(max_allowed) == feasible(max_allowed),
        covers_once(
            seq![plan.served(max_allowed)] + plan.advanced(max_allowed).cycle,
            feasible(max_allowed),
        ),
    ensures
        covers_once(
            served_in_turn(plan, max_allowed, feasible(max_allowed) as nat),
            feasible(max_allowed),
        ),
        served_in_turn(plan, max_allowed, feasible(max_allowed) as nat)[0] == feasible(max_allowed),
        forall|size: usize|
            1 <= size <= feasible(max_allowed) ==> #[trigger] served_in_turn(
                plan,
                max_allowed,
                feasible(max_allowed) as nat,
            ).contains(size),
        advanced_in_turn(plan, max_allowed, feasible(max_allowed) as nat).cycle.len() == 0,
{
    let cap = feasible(max_allowed);
    let next = plan.advanced(max_allowed);
    law_rest_is_served(next, max_allowed);
    law_cycle_serves_every_size(seq![plan.served(max_allowed)] + next.cycle, cap);
}

/// The decision that serves a batch of a given size.
pub open spec fn decides(
    decision: MembershipBatchDecision,
    served: usize,
    max_allowed: usize,
    source: Seq<char>,
) -> bool {
    &&& decision.requested == served
    &&& decision.effective == served
    &&& decision.group_cap == (if max_allowed == 0 {
        0
    } else {
        MAX_RANDOM_MEMBERSHIP_BATCH_SIZE
    })
    &&& decision.transition_cap == max_allowed
    &&& decision.source@ == source
}

impl MembershipBatchPlanner {
    /// A planner with an empty cycle.
    pub fn new(seed: u64) -> (planner: MembershipBatchPlanner)
        ensures
            planner@ == PlanView::seeded(seed),
            planner@.wf(),
    {
        let planner: MembershipBatchPlanner = MembershipBatchPlanner {
            rng: seeded(seed),
            cycle: VecDeque::new(),
            cycle_cap: 0,
        };
        assert(planner@.cycle =~= Seq::<usize>::empty());
        planner
    }

    /// The size of the next batch, at most `max_allowed`. Where the cycle is used up, or was made
    /// for another cap, a new one begins.
    pub fn next_batch(
        &mut self,
        current_group_size: usize,
        max_allowed: usize,
        source: &'static str,
    ) -> (decision: MembershipBatchDecision)
        requires
            old(self)@.wf(),
        ensures
            final(self)@ == old(self)@.advanced(max_allowed),
            decides(decision, old(self)@.served(max_allowed), max_allowed, source@),
            final(self)@.wf(),
            max_allowed > 0 ==> 1 <= decision.effective <= feasible(max_allowed),
            max_allowed > 0 && (old(self)@.cycle.len() == 0 || old(self)@.cycle_cap != feasible(
                max_allowed,
            )) ==> decision.effective == feasible(max_allowed) && covers_once(
                seq![decision.effective] + final(self)@.cycle,
                feasible(max_allowed),
            ),
    {
        if max_allowed == 0 {
            return MembershipBatchDecision {
                requested: 0,
                effective: 0,
                group_cap: 0,
                transition_cap: 0,
                source: source,
            };
        }
        let group_cap: usize = membership_batch_group_cap(current_group_size);
        let feasible_cap: usize = if group_cap < max_allowed {
            group_cap
        } else {
            max_allowed
        };
        let ghost start = self@;
        if self.cycle.len() == 0 || self.cycle_cap != feasible_cap {
            let ghost state = draw::generator_state(self.rng);
            let mut values: Vec<usize> = Vec::new();
            let mut next: usize = 1;
            while next <= feasible_cap
                invariant
                    1 <= next <= feasible_cap + 1,
                    feasible_cap <= MAX_RANDOM_MEMBERSHIP_BATCH_SIZE,
                    values@.len() == next - 1,
                    forall|i: int| 0 <= i < values@.len() ==> values@[i] == i + 1,
                decreases feasible_cap + 1 - next,
            {
                values.push(next);
                next = next + 1;
            }
            assert(values@ =~= sizes_up_to(feasible_cap));
            shuffle(&mut values, &mut self.rng);
            proof {
                lemma_fresh_cycle(feasible_cap, state);
            }
            let ghost order = values@;
            if feasible_cap > 1 {
                let mut max_pos: usize = 0;
                let ghost at = place_of(order, feasible_cap);
                let end: usize = values.len();
                while values[max_pos] != feasible_cap
                    invariant
                        max_pos <= at < end == values@.len(),
                        values@ == order,
                        order[at] == feasible_cap,
                    decreases at - max_pos,
                {
                    max_pos = max_pos + 1;
                }
                proof {
                    draw::lemma_in_order_keeps_items(
                        sizes_up_to(feasible_cap),
                        draw::shuffled_order(state, feasible_cap as int).0,
                    );
                    assert(sizes_up_to(feasible_cap).no_duplicates());
                    assert(max_pos == at);
                }
                let first: usize = values[0];
                values.set(max_pos, first);
                values.set(0, feasible_cap);
            }
            assert(values@ =~= fresh_cycle(feasible_cap, state));
            let mut cycle: VecDeque<usize> = VecDeque::new();
            let mut k: usize = 0;
            while k < values.len()
                invariant
                    k <= values@.len(),
                    cycle@ == values@.take(k as int),
                decreases values@.len() - k,
            {
                cycle.push_back(values[k]);
                k = k + 1;
                assert(cycle@ =~= values@.take(k as int));
            }
            assert(values@.take(k as int) =~= values@);
            self.cycle = cycle;
            self.cycle_cap = feasible_cap;
        }
        let ghost turned = self@;
        assert(turned == start.turned(max_allowed));
        let requested: usize = match self.cycle.pop_front() {
            Some(size) => size,
            None => 1,
        };
        proof {
            assert(self@.cycle =~= turned.cycle.skip(1));
            assert(seq![requested] + self@.cycle =~= turned.cycle);
        }
        MembershipBatchDecision {
            requested: requested,
            effective: requested,
            group_cap: group_cap,
            transition_cap: max_allowed,
            source: source,
        }
    }
}

// ---------------------------------------------------------------------------
// One planner for the containers and one for each device
// ---------------------------------------------------------------------------

/// The 64-bit FNV-1a hash of some bytes.
pub open spec fn fnv1a(bytes: Seq<u8>) -> u64
    decreases bytes.len(),
{
    if bytes.len() == 0 {
        0xcbf2_9ce4_8422_2325
    } else {
        (fnv1a(bytes.drop_last()) ^ (bytes.last() as u64)).wrapping_mul(0x0000_0100_0000_01b3)
    }
}

/// A seed that depends on a text alone.
pub fn stable_string_seed(value: &str) -> (seed: u64)
    ensures
        seed == fnv1a(encode_utf8(value@)),
{
    let bytes: &[u8] = value.as_bytes();
    let mut hash: u64 = 0xcbf2_9ce4_8422_2325;
    let mut i: usize = 0;
    assert(bytes@.take(0) =~= Seq::<u8>::empty());
    while i < bytes.len()
        invariant
            i <= bytes@.len(),
            hash == fnv1a(bytes@.take(i as int)),
        decreases bytes@.len() - i,
    {
        assert(bytes@.take(i + 1).drop_last() =~= bytes@.take(i as int));
        hash = (hash ^ (bytes[i] as u64)).wrapping_mul(0x0000_0100_0000_01b3);
        i = i + 1;
    }
    assert(bytes@.take(i as int) =~= bytes@);
    hash
}

/// The planner that the first entry for `id` holds.
pub open spec fn planner_in(
    entries: Seq<(String, MembershipBatchPlanner)>,
    id: Seq<char>,
) -> Option<PlanView>
    decreases entries.len(),
{
    if entries.len() == 0 {
        None
    } else if entries[0].0@ == id {
        Some(entries[0].1@)
    } else {
        planner_in(entries.drop_first(), id)
    }
}

/// The planners of a run: the regular one and one for each device that acts.
#[derive(Debug)]
pub struct MembershipBatchPlans {
    regular: MembershipBatchPlanner,
    external: Vec<(String, MembershipBatchPlanner)>,
    external_seed: u64,
}

/// The planners of a run.
#[verifier::ext_equal]
pub struct PlansView {
    pub regular: PlanView,
    pub external: Map<Seq<char>, PlanView>,
    pub external_seed: u64,
}

impl View for MembershipBatchPlans {
    type V = PlansView;

    closed spec fn view(&self) -> PlansView {
        PlansView {
            regular: self.regular@,
            external: Map::new(
                |id: Seq<char>| planner_in(self.external@, id) is Some,
                |id: Seq<char>| planner_in(self.external@, id)->0,
            ),
            external_seed: self.external_seed,
        }
    }
}

impl PlansView {
    /// Planners that have decided nothing yet.
    pub open spec fn seeded(seed: u64) -> PlansView {
        PlansView {
            regular: PlanView::seeded(seed),
            external: Map::empty(),
            external_seed: seed ^ EXTERNAL_BATCH_SEED_DOMAIN,
        }
    }

    /// The planner that decides for an actor; a device's first decision comes from a new planner
    /// with a seed of its own.
    pub open spec fn planner(self, actor: Option<Seq<char>>) -> PlanView {
        match actor {
            None => self.regular,
            Some(id) => if self.external.dom().contains(id) {
                self.external[id]
            } else {
                PlanView::seeded(self.external_seed ^ fnv1a(encode_utf8(id)))
            },
        }
    }

    /// The planners after the next batch of an actor.
    pub open spec fn advanced(self, actor: Option<Seq<char>>, max_allowed: usize) -> PlansView {
        let next = self.planner(actor).advanced(max_allowed);
        match actor {
            None => PlansView { regular: next, ..self },
            Some(id) => PlansView { external: self.external.insert(id, next), ..self },
        }
    }
}

/// The decision on the next batch of an actor.
pub open spec fn decided_for(
    plans: PlansView,
    actor: Option<Seq<char>>,
    max_allowed: usize,
    decision: MembershipBatchDecision,
) -> bool {
    decides(
        decision,
        plans.planner(actor).served(max_allowed),
        max_allowed,
        match actor {
            Some(_) => "balanced_seeded_external"@,
            None => "balanced_seeded_regular"@,
        },
    )
}

proof fn lemma_planner_found(
    entries: Seq<(String, MembershipBatchPlanner)>,
    id: Seq<char>,
    at: int,
)
    requires
        0 <= at < entries.len(),
        entries[at].0@ == id,
        forall|i: int| 0 <= i < at ==> (#[trigger] entries[i]).0@ != id,
    ensures
        planner_in(entries, id) == Some(entries[at].1@),
    decreases at,
{
    if at > 0 {
        let rest = entries.drop_first();
        assert forall|i: int| 0 <= i < at - 1 implies (#[trigger] rest[i]).0@ != id by {
            assert(rest[i] == entries[i + 1]);
        }
        lemma_planner_found(rest, id, at - 1);
    }
}

proof fn lemma_planner_absent(entries: Seq<(String, MembershipBatchPlanner)>, id: Seq<char>)
    requires
        forall|i: int| 0 <= i < entries.len() ==> (#[trigger] entries[i]).0@ != id,
    ensures
        planner_in(entries, id) is None,
    decreases entries.len(),
{
    if entries.len() > 0 {
        let rest = entries.drop_first();
        assert forall|i: int| 0 <= i < rest.len() implies (#[trigger] rest[i]).0@ != id by {
            assert(rest[i] == entries[i + 1]);
        }
        lemma_planner_absent(rest, id);
    }
}

proof fn lemma_planner_of_another(
    old_entries: Seq<(String, MembershipBatchPlanner)>,
    new_entries: Seq<(String, MembershipBatchPlanner)>,
    at: int,
    id: Seq<char>,
)
    requires
        0 <= at < new_entries.len(),
        old_entries.len() == new_entries.len() || (old_entries.len() == at && new_entries.len() == at
            + 1),
        forall|i: int|
            0 <= i < old_entries.len() && i != at ==> #[trigger] new_entries[i] == old_entries[i],
        at < old_entries.len() ==> new_entries[at].0@ == old_entries[at].0@,
        new_entries[at].0@ != id,
    ensures
        planner_in(new_entries, id) == planner_in(old_entries, id),
    decreases new_entries.len(),
{
    if at == 0 {
        if old_entries.len() > 0 {
            assert(new_entries.drop_first() =~= old_entries.drop_first());
        } else {
            assert(new_entries.drop_first() =~= old_entries);
        }
    } else {
        assert(new_entries[0] == old_entries[0]);
        let a = old_entries.drop_first();
        let b = new_entries.drop_first();
        assert forall|i: int| 0 <= i < a.len() && i != at - 1 implies #[trigger] b[i] == a[i] by {
            assert(new_entries[i + 1] == old_entries[i + 1]);
        }
        lemma_planner_of_another(a, b, at - 1, id);
    }
}

impl MembershipBatchPlans {
    /// Every planner is well formed.
    pub closed spec fn wf(&self) -> bool {
        &&& self.regular@.wf()
        &&& forall|i: int| 0 <= i < self.external@.len() ==> (#[trigger] self.external@[i]).1@.wf()
    }

    /// The planners of a run, all of them unused.
    pub fn new(seed: u64) -> (plans: MembershipBatchPlans)
        ensures
            plans.wf(),
            plans@ == PlansView::seeded(seed),
    {
        let plans: MembershipBatchPlans = MembershipBatchPlans {
            regular: MembershipBatchPlanner::new(seed),
            external: Vec::new(),
            external_seed: seed ^ EXTERNAL_BATCH_SEED_DOMAIN,
        };
        assert(plans@.external =~= Map::<Seq<char>, PlanView>::empty());
        plans
    }

    /// The size of the next batch of an actor.
    pub fn next_batch(
        &mut self,
        current_group_size: usize,
        max_allowed: usize,
        external_actor_id: Option<&str>,
    ) -> (decision: MembershipBatchDecision)
        requires
            old(self).wf(),
        ensures
            final(self).wf(),
            final(self)@ == old(self)@.advanced(text::named(external_actor_id), max_allowed),
            decided_for(old(self)@, text::named(external_actor_id), max_allowed, decision),
            max_allowed > 0 ==> 1 <= decision.effective <= feasible(max_allowed),
    {
        let ghost before = *self;
        let actor_id: &str = match external_actor_id {
            None => {
                let decision: MembershipBatchDecision = self.regular.next_batch(
                    current_group_size,
                    max_allowed,
                    "balanced_seeded_regular",
                );
                assert(self@.external =~= before@.external);
                return decision;
            },
            Some(id) => id,
        };
        let mut at: usize = 0;
        while at < self.external.len() && !str_eq(self.external[at].0.as_str(), actor_id)
            invariant
                *self == before,
                at <= self.external@.len(),
                forall|i: int| 0 <= i < at ==> (#[trigger] self.external@[i]).0@ != actor_id@,
            decreases self.external@.len() - at,
        {
            at = at + 1;
        }
        if at == self.external.len() {
            let actor_seed: u64 = self.external_seed ^ stable_string_seed(actor_id);
            self.external.push((actor_id.to_owned(), MembershipBatchPlanner::new(actor_seed)));
            proof {
                lemma_planner_absent(before.external@, actor_id@);
            }
        } else {
            proof {
                lemma_planner_found(before.external@, actor_id@, at as int);
            }
        }
        let ghost middle = self.external@;
        assert(middle[at as int].1@ == before@.planner(Some(actor_id@)));
        let decision: MembershipBatchDecision = self.external[at].1.next_batch(
            current_group_size,
            max_allowed,
            "balanced_seeded_external",
        );
        proof {
            let id = actor_id@;
            lemma_planner_found(self.external@, id, at as int);
            assert forall|other: Seq<char>| other != id implies #[trigger] planner_in(
                self.external@,
                other,
            ) == planner_in(before.external@, other) by {
                lemma_planner_of_another(before.external@, self.external@, at as int, other);
            }
            assert(self@.external =~= before@.external.insert(
                id,
                before@.planner(Some(id)).advanced(max_allowed),
            ));
        }
        decision
    }
}

} // verus!
