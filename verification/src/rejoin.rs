//! A member is removed, added again and joins again.

use rand::rngs::StdRng;
use std::collections::VecDeque;
use vstd::prelude::*;

use crate::cycle;
use crate::cycle::{find_worker, Cycled, Recovered, Recovery, RejoinCycle};
use crate::density;
use crate::density::{Restored, RestorePlateau};
use crate::draw;
use crate::draw::draw_below;
use crate::evict;
use crate::failure;
use crate::failure::Failure;
use crate::order;
use crate::order::{sort_texts, str_at_most};
use crate::table;
use crate::table::{Counts, IdSet};
use crate::task;
use crate::task::{split_members, Next, Order, Report, Spread};
use crate::text;
use crate::text::{decimal_text, str_eq};
use crate::transition;
use crate::workers;
use crate::workers::{
    active_profiled_indices, copies_of, ids_of, is_external_device, WorkerSpec,
};

verus! {

// ---------------------------------------------------------------------------
// Choosing the roles
// ---------------------------------------------------------------------------

/// A name counts fewer samples than a limit, where there is one, and is not a given one.
pub open spec fn eligible(
    samples: Map<Seq<char>, usize>,
    limit: Option<usize>,
    besides: Option<Seq<char>>,
    name: Seq<char>,
) -> bool {
    &&& limit is Some ==> table::count_of(samples, name) < limit->0
    &&& besides != Some(name)
}

/// One name comes before another: it has fewer samples, or as many and it is the smaller one.
pub open spec fn named_before(
    samples: Map<Seq<char>, usize>,
    a: Seq<char>,
    b: Seq<char>,
) -> bool {
    let x = table::count_of(samples, a);
    let y = table::count_of(samples, b);
    x < y || (x == y && order::text_at_most(a, b))
}

/// The name with the fewest samples among those that are eligible.
pub open spec fn least_of(
    names: Seq<Seq<char>>,
    samples: Map<Seq<char>, usize>,
    limit: Option<usize>,
    besides: Option<Seq<char>>,
) -> Option<Seq<char>>
    decreases names.len(),
{
    if names.len() == 0 {
        None
    } else {
        let before = least_of(names.drop_last(), samples, limit, besides);
        let name = names.last();
        if !eligible(samples, limit, besides, name) {
            before
        } else {
            match before {
                Some(best) => if named_before(samples, best, name) {
                    before
                } else {
                    Some(name)
                },
                None => Some(name),
            }
        }
    }
}

/// The name that is chosen is eligible and comes before each other one that is; where none is
/// chosen, none is eligible.
pub proof fn law_least_of(
    names: Seq<Seq<char>>,
    samples: Map<Seq<char>, usize>,
    limit: Option<usize>,
    besides: Option<Seq<char>>,
)
    ensures
        match least_of(names, samples, limit, besides) {
            Some(best) => {
                &&& names.contains(best)
                &&& eligible(samples, limit, besides, best)
                &&& forall|name: Seq<char>| #[trigger]
                    names.contains(name) && eligible(samples, limit, besides, name)
                        ==> named_before(samples, best, name)
            },
            None => forall|name: Seq<char>| #[trigger]
                names.contains(name) ==> !eligible(samples, limit, besides, name),
        },
    decreases names.len(),
{
    if names.len() > 0 {
        let front = names.drop_last();
        law_least_of(front, samples, limit, besides);
        let last = names.last();
        assert(names[names.len() - 1] == last);
        let before = least_of(front, samples, limit, besides);
        if before is Some {
            let k = choose|k: int| 0 <= k < front.len() && front[k] == before->0;
            assert(names[k] == before->0);
        }
        order::lemma_text_connected(last, last);
        assert forall|name: Seq<char>| #[trigger]
            names.contains(name) && eligible(samples, limit, besides, name) implies (
        least_of(names, samples, limit, besides) is Some && named_before(
            samples,
            least_of(names, samples, limit, besides)->0,
            name,
        )) by {
            let k = choose|k: int| 0 <= k < names.len() && names[k] == name;
            if k < front.len() {
                assert(front[k] == name);
                assert(front.contains(name));
                let best = before->0;
                order::lemma_text_connected(best, last);
                if eligible(samples, limit, besides, last) && !named_before(samples, best, last)
                    && order::text_at_most(last, best) && order::text_at_most(best, name) {
                    order::lemma_text_chained(last, best, name);
                }
            }
        }
    }
}

fn least_named(
    names: &Vec<String>,
    samples: &Counts,
    limit: Option<usize>,
    besides: Option<&str>,
) -> (chosen: Option<String>)
    ensures
        text::maybe(chosen) == least_of(
            text::texts(names@),
            samples@,
            limit,
            text::named(besides),
        ),
{
    let ghost all = text::texts(names@);
    let mut best: Option<usize> = None;
    let mut i: usize = 0;
    assert(all.take(0) =~= Seq::<Seq<char>>::empty());
    while i < names.len()
        invariant
            i <= names@.len(),
            all == text::texts(names@),
            match best {
                Some(b) => b < i && least_of(
                    all.take(i as int),
                    samples@,
                    limit,
                    text::named(besides),
                ) == Some(all[b as int]),
                None => least_of(all.take(i as int), samples@, limit, text::named(besides)) is None,
            },
        decreases names@.len() - i,
    {
        assert(all.take(i + 1).drop_last() =~= all.take(i as int));
        assert(all.take(i + 1).last() == names@[i as int]@);
        let count: usize = samples.count(names[i].as_str());
        let below: bool = match limit {
            Some(limit) => count < limit,
            None => true,
        };
        let other: bool = match besides {
            Some(name) => !str_eq(name, names[i].as_str()),
            None => true,
        };
        if below && other {
            match best {
                Some(b) => {
                    let least: usize = samples.count(names[b].as_str());
                    let first: bool = least < count || (least == count && str_at_most(
                        names[b].as_str(),
                        names[i].as_str(),
                    ));
                    if !first {
                        best = Some(i);
                    }
                },
                None => {
                    best = Some(i);
                },
            }
        }
        i = i + 1;
    }
    assert(all.take(i as int) =~= all);
    match best {
        Some(b) => Some(names[b].clone()),
        None => None,
    }
}

/// A member without a device, other than two given ones.
pub open spec fn spare(actor: Seq<char>, receiver: Seq<char>) -> spec_fn(WorkerSpec) -> bool {
    |w: WorkerSpec| !workers::external(w) && w.id@ != actor && w.id@ != receiver
}

/// One member is rather given up than another: one that is not measured first, then the one with
/// the smaller id.
pub open spec fn given_up_before(a: WorkerSpec, b: WorkerSpec) -> bool {
    if a.profile_enabled == b.profile_enabled {
        order::text_at_most(a.id@, b.id@)
    } else {
        b.profile_enabled
    }
}

/// The member that is given up among those without a device.
pub open spec fn spare_member(
    active: Seq<WorkerSpec>,
    actor: Seq<char>,
    receiver: Seq<char>,
) -> Option<WorkerSpec>
    decreases active.len(),
{
    if active.len() == 0 {
        None
    } else {
        let before = spare_member(active.drop_last(), actor, receiver);
        let last = active.last();
        if !spare(actor, receiver)(last) {
            before
        } else {
            match before {
                Some(best) => if given_up_before(best, last) {
                    before
                } else {
                    Some(last)
                },
                None => Some(last),
            }
        }
    }
}

proof fn lemma_spare_member(active: Seq<WorkerSpec>, actor: Seq<char>, receiver: Seq<char>)
    ensures
        spare_member(active, actor, receiver) is Some ==> active.contains(
            spare_member(active, actor, receiver)->0,
        ) && spare(actor, receiver)(spare_member(active, actor, receiver)->0),
    decreases active.len(),
{
    if active.len() > 0 {
        let front = active.drop_last();
        lemma_spare_member(front, actor, receiver);
        assert(active[active.len() - 1] == active.last());
        if let Some(w) = spare_member(front, actor, receiver) {
            let k = choose|k: int| 0 <= k < front.len() && front[k] == w;
            assert(active[k] == w);
        }
    }
}

fn find_spare_member(active: &[WorkerSpec], actor: &str, receiver: &str) -> (found: Option<String>)
    ensures
        text::maybe(found) == (match spare_member(active@, actor@, receiver@) {
            Some(w) => Some(w.id@),
            None => None,
        }),
{
    let mut best: Option<usize> = None;
    let mut i: usize = 0;
    assert(active@.take(0) =~= Seq::<WorkerSpec>::empty());
    while i < active.len()
        invariant
            i <= active@.len(),
            match best {
                Some(b) => b < i && spare_member(active@.take(i as int), actor@, receiver@)
                    == Some(active@[b as int]),
                None => spare_member(active@.take(i as int), actor@, receiver@) is None,
            },
        decreases active@.len() - i,
    {
        assert(active@.take(i + 1).drop_last() =~= active@.take(i as int));
        assert(active@.take(i + 1).last() == active@[i as int]);
        if !is_external_device(&active[i]) && !str_eq(active[i].id.as_str(), actor) && !str_eq(
            active[i].id.as_str(),
            receiver,
        ) {
            match best {
                Some(b) => {
                    let first: bool = if active[b].profile_enabled == active[i].profile_enabled {
                        str_at_most(active[b].id.as_str(), active[i].id.as_str())
                    } else {
                        active[i].profile_enabled
                    };
                    if !first {
                        best = Some(i);
                    }
                },
                None => {
                    best = Some(i);
                },
            }
        }
        i = i + 1;
    }
    assert(active@.take(i as int) =~= active@);
    match best {
        Some(b) => Some(active[b].id.clone()),
        None => None,
    }
}

/// The text on a missing member without a device.
pub open spec fn no_spare(plateau_size: nat) -> Seq<char> {
    "remove/rejoin receiver density at plateau "@ + text::decimal(plateau_size)
        + " needs a non-external victim after external attrition"@
}

/// At least two of some names are different.
pub open spec fn different(names: Seq<Seq<char>>) -> bool {
    exists|i: int, j: int|
        0 <= i < names.len() && 0 <= j < names.len() && #[trigger] names[i] != #[trigger] names[j]
}

/// The roles of a cycle that is only there for a device to receive its commits: the actor, the one
/// that is removed, and the receiver. Nothing where all devices have received enough.
pub open spec fn supplemental_roles(
    active: Seq<WorkerSpec>,
    names: Seq<Seq<char>>,
    actors: Map<Seq<char>, usize>,
    receivers: Map<Seq<char>, usize>,
    required: usize,
    plateau_size: usize,
) -> Result<Option<(Seq<char>, Seq<char>, Seq<char>)>, Seq<char>> {
    match least_of(names, receivers, Some(required), None) {
        None => Ok(None),
        Some(receiver) => {
            let actor = least_of(names, actors, None, Some(receiver))->0;
            match spare_member(active, actor, receiver) {
                Some(victim) => Ok(Some((actor, victim.id@, receiver))),
                None => Err(no_spare(plateau_size as nat)),
            }
        },
    }
}

/// Three names that may be missing, or a text.
pub open spec fn roles_view(result: Result<Option<(String, String, String)>, String>) -> Result<
    Option<(Seq<char>, Seq<char>, Seq<char>)>,
    Seq<char>,
> {
    match result {
        Ok(Some((a, b, c))) => Ok(Some((a@, b@, c@))),
        Ok(None) => Ok(None),
        Err(text) => Err(text@),
    }
}

/// The roles of a cycle that is only there for a device to receive its commits: the actor, the one
/// that is removed, and the receiver.
pub fn select_supplemental_remove_receiver_roles(
    active: &[WorkerSpec],
    external_ids: &Vec<String>,
    actor_counts: &Counts,
    receiver_counts: &Counts,
    required: usize,
    plateau_size: usize,
) -> (result: Result<Option<(String, String, String)>, String>)
    requires
        different(text::texts(external_ids@)),
    ensures
        roles_view(result) == supplemental_roles(
            active@,
            text::texts(external_ids@),
            actor_counts@,
            receiver_counts@,
            required,
            plateau_size,
        ),
{
    let ghost names = text::texts(external_ids@);
    let receiver_id: String = match least_named(
        external_ids,
        receiver_counts,
        Some(required),
        None,
    ) {
        Some(id) => id,
        None => {
            return Ok(None);
        },
    };
    proof {
        law_least_of(names, receiver_counts@, Some(required), None);
        law_least_of(names, actor_counts@, None, Some(receiver_id@));
        assert(names.contains(receiver_id@));
        let (i, j) = choose|i: int, j: int|
            0 <= i < names.len() && 0 <= j < names.len() && #[trigger] names[i]
                != #[trigger] names[j];
        let other = if names[i] != receiver_id@ { names[i] } else { names[j] };
        assert(names.contains(other));
        assert(eligible(actor_counts@, None, Some(receiver_id@), other));
    }
    let actor_id: String = match least_named(
        external_ids,
        actor_counts,
        None,
        Some(receiver_id.as_str()),
    ) {
        Some(id) => id,
        None => {
            return Ok(None);
        },
    };
    match find_spare_member(active, actor_id.as_str(), receiver_id.as_str()) {
        Some(victim_id) => Ok(Some((actor_id, victim_id, receiver_id))),
        None => {
            let mut why: String = "remove/rejoin receiver density at plateau ".to_owned();
            why.append(decimal_text(plateau_size as u128).as_str());
            why.append(" needs a non-external victim after external attrition");
            Err(why)
        },
    }
}

// ---------------------------------------------------------------------------
// The next cycle
// ---------------------------------------------------------------------------

/// What the devices do next.
#[derive(Debug)]
pub enum RejoinTurn {
    /// One removes another, which joins again.
    Cycle { actor_id: String, victim_id: String },
    /// All devices have enough samples, or fewer than two are left.
    Enough,
    /// There is no cycle that would help.
    Stuck(String),
}

/// What the devices do next.
pub enum TurnView {
    Cycle { actor: Seq<char>, victim: Seq<char> },
    Enough,
    Stuck(Seq<char>),
}

impl View for RejoinTurn {
    type V = TurnView;

    open spec fn view(&self) -> TurnView {
        match self {
            RejoinTurn::Cycle { actor_id, victim_id } => TurnView::Cycle {
                actor: actor_id@,
                victim: victim_id@,
            },
            RejoinTurn::Enough => TurnView::Enough,
            RejoinTurn::Stuck(why) => TurnView::Stuck(why@),
        }
    }
}

/// The text where all devices have the same id, and one of them should remove another.
pub open spec fn nobody_to_remove() -> TurnView {
    TurnView::Stuck("two active external devices always provide a victim"@)
}

/// The text where all devices have the same id, and another one should act.
pub open spec fn nobody_to_act() -> TurnView {
    TurnView::Stuck("at least two external devices are active"@)
}

/// A device that removed too few others acts; the device that joined again least often is removed.
/// Once all have removed enough, those that joined too seldom are removed; once all have joined
/// enough, those that received too few commits receive more.
pub open spec fn rejoin_turn(
    active: Seq<WorkerSpec>,
    names: Seq<Seq<char>>,
    welcomes: Map<Seq<char>, usize>,
    actors: Map<Seq<char>, usize>,
    receivers: Map<Seq<char>, usize>,
    required: usize,
    plateau_size: usize,
) -> TurnView {
    if names.len() < 2 {
        TurnView::Enough
    } else {
        match least_of(names, actors, Some(required), None) {
            Some(actor) => match transition::either(
                least_of(names, welcomes, Some(required), Some(actor)),
                least_of(names, welcomes, None, Some(actor)),
            ) {
                Some(victim) => TurnView::Cycle { actor, victim },
                None => nobody_to_remove(),
            },
            None => match least_of(names, welcomes, Some(required), None) {
                Some(victim) => match least_of(names, actors, None, Some(victim)) {
                    Some(actor) => TurnView::Cycle { actor, victim },
                    None => nobody_to_act(),
                },
                None => match least_of(names, receivers, Some(required), None) {
                    Some(receiver) => match least_of(names, actors, None, Some(receiver)) {
                        Some(_) => match supplemental_roles(
                            active,
                            names,
                            actors,
                            receivers,
                            required,
                            plateau_size,
                        ) {
                            Ok(Some((actor, victim, _))) => TurnView::Cycle { actor, victim },
                            Ok(None) => TurnView::Enough,
                            Err(why) => TurnView::Stuck(why),
                        },
                        None => nobody_to_act(),
                    },
                    None => TurnView::Enough,
                },
            },
        }
    }
}

fn take_rejoin_turn(
    active: &[WorkerSpec],
    names: &Vec<String>,
    welcomes: &Counts,
    actors: &Counts,
    receivers: &Counts,
    required: usize,
    plateau_size: usize,
) -> (turn: RejoinTurn)
    ensures
        turn@ == rejoin_turn(
            active@,
            text::texts(names@),
            welcomes@,
            actors@,
            receivers@,
            required,
            plateau_size,
        ),
{
    let ghost all = text::texts(names@);
    if names.len() < 2 {
        return RejoinTurn::Enough;
    }
    if let Some(actor_id) = least_named(names, actors, Some(required), None) {
        let victim: Option<String> = match least_named(
            names,
            welcomes,
            Some(required),
            Some(actor_id.as_str()),
        ) {
            Some(id) => Some(id),
            None => least_named(names, welcomes, None, Some(actor_id.as_str())),
        };
        return match victim {
            Some(victim_id) => RejoinTurn::Cycle { actor_id: actor_id, victim_id: victim_id },
            None => RejoinTurn::Stuck(
                "two active external devices always provide a victim".to_owned(),
            ),
        };
    }
    if let Some(victim_id) = least_named(names, welcomes, Some(required), None) {
        return match least_named(names, actors, None, Some(victim_id.as_str())) {
            Some(actor_id) => RejoinTurn::Cycle { actor_id: actor_id, victim_id: victim_id },
            None => RejoinTurn::Stuck("at least two external devices are active".to_owned()),
        };
    }
    let receiver_id: String = match least_named(names, receivers, Some(required), None) {
        Some(id) => id,
        None => {
            return RejoinTurn::Enough;
        },
    };
    match least_named(names, actors, None, Some(receiver_id.as_str())) {
        Some(other_id) => {
            proof {
                law_least_of(all, actors@, None, Some(receiver_id@));
                law_least_of(all, receivers@, Some(required), None);
                assert(all.contains(receiver_id@));
                assert(all.contains(other_id@));
                let i = choose|i: int| 0 <= i < all.len() && all[i] == receiver_id@;
                let j = choose|j: int| 0 <= j < all.len() && all[j] == other_id@;
                assert(all[i] != all[j]);
            }
            match select_supplemental_remove_receiver_roles(
                active,
                names,
                actors,
                receivers,
                required,
                plateau_size,
            ) {
                Ok(Some((actor_id, victim_id, _))) => RejoinTurn::Cycle {
                    actor_id: actor_id,
                    victim_id: victim_id,
                },
                Ok(None) => RejoinTurn::Enough,
                Err(why) => RejoinTurn::Stuck(why),
            }
        },
        None => RejoinTurn::Stuck("at least two external devices are active".to_owned()),
    }
}

proof fn lemma_device_named(active: Seq<WorkerSpec>, name: Seq<char>)
    requires
        density::device_names(active).contains(name),
    ensures
        workers::has_id(active, name),
{
    let devices = workers::those(active, workers::profiled_external());
    let given = workers::ids(devices);
    order::lemma_text_order_is_total();
    given.lemma_sort_by_ensures(order::text_order());
    let sorted = order::ascending(given);
    sorted.to_multiset_ensures();
    given.to_multiset_ensures();
    assert(given.to_multiset().count(name) > 0);
    assert(given.contains(name));
    let k = choose|k: int| 0 <= k < given.len() && given[k] == name;
    workers::lemma_those(active, workers::profiled_external());
    assert(devices.contains(devices[k]));
    let at = choose|at: int| 0 <= at < active.len() && active[at] == devices[k];
    assert(active[at].id@ == name);
}

proof fn lemma_worker_named(list: Seq<WorkerSpec>, id: Seq<char>)
    ensures
        cycle::worker_named(list, id) is Some <==> workers::has_id(list, id),
        cycle::worker_named(list, id) is Some ==> list.contains(cycle::worker_named(list, id)->0)
            && cycle::worker_named(list, id)->0.id@ == id,
    decreases list.len(),
{
    if list.len() > 0 {
        let rest = list.drop_first();
        lemma_worker_named(rest, id);
        assert(list.contains(list[0]));
        if workers::has_id(list, id) && list[0].id@ != id {
            let k = choose|k: int| 0 <= k < list.len() && (#[trigger] list[k]).id@ == id;
            assert(rest[k - 1].id@ == id);
        }
        if workers::has_id(rest, id) {
            let k = choose|k: int| 0 <= k < rest.len() && (#[trigger] rest[k]).id@ == id;
            assert(list[k + 1].id@ == id);
        }
        if let Some(w) = cycle::worker_named(rest, id) {
            let k = choose|k: int| 0 <= k < rest.len() && rest[k] == w;
            assert(list[k + 1] == w);
        }
    }
}

/// The roles are those of members, and they are different.
proof fn lemma_turn_is_of_members(
    active: Seq<WorkerSpec>,
    welcomes: Map<Seq<char>, usize>,
    actors: Map<Seq<char>, usize>,
    receivers: Map<Seq<char>, usize>,
    required: usize,
    plateau_size: usize,
)
    ensures
        rejoin_turn(
            active,
            density::device_names(active),
            welcomes,
            actors,
            receivers,
            required,
            plateau_size,
        ) matches TurnView::Cycle { actor, victim } ==> {
            &&& workers::has_id(active, actor)
            &&& workers::has_id(active, victim)
            &&& actor != victim
        },
{
    let names = density::device_names(active);
    match rejoin_turn(active, names, welcomes, actors, receivers, required, plateau_size) {
        TurnView::Cycle { actor, victim } => {
            law_least_of(names, actors, Some(required), None);
            law_least_of(names, welcomes, Some(required), None);
            law_least_of(names, welcomes, Some(required), Some(actor));
            law_least_of(names, welcomes, None, Some(actor));
            law_least_of(names, actors, None, Some(victim));
            law_least_of(names, receivers, Some(required), None);
            if least_of(names, actors, Some(required), None) is None && least_of(
                names,
                welcomes,
                Some(required),
                None,
            ) is None {
                let receiver = least_of(names, receivers, Some(required), None)->0;
                law_least_of(names, actors, None, Some(receiver));
                lemma_spare_member(active, actor, receiver);
                let w = spare_member(active, actor, receiver)->0;
                let k = choose|k: int| 0 <= k < active.len() && active[k] == w;
                assert(active[k].id@ == victim);
            } else {
                assert(names.contains(victim));
                lemma_device_named(active, victim);
            }
            assert(names.contains(actor));
            lemma_device_named(active, actor);
        },
        _ => {},
    }
}

/// One more for each name of a list.
pub open spec fn all_one_more(counts: Map<Seq<char>, usize>, names: Seq<Seq<char>>) -> Map<
    Seq<char>,
    usize,
>
    decreases names.len(),
{
    if names.len() == 0 {
        counts
    } else {
        table::one_more(all_one_more(counts, names.drop_last()), names.last())
    }
}

fn count_all(counts: &mut Counts, names: &Vec<String>)
    ensures
        final(counts)@ == all_one_more(old(counts)@, text::texts(names@)),
{
    let ghost all = text::texts(names@);
    let mut i: usize = 0;
    assert(all.take(0) =~= Seq::<Seq<char>>::empty());
    while i < names.len()
        invariant
            i <= names@.len(),
            all == text::texts(names@),
            counts@ == all_one_more(old(counts)@, all.take(i as int)),
        decreases names@.len() - i,
    {
        assert(all.take(i + 1).drop_last() =~= all.take(i as int));
        assert(all.take(i + 1).last() == names@[i as int]@);
        counts.count_one(names[i].as_str());
        i = i + 1;
    }
    assert(all.take(i as int) =~= all);
}

// ---------------------------------------------------------------------------
// The phase
// ---------------------------------------------------------------------------

/// How far the phase is.
#[derive(Debug)]
pub enum RejoinStage {
    /// A cycle is under way; the devices named only receive its commits.
    Cycling { cycle: RejoinCycle, receivers: Vec<String> },
    /// A cycle failed, and the run recovers from it.
    Recovering { recovery: Recovery, error: Failure },
    /// The size of the plateau is restored.
    Restoring(RestorePlateau),
    /// Nothing is left to do.
    Over,
}

/// The phase in which members are removed and join again: by turns, until each measured device has
/// enough samples, or just once.
#[derive(Debug)]
pub struct RejoinPhase {
    pub active: Vec<WorkerSpec>,
    pub idle: VecDeque<WorkerSpec>,
    pub spread: Spread,
    pub plateau_size: usize,
    pub plateau_index: usize,
    /// Whether the devices take turns.
    pub by_turns: bool,
    pub required: usize,
    /// How often each device joined again.
    pub welcomes: Counts,
    /// How often each device removed another.
    pub actors: Counts,
    /// How often each device received the commits of others.
    pub receivers: Counts,
    pub stage: RejoinStage,
}

/// What the phase leads to.
pub type Rejoined = Next<Result<(), Failure>>;

/// The places of a list without one of them.
pub open spec fn without_place(places: Seq<usize>, at: usize) -> Seq<usize>
    decreases places.len(),
{
    if places.len() == 0 {
        Seq::empty()
    } else if places.last() == at {
        without_place(places.drop_last(), at)
    } else {
        without_place(places.drop_last(), at).push(places.last())
    }
}

/// All places but one are left.
pub proof fn lemma_without_place(places: Seq<usize>, at: usize)
    requires
        places.no_duplicates(),
    ensures
        without_place(places, at).len() >= places.len() - 1,
        !places.contains(at) ==> without_place(places, at).len() == places.len(),
        forall|k: int|
            0 <= k < without_place(places, at).len() ==> places.contains(
                #[trigger] without_place(places, at)[k],
            ) && without_place(places, at)[k] != at,
    decreases places.len(),
{
    if places.len() > 0 {
        let front = places.drop_last();
        lemma_without_place(front, at);
        let rest = without_place(front, at);
        let out = without_place(places, at);
        assert(places[places.len() - 1] == places.last());
        if places.last() == at {
            if front.contains(at) {
                let k = choose|k: int| 0 <= k < front.len() && front[k] == at;
                assert(places[k] == places[places.len() - 1]);
            }
        }
        if front.contains(at) {
            let k = choose|k: int| 0 <= k < front.len() && front[k] == at;
            assert(places[k] == at);
        }
        assert forall|k: int| 0 <= k < out.len() implies places.contains(#[trigger] out[k])
            && out[k] != at by {
            if k < rest.len() {
                assert(rest[k] == out[k]);
                assert(front.contains(rest[k]));
                let j = choose|j: int| 0 <= j < front.len() && front[j] == rest[k];
                assert(places[j] == out[k]);
            }
        }
    }
}

pub(crate) fn drop_place(places: &Vec<usize>, at: usize) -> (out: Vec<usize>)
    ensures
        out@ == without_place(places@, at),
{
    let mut out: Vec<usize> = Vec::new();
    let mut i: usize = 0;
    assert(places@.take(0) =~= Seq::<usize>::empty());
    while i < places.len()
        invariant
            i <= places@.len(),
            out@ == without_place(places@.take(i as int), at),
        decreases places@.len() - i,
    {
        assert(places@.take(i + 1).drop_last() =~= places@.take(i as int));
        if places[i] != at {
            out.push(places[i]);
        }
        i = i + 1;
    }
    assert(places@.take(i as int) =~= places@);
    out
}

impl RejoinPhase {
    /// An operation that is under way is consistent.
    pub open spec fn wf(self) -> bool {
        match self.stage {
            RejoinStage::Cycling { cycle, receivers: _ } => cycle.wf() && self.set_up(
                cycle.spread,
                cycle.plateau_size,
                cycle.plateau_index,
            ),
            RejoinStage::Recovering { recovery, error: _ } => recovery.wf(),
            RejoinStage::Restoring(restore) => restore.wf(),
            RejoinStage::Over => true,
        }
    }

    /// How the phase is set up.
    pub open spec fn set_up(
        self,
        spread: Spread,
        plateau_size: usize,
        plateau_index: usize,
    ) -> bool {
        &&& self.spread == spread
        &&& self.plateau_size == plateau_size
        &&& self.plateau_index == plateau_index
    }

    /// The report is one that the stage waits for.
    pub open spec fn waits_for(self, report: Report) -> bool {
        match self.stage {
            RejoinStage::Cycling { cycle, receivers: _ } => cycle.waits_for(report),
            RejoinStage::Recovering { recovery, error: _ } => recovery.waits_for(report),
            RejoinStage::Restoring(restore) => restore.waits_for(report),
            RejoinStage::Over => false,
        }
    }

    /// What does not change.
    pub open spec fn same_task(self, other: RejoinPhase) -> bool {
        &&& self.set_up(other.spread, other.plateau_size, other.plateau_index)
        &&& self.by_turns == other.by_turns
        &&& self.required == other.required
    }

    /// The samples stay.
    pub open spec fn same_samples(self, other: RejoinPhase) -> bool {
        &&& self.welcomes@ == other.welcomes@
        &&& self.actors@ == other.actors@
        &&& self.receivers@ == other.receivers@
    }

    /// The phase is over, with these members and idle workers.
    pub open spec fn ends(self, active: Seq<WorkerSpec>, idle: Seq<WorkerSpec>) -> bool {
        &&& self.active@ == active
        &&& self.idle@ == idle
        &&& self.stage is Over
    }

    /// The phase failed.
    pub open spec fn fails(
        self,
        active: Seq<WorkerSpec>,
        idle: Seq<WorkerSpec>,
        error: failure::FailureView,
        next: Rejoined,
    ) -> bool {
        &&& self.ends(active, idle)
        &&& evict::failed(next, error)
    }

    /// A cycle begins.
    pub open spec fn cycles(
        self,
        active: Seq<WorkerSpec>,
        idle: Seq<WorkerSpec>,
        victim: WorkerSpec,
        actor: WorkerSpec,
        receivers: Seq<Seq<char>>,
        after: RejoinPhase,
        next: Rejoined,
    ) -> bool {
        &&& after.stage matches RejoinStage::Cycling { cycle, receivers: held }
        &&& text::texts(held@) == receivers
        &&& next is Do
        &&& cycle.started(
            active,
            idle,
            self.spread,
            self.plateau_size,
            self.plateau_index,
            victim,
            actor,
            next->Do_0,
        )
    }

    /// The devices take their next turn.
    pub open spec fn chooses(
        self,
        active: Seq<WorkerSpec>,
        idle: Seq<WorkerSpec>,
        welcomes: Map<Seq<char>, usize>,
        actors: Map<Seq<char>, usize>,
        receivers: Map<Seq<char>, usize>,
        after: RejoinPhase,
        next: Rejoined,
    ) -> bool {
        let names = density::device_names(active);
        &&& after.welcomes@ == welcomes
        &&& after.actors@ == actors
        &&& after.receivers@ == receivers
        &&& match rejoin_turn(
            active,
            names,
            welcomes,
            actors,
            receivers,
            self.required,
            self.plateau_size,
        ) {
            TurnView::Enough => after.ends(active, idle) && evict::succeeded(next),
            TurnView::Stuck(why) => after.fails(active, idle, failure::plain(why), next),
            TurnView::Cycle { actor, victim } => self.cycles(
                active,
                idle,
                cycle::worker_named(active, victim)->0,
                cycle::worker_named(active, actor)->0,
                task::members_in(names, set![actor].insert(victim), false),
                after,
                next,
            ),
        }
    }

    /// What follows a step of a cycle.
    pub open spec fn after_cycle(
        self,
        then: RejoinCycle,
        receivers: Seq<Seq<char>>,
        step: Cycled,
        after: RejoinPhase,
        next: Rejoined,
    ) -> bool {
        match step {
            Next::Do(_) => {
                &&& after.stage matches RejoinStage::Cycling { cycle, receivers: held }
                &&& cycle == then
                &&& text::texts(held@) == receivers
                &&& next == step
                &&& after.same_samples(self)
            },
            Next::Done(Ok(_)) => if self.by_turns {
                self.chooses(
                    then.active@,
                    then.idle@,
                    if workers::external(then.victim) {
                        table::one_more(self.welcomes@, then.victim.id@)
                    } else {
                        self.welcomes@
                    },
                    table::one_more(self.actors@, then.actor.id@),
                    all_one_more(self.receivers@, receivers),
                    after,
                    next,
                )
            } else {
                &&& after.ends(then.active@, then.idle@)
                &&& evict::succeeded(next)
                &&& after.same_samples(self)
            },
            Next::Done(Err(error)) => exists|begun: Recovery, first: Recovered|
                {
                    &&& #[trigger] begun.started(
                        then.active@,
                        then.idle@,
                        self.spread,
                        self.plateau_size,
                        self.plateau_index,
                        then.victim,
                        then.actor,
                        error@,
                        first,
                    )
                    &&& after.same_samples(self)
                    &&& match first {
                        Next::Do(order) => {
                            &&& after.stage matches RejoinStage::Recovering {
                                recovery,
                                error: held,
                            }
                            &&& recovery == begun
                            &&& held@ == error@
                            &&& next == Next::<Result<(), Failure>>::Do(order)
                        },
                        Next::Done(_) => after.fails(then.active@, then.idle@, error@, next),
                    }
                },
        }
    }

    /// What follows a step of a restoration.
    pub open spec fn after_restore(
        self,
        restore: RestorePlateau,
        step: Restored,
        after: RejoinPhase,
        next: Rejoined,
    ) -> bool {
        match step {
            Next::Do(_) => {
                &&& after.stage == RejoinStage::Restoring(restore)
                &&& next == step
                &&& after.same_samples(self)
            },
            Next::Done(Ok(_)) => self.chooses(
                restore.active@,
                restore.idle@,
                self.welcomes@,
                self.actors@,
                self.receivers@,
                after,
                next,
            ),
            Next::Done(Err(error)) => {
                &&& after.fails(restore.active@, restore.idle@, error@, next)
                &&& after.same_samples(self)
            },
        }
    }

    /// What follows a step of a recovery.
    pub open spec fn after_recovery(
        self,
        recovery: Recovery,
        error: failure::FailureView,
        step: Recovered,
        state: int,
        after: RejoinPhase,
        next: Rejoined,
        state_after: int,
    ) -> bool {
        match step {
            Next::Do(order) => {
                &&& after.stage matches RejoinStage::Recovering { recovery: held, error: kept }
                &&& held == recovery
                &&& kept@ == error
                &&& next == Next::<Result<(), Failure>>::Do(order)
                &&& after.same_samples(self)
                &&& state_after == state
            },
            Next::Done(Err(worse)) => {
                &&& after.fails(recovery.active@, recovery.idle@, worse@, next)
                &&& after.same_samples(self)
                &&& state_after == state
            },
            Next::Done(Ok(goes_on)) => if !goes_on {
                &&& after.fails(recovery.active@, recovery.idle@, error, next)
                &&& after.same_samples(self)
                &&& state_after == state
            } else if self.by_turns {
                exists|begun: RestorePlateau, first: Restored| #[trigger]
                    begun.started(
                        recovery.active@,
                        recovery.idle@,
                        self.spread,
                        self.plateau_size,
                        self.plateau_index,
                        state,
                        first,
                        state_after,
                    ) && self.after_restore(begun, first, after, next)
            } else {
                &&& after.ends(recovery.active@, recovery.idle@)
                &&& evict::succeeded(next)
                &&& after.same_samples(self)
                &&& state_after == state
            },
        }
    }

    /// How far the phase is after a report, and what is done then.
    pub open spec fn next(
        self,
        report: Report,
        state: int,
        after: RejoinPhase,
        next: Rejoined,
        state_after: int,
    ) -> bool {
        &&& after.same_task(self)
        &&& match self.stage {
            RejoinStage::Cycling { cycle, receivers } => state_after == state && exists|
                then: RejoinCycle,
                step: Cycled,
            | #[trigger]
                cycle.next(report, then, step) && self.after_cycle(
                    then,
                    text::texts(receivers@),
                    step,
                    after,
                    next,
                ),
            RejoinStage::Recovering { recovery, error } => exists|
                then: Recovery,
                step: Recovered,
            | #[trigger]
                recovery.next(report, then, step) && self.after_recovery(
                    then,
                    error@,
                    step,
                    state,
                    after,
                    next,
                    state_after,
                ),
            RejoinStage::Restoring(restore) => exists|
                then: RestorePlateau,
                step: Restored,
            | #[trigger]
                restore.next(report, state, then, step, state_after) && self.after_restore(
                    then,
                    step,
                    after,
                    next,
                ),
            RejoinStage::Over => true,
        }
    }

    /// The phase as it begins. It needs two measured members. Devices take turns where there are two
    /// of them; otherwise one measured member that is drawn removes another.
    pub open spec fn started(
        self,
        active: Seq<WorkerSpec>,
        idle: Seq<WorkerSpec>,
        spread: Spread,
        lane: bool,
        min_samples: usize,
        plateau_size: usize,
        plateau_index: usize,
        state: int,
        next: Rejoined,
        state_after: int,
    ) -> bool {
        let places = workers::places(active, workers::profiled());
        &&& self.wf()
        &&& self.set_up(spread, plateau_size, plateau_index)
        &&& self.required == (if min_samples > 1 {
            min_samples
        } else {
            1
        })
        &&& self.by_turns == (lane && density::device_names(active).len() >= 2)
        &&& if places.len() < 2 {
            &&& self.ends(active, idle)
            &&& evict::succeeded(next)
            &&& state_after == state
        } else if self.by_turns {
            &&& self.chooses(
                active,
                idle,
                Map::empty(),
                Map::empty(),
                Map::empty(),
                self,
                next,
            )
            &&& state_after == state
        } else {
            let victim = places[draw::draw_at(state, 0, places.len() - 1)];
            let state1 = draw::state_after_draw(state, 0, places.len() - 1);
            let others = without_place(places, victim);
            let actor = others[draw::draw_at(state1, 0, others.len() - 1)];
            &&& self.cycles(
                active,
                idle,
                active[victim as int],
                active[actor as int],
                Seq::empty(),
                self,
                next,
            )
            &&& state_after == draw::state_after_draw(state1, 0, others.len() - 1)
        }
    }

    /// Begins the phase.
    pub fn start(
        active: Vec<WorkerSpec>,
        idle: VecDeque<WorkerSpec>,
        spread: Spread,
        external_coverage_lane: bool,
        min_profiled_samples_per_operation: usize,
        plateau_size: usize,
        plateau_index: usize,
        rng: &mut StdRng,
    ) -> (made: (RejoinPhase, Rejoined))
        ensures
            made.0.started(
                active@,
                idle@,
                spread,
                external_coverage_lane,
                min_profiled_samples_per_operation,
                plateau_size,
                plateau_index,
                draw::generator_state(*old(rng)),
                made.1,
                draw::generator_state(*final(rng)),
            ),
    {
        let names: Vec<String> = device_ids(active.as_slice());
        let places: Vec<usize> = active_profiled_indices(active.as_slice());
        let mut phase: RejoinPhase = RejoinPhase {
            active: active,
            idle: idle,
            spread: spread,
            plateau_size: plateau_size,
            plateau_index: plateau_index,
            by_turns: external_coverage_lane && names.len() >= 2,
            required: if min_profiled_samples_per_operation > 1 {
                min_profiled_samples_per_operation
            } else {
                1
            },
            welcomes: Counts::new(),
            actors: Counts::new(),
            receivers: Counts::new(),
            stage: RejoinStage::Over,
        };
        if places.len() < 2 {
            return (phase, Next::Done(Ok(())));
        }
        if phase.by_turns {
            let next: Rejoined = phase.choose_next();
            return (phase, next);
        }
        proof {
            assert(active.len() == active@.len());
            workers::lemma_places(active@, workers::profiled());
            assert(places@.no_duplicates());
        }
        let victim_idx: usize = places[draw_below(rng, places.len())];
        let others: Vec<usize> = drop_place(&places, victim_idx);
        proof {
            lemma_without_place(places@, victim_idx);
        }
        let actor_idx: usize = others[draw_below(rng, others.len())];
        proof {
            assert(places@.contains(actor_idx));
        }
        let victim: WorkerSpec = phase.active[victim_idx].clone();
        let actor: WorkerSpec = phase.active[actor_idx].clone();
        let none: Vec<String> = Vec::new();
        assert(text::texts(none@) =~= Seq::<Seq<char>>::empty());
        let next: Rejoined = phase.cycle(victim, actor, none);
        (phase, next)
    }

    fn fail(&mut self, error: Failure) -> (next: Rejoined)
        ensures
            final(self).wf(),
            final(self).same_task(*old(self)),
            final(self).same_samples(*old(self)),
            final(self).fails(old(self).active@, old(self).idle@, error@, next),
    {
        self.stage = RejoinStage::Over;
        Next::Done(Err(error))
    }

    /// The members and the idle workers, handed over.
    fn hand_over(&mut self) -> (held: (Vec<WorkerSpec>, VecDeque<WorkerSpec>))
        ensures
            held.0@ == old(self).active@,
            held.1@ == old(self).idle@,
            final(self).same_task(*old(self)),
            final(self).same_samples(*old(self)),
            final(self).stage == old(self).stage,
    {
        let mut active: Vec<WorkerSpec> = Vec::new();
        std::mem::swap(&mut active, &mut self.active);
        let mut idle: VecDeque<WorkerSpec> = VecDeque::new();
        std::mem::swap(&mut idle, &mut self.idle);
        (active, idle)
    }

    fn cycle(&mut self, victim: WorkerSpec, actor: WorkerSpec, receivers: Vec<String>) -> (next:
        Rejoined)
        requires
            old(self).active@.contains(victim),
        ensures
            final(self).wf(),
            final(self).same_task(*old(self)),
            final(self).same_samples(*old(self)),
            old(self).cycles(
                old(self).active@,
                old(self).idle@,
                victim,
                actor,
                text::texts(receivers@),
                *final(self),
                next,
            ),
    {
        let (active, idle): (Vec<WorkerSpec>, VecDeque<WorkerSpec>) = self.hand_over();
        let (cycle, order): (RejoinCycle, Order) = RejoinCycle::start(
            active,
            idle,
            self.spread,
            self.plateau_size,
            self.plateau_index,
            &victim,
            &actor,
        );
        self.stage = RejoinStage::Cycling { cycle: cycle, receivers: receivers };
        Next::Do(order)
    }

    fn choose_next(&mut self) -> (next: Rejoined)
        ensures
            final(self).wf(),
            final(self).same_task(*old(self)),
            old(self).chooses(
                old(self).active@,
                old(self).idle@,
                old(self).welcomes@,
                old(self).actors@,
                old(self).receivers@,
                *final(self),
                next,
            ),
    {
        let names: Vec<String> = device_ids(self.active.as_slice());
        let turn: RejoinTurn = take_rejoin_turn(
            self.active.as_slice(),
            &names,
            &self.welcomes,
            &self.actors,
            &self.receivers,
            self.required,
            self.plateau_size,
        );
        match turn {
            RejoinTurn::Enough => {
                self.stage = RejoinStage::Over;
                Next::Done(Ok(()))
            },
            RejoinTurn::Stuck(why) => self.fail(Failure::plain(why)),
            RejoinTurn::Cycle { actor_id, victim_id } => {
                proof {
                    lemma_turn_is_of_members(
                        self.active@,
                        self.welcomes@,
                        self.actors@,
                        self.receivers@,
                        self.required,
                        self.plateau_size,
                    );
                    lemma_worker_named(self.active@, actor_id@);
                    lemma_worker_named(self.active@, victim_id@);
                }
                let mut both: IdSet = cycle::set_of(actor_id.as_str());
                both.insert(victim_id.as_str());
                let receivers: Vec<String> = split_members(&names, &both, false);
                match (
                    find_worker(&self.active, victim_id.as_str()),
                    find_worker(&self.active, actor_id.as_str()),
                ) {
                    (Some(victim), Some(actor)) => self.cycle(victim, actor, receivers),
                    _ => Next::Done(Ok(())),
                }
            },
        }
    }

    fn take_restored(&mut self, restore: RestorePlateau, step: Restored) -> (next: Rejoined)
        requires
            restore.wf(),
        ensures
            final(self).wf(),
            final(self).same_task(*old(self)),
            old(self).after_restore(restore, step, *final(self), next),
    {
        match step {
            Next::Do(order) => {
                self.stage = RejoinStage::Restoring(restore);
                Next::Do(order)
            },
            Next::Done(Ok(_)) => {
                self.active = restore.active;
                self.idle = restore.idle;
                self.choose_next()
            },
            Next::Done(Err(error)) => {
                self.active = restore.active;
                self.idle = restore.idle;
                self.fail(error)
            },
        }
    }

    fn take_cycled(&mut self, cycle: RejoinCycle, receivers: Vec<String>, step: Cycled) -> (next:
        Rejoined)
        requires
            cycle.wf(),
            old(self).set_up(cycle.spread, cycle.plateau_size, cycle.plateau_index),
        ensures
            final(self).wf(),
            final(self).same_task(*old(self)),
            old(self).after_cycle(cycle, text::texts(receivers@), step, *final(self), next),
    {
        let ghost start = *self;
        match step {
            Next::Do(order) => {
                self.stage = RejoinStage::Cycling { cycle: cycle, receivers: receivers };
                Next::Do(order)
            },
            Next::Done(Ok(_)) => {
                self.active = cycle.active;
                self.idle = cycle.idle;
                if !self.by_turns {
                    self.stage = RejoinStage::Over;
                    return Next::Done(Ok(()));
                }
                if is_external_device(&cycle.victim) {
                    self.welcomes.count_one(cycle.victim.id.as_str());
                }
                self.actors.count_one(cycle.actor.id.as_str());
                count_all(&mut self.receivers, &receivers);
                self.choose_next()
            },
            Next::Done(Err(error)) => {
                let (recovery, first): (Recovery, Recovered) = Recovery::start(
                    cycle.active,
                    cycle.idle,
                    self.spread,
                    self.plateau_size,
                    self.plateau_index,
                    &cycle.victim,
                    &cycle.actor,
                    &error,
                );
                assert(recovery.started(
                    cycle.active@,
                    cycle.idle@,
                    start.spread,
                    start.plateau_size,
                    start.plateau_index,
                    cycle.victim,
                    cycle.actor,
                    error@,
                    first,
                ));
                match first {
                    Next::Do(order) => {
                        self.stage = RejoinStage::Recovering { recovery: recovery, error: error };
                        Next::Do(order)
                    },
                    Next::Done(_) => {
                        self.active = recovery.active;
                        self.idle = recovery.idle;
                        self.fail(error)
                    },
                }
            },
        }
    }

    fn take_recovered(
        &mut self,
        recovery: Recovery,
        error: Failure,
        step: Recovered,
        rng: &mut StdRng,
    ) -> (next: Rejoined)
        requires
            recovery.wf(),
        ensures
            final(self).wf(),
            final(self).same_task(*old(self)),
            old(self).after_recovery(
                recovery,
                error@,
                step,
                draw::generator_state(*old(rng)),
                *final(self),
                next,
                draw::generator_state(*final(rng)),
            ),
    {
        let ghost start = *self;
        let ghost state = draw::generator_state(*rng);
        match step {
            Next::Do(order) => {
                self.stage = RejoinStage::Recovering { recovery: recovery, error: error };
                Next::Do(order)
            },
            Next::Done(Err(worse)) => {
                self.active = recovery.active;
                self.idle = recovery.idle;
                self.fail(worse)
            },
            Next::Done(Ok(goes_on)) => {
                if !goes_on {
                    self.active = recovery.active;
                    self.idle = recovery.idle;
                    return self.fail(error);
                }
                if !self.by_turns {
                    self.active = recovery.active;
                    self.idle = recovery.idle;
                    self.stage = RejoinStage::Over;
                    return Next::Done(Ok(()));
                }
                let (restore, first): (RestorePlateau, Restored) = RestorePlateau::start(
                    recovery.active,
                    recovery.idle,
                    self.spread,
                    self.plateau_size,
                    self.plateau_index,
                    rng,
                );
                assert(restore.started(
                    recovery.active@,
                    recovery.idle@,
                    start.spread,
                    start.plateau_size,
                    start.plateau_index,
                    state,
                    first,
                    draw::generator_state(*rng),
                ));
                self.take_restored(restore, first)
            },
        }
    }

    /// What is done after a report.
    pub fn step(&mut self, report: Report, rng: &mut StdRng) -> (next: Rejoined)
        requires
            old(self).wf(),
            old(self).waits_for(report),
        ensures
            final(self).wf(),
            old(self).next(
                report,
                draw::generator_state(*old(rng)),
                *final(self),
                next,
                draw::generator_state(*final(rng)),
            ),
    {
        let ghost given = report;
        let ghost start = *self;
        let ghost state = draw::generator_state(*rng);
        let mut stage: RejoinStage = RejoinStage::Over;
        std::mem::swap(&mut stage, &mut self.stage);
        match stage {
            RejoinStage::Cycling { cycle, receivers } => {
                let mut cycle: RejoinCycle = cycle;
                let ghost before = cycle;
                let ghost named = text::texts(receivers@);
                let step: Cycled = cycle.step(report);
                assert(before.next(given, cycle, step));
                let next: Rejoined = self.take_cycled(cycle, receivers, step);
                assert(start.after_cycle(cycle, named, step, *self, next));
                next
            },
            RejoinStage::Recovering { recovery, error } => {
                let mut recovery: Recovery = recovery;
                let ghost before = recovery;
                let step: Recovered = recovery.step(report);
                assert(before.next(given, recovery, step));
                let next: Rejoined = self.take_recovered(recovery, error, step, rng);
                assert(start.after_recovery(
                    recovery,
                    error@,
                    step,
                    state,
                    *self,
                    next,
                    draw::generator_state(*rng),
                ));
                next
            },
            RejoinStage::Restoring(restore) => {
                let mut restore: RestorePlateau = restore;
                let ghost before = restore;
                let step: Restored = restore.step(report, rng);
                assert(before.next(given, state, restore, step, draw::generator_state(*rng)));
                let next: Rejoined = self.take_restored(restore, step);
                assert(start.after_restore(restore, step, *self, next));
                next
            },
            RejoinStage::Over => Next::Done(Ok(())),
        }
    }
}

/// The names of the measured devices among some workers, in their order.
fn device_ids(active: &[WorkerSpec]) -> (names: Vec<String>)
    ensures
        text::texts(names@) == density::device_names(active@),
        names@.len() == density::device_names(active@).len(),
{
    let device = |w: &WorkerSpec| -> (yes: bool)
        ensures
            yes == (w.profile_enabled && workers::external(*w)),
    { w.profile_enabled && is_external_device(w) };
    let devices: Vec<WorkerSpec> = copies_of(active, device, Ghost(workers::profiled_external()));
    let names: Vec<String> = sort_texts(&ids_of(devices.as_slice()));
    assert(text::texts(names@).len() == names@.len());
    names
}

/// Where the devices have enough samples, each of two or more devices removed others, joined again
/// and received commits as often as is required.
pub proof fn law_enough_samples(
    active: Seq<WorkerSpec>,
    welcomes: Map<Seq<char>, usize>,
    actors: Map<Seq<char>, usize>,
    receivers: Map<Seq<char>, usize>,
    required: usize,
    plateau_size: usize,
    name: Seq<char>,
)
    requires
        density::device_names(active).len() >= 2,
        density::device_names(active).contains(name),
        rejoin_turn(
            active,
            density::device_names(active),
            welcomes,
            actors,
            receivers,
            required,
            plateau_size,
        ) is Enough,
    ensures
        table::count_of(actors, name) >= required,
        table::count_of(welcomes, name) >= required,
        table::count_of(receivers, name) >= required,
{
    let names = density::device_names(active);
    law_least_of(names, actors, Some(required), None);
    law_least_of(names, welcomes, Some(required), None);
    law_least_of(names, receivers, Some(required), None);
    assert(names.contains(name));
    if !eligible(receivers, Some(required), None, name) && !eligible(
        welcomes,
        Some(required),
        None,
        name,
    ) && !eligible(actors, Some(required), None, name) {
    }
}

impl RejoinPhase {
    /// How often a worker is held, as a member, as an idle worker or as a joiner.
    pub open spec fn held(self, w: WorkerSpec) -> nat {
        match self.stage {
            RejoinStage::Cycling { cycle, receivers: _ } => cycle.held(w),
            RejoinStage::Recovering { recovery, error: _ } => recovery.held(w),
            RejoinStage::Restoring(restore) => restore.held(w),
            RejoinStage::Over => density::among(self.active@, self.idle@, w),
        }
    }

    /// The two that take part in a cycle have different ids and are both workers of the run.
    pub open spec fn apart(self) -> bool {
        match self.stage {
            RejoinStage::Cycling { cycle, receivers: _ } => cycle.victim.id@ != cycle.actor.id@
                && cycle.held(cycle.actor) >= 1,
            RejoinStage::Recovering { recovery, error: _ } => recovery.victim.id@
                != recovery.actor.id@ && recovery.held(recovery.actor) >= 1 && recovery.held(
                recovery.victim,
            ) >= 1,
            _ => true,
        }
    }
}

proof fn lemma_rejoin_chooses_hold(
    phase: RejoinPhase,
    active: Seq<WorkerSpec>,
    idle: Seq<WorkerSpec>,
    welcomes: Map<Seq<char>, usize>,
    actors: Map<Seq<char>, usize>,
    receivers: Map<Seq<char>, usize>,
    after: RejoinPhase,
    next: Rejoined,
    w: WorkerSpec,
)
    requires
        phase.chooses(active, idle, welcomes, actors, receivers, after, next),
        after.same_task(phase),
    ensures
        after.held(w) == density::among(active, idle, w),
        after.apart(),
        evict::succeeded(next) ==> after.stage is Over && rejoin_turn(
            after.active@,
            density::device_names(after.active@),
            after.welcomes@,
            after.actors@,
            after.receivers@,
            after.required,
            after.plateau_size,
        ) is Enough,
{
    lemma_turn_is_of_members(
        active,
        welcomes,
        actors,
        receivers,
        phase.required,
        phase.plateau_size,
    );
    match rejoin_turn(
        active,
        density::device_names(active),
        welcomes,
        actors,
        receivers,
        phase.required,
        phase.plateau_size,
    ) {
        TurnView::Cycle { actor, victim } => {
            lemma_worker_named(active, actor);
            lemma_worker_named(active, victim);
            workers::lemma_times_none(active, cycle::worker_named(active, actor)->0);
        },
        _ => {},
    }
}

/// The phase makes no worker up and puts none in two places, as long as the two that take part in a
/// cycle are different workers of the run; and so they stay. Where the devices take turns and the
/// phase succeeds, they have enough samples.
pub proof fn law_rejoin_phase(
    phase: RejoinPhase,
    report: Report,
    state: int,
    after: RejoinPhase,
    next: Rejoined,
    state_after: int,
    w: WorkerSpec,
)
    requires
        phase.wf(),
        phase.apart(),
        phase.waits_for(report),
        phase.next(report, state, after, next, state_after),
    ensures
        after.held(w) <= phase.held(w),
        after.apart(),
        evict::succeeded(next) ==> after.stage is Over,
        evict::succeeded(next) && phase.by_turns ==> rejoin_turn(
            after.active@,
            density::device_names(after.active@),
            after.welcomes@,
            after.actors@,
            after.receivers@,
            after.required,
            after.plateau_size,
        ) is Enough,
{
    match phase.stage {
        RejoinStage::Cycling { cycle, receivers } => {
            let (then, step) = choose|then: RejoinCycle, step: Cycled| #[trigger]
                cycle.next(report, then, step) && phase.after_cycle(
                    then,
                    text::texts(receivers@),
                    step,
                    after,
                    next,
                );
            cycle::law_cycle(cycle, report, then, step, w);
            cycle::law_cycle(cycle, report, then, step, cycle.actor);
            if evict::succeeded(step) && phase.by_turns {
                lemma_rejoin_chooses_hold(
                    phase,
                    then.active@,
                    then.idle@,
                    after.welcomes@,
                    after.actors@,
                    after.receivers@,
                    after,
                    next,
                    w,
                );
            }
        },
        RejoinStage::Recovering { recovery, error } => {
            let (then, step) = choose|then: Recovery, step: Recovered| #[trigger]
                recovery.next(report, then, step) && phase.after_recovery(
                    then,
                    error@,
                    step,
                    state,
                    after,
                    next,
                    state_after,
                );
            cycle::law_recovery(recovery, report, then, step, w);
            cycle::law_recovery(recovery, report, then, step, recovery.actor);
            cycle::law_recovery(recovery, report, then, step, recovery.victim);
            if cycle::recovered(step, true) && phase.by_turns {
                let (begun, first) = choose|begun: RestorePlateau, first: Restored| #[trigger]
                    begun.started(
                        then.active@,
                        then.idle@,
                        phase.spread,
                        phase.plateau_size,
                        phase.plateau_index,
                        state,
                        first,
                        state_after,
                    ) && phase.after_restore(begun, first, after, next);
                density::lemma_restore_started_holds(
                    begun,
                    then.active@,
                    then.idle@,
                    phase.spread,
                    phase.plateau_size,
                    phase.plateau_index,
                    state,
                    first,
                    state_after,
                    w,
                );
                if evict::succeeded(first) {
                    lemma_rejoin_chooses_hold(
                        phase,
                        begun.active@,
                        begun.idle@,
                        phase.welcomes@,
                        phase.actors@,
                        phase.receivers@,
                        after,
                        next,
                        w,
                    );
                }
            }
        },
        RejoinStage::Restoring(restore) => {
            let (then, step) = choose|then: RestorePlateau, step: Restored| #[trigger]
                restore.next(report, state, then, step, state_after) && phase.after_restore(
                    then,
                    step,
                    after,
                    next,
                );
            density::law_restoration(restore, report, state, then, step, state_after, w);
            if evict::succeeded(step) {
                lemma_rejoin_chooses_hold(
                    phase,
                    then.active@,
                    then.idle@,
                    phase.welcomes@,
                    phase.actors@,
                    phase.receivers@,
                    after,
                    next,
                    w,
                );
            }
        },
        RejoinStage::Over => {},
    }
}

/// The phase begins with the members and the idle workers that it is given.
pub proof fn lemma_rejoin_begins(
    phase: RejoinPhase,
    active: Seq<WorkerSpec>,
    idle: Seq<WorkerSpec>,
    spread: Spread,
    lane: bool,
    min_samples: usize,
    plateau_size: usize,
    plateau_index: usize,
    state: int,
    next: Rejoined,
    state_after: int,
    w: WorkerSpec,
)
    requires
        phase.started(
            active,
            idle,
            spread,
            lane,
            min_samples,
            plateau_size,
            plateau_index,
            state,
            next,
            state_after,
        ),
    ensures
        phase.held(w) == density::among(active, idle, w),
        evict::succeeded(next) ==> phase.stage is Over,
{
    if workers::places(active, workers::profiled()).len() >= 2 && phase.by_turns {
        lemma_rejoin_chooses_hold(
            phase,
            active,
            idle,
            Map::empty(),
            Map::empty(),
            Map::empty(),
            phase,
            next,
            w,
        );
    }
}

/// The names of the measured devices are the ids of the members that are devices and measured.
proof fn lemma_device_names(active: Seq<WorkerSpec>, name: Seq<char>)
    ensures
        density::device_names(active).contains(name) == exists|i: int|
            0 <= i < active.len() && (#[trigger] active[i]).profile_enabled && workers::external(
                active[i],
            ) && active[i].id@ == name,
{
    let wanted = workers::profiled_external();
    let devices = workers::those(active, wanted);
    let given = workers::ids(devices);
    evict::lemma_ascending(given);
    workers::lemma_those(active, wanted);
    if given.contains(name) {
        let k = choose|k: int| 0 <= k < given.len() && given[k] == name;
        assert(devices.contains(devices[k]));
        let i = choose|i: int| 0 <= i < active.len() && active[i] == devices[k];
        assert(wanted(active[i]));
        assert(active[i].id@ == name);
    }
    if exists|i: int|
        0 <= i < active.len() && (#[trigger] active[i]).profile_enabled && workers::external(
            active[i],
        ) && active[i].id@ == name {
        let i = choose|i: int|
            0 <= i < active.len() && (#[trigger] active[i]).profile_enabled && workers::external(
                active[i],
            ) && active[i].id@ == name;
        assert(wanted(active[i]));
        assert(active.contains(active[i]));
        assert(devices.contains(active[i]));
        let k = choose|k: int| 0 <= k < devices.len() && devices[k] == active[i];
        assert(given[k] == name);
    }
}

/// How the devices take turns. As long as one has removed others too seldom, one that did so least often
/// acts, and another device is removed: one that joined again least often, and one that did so too
/// seldom if there is one. After that, as long as one has joined again too seldom, one that did so least
/// often is removed, and another that removed others least often acts. After that, as long as one has
/// received too few commits, a member that is no device is removed, and the one that received least
/// neither acts nor is removed. After that it is enough.
pub proof fn law_rejoin_turn(
    active: Seq<WorkerSpec>,
    names: Seq<Seq<char>>,
    welcomes: Map<Seq<char>, usize>,
    actors: Map<Seq<char>, usize>,
    receivers: Map<Seq<char>, usize>,
    required: usize,
    plateau_size: usize,
)
    requires
        names.len() >= 2,
        different(names),
    ensures
        ({
            let turn = rejoin_turn(
                active,
                names,
                welcomes,
                actors,
                receivers,
                required,
                plateau_size,
            );
            let removed = |id: Seq<char>| table::count_of(actors, id);
            let joined = |id: Seq<char>| table::count_of(welcomes, id);
            let received = |id: Seq<char>| table::count_of(receivers, id);
            if exists|id: Seq<char>| #[trigger] names.contains(id) && removed(id) < required {
                &&& turn matches TurnView::Cycle { actor, victim } && names.contains(actor)
                    && names.contains(victim) && actor != victim && removed(actor) < required && (
                forall|id: Seq<char>| #[trigger]
                    names.contains(id) ==> removed(actor) <= removed(id)) && (forall|id: Seq<char>|
                    #[trigger]
                    names.contains(id) && id != actor ==> joined(victim) <= joined(id) || (joined(
                        victim,
                    ) < required && joined(id) >= required))
            } else if exists|id: Seq<char>| #[trigger] names.contains(id) && joined(id) < required {
                &&& turn matches TurnView::Cycle { actor, victim } && names.contains(actor)
                    && names.contains(victim) && actor != victim && joined(victim) < required && (
                forall|id: Seq<char>| #[trigger]
                    names.contains(id) ==> joined(victim) <= joined(id)) && (forall|id: Seq<char>|
                    #[trigger]
                    names.contains(id) && id != victim ==> removed(actor) <= removed(id))
            } else if exists|id: Seq<char>| #[trigger]
                names.contains(id) && received(id) < required {
                match turn {
                    TurnView::Cycle { actor, victim } => {
                        &&& names.contains(actor)
                        &&& received_least(names, receivers, actor, victim)
                        &&& exists|i: int|
                            0 <= i < active.len() && !workers::external(#[trigger] active[i])
                                && active[i].id@ == victim
                        &&& actor != victim
                    },
                    TurnView::Stuck(_) => true,
                    TurnView::Enough => false,
                }
            } else {
                turn is Enough
            }
        }),
{
    law_least_of(names, actors, Some(required), None);
    law_least_of(names, welcomes, Some(required), None);
    law_least_of(names, receivers, Some(required), None);
    let (i, j) = choose|i: int, j: int|
        0 <= i < names.len() && 0 <= j < names.len() && #[trigger] names[i] != #[trigger] names[j];
    assert(names.contains(names[i]) && names.contains(names[j]));
    if let Some(actor) = least_of(names, actors, Some(required), None) {
        law_least_of(names, welcomes, Some(required), Some(actor));
        law_least_of(names, welcomes, None, Some(actor));
        let other = if names[i] != actor {
            names[i]
        } else {
            names[j]
        };
        assert(names.contains(other));
        assert(eligible(welcomes, None, Some(actor), other));
        assert forall|id: Seq<char>| #[trigger] names.contains(id) implies table::count_of(
            actors,
            actor,
        ) <= table::count_of(actors, id) by {
            assert(eligible(actors, Some(required), None, id) || table::count_of(actors, id)
                >= required);
        }
    } else if let Some(victim) = least_of(names, welcomes, Some(required), None) {
        law_least_of(names, actors, None, Some(victim));
        let other = if names[i] != victim {
            names[i]
        } else {
            names[j]
        };
        assert(names.contains(other));
        assert(eligible(actors, None, Some(victim), other));
    } else if let Some(receiver) = least_of(names, receivers, Some(required), None) {
        law_least_of(names, actors, None, Some(receiver));
        let other = if names[i] != receiver {
            names[i]
        } else {
            names[j]
        };
        assert(names.contains(other));
        assert(eligible(actors, None, Some(receiver), other));
        let actor = least_of(names, actors, None, Some(receiver))->0;
        lemma_spare_member(active, actor, receiver);
        if let Some(w) = spare_member(active, actor, receiver) {
            let k = choose|k: int| 0 <= k < active.len() && active[k] == w;
            assert(!workers::external(active[k]));
            assert(names.contains(receiver) && receiver != actor && receiver != w.id@);
        }
    }
}

/// One that received least often neither acts nor is removed.
pub open spec fn received_least(
    names: Seq<Seq<char>>,
    receivers: Map<Seq<char>, usize>,
    actor: Seq<char>,
    victim: Seq<char>,
) -> bool {
    exists|receiver: Seq<char>|
        {
            &&& #[trigger] names.contains(receiver)
            &&& receiver != actor
            &&& receiver != victim
            &&& forall|id: Seq<char>| #[trigger]
                names.contains(id) ==> table::count_of(receivers, receiver) <= table::count_of(
                    receivers,
                    id,
                )
        }
}

proof fn lemma_all_one_more(counts: Map<Seq<char>, usize>, names: Seq<Seq<char>>, id: Seq<char>)
    requires
        names.no_duplicates(),
        table::count_of(counts, id) < usize::MAX,
    ensures
        table::count_of(all_one_more(counts, names), id) == table::count_of(counts, id) + (
        if names.contains(id) {
            1int
        } else {
            0
        }),
    decreases names.len(),
{
    if names.len() > 0 {
        let front = names.drop_last();
        lemma_all_one_more(counts, front, id);
        assert(names.last() == names[names.len() - 1]);
        if front.contains(id) {
            let k = choose|k: int| 0 <= k < front.len() && front[k] == id;
            assert(names[k] == id);
        } else if names.contains(id) {
            let k = choose|k: int| 0 <= k < names.len() && names[k] == id;
            if k < front.len() {
                assert(front[k] == id);
            }
        }
    }
}

/// After a cycle that went well, the acting device has removed others once more, the device that was
/// removed has joined once more, and each device that only received has received once more. All other
/// samples stay. A member that is no device has no samples of its own.
pub proof fn law_cycle_counts(
    phase: RejoinPhase,
    then: RejoinCycle,
    after: RejoinPhase,
    next: Rejoined,
    id: Seq<char>,
)
    requires
        phase.stage is Cycling,
        phase.by_turns,
        text::texts(phase.stage->Cycling_receivers@).no_duplicates(),
        phase.after_cycle(
            then,
            text::texts(phase.stage->Cycling_receivers@),
            Next::Done(Ok(())),
            after,
            next,
        ),
        table::count_of(phase.actors@, id) < usize::MAX,
        table::count_of(phase.welcomes@, id) < usize::MAX,
        table::count_of(phase.receivers@, id) < usize::MAX,
    ensures
        table::count_of(after.actors@, id) == table::count_of(phase.actors@, id) + (if id
            == then.actor.id@ {
            1int
        } else {
            0
        }),
        table::count_of(after.welcomes@, id) == table::count_of(phase.welcomes@, id) + (if id
            == then.victim.id@ && workers::external(then.victim) {
            1int
        } else {
            0
        }),
        table::count_of(after.receivers@, id) == table::count_of(phase.receivers@, id) + (if exists|
            k: int,
        |
            0 <= k < phase.stage->Cycling_receivers@.len() && (
            #[trigger] phase.stage->Cycling_receivers@[k])@ == id {
            1int
        } else {
            0
        }),
{
    let held = phase.stage->Cycling_receivers@;
    let names = text::texts(held);
    lemma_all_one_more(phase.receivers@, names, id);
    if exists|k: int| 0 <= k < held.len() && (#[trigger] held[k])@ == id {
        let k = choose|k: int| 0 <= k < held.len() && (#[trigger] held[k])@ == id;
        assert(names[k] == id);
    }
    if names.contains(id) {
        let k = choose|k: int| 0 <= k < names.len() && names[k] == id;
        assert(held[k]@ == id);
    }
}

/// Where a turn is taken, the two that take part are members, and those that only receive are all other
/// measured devices.
pub proof fn law_turn_of_devices(
    phase: RejoinPhase,
    active: Seq<WorkerSpec>,
    idle: Seq<WorkerSpec>,
    welcomes: Map<Seq<char>, usize>,
    actors: Map<Seq<char>, usize>,
    receivers: Map<Seq<char>, usize>,
    after: RejoinPhase,
    next: Rejoined,
    id: Seq<char>,
)
    requires
        phase.chooses(active, idle, welcomes, actors, receivers, after, next),
        after.stage is Cycling,
    ensures
        ({
            let cycle = after.stage->Cycling_cycle;
            let held = after.stage->Cycling_receivers@;
            &&& active.contains(cycle.actor)
            &&& active.contains(cycle.victim)
            &&& cycle.actor.id@ != cycle.victim.id@
            &&& cycle.active@ == active && cycle.idle@ == idle
            &&& next matches Next::Do(Order::Ask { worker, command, .. }) && worker == cycle.victim
                && command@ == crate::command::CommandView::GenerateKeyPackage
            &&& (exists|k: int| 0 <= k < held.len() && (#[trigger] held[k])@ == id) <==> id
                != cycle.actor.id@ && id != cycle.victim.id@ && exists|i: int|
                0 <= i < active.len() && (#[trigger] active[i]).profile_enabled
                    && workers::external(active[i]) && active[i].id@ == id
        }),
{
    let names = density::device_names(active);
    lemma_turn_is_of_members(
        active,
        welcomes,
        actors,
        receivers,
        phase.required,
        phase.plateau_size,
    );
    match rejoin_turn(
        active,
        names,
        welcomes,
        actors,
        receivers,
        phase.required,
        phase.plateau_size,
    ) {
        TurnView::Cycle { actor, victim } => {
            lemma_worker_named(active, actor);
            lemma_worker_named(active, victim);
            let out = set![actor].insert(victim);
            evict::lemma_members_in(names, out, false, id);
            lemma_device_names(active, id);
            let held = after.stage->Cycling_receivers@;
            let kept = text::texts(held);
            if exists|k: int| 0 <= k < held.len() && (#[trigger] held[k])@ == id {
                let k = choose|k: int| 0 <= k < held.len() && (#[trigger] held[k])@ == id;
                assert(kept[k] == id);
            }
            if kept.contains(id) {
                let k = choose|k: int| 0 <= k < kept.len() && kept[k] == id;
                assert(held[k]@ == id);
            }
        },
        _ => {},
    }
}

/// How the phase begins. With fewer than two measured members there is nothing to do. Devices take turns
/// where they have a lane of their own and there are two of them. Otherwise one measured member, that is
/// drawn, makes a new key package, in order to be removed and to join again, and another measured member
/// that is drawn removes it.
pub proof fn law_rejoin_begins(
    phase: RejoinPhase,
    active: Seq<WorkerSpec>,
    idle: Seq<WorkerSpec>,
    spread: Spread,
    lane: bool,
    min_samples: usize,
    plateau_size: usize,
    plateau_index: usize,
    state: int,
    next: Rejoined,
    state_after: int,
)
    requires
        active.len() <= usize::MAX,
        phase.started(
            active,
            idle,
            spread,
            lane,
            min_samples,
            plateau_size,
            plateau_index,
            state,
            next,
            state_after,
        ),
    ensures
        ({
            let measured = active.filter(|w: WorkerSpec| w.profile_enabled).len() as int;
            let devices = active.filter(
                |w: WorkerSpec| w.profile_enabled && workers::external(w),
            ).len();
            let first = draw::draw_at(state, 0, measured - 1);
            let second = draw::draw_at(
                draw::state_after_draw(state, 0, measured - 1),
                0,
                measured - 2,
            );
            &&& phase.by_turns <==> lane && devices >= 2
            &&& phase.required == (if min_samples == 0 {
                1
            } else {
                min_samples
            })
            &&& measured < 2 ==> (next matches Next::Done(Ok(_))) && phase.active@ == active
                && phase.idle@ == idle
            &&& measured >= 2 && !phase.by_turns && 0 <= first < measured && 0 <= second < measured
                - 1 ==> {
                &&& phase.stage is Cycling
                &&& ({
                    let cycle = phase.stage->Cycling_cycle;
                    &&& next matches Next::Do(Order::Ask { worker, command, .. }) && worker
                        == cycle.victim && command@ == crate::command::CommandView::GenerateKeyPackage
                    &&& cycle.active@ == active && cycle.idle@ == idle
                    &&& exists|i: int, j: int|
                        {
                            &&& 0 <= i < active.len() && 0 <= j < active.len() && i != j
                            &&& #[trigger] active[i] == cycle.victim
                            &&& #[trigger] active[j] == cycle.actor
                            &&& active[i].profile_enabled && active[j].profile_enabled
                        }
                })
            }
        }),
{
    let wanted = workers::profiled();
    let places = workers::places(active, wanted);
    assert((|w: WorkerSpec| w.profile_enabled) =~= wanted);
    assert((|w: WorkerSpec| w.profile_enabled && workers::external(w))
        =~= workers::profiled_external());
    workers::lemma_count_of_places(active, wanted);
    workers::lemma_count_of_places(active, workers::profiled_external());
    workers::lemma_places(active, wanted);
    let devices = workers::those(active, workers::profiled_external());
    evict::lemma_ascending(workers::ids(devices));
    assert(workers::ids(devices).len() == devices.len());
    let measured = places.len() as int;
    let first = draw::draw_at(state, 0, measured - 1);
    if measured >= 2 && !phase.by_turns && 0 <= first < measured {
        let victim = places[first];
        let others = without_place(places, victim);
        assert(places.no_duplicates());
        lemma_without_place(places, victim);
        lemma_one_place_less(places, victim, first);
        let state1 = draw::state_after_draw(state, 0, measured - 1);
        let second = draw::draw_at(state1, 0, measured - 2);
        if 0 <= second < measured - 1 {
            let actor = others[second];
            assert(places.contains(actor) && actor != victim);
            let at = choose|at: int| 0 <= at < places.len() && places[at] == actor;
            assert(wanted(active[victim as int]) && wanted(active[actor as int]));
            assert(active[victim as int].profile_enabled && active[actor as int].profile_enabled);
        }
    }
}

/// Without one of some places there is one place less.
proof fn lemma_one_place_less(places: Seq<usize>, at: usize, k: int)
    requires
        places.no_duplicates(),
        0 <= k < places.len(),
        places[k] == at,
    ensures
        without_place(places, at).len() == places.len() - 1,
    decreases places.len(),
{
    let front = places.drop_last();
    if k == places.len() - 1 {
        assert(!front.contains(at)) by {
            if front.contains(at) {
                let j = choose|j: int| 0 <= j < front.len() && front[j] == at;
                assert(places[j] == places[k]);
            }
        }
        assert(front.no_duplicates());
        lemma_without_place(front, at);
    } else {
        assert(front[k] == at);
        assert(front.no_duplicates());
        lemma_one_place_less(front, at, k);
        assert(places.last() != at) by {
            assert(places[k] != places[places.len() - 1]);
        }
    }
}

} // verus!
