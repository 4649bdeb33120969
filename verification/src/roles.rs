//! Who acts on whom: the pairs of devices that remove each other, the actor of a removal and the
//! members it may remove, and the worker whose turn it is.

use rand::rngs::StdRng;
use vstd::prelude::*;

use crate::draw;
use crate::draw::{draw_below, shuffle};
use crate::order;
use crate::order::{sort_texts, str_at_most};
use crate::table;
use crate::table::{Counts, IdSet};
use crate::text;
use crate::workers;
use crate::workers::{copies_of, ids_of, is_external_device, position_of, WorkerSpec};

verus! {

// ---------------------------------------------------------------------------
// Pairs
// ---------------------------------------------------------------------------

/// Each of some ids, paired with the next one, the last with the first; nothing where there are
/// fewer than two.
pub open spec fn ring(names: Seq<Seq<char>>) -> Seq<(Seq<char>, Seq<char>)> {
    if names.len() < 2 {
        Seq::empty()
    } else {
        Seq::new(names.len(), |i: int| (names[i], names[(i + 1) % (names.len() as int)]))
    }
}

/// The contents of a list of pairs.
pub open spec fn pairs(list: Seq<(String, String)>) -> Seq<(Seq<char>, Seq<char>)> {
    list.map_values(|pair: (String, String)| (pair.0@, pair.1@))
}

/// Each measured device as the one to be removed, with the device that removes it.
pub fn external_remove_rejoin_pairs(active: &[WorkerSpec]) -> (out: Vec<(String, String)>)
    ensures
        pairs(out@) == ring(
            order::ascending(
                workers::ids(workers::those(active@, workers::profiled_external())),
            ),
        ),
{
    let keep = |w: &WorkerSpec| -> (yes: bool)
        ensures
            yes == (w.profile_enabled && workers::external(*w)),
    { w.profile_enabled && is_external_device(w) };
    let devices: Vec<WorkerSpec> = copies_of(active, keep, Ghost(workers::profiled_external()));
    let names: Vec<String> = sort_texts(&ids_of(devices.as_slice()));
    let ghost given = text::texts(names@);
    let mut out: Vec<(String, String)> = Vec::new();
    if names.len() < 2 {
        assert(pairs(out@) =~= ring(given));
        return out;
    }
    let mut i: usize = 0;
    while i < names.len()
        invariant
            i <= names@.len(),
            names@.len() >= 2,
            given == text::texts(names@),
            out@.len() == i,
            forall|j: int|
                0 <= j < i ==> (#[trigger] out@[j]).0@ == given[j] && out@[j].1@ == given[(j + 1) % (
                given.len() as int)],
        decreases names@.len() - i,
    {
        let next: usize = if i + 1 < names.len() {
            i + 1
        } else {
            0
        };
        proof {
            if i + 1 < names@.len() {
                vstd::arithmetic::div_mod::lemma_small_mod((i + 1) as nat, given.len());
            } else {
                vstd::arithmetic::div_mod::lemma_mod_self_0(given.len() as int);
            }
            assert(next == (i + 1) % (given.len() as int));
        }
        out.push((names[i].clone(), names[next].clone()));
        i = i + 1;
    }
    assert(pairs(out@) =~= ring(given));
    out
}

/// Some pair has `name` as the one that is removed.
pub open spec fn is_removed(list: Seq<(Seq<char>, Seq<char>)>, name: Seq<char>) -> bool {
    exists|p: int| 0 <= p < list.len() && (#[trigger] list[p]).0 == name
}

/// Some pair has `name` as the one that removes.
pub open spec fn removes(list: Seq<(Seq<char>, Seq<char>)>, name: Seq<char>) -> bool {
    exists|p: int| 0 <= p < list.len() && (#[trigger] list[p]).1 == name
}

/// With at least two devices, each of them is removed once and removes once, and none removes
/// itself where no id occurs twice.
pub proof fn law_ring_covers_both_roles(names: Seq<Seq<char>>)
    requires
        names.len() >= 2,
        names.no_duplicates(),
    ensures
        ring(names).len() == names.len(),
        forall|name: Seq<char>|
            #[trigger] names.contains(name) ==> is_removed(ring(names), name) && removes(
                ring(names),
                name,
            ),
        forall|p: int| 0 <= p < ring(names).len() ==> (#[trigger] ring(names)[p]).0 != ring(names)[p].1,
{
    let n = names.len() as int;
    assert forall|name: Seq<char>| #[trigger] names.contains(name) implies is_removed(
        ring(names),
        name,
    ) && removes(ring(names), name) by {
        let i = choose|i: int| 0 <= i < names.len() && names[i] == name;
        assert(ring(names)[i].0 == name);
        let p = if i == 0 {
            n - 1
        } else {
            i - 1
        };
        if i == 0 {
            vstd::arithmetic::div_mod::lemma_mod_self_0(n);
        } else {
            vstd::arithmetic::div_mod::lemma_small_mod(i as nat, n as nat);
        }
        assert((p + 1) % n == i);
        assert(ring(names)[p].1 == name);
    }
    assert forall|p: int| 0 <= p < ring(names).len() implies (#[trigger] ring(names)[p]).0 != ring(
        names,
    )[p].1 by {
        if p + 1 < n {
            vstd::arithmetic::div_mod::lemma_small_mod((p + 1) as nat, n as nat);
        } else {
            vstd::arithmetic::div_mod::lemma_mod_self_0(n);
        }
    }
}

// ---------------------------------------------------------------------------
// Taking turns
// ---------------------------------------------------------------------------

/// The smallest count that a worker on a device has, if there is such a worker.
pub open spec fn fewest_uses(active: Seq<WorkerSpec>, uses: Map<Seq<char>, usize>) -> Option<usize>
    decreases active.len(),
{
    if active.len() == 0 {
        None
    } else {
        let before = fewest_uses(active.drop_last(), uses);
        let last = active.last();
        let count = table::count_of(uses, last.id@);
        if workers::external(last) && (before is None || count < before->0) {
            Some(count)
        } else {
            before
        }
    }
}

/// A worker on a device that was used a given number of times.
pub open spec fn device_used(uses: Map<Seq<char>, usize>, count: usize) -> spec_fn(
    WorkerSpec,
) -> bool {
    |w: WorkerSpec| workers::external(w) && table::count_of(uses, w.id@) == count
}

/// The workers on devices that were used least.
pub open spec fn least_used(active: Seq<WorkerSpec>, uses: Map<Seq<char>, usize>) -> Seq<
    WorkerSpec,
> {
    match fewest_uses(active, uses) {
        Some(count) => workers::those(active, device_used(uses, count)),
        None => Seq::empty(),
    }
}

proof fn lemma_fewest(active: Seq<WorkerSpec>, uses: Map<Seq<char>, usize>)
    ensures
        match fewest_uses(active, uses) {
            Some(count) => {
                &&& exists|i: int|
                    0 <= i < active.len() && workers::external(#[trigger] active[i])
                        && table::count_of(uses, active[i].id@) == count
                &&& forall|i: int|
                    0 <= i < active.len() && workers::external(#[trigger] active[i])
                        ==> table::count_of(uses, active[i].id@) >= count
            },
            None => forall|i: int|
                0 <= i < active.len() ==> !workers::external(#[trigger] active[i]),
        },
    decreases active.len(),
{
    if active.len() > 0 {
        let front = active.drop_last();
        lemma_fewest(front, uses);
        let last = active.last();
        match fewest_uses(front, uses) {
            Some(count) => {
                let i = choose|i: int|
                    0 <= i < front.len() && workers::external(#[trigger] front[i])
                        && table::count_of(uses, front[i].id@) == count;
                assert(active[i] == front[i]);
            },
            None => {},
        }
        assert(active[active.len() - 1] == last);
        assert forall|i: int|
            0 <= i < active.len() && workers::external(#[trigger] active[i]) implies (
        fewest_uses(active, uses) is Some && table::count_of(uses, active[i].id@)
            >= fewest_uses(active, uses)->0) by {
            if i < front.len() {
                assert(front[i] == active[i]);
            }
        }
    }
}

/// The id of a worker on a device that acted least often so far; chance decides between equals.
pub fn least_used_external_actor_id(
    active: &[WorkerSpec],
    actor_use_counts: &Counts,
    rng: &mut StdRng,
) -> (chosen: Option<String>)
    ensures
        ({
            let least = least_used(active@, actor_use_counts@);
            let state = draw::generator_state(*old(rng));
            if fewest_uses(active@, actor_use_counts@) is None {
                chosen is None && draw::generator_state(*final(rng)) == state
            } else {
                &&& chosen is Some
                &&& chosen->0@ == draw::shuffled(workers::ids(least), state).last()
                &&& draw::generator_state(*final(rng)) == draw::state_after_shuffle(
                    state,
                    least.len() as int,
                )
            }
        }),
        chosen is None <==> forall|i: int|
            0 <= i < active@.len() ==> !workers::external(#[trigger] active@[i]),
        chosen is Some ==> exists|i: int|
            0 <= i < active@.len() && (#[trigger] active@[i]).id@ == chosen->0@
                && workers::external(active@[i]),
        chosen is Some ==> forall|i: int|
            0 <= i < active@.len() && workers::external(#[trigger] active@[i]) ==> table::count_of(
                actor_use_counts@,
                chosen->0@,
            ) <= table::count_of(actor_use_counts@, active@[i].id@),
{
    let ghost uses = actor_use_counts@;
    let ghost state = draw::generator_state(*rng);
    let mut minimum: Option<usize> = None;
    let mut i: usize = 0;
    assert(active@.take(0) =~= Seq::<WorkerSpec>::empty());
    while i < active.len()
        invariant
            i <= active@.len(),
            uses == actor_use_counts@,
            minimum == fewest_uses(active@.take(i as int), uses),
        decreases active@.len() - i,
    {
        assert(active@.take(i + 1).drop_last() =~= active@.take(i as int));
        if is_external_device(&active[i]) {
            let count: usize = actor_use_counts.count(active[i].id.as_str());
            match minimum {
                None => {
                    minimum = Some(count);
                },
                Some(least) => {
                    if count < least {
                        minimum = Some(count);
                    }
                },
            }
        }
        i = i + 1;
    }
    assert(active@.take(i as int) =~= active@);
    proof {
        lemma_fewest(active@, uses);
    }
    let least: usize = match minimum {
        None => {
            return None;
        },
        Some(least) => least,
    };
    let keep = |w: &WorkerSpec| -> (yes: bool)
        ensures
            yes == (workers::external(*w) && table::count_of(actor_use_counts@, w.id@) == least),
    { is_external_device(w) && actor_use_counts.count(w.id.as_str()) == least };
    let few: Vec<WorkerSpec> = copies_of(active, keep, Ghost(device_used(uses, least)));
    let mut candidates: Vec<String> = ids_of(few.as_slice());
    let ghost given = candidates@;
    shuffle(&mut candidates, rng);
    proof {
        workers::lemma_those(active@, device_used(uses, least));
        let k = choose|k: int|
            0 <= k < active@.len() && workers::external(#[trigger] active@[k]) && table::count_of(
                uses,
                active@[k].id@,
            ) == least;
        assert(active@.contains(active@[k]));
        assert(few@.contains(active@[k]));
        assert(few@.len() > 0);
        draw::lemma_in_order_keeps_items(given, draw::shuffled_order(state, given.len() as int).0);
        let shuffled = draw::shuffled(workers::ids(few@), state);
        assert(text::texts(candidates@) =~= shuffled);
        let last = candidates@.last();
        assert(candidates@.contains(last));
        assert(given.contains(last));
        let g = choose|g: int| 0 <= g < given.len() && given[g] == last;
        assert(text::texts(given)[g] == workers::ids(few@)[g]);
        assert(few@.contains(few@[g]));
        assert(active@.contains(few@[g]));
        let a = choose|a: int| 0 <= a < active@.len() && active@[a] == few@[g];
        assert(active@[a].id@ == last@);
    }
    candidates.pop()
}

/// A measured worker on a device with fewer than the required number of samples.
pub open spec fn undersampled(samples: Map<Seq<char>, usize>, required: usize) -> spec_fn(
    WorkerSpec,
) -> bool {
    |w: WorkerSpec|
        w.profile_enabled && workers::external(w) && table::count_of(samples, w.id@) < required
}

/// One worker comes before another: it has fewer samples, or as many and the smaller id.
pub open spec fn sampled_before(
    samples: Map<Seq<char>, usize>,
    a: WorkerSpec,
    b: WorkerSpec,
) -> bool {
    let x = table::count_of(samples, a.id@);
    let y = table::count_of(samples, b.id@);
    x < y || (x == y && order::text_at_most(a.id@, b.id@))
}

/// The id of the measured worker on a device that has the fewest samples, if one has too few.
pub open spec fn least_sampled(
    active: Seq<WorkerSpec>,
    samples: Map<Seq<char>, usize>,
    required: usize,
    chosen: Option<Seq<char>>,
) -> bool {
    match chosen {
        Some(id) => exists|i: int|
            {
                &&& 0 <= i < active.len()
                &&& (#[trigger] active[i]).id@ == id
                &&& undersampled(samples, required)(active[i])
                &&& forall|j: int|
                    0 <= j < active.len() && undersampled(samples, required)(#[trigger] active[j])
                        ==> sampled_before(samples, active[i], active[j])
            },
        None => forall|j: int|
            0 <= j < active.len() ==> !undersampled(samples, required)(#[trigger] active[j]),
    }
}

/// The measured worker on a device that has the fewest samples, if one has too few.
pub fn least_sampled_active_external_id(
    active: &[WorkerSpec],
    success_counts: &Counts,
    required: usize,
) -> (chosen: Option<String>)
    ensures
        least_sampled(active@, success_counts@, required, text::maybe(chosen)),
{
    let ghost samples = success_counts@;
    let mut best: Option<usize> = None;
    let mut i: usize = 0;
    while i < active.len()
        invariant
            i <= active@.len(),
            samples == success_counts@,
            match best {
                Some(b) => {
                    &&& b < i
                    &&& undersampled(samples, required)(active@[b as int])
                    &&& forall|j: int|
                        0 <= j < i && undersampled(samples, required)(#[trigger] active@[j])
                            ==> sampled_before(samples, active@[b as int], active@[j])
                },
                None => forall|j: int|
                    0 <= j < i ==> !undersampled(samples, required)(#[trigger] active@[j]),
            },
        decreases active@.len() - i,
    {
        let count: usize = success_counts.count(active[i].id.as_str());
        if active[i].profile_enabled && is_external_device(&active[i]) && count < required {
            match best {
                None => {
                    proof {
                        order::lemma_text_connected(
                            active@[i as int].id@,
                            active@[i as int].id@,
                        );
                    }
                    best = Some(i);
                },
                Some(b) => {
                    let least: usize = success_counts.count(active[b].id.as_str());
                    proof {
                        order::lemma_text_connected(active@[b as int].id@, active@[i as int].id@);
                        order::lemma_text_connected(
                            active@[i as int].id@,
                            active@[i as int].id@,
                        );
                        assert forall|j: int|
                            0 <= j < i && undersampled(samples, required)(#[trigger] active@[j])
                                && sampled_before(
                                samples,
                                active@[i as int],
                                active@[b as int],
                            ) implies sampled_before(samples, active@[i as int], active@[j]) by {
                            if order::text_at_most(active@[i as int].id@, active@[b as int].id@)
                                && order::text_at_most(active@[b as int].id@, active@[j].id@) {
                                order::lemma_text_chained(
                                    active@[i as int].id@,
                                    active@[b as int].id@,
                                    active@[j].id@,
                                );
                            }
                        }
                    }
                    if count < least || (count == least && !str_at_most(
                        active[b].id.as_str(),
                        active[i].id.as_str(),
                    )) {
                        best = Some(i);
                    }
                },
            }
        }
        i = i + 1;
    }
    match best {
        Some(b) => Some(active[b].id.clone()),
        None => None,
    }
}

// ---------------------------------------------------------------------------
// Removing members
// ---------------------------------------------------------------------------

/// A worker that protection keeps in the group.
pub open spec fn protected(devices: bool, measured: bool) -> spec_fn(WorkerSpec) -> bool {
    |w: WorkerSpec| (devices && workers::external(w)) || (measured && w.profile_enabled)
}

/// The places of the members that an actor may remove: neither the actor nor a protected member.
pub open spec fn removable(
    active: Seq<WorkerSpec>,
    actor: int,
    devices: bool,
    measured: bool,
) -> Seq<usize>
    decreases active.len(),
{
    if active.len() == 0 {
        Seq::empty()
    } else {
        let at = active.len() - 1;
        let before = removable(active.drop_last(), actor, devices, measured);
        if at != actor && !protected(devices, measured)(active.last()) {
            before.push(at as usize)
        } else {
            before
        }
    }
}

/// The removable places are in range, rising, not the actor's, not protected, and all such places.
pub proof fn law_removable(active: Seq<WorkerSpec>, actor: int, devices: bool, measured: bool)
    requires
        active.len() <= usize::MAX,
    ensures
        ({
            let places = removable(active, actor, devices, measured);
            &&& places.len() <= active.len()
            &&& forall|k: int|
                0 <= k < places.len() ==> (#[trigger] places[k]) < active.len() && places[k]
                    != actor && !protected(devices, measured)(active[places[k] as int])
            &&& forall|j: int, k: int|
                0 <= j < k < places.len() ==> #[trigger] places[j] < #[trigger] places[k]
            &&& forall|i: usize|
                i < active.len() && i != actor && !protected(devices, measured)(active[i as int])
                    ==> #[trigger] places.contains(i)
        }),
    decreases active.len(),
{
    if active.len() > 0 {
        let front = active.drop_last();
        law_removable(front, actor, devices, measured);
        let before = removable(front, actor, devices, measured);
        let all = removable(active, actor, devices, measured);
        assert forall|i: usize|
            i < active.len() && i != actor && !protected(devices, measured)(
                active[i as int],
            ) implies #[trigger] all.contains(i) by {
            if i < front.len() {
                assert(front[i as int] == active[i as int]);
                assert(before.contains(i));
                let k = choose|k: int| 0 <= k < before.len() && before[k] == i;
                assert(all[k] == i);
            } else {
                assert(all[all.len() - 1] == i);
            }
        }
    }
}

/// The places of the members that an actor may remove.
pub fn removable_member_indices(
    active: &[WorkerSpec],
    actor_idx: usize,
    protect_external_members: bool,
    protect_profile_enabled_members: bool,
) -> (out: Vec<usize>)
    ensures
        out@ == removable(
            active@,
            actor_idx as int,
            protect_external_members,
            protect_profile_enabled_members,
        ),
{
    let mut out: Vec<usize> = Vec::new();
    let mut i: usize = 0;
    assert(active@.take(0) =~= Seq::<WorkerSpec>::empty());
    while i < active.len()
        invariant
            i <= active@.len(),
            out@ == removable(
                active@.take(i as int),
                actor_idx as int,
                protect_external_members,
                protect_profile_enabled_members,
            ),
        decreases active@.len() - i,
    {
        assert(active@.take(i + 1).drop_last() =~= active@.take(i as int));
        if i != actor_idx && (!protect_external_members || !is_external_device(&active[i])) && (
        !protect_profile_enabled_members || !active[i].profile_enabled) {
            out.push(i);
        }
        i = i + 1;
    }
    assert(active@.take(i as int) =~= active@);
    out
}

/// The actors, below `n`, that may remove at least `batch` members.
pub open spec fn capable(
    active: Seq<WorkerSpec>,
    n: int,
    devices: bool,
    measured: bool,
    batch: int,
) -> Seq<usize>
    decreases n,
{
    if n <= 0 {
        Seq::empty()
    } else {
        let before = capable(active, n - 1, devices, measured, batch);
        if removable(active, n - 1, devices, measured).len() >= batch {
            before.push((n - 1) as usize)
        } else {
            before
        }
    }
}

/// The largest number of members that an actor below `n` may remove.
pub open spec fn most_removable(
    active: Seq<WorkerSpec>,
    n: int,
    devices: bool,
    measured: bool,
) -> nat
    decreases n,
{
    if n <= 0 {
        0
    } else {
        let before = most_removable(active, n - 1, devices, measured);
        let here = removable(active, n - 1, devices, measured).len();
        if here > before {
            here
        } else {
            before
        }
    }
}

/// The actors among whom chance decides: those that may remove the whole batch, or else those that
/// may remove most.
pub open spec fn removal_actors(
    active: Seq<WorkerSpec>,
    devices: bool,
    measured: bool,
    batch: int,
) -> Seq<usize> {
    let n = active.len() as int;
    let able = capable(active, n, devices, measured, batch);
    if able.len() > 0 {
        able
    } else {
        capable(active, n, devices, measured, most_removable(active, n, devices, measured) as int)
    }
}

proof fn lemma_capable(
    active: Seq<WorkerSpec>,
    n: int,
    devices: bool,
    measured: bool,
    batch: int,
)
    requires
        0 <= n <= usize::MAX,
    ensures
        forall|k: int|
            0 <= k < capable(active, n, devices, measured, batch).len() ==> 0 <= (#[trigger] capable(
                active,
                n,
                devices,
                measured,
                batch,
            )[k]) < n && removable(
                active,
                capable(active, n, devices, measured, batch)[k] as int,
                devices,
                measured,
            ).len() >= batch,
        n > 0 ==> capable(
            active,
            n,
            devices,
            measured,
            most_removable(active, n, devices, measured) as int,
        ).len() > 0,
        forall|a: int|
            0 <= a < n ==> #[trigger] removable(active, a, devices, measured).len()
                <= most_removable(active, n, devices, measured),
        capable(active, n, devices, measured, batch).len() == 0 ==> forall|a: int|
            0 <= a < n ==> #[trigger] removable(active, a, devices, measured).len() < batch,
    decreases n,
{
    if n > 0 {
        lemma_capable(active, n - 1, devices, measured, batch);
        let before = most_removable(active, n - 1, devices, measured);
        lemma_capable(active, n - 1, devices, measured, before as int);
        if n > 1 && most_removable(active, n, devices, measured) == before {
            assert(capable(active, n - 1, devices, measured, before as int).len() > 0);
        }
    }
}

/// The places of the actors that may remove at least `batch` members.
fn capable_actors(
    active: &[WorkerSpec],
    protect_external_members: bool,
    protect_profile_enabled_members: bool,
    batch: usize,
) -> (out: Vec<usize>)
    ensures
        out@ == capable(
            active@,
            active@.len() as int,
            protect_external_members,
            protect_profile_enabled_members,
            batch as int,
        ),
{
    let mut out: Vec<usize> = Vec::new();
    let mut i: usize = 0;
    while i < active.len()
        invariant
            i <= active@.len(),
            out@ == capable(
                active@,
                i as int,
                protect_external_members,
                protect_profile_enabled_members,
                batch as int,
            ),
        decreases active@.len() - i,
    {
        if removable_member_indices(
            active,
            i,
            protect_external_members,
            protect_profile_enabled_members,
        ).len() >= batch {
            out.push(i);
        }
        i = i + 1;
    }
    out
}

/// The first place of a worker with a given id.
pub open spec fn first_with_id(active: Seq<WorkerSpec>, id: Seq<char>, at: int) -> bool {
    &&& 0 <= at < active.len()
    &&& active[at].id@ == id
    &&& forall|j: int| 0 <= j < at ==> (#[trigger] active[j]).id@ != id
}

/// The actor of a removal and the places of the members it may remove. A forced actor that is in
/// the group acts; otherwise chance decides among the actors that can remove most of the batch.
/// Nothing where the group is empty.
pub fn choose_remove_actor_and_removable_indices(
    active: &[WorkerSpec],
    forced_actor_id: Option<&str>,
    protect_external_members: bool,
    protect_profile_enabled_members: bool,
    requested_batch_size: usize,
    rng: &mut StdRng,
) -> (chosen: Option<(usize, Vec<usize>)>)
    ensures
        chosen is None <==> active@.len() == 0,
        chosen is Some ==> {
            &&& (chosen->0).0 < active@.len()
            &&& (chosen->0).1@ == removable(
                active@,
                (chosen->0).0 as int,
                protect_external_members,
                protect_profile_enabled_members,
            )
        },
        forced_actor_id is Some && workers::has_id(active@, forced_actor_id->0@) ==> {
            &&& chosen is Some
            &&& first_with_id(active@, forced_actor_id->0@, (chosen->0).0 as int)
            &&& draw::generator_state(*final(rng)) == draw::generator_state(*old(rng))
        },
        active@.len() == 0 ==> draw::generator_state(*final(rng)) == draw::generator_state(
            *old(rng),
        ),
        active@.len() > 0 && (forced_actor_id is None || !workers::has_id(active@, forced_actor_id->0@))
            ==> {
            let actors = removal_actors(
                active@,
                protect_external_members,
                protect_profile_enabled_members,
                requested_batch_size as int,
            );
            let state = draw::generator_state(*old(rng));
            &&& actors.len() > 0
            &&& chosen is Some
            &&& (chosen->0).0 == actors[draw::draw_at(state, 0, actors.len() - 1)]
            &&& draw::generator_state(*final(rng)) == draw::state_after_draw(
                state,
                0,
                actors.len() - 1,
            )
            &&& forall|a: int|
                0 <= a < active@.len() && (chosen->0).1@.len() < requested_batch_size ==> (
                #[trigger] removable(
                    active@,
                    a,
                    protect_external_members,
                    protect_profile_enabled_members,
                )).len() <= (chosen->0).1@.len()
        },
{
    if let Some(actor_id) = forced_actor_id {
        if let Some(actor_idx) = position_of(active, actor_id) {
            let places: Vec<usize> = removable_member_indices(
                active,
                actor_idx,
                protect_external_members,
                protect_profile_enabled_members,
            );
            return Some((actor_idx, places));
        }
    }
    if active.len() == 0 {
        return None;
    }
    let ghost n = active@.len() as int;
    let ghost devices = protect_external_members;
    let ghost measured = protect_profile_enabled_members;
    let mut actors: Vec<usize> = capable_actors(
        active,
        protect_external_members,
        protect_profile_enabled_members,
        requested_batch_size,
    );
    proof {
        lemma_capable(active@, n, devices, measured, requested_batch_size as int);
        lemma_capable(
            active@,
            n,
            devices,
            measured,
            most_removable(active@, n, devices, measured) as int,
        );
    }
    if actors.len() == 0 {
        let mut most: usize = 0;
        let mut i: usize = 0;
        while i < active.len()
            invariant
                i <= active@.len(),
                most == most_removable(
                    active@,
                    i as int,
                    protect_external_members,
                    protect_profile_enabled_members,
                ),
            decreases active@.len() - i,
        {
            let here: usize = removable_member_indices(
                active,
                i,
                protect_external_members,
                protect_profile_enabled_members,
            ).len();
            if here > most {
                most = here;
            }
            i = i + 1;
        }
        actors = capable_actors(
            active,
            protect_external_members,
            protect_profile_enabled_members,
            most,
        );
    }
    let pick: usize = draw_below(rng, actors.len());
    let actor_idx: usize = actors[pick];
    let places: Vec<usize> = removable_member_indices(
        active,
        actor_idx,
        protect_external_members,
        protect_profile_enabled_members,
    );
    Some((actor_idx, places))
}

/// How many different members protection keeps in the group.
pub fn protected_member_floor(
    all: &[WorkerSpec],
    protect_profile_enabled_members: bool,
    protect_external_members: bool,
) -> (floor: usize)
    ensures
        floor == workers::ids(
            workers::those(
                all@,
                protected(protect_external_members, protect_profile_enabled_members),
            ),
        ).to_set().len(),
{
    let ghost kept = protected(protect_external_members, protect_profile_enabled_members);
    let mut floor: IdSet = IdSet::new();
    let mut i: usize = 0;
    assert(all@.take(0) =~= Seq::<WorkerSpec>::empty());
    assert(workers::ids(workers::those(all@.take(0), kept)).to_set() =~= Set::<
        Seq<char>,
    >::empty());
    while i < all.len()
        invariant
            i <= all@.len(),
            floor.wf(),
            kept == protected(protect_external_members, protect_profile_enabled_members),
            floor@ == workers::ids(workers::those(all@.take(i as int), kept)).to_set(),
        decreases all@.len() - i,
    {
        let ghost before = workers::those(all@.take(i as int), kept);
        assert(all@.take(i + 1).drop_last() =~= all@.take(i as int));
        if (protect_external_members && is_external_device(&all[i])) || (
        protect_profile_enabled_members && all[i].profile_enabled) {
            floor.insert(all[i].id.as_str());
            proof {
                assert(workers::ids(before.push(all@[i as int])) =~= workers::ids(before).push(
                    all@[i as int].id@,
                ));
                workers::ids(before).lemma_push_to_set_commute(all@[i as int].id@);
            }
        }
        i = i + 1;
    }
    assert(all@.take(i as int) =~= all@);
    floor.len()
}

/// Chance decides among the members that can remove most of a batch: nobody else can remove more of it,
/// and each member that can remove as much of it as the best one is among them.
pub proof fn law_removal_actors(
    active: Seq<WorkerSpec>,
    devices: bool,
    measured: bool,
    batch: nat,
    i: usize,
    j: usize,
)
    requires
        active.len() <= usize::MAX,
        i < active.len(),
        j < active.len(),
        removal_actors(active, devices, measured, batch as int).contains(i),
    ensures
        ({
            let can = |k: usize|
                {
                    let all = removable(active, k as int, devices, measured).len();
                    if all < batch {
                        all
                    } else {
                        batch
                    }
                };
            &&& can(j) <= can(i)
            &&& can(j) == can(i) ==> removal_actors(
                active,
                devices,
                measured,
                batch as int,
            ).contains(j)
        }),
{
    let n = active.len() as int;
    let most = most_removable(active, n, devices, measured);
    lemma_capable_places(active, n, devices, measured, batch as int);
    lemma_capable_places(active, n, devices, measured, most as int);
    lemma_most(active, n, devices, measured, i as int);
    lemma_most(active, n, devices, measured, j as int);
    let able = capable(active, n, devices, measured, batch as int);
    if able.len() == 0 {
        if removable(active, i as int, devices, measured).len() >= batch {
            assert(able.contains(i));
        }
        if removable(active, j as int, devices, measured).len() >= batch {
            assert(able.contains(j));
        }
    }
}

proof fn lemma_capable_places(
    active: Seq<WorkerSpec>,
    n: int,
    devices: bool,
    measured: bool,
    batch: int,
)
    requires
        n <= usize::MAX,
    ensures
        forall|k: usize| #[trigger]
            capable(active, n, devices, measured, batch).contains(k) <==> k < n && removable(
                active,
                k as int,
                devices,
                measured,
            ).len() >= batch,
    decreases n,
{
    if n > 0 {
        lemma_capable_places(active, n - 1, devices, measured, batch);
        let before = capable(active, n - 1, devices, measured, batch);
        let all = capable(active, n, devices, measured, batch);
        assert forall|k: usize| #[trigger] all.contains(k) <==> k < n && removable(
            active,
            k as int,
            devices,
            measured,
        ).len() >= batch by {
            if all.contains(k) {
                let at = choose|at: int| 0 <= at < all.len() && all[at] == k;
                if at < before.len() {
                    assert(before[at] == k);
                    assert(before.contains(k));
                }
            }
            if k < n && removable(active, k as int, devices, measured).len() >= batch {
                if k < n - 1 {
                    assert(before.contains(k));
                    let at = choose|at: int| 0 <= at < before.len() && before[at] == k;
                    assert(all[at] == k);
                } else {
                    assert(all.last() == k);
                }
            }
        }
    }
}

proof fn lemma_most(active: Seq<WorkerSpec>, n: int, devices: bool, measured: bool, k: int)
    requires
        0 <= k < n,
    ensures
        removable(active, k, devices, measured).len() <= most_removable(
            active,
            n,
            devices,
            measured,
        ),
    decreases n,
{
    if k < n - 1 {
        lemma_most(active, n - 1, devices, measured, k);
    }
}

/// The devices among which chance decides are those that were used least.
pub proof fn law_least_used(active: Seq<WorkerSpec>, uses: Map<Seq<char>, usize>, w: WorkerSpec)
    ensures
        least_used(active, uses).contains(w) <==> active.contains(w) && workers::external(w)
            && forall|i: int|
            0 <= i < active.len() && workers::external(#[trigger] active[i]) ==> table::count_of(
                uses,
                w.id@,
            ) <= table::count_of(uses, active[i].id@),
{
    lemma_fewest(active, uses);
    if let Some(fewest) = fewest_uses(active, uses) {
        workers::lemma_those(active, device_used(uses, fewest));
    }
}

} // verus!
