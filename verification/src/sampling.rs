//! Which members act and which receivers of a commit are measured.

use vstd::arithmetic::div_mod::{
    lemma_div_is_ordered, lemma_div_multiples_vanish, lemma_hoist_over_denominator,
    lemma_mod_bound, lemma_small_mod,
};
use vstd::prelude::*;

use crate::lcg;
use crate::lcg::next_state;
use crate::order;
use crate::order::sort_indices;
use crate::table::{Counts, IdSet};
use crate::workers;
use crate::workers::{is_external_device, WorkerSpec};

verus! {

// ---------------------------------------------------------------------------
// Acting members
// ---------------------------------------------------------------------------

/// The member that acts at a given turn: every member in turn where there are enough turns,
/// otherwise the right edge of each of `samples` equal buckets.
pub open spec fn member_at(members: int, samples: int, turn: int) -> int {
    if samples >= members {
        turn % members
    } else {
        ((turn % samples) + 1) * members / samples - 1
    }
}

proof fn lemma_bucket_edge(members: int, samples: int, turn: int)
    requires
        0 < samples < members,
        0 <= turn < samples,
    ensures
        turn + 1 <= (turn + 1) * members / samples <= members,
        turn + 1 == samples ==> (turn + 1) * members / samples == members,
{
    let p = (turn + 1) * members;
    assert((turn + 1) * samples <= p <= samples * members) by (nonlinear_arith)
        requires
            0 < samples < members,
            0 <= turn < samples,
            p == (turn + 1) * members,
    ;
    lemma_div_multiples_vanish(turn + 1, samples);
    assert(samples * (turn + 1) == (turn + 1) * samples) by (nonlinear_arith);
    lemma_div_is_ordered((turn + 1) * samples, p, samples);
    lemma_div_multiples_vanish(members, samples);
    lemma_div_is_ordered(p, samples * members, samples);
}

/// Acting members are members; in one round of buckets each turn has another member further on,
/// and the last turn has the last member.
pub proof fn law_sampled_members(members: int, samples: int, turn: int, later: int)
    requires
        members > 0,
        samples > 0,
        0 <= turn < later,
    ensures
        0 <= member_at(members, samples, turn) < members,
        samples < members && later < samples ==> member_at(members, samples, turn) < member_at(
            members,
            samples,
            later,
        ),
        samples < members && later % samples == samples - 1 ==> member_at(members, samples, later)
            == members - 1,
        samples >= members && later < members ==> member_at(members, samples, later) == later,
{
    if samples < members {
        lemma_mod_bound(turn, samples);
        lemma_mod_bound(later, samples);
        lemma_bucket_edge(members, samples, turn % samples);
        lemma_bucket_edge(members, samples, later % samples);
        if later < samples {
            lemma_small_mod(turn as nat, samples as nat);
            lemma_small_mod(later as nat, samples as nat);
            let a = (turn + 1) * members;
            let b = (later + 1) * members;
            assert(a + samples <= b) by (nonlinear_arith)
                requires
                    samples < members,
                    turn + 1 <= later,
                    0 < members,
                    a == (turn + 1) * members,
                    b == (later + 1) * members,
            ;
            lemma_hoist_over_denominator(a, 1, samples as nat);
            lemma_div_is_ordered(a + samples, b, samples);
            assert(1 * samples == samples);
            assert((a + 1 * samples) / samples == a / samples + 1);
        }
    } else {
        lemma_mod_bound(turn, members);
        if later < members {
            lemma_small_mod(later as nat, members as nat);
        }
    }
}

/// The place of the member that acts at a given turn.
pub fn sampled_member_index(member_count: usize, sample_count: usize, seq_no: usize) -> (index:
    usize)
    requires
        member_count > 0,
        sample_count > 0,
    ensures
        index < member_count,
        index == member_at(member_count as int, sample_count as int, seq_no as int),
{
    if sample_count >= member_count {
        return seq_no % member_count;
    }
    let sample_no: usize = seq_no % sample_count;
    proof {
        lemma_bucket_edge(member_count as int, sample_count as int, sample_no as int);
        assert((sample_no + 1) * member_count <= u64::MAX * u64::MAX) by (nonlinear_arith)
            requires
                sample_no + 1 <= u64::MAX,
                member_count <= u64::MAX,
                0 <= sample_no,
                0 <= member_count,
        ;
    }
    let edge: u128 = (sample_no + 1) as u128 * member_count as u128 / sample_count as u128;
    edge as usize - 1
}

// ---------------------------------------------------------------------------
// Measured receivers of a commit
// ---------------------------------------------------------------------------

/// The first, the last and the middle one of `n` receivers.
pub open spec fn edges_and_middle(n: usize) -> Seq<usize> {
    if n <= 1 {
        seq![0]
    } else if n == 2 {
        seq![0, 1]
    } else {
        seq![0, (n - 1) as usize, n / 2]
    }
}

/// The receiver that a state of the generator stands for.
pub open spec fn index_of(state: u64, n: usize) -> usize {
    (state as usize) % n
}

/// `chosen` and the receivers that the next states stand for, none of them twice.
pub open spec fn with_draws(chosen: Seq<usize>, state: u64, n: usize, draws: nat) -> Seq<usize>
    decreases draws,
{
    if draws == 0 {
        chosen
    } else {
        let before = with_draws(chosen, state, n, (draws - 1) as nat);
        let index = index_of(lcg::after(state, draws), n);
        if before.contains(index) {
            before
        } else {
            before.push(index)
        }
    }
}

/// The number of draws after which there are enough receivers for the first time.
pub open spec fn enough_after(chosen: Seq<usize>, state: u64, n: usize, wanted: usize, draws: nat) -> bool {
    &&& with_draws(chosen, state, n, draws).len() >= wanted
    &&& draws > 0 ==> with_draws(chosen, state, n, (draws - 1) as nat).len() < wanted
}

/// The state from which the draws start.
pub open spec fn first_state(seed: u64, plateau_size: usize, epoch: u64, seq_no: usize) -> u64 {
    seed ^ ((plateau_size as u64) << 32) ^ epoch ^ ((seq_no as u64).wrapping_mul(
        0x9E37_79B9_7F4A_7C15,
    ))
}

/// The receivers that are measured, in their order: all where there are not more than wanted,
/// otherwise the edges, the middle, and drawn ones until there are enough.
pub open spec fn sample_indices(n: usize, wanted: usize, state: u64) -> Seq<usize> {
    if n == 0 || wanted == 0 {
        Seq::empty()
    } else if n <= wanted {
        Seq::new(n as nat, |i: int| i as usize)
    } else {
        let draws = choose|draws: nat|
            enough_after(edges_and_middle(n), state, n, wanted, draws);
        order::rising_indices(with_draws(edges_and_middle(n), state, n, draws))
    }
}

proof fn lemma_draws_keep(chosen: Seq<usize>, state: u64, n: usize, few: nat, many: nat)
    requires
        few <= many,
    ensures
        with_draws(chosen, state, n, few).len() <= with_draws(chosen, state, n, many).len(),
    decreases many,
{
    if few < many {
        lemma_draws_keep(chosen, state, n, few, (many - 1) as nat);
    }
}

proof fn lemma_some_index_is_missing(chosen: Seq<usize>, n: usize) -> (missing: usize)
    requires
        chosen.len() < n,
    ensures
        missing < n,
        !chosen.contains(missing),
{
    let all = vstd::set_lib::set_int_range(0, n as int);
    vstd::set_lib::lemma_int_range(0, n as int);
    let taken = chosen.map_values(|i: usize| i as int);
    taken.lemma_cardinality_of_set();
    if all.subset_of(taken.to_set()) {
        vstd::seq_lib::seq_to_set_is_finite(taken);
        vstd::set_lib::lemma_len_subset(all, taken.to_set());
    }
    let missing = choose|i: int| all.contains(i) && !taken.to_set().contains(i);
    assert forall|k: int| 0 <= k < chosen.len() implies chosen[k] != missing by {
        assert(taken[k] == chosen[k]);
        assert(taken.contains(taken[k]));
    }
    missing as usize
}

fn holds(list: &Vec<usize>, value: usize) -> (yes: bool)
    ensures
        yes == list@.contains(value),
{
    let mut i: usize = 0;
    while i < list.len()
        invariant
            i <= list@.len(),
            forall|j: int| 0 <= j < i ==> list@[j] != value,
        decreases list@.len() - i,
    {
        if list[i] == value {
            assert(list@.contains(list@[i as int]));
            return true;
        }
        i = i + 1;
    }
    false
}

/// Indices below `n`, each larger than the one before.
pub open spec fn rising_below(indices: Seq<usize>, n: usize) -> bool {
    &&& forall|i: int| 0 <= i < indices.len() ==> (#[trigger] indices[i]) < n
    &&& forall|i: int, j: int|
        0 <= i < j < indices.len() ==> #[trigger] indices[i] < #[trigger] indices[j]
}

/// Draws the receivers that are missing.
fn draw_receivers(n: usize, wanted: usize, state: u64) -> (chosen: Vec<usize>)
    requires
        0 < wanted < n,
    ensures
        exists|draws: nat| #[trigger]
            enough_after(edges_and_middle(n), state, n, wanted, draws) && chosen@ == with_draws(
                edges_and_middle(n),
                state,
                n,
                draws,
            ),
        chosen@.no_duplicates(),
        forall|i: int| 0 <= i < chosen@.len() ==> (#[trigger] chosen@[i]) < n,
        forall|x: usize| edges_and_middle(n).contains(x) ==> #[trigger] chosen@.contains(x),
        chosen@.len() == (if edges_and_middle(n).len() > wanted {
            edges_and_middle(n).len()
        } else {
            wanted as nat
        }),
{
    let mut chosen: Vec<usize> = Vec::new();
    chosen.push(0);
    if n > 1 {
        chosen.push(n - 1);
    }
    if n > 2 {
        chosen.push(n / 2);
    }
    let ghost edges = edges_and_middle(n);
    assert(chosen@ =~= edges);
    let mut current: u64 = state;
    let ghost mut draws: nat = 0;
    let ghost mut left: nat = 0;
    proof {
        if chosen@.len() < wanted {
            let missing = lemma_some_index_is_missing(chosen@, n);
            left = lcg::law_every_state_is_reached(current, missing as u64);
            lemma_small_mod(missing as nat, n as nat);
        }
    }
    while chosen.len() < wanted
        invariant
            0 < wanted < n,
            edges == edges_and_middle(n),
            chosen@ == with_draws(edges, state, n, draws),
            current == lcg::after(state, draws),
            draws > 0 ==> with_draws(edges, state, n, (draws - 1) as nat).len() < wanted,
            chosen@.no_duplicates(),
            forall|i: int| 0 <= i < chosen@.len() ==> (#[trigger] chosen@[i]) < n,
            forall|x: usize| edges.contains(x) ==> #[trigger] chosen@.contains(x),
            draws == 0 ==> chosen@.len() == edges.len(),
            draws > 0 ==> chosen@.len() <= wanted && edges.len() < wanted,
            chosen@.len() < wanted ==> left > 0 && !chosen@.contains(
                index_of(lcg::after(current, left), n),
            ),
        decreases wanted - chosen@.len(), left,
    {
        let ghost before = chosen@;
        let ghost last = current;
        proof {
            lcg::lemma_first_step_apart(last, left);
        }
        current = next_state(current);
        let index: usize = (current as usize) % n;
        proof {
            draws = draws + 1;
            left = (left - 1) as nat;
        }
        if !holds(&chosen, index) {
            chosen.push(index);
            proof {
                assert forall|x: usize| edges.contains(x) implies #[trigger] chosen@.contains(x) by {
                    assert(before.contains(x));
                    let k = choose|k: int| 0 <= k < before.len() && before[k] == x;
                    assert(chosen@[k] == x);
                }
                if chosen@.len() < wanted {
                    let missing = lemma_some_index_is_missing(chosen@, n);
                    left = lcg::law_every_state_is_reached(current, missing as u64);
                    lemma_small_mod(missing as nat, n as nat);
                }
            }
        }
    }
    assert(enough_after(edges, state, n, wanted, draws));
    chosen
}

/// The places of the receivers whose handling of a commit is measured.
pub fn deterministic_commit_receive_sample_indices(
    recipient_count: usize,
    max_samples: usize,
    seed: u64,
    plateau_size: usize,
    epoch: u64,
    seq_no: usize,
) -> (indices: Vec<usize>)
    ensures
        indices@ == sample_indices(
            recipient_count,
            max_samples,
            first_state(seed, plateau_size, epoch, seq_no),
        ),
        rising_below(indices@, recipient_count),
        0 < recipient_count <= max_samples ==> indices@.len() == recipient_count,
        0 < max_samples < recipient_count ==> {
            &&& forall|x: usize|
                edges_and_middle(recipient_count).contains(x) ==> #[trigger] indices@.contains(x)
            &&& indices@.len() == (if edges_and_middle(recipient_count).len() > max_samples {
                edges_and_middle(recipient_count).len()
            } else {
                max_samples as nat
            })
        },
{
    if recipient_count == 0 || max_samples == 0 {
        return Vec::new();
    }
    if recipient_count <= max_samples {
        let mut all: Vec<usize> = Vec::new();
        let mut i: usize = 0;
        while i < recipient_count
            invariant
                i <= recipient_count,
                all@.len() == i,
                forall|j: int| 0 <= j < i ==> all@[j] == j,
            decreases recipient_count - i,
        {
            all.push(i);
            i = i + 1;
        }
        assert(all@ =~= Seq::new(recipient_count as nat, |i: int| i as usize));
        return all;
    }
    let state: u64 = seed ^ ((plateau_size as u64) << 32u64) ^ epoch ^ ((
    seq_no as u64).wrapping_mul(0x9E37_79B9_7F4A_7C15));
    let chosen: Vec<usize> = draw_receivers(recipient_count, max_samples, state);
    let ghost edges = edges_and_middle(recipient_count);
    let sorted: Vec<usize> = sort_indices(&chosen);
    proof {
        let n = recipient_count;
        let draws = choose|draws: nat| #[trigger]
            enough_after(edges, state, n, max_samples, draws) && chosen@ == with_draws(
                edges,
                state,
                n,
                draws,
            );
        let named = choose|draws: nat| enough_after(edges, state, n, max_samples, draws);
        assert(enough_after(edges, state, n, max_samples, named));
        if draws < named {
            lemma_draws_keep(edges, state, n, draws, (named - 1) as nat);
        } else if named < draws {
            lemma_draws_keep(edges, state, n, named, (draws - 1) as nat);
        }
        lemma_sorted_distinct(chosen@, sorted@);
        assert forall|i: int| 0 <= i < sorted@.len() implies (#[trigger] sorted@[i]) < n by {
            assert(sorted@.contains(sorted@[i]));
            assert(chosen@.contains(sorted@[i]));
        }
    }
    sorted
}

/// Sorting keeps the values, and where none occurs twice each is larger than the one before.
proof fn lemma_sorted_distinct(list: Seq<usize>, sorted: Seq<usize>)
    requires
        sorted.to_multiset() == list.to_multiset(),
        sorted.len() == list.len(),
        forall|i: int, j: int| 0 <= i < j < sorted.len() ==> #[trigger] sorted[i] <= #[trigger] sorted[j],
    ensures
        forall|x: usize| #[trigger] sorted.contains(x) <==> list.contains(x),
        list.no_duplicates() ==> forall|i: int, j: int|
            0 <= i < j < sorted.len() ==> #[trigger] sorted[i] < #[trigger] sorted[j],
{
    broadcast use vstd::seq_lib::group_to_multiset_ensures;

    assert forall|x: usize| #[trigger] sorted.contains(x) <==> list.contains(x) by {
        assert(sorted.contains(x) <==> sorted.to_multiset().count(x) > 0);
        assert(list.contains(x) <==> list.to_multiset().count(x) > 0);
    }
    if list.no_duplicates() {
        list.lemma_multiset_has_no_duplicates();
        assert forall|i: int, j: int| 0 <= i < j < sorted.len() implies #[trigger] sorted[i]
            < #[trigger] sorted[j] by {
            if sorted[i] == sorted[j] {
                lemma_twice_counts(sorted, i, j);
                assert(sorted.to_multiset().contains(sorted[i]));
            }
        }
    }
}

proof fn lemma_twice_counts(list: Seq<usize>, i: int, j: int)
    requires
        0 <= i < j < list.len(),
        list[i] == list[j],
    ensures
        list.to_multiset().count(list[i]) >= 2,
{
    broadcast use vstd::seq_lib::group_to_multiset_ensures;

    let rest = list.remove(j);
    assert(rest[i] == list[i]);
    assert(rest.contains(list[i]));
    assert(rest.to_multiset().count(list[i]) > 0);
    assert(rest.to_multiset() == list.to_multiset().remove(list[j]));
}

// ---------------------------------------------------------------------------
// Measured receivers by id
// ---------------------------------------------------------------------------

/// The measured devices among the first `upto` receivers that `chosen` lacks, behind `chosen`.
pub open spec fn with_devices(
    chosen: Seq<usize>,
    recipients: Seq<WorkerSpec>,
    upto: int,
) -> Seq<usize>
    decreases upto,
{
    if upto <= 0 {
        chosen
    } else {
        let before = with_devices(chosen, recipients, upto - 1);
        let index = (upto - 1) as usize;
        if workers::profiled_external()(recipients[upto - 1]) && !before.contains(index) {
            before.push(index)
        } else {
            before
        }
    }
}

/// The receivers that are measured, in their order: the sample and every measured device.
pub open spec fn measured_indices(recipients: Seq<WorkerSpec>, wanted: usize, state: u64) -> Seq<
    usize,
> {
    order::rising_indices(
        with_devices(
            sample_indices(recipients.len() as usize, wanted, state),
            recipients,
            recipients.len() as int,
        ),
    )
}

/// The ids at some places.
pub open spec fn ids_at(recipients: Seq<WorkerSpec>, indices: Seq<usize>) -> Seq<Seq<char>> {
    indices.map_values(|i: usize| recipients[i as int].id@)
}

/// The place of each id in a list, the last one where an id occurs twice.
pub open spec fn numbered(names: Seq<Seq<char>>) -> Map<Seq<char>, usize>
    decreases names.len(),
{
    if names.len() == 0 {
        Map::empty()
    } else {
        numbered(names.drop_last()).insert(names.last(), (names.len() - 1) as usize)
    }
}

/// The receivers whose handling of a commit is measured: their ids, the number of each in the
/// sample, and how many ids there are.
pub fn build_commit_receive_sampling_map(
    recipients: &[WorkerSpec],
    max_samples: usize,
    seed: u64,
    plateau_size: usize,
    epoch: u64,
    seq_no: usize,
) -> (sample: (IdSet, Counts, usize))
    ensures
        ({
            let state = first_state(seed, plateau_size, epoch, seq_no);
            let names = ids_at(
                recipients@,
                measured_indices(recipients@, max_samples, state),
            );
            &&& sample.0@ == names.to_set()
            &&& sample.1@ == numbered(names)
            &&& sample.2 == names.to_set().len()
        }),
        sample.0.wf(),
        forall|i: int|
            0 <= i < recipients@.len() && workers::profiled_external()(#[trigger] recipients@[i])
                ==> sample.0@.contains(recipients@[i].id@),
{
    let mut indices: Vec<usize> = deterministic_commit_receive_sample_indices(
        recipients.len(),
        max_samples,
        seed,
        plateau_size,
        epoch,
        seq_no,
    );
    let ghost chosen = indices@;
    let mut i: usize = 0;
    while i < recipients.len()
        invariant
            i <= recipients@.len(),
            indices@ == with_devices(chosen, recipients@, i as int),
            forall|k: int| 0 <= k < indices@.len() ==> (#[trigger] indices@[k]) < recipients@.len(),
            forall|j: int|
                0 <= j < i && workers::profiled_external()(#[trigger] recipients@[j])
                    ==> indices@.contains(j as usize),
        decreases recipients@.len() - i,
    {
        let ghost before = indices@;
        if recipients[i].profile_enabled && is_external_device(&recipients[i]) && !holds(
            &indices,
            i,
        ) {
            indices.push(i);
            assert(indices@[before.len() as int] == i);
            assert forall|x: usize| before.contains(x) implies indices@.contains(x) by {
                let k = choose|k: int| 0 <= k < before.len() && before[k] == x;
                assert(indices@[k] == x);
            }
        }
        i = i + 1;
    }
    let sorted: Vec<usize> = sort_indices(&indices);
    proof {
        lemma_sorted_distinct(indices@, sorted@);
        assert forall|k: int| 0 <= k < sorted@.len() implies (#[trigger] sorted@[k])
            < recipients@.len() by {
            assert(sorted@.contains(sorted@[k]));
        }
    }
    let ghost names = ids_at(recipients@, sorted@);
    let mut sampled_ids: IdSet = IdSet::new();
    let mut index_map: Counts = Counts::new();
    let mut k: usize = 0;
    assert(names.take(0) =~= Seq::<Seq<char>>::empty());
    assert(names.take(0).to_set() =~= Set::<Seq<char>>::empty());
    while k < sorted.len()
        invariant
            k <= sorted@.len(),
            names == ids_at(recipients@, sorted@),
            forall|k: int| 0 <= k < sorted@.len() ==> (#[trigger] sorted@[k]) < recipients@.len(),
            sampled_ids.wf(),
            sampled_ids@ == names.take(k as int).to_set(),
            index_map@ == numbered(names.take(k as int)),
        decreases sorted@.len() - k,
    {
        proof {
            assert(names.take(k + 1).drop_last() =~= names.take(k as int));
            assert(names.take(k + 1) =~= names.take(k as int).push(names[k as int]));
            names.take(k as int).lemma_push_to_set_commute(names[k as int]);
        }
        let id: &str = recipients[sorted[k]].id.as_str();
        sampled_ids.insert(id);
        index_map.put(id, k);
        k = k + 1;
    }
    proof {
        assert(names.take(k as int) =~= names);
        assert forall|j: int|
            0 <= j < recipients@.len() && workers::profiled_external()(
                #[trigger] recipients@[j],
            ) implies sampled_ids@.contains(recipients@[j].id@) by {
            assert(indices@.contains(j as usize));
            assert(sorted@.contains(j as usize));
            let at = choose|at: int| 0 <= at < sorted@.len() && sorted@[at] == j as usize;
            assert(names[at] == recipients@[j].id@);
        }
    }
    let sample_count: usize = sampled_ids.len();
    (sampled_ids, index_map, sample_count)
}

/// Members come by turns: two turns that are less than a round apart, or any two where there are no
/// more turns than members, belong to different members.
pub proof fn law_members_by_turns(members: int, samples: int, a: int, b: int)
    requires
        0 < members,
        0 <= a < b < samples,
        b - a < members || samples <= members,
    ensures
        0 <= member_at(members, samples, a) < members,
        0 <= member_at(members, samples, b) < members,
        member_at(members, samples, a) != member_at(members, samples, b),
{
    law_sampled_members(members, samples, a, b);
    law_sampled_members(members, samples, b, b + 1);
    if samples >= members {
        lemma_turns_differ(a, b, members);
    }
}

/// Turns that are less than a round apart differ.
proof fn lemma_turns_differ(a: int, b: int, n: int)
    requires
        0 <= a < b,
        b - a < n,
    ensures
        a % n != b % n,
{
    vstd::arithmetic::div_mod::lemma_fundamental_div_mod(a, n);
    vstd::arithmetic::div_mod::lemma_fundamental_div_mod(b, n);
    let q = a / n;
    let r = b / n;
    if a % n == b % n {
        assert(b - a == n * (r - q)) by (nonlinear_arith)
            requires
                a == n * q + a % n,
                b == n * r + b % n,
                a % n == b % n,
        ;
        assert(false) by (nonlinear_arith)
            requires
                b - a == n * (r - q),
                0 < b - a < n,
        ;
    }
}

/// The first receiver, the last one and the middle one are always among those that are measured, where
/// any are.
pub proof fn law_edges_and_middle(n: usize)
    requires
        n > 0,
    ensures
        edges_and_middle(n).contains(0),
        edges_and_middle(n).contains((n - 1) as usize),
        edges_and_middle(n).contains(n / 2),
        edges_and_middle(n).len() <= 3,
        edges_and_middle(n).no_duplicates(),
{
    let all = edges_and_middle(n);
    assert(all[0] == 0);
    if n == 2 {
        assert(all[1] == 1);
    } else if n > 2 {
        assert(all[1] == (n - 1) as usize);
        assert(all[2] == n / 2);
    }
}

} // verus!
