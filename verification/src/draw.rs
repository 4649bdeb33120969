//! Random choices: a seeded generator whose draws are determined by its seed, and the unseeded
//! draw that spreads retries.

use rand::rngs::StdRng;
use rand::seq::SliceRandom;
use rand::{Rng, SeedableRng};
use vstd::prelude::*;

verus! {

/// `rand`'s standard generator. Its state is known here only by the name `generator_state`.
#[verifier::external_type_specification]
#[verifier::external_body]
pub struct ExStdRng(StdRng);

/// The state of a generator, as one number.
pub uninterp spec fn generator_state(rng: StdRng) -> int;

/// The state of a generator that was just seeded.
pub uninterp spec fn seeded_state(seed: u64) -> int;

/// The number drawn between two bounds in a given state, on a machine with words of `word_bits`
/// bits, and the state after it.
pub uninterp spec fn drawn_between(state: int, low: int, high: int, word_bits: int) -> (int, int);

/// The order in which shuffling a list of `len` items in a given state puts them, each item named
/// by its place before, and the state after it.
pub uninterp spec fn shuffled_order(state: int, len: int) -> (Seq<int>, int);

/// What is drawn between two bounds in a given state, on this machine.
pub open spec fn draw_at(state: int, low: int, high: int) -> int {
    drawn_between(state, low, high, usize::BITS as int).0
}

/// The state after a draw between two bounds.
pub open spec fn state_after_draw(state: int, low: int, high: int) -> int {
    drawn_between(state, low, high, usize::BITS as int).1
}

/// Each place below `len`, once.
pub open spec fn is_order_of(order: Seq<int>, len: int) -> bool {
    &&& order.len() == len
    &&& order.no_duplicates()
    &&& forall|i: int| 0 <= i < len ==> 0 <= #[trigger] order[i] < len
}

/// The items of a list, taken in a given order.
pub open spec fn in_order<T>(items: Seq<T>, order: Seq<int>) -> Seq<T> {
    Seq::new(order.len(), |i: int| items[order[i]])
}

/// The items of a list in the order in which shuffling puts them.
pub open spec fn shuffled<T>(items: Seq<T>, state: int) -> Seq<T> {
    in_order(items, shuffled_order(state, items.len() as int).0)
}

/// The state after shuffling a list of `len` items.
pub open spec fn state_after_shuffle(state: int, len: int) -> int {
    shuffled_order(state, len).1
}

/// `StdRng::seed_from_u64`: the state of the generator that it gives is a function of the seed.
#[verifier::external_body]
pub(crate) fn seeded(seed: u64) -> (rng: StdRng)
    ensures
        generator_state(rng) == seeded_state(seed),
{
    StdRng::seed_from_u64(seed)
}

/// `Rng::gen_range` on an inclusive range: a number of the range. Which one, and the state after
/// it, is a function of the state before, of the bounds and of the width of the machine's words.
#[verifier::external_body]
pub(crate) fn draw_between(rng: &mut StdRng, low: usize, high: usize) -> (drawn: usize)
    requires
        low <= high,
    ensures
        low <= drawn <= high,
        (drawn as int, generator_state(*final(rng))) == drawn_between(
            generator_state(*old(rng)),
            low as int,
            high as int,
            usize::BITS as int,
        ),
{
    rng.gen_range(low..=high)
}

/// `SliceRandom::shuffle`: each item stays, in an order that is a function of the generator's
/// state and of how many items there are.
#[verifier::external_body]
pub(crate) fn shuffle<T>(items: &mut Vec<T>, rng: &mut StdRng)
    ensures
        final(items)@.len() == old(items)@.len(),
        final(items)@ == shuffled(old(items)@, generator_state(*old(rng))),
        is_order_of(
            shuffled_order(generator_state(*old(rng)), final(items)@.len() as int).0,
            final(items)@.len() as int,
        ),
        generator_state(*final(rng)) == state_after_shuffle(
            generator_state(*old(rng)),
            old(items)@.len() as int,
        ),
{
    items.shuffle(rng)
}

/// `Rng::gen_range` on `rand`'s thread-local generator, which is seeded by chance: a number of the
/// range, and nothing is known of which one.
#[verifier::external_body]
pub(crate) fn draw_unseeded(high: u64) -> (drawn: u64)
    ensures
        drawn <= high,
{
    rand::thread_rng().gen_range(0..=high)
}

/// A number below `bound`.
pub(crate) fn draw_below(rng: &mut StdRng, bound: usize) -> (drawn: usize)
    requires
        bound > 0,
    ensures
        drawn < bound,
        drawn == draw_at(generator_state(*old(rng)), 0, bound - 1),
        generator_state(*final(rng)) == state_after_draw(
            generator_state(*old(rng)),
            0,
            bound - 1,
        ),
{
    draw_between(rng, 0, bound - 1)
}

/// Shuffling a list keeps each of its items.
pub proof fn lemma_in_order_keeps_items<T>(items: Seq<T>, order: Seq<int>)
    requires
        is_order_of(order, items.len() as int),
    ensures
        in_order(items, order).len() == items.len(),
        in_order(items, order).to_multiset() == items.to_multiset(),
        forall|x: T| in_order(items, order).contains(x) <==> items.contains(x),
        items.no_duplicates() ==> in_order(items, order).no_duplicates(),
{
    lemma_order_is_onto(order, items.len() as int);
    assert forall|x: T| items.contains(x) implies in_order(items, order).contains(x) by {
        let at = choose|at: int| 0 <= at < items.len() && items[at] == x;
        assert(order.contains(at));
        let k = choose|k: int| 0 <= k < order.len() && order[k] == at;
        assert(in_order(items, order)[k] == x);
    }
    assert forall|x: T| in_order(items, order).contains(x) implies items.contains(x) by {
        let k = choose|k: int| 0 <= k < order.len() && in_order(items, order)[k] == x;
        assert(items[order[k]] == x);
    }
    lemma_in_order_multiset(items, order);
}

proof fn lemma_order_is_onto(order: Seq<int>, len: int)
    requires
        is_order_of(order, len),
    ensures
        forall|at: int| 0 <= at < len ==> #[trigger] order.contains(at),
{
    order.unique_seq_to_set();
    let all = vstd::set_lib::set_int_range(0, len);
    vstd::set_lib::lemma_int_range(0, len);
    assert(order.to_set().subset_of(all));
    vstd::set_lib::lemma_set_subset_finite(all, order.to_set());
    vstd::set_lib::lemma_subset_equality(order.to_set(), all);
    assert forall|at: int| 0 <= at < len implies #[trigger] order.contains(at) by {
        assert(all.contains(at));
        assert(order.to_set().contains(at));
    }
}

proof fn lemma_in_order_multiset<T>(items: Seq<T>, order: Seq<int>)
    requires
        is_order_of(order, items.len() as int),
    ensures
        in_order(items, order).to_multiset() == items.to_multiset(),
    decreases items.len(),
{
    broadcast use vstd::seq_lib::group_to_multiset_ensures;

    let there = in_order(items, order);
    if items.len() > 0 {
        let last = items.len() - 1;
        lemma_order_is_onto(order, items.len() as int);
        assert(order.contains(last));
        let k = choose|k: int| 0 <= k < order.len() && order[k] == last;
        let rest = order.remove(k);
        assert(is_order_of(rest, last)) by {
            assert forall|i: int| 0 <= i < last implies 0 <= #[trigger] rest[i] < last by {
                let from = if i < k { i } else { i + 1 };
                assert(rest[i] == order[from]);
                assert(order[from] != order[k]);
            }
        }
        lemma_in_order_multiset(items.drop_last(), rest);
        assert(in_order(items.drop_last(), rest) =~= there.remove(k));
        assert(there.remove(k).to_multiset() == there.to_multiset().remove(there[k]));
        assert(items =~= items.drop_last().push(items[last]));
        assert(there.to_multiset().contains(there[k])) by {
            there.to_multiset_ensures();
            assert(there.contains(there[k]));
        }
        assert(items.to_multiset() =~= items.drop_last().to_multiset().insert(items[last]));
        assert(there.to_multiset() =~= there.to_multiset().remove(there[k]).insert(there[k]));
    } else {
        assert(there =~= items);
    }
}

} // verus!
