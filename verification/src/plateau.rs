//! The sequence of group sizes that a run visits.

use rand::rngs::StdRng;
use vstd::prelude::*;

use crate::draw;
use crate::draw::shuffle;
use crate::flags::{PlateauOrder, StepSize};

verus! {

// ---------------------------------------------------------------------------
// Sequences of sizes
// ---------------------------------------------------------------------------

/// `sizes` and then `size`, unless it ends with that size already.
pub open spec fn push_new(sizes: Seq<usize>, size: usize) -> Seq<usize> {
    if sizes.len() > 0 && sizes.last() == size {
        sizes
    } else {
        sizes.push(size)
    }
}

/// `sizes` and then each of `more` that differs from the one before it.
pub open spec fn push_all_new(sizes: Seq<usize>, more: Seq<usize>) -> Seq<usize>
    decreases more.len(),
{
    if more.len() == 0 {
        sizes
    } else {
        push_new(push_all_new(sizes, more.drop_last()), more.last())
    }
}

/// The size one step above `current`, but not above `max`.
pub open spec fn step_up(current: usize, step: int, max: usize) -> usize {
    if current + step <= max {
        (current + step) as usize
    } else {
        max
    }
}

/// The size one step below `current`, but not below `min`.
pub open spec fn step_down(current: usize, step: int, min: usize) -> usize {
    if current - step >= min {
        (current - step) as usize
    } else {
        min
    }
}

/// `current` and the sizes above it in equal steps, the last one `max`.
pub open spec fn ladder(current: usize, max: usize, step: usize) -> Seq<usize>
    decreases max - current,
    when step > 0
{
    if current >= max {
        seq![current]
    } else {
        seq![current] + ladder(step_up(current, step as int, max), max, step)
    }
}

/// The step drawn in a given state of the generator, which is at least one.
pub open spec fn drawn_step(step: StepSize, state: int) -> int {
    if step.step_at(state) < 1 {
        1
    } else {
        step.step_at(state)
    }
}

/// The sizes above `current` up to `max` in drawn steps, and the generator's state after the draws.
pub open spec fn climb(step: StepSize, state: int, current: usize, max: usize) -> (Seq<usize>, int)
    decreases max - current,
{
    if current >= max {
        (Seq::empty(), state)
    } else {
        let next = step_up(current, drawn_step(step, state), max);
        let rest = climb(step, step.state_after(state), next, max);
        (seq![next] + rest.0, rest.1)
    }
}

/// The sizes below `current` down to `min` in drawn steps, and the generator's state after the
/// draws.
pub open spec fn descend(step: StepSize, state: int, current: usize, min: usize) -> (
    Seq<usize>,
    int,
)
    decreases current - min,
{
    if current <= min {
        (Seq::empty(), state)
    } else {
        let next = step_down(current, drawn_step(step, state), min);
        let rest = descend(step, step.state_after(state), next, min);
        (seq![next] + rest.0, rest.1)
    }
}

/// Up the equal steps and down the same steps again, `roundtrips` times.
pub open spec fn fixed_staircase(min: usize, max: usize, step: usize, roundtrips: nat) -> Seq<usize>
    decreases roundtrips,
{
    if roundtrips == 0 {
        Seq::empty()
    } else {
        let ascent = ladder(min, max, step);
        push_all_new(
            push_all_new(fixed_staircase(min, max, step, (roundtrips - 1) as nat), ascent),
            ascent.reverse().skip(1),
        )
    }
}

/// Up in drawn steps and down in drawn steps, `roundtrips` times, and the generator's state after
/// the draws.
pub open spec fn drawn_staircase(
    step: StepSize,
    state: int,
    min: usize,
    max: usize,
    roundtrips: nat,
) -> (Seq<usize>, int)
    decreases roundtrips,
{
    if roundtrips == 0 {
        (Seq::empty(), state)
    } else {
        let past = drawn_staircase(step, state, min, max, (roundtrips - 1) as nat);
        let up = climb(step, past.1, min, max);
        let top = if min < max {
            max
        } else {
            min
        };
        let down = descend(step, up.1, top, min);
        (push_new(past.0, min) + up.0 + down.0, down.1)
    }
}

/// The candidates of one trip: shuffled, and turned by one where the trip before ended with the
/// first of them.
pub open spec fn randomized_trip(candidates: Seq<usize>, state: int, before: Seq<usize>) -> Seq<
    usize,
> {
    let order = draw::shuffled(candidates, state);
    if order.len() > 1 && before.len() > 0 && before.last() == order[0] {
        order.skip(1).push(order[0])
    } else {
        order
    }
}

/// The same candidates in a new order for each trip, and the generator's state after the draws.
pub open spec fn randomized_trips(candidates: Seq<usize>, state: int, roundtrips: nat) -> (
    Seq<usize>,
    int,
)
    decreases roundtrips,
{
    if roundtrips == 0 {
        (Seq::empty(), state)
    } else {
        let past = randomized_trips(candidates, state, (roundtrips - 1) as nat);
        (
            push_all_new(past.0, randomized_trip(candidates, past.1, past.0)),
            draw::state_after_shuffle(past.1, candidates.len() as int),
        )
    }
}

/// The sizes visited in a given order, and the generator's state after the draws.
pub open spec fn plateaus(
    min: usize,
    max: usize,
    step: StepSize,
    roundtrips: nat,
    order: PlateauOrder,
    state: int,
) -> (Seq<usize>, int) {
    match order {
        PlateauOrder::Staircase => match step {
            StepSize::Fixed(fixed) => (fixed_staircase(min, max, fixed, roundtrips), state),
            StepSize::UniformRange { min: _, max: _ } => drawn_staircase(
                step,
                state,
                min,
                max,
                roundtrips,
            ),
        },
        PlateauOrder::Ascending => match step {
            StepSize::Fixed(fixed) => (ladder(min, max, fixed), state),
            StepSize::UniformRange { min: _, max: _ } => {
                let up = climb(step, state, min, max);
                (seq![min] + up.0, up.1)
            },
        },
        PlateauOrder::Randomized => {
            let up = climb(step, state, min, max);
            randomized_trips(seq![min] + up.0, up.1, roundtrips)
        },
    }
}

// ---------------------------------------------------------------------------
// What holds of every sequence
// ---------------------------------------------------------------------------

/// No size stands twice in a row.
pub open spec fn changing(sizes: Seq<usize>) -> bool {
    forall|i: int, j: int|
        #![trigger sizes[i], sizes[j]]
        0 <= i && j == i + 1 && j < sizes.len() ==> sizes[i] != sizes[j]
}

/// Every size lies between the bounds.
pub open spec fn within(sizes: Seq<usize>, min: usize, max: usize) -> bool {
    forall|i: int| 0 <= i < sizes.len() ==> min <= #[trigger] sizes[i] <= max
}

/// Neighbouring sizes are at most `step` apart.
pub open spec fn in_steps(sizes: Seq<usize>, step: int) -> bool {
    forall|i: int, j: int|
        #![trigger sizes[i], sizes[j]]
        0 <= i && j == i + 1 && j < sizes.len() ==> -step <= sizes[j] - sizes[i] <= step
}

/// Every size is larger than the one before it.
pub open spec fn growing(sizes: Seq<usize>) -> bool {
    forall|i: int, j: int| 0 <= i < j < sizes.len() ==> #[trigger] sizes[i] < #[trigger] sizes[j]
}

/// The largest step that may be drawn.
pub open spec fn largest_step(step: StepSize) -> int {
    match step {
        StepSize::Fixed(fixed) => fixed as int,
        StepSize::UniformRange { min, max } => max as int,
    }
}

/// The sizes from `min` to `max`: in equal steps, or in steps drawn from a given state of the
/// generator on.
pub open spec fn levels(min: usize, max: usize, step: StepSize, state: int) -> Seq<usize> {
    match step {
        StepSize::Fixed(fixed) => ladder(min, max, fixed),
        StepSize::UniformRange { min: _, max: _ } => seq![min] + climb(step, state, min, max).0,
    }
}

/// The sizes of one trip among sizes that are visited `len` to a trip.
pub open spec fn trip_of(sizes: Seq<usize>, len: nat, trip: int) -> Seq<usize> {
    sizes.subrange(trip * len, trip * len + len)
}

/// The sizes come in trips, each of which visits every level once.
pub open spec fn in_trips(sizes: Seq<usize>, levels: Seq<usize>, trips: nat) -> bool {
    &&& sizes.len() == trips * levels.len()
    &&& forall|trip: int|
        0 <= trip < trips ==> (#[trigger] trip_of(sizes, levels.len(), trip)).to_multiset()
            == levels.to_multiset()
}

/// What a staircase keeps while it is walked: it begins with `min`, it stays between the bounds, it
/// changes with each size, and by no more than a step.
pub open spec fn walked(sizes: Seq<usize>, min: usize, max: usize, step: int) -> bool {
    &&& changing(sizes)
    &&& within(sizes, min, max)
    &&& in_steps(sizes, step)
    &&& sizes.len() > 0 ==> sizes[0] == min
}

proof fn lemma_walk_on(sizes: Seq<usize>, size: usize, min: usize, max: usize, step: int)
    requires
        walked(sizes, min, max, step),
        min <= size <= max,
        sizes.len() == 0 ==> size == min,
        sizes.len() > 0 ==> -step <= size - sizes.last() <= step,
    ensures
        walked(push_new(sizes, size), min, max, step),
        push_new(sizes, size).last() == size,
{
}

proof fn lemma_ladder(current: usize, max: usize, step: usize)
    requires
        step > 0,
    ensures
        ladder(current, max, step).len() > 0,
        ladder(current, max, step)[0] == current,
        growing(ladder(current, max, step)),
        in_steps(ladder(current, max, step), step as int),
        current <= max ==> within(ladder(current, max, step), current, max),
        current <= max ==> ladder(current, max, step).last() == max,
        current > max ==> ladder(current, max, step) == seq![current],
    decreases max - current,
{
    if current < max {
        lemma_ladder(step_up(current, step as int, max), max, step);
    }
}

// ---------------------------------------------------------------------------
// Building the sequence
// ---------------------------------------------------------------------------

fn push_size(sizes: &mut Vec<usize>, size: usize)
    ensures
        final(sizes)@ == push_new(old(sizes)@, size),
{
    if sizes.len() > 0 && sizes[sizes.len() - 1] == size {
        return ;
    }
    sizes.push(size);
}

/// The sizes from `min_size` to `max_size` in equal steps; the last step may be shorter.
pub fn stepped_sizes(min_size: usize, max_size: usize, step_size: usize) -> (sizes: Vec<usize>)
    requires
        step_size > 0,
    ensures
        sizes@ == ladder(min_size, max_size, step_size),
        growing(sizes@),
        sizes@.len() > 0,
        sizes@[0] == min_size,
        min_size <= max_size ==> sizes@.last() == max_size && within(sizes@, min_size, max_size),
{
    let mut sizes: Vec<usize> = Vec::new();
    let mut current: usize = min_size;
    sizes.push(current);
    assert(seq![min_size] + ladder(min_size, max_size, step_size).drop_first() =~= ladder(
        min_size,
        max_size,
        step_size,
    )) by {
        lemma_ladder(min_size, max_size, step_size);
    }
    assert(sizes@ =~= seq![min_size]);
    while current < max_size
        invariant
            step_size > 0,
            sizes@.len() > 0,
            sizes@.last() == current,
            ladder(min_size, max_size, step_size) == sizes@ + ladder(
                current,
                max_size,
                step_size,
            ).drop_first(),
        decreases max_size - current,
    {
        let ghost before = current;
        let ghost walked_so_far = sizes@;
        let next: usize = if step_size <= max_size - current {
            current + step_size
        } else {
            max_size
        };
        current = next;
        push_size(&mut sizes, current);
        proof {
            lemma_ladder(current, max_size, step_size);
            let rest = ladder(current, max_size, step_size);
            assert(ladder(before, max_size, step_size).drop_first() =~= rest);
            assert(rest =~= seq![current] + rest.drop_first());
            assert(walked_so_far + rest =~= sizes@ + rest.drop_first());
        }
    }
    proof {
        lemma_ladder(min_size, max_size, step_size);
        assert(ladder(current, max_size, step_size).drop_first() =~= Seq::<usize>::empty());
        assert(sizes@ =~= ladder(min_size, max_size, step_size));
    }
    sizes
}

fn push_sizes(sizes: &mut Vec<usize>, more: &Vec<usize>)
    ensures
        final(sizes)@ == push_all_new(old(sizes)@, more@),
{
    let mut i: usize = 0;
    assert(more@.take(0) =~= Seq::<usize>::empty());
    while i < more.len()
        invariant
            i <= more@.len(),
            sizes@ == push_all_new(old(sizes)@, more@.take(i as int)),
        decreases more@.len() - i,
    {
        push_size(sizes, more[i]);
        assert(more@.take(i + 1).drop_last() =~= more@.take(i as int));
        i = i + 1;
    }
    assert(more@.take(i as int) =~= more@);
}

proof fn lemma_walk_all(
    sizes: Seq<usize>,
    more: Seq<usize>,
    min: usize,
    max: usize,
    step: int,
)
    requires
        walked(sizes, min, max, step),
        within(more, min, max),
        in_steps(more, step),
        more.len() > 0 ==> (if sizes.len() == 0 {
            more[0] == min
        } else {
            -step <= more[0] - sizes.last() <= step
        }),
    ensures
        walked(push_all_new(sizes, more), min, max, step),
        more.len() > 0 ==> push_all_new(sizes, more).len() > 0 && push_all_new(sizes, more).last()
            == more.last(),
    decreases more.len(),
{
    if more.len() > 0 {
        let head = more.drop_last();
        assert(within(head, min, max));
        assert(in_steps(head, step));
        lemma_walk_all(sizes, head, min, max, step);
        if head.len() > 0 {
            assert(head.last() == more[more.len() - 2]);
        }
        lemma_walk_on(push_all_new(sizes, head), more.last(), min, max, step);
    }
}

proof fn lemma_kept(sizes: Seq<usize>, more: Seq<usize>)
    ensures
        forall|x: usize| #[trigger] sizes.contains(x) ==> push_all_new(sizes, more).contains(x),
        forall|x: usize| #[trigger] more.contains(x) ==> push_all_new(sizes, more).contains(x),
        push_all_new(sizes, more).len() >= sizes.len(),
    decreases more.len(),
{
    if more.len() > 0 {
        let head = more.drop_last();
        lemma_kept(sizes, head);
        let before = push_all_new(sizes, head);
        let after = push_all_new(sizes, more);
        assert forall|x: usize| #[trigger] before.contains(x) implies after.contains(x) by {
            let k = choose|k: int| 0 <= k < before.len() && before[k] == x;
            assert(after[k] == x);
        }
        assert(after[after.len() - 1] == more.last());
        assert forall|x: usize| #[trigger] more.contains(x) implies after.contains(x) by {
            if x != more.last() {
                let k = choose|k: int| 0 <= k < more.len() && more[k] == x;
                assert(head[k] == x);
                assert(head.contains(x));
            }
        }
    }
}

/// Up in equal steps and down the same steps again, `roundtrips` times.
pub fn build_plateau_sequence(
    min_size: usize,
    max_size: usize,
    step_size: usize,
    roundtrips: usize,
) -> (sizes: Vec<usize>)
    requires
        step_size > 0,
    ensures
        sizes@ == fixed_staircase(min_size, max_size, step_size, roundtrips as nat),
        min_size <= max_size ==> {
            &&& walked(sizes@, min_size, max_size, step_size as int)
            &&& roundtrips > 0 ==> sizes@.len() > 0 && sizes@.last() == min_size
            &&& roundtrips > 0 ==> sizes@.contains(max_size)
        },
{
    let ascent: Vec<usize> = stepped_sizes(min_size, max_size, step_size);
    let ghost up = ascent@;
    let ghost down = up.reverse().skip(1);
    let mut descent: Vec<usize> = Vec::new();
    let mut k: usize = ascent.len() - 1;
    while k > 0
        invariant
            k < ascent@.len(),
            descent@.len() == ascent@.len() - 1 - k,
            forall|j: int|
                0 <= j < descent@.len() ==> descent@[j] == ascent@[ascent@.len() - 2 - j],
        decreases k,
    {
        k = k - 1;
        descent.push(ascent[k]);
    }
    assert(descent@ =~= down);
    proof {
        lemma_ladder(min_size, max_size, step_size);
        assert(in_steps(down, step_size as int)) by {
            assert forall|i: int, j: int|
                #![trigger down[i], down[j]]
                0 <= i && j == i + 1 && j < down.len() implies -step_size <= down[j] - down[i]
                <= step_size by {
                assert(down[i] == up[up.len() - 2 - i]);
                assert(down[j] == up[up.len() - 2 - j]);
            }
        }
        assert(min_size <= max_size ==> within(down, min_size, max_size));
        assert(up.len() > 1 ==> down.last() == min_size);
    }
    let mut sizes: Vec<usize> = Vec::new();
    let mut trip: usize = 0;
    while trip < roundtrips
        invariant
            trip <= roundtrips,
            step_size > 0,
            ascent@ == up,
            descent@ == down,
            up == ladder(min_size, max_size, step_size),
            down == up.reverse().skip(1),
            up.len() > 0,
            up[0] == min_size,
            up.len() > 1 ==> down.len() == up.len() - 1 && down.last() == min_size && down[0]
                == up[up.len() - 2],
            in_steps(up, step_size as int),
            in_steps(down, step_size as int),
            min_size <= max_size ==> within(up, min_size, max_size) && within(
                down,
                min_size,
                max_size,
            ) && up.last() == max_size,
            sizes@ == fixed_staircase(min_size, max_size, step_size, trip as nat),
            min_size <= max_size ==> walked(sizes@, min_size, max_size, step_size as int),
            min_size <= max_size && trip > 0 ==> sizes@.len() > 0 && sizes@.last() == min_size
                && sizes@.contains(max_size),
            trip == 0 ==> sizes@.len() == 0,
        decreases roundtrips - trip,
    {
        let ghost before = sizes@;
        push_sizes(&mut sizes, &ascent);
        let ghost middle = sizes@;
        push_sizes(&mut sizes, &descent);
        proof {
            if min_size <= max_size {
                lemma_walk_all(before, up, min_size, max_size, step_size as int);
                if up.len() > 1 {
                    assert(up.last() == up[up.len() - 1]);
                    assert(down[0] == up[up.len() - 2]);
                }
                lemma_walk_all(middle, down, min_size, max_size, step_size as int);
                lemma_kept(before, up);
                lemma_kept(middle, down);
                assert(up.contains(max_size)) by {
                    assert(up[up.len() - 1] == max_size);
                }
                assert(middle.contains(max_size));
                if up.len() == 1 {
                    assert(down =~= Seq::<usize>::empty());
                }
            }
        }
        trip = trip + 1;
    }
    sizes
}

/// Adds the sizes above `from` up to `max_size`, in drawn steps.
fn push_climb(
    sizes: &mut Vec<usize>,
    from: usize,
    max_size: usize,
    step_size: &StepSize,
    rng: &mut StdRng,
)
    requires
        step_size.wf(),
        old(sizes)@.len() > 0,
        old(sizes)@.last() == from,
    ensures
        final(sizes)@ == old(sizes)@ + climb(
            *step_size,
            draw::generator_state(*old(rng)),
            from,
            max_size,
        ).0,
        draw::generator_state(*final(rng)) == climb(
            *step_size,
            draw::generator_state(*old(rng)),
            from,
            max_size,
        ).1,
        final(sizes)@.len() > 0,
        final(sizes)@.last() == (if from < max_size {
            max_size
        } else {
            from
        }),
        forall|min: usize|
            min <= from <= max_size && #[trigger] walked(
                old(sizes)@,
                min,
                max_size,
                largest_step(*step_size),
            ) ==> walked(final(sizes)@, min, max_size, largest_step(*step_size)),
        growing(old(sizes)@) ==> growing(final(sizes)@),
        changing(old(sizes)@) ==> changing(final(sizes)@),
{
    let ghost start = sizes@;
    let ghost first_state = draw::generator_state(*rng);
    let ghost whole = climb(*step_size, first_state, from, max_size);
    let mut current: usize = from;
    assert(start + whole.0 =~= sizes@ + climb(*step_size, first_state, current, max_size).0);
    while current < max_size
        invariant
            step_size.wf(),
            from <= current,
            current <= max_size || current == from,
            sizes@.len() > 0,
            sizes@.last() == current,
            start + whole.0 == sizes@ + climb(
                *step_size,
                draw::generator_state(*rng),
                current,
                max_size,
            ).0,
            whole.1 == climb(*step_size, draw::generator_state(*rng), current, max_size).1,
            forall|min: usize|
                min <= from <= max_size && #[trigger] walked(
                    start,
                    min,
                    max_size,
                    largest_step(*step_size),
                ) ==> walked(sizes@, min, max_size, largest_step(*step_size)),
            growing(start) ==> growing(sizes@),
            changing(start) ==> changing(sizes@),
        decreases max_size - current,
    {
        let ghost before = sizes@;
        let step: usize = step_size.sample(rng);
        current = if step <= max_size - current {
            current + step
        } else {
            max_size
        };
        push_size(sizes, current);
        proof {
            let rest = climb(*step_size, draw::generator_state(*rng), current, max_size).0;
            assert(before + (seq![current] + rest) =~= sizes@ + rest);
            assert forall|min: usize|
                min <= from <= max_size && #[trigger] walked(
                    start,
                    min,
                    max_size,
                    largest_step(*step_size),
                ) implies walked(sizes@, min, max_size, largest_step(*step_size)) by {
                lemma_walk_on(before, current, min, max_size, largest_step(*step_size));
            }
        }
    }
    proof {
        assert(climb(*step_size, draw::generator_state(*rng), current, max_size).0 =~= Seq::<
            usize,
        >::empty());
        assert(sizes@ =~= start + whole.0);
    }
}

/// Adds the sizes below `from` down to `min_size`, in drawn steps.
fn push_descent(
    sizes: &mut Vec<usize>,
    from: usize,
    min_size: usize,
    step_size: &StepSize,
    rng: &mut StdRng,
)
    requires
        step_size.wf(),
        old(sizes)@.len() > 0,
        old(sizes)@.last() == from,
        min_size <= from,
    ensures
        final(sizes)@ == old(sizes)@ + descend(
            *step_size,
            draw::generator_state(*old(rng)),
            from,
            min_size,
        ).0,
        draw::generator_state(*final(rng)) == descend(
            *step_size,
            draw::generator_state(*old(rng)),
            from,
            min_size,
        ).1,
        final(sizes)@.len() > 0,
        final(sizes)@.last() == min_size,
        forall|max: usize|
            from <= max && #[trigger] walked(
                old(sizes)@,
                min_size,
                max,
                largest_step(*step_size),
            ) ==> walked(final(sizes)@, min_size, max, largest_step(*step_size)),
{
    let ghost start = sizes@;
    let ghost first_state = draw::generator_state(*rng);
    let ghost whole = descend(*step_size, first_state, from, min_size);
    let mut current: usize = from;
    assert(start + whole.0 =~= sizes@ + descend(*step_size, first_state, current, min_size).0);
    while current > min_size
        invariant
            step_size.wf(),
            min_size <= current <= from,
            sizes@.len() > 0,
            sizes@.last() == current,
            start + whole.0 == sizes@ + descend(
                *step_size,
                draw::generator_state(*rng),
                current,
                min_size,
            ).0,
            whole.1 == descend(*step_size, draw::generator_state(*rng), current, min_size).1,
            forall|max: usize|
                from <= max && #[trigger] walked(
                    start,
                    min_size,
                    max,
                    largest_step(*step_size),
                ) ==> walked(sizes@, min_size, max, largest_step(*step_size)),
        decreases current,
    {
        let ghost before = sizes@;
        let step: usize = step_size.sample(rng);
        current = if step <= current - min_size {
            current - step
        } else {
            min_size
        };
        push_size(sizes, current);
        proof {
            let rest = descend(*step_size, draw::generator_state(*rng), current, min_size).0;
            assert(before + (seq![current] + rest) =~= sizes@ + rest);
            assert forall|max: usize|
                from <= max && #[trigger] walked(
                    start,
                    min_size,
                    max,
                    largest_step(*step_size),
                ) implies walked(sizes@, min_size, max, largest_step(*step_size)) by {
                lemma_walk_on(before, current, min_size, max, largest_step(*step_size));
            }
        }
    }
    proof {
        assert(descend(*step_size, draw::generator_state(*rng), current, min_size).0 =~= Seq::<
            usize,
        >::empty());
        assert(sizes@ =~= start + whole.0);
    }
}

/// Up and down between the bounds, `roundtrips` times: in equal steps, or in steps that are drawn
/// anew for each size.
pub fn build_plateau_sequence_for_step_size(
    min_size: usize,
    max_size: usize,
    step_size: &StepSize,
    roundtrips: usize,
    rng: &mut StdRng,
) -> (sizes: Vec<usize>)
    requires
        step_size.wf(),
    ensures
        (sizes@, draw::generator_state(*final(rng))) == plateaus(
            min_size,
            max_size,
            *step_size,
            roundtrips as nat,
            PlateauOrder::Staircase,
            draw::generator_state(*old(rng)),
        ),
        min_size <= max_size ==> {
            &&& walked(sizes@, min_size, max_size, largest_step(*step_size))
            &&& roundtrips > 0 ==> sizes@.len() > 0 && sizes@.last() == min_size
            &&& roundtrips > 0 ==> sizes@.contains(max_size)
        },
{
    if let StepSize::Fixed(step) = step_size {
        return build_plateau_sequence(min_size, max_size, *step, roundtrips);
    }
    let ghost state = draw::generator_state(*rng);
    let ghost largest = largest_step(*step_size);
    let mut sizes: Vec<usize> = Vec::new();
    let mut trip: usize = 0;
    while trip < roundtrips
        invariant
            trip <= roundtrips,
            step_size.wf(),
            largest == largest_step(*step_size),
            (sizes@, draw::generator_state(*rng)) == drawn_staircase(
                *step_size,
                state,
                min_size,
                max_size,
                trip as nat,
            ),
            trip > 0 ==> sizes@.len() > 0 && sizes@.last() == min_size,
            trip == 0 ==> sizes@.len() == 0,
            min_size <= max_size ==> walked(sizes@, min_size, max_size, largest),
            min_size <= max_size && trip > 0 ==> sizes@.contains(max_size),
        decreases roundtrips - trip,
    {
        let ghost before = sizes@;
        push_size(&mut sizes, min_size);
        proof {
            if min_size <= max_size {
                lemma_walk_on(before, min_size, min_size, max_size, largest);
            }
        }
        push_climb(&mut sizes, min_size, max_size, step_size, rng);
        let ghost middle = sizes@;
        assert(min_size <= max_size ==> middle[middle.len() - 1] == max_size);
        let top: usize = if min_size < max_size {
            max_size
        } else {
            min_size
        };
        push_descent(&mut sizes, top, min_size, step_size, rng);
        proof {
            if min_size <= max_size {
                assert(sizes@[middle.len() - 1] == max_size);
            }
        }
        trip = trip + 1;
    }
    sizes
}

/// Once from the lower bound to the upper one: in equal steps, or in steps that are drawn anew for
/// each size.
pub fn build_ascending_plateau_sequence_for_step_size(
    min_size: usize,
    max_size: usize,
    step_size: &StepSize,
    rng: &mut StdRng,
) -> (sizes: Vec<usize>)
    requires
        step_size.wf(),
    ensures
        forall|roundtrips: nat|
            (sizes@, draw::generator_state(*final(rng))) == #[trigger] plateaus(
                min_size,
                max_size,
                *step_size,
                roundtrips,
                PlateauOrder::Ascending,
                draw::generator_state(*old(rng)),
            ),
        growing(sizes@),
        sizes@.len() > 0,
        sizes@[0] == min_size,
        min_size <= max_size ==> within(sizes@, min_size, max_size) && sizes@.last() == max_size,
{
    if let StepSize::Fixed(step) = step_size {
        return stepped_sizes(min_size, max_size, *step);
    }
    let mut sizes: Vec<usize> = Vec::new();
    sizes.push(min_size);
    assert(sizes@ =~= seq![min_size]);
    proof {
        assert(min_size <= max_size ==> walked(
            sizes@,
            min_size,
            max_size,
            largest_step(*step_size),
        ));
    }
    push_climb(&mut sizes, min_size, max_size, step_size, rng);
    sizes
}

proof fn lemma_climb_is_a_ladder(fixed: usize, state: int, current: usize, max: usize)
    requires
        fixed > 0,
    ensures
        seq![current] + climb(StepSize::Fixed(fixed), state, current, max).0 == ladder(
            current,
            max,
            fixed,
        ),
    decreases max - current,
{
    let up = climb(StepSize::Fixed(fixed), state, current, max).0;
    if current < max {
        let next = step_up(current, fixed as int, max);
        lemma_climb_is_a_ladder(fixed, state, next, max);
        assert(seq![current] + up =~= seq![current] + (seq![next] + climb(
            StepSize::Fixed(fixed),
            state,
            next,
            max,
        ).0));
    } else {
        assert(seq![current] + up =~= seq![current]);
    }
}

/// Sizes whose first one is put last are the same sizes.
proof fn lemma_rotated(sizes: Seq<usize>)
    requires
        sizes.len() > 0,
    ensures
        sizes.skip(1).push(sizes[0]).to_multiset() == sizes.to_multiset(),
        sizes.no_duplicates() ==> sizes.skip(1).push(sizes[0]).no_duplicates(),
{
    broadcast use vstd::seq_lib::group_to_multiset_ensures;

    assert(sizes =~= seq![sizes[0]] + sizes.skip(1));
    vstd::seq_lib::lemma_multiset_commutative(seq![sizes[0]], sizes.skip(1));
    assert(sizes.skip(1).push(sizes[0]) =~= sizes.skip(1) + seq![sizes[0]]);
    vstd::seq_lib::lemma_multiset_commutative(sizes.skip(1), seq![sizes[0]]);
}

/// Sizes of which no two neighbours are the same are all added.
proof fn lemma_all_are_new(sizes: Seq<usize>, more: Seq<usize>)
    requires
        more.no_duplicates(),
        sizes.len() > 0 && more.len() > 0 ==> sizes.last() != more[0],
    ensures
        push_all_new(sizes, more) == sizes + more,
    decreases more.len(),
{
    if more.len() > 0 {
        let front = more.drop_last();
        assert(front.no_duplicates());
        lemma_all_are_new(sizes, front);
        assert((sizes + front).push(more.last()) =~= sizes + more);
        if front.len() > 0 {
            assert((sizes + front).last() == more[more.len() - 2]);
            assert(more[more.len() - 2] != more[more.len() - 1]);
        } else {
            assert(sizes + front =~= sizes);
        }
    } else {
        assert(sizes + more =~= sizes);
    }
}

/// Another trip over every level comes to the trips before it.
proof fn lemma_another_trip(sizes: Seq<usize>, more: Seq<usize>, levels: Seq<usize>, trips: nat)
    requires
        in_trips(sizes, levels, trips),
        more.to_multiset() == levels.to_multiset(),
        more.len() == levels.len(),
    ensures
        in_trips(sizes + more, levels, trips + 1),
{
    let len = levels.len();
    let all = sizes + more;
    assert((trips + 1) * len == trips * len + len) by (nonlinear_arith);
    assert forall|trip: int| 0 <= trip < trips + 1 implies (#[trigger] trip_of(
        all,
        len,
        trip,
    )).to_multiset() == levels.to_multiset() by {
        if trip < trips {
            assert(trip * len + len <= trips * len) by (nonlinear_arith)
                requires
                    0 <= trip < trips,
            ;
            assert(0 <= trip * len) by (nonlinear_arith)
                requires
                    0 <= trip,
            ;
            assert(trip_of(all, len, trip) =~= trip_of(sizes, len, trip));
        } else {
            assert(trip_of(all, len, trip) =~= more);
        }
    }
}

proof fn lemma_changing_kept(sizes: Seq<usize>, more: Seq<usize>, min: usize, max: usize)
    requires
        changing(sizes),
        within(sizes, min, max),
        within(more, min, max),
    ensures
        changing(push_all_new(sizes, more)),
        within(push_all_new(sizes, more), min, max),
    decreases more.len(),
{
    if more.len() > 0 {
        assert(within(more.drop_last(), min, max));
        lemma_changing_kept(sizes, more.drop_last(), min, max);
    }
}

/// The size that stands `i` whole steps above `min`, or `max` where that lies beyond it.
pub open spec fn rung(min: usize, max: usize, step: usize, i: int) -> int {
    if min + i * step <= max {
        min + i * step
    } else {
        max as int
    }
}

/// The way up takes the least number of steps that reaches `max`, and every step but the last is a
/// whole one.
pub proof fn law_equal_steps(min: usize, max: usize, step: usize, count: nat)
    requires
        step > 0,
        min <= max,
        max - min <= count * step,
        count > 0 ==> (count - 1) * step < max - min,
    ensures
        ladder(min, max, step).len() == count + 1,
        forall|i: int|
            0 <= i <= count ==> ladder(min, max, step)[i] == #[trigger] rung(min, max, step, i),
    decreases count,
{
    let sizes = ladder(min, max, step);
    assert(rung(min, max, step, 0) == min);
    if count == 0 {
        assert(min == max);
    } else {
        let fewer = (count - 1) as nat;
        assert(min < max) by (nonlinear_arith)
            requires
                (count - 1) * step < max - min,
                count > 0,
                step > 0,
        ;
        let next = step_up(min, step as int, max);
        assert(max - next <= fewer * step && (fewer > 0 ==> (fewer - 1) * step < max - next))
            by (nonlinear_arith)
            requires
                fewer == count - 1,
                count > 0,
                step > 0,
                max - min <= count * step,
                (count - 1) * step < max - min,
                next == if min + step <= max {
                    min + step
                } else {
                    max as int
                },
        ;
        law_equal_steps(next, max, step, fewer);
        assert(sizes == seq![min] + ladder(next, max, step));
        assert forall|i: int| 0 <= i <= count implies sizes[i] == #[trigger] rung(
            min,
            max,
            step,
            i,
        ) by {
            if i > 0 {
                assert(ladder(next, max, step)[i - 1] == rung(next, max, step, i - 1));
                assert(i * step == (i - 1) * step + step) by (nonlinear_arith);
                assert(0 <= (i - 1) * step) by (nonlinear_arith)
                    requires
                        i > 0,
                        step > 0,
                ;
            }
        }
    }
}

proof fn lemma_first_of_all(sizes: Seq<usize>, more: Seq<usize>)
    requires
        more.len() > 0,
    ensures
        push_all_new(sizes, more) == push_all_new(push_new(sizes, more[0]), more.skip(1)),
    decreases more.len(),
{
    let front = more.drop_last();
    if front.len() == 0 {
        assert(more.skip(1) =~= Seq::<usize>::empty());
        assert(push_all_new(sizes, front) == sizes);
    } else {
        lemma_first_of_all(sizes, front);
        assert(more.skip(1).drop_last() =~= front.skip(1));
        assert(more.skip(1).last() == more.last());
    }
}

/// Each round trip goes on from where the one before it ended: up by whole steps to `max`, and
/// down over the same sizes to `min`, and each size stands there once for each way.
pub proof fn law_round_trips(min: usize, max: usize, step: usize, count: nat, trips: nat)
    requires
        step > 0,
        min < max,
        (count - 1) * step < max - min <= count * step,
    ensures
        fixed_staircase(min, max, step, 0).len() == 0,
        trips > 0 ==> fixed_staircase(min, max, step, trips).len() > 0 && fixed_staircase(
            min,
            max,
            step,
            trips,
        ).last() == min,
        ({
            let past = fixed_staircase(min, max, step, trips);
            let sizes = fixed_staircase(min, max, step, trips + 1);
            let from = if trips == 0 {
                0
            } else {
                past.len() - 1
            };
            &&& sizes.len() == from + 2 * count + 1
            &&& forall|i: int| 0 <= i < past.len() ==> sizes[i] == #[trigger] past[i]
            &&& forall|i: int|
                0 <= i <= count ==> {
                    &&& sizes[from + i] == #[trigger] rung(min, max, step, i)
                    &&& sizes[from + 2 * count - i] == rung(min, max, step, i)
                }
        }),
    decreases trips,
{
    assert(count > 0) by (nonlinear_arith)
        requires
            max - min <= count * step,
            min < max,
    ;
    if trips > 0 {
        law_round_trips(min, max, step, count, (trips - 1) as nat);
        assert(rung(min, max, step, 0) == min);
    }
    law_equal_steps(min, max, step, count);
    lemma_ladder(min, max, step);
    let past = fixed_staircase(min, max, step, trips);
    let sizes = fixed_staircase(min, max, step, trips + 1);
    let up = ladder(min, max, step);
    let down = up.reverse().skip(1);
    let start = push_new(past, min);
    lemma_first_of_all(past, up);
    assert(up.skip(1).no_duplicates());
    assert(up.skip(1)[0] == up[1]);
    lemma_all_are_new(start, up.skip(1));
    let middle = start + up.skip(1);
    assert(middle.last() == up[up.len() - 1]);
    assert forall|i: int| 0 <= i < down.len() implies #[trigger] down[i] == up[count - 1 - i] by {}
    assert(down.no_duplicates());
    lemma_all_are_new(middle, down);
    assert(sizes == middle + down);
    let from = start.len() - 1;
    assert forall|i: int| 0 <= i <= count implies sizes[from + i] == #[trigger] rung(
        min,
        max,
        step,
        i,
    ) && sizes[from + 2 * count - i] == rung(min, max, step, i) by {
        assert(up[i] == rung(min, max, step, i));
        if i > 0 {
            assert(sizes[from + i] == up.skip(1)[i - 1]);
        }
        if i < count {
            assert(sizes[from + 2 * count - i] == down[count - 1 - i]);
        } else {
            assert(sizes[from + count] == up.skip(1)[count - 1]);
        }
    }
}

/// The group sizes that a run visits, in the order it was told to visit them.
pub fn build_plateau_sequence_for_order(
    min_size: usize,
    max_size: usize,
    step_size: &StepSize,
    roundtrips: usize,
    plateau_order: PlateauOrder,
    rng: &mut StdRng,
) -> (sizes: Vec<usize>)
    requires
        step_size.wf(),
    ensures
        (sizes@, draw::generator_state(*final(rng))) == plateaus(
            min_size,
            max_size,
            *step_size,
            roundtrips as nat,
            plateau_order,
            draw::generator_state(*old(rng)),
        ),
        min_size <= max_size ==> changing(sizes@) && within(sizes@, min_size, max_size),
        min_size <= max_size && (roundtrips > 0 || plateau_order == PlateauOrder::Ascending)
            ==> sizes@.contains(min_size) && sizes@.contains(max_size),
        plateau_order == PlateauOrder::Ascending ==> growing(sizes@),
        plateau_order == PlateauOrder::Randomized && min_size < max_size ==> in_trips(
            sizes@,
            levels(min_size, max_size, *step_size, draw::generator_state(*old(rng))),
            roundtrips as nat,
        ),
        plateau_order == PlateauOrder::Staircase && min_size <= max_size ==> walked(
            sizes@,
            min_size,
            max_size,
            largest_step(*step_size),
        ),
        plateau_order == PlateauOrder::Staircase && min_size <= max_size && roundtrips > 0
            ==> sizes@.len() > 0 && sizes@.last() == min_size,
{
    if plateau_order == PlateauOrder::Staircase {
        let sizes: Vec<usize> = build_plateau_sequence_for_step_size(
            min_size,
            max_size,
            step_size,
            roundtrips,
            rng,
        );
        assert(min_size <= max_size && roundtrips > 0 ==> sizes@.contains(sizes@[0]));
        return sizes;
    }
    if plateau_order == PlateauOrder::Ascending {
        let sizes: Vec<usize> = build_ascending_plateau_sequence_for_step_size(
            min_size,
            max_size,
            step_size,
            rng,
        );
        assert(sizes@.contains(sizes@[0]));
        assert(sizes@.contains(sizes@[sizes@.len() - 1]));
        return sizes;
    }
    let mut candidates: Vec<usize> = Vec::new();
    candidates.push(min_size);
    assert(candidates@ =~= seq![min_size]);
    proof {
        assert(min_size <= max_size ==> walked(
            candidates@,
            min_size,
            max_size,
            largest_step(*step_size),
        ));
    }
    push_climb(&mut candidates, min_size, max_size, step_size, rng);
    let ghost all = candidates@;
    let ghost state = draw::generator_state(*rng);
    proof {
        if let StepSize::Fixed(fixed) = step_size {
            lemma_climb_is_a_ladder(
                *fixed,
                draw::generator_state(*old(rng)),
                min_size,
                max_size,
            );
        }
        assert(all == levels(min_size, max_size, *step_size, draw::generator_state(*old(rng))));
        assert(all[0] == min_size);
        assert(growing(all));
        assert(all.no_duplicates());
        assert(all.contains(all[0]));
        assert(all.contains(all[all.len() - 1]));
    }
    let mut sizes: Vec<usize> = Vec::new();
    let mut trip: usize = 0;
    while trip < roundtrips
        invariant
            trip <= roundtrips,
            candidates@ == all,
            min_size <= max_size ==> within(all, min_size, max_size) && all.contains(min_size)
                && all.contains(max_size),
            (sizes@, draw::generator_state(*rng)) == randomized_trips(all, state, trip as nat),
            min_size <= max_size ==> changing(sizes@) && within(sizes@, min_size, max_size),
            min_size <= max_size && trip > 0 ==> sizes@.contains(min_size) && sizes@.contains(
                max_size,
            ),
            all.no_duplicates(),
            min_size < max_size ==> all.len() > 1 && in_trips(sizes@, all, trip as nat),
        decreases roundtrips - trip,
    {
        let ghost before = sizes@;
        let ghost now = draw::generator_state(*rng);
        let mut order: Vec<usize> = Vec::new();
        let mut i: usize = 0;
        while i < candidates.len()
            invariant
                i <= candidates@.len(),
                order@ == candidates@.take(i as int),
            decreases candidates@.len() - i,
        {
            order.push(candidates[i]);
            i = i + 1;
            assert(order@ =~= candidates@.take(i as int));
        }
        assert(order@ =~= all);
        shuffle(&mut order, rng);
        let ghost shuffled = order@;
        proof {
            draw::lemma_in_order_keeps_items(all, draw::shuffled_order(now, all.len() as int).0);
        }
        if order.len() > 1 && sizes.len() > 0 && sizes[sizes.len() - 1] == order[0] {
            let first: usize = order.remove(0);
            order.push(first);
            assert(order@ =~= shuffled.skip(1).push(shuffled[0]));
            proof {
                lemma_rotated(shuffled);
            }
            assert forall|x: usize| shuffled.contains(x) implies order@.contains(x) by {
                let k = choose|k: int| 0 <= k < shuffled.len() && shuffled[k] == x;
                if k == 0 {
                    assert(order@[order@.len() - 1] == x);
                } else {
                    assert(order@[k - 1] == x);
                }
            }
        }
        proof {
            assert(order@ == randomized_trip(all, now, before));
            if min_size <= max_size {
                assert forall|k: int| 0 <= k < order@.len() implies min_size <= #[trigger] order@[k]
                    <= max_size by {
                    assert(shuffled.contains(order@[k])) by {
                        if order@ != shuffled {
                            if k == order@.len() - 1 {
                                assert(shuffled[0] == order@[k]);
                            } else {
                                assert(shuffled[k + 1] == order@[k]);
                            }
                        } else {
                            assert(shuffled[k] == order@[k]);
                        }
                    }
                    assert(all.contains(order@[k]));
                }
                assert(shuffled.contains(min_size));
                assert(shuffled.contains(max_size));
                lemma_changing_kept(before, order@, min_size, max_size);
            }
            lemma_kept(before, order@);
            if min_size < max_size {
                assert(shuffled.len() > 1);
                assert(shuffled[0] != shuffled[1]);
                lemma_all_are_new(before, order@);
                lemma_another_trip(before, order@, all, trip as nat);
            }
        }
        push_sizes(&mut sizes, &order);
        trip = trip + 1;
    }
    sizes
}

} // verus!
