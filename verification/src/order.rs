//! Stable sorting, and the order of texts.

use vstd::prelude::*;
use vstd::relations::*;

use crate::text;
use crate::text::chars_of;

verus! {

/// Values with a total order in which different values may tie.
pub trait SortKey: Sized {
    /// `self` stands before `other` or ties with it.
    spec fn at_most_spec(self, other: Self) -> bool;

    /// Of two values one stands before the other, or they tie.
    proof fn connected(a: Self, b: Self)
        ensures
            a.at_most_spec(b) || b.at_most_spec(a),
    ;

    /// The order passes on.
    proof fn chained(a: Self, b: Self, c: Self)
        requires
            a.at_most_spec(b),
            b.at_most_spec(c),
        ensures
            a.at_most_spec(c),
    ;

    /// Whether `self` stands before `other` or ties with it.
    fn at_most(&self, other: &Self) -> (yes: bool)
        ensures
            yes == self.at_most_spec(*other),
    ;
}

/// The place `x` of `keys` comes before the place `y`: by its key, and among
/// ties by its position.
pub open spec fn before<K: SortKey>(keys: Seq<K>, x: int, y: int) -> bool {
    &&& keys[x].at_most_spec(keys[y])
    &&& keys[y].at_most_spec(keys[x]) ==> x < y
}

/// `order` lists each place from `lo` up to `hi` once, in the order of the keys.
pub open spec fn places_in_order<K: SortKey>(
    keys: Seq<K>,
    order: Seq<usize>,
    lo: int,
    hi: int,
) -> bool {
    &&& order.len() == hi - lo
    &&& forall|i: int| 0 <= i < order.len() ==> lo <= #[trigger] order[i] < hi
    &&& forall|i: int, j: int|
        0 <= i < j < order.len() ==> before(keys, #[trigger] order[i] as int, #[trigger] order[j] as int)
    &&& forall|x: usize| lo <= x < hi ==> #[trigger] order.contains(x)
}

/// `order` lists each place of `keys` once: smaller keys first, and ties in
/// the order in which they stood.
pub open spec fn stable_sorted<K: SortKey>(keys: Seq<K>, order: Seq<usize>) -> bool {
    places_in_order(keys, order, 0, keys.len() as int)
}

proof fn lemma_before_chains<K: SortKey>(keys: Seq<K>, x: int, y: int, z: int)
    requires
        before(keys, x, y),
        before(keys, y, z),
    ensures
        before(keys, x, z),
{
    K::chained(keys[x], keys[y], keys[z]);
    if keys[z].at_most_spec(keys[x]) {
        K::chained(keys[z], keys[x], keys[y]);
        K::chained(keys[y], keys[z], keys[x]);
    }
}

/// Merges the places of two neighbouring stretches.
fn merge<K: SortKey>(
    keys: &Vec<K>,
    left: &Vec<usize>,
    right: &Vec<usize>,
    Ghost(lo): Ghost<int>,
    Ghost(mid): Ghost<int>,
    Ghost(hi): Ghost<int>,
) -> (out: Vec<usize>)
    requires
        0 <= lo <= mid <= hi <= keys@.len(),
        places_in_order(keys@, left@, lo, mid),
        places_in_order(keys@, right@, mid, hi),
    ensures
        places_in_order(keys@, out@, lo, hi),
{
    let mut out: Vec<usize> = Vec::new();
    let mut i: usize = 0;
    let mut j: usize = 0;
    while i < left.len() || j < right.len()
        invariant
            0 <= lo <= mid <= hi <= keys@.len(),
            places_in_order(keys@, left@, lo, mid),
            places_in_order(keys@, right@, mid, hi),
            i <= left@.len(),
            j <= right@.len(),
            out@.len() == i + j,
            forall|a: int| 0 <= a < out@.len() ==> lo <= #[trigger] out@[a] < hi,
            forall|a: int, b: int|
                0 <= a < b < out@.len() ==> before(
                    keys@,
                    #[trigger] out@[a] as int,
                    #[trigger] out@[b] as int,
                ),
            forall|a: int, b: int|
                0 <= a < out@.len() && i <= b < left@.len() ==> before(
                    keys@,
                    #[trigger] out@[a] as int,
                    #[trigger] left@[b] as int,
                ),
            forall|a: int, b: int|
                0 <= a < out@.len() && j <= b < right@.len() ==> before(
                    keys@,
                    #[trigger] out@[a] as int,
                    #[trigger] right@[b] as int,
                ),
            forall|b: int| 0 <= b < i ==> out@.contains(#[trigger] left@[b]),
            forall|b: int| 0 <= b < j ==> out@.contains(#[trigger] right@[b]),
        decreases left@.len() - i + right@.len() - j,
    {
        let ghost done = out@;
        let take_left: bool = if i >= left.len() {
            false
        } else if j >= right.len() {
            true
        } else {
            keys[left[i]].at_most(&keys[right[j]])
        };
        proof {
            if i < left@.len() && j < right@.len() {
                K::connected(keys@[left@[i as int] as int], keys@[right@[j as int] as int]);
            }
        }
        if take_left {
            let next: usize = left[i];
            out.push(next);
            assert forall|b: int| j <= b < right@.len() implies before(
                keys@,
                next as int,
                #[trigger] right@[b] as int,
            ) by {
                assert(before(keys@, next as int, right@[j as int] as int));
                if b > j {
                    lemma_before_chains(keys@, next as int, right@[j as int] as int, right@[b] as int);
                }
            }
            assert forall|b: int| 0 <= b < i + 1 implies out@.contains(#[trigger] left@[b]) by {
                if b < i {
                    let k = choose|k: int| 0 <= k < done.len() && done[k] == left@[b];
                    assert(out@[k] == left@[b]);
                } else {
                    assert(out@[done.len() as int] == left@[b]);
                }
            }
            assert forall|b: int| 0 <= b < j implies out@.contains(#[trigger] right@[b]) by {
                let k = choose|k: int| 0 <= k < done.len() && done[k] == right@[b];
                assert(out@[k] == right@[b]);
            }
            i = i + 1;
        } else {
            let next: usize = right[j];
            out.push(next);
            assert forall|b: int| i <= b < left@.len() implies before(
                keys@,
                next as int,
                #[trigger] left@[b] as int,
            ) by {
                assert(before(keys@, next as int, left@[i as int] as int));
                if b > i {
                    lemma_before_chains(keys@, next as int, left@[i as int] as int, left@[b] as int);
                }
            }
            assert forall|b: int| 0 <= b < i implies out@.contains(#[trigger] left@[b]) by {
                let k = choose|k: int| 0 <= k < done.len() && done[k] == left@[b];
                assert(out@[k] == left@[b]);
            }
            assert forall|b: int| 0 <= b < j + 1 implies out@.contains(#[trigger] right@[b]) by {
                if b < j {
                    let k = choose|k: int| 0 <= k < done.len() && done[k] == right@[b];
                    assert(out@[k] == right@[b]);
                } else {
                    assert(out@[done.len() as int] == right@[b]);
                }
            }
            j = j + 1;
        }
    }
    assert forall|x: usize| lo <= x < hi implies #[trigger] out@.contains(x) by {
        if x < mid {
            assert(left@.contains(x));
            let b = choose|b: int| 0 <= b < left@.len() && left@[b] == x;
            assert(out@.contains(left@[b]));
        } else {
            assert(right@.contains(x));
            let b = choose|b: int| 0 <= b < right@.len() && right@[b] == x;
            assert(out@.contains(right@[b]));
        }
    }
    out
}

/// The places from `lo` up to `hi`, in the order of their keys.
fn order_between<K: SortKey>(keys: &Vec<K>, lo: usize, hi: usize) -> (out: Vec<usize>)
    requires
        lo <= hi <= keys@.len(),
    ensures
        places_in_order(keys@, out@, lo as int, hi as int),
    decreases hi - lo,
{
    let mut out: Vec<usize> = Vec::new();
    if hi - lo == 0 {
        return out;
    }
    if hi - lo == 1 {
        out.push(lo);
        assert(out@[0] == lo);
        return out;
    }
    let mid: usize = lo + (hi - lo) / 2;
    let left: Vec<usize> = order_between(keys, lo, mid);
    let right: Vec<usize> = order_between(keys, mid, hi);
    merge(keys, &left, &right, Ghost(lo as int), Ghost(mid as int), Ghost(hi as int))
}

/// The places of `keys` in the order of their keys; ties keep their order.
pub fn stable_order<K: SortKey>(keys: &Vec<K>) -> (order: Vec<usize>)
    ensures
        stable_sorted(keys@, order@),
{
    order_between(keys, 0, keys.len())
}

/// There is only one stable order.
pub proof fn law_stable_order_is_unique<K: SortKey>(keys: Seq<K>, a: Seq<usize>, b: Seq<usize>)
    requires
        stable_sorted(keys, a),
        stable_sorted(keys, b),
    ensures
        a == b,
{
    lemma_same_front(keys, a, b, a.len() as int);
    assert(a =~= b);
}

proof fn lemma_same_front<K: SortKey>(keys: Seq<K>, a: Seq<usize>, b: Seq<usize>, n: int)
    requires
        stable_sorted(keys, a),
        stable_sorted(keys, b),
        0 <= n <= a.len(),
    ensures
        forall|i: int| 0 <= i < n ==> a[i] == b[i],
    decreases n,
{
    if n > 0 {
        lemma_same_front(keys, a, b, n - 1);
        let at = n - 1;
        if a[at] != b[at] {
            assert(b.contains(a[at]));
            assert(a.contains(b[at]));
            let i = choose|i: int| 0 <= i < b.len() && b[i] == a[at];
            let j = choose|j: int| 0 <= j < a.len() && a[j] == b[at];
            K::connected(keys[a[at] as int], keys[a[at] as int]);
            K::connected(keys[b[at] as int], keys[b[at] as int]);
            if i < at {
                assert(a[i] == b[i]);
                assert(before(keys, a[i] as int, a[at] as int));
            }
            if j < at {
                assert(a[j] == b[j]);
                assert(before(keys, b[j] as int, b[at] as int));
            }
            assert(before(keys, b[at] as int, b[i] as int));
            assert(before(keys, a[at] as int, a[j] as int));
        }
    }
}

impl SortKey for u128 {
    open spec fn at_most_spec(self, other: Self) -> bool {
        self <= other
    }

    proof fn connected(a: Self, b: Self) {
    }

    proof fn chained(a: Self, b: Self, c: Self) {
    }

    fn at_most(&self, other: &Self) -> (yes: bool) {
        *self <= *other
    }
}

impl SortKey for usize {
    open spec fn at_most_spec(self, other: Self) -> bool {
        self <= other
    }

    proof fn connected(a: Self, b: Self) {
    }

    proof fn chained(a: Self, b: Self, c: Self) {
    }

    fn at_most(&self, other: &Self) -> (yes: bool) {
        *self <= *other
    }
}

/// The elements of `s` at the places that `order` lists.
pub open spec fn picked<A>(s: Seq<A>, order: Seq<usize>) -> Seq<A> {
    Seq::new(order.len(), |i: int| s[order[i] as int])
}

/// Listing each place once keeps every element, as often as it stands there.
pub proof fn lemma_picked_keeps_all<A>(s: Seq<A>, order: Seq<usize>)
    requires
        order.len() == s.len() <= usize::MAX,
        forall|i: int| 0 <= i < order.len() ==> #[trigger] order[i] < s.len(),
        forall|i: int, j: int| 0 <= i < j < order.len() ==> #[trigger] order[i] != #[trigger] order[j],
        forall|x: usize| x < s.len() ==> #[trigger] order.contains(x),
    ensures
        picked(s, order).to_multiset() == s.to_multiset(),
    decreases s.len(),
{
    broadcast use vstd::seq_lib::group_to_multiset_ensures;

    if s.len() == 0 {
        assert(picked(s, order) =~= s);
    } else {
        let top = (s.len() - 1) as usize;
        assert(order.contains(top));
        let k = choose|k: int| 0 <= k < order.len() && order[k] == top;
        let fewer = order.remove(k);
        let front = s.drop_last();
        assert forall|x: usize| x < front.len() implies #[trigger] fewer.contains(x) by {
            assert(order.contains(x));
            let i = choose|i: int| 0 <= i < order.len() && order[i] == x;
            if i < k {
                assert(fewer[i] == x);
            } else {
                assert(fewer[i - 1] == x);
            }
        }
        assert forall|i: int| 0 <= i < fewer.len() implies #[trigger] fewer[i] < front.len() by {
            if i < k {
                assert(fewer[i] == order[i]);
            } else {
                assert(fewer[i] == order[i + 1]);
            }
        }
        lemma_picked_keeps_all(front, fewer);
        assert(picked(front, fewer) =~= picked(s, order).remove(k));
        assert(picked(s, order)[k] == s.last());
        assert(s =~= front.push(s.last()));
        vstd::seq_lib::to_multiset_build(front, s.last());
        vstd::seq_lib::to_multiset_remove(picked(s, order), k);
        let m = picked(s, order).to_multiset();
        assert(m.count(s.last()) > 0) by {
            assert(picked(s, order).contains(s.last()));
        }
        assert(m.remove(s.last()).insert(s.last()) =~= m);
    }
}

/// Numbers from small to large.
pub open spec fn rising(s: Seq<u128>) -> Seq<u128> {
    s.sort_by(|a: u128, b: u128| a <= b)
}

/// The numbers of a list, from small to large.
pub fn sort_numbers(list: &Vec<u128>) -> (out: Vec<u128>)
    ensures
        out@ == rising(list@),
        out@.len() == list@.len(),
{
    let order: Vec<usize> = stable_order(list);
    let mut out: Vec<u128> = Vec::new();
    let mut i: usize = 0;
    while i < order.len()
        invariant
            i <= order@.len(),
            stable_sorted(list@, order@),
            out@ == picked(list@, order@.take(i as int)),
        decreases order@.len() - i,
    {
        out.push(list[order[i]]);
        i = i + 1;
        assert(out@ =~= picked(list@, order@.take(i as int)));
    }
    proof {
        assert(order@.take(i as int) =~= order@);
        lemma_picked_keeps_all(list@, order@);
        let r = |a: u128, b: u128| a <= b;
        list@.lemma_sort_by_ensures(r);
        assert(vstd::relations::sorted_by(out@, r));
        vstd::seq_lib::lemma_sorted_unique(out@, list@.sort_by(r), r);
    }
    out
}

/// Indices from small to large.
pub open spec fn rising_indices(s: Seq<usize>) -> Seq<usize> {
    s.sort_by(|a: usize, b: usize| a <= b)
}

/// The indices of a list, from small to large.
pub fn sort_indices(list: &Vec<usize>) -> (out: Vec<usize>)
    ensures
        out@ == rising_indices(list@),
        out@.len() == list@.len(),
        out@.to_multiset() == list@.to_multiset(),
        forall|i: int, j: int| 0 <= i < j < out@.len() ==> #[trigger] out@[i] <= #[trigger] out@[j],
{
    let total: usize = list.len();
    let order: Vec<usize> = stable_order(list);
    let mut out: Vec<usize> = Vec::new();
    let mut i: usize = 0;
    while i < order.len()
        invariant
            i <= order@.len(),
            stable_sorted(list@, order@),
            out@ == picked(list@, order@.take(i as int)),
        decreases order@.len() - i,
    {
        out.push(list[order[i]]);
        i = i + 1;
        assert(out@ =~= picked(list@, order@.take(i as int)));
    }
    proof {
        assert(order@.take(i as int) =~= order@);
        assert(list@.len() == total);
        lemma_picked_keeps_all(list@, order@);
        let r = |a: usize, b: usize| a <= b;
        list@.lemma_sort_by_ensures(r);
        assert(vstd::relations::sorted_by(out@, r));
        vstd::seq_lib::lemma_sorted_unique(out@, list@.sort_by(r), r);
    }
    out
}

// ---------------------------------------------------------------------------
// Texts
// ---------------------------------------------------------------------------

/// `a` stands before `b` in the order of code points, or they are the same.
pub open spec fn text_at_most(a: Seq<char>, b: Seq<char>) -> bool
    decreases a.len(),
{
    if a.len() == 0 {
        true
    } else if b.len() == 0 {
        false
    } else if a[0] != b[0] {
        a[0] < b[0]
    } else {
        text_at_most(a.drop_first(), b.drop_first())
    }
}

/// The order of texts.
pub open spec fn text_order() -> spec_fn(Seq<char>, Seq<char>) -> bool {
    |a: Seq<char>, b: Seq<char>| text_at_most(a, b)
}

/// The texts of a list, each as often as it stands there, in order.
pub open spec fn ascending(list: Seq<Seq<char>>) -> Seq<Seq<char>> {
    list.sort_by(text_order())
}

pub proof fn lemma_text_connected(a: Seq<char>, b: Seq<char>)
    ensures
        text_at_most(a, b) || text_at_most(b, a),
    decreases a.len(),
{
    if a.len() > 0 && b.len() > 0 && a[0] == b[0] {
        lemma_text_connected(a.drop_first(), b.drop_first());
    }
}

pub proof fn lemma_text_chained(a: Seq<char>, b: Seq<char>, c: Seq<char>)
    requires
        text_at_most(a, b),
        text_at_most(b, c),
    ensures
        text_at_most(a, c),
    decreases a.len(),
{
    if a.len() > 0 && b.len() > 0 && c.len() > 0 && a[0] == b[0] && b[0] == c[0] {
        lemma_text_chained(a.drop_first(), b.drop_first(), c.drop_first());
    }
}

pub proof fn lemma_text_tie(a: Seq<char>, b: Seq<char>)
    requires
        text_at_most(a, b),
        text_at_most(b, a),
    ensures
        a == b,
    decreases a.len(),
{
    if a.len() > 0 && b.len() > 0 {
        lemma_text_tie(a.drop_first(), b.drop_first());
        assert(a =~= seq![a[0]] + a.drop_first());
        assert(b =~= seq![b[0]] + b.drop_first());
    }
}

pub proof fn lemma_text_order_is_total()
    ensures
        total_ordering(text_order()),
{
    let r = text_order();
    assert forall|a: Seq<char>| #[trigger] r(a, a) by {
        lemma_text_connected(a, a);
    }
    assert forall|a: Seq<char>, b: Seq<char>| #[trigger] r(a, b) && #[trigger] r(b, a) implies a == b by {
        lemma_text_tie(a, b);
    }
    assert forall|a: Seq<char>, b: Seq<char>, c: Seq<char>| #[trigger]
        r(a, b) && #[trigger] r(b, c) implies r(a, c) by {
        lemma_text_chained(a, b, c);
    }
    assert forall|a: Seq<char>, b: Seq<char>| #[trigger] r(a, b) || #[trigger] r(b, a) by {
        lemma_text_connected(a, b);
    }
}

impl SortKey for Vec<char> {
    open spec fn at_most_spec(self, other: Self) -> bool {
        text_at_most(self@, other@)
    }

    proof fn connected(a: Self, b: Self) {
        lemma_text_connected(a@, b@);
    }

    proof fn chained(a: Self, b: Self, c: Self) {
        lemma_text_chained(a@, b@, c@);
    }

    fn at_most(&self, other: &Self) -> (yes: bool) {
        chars_at_most(self, other)
    }
}

/// Whether the text of `a` stands before that of `b`, or is the same.
fn chars_at_most(a: &Vec<char>, b: &Vec<char>) -> (yes: bool)
    ensures
        yes == text_at_most(a@, b@),
{
    let mut i: usize = 0;
    assert(a@.skip(0) =~= a@);
    assert(b@.skip(0) =~= b@);
    while i < a.len() && i < b.len()
        invariant
            i <= a@.len(),
            i <= b@.len(),
            text_at_most(a@, b@) == text_at_most(a@.skip(i as int), b@.skip(i as int)),
        decreases a@.len() - i,
    {
        if a[i] != b[i] {
            return a[i] < b[i];
        }
        assert(a@.skip(i as int).drop_first() =~= a@.skip(i + 1));
        assert(b@.skip(i as int).drop_first() =~= b@.skip(i + 1));
        i = i + 1;
    }
    i == a.len()
}

/// The texts of a list, in order.
pub fn sort_texts(list: &Vec<String>) -> (out: Vec<String>)
    ensures
        text::texts(out@) == ascending(text::texts(list@)),
        out@.len() == list@.len(),
        out@.to_multiset() == list@.to_multiset(),
{
    let mut keys: Vec<Vec<char>> = Vec::new();
    let mut i: usize = 0;
    while i < list.len()
        invariant
            i <= list@.len(),
            keys@.len() == i,
            forall|j: int| 0 <= j < i ==> #[trigger] keys@[j]@ == list@[j]@,
        decreases list@.len() - i,
    {
        keys.push(chars_of(list[i].as_str()));
        i = i + 1;
    }
    let order: Vec<usize> = stable_order(&keys);
    let mut out: Vec<String> = Vec::new();
    let mut k: usize = 0;
    while k < order.len()
        invariant
            k <= order@.len(),
            keys@.len() == list@.len(),
            stable_sorted(keys@, order@),
            out@ == picked(list@, order@.take(k as int)),
        decreases order@.len() - k,
    {
        out.push(list[order[k]].clone());
        k = k + 1;
        assert(out@ =~= picked(list@, order@.take(k as int)));
    }
    proof {
        assert(order@.take(k as int) =~= order@);
        let from = text::texts(list@);
        let to = text::texts(out@);
        assert(to =~= picked(from, order@));
        assert forall|a: int, b: int| 0 <= a < b < order@.len() implies #[trigger] order@[a]
            != #[trigger] order@[b] by {
            Vec::<char>::connected(keys@[order@[a] as int], keys@[order@[a] as int]);
        }
        lemma_picked_keeps_all(from, order@);
        lemma_picked_keeps_all(list@, order@);
        lemma_text_order_is_total();
        from.lemma_sort_by_ensures(text_order());
        assert(sorted_by(to, text_order())) by {
            assert forall|a: int, b: int| 0 <= a < b < to.len() implies #[trigger] text_order()(
                to[a],
                to[b],
            ) by {
                assert(before(keys@, order@[a] as int, order@[b] as int));
            }
        }
        vstd::seq_lib::lemma_sorted_unique(to, ascending(from), text_order());
    }
    out
}

/// Whether `a` stands before `b`, or they are the same.
pub fn str_at_most(a: &str, b: &str) -> (yes: bool)
    ensures
        yes == text_at_most(a@, b@),
{
    let x: Vec<char> = chars_of(a);
    let y: Vec<char> = chars_of(b);
    chars_at_most(&x, &y)
}

} // verus!
