//! Sets of ids and counters kept per id.

use vstd::prelude::*;

use crate::text;
use crate::text::str_eq;

verus! {

/// The value that the first entry for `id` holds.
pub open spec fn value_in(entries: Seq<(String, usize)>, id: Seq<char>) -> Option<usize>
    decreases entries.len(),
{
    if entries.len() == 0 {
        None
    } else if entries[0].0@ == id {
        Some(entries[0].1)
    } else {
        value_in(entries.drop_first(), id)
    }
}

/// A number for each of some ids.
#[derive(Debug)]
pub struct Counts {
    entries: Vec<(String, usize)>,
}

impl View for Counts {
    type V = Map<Seq<char>, usize>;

    closed spec fn view(&self) -> Map<Seq<char>, usize> {
        Map::new(
            |id: Seq<char>| value_in(self.entries@, id) is Some,
            |id: Seq<char>| value_in(self.entries@, id)->0,
        )
    }
}

/// The number kept for `id`, or zero.
pub open spec fn count_of(counts: Map<Seq<char>, usize>, id: Seq<char>) -> usize {
    if counts.dom().contains(id) {
        counts[id]
    } else {
        0
    }
}

proof fn lemma_value_found(entries: Seq<(String, usize)>, id: Seq<char>, at: int)
    requires
        0 <= at < entries.len(),
        entries[at].0@ == id,
        forall|i: int| 0 <= i < at ==> entries[i].0@ != id,
    ensures
        value_in(entries, id) == Some(entries[at].1),
    decreases at,
{
    if at > 0 {
        lemma_value_found(entries.drop_first(), id, at - 1);
    }
}

proof fn lemma_value_absent(entries: Seq<(String, usize)>, id: Seq<char>)
    requires
        forall|i: int| 0 <= i < entries.len() ==> entries[i].0@ != id,
    ensures
        value_in(entries, id) is None,
    decreases entries.len(),
{
    if entries.len() > 0 {
        lemma_value_absent(entries.drop_first(), id);
    }
}

proof fn lemma_value_of_another(
    entries: Seq<(String, usize)>,
    at: int,
    entry: (String, usize),
    id: Seq<char>,
)
    requires
        0 <= at < entries.len(),
        entries[at].0@ == entry.0@,
        entry.0@ != id,
    ensures
        value_in(entries.update(at, entry), id) == value_in(entries, id),
    decreases entries.len(),
{
    let changed = entries.update(at, entry);
    if at == 0 {
        assert(changed.drop_first() =~= entries.drop_first());
    } else {
        lemma_value_of_another(entries.drop_first(), at - 1, entry, id);
        assert(changed.drop_first() =~= entries.drop_first().update(at - 1, entry));
    }
}

proof fn lemma_value_after_push(entries: Seq<(String, usize)>, entry: (String, usize), id: Seq<char>)
    requires
        entry.0@ != id,
    ensures
        value_in(entries.push(entry), id) == value_in(entries, id),
    decreases entries.len(),
{
    if entries.len() == 0 {
        assert(entries.push(entry).drop_first() =~= entries);
    } else {
        lemma_value_after_push(entries.drop_first(), entry, id);
        assert(entries.push(entry).drop_first() =~= entries.drop_first().push(entry));
    }
}

impl Counts {
    /// No id has a number.
    pub fn new() -> (counts: Counts)
        ensures
            counts@ == Map::<Seq<char>, usize>::empty(),
    {
        let counts: Counts = Counts { entries: Vec::new() };
        assert(counts@ =~= Map::<Seq<char>, usize>::empty());
        counts
    }

    /// The place of the first entry for `id`.
    fn place(&self, id: &str) -> (at: Option<usize>)
        ensures
            match at {
                Some(i) => {
                    &&& i < self.entries@.len()
                    &&& self.entries@[i as int].0@ == id@
                    &&& forall|j: int| 0 <= j < i ==> self.entries@[j].0@ != id@
                },
                None => forall|j: int| 0 <= j < self.entries@.len() ==> self.entries@[j].0@ != id@,
            },
    {
        let mut i: usize = 0;
        while i < self.entries.len()
            invariant
                i <= self.entries@.len(),
                forall|j: int| 0 <= j < i ==> self.entries@[j].0@ != id@,
            decreases self.entries@.len() - i,
        {
            if str_eq(self.entries[i].0.as_str(), id) {
                return Some(i);
            }
            i = i + 1;
        }
        None
    }

    /// The number kept for `id`.
    pub fn get(&self, id: &str) -> (value: Option<usize>)
        ensures
            value == (if self@.dom().contains(id@) {
                Some(self@[id@])
            } else {
                None
            }),
    {
        match self.place(id) {
            Some(i) => {
                proof {
                    lemma_value_found(self.entries@, id@, i as int);
                }
                Some(self.entries[i].1)
            },
            None => {
                proof {
                    lemma_value_absent(self.entries@, id@);
                }
                None
            },
        }
    }

    /// The number kept for `id`, or zero.
    pub fn count(&self, id: &str) -> (value: usize)
        ensures
            value == count_of(self@, id@),
    {
        match self.get(id) {
            Some(value) => value,
            None => 0,
        }
    }

    /// Keeps `value` for `id`.
    pub fn put(&mut self, id: &str, value: usize)
        ensures
            final(self)@ == old(self)@.insert(id@, value),
    {
        let ghost before = self.entries@;
        match self.place(id) {
            Some(i) => {
                let entry: (String, usize) = (id.to_owned(), value);
                let ghost new = entry;
                self.entries.set(i, entry);
                proof {
                    lemma_value_found(self.entries@, id@, i as int);
                    assert forall|other: Seq<char>| other != id@ implies #[trigger] value_in(
                        self.entries@,
                        other,
                    ) == value_in(before, other) by {
                        lemma_value_of_another(before, i as int, new, other);
                    }
                }
            },
            None => {
                let entry: (String, usize) = (id.to_owned(), value);
                let ghost new = entry;
                self.entries.push(entry);
                proof {
                    lemma_value_found(self.entries@, id@, before.len() as int);
                    assert forall|other: Seq<char>| other != id@ implies #[trigger] value_in(
                        self.entries@,
                        other,
                    ) == value_in(before, other) by {
                        lemma_value_after_push(before, new, other);
                    }
                }
            },
        }
        assert(self@ =~= old(self)@.insert(id@, value));
    }

    /// Adds one to the number kept for `id`, which starts at zero.
    pub fn bump(&mut self, id: &str)
        requires
            count_of(old(self)@, id@) < usize::MAX,
        ensures
            final(self)@ == old(self)@.insert(id@, (count_of(old(self)@, id@) + 1) as usize),
    {
        let value: usize = self.count(id);
        self.put(id, value + 1);
    }
}

/// The numbers with one more for an id; a number that is as large as can be stays.
pub open spec fn one_more(counts: Map<Seq<char>, usize>, id: Seq<char>) -> Map<Seq<char>, usize> {
    counts.insert(
        id,
        if count_of(counts, id) < usize::MAX {
            (count_of(counts, id) + 1) as usize
        } else {
            usize::MAX
        },
    )
}

impl Counts {
    /// Adds one to the number kept for `id`, unless it is as large as can be.
    pub fn count_one(&mut self, id: &str)
        ensures
            final(self)@ == one_more(old(self)@, id@),
    {
        let value: usize = self.count(id);
        if value < usize::MAX {
            self.put(id, value + 1);
        } else {
            self.put(id, usize::MAX);
        }
    }
}

/// A set of ids.
#[derive(Debug)]
pub struct IdSet {
    ids: Vec<String>,
}

impl View for IdSet {
    type V = Set<Seq<char>>;

    closed spec fn view(&self) -> Set<Seq<char>> {
        text::texts(self.ids@).to_set()
    }
}

impl IdSet {
    /// No id is held twice.
    pub closed spec fn wf(&self) -> bool {
        text::texts(self.ids@).no_duplicates()
    }

    /// The set without ids.
    pub fn new() -> (set: IdSet)
        ensures
            set@ == Set::<Seq<char>>::empty(),
            set.wf(),
    {
        let set: IdSet = IdSet { ids: Vec::new() };
        assert(set@ =~= Set::<Seq<char>>::empty());
        set
    }

    /// Whether `id` is in the set.
    pub fn contains(&self, id: &str) -> (yes: bool)
        ensures
            yes == self@.contains(id@),
    {
        let mut i: usize = 0;
        while i < self.ids.len()
            invariant
                i <= self.ids@.len(),
                forall|j: int| 0 <= j < i ==> self.ids@[j]@ != id@,
            decreases self.ids@.len() - i,
        {
            if str_eq(self.ids[i].as_str(), id) {
                assert(text::texts(self.ids@)[i as int] == id@);
                return true;
            }
            i = i + 1;
        }
        false
    }

    /// Puts `id` into the set and tells whether it was new.
    pub fn insert(&mut self, id: &str) -> (new: bool)
        ensures
            final(self)@ == old(self)@.insert(id@),
            new == !old(self)@.contains(id@),
            old(self).wf() ==> final(self).wf(),
    {
        if self.contains(id) {
            assert(self@ =~= old(self)@.insert(id@));
            return false;
        }
        let ghost before = text::texts(self.ids@);
        self.ids.push(id.to_owned());
        proof {
            let after = text::texts(self.ids@);
            assert(after =~= before.push(id@));
            assert forall|x: Seq<char>| after.to_set().contains(x) implies before.to_set().insert(
                id@,
            ).contains(x) by {
                let k = choose|k: int| 0 <= k < after.len() && after[k] == x;
                if k < before.len() {
                    assert(before[k] == x);
                }
            }
            assert forall|x: Seq<char>| before.to_set().insert(id@).contains(
                x,
            ) implies after.to_set().contains(x) by {
                if x == id@ {
                    assert(after[before.len() as int] == x);
                } else {
                    let k = choose|k: int| 0 <= k < before.len() && before[k] == x;
                    assert(after[k] == x);
                }
            }
            assert(after.to_set() =~= before.to_set().insert(id@));
        }
        true
    }

    /// A copy of the set.
    pub fn copy(&self) -> (copy: IdSet)
        ensures
            copy@ == self@,
            self.wf() ==> copy.wf(),
    {
        IdSet { ids: text::copy_texts(&self.ids) }
    }

    /// Whether every id of the set is in a list.
    pub fn all_in(&self, list: &Vec<String>) -> (yes: bool)
        ensures
            yes == forall|id: Seq<char>| #[trigger]
                self@.contains(id) ==> text::texts(list@).contains(id),
    {
        let mut i: usize = 0;
        while i < self.ids.len()
            invariant
                i <= self.ids@.len(),
                forall|j: int| 0 <= j < i ==> text::texts(list@).contains(#[trigger] self.ids@[j]@),
            decreases self.ids@.len() - i,
        {
            let mut found: bool = false;
            let mut k: usize = 0;
            while k < list.len()
                invariant
                    k <= list@.len(),
                    i < self.ids@.len(),
                    found == exists|m: int| 0 <= m < k && (#[trigger] list@[m])@ == self.ids@[i as int]@,
                decreases list@.len() - k,
            {
                if str_eq(list[k].as_str(), self.ids[i].as_str()) {
                    found = true;
                }
                k = k + 1;
            }
            if !found {
                proof {
                    let id = self.ids@[i as int]@;
                    assert(text::texts(self.ids@)[i as int] == id);
                    assert(self@.contains(id));
                    if text::texts(list@).contains(id) {
                        let m = choose|m: int|
                            0 <= m < text::texts(list@).len() && text::texts(list@)[m] == id;
                        assert(list@[m]@ == id);
                    }
                }
                return false;
            }
            proof {
                let m = choose|m: int| 0 <= m < k && (#[trigger] list@[m])@ == self.ids@[i as int]@;
                assert(text::texts(list@)[m] == self.ids@[i as int]@);
            }
            i = i + 1;
        }
        assert forall|id: Seq<char>| #[trigger] self@.contains(id) implies text::texts(
            list@,
        ).contains(id) by {
            let j = choose|j: int|
                0 <= j < text::texts(self.ids@).len() && text::texts(self.ids@)[j] == id;
            assert(self.ids@[j]@ == id);
        }
        true
    }

    /// How many ids the set holds.
    pub fn len(&self) -> (n: usize)
        requires
            self.wf(),
        ensures
            n == self@.len(),
    {
        proof {
            text::texts(self.ids@).unique_seq_to_set();
        }
        self.ids.len()
    }
}

/// The set of the ids of a list.
pub fn id_set(list: &Vec<String>) -> (set: IdSet)
    ensures
        set@ == text::texts(list@).to_set(),
        set.wf(),
{
    let mut set: IdSet = IdSet::new();
    let mut i: usize = 0;
    assert(text::texts(list@).take(0).to_set() =~= Set::<Seq<char>>::empty());
    while i < list.len()
        invariant
            i <= list@.len(),
            set.wf(),
            set@ == text::texts(list@).take(i as int).to_set(),
        decreases list@.len() - i,
    {
        set.insert(list[i].as_str());
        proof {
            let all = text::texts(list@);
            assert(all.take(i + 1) =~= all.take(i as int).push(all[i as int]));
            all.take(i as int).lemma_push_to_set_commute(all[i as int]);
        }
        i = i + 1;
    }
    assert(text::texts(list@).take(i as int) =~= text::texts(list@));
    set
}

impl Counts {
    /// How many ids have a number.
    pub fn len(&self) -> (n: usize)
        ensures
            n == self@.dom().len(),
    {
        let mut ids: IdSet = IdSet::new();
        let mut i: usize = 0;
        while i < self.entries.len()
            invariant
                i <= self.entries@.len(),
                ids.wf(),
                forall|id: Seq<char>| #[trigger]
                    ids@.contains(id) == exists|j: int|
                        0 <= j < i && (#[trigger] self.entries@[j]).0@ == id,
            decreases self.entries@.len() - i,
        {
            let ghost before = ids@;
            let ghost name = self.entries@[i as int].0@;
            let _ = ids.insert(self.entries[i].0.as_str());
            assert forall|id: Seq<char>| #[trigger] ids@.contains(id) == exists|j: int|
                0 <= j < i + 1 && (#[trigger] self.entries@[j]).0@ == id by {
                if before.contains(id) {
                    let j = choose|j: int| 0 <= j < i && (#[trigger] self.entries@[j]).0@ == id;
                    assert(self.entries@[j].0@ == id);
                }
                if id == name {
                    assert(self.entries@[i as int].0@ == id);
                }
            }
            i = i + 1;
        }
        assert forall|id: Seq<char>| #[trigger] ids@.contains(id) == self@.dom().contains(id) by {
            if ids@.contains(id) {
                lemma_value_held(self.entries@, id);
            } else {
                lemma_value_absent(self.entries@, id);
            }
        }
        assert(ids@ =~= self@.dom());
        ids.len()
    }
}

proof fn lemma_value_held(entries: Seq<(String, usize)>, id: Seq<char>)
    requires
        exists|j: int| 0 <= j < entries.len() && (#[trigger] entries[j]).0@ == id,
    ensures
        value_in(entries, id) is Some,
    decreases entries.len(),
{
    let j = choose|j: int| 0 <= j < entries.len() && (#[trigger] entries[j]).0@ == id;
    if entries[0].0@ != id {
        assert(entries.drop_first()[j - 1].0@ == id);
        lemma_value_held(entries.drop_first(), id);
    }
}

} // verus!
