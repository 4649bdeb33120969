//! Putting the measurements of all clients together: which files are read, what each row says of
//! the client and the container it comes from, and the order of the rows.

use vstd::prelude::*;

use crate::order;
use crate::order::{sort_texts, stable_order, SortKey};
use crate::record;
use crate::table::IdSet;
use crate::text;
use crate::text::{copy_maybe, split, str_eq, strip_prefix, text_of, trim};
use crate::workers::{WorkerLayout, WorkerLayoutClient, WorkerLayoutPhysicalWorker};

verus! {

// ---------------------------------------------------------------------------
// Which files are read
// ---------------------------------------------------------------------------

/// The ids of the clients of a layout that are measured.
pub open spec fn measured_ids(clients: Seq<WorkerLayoutClient>) -> Seq<Seq<char>>
    decreases clients.len(),
{
    if clients.len() == 0 {
        Seq::empty()
    } else {
        let front = measured_ids(clients.drop_last());
        if clients.last().profile_enabled {
            front.push(clients.last().client_id@)
        } else {
            front
        }
    }
}

/// A list without what stood in it before.
pub open spec fn firsts(list: Seq<Seq<char>>) -> Seq<Seq<char>>
    decreases list.len(),
{
    if list.len() == 0 {
        Seq::empty()
    } else {
        let front = firsts(list.drop_last());
        if front.contains(list.last()) {
            front
        } else {
            front.push(list.last())
        }
    }
}

/// The clients of a layout, if there is one.
pub open spec fn clients_of(layout: Option<WorkerLayout>) -> Seq<WorkerLayoutClient> {
    match layout {
        Some(layout) => layout.clients@,
        None => Seq::empty(),
    }
}

/// The containers and devices of a layout, if there is one.
pub open spec fn physical_of(layout: Option<WorkerLayout>) -> Seq<WorkerLayoutPhysicalWorker> {
    match layout {
        Some(layout) => layout.physical_workers@,
        None => Seq::empty(),
    }
}

/// The clients whose files count, each once: those that the layout measures, then the workers that
/// were named.
pub open spec fn file_ids(layout: Option<WorkerLayout>, worker_ids: Seq<Seq<char>>) -> Seq<
    Seq<char>,
> {
    firsts(measured_ids(clients_of(layout)) + worker_ids)
}

/// Whether the measurements of a client are to be read: a layout says so of each client; without
/// one those of the named workers are.
pub open spec fn is_measured(
    layout: Option<WorkerLayout>,
    worker_ids: Seq<Seq<char>>,
    id: Seq<char>,
) -> bool {
    match layout {
        Some(layout) => measured_ids(layout.clients@).contains(id),
        None => worker_ids.contains(id),
    }
}

/// Dropping what stood before keeps what is in a list, and leaves nothing twice.
pub proof fn law_firsts(list: Seq<Seq<char>>)
    ensures
        firsts(list).no_duplicates(),
        forall|id: Seq<char>| #[trigger] firsts(list).contains(id) == list.contains(id),
    decreases list.len(),
{
    if list.len() > 0 {
        let init = list.drop_last();
        law_firsts(init);
        let front = firsts(init);
        assert forall|id: Seq<char>| #[trigger] firsts(list).contains(id) == list.contains(id) by {
            if list.contains(id) {
                let i = choose|i: int| 0 <= i < list.len() && list[i] == id;
                if i < init.len() {
                    assert(init[i] == id);
                    assert(front.contains(id));
                    let j = choose|j: int| 0 <= j < front.len() && front[j] == id;
                    assert(firsts(list)[j] == id);
                } else if !front.contains(id) {
                    assert(firsts(list)[front.len() as int] == id);
                }
            }
            if firsts(list).contains(id) {
                let j = choose|j: int| 0 <= j < firsts(list).len() && firsts(list)[j] == id;
                if j < front.len() {
                    assert(front[j] == id);
                    assert(front.contains(id));
                    assert(init.contains(id));
                    let i = choose|i: int| 0 <= i < init.len() && init[i] == id;
                    assert(list[i] == id);
                } else {
                    assert(list[list.len() - 1] == id);
                }
            }
        }
    }
}

/// A client is among those that a layout measures exactly where an entry of the layout says so.
proof fn lemma_measured_ids(clients: Seq<WorkerLayoutClient>, id: Seq<char>)
    ensures
        measured_ids(clients).contains(id) == exists|i: int|
            0 <= i < clients.len() && (#[trigger] clients[i]).profile_enabled
                && clients[i].client_id@ == id,
    decreases clients.len(),
{
    if clients.len() > 0 {
        let front = clients.drop_last();
        let last = clients.len() - 1;
        lemma_measured_ids(front, id);
        let ids = measured_ids(front);
        if ids.contains(id) {
            let k = choose|k: int| 0 <= k < ids.len() && ids[k] == id;
            assert(measured_ids(clients)[k] == id);
            let i = choose|i: int|
                0 <= i < front.len() && (#[trigger] front[i]).profile_enabled
                    && front[i].client_id@ == id;
            assert(clients[i] == front[i]);
        } else if clients[last].profile_enabled && clients[last].client_id@ == id {
            assert(measured_ids(clients)[ids.len() as int] == id);
        } else {
            assert forall|i: int|
                0 <= i < clients.len() && (
                #[trigger] clients[i]).profile_enabled implies clients[i].client_id@ != id by {
                if i < last {
                    assert(front[i] == clients[i]);
                }
            }
            if measured_ids(clients).contains(id) {
                let k = choose|k: int|
                    0 <= k < measured_ids(clients).len() && measured_ids(clients)[k] == id;
                if k < ids.len() {
                    assert(ids[k] == id);
                }
            }
        }
    }
}

/// Files of clients that no layout measures are read only if they were named, and every client that
/// the layout measures has a file that is read.
pub proof fn law_file_ids(layout: Option<WorkerLayout>, worker_ids: Seq<Seq<char>>, id: Seq<char>)
    ensures
        file_ids(layout, worker_ids).no_duplicates(),
        layout is None ==> (file_ids(layout, worker_ids).contains(id) == worker_ids.contains(id)
            && is_measured(layout, worker_ids, id) == worker_ids.contains(id)),
        is_measured(layout, worker_ids, id) ==> file_ids(layout, worker_ids).contains(id),
        layout is Some ==> {
            let measured = exists|i: int|
                0 <= i < layout->0.clients@.len() && (
                #[trigger] layout->0.clients@[i]).profile_enabled && layout->0.clients@[i].client_id@
                    == id;
            &&& is_measured(layout, worker_ids, id) == measured
            &&& file_ids(layout, worker_ids).contains(id) == (measured || worker_ids.contains(id))
        },
{
    lemma_measured_ids(clients_of(layout), id);
    let all = measured_ids(clients_of(layout)) + worker_ids;
    law_firsts(all);
    let front = measured_ids(clients_of(layout));
    if front.contains(id) {
        let i = choose|i: int| 0 <= i < front.len() && front[i] == id;
        assert(all[i] == id);
    }
    if worker_ids.contains(id) {
        let i = choose|i: int| 0 <= i < worker_ids.len() && worker_ids[i] == id;
        assert(all[front.len() + i] == id);
    }
    if layout is None {
        assert(all =~= worker_ids);
    } else if all.contains(id) {
        let i = choose|i: int| 0 <= i < all.len() && all[i] == id;
        if i < front.len() {
            assert(front[i] == id);
        } else {
            assert(worker_ids[i - front.len()] == id);
        }
    }
}

/// The ids of the clients of a layout that are measured.
fn list_measured(clients: &Vec<WorkerLayoutClient>) -> (out: Vec<String>)
    ensures
        text::texts(out@) == measured_ids(clients@),
{
    let mut out: Vec<String> = Vec::new();
    let mut i: usize = 0;
    while i < clients.len()
        invariant
            i <= clients@.len(),
            text::texts(out@) == measured_ids(clients@.take(i as int)),
        decreases clients@.len() - i,
    {
        assert(clients@.take(i + 1).drop_last() =~= clients@.take(i as int));
        if clients[i].profile_enabled {
            let id: String = clients[i].client_id.as_str().to_owned();
            assert(text::texts(out@.push(id)) =~= text::texts(out@).push(id@));
            out.push(id);
        }
        i = i + 1;
    }
    assert(clients@.take(i as int) =~= clients@);
    out
}

/// Whether an id is in a list.
fn is_listed(list: &Vec<String>, id: &str) -> (yes: bool)
    ensures
        yes == text::texts(list@).contains(id@),
{
    let mut i: usize = 0;
    while i < list.len()
        invariant
            i <= list@.len(),
            forall|j: int| 0 <= j < i ==> (#[trigger] text::texts(list@)[j]) != id@,
        decreases list@.len() - i,
    {
        if str_eq(list[i].as_str(), id) {
            assert(text::texts(list@)[i as int] == id@);
            return true;
        }
        assert(text::texts(list@)[i as int] != id@);
        i = i + 1;
    }
    false
}

/// The clients whose files count, each with whether its measurements are to be read: a file of a
/// client that is not measured is a leftover.
pub fn plan_files(layout: &Option<WorkerLayout>, worker_ids: &Vec<String>) -> (plan: Vec<
    (String, bool),
>)
    ensures
        plan@.len() == file_ids(*layout, text::texts(worker_ids@)).len(),
        forall|i: int|
            0 <= i < plan@.len() ==> (#[trigger] plan@[i]).0@ == file_ids(
                *layout,
                text::texts(worker_ids@),
            )[i] && plan@[i].1 == is_measured(*layout, text::texts(worker_ids@), plan@[i].0@),
{
    let ghost named = text::texts(worker_ids@);
    let mut all: Vec<String> = match layout {
        Some(layout) => list_measured(&layout.clients),
        None => Vec::new(),
    };
    let ghost measured = text::texts(all@);
    assert(measured =~= measured_ids(clients_of(*layout)));
    let measured_list: Vec<String> = text::copy_texts(&all);
    let mut i: usize = 0;
    while i < worker_ids.len()
        invariant
            i <= worker_ids@.len(),
            named == text::texts(worker_ids@),
            text::texts(all@) == measured + named.take(i as int),
        decreases worker_ids@.len() - i,
    {
        let id: String = worker_ids[i].as_str().to_owned();
        assert(named[i as int] == id@);
        assert(measured + named.take(i + 1) =~= (measured + named.take(i as int)).push(id@));
        assert(text::texts(all@.push(id)) =~= text::texts(all@).push(id@));
        all.push(id);
        i = i + 1;
    }
    assert(named.take(i as int) =~= named);
    let ghost list = text::texts(all@);
    assert(list == measured + named);
    let mut seen: IdSet = IdSet::new();
    let mut plan: Vec<(String, bool)> = Vec::new();
    let mut k: usize = 0;
    while k < all.len()
        invariant
            k <= all@.len(),
            list == text::texts(all@),
            named == text::texts(worker_ids@),
            measured == measured_ids(clients_of(*layout)),
            text::texts(measured_list@) == measured,
            seen@ == firsts(list.take(k as int)).to_set(),
            plan@.len() == firsts(list.take(k as int)).len(),
            forall|j: int|
                0 <= j < plan@.len() ==> (#[trigger] plan@[j]).0@ == firsts(list.take(k as int))[j]
                    && plan@[j].1 == is_measured(*layout, named, plan@[j].0@),
        decreases all@.len() - k,
    {
        let ghost before = firsts(list.take(k as int));
        assert(list.take(k + 1).drop_last() =~= list.take(k as int));
        assert(list.take(k + 1).last() == all@[k as int]@);
        let id: &str = all[k].as_str();
        if seen.insert(id) {
            assert(before.push(id@).to_set() =~= before.to_set().insert(id@)) by {
                let longer = before.push(id@);
                assert(longer[before.len() as int] == id@);
                assert forall|x: Seq<char>| before.contains(x) implies longer.contains(x) by {
                    let j = choose|j: int| 0 <= j < before.len() && before[j] == x;
                    assert(longer[j] == x);
                }
            }
            let read: bool = match layout {
                Some(_) => is_listed(&measured_list, id),
                None => is_listed(worker_ids, id),
            };
            plan.push((id.to_owned(), read));
        } else {
            assert(before.to_set().insert(id@) =~= before.to_set());
        }
        k = k + 1;
    }
    assert(list.take(k as int) =~= list);
    plan
}

// ---------------------------------------------------------------------------
// Measurements
// ---------------------------------------------------------------------------

/// What is read of one measurement.
#[derive(Debug)]
pub struct ProfileFacts {
    pub ts_unix_ns: u128,
    pub span_id: Option<u64>,
    pub span_name: Option<String>,
    pub parent_operation: Option<String>,
    pub failure_class: Option<String>,
    pub runner_event_kind: Option<String>,
    pub execution_backend: Option<String>,
    pub device_kind: Option<String>,
    pub memory_model: Option<String>,
    pub app_heap_budget: Option<String>,
    pub app_heap_budget_bytes: Option<u64>,
}

/// What a span is called: its name and the operation around it.
pub type SpanName = (Seq<char>, Option<Seq<char>>);

impl ProfileFacts {
    /// Whether the measurement tells that a heap budget was exceeded.
    pub open spec fn is_heap_failure(self) -> bool {
        text::maybe(self.failure_class) == Some("app_heap_budget_exceeded"@)
    }

    /// Whether the measurement tells of a failed worker.
    pub open spec fn is_worker_failure(self) -> bool {
        text::maybe(self.runner_event_kind) == Some("worker_failure"@)
    }
}

/// What spans are called, as far as the measurements say: the last one to name a span counts.
pub open spec fn span_names(events: Seq<ProfileFacts>) -> Map<u64, SpanName>
    decreases events.len(),
{
    if events.len() == 0 {
        Map::empty()
    } else {
        let front = span_names(events.drop_last());
        let last = events.last();
        if !last.is_heap_failure() && last.span_id is Some && last.span_name is Some {
            front.insert(last.span_id->0, (last.span_name->0@, text::maybe(last.parent_operation)))
        } else {
            front
        }
    }
}

/// What the span of a measurement is called: where a heap budget was exceeded, as the measurements
/// before it say, if they do.
pub open spec fn span_told(events: Seq<ProfileFacts>, at: int) -> (
    Option<Seq<char>>,
    Option<Seq<char>>,
) {
    let event = events[at];
    let known = span_names(events.take(at));
    if event.is_heap_failure() && event.span_id is Some && known.dom().contains(event.span_id->0) {
        let name = known[event.span_id->0];
        (Some(name.0), name.1)
    } else {
        (text::maybe(event.span_name), text::maybe(event.parent_operation))
    }
}

/// The names of spans, in the order in which they were given.
struct SpanTable {
    entries: Vec<(u64, String, Option<String>)>,
}

/// What a table of names says.
spec fn table_names(entries: Seq<(u64, String, Option<String>)>) -> Map<u64, SpanName>
    decreases entries.len(),
{
    if entries.len() == 0 {
        Map::empty()
    } else {
        let last = entries.last();
        table_names(entries.drop_last()).insert(last.0, (last.1@, text::maybe(last.2)))
    }
}

impl SpanTable {
    /// The place of the last name of a span.
    fn find(&self, span: u64) -> (at: Option<usize>)
        ensures
            match at {
                Some(at) => at < self.entries@.len() && table_names(self.entries@).dom().contains(
                    span,
                ) && table_names(self.entries@)[span] == (
                    self.entries@[at as int].1@,
                    text::maybe(self.entries@[at as int].2),
                ),
                None => !table_names(self.entries@).dom().contains(span),
            },
    {
        let ghost all = self.entries@;
        let mut i: usize = self.entries.len();
        assert(all.take(i as int) =~= all);
        while i > 0
            invariant
                i <= self.entries@.len(),
                all == self.entries@,
                table_names(all).dom().contains(span) == table_names(
                    all.take(i as int),
                ).dom().contains(span),
                table_names(all).dom().contains(span) ==> table_names(all)[span] == table_names(
                    all.take(i as int),
                )[span],
            decreases i,
        {
            i = i - 1;
            assert(all.take(i + 1).drop_last() =~= all.take(i as int));
            assert(all.take(i + 1).last() == all[i as int]);
            if self.entries[i].0 == span {
                return Some(i);
            }
        }
        assert(all.take(0).len() == 0);
        None
    }
}

/// What the spans of measurements are called.
pub fn resolve_spans(events: &Vec<ProfileFacts>) -> (names: Vec<(Option<String>, Option<String>)>)
    ensures
        names@.len() == events@.len(),
        forall|i: int|
            0 <= i < names@.len() ==> (
                text::maybe((#[trigger] names@[i]).0),
                text::maybe(names@[i].1),
            ) == span_told(events@, i),
{
    let mut table: SpanTable = SpanTable { entries: Vec::new() };
    let mut names: Vec<(Option<String>, Option<String>)> = Vec::new();
    let mut i: usize = 0;
    while i < events.len()
        invariant
            i <= events@.len(),
            names@.len() == i,
            table_names(table.entries@) == span_names(events@.take(i as int)),
            forall|j: int|
                0 <= j < i ==> (
                    text::maybe((#[trigger] names@[j]).0),
                    text::maybe(names@[j].1),
                ) == span_told(events@, j),
        decreases events@.len() - i,
    {
        let event: &ProfileFacts = &events[i];
        assert(events@.take(i + 1).drop_last() =~= events@.take(i as int));
        assert(events@.take(i + 1).last() == *event);
        let heap_failure: bool = match &event.failure_class {
            Some(class) => str_eq(class.as_str(), "app_heap_budget_exceeded"),
            None => false,
        };
        let known: Option<usize> = if heap_failure {
            match event.span_id {
                Some(span) => table.find(span),
                None => None,
            }
        } else {
            None
        };
        match known {
            Some(at) => {
                let name: String = table.entries[at].1.as_str().to_owned();
                let parent: Option<String> = copy_maybe(&table.entries[at].2);
                names.push((Some(name), parent));
            },
            None => {
                names.push((copy_maybe(&event.span_name), copy_maybe(&event.parent_operation)));
            },
        }
        if !heap_failure {
            match (event.span_id, &event.span_name) {
                (Some(span), Some(name)) => {
                    let ghost before = table.entries@;
                    let entry: (u64, String, Option<String>) = (
                        span,
                        name.as_str().to_owned(),
                        copy_maybe(&event.parent_operation),
                    );
                    table.entries.push(entry);
                    assert(table.entries@.drop_last() =~= before);
                },
                _ => {},
            }
        }
        i = i + 1;
    }
    names
}

// ---------------------------------------------------------------------------
// Rows
// ---------------------------------------------------------------------------

/// A row: what it says of the client and of the container, and which measurement it holds. The
/// columns that a measurement fills itself are copied from it.
#[derive(Debug)]
pub struct RowFacts {
    pub file: usize,
    pub event: usize,
    pub physical: Option<usize>,
    pub client_id: String,
    pub worker_id: String,
    pub container_mode: String,
    pub execution_backend: String,
    pub device_kind: String,
    pub span_name: Option<String>,
    pub parent_operation: Option<String>,
    pub memory_model: Option<String>,
    pub docker_memory_limit: Option<String>,
    pub app_heap_budget: Option<String>,
    pub app_heap_budget_bytes: Option<u64>,
    pub resource_profile: String,
    pub resource_profile_id: String,
    pub resource_experiment_type: String,
    pub profiled_singleton: bool,
}

/// A row: what it says of the client and of the container, and which measurement it holds.
#[verifier::ext_equal]
pub struct RowView {
    pub file: usize,
    pub event: usize,
    pub physical: Option<usize>,
    pub client_id: Seq<char>,
    pub worker_id: Seq<char>,
    pub container_mode: Seq<char>,
    pub execution_backend: Seq<char>,
    pub device_kind: Seq<char>,
    pub span_name: Option<Seq<char>>,
    pub parent_operation: Option<Seq<char>>,
    pub memory_model: Option<Seq<char>>,
    pub docker_memory_limit: Option<Seq<char>>,
    pub app_heap_budget: Option<Seq<char>>,
    pub app_heap_budget_bytes: Option<u64>,
    pub resource_profile: Seq<char>,
    pub resource_profile_id: Seq<char>,
    pub resource_experiment_type: Seq<char>,
    pub profiled_singleton: bool,
}

impl View for RowFacts {
    type V = RowView;

    open spec fn view(&self) -> RowView {
        RowView {
            file: self.file,
            event: self.event,
            physical: self.physical,
            client_id: self.client_id@,
            worker_id: self.worker_id@,
            container_mode: self.container_mode@,
            execution_backend: self.execution_backend@,
            device_kind: self.device_kind@,
            span_name: text::maybe(self.span_name),
            parent_operation: text::maybe(self.parent_operation),
            memory_model: text::maybe(self.memory_model),
            docker_memory_limit: text::maybe(self.docker_memory_limit),
            app_heap_budget: text::maybe(self.app_heap_budget),
            app_heap_budget_bytes: self.app_heap_budget_bytes,
            resource_profile: self.resource_profile@,
            resource_profile_id: self.resource_profile_id@,
            resource_experiment_type: self.resource_experiment_type@,
            profiled_singleton: self.profiled_singleton,
        }
    }
}

/// The place of the last client of an id in a layout.
pub open spec fn client_place(clients: Seq<WorkerLayoutClient>, id: Seq<char>) -> Option<int>
    decreases clients.len(),
{
    if clients.len() == 0 {
        None
    } else if clients.last().client_id@ == id {
        Some(clients.len() - 1)
    } else {
        client_place(clients.drop_last(), id)
    }
}

/// The place of the last container or device of an id in a layout.
pub open spec fn physical_place(workers: Seq<WorkerLayoutPhysicalWorker>, id: Seq<char>) -> Option<
    int,
>
    decreases workers.len(),
{
    if workers.len() == 0 {
        None
    } else if workers.last().physical_worker_id@ == id {
        Some(workers.len() - 1)
    } else {
        physical_place(workers.drop_last(), id)
    }
}

/// A text, or another where it is missing or empty.
pub open spec fn filled(value: Option<Seq<char>>, default: Seq<char>) -> Seq<char> {
    match value {
        Some(value) => if value.len() > 0 {
            value
        } else {
            default
        },
        None => default,
    }
}

/// A text that is there, or else another that is not empty.
pub open spec fn either_text(first: Option<Seq<char>>, second: Option<Seq<char>>) -> Option<
    Seq<char>,
> {
    match first {
        Some(given) => Some(given),
        None => match second {
            Some(other) => record::unless_empty(other),
            None => None,
        },
    }
}

/// The row of a measurement.
pub open spec fn row_of(
    layout: Option<WorkerLayout>,
    id: Seq<char>,
    file: usize,
    events: Seq<ProfileFacts>,
    at: int,
) -> RowView {
    let event = events[at];
    let place = client_place(clients_of(layout), id);
    let told = |given: spec_fn(WorkerLayoutClient) -> Seq<char>|
        match place {
            Some(k) => Some(given(clients_of(layout)[k])),
            None => None::<Seq<char>>,
        };
    let physical_id = filled(told(|c: WorkerLayoutClient| c.physical_worker_id@), id);
    let physical = physical_place(physical_of(layout), physical_id);
    let known = |given: spec_fn(WorkerLayoutPhysicalWorker) -> Seq<char>|
        match physical {
            Some(k) => Some(given(physical_of(layout)[k])),
            None => None::<Seq<char>>,
        };
    let span = span_told(events, at);
    RowView {
        file,
        event: at as usize,
        physical: match physical {
            Some(k) => Some(k as usize),
            None => None,
        },
        client_id: id,
        worker_id: physical_id,
        container_mode: filled(told(|c: WorkerLayoutClient| c.container_mode@), "singleton"@),
        execution_backend: filled(
            told(|c: WorkerLayoutClient| c.execution_backend@),
            filled(text::maybe(event.execution_backend), "local_process"@),
        ),
        device_kind: filled(
            told(|c: WorkerLayoutClient| c.device_kind@),
            filled(text::maybe(event.device_kind), "local_process"@),
        ),
        span_name: span.0,
        parent_operation: span.1,
        memory_model: either_text(
            text::maybe(event.memory_model),
            known(|w: WorkerLayoutPhysicalWorker| w.memory_model@),
        ),
        docker_memory_limit: either_text(
            None,
            known(|w: WorkerLayoutPhysicalWorker| w.docker_memory_limit@),
        ),
        app_heap_budget: either_text(
            text::maybe(event.app_heap_budget),
            known(|w: WorkerLayoutPhysicalWorker| w.app_heap_budget@),
        ),
        app_heap_budget_bytes: match event.app_heap_budget_bytes {
            Some(bytes) => Some(bytes),
            None => match physical {
                Some(k) => physical_of(layout)[k].app_heap_budget_bytes,
                None => None,
            },
        },
        resource_profile: filled(
            known(|w: WorkerLayoutPhysicalWorker| w.resource_profile@),
            Seq::empty(),
        ),
        resource_profile_id: filled(
            known(|w: WorkerLayoutPhysicalWorker| w.resource_profile_id@),
            Seq::empty(),
        ),
        resource_experiment_type: filled(
            known(|w: WorkerLayoutPhysicalWorker| w.resource_experiment_type@),
            Seq::empty(),
        ),
        profiled_singleton: match physical {
            Some(k) => physical_of(layout)[k].profiled_singleton,
            None => false,
        },
    }
}

/// The place of the last client of an id in a layout.
fn find_client(clients: &Vec<WorkerLayoutClient>, id: &str) -> (at: Option<usize>)
    ensures
        match at {
            Some(at) => at < clients@.len() && client_place(clients@, id@) == Some(at as int),
            None => client_place(clients@, id@) is None,
        },
{
    let mut i: usize = clients.len();
    assert(clients@.take(i as int) =~= clients@);
    while i > 0
        invariant
            i <= clients@.len(),
            client_place(clients@, id@) == client_place(clients@.take(i as int), id@),
        decreases i,
    {
        i = i - 1;
        assert(clients@.take(i + 1).drop_last() =~= clients@.take(i as int));
        if str_eq(clients[i].client_id.as_str(), id) {
            return Some(i);
        }
    }
    None
}

/// The place of the last container or device of an id in a layout.
fn find_physical(workers: &Vec<WorkerLayoutPhysicalWorker>, id: &str) -> (at: Option<usize>)
    ensures
        match at {
            Some(at) => at < workers@.len() && physical_place(workers@, id@) == Some(at as int),
            None => physical_place(workers@, id@) is None,
        },
{
    let mut i: usize = workers.len();
    assert(workers@.take(i as int) =~= workers@);
    while i > 0
        invariant
            i <= workers@.len(),
            physical_place(workers@, id@) == physical_place(workers@.take(i as int), id@),
        decreases i,
    {
        i = i - 1;
        assert(workers@.take(i + 1).drop_last() =~= workers@.take(i as int));
        if str_eq(workers[i].physical_worker_id.as_str(), id) {
            return Some(i);
        }
    }
    None
}

/// A text, or another where it is missing or empty.
pub fn non_empty_or<'a>(value: Option<&'a str>, default: &'a str) -> (out: &'a str)
    ensures
        out@ == filled(text::named(value), default@),
{
    match value {
        Some(value) => if value.is_empty() {
            default
        } else {
            value
        },
        None => default,
    }
}

/// A text that is there, or else another that is not empty.
fn text_or(first: &Option<String>, second: Option<&str>) -> (out: Option<String>)
    ensures
        text::maybe(out) == either_text(text::maybe(*first), text::named(second)),
{
    match first {
        Some(given) => Some(given.as_str().to_owned()),
        None => match second {
            Some(other) => record::non_empty_string(other),
            None => None,
        },
    }
}

/// A text that may be missing, borrowed.
fn borrowed_text(value: &Option<String>) -> (out: Option<&str>)
    ensures
        text::named(out) == text::maybe(*value),
{
    match value {
        Some(value) => Some(value.as_str()),
        None => None,
    }
}

/// The rows of one file.
pub fn rows_of_file(
    layout: &Option<WorkerLayout>,
    id: &str,
    file: usize,
    events: &Vec<ProfileFacts>,
) -> (rows: Vec<RowFacts>)
    ensures
        rows@.len() == events@.len(),
        forall|i: int|
            0 <= i < rows@.len() ==> (#[trigger] rows@[i])@ == row_of(
                *layout,
                id@,
                file,
                events@,
                i,
            ),
{
    let names: Vec<(Option<String>, Option<String>)> = resolve_spans(events);
    let meta: Option<&WorkerLayoutClient> = match layout {
        Some(layout) => match find_client(&layout.clients, id) {
            Some(at) => Some(&layout.clients[at]),
            None => None,
        },
        None => None,
    };
    let physical_id: &str = match meta {
        Some(client) => non_empty_or(Some(client.physical_worker_id.as_str()), id),
        None => id,
    };
    let place: Option<usize> = match layout {
        Some(layout) => find_physical(&layout.physical_workers, physical_id),
        None => None,
    };
    let none: Option<String> = None;
    let mut rows: Vec<RowFacts> = Vec::new();
    let mut i: usize = 0;
    while i < events.len()
        invariant
            i <= events@.len(),
            rows@.len() == i,
            names@.len() == events@.len(),
            forall|j: int|
                0 <= j < names@.len() ==> (
                    text::maybe((#[trigger] names@[j]).0),
                    text::maybe(names@[j].1),
                ) == span_told(events@, j),
            none is None,
            match client_place(clients_of(*layout), id@) {
                Some(k) => meta is Some && *meta->0 == clients_of(*layout)[k],
                None => meta is None,
            },
            physical_id@ == (match meta {
                Some(client) => filled(Some(client.physical_worker_id@), id@),
                None => id@,
            }),
            match place {
                Some(k) => layout is Some && k < layout->0.physical_workers@.len()
                    && physical_place(physical_of(*layout), physical_id@) == Some(k as int),
                None => physical_place(physical_of(*layout), physical_id@) is None,
            },
            forall|j: int|
                0 <= j < i ==> (#[trigger] rows@[j])@ == row_of(*layout, id@, file, events@, j),
        decreases events@.len() - i,
    {
        let event: &ProfileFacts = &events[i];
        let physical: Option<&WorkerLayoutPhysicalWorker> = match (layout, place) {
            (Some(layout), Some(at)) => Some(&layout.physical_workers[at]),
            _ => None,
        };
        let own_backend: &str = non_empty_or(
            borrowed_text(&event.execution_backend),
            "local_process",
        );
        let own_kind: &str = non_empty_or(borrowed_text(&event.device_kind), "local_process");
        let (container_mode, execution_backend, device_kind): (&str, &str, &str) = match meta {
            Some(client) => (
                non_empty_or(Some(client.container_mode.as_str()), "singleton"),
                non_empty_or(Some(client.execution_backend.as_str()), own_backend),
                non_empty_or(Some(client.device_kind.as_str()), own_kind),
            ),
            None => ("singleton", own_backend, own_kind),
        };
        let row: RowFacts = match physical {
            Some(worker) => RowFacts {
                file,
                event: i,
                physical: place,
                client_id: id.to_owned(),
                worker_id: physical_id.to_owned(),
                container_mode: container_mode.to_owned(),
                execution_backend: execution_backend.to_owned(),
                device_kind: device_kind.to_owned(),
                span_name: copy_maybe(&names[i].0),
                parent_operation: copy_maybe(&names[i].1),
                memory_model: text_or(&event.memory_model, Some(worker.memory_model.as_str())),
                docker_memory_limit: text_or(&none, Some(worker.docker_memory_limit.as_str())),
                app_heap_budget: text_or(
                    &event.app_heap_budget,
                    Some(worker.app_heap_budget.as_str()),
                ),
                app_heap_budget_bytes: match event.app_heap_budget_bytes {
                    Some(bytes) => Some(bytes),
                    None => worker.app_heap_budget_bytes,
                },
                resource_profile: worker.resource_profile.as_str().to_owned(),
                resource_profile_id: worker.resource_profile_id.as_str().to_owned(),
                resource_experiment_type: worker.resource_experiment_type.as_str().to_owned(),
                profiled_singleton: worker.profiled_singleton,
            },
            None => RowFacts {
                file,
                event: i,
                physical: None,
                client_id: id.to_owned(),
                worker_id: physical_id.to_owned(),
                container_mode: container_mode.to_owned(),
                execution_backend: execution_backend.to_owned(),
                device_kind: device_kind.to_owned(),
                span_name: copy_maybe(&names[i].0),
                parent_operation: copy_maybe(&names[i].1),
                memory_model: copy_maybe(&event.memory_model),
                docker_memory_limit: None,
                app_heap_budget: copy_maybe(&event.app_heap_budget),
                app_heap_budget_bytes: event.app_heap_budget_bytes,
                resource_profile: "".to_owned(),
                resource_profile_id: "".to_owned(),
                resource_experiment_type: "".to_owned(),
                profiled_singleton: false,
            },
        };
        proof {
            reveal_strlit("");
            assert(""@ =~= Seq::<char>::empty());
            assert((
                text::maybe(names@[i as int].0),
                text::maybe(names@[i as int].1),
            ) == span_told(events@, i as int));
            if physical is Some {
                let w = *physical->0;
                assert(filled(Some(w.resource_profile@), Seq::empty()) =~= w.resource_profile@);
                assert(filled(Some(w.resource_profile_id@), Seq::empty())
                    =~= w.resource_profile_id@);
                assert(filled(Some(w.resource_experiment_type@), Seq::empty())
                    =~= w.resource_experiment_type@);
            }
            assert(row@ =~= row_of(*layout, id@, file, events@, i as int));
        }
        rows.push(row);
        i = i + 1;
    }
    rows
}

// ---------------------------------------------------------------------------
// All rows, in order
// ---------------------------------------------------------------------------

/// What a row is placed by: its time, and among rows of one time whether it tells of a failed
/// worker.
pub struct RowKey {
    pub ts_unix_ns: u128,
    pub failure: bool,
}

impl SortKey for RowKey {
    open spec fn at_most_spec(self, other: Self) -> bool {
        self.ts_unix_ns < other.ts_unix_ns || (self.ts_unix_ns == other.ts_unix_ns && (
        !self.failure || other.failure))
    }

    proof fn connected(a: Self, b: Self) {
    }

    proof fn chained(a: Self, b: Self, c: Self) {
    }

    fn at_most(&self, other: &Self) -> (yes: bool) {
        self.ts_unix_ns < other.ts_unix_ns || (self.ts_unix_ns == other.ts_unix_ns && (
        !self.failure || other.failure))
    }
}

/// What the row of a measurement is placed by.
pub open spec fn key_of(event: ProfileFacts) -> RowKey {
    RowKey { ts_unix_ns: event.ts_unix_ns, failure: event.is_worker_failure() }
}

/// The rows of all files, file by file.
pub open spec fn all_rows(
    layout: Option<WorkerLayout>,
    ids: Seq<Seq<char>>,
    files: Seq<Vec<ProfileFacts>>,
) -> Seq<RowView>
    decreases files.len(),
{
    if files.len() == 0 {
        Seq::empty()
    } else {
        let k = files.len() - 1;
        all_rows(layout, ids, files.drop_last()) + Seq::new(
            files[k]@.len(),
            |i: int| row_of(layout, ids[k], k as usize, files[k]@, i),
        )
    }
}

/// What the rows of all files are placed by, file by file.
pub open spec fn all_keys(files: Seq<Vec<ProfileFacts>>) -> Seq<RowKey>
    decreases files.len(),
{
    if files.len() == 0 {
        Seq::empty()
    } else {
        all_keys(files.drop_last()) + files.last()@.map_values(|event: ProfileFacts| key_of(event))
    }
}

/// There is a row for each thing that rows are placed by.
pub proof fn lemma_as_many(
    layout: Option<WorkerLayout>,
    ids: Seq<Seq<char>>,
    files: Seq<Vec<ProfileFacts>>,
)
    ensures
        all_rows(layout, ids, files).len() == all_keys(files).len(),
    decreases files.len(),
{
    if files.len() > 0 {
        lemma_as_many(layout, ids, files.drop_last());
    }
}

/// What some rows say.
pub open spec fn row_views(rows: Seq<RowFacts>) -> Seq<RowView> {
    rows.map_values(|row: RowFacts| row@)
}

/// The rows of all files, by their time; at one time the rows that tell of a failed worker come
/// last. Other rows keep their order.
pub fn aggregate_rows(
    layout: &Option<WorkerLayout>,
    ids: &Vec<String>,
    files: &Vec<Vec<ProfileFacts>>,
) -> (rows: Vec<RowFacts>)
    requires
        files@.len() == ids@.len(),
    ensures
        exists|order: Seq<usize>| #[trigger]
            order::stable_sorted(all_keys(files@), order) && row_views(rows@) == order::picked(
                all_rows(*layout, text::texts(ids@), files@),
                order,
            ),
{
    let ghost names = text::texts(ids@);
    let mut keys: Vec<RowKey> = Vec::new();
    let mut gathered: Vec<Option<RowFacts>> = Vec::new();
    let ghost mut views: Seq<RowView> = Seq::empty();
    let mut k: usize = 0;
    while k < files.len()
        invariant
            k <= files@.len(),
            files@.len() == ids@.len(),
            names == text::texts(ids@),
            keys@ == all_keys(files@.take(k as int)),
            views == all_rows(*layout, names, files@.take(k as int)),
            gathered@.len() == views.len(),
            keys@.len() == views.len(),
            forall|i: int|
                0 <= i < gathered@.len() ==> (#[trigger] gathered@[i]) is Some && gathered@[i]->0@
                    == views[i],
        decreases files@.len() - k,
    {
        let events: &Vec<ProfileFacts> = &files[k];
        let ghost before = files@.take(k as int);
        assert(files@.take(k + 1).drop_last() =~= before);
        assert(files@.take(k + 1).last() == *events);
        let ghost keys_before = keys@;
        let ghost views_before = views;
        let ghost own = Seq::new(
            events@.len(),
            |i: int| row_of(*layout, names[k as int], k, events@, i),
        );
        let ghost own_keys = events@.map_values(|event: ProfileFacts| key_of(event));
        let rows: Vec<RowFacts> = rows_of_file(layout, ids[k].as_str(), k, events);
        let ghost listed = rows@;
        let mut i: usize = 0;
        while i < events.len()
            invariant
                i <= events@.len(),
                own_keys.len() == events@.len(),
                own_keys == events@.map_values(|event: ProfileFacts| key_of(event)),
                keys@ == keys_before + own_keys.take(i as int),
            decreases events@.len() - i,
        {
            let failure: bool = match &events[i].runner_event_kind {
                Some(kind) => str_eq(kind.as_str(), "worker_failure"),
                None => false,
            };
            let key: RowKey = RowKey { ts_unix_ns: events[i].ts_unix_ns, failure };
            assert(key == own_keys[i as int]);
            assert(own_keys.take(i + 1) =~= own_keys.take(i as int).push(key));
            keys.push(key);
            assert(keys@ =~= keys_before + own_keys.take(i + 1));
            i = i + 1;
        }
        assert(own_keys.take(i as int) =~= own_keys);
        let ghost base = gathered@;
        for row in given: rows
            invariant
                given.seq() == listed,
                gathered@.len() == base.len() + given.index(),
                forall|j: int| 0 <= j < base.len() ==> (#[trigger] gathered@[j]) == base[j],
                forall|j: int|
                    base.len() <= j < gathered@.len() ==> (#[trigger] gathered@[j]) == Some(
                        listed[j - base.len()],
                    ),
        {
            gathered.push(Some(row));
        }
        proof {
            views = views_before + own;
            assert(all_rows(*layout, names, files@.take(k + 1)) =~= views);
            assert(all_keys(files@.take(k + 1)) =~= keys_before + own_keys);
            assert forall|j: int| 0 <= j < gathered@.len() implies (#[trigger] gathered@[j]) is Some
                && gathered@[j]->0@ == views[j] by {
                if j >= base.len() {
                    assert(listed[j - base.len()]@ == own[j - base.len()]);
                }
            }
        }
        k = k + 1;
    }
    assert(files@.take(k as int) =~= files@);
    let order: Vec<usize> = stable_order(&keys);
    let ghost picked = order::picked(views, order@);
    let mut rows: Vec<RowFacts> = Vec::new();
    let ghost all = gathered@;
    let mut i: usize = 0;
    while i < order.len()
        invariant
            i <= order@.len(),
            order::stable_sorted(keys@, order@),
            picked == order::picked(views, order@),
            order@.len() == all.len(),
            keys@.len() == all.len(),
            gathered@.len() == all.len(),
            all.len() == views.len(),
            rows@.len() == i,
            forall|j: int|
                0 <= j < all.len() ==> (#[trigger] all[j]) is Some && all[j]->0@ == views[j],
            forall|j: int| i <= j < order@.len() ==> gathered@[(#[trigger] order@[j]) as int] == all[order@[j] as int],
            forall|j: int| 0 <= j < i ==> (#[trigger] rows@[j])@ == picked[j],
        decreases order@.len() - i,
    {
        let at: usize = order[i];
        let mut row: Option<RowFacts> = None;
        std::mem::swap(&mut row, &mut gathered[at]);
        proof {
            assert forall|j: int| i + 1 <= j < order@.len() implies gathered@[(
            #[trigger] order@[j]) as int] == all[order@[j] as int] by {
                RowKey::connected(keys@[at as int], keys@[at as int]);
                assert(order::before(keys@, order@[i as int] as int, order@[j] as int));
            }
        }
        match row {
            Some(row) => {
                rows.push(row);
            },
            None => {},
        }
        i = i + 1;
    }
    proof {
        lemma_as_many(*layout, names, files@);
        assert(row_views(rows@) =~= picked);
    }
    rows
}

/// Every measurement has exactly one row, and the rows stand by their time; at one time the rows
/// that tell of a failed worker come last.
pub proof fn law_rows(
    layout: Option<WorkerLayout>,
    ids: Seq<Seq<char>>,
    files: Seq<Vec<ProfileFacts>>,
    order: Seq<usize>,
    i: int,
    j: int,
)
    requires
        order::stable_sorted(all_keys(files), order),
        all_keys(files).len() <= usize::MAX,
        0 <= i < j < order.len(),
    ensures
        order::picked(all_rows(layout, ids, files), order).to_multiset() == all_rows(
            layout,
            ids,
            files,
        ).to_multiset(),
        ({
            let a = order::picked(all_keys(files), order)[i];
            let b = order::picked(all_keys(files), order)[j];
            &&& a.ts_unix_ns <= b.ts_unix_ns
            &&& a.ts_unix_ns == b.ts_unix_ns && a.failure ==> b.failure
        }),
{
    let keys = all_keys(files);
    lemma_as_many(layout, ids, files);
    assert forall|x: int, y: int| 0 <= x < y < order.len() implies #[trigger] order[x]
        != #[trigger] order[y] by {
        RowKey::connected(keys[order[x] as int], keys[order[x] as int]);
        assert(order::before(keys, order[x] as int, order[y] as int));
    }
    order::lemma_picked_keeps_all(all_rows(layout, ids, files), order);
    assert(order::before(keys, order[i] as int, order[j] as int));
}

/// The place of the last client of an id, if there is one, is what its name says.
proof fn lemma_client_place(clients: Seq<WorkerLayoutClient>, id: Seq<char>)
    ensures
        match client_place(clients, id) {
            Some(i) => 0 <= i < clients.len() && clients[i].client_id@ == id && forall|j: int|
                i < j < clients.len() ==> (#[trigger] clients[j]).client_id@ != id,
            None => forall|j: int|
                0 <= j < clients.len() ==> (#[trigger] clients[j]).client_id@ != id,
        },
    decreases clients.len(),
{
    if clients.len() > 0 && clients.last().client_id@ != id {
        let front = clients.drop_last();
        lemma_client_place(front, id);
        let from = match client_place(front, id) {
            Some(i) => i + 1,
            None => 0,
        };
        assert forall|j: int| from <= j < clients.len() implies (#[trigger] clients[j]).client_id@
            != id by {
            if j < front.len() {
                assert(front[j] == clients[j]);
            }
        }
    }
}

/// The place of the last container or device of an id, if there is one, is what its name says.
proof fn lemma_physical_place(workers: Seq<WorkerLayoutPhysicalWorker>, id: Seq<char>)
    ensures
        match physical_place(workers, id) {
            Some(i) => 0 <= i < workers.len() && workers[i].physical_worker_id@ == id && forall|
                j: int,
            |
                i < j < workers.len() ==> (#[trigger] workers[j]).physical_worker_id@ != id,
            None => forall|j: int|
                0 <= j < workers.len() ==> (#[trigger] workers[j]).physical_worker_id@ != id,
        },
    decreases workers.len(),
{
    if workers.len() > 0 && workers.last().physical_worker_id@ != id {
        let front = workers.drop_last();
        lemma_physical_place(front, id);
        let from = match physical_place(front, id) {
            Some(i) => i + 1,
            None => 0,
        };
        assert forall|j: int| from <= j < workers.len() implies (
        #[trigger] workers[j]).physical_worker_id@ != id by {
            if j < front.len() {
                assert(front[j] == workers[j]);
            }
        }
    }
}

/// A measurement names a span: it has a name for it, and no heap budget was exceeded.
pub open spec fn names_span(event: ProfileFacts, span: u64) -> bool {
    &&& event.span_id == Some(span)
    &&& event.span_name is Some
    &&& !(event.failure_class matches Some(class) && class@ == "app_heap_budget_exceeded"@)
}

/// A span is called what the last measurement that names it says.
proof fn lemma_span_names(events: Seq<ProfileFacts>, span: u64)
    ensures
        span_names(events).dom().contains(span) ==> exists|j: int|
            {
                &&& 0 <= j < events.len()
                &&& names_span(#[trigger] events[j], span)
                &&& forall|k: int|
                    j < k < events.len() ==> !names_span(#[trigger] events[k], span)
                &&& span_names(events)[span] == (
                    events[j].span_name->0@,
                    text::maybe(events[j].parent_operation),
                )
            },
        !span_names(events).dom().contains(span) ==> forall|j: int|
            0 <= j < events.len() ==> !names_span(#[trigger] events[j], span),
    decreases events.len(),
{
    if events.len() > 0 {
        let front = events.drop_last();
        let last = events.len() - 1;
        lemma_span_names(front, span);
        if names_span(events[last], span) {
        } else if span_names(front).dom().contains(span) {
            let j = choose|j: int|
                {
                    &&& 0 <= j < front.len()
                    &&& names_span(#[trigger] front[j], span)
                    &&& forall|k: int|
                        j < k < front.len() ==> !names_span(#[trigger] front[k], span)
                    &&& span_names(front)[span] == (
                        front[j].span_name->0@,
                        text::maybe(front[j].parent_operation),
                    )
                };
            assert(names_span(events[j], span));
            assert forall|k: int| j < k < events.len() implies !names_span(
                #[trigger] events[k],
                span,
            ) by {
                if k < last {
                    assert(front[k] == events[k]);
                }
            }
        } else {
            assert forall|j: int| 0 <= j < events.len() implies !names_span(
                #[trigger] events[j],
                span,
            ) by {
                if j < last {
                    assert(front[j] == events[j]);
                }
            }
        }
    }
}

/// Where each row comes from, as long as the rows stand file by file.
proof fn lemma_row_sources(
    layout: Option<WorkerLayout>,
    ids: Seq<Seq<char>>,
    files: Seq<Vec<ProfileFacts>>,
    at: int,
)
    requires
        files.len() <= usize::MAX,
        0 <= at < all_rows(layout, ids, files).len(),
    ensures
        ({
            let row = all_rows(layout, ids, files)[at];
            &&& row.file < files.len()
            &&& row.event < files[row.file as int]@.len()
            &&& row == row_of(
                layout,
                ids[row.file as int],
                row.file,
                files[row.file as int]@,
                row.event as int,
            )
            &&& all_keys(files)[at] == key_of(files[row.file as int]@[row.event as int])
        }),
    decreases files.len(),
{
    let front = files.drop_last();
    let last = files.len() - 1;
    lemma_as_many(layout, ids, front);
    let before = all_rows(layout, ids, front);
    if at < before.len() {
        lemma_row_sources(layout, ids, front, at);
    } else {
        assert(files[last]@.len() == files[last].len());
    }
}

/// Each measurement has a place among the rows, file by file and in its order there.
proof fn lemma_row_places(
    layout: Option<WorkerLayout>,
    ids: Seq<Seq<char>>,
    files: Seq<Vec<ProfileFacts>>,
    a: int,
    b: int,
)
    requires
        files.len() <= usize::MAX,
        0 <= a < b < all_rows(layout, ids, files).len(),
    ensures
        ({
            let x = all_rows(layout, ids, files)[a];
            let y = all_rows(layout, ids, files)[b];
            x.file < y.file || (x.file == y.file && x.event < y.event)
        }),
    decreases files.len(),
{
    let front = files.drop_last();
    let last = files.len() - 1;
    let before = all_rows(layout, ids, front);
    assert(files[last]@.len() == files[last].len());
    if b < before.len() {
        lemma_row_places(layout, ids, front, a, b);
    } else if a < before.len() {
        lemma_row_sources(layout, ids, front, a);
    }
}

proof fn lemma_row_there(
    layout: Option<WorkerLayout>,
    ids: Seq<Seq<char>>,
    files: Seq<Vec<ProfileFacts>>,
    file: int,
    event: int,
) -> (at: int)
    requires
        files.len() <= usize::MAX,
        0 <= file < files.len(),
        0 <= event < files[file]@.len(),
    ensures
        0 <= at < all_rows(layout, ids, files).len(),
        all_rows(layout, ids, files)[at].file == file,
        all_rows(layout, ids, files)[at].event == event,
    decreases files.len(),
{
    let front = files.drop_last();
    let last = files.len() - 1;
    let before = all_rows(layout, ids, front);
    assert(files[file]@.len() == files[file].len());
    if file == last {
        before.len() + event
    } else {
        lemma_row_there(layout, ids, front, file, event)
    }
}

/// A measurement of a file stands in a row.
pub open spec fn has_row(rows: Seq<RowFacts>, file: int, event: int) -> bool {
    exists|k: int|
        0 <= k < rows.len() && (#[trigger] rows[k]).file == file && rows[k].event == event
}

/// Each measurement of each file stands in exactly one row. Rows stand by the time of their
/// measurements; at one time those that tell of a failed worker come last, and otherwise rows stand
/// file by file, in the order of the file.
pub proof fn law_each_measurement_has_a_row(
    layout: Option<WorkerLayout>,
    ids: Seq<Seq<char>>,
    files: Seq<Vec<ProfileFacts>>,
    order: Seq<usize>,
    rows: Seq<RowFacts>,
)
    requires
        files.len() == ids.len() <= usize::MAX,
        all_keys(files).len() <= usize::MAX,
        order::stable_sorted(all_keys(files), order),
        row_views(rows) == order::picked(all_rows(layout, ids, files), order),
    ensures
        forall|file: int, event: int|
            0 <= file < files.len() && 0 <= event < files[file]@.len() ==> #[trigger] has_row(
                rows,
                file,
                event,
            ),
        forall|k: int|
            0 <= k < rows.len() ==> (#[trigger] rows[k]).file < files.len() && rows[k].event
                < files[rows[k].file as int]@.len(),
        forall|i: int, j: int|
            0 <= i < j < rows.len() ==> {
                let a = files[(#[trigger] rows[i]).file as int]@[rows[i].event as int];
                let b = files[(#[trigger] rows[j]).file as int]@[rows[j].event as int];
                let fails = |e: ProfileFacts|
                    e.runner_event_kind matches Some(kind) && kind@ == "worker_failure"@;
                &&& a.ts_unix_ns <= b.ts_unix_ns
                &&& a.ts_unix_ns == b.ts_unix_ns && fails(a) ==> fails(b)
                &&& a.ts_unix_ns == b.ts_unix_ns && fails(a) == fails(b) ==> rows[i].file
                    < rows[j].file || (rows[i].file == rows[j].file && rows[i].event
                    < rows[j].event)
                &&& rows[i].file != rows[j].file || rows[i].event != rows[j].event
            },
{
    let all = all_rows(layout, ids, files);
    let keys = all_keys(files);
    lemma_as_many(layout, ids, files);
    let views = row_views(rows);
    assert(views.len() == rows.len());
    assert forall|k: int| 0 <= k < rows.len() implies {
        &&& (#[trigger] rows[k])@ == all[order[k] as int]
        &&& 0 <= order[k] < all.len()
        &&& rows[k].file < files.len()
        &&& rows[k].event < files[rows[k].file as int]@.len()
        &&& keys[order[k] as int] == key_of(files[rows[k].file as int]@[rows[k].event as int])
    } by {
        assert(views[k] == rows[k]@);
        assert(order[k] < all.len());
        lemma_row_sources(layout, ids, files, order[k] as int);
    }
    assert forall|file: int, event: int|
        0 <= file < files.len() && 0 <= event < files[file]@.len() implies #[trigger] has_row(
        rows,
        file,
        event,
    ) by {
        let at = lemma_row_there(layout, ids, files, file, event);
        assert(order.contains(at as usize));
        let k = choose|k: int| 0 <= k < order.len() && order[k] == at as usize;
        assert(rows[k]@ == all[at]);
        assert(rows[k].file == file && rows[k].event == event);
    }
    assert forall|i: int, j: int| 0 <= i < j < rows.len() implies ({
        let a = files[(#[trigger] rows[i]).file as int]@[rows[i].event as int];
        let b = files[(#[trigger] rows[j]).file as int]@[rows[j].event as int];
        let fails = |e: ProfileFacts|
            e.runner_event_kind matches Some(kind) && kind@ == "worker_failure"@;
        &&& a.ts_unix_ns <= b.ts_unix_ns
        &&& a.ts_unix_ns == b.ts_unix_ns && fails(a) ==> fails(b)
        &&& a.ts_unix_ns == b.ts_unix_ns && fails(a) == fails(b) ==> rows[i].file < rows[j].file || (
        rows[i].file == rows[j].file && rows[i].event < rows[j].event)
        &&& rows[i].file != rows[j].file || rows[i].event != rows[j].event
    }) by {
        let x = order[i] as int;
        let y = order[j] as int;
        assert(rows[i]@ == all[x] && rows[j]@ == all[y]);
        assert(order::before(keys, x, y));
        RowKey::connected(keys[x], keys[x]);
        if x < y {
            lemma_row_places(layout, ids, files, x, y);
        } else if y < x {
            lemma_row_places(layout, ids, files, y, x);
        }
    }
}

/// A text is what a measurement says, or stands for a process on this machine where it says nothing.
pub open spec fn is_said(given: Option<String>, text: Seq<char>) -> bool {
    if given is Some && given->0@.len() > 0 {
        text == given->0@
    } else {
        text == "local_process"@
    }
}

/// Each row holds of its client, of the container or device of that client and of its measurement what
/// they say, column by column. Of two entries of the layout with one id the later one counts.
pub proof fn law_columns(
    layout: Option<WorkerLayout>,
    ids: Seq<Seq<char>>,
    files: Seq<Vec<ProfileFacts>>,
    order: Seq<usize>,
    rows: Seq<RowFacts>,
    k: int,
)
    requires
        files.len() == ids.len() <= usize::MAX,
        order::stable_sorted(all_keys(files), order),
        row_views(rows) == order::picked(all_rows(layout, ids, files), order),
        0 <= k < rows.len(),
    ensures
        rows[k].file < files.len(),
        rows[k].event < files[rows[k].file as int]@.len(),
        rows[k].client_id@ == ids[rows[k].file as int],
        // What the layout says of the client.
        layout is Some ==> forall|i: int|
            {
                &&& 0 <= i < layout->0.clients@.len()
                &&& (#[trigger] layout->0.clients@[i]).client_id@ == rows[k].client_id@
                &&& forall|j: int|
                    i < j < layout->0.clients@.len() ==> (
                    #[trigger] layout->0.clients@[j]).client_id@ != rows[k].client_id@
            } ==> {
                let row = rows[k];
                let event = files[row.file as int]@[row.event as int];
                let client = layout->0.clients@[i];
                &&& client.physical_worker_id@.len() > 0 ==> row.worker_id@
                    == client.physical_worker_id@
                &&& client.physical_worker_id@.len() == 0 ==> row.worker_id@ == row.client_id@
                &&& client.container_mode@.len() > 0 ==> row.container_mode@
                    == client.container_mode@
                &&& client.container_mode@.len() == 0 ==> row.container_mode@ == "singleton"@
                &&& client.execution_backend@.len() > 0 ==> row.execution_backend@
                    == client.execution_backend@
                &&& client.execution_backend@.len() == 0 ==> is_said(
                    event.execution_backend,
                    row.execution_backend@,
                )
                &&& client.device_kind@.len() > 0 ==> row.device_kind@ == client.device_kind@
                &&& client.device_kind@.len() == 0 ==> is_said(event.device_kind, row.device_kind@)
            },
        layout is None || (forall|j: int|
            0 <= j < layout->0.clients@.len() ==> (#[trigger] layout->0.clients@[j]).client_id@
                != rows[k].client_id@) ==> {
            let row = rows[k];
            let event = files[row.file as int]@[row.event as int];
            &&& row.worker_id@ == row.client_id@
            &&& row.container_mode@ == "singleton"@
            &&& is_said(event.execution_backend, row.execution_backend@)
            &&& is_said(event.device_kind, row.device_kind@)
        },
        // What the layout says of the container or device.
        layout is Some ==> forall|i: int|
            {
                &&& 0 <= i < layout->0.physical_workers@.len()
                &&& (#[trigger] layout->0.physical_workers@[i]).physical_worker_id@
                    == rows[k].worker_id@
                &&& forall|j: int|
                    i < j < layout->0.physical_workers@.len() ==> (
                    #[trigger] layout->0.physical_workers@[j]).physical_worker_id@
                        != rows[k].worker_id@
            } ==> {
                let row = rows[k];
                let event = files[row.file as int]@[row.event as int];
                let container = layout->0.physical_workers@[i];
                &&& row.physical == Some(i as usize)
                &&& row.resource_profile@ == container.resource_profile@
                &&& row.resource_profile_id@ == container.resource_profile_id@
                &&& row.resource_experiment_type@ == container.resource_experiment_type@
                &&& match row.docker_memory_limit {
                    Some(limit) => limit@ == container.docker_memory_limit@ && limit@.len() > 0,
                    None => container.docker_memory_limit@.len() == 0,
                }
                &&& row.profiled_singleton == container.profiled_singleton
                &&& event.memory_model is None ==> match row.memory_model {
                    Some(model) => model@ == container.memory_model@ && model@.len() > 0,
                    None => container.memory_model@.len() == 0,
                }
                &&& event.app_heap_budget is None ==> match row.app_heap_budget {
                    Some(budget) => budget@ == container.app_heap_budget@ && budget@.len() > 0,
                    None => container.app_heap_budget@.len() == 0,
                }
                &&& event.app_heap_budget_bytes is None ==> row.app_heap_budget_bytes
                    == container.app_heap_budget_bytes
            },
        layout is None || (forall|j: int|
            0 <= j < layout->0.physical_workers@.len() ==> (
            #[trigger] layout->0.physical_workers@[j]).physical_worker_id@ != rows[k].worker_id@)
            ==> {
            let row = rows[k];
            let event = files[row.file as int]@[row.event as int];
            &&& row.physical is None
            &&& row.resource_profile@.len() == 0
            &&& row.resource_profile_id@.len() == 0
            &&& row.resource_experiment_type@.len() == 0
            &&& row.docker_memory_limit is None
            &&& !row.profiled_singleton
            &&& event.memory_model is None ==> row.memory_model is None
            &&& event.app_heap_budget is None ==> row.app_heap_budget is None
            &&& event.app_heap_budget_bytes is None ==> row.app_heap_budget_bytes is None
        },
        // What the measurement says.
        ({
            let row = rows[k];
            let event = files[row.file as int]@[row.event as int];
            &&& event.memory_model matches Some(model) ==> row.memory_model is Some
                && row.memory_model->0@ == model@
            &&& event.app_heap_budget matches Some(budget) ==> row.app_heap_budget is Some
                && row.app_heap_budget->0@ == budget@
            &&& event.app_heap_budget_bytes is Some ==> row.app_heap_budget_bytes
                == event.app_heap_budget_bytes
        }),
{
    let all = all_rows(layout, ids, files);
    lemma_as_many(layout, ids, files);
    let row = rows[k];
    assert(row_views(rows).len() == rows.len());
    assert(row_views(rows)[k] == row@);
    assert(order[k] < all.len());
    lemma_row_sources(layout, ids, files, order[k] as int);
    lemma_client_place(clients_of(layout), row.client_id@);
    lemma_physical_place(physical_of(layout), row.worker_id@);
}

/// The span of a row is called what its measurement says. Only where a heap budget was exceeded does an
/// earlier measurement of the same file that names the span come first, the last one if there are more.
pub proof fn law_spans_of_rows(
    layout: Option<WorkerLayout>,
    ids: Seq<Seq<char>>,
    files: Seq<Vec<ProfileFacts>>,
    order: Seq<usize>,
    rows: Seq<RowFacts>,
    k: int,
)
    requires
        files.len() == ids.len() <= usize::MAX,
        order::stable_sorted(all_keys(files), order),
        row_views(rows) == order::picked(all_rows(layout, ids, files), order),
        0 <= k < rows.len(),
    ensures
        ({
            let row = rows[k];
            let events = files[row.file as int]@;
            let at = row.event as int;
            let event = events[at];
            let exceeded = event.failure_class matches Some(class) && class@
                == "app_heap_budget_exceeded"@;
            if exceeded && event.span_id is Some && exists|j: int|
                0 <= j < at && names_span(#[trigger] events[j], event.span_id->0) {
                exists|j: int|
                    {
                        &&& 0 <= j < at
                        &&& names_span(#[trigger] events[j], event.span_id->0)
                        &&& forall|i: int|
                            j < i < at ==> !names_span(#[trigger] events[i], event.span_id->0)
                        &&& text::maybe(row.span_name) == text::maybe(events[j].span_name)
                        &&& text::maybe(row.parent_operation) == text::maybe(
                            events[j].parent_operation,
                        )
                    }
            } else {
                &&& text::maybe(row.span_name) == text::maybe(event.span_name)
                &&& text::maybe(row.parent_operation) == text::maybe(event.parent_operation)
            }
        }),
{
    let all = all_rows(layout, ids, files);
    lemma_as_many(layout, ids, files);
    let row = rows[k];
    assert(row_views(rows).len() == rows.len());
    assert(row_views(rows)[k] == row@);
    assert(order[k] < all.len());
    lemma_row_sources(layout, ids, files, order[k] as int);
    let events = files[row.file as int]@;
    let at = row.event as int;
    let event = events[at];
    let told = events.take(at);
    if event.span_id is Some {
        let span = event.span_id->0;
        lemma_span_names(told, span);
        if span_names(told).dom().contains(span) {
            let j = choose|j: int|
                {
                    &&& 0 <= j < told.len()
                    &&& names_span(#[trigger] told[j], span)
                    &&& forall|i: int| j < i < told.len() ==> !names_span(#[trigger] told[i], span)
                    &&& span_names(told)[span] == (
                        told[j].span_name->0@,
                        text::maybe(told[j].parent_operation),
                    )
                };
            assert(told[j] == events[j]);
            assert forall|i: int| j < i < at implies !names_span(#[trigger] events[i], span) by {
                assert(told[i] == events[i]);
            }
        } else {
            assert forall|j: int| 0 <= j < at implies !names_span(#[trigger] events[j], span) by {
                assert(told[j] == events[j]);
            }
        }
    }
}

// ---------------------------------------------------------------------------
// Whose files there are
// ---------------------------------------------------------------------------

/// The id on a line of a list of workers: what stands before the first `=`, on a line that is not
/// empty and no remark.
pub open spec fn id_on_line(line: Seq<char>) -> Option<Seq<char>> {
    let cut = text::trimmed(line);
    if cut.len() == 0 || cut[0] == '#' || !cut.contains('=') {
        None
    } else {
        Some(cut.take(cut.index_of_first('=')->0))
    }
}

/// The ids on some lines.
pub open spec fn ids_on_lines(lines: Seq<Seq<char>>) -> Seq<Seq<char>>
    decreases lines.len(),
{
    if lines.len() == 0 {
        Seq::empty()
    } else {
        let front = ids_on_lines(lines.drop_last());
        match id_on_line(lines.last()) {
            Some(id) => front.push(id),
            None => front,
        }
    }
}

/// The id on a line.
fn read_line_id(line: &str) -> (id: Option<String>)
    ensures
        text::maybe(id) == id_on_line(line@),
{
    let cut: String = trim(line);
    let ghost view = cut@;
    let chars: Vec<char> = text::chars_of(cut.as_str());
    if chars.len() == 0 {
        return None;
    }
    if chars[0] == '#' {
        return None;
    }
    let mut i: usize = 0;
    while i < chars.len()
        invariant
            i <= chars@.len(),
            chars@ == view,
            view == text::trimmed(line@),
            view.len() > 0,
            view[0] != '#',
            forall|j: int| 0 <= j < i ==> view[j] != '=',
        decreases chars@.len() - i,
    {
        if chars[i] == '=' {
            proof {
                assert(view[i as int] == '=');
                view.index_of_first_ensures('=');
            }
            let id: String = text_of(&chars, 0, i);
            assert(id@ =~= view.take(i as int));
            return Some(id);
        }
        i = i + 1;
    }
    assert(!view.contains('='));
    None
}

/// The ids in a list of workers, one on each line.
pub fn ids_in_workers_file(content: &str) -> (ids: Vec<String>)
    ensures
        text::texts(ids@) == ids_on_lines(text::pieces(content@, '\n')),
{
    let lines: Vec<String> = split(content, '\n');
    let ghost all = text::pieces(content@, '\n');
    let mut ids: Vec<String> = Vec::new();
    let mut i: usize = 0;
    while i < lines.len()
        invariant
            i <= lines@.len(),
            all == text::texts(lines@),
            text::texts(ids@) == ids_on_lines(all.take(i as int)),
        decreases lines@.len() - i,
    {
        assert(all.take(i + 1).drop_last() =~= all.take(i as int));
        assert(all.take(i + 1).last() == lines@[i as int]@);
        match read_line_id(lines[i].as_str()) {
            Some(id) => {
                assert(text::texts(ids@.push(id)) =~= text::texts(ids@).push(id@));
                ids.push(id);
            },
            None => {},
        }
        i = i + 1;
    }
    assert(all.take(i as int) =~= all);
    ids
}

/// The name of the file with the measurements of a client.
pub open spec fn file_name(id: Seq<char>) -> Seq<char> {
    "client-"@ + id + ".jsonl"@
}

/// The name of the file with the measurements of a client.
pub fn profile_file_name(id: &str) -> (name: String)
    ensures
        name@ == file_name(id@),
{
    let mut name: String = "client-".to_owned();
    name.append(id);
    name.append(".jsonl");
    name
}

/// Whose measurements a file holds, by its name.
pub open spec fn owner_of(name: Seq<char>) -> Option<Seq<char>> {
    let front = "client-"@;
    let back = ".jsonl"@;
    if text::has_prefix(name, front) && name.len() >= front.len() + back.len() && name.skip(
        name.len() - back.len(),
    ) == back {
        Some(name.subrange(front.len() as int, name.len() - back.len()))
    } else {
        None
    }
}

/// A file is known by its name to hold the measurements of the client that it was named after.
pub proof fn law_file_names(id: Seq<char>)
    ensures
        owner_of(file_name(id)) == Some(id),
{
    let front = "client-"@;
    let back = ".jsonl"@;
    let name = file_name(id);
    assert(name.take(front.len() as int) =~= front);
    assert(name.skip(name.len() - back.len()) =~= back);
    assert(name.subrange(front.len() as int, name.len() - back.len()) =~= id);
}

/// Whose measurements a file holds, by its name.
pub fn client_of_file(name: &str) -> (id: Option<String>)
    ensures
        text::maybe(id) == owner_of(name@),
{
    let ghost back = ".jsonl"@;
    proof {
        reveal_strlit("client-");
        reveal_strlit(".jsonl");
    }
    let chars: Vec<char> = text::chars_of(name);
    let tail: Vec<char> = text::chars_of(".jsonl");
    let total: usize = chars.len();
    let rest: Option<String> = strip_prefix(name, "client-");
    if rest.is_none() || total < 13 {
        return None;
    }
    let from: usize = total - 6;
    assert(name@.skip(from as int).len() == 6);
    let mut k: usize = 0;
    while k < 6
        invariant
            k <= 6,
            total == chars@.len(),
            total >= 13,
            from == total - 6,
            chars@ == name@,
            tail@ == ".jsonl"@,
            tail@.len() == 6,
            back == ".jsonl"@,
            forall|j: int| 0 <= j < k ==> name@.skip(from as int)[j] == back[j],
        decreases 6 - k,
    {
        if chars[from + k] != tail[k] {
            assert(name@.skip(from as int)[k as int] != back[k as int]);
            return None;
        }
        assert(name@.skip(from as int)[k as int] == back[k as int]);
        k = k + 1;
    }
    assert(name@.skip(from as int) =~= back);
    let id: String = text_of(&chars, 7, from);
    Some(id)
}

/// Whose measurements some files hold.
pub open spec fn owners(names: Seq<Seq<char>>) -> Seq<Seq<char>>
    decreases names.len(),
{
    if names.len() == 0 {
        Seq::empty()
    } else {
        let front = owners(names.drop_last());
        match owner_of(names.last()) {
            Some(id) => front.push(id),
            None => front,
        }
    }
}

/// Whose measurements the files of a directory hold, in order.
pub fn ids_of_files(names: &Vec<String>) -> (ids: Vec<String>)
    ensures
        text::texts(ids@) == order::ascending(owners(text::texts(names@))),
{
    let ghost all = text::texts(names@);
    let mut ids: Vec<String> = Vec::new();
    let mut i: usize = 0;
    while i < names.len()
        invariant
            i <= names@.len(),
            all == text::texts(names@),
            text::texts(ids@) == owners(all.take(i as int)),
        decreases names@.len() - i,
    {
        assert(all.take(i + 1).drop_last() =~= all.take(i as int));
        assert(all.take(i + 1).last() == names@[i as int]@);
        match client_of_file(names[i].as_str()) {
            Some(id) => {
                assert(text::texts(ids@.push(id)) =~= text::texts(ids@).push(id@));
                ids.push(id);
            },
            None => {},
        }
        i = i + 1;
    }
    assert(all.take(i as int) =~= all);
    sort_texts(&ids)
}

// ---------------------------------------------------------------------------
// What is said of an aggregation
// ---------------------------------------------------------------------------

/// How an aggregation is asked for.
pub fn aggregation_mode(allow_partial: bool) -> (mode: &'static str)
    ensures
        mode@ == (if allow_partial {
            "partial"@
        } else {
            "strict"@
        }),
{
    if allow_partial {
        "partial"
    } else {
        "strict"
    }
}

/// What an aggregation came to.
pub open spec fn status_of(allow_partial: bool, succeeded: bool) -> Seq<char> {
    if succeeded {
        if allow_partial {
            "partial_success"@
        } else {
            "complete_success"@
        }
    } else if allow_partial {
        "partial_failure"@
    } else {
        "failed"@
    }
}

/// What an aggregation came to.
pub fn aggregation_status(allow_partial: bool, succeeded: bool) -> (status: &'static str)
    ensures
        status@ == status_of(allow_partial, succeeded),
{
    if succeeded {
        if allow_partial {
            "partial_success"
        } else {
            "complete_success"
        }
    } else if allow_partial {
        "partial_failure"
    } else {
        "failed"
    }
}

/// Which of some clients have files and which do not.
pub open spec fn absent(ids: Seq<Seq<char>>, found: Seq<bool>) -> Seq<Seq<char>>
    decreases ids.len(),
{
    if ids.len() == 0 {
        Seq::empty()
    } else {
        let front = absent(ids.drop_last(), found);
        if found[ids.len() - 1] {
            front
        } else {
            front.push(ids.last())
        }
    }
}

/// How many of some clients have files, and which do not.
pub fn missing_files(ids: &Vec<String>, found: &Vec<bool>) -> (outcome: (usize, Vec<String>))
    requires
        ids@.len() == found@.len(),
    ensures
        text::texts(outcome.1@) == absent(text::texts(ids@), found@),
        outcome.0 + outcome.1@.len() == ids@.len(),
{
    let ghost all = text::texts(ids@);
    let mut missing: Vec<String> = Vec::new();
    let mut count: usize = 0;
    let mut i: usize = 0;
    while i < ids.len()
        invariant
            i <= ids@.len(),
            ids@.len() == found@.len(),
            all == text::texts(ids@),
            count + missing@.len() == i,
            text::texts(missing@) == absent(all.take(i as int), found@),
        decreases ids@.len() - i,
    {
        assert(all.take(i + 1).drop_last() =~= all.take(i as int));
        assert(all.take(i + 1).last() == ids@[i as int]@);
        if found[i] {
            count = count + 1;
        } else {
            let id: String = ids[i].as_str().to_owned();
            assert(text::texts(missing@.push(id)) =~= text::texts(missing@).push(id@));
            missing.push(id);
        }
        i = i + 1;
    }
    assert(all.take(i as int) =~= all);
    (count, missing)
}

} // verus!
