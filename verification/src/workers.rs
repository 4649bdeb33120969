//! The workers of a run: who they are, which of them are measured, and who may do what to whom.

use std::collections::VecDeque;
use vstd::prelude::*;

use crate::text;
use crate::text::{split_once, str_eq, trim, trim_end_matches};

verus! {

// ---------------------------------------------------------------------------
// Workers
// ---------------------------------------------------------------------------

/// Whether a container holds one client or many.
#[derive(Debug, Clone, Copy, PartialEq, Eq, Structural)]
pub enum ContainerMode {
    Singleton,
    Packed,
}

/// One client of the benchmark and how it is reached.
#[derive(Debug)]
pub struct WorkerSpec {
    pub id: String,
    pub url: String,
    pub command_url: String,
    pub health_url: String,
    pub physical_worker_id: String,
    pub container_mode: ContainerMode,
    pub profile_enabled: bool,
    pub device_kind: String,
}

impl Clone for WorkerSpec {
    fn clone(&self) -> (copy: WorkerSpec)
        ensures
            copy == *self,
    {
        WorkerSpec {
            id: self.id.clone(),
            url: self.url.clone(),
            command_url: self.command_url.clone(),
            health_url: self.health_url.clone(),
            physical_worker_id: self.physical_worker_id.clone(),
            container_mode: self.container_mode,
            profile_enabled: self.profile_enabled,
            device_kind: self.device_kind.clone(),
        }
    }
}

/// One client as a layout file describes it.
#[derive(Debug, Clone)]
pub struct WorkerLayoutClient {
    pub client_id: String,
    pub physical_worker_id: String,
    pub container_mode: String,
    pub profile_enabled: bool,
    pub command_url: String,
    pub health_url: String,
    pub execution_backend: String,
    pub device_kind: String,
    pub transport: String,
    pub access_backend: String,
    pub arch: String,
    pub rust_target: String,
}

/// What is read of one container or device as a layout file describes it.
#[derive(Debug, Clone)]
pub struct WorkerLayoutPhysicalWorker {
    pub physical_worker_id: String,
    pub resource_profile: String,
    pub resource_profile_id: String,
    pub resource_experiment_type: String,
    pub memory_model: String,
    pub docker_memory_limit: String,
    pub app_heap_budget: String,
    pub app_heap_budget_bytes: Option<u64>,
    pub profiled_singleton: bool,
}

/// What is read of a layout file.
#[derive(Debug, Clone)]
pub struct WorkerLayout {
    pub version: u32,
    pub logical_worker_count: usize,
    pub physical_worker_count: usize,
    pub layout_mode: String,
    pub clients: Vec<WorkerLayoutClient>,
    pub physical_workers: Vec<WorkerLayoutPhysicalWorker>,
}

/// A worker on a device of its own rather than in a container.
pub open spec fn external(w: WorkerSpec) -> bool {
    w.device_kind@.len() > 0 && w.device_kind@ != "scratch_container"@
}

/// Whether a worker runs on a device of its own rather than in a container.
pub fn is_external_device(worker: &WorkerSpec) -> (yes: bool)
    ensures
        yes == external(*worker),
{
    !worker.device_kind.as_str().is_empty() && !str_eq(
        worker.device_kind.as_str(),
        "scratch_container",
    )
}

/// A measured worker.
pub open spec fn profiled() -> spec_fn(WorkerSpec) -> bool {
    |w: WorkerSpec| w.profile_enabled
}

/// A measured worker on a device of its own.
pub open spec fn profiled_external() -> spec_fn(WorkerSpec) -> bool {
    |w: WorkerSpec| w.profile_enabled && external(w)
}

/// A measured worker in a container.
pub open spec fn profiled_in_container() -> spec_fn(WorkerSpec) -> bool {
    |w: WorkerSpec| w.profile_enabled && !external(w)
}

/// The ids of a list of workers.
pub open spec fn ids(workers: Seq<WorkerSpec>) -> Seq<Seq<char>> {
    workers.map_values(|w: WorkerSpec| w.id@)
}

/// No two workers have the same id.
pub open spec fn distinct(workers: Seq<WorkerSpec>) -> bool {
    ids(workers).no_duplicates()
}

/// The workers of a list that are wanted, in their order.
pub open spec fn those(workers: Seq<WorkerSpec>, wanted: spec_fn(WorkerSpec) -> bool) -> Seq<
    WorkerSpec,
>
    decreases workers.len(),
{
    if workers.len() == 0 {
        Seq::empty()
    } else if wanted(workers.last()) {
        those(workers.drop_last(), wanted).push(workers.last())
    } else {
        those(workers.drop_last(), wanted)
    }
}

/// The places of the workers that are wanted, in their order.
pub open spec fn places(workers: Seq<WorkerSpec>, wanted: spec_fn(WorkerSpec) -> bool) -> Seq<usize>
    decreases workers.len(),
{
    if workers.len() == 0 {
        Seq::empty()
    } else if wanted(workers.last()) {
        places(workers.drop_last(), wanted).push((workers.len() - 1) as usize)
    } else {
        places(workers.drop_last(), wanted)
    }
}

/// The places of the wanted workers are in range, wanted, rising, and all of them.
pub proof fn lemma_places(workers: Seq<WorkerSpec>, wanted: spec_fn(WorkerSpec) -> bool)
    requires
        workers.len() <= usize::MAX,
    ensures
        places(workers, wanted).len() <= workers.len(),
        forall|k: int|
            0 <= k < places(workers, wanted).len() ==> (#[trigger] places(workers, wanted)[k])
                < workers.len() && wanted(workers[places(workers, wanted)[k] as int]),
        forall|j: int, k: int|
            0 <= j < k < places(workers, wanted).len() ==> #[trigger] places(workers, wanted)[j]
                < #[trigger] places(workers, wanted)[k],
        forall|i: usize|
            i < workers.len() && wanted(workers[i as int]) ==> #[trigger] places(
                workers,
                wanted,
            ).contains(i),
    decreases workers.len(),
{
    if workers.len() > 0 {
        let front = workers.drop_last();
        lemma_places(front, wanted);
        let before = places(front, wanted);
        let all = places(workers, wanted);
        assert forall|i: usize| i < workers.len() && wanted(workers[i as int]) implies #[trigger] all.contains(
        i) by {
            if i < front.len() {
                assert(front[i as int] == workers[i as int]);
                assert(before.contains(i));
                let k = choose|k: int| 0 <= k < before.len() && before[k] == i;
                assert(all[k] == i);
            } else {
                assert(all[all.len() - 1] == i);
            }
        }
    }
}

/// There are as many places of wanted workers as there are wanted workers.
pub proof fn lemma_count_of_places(workers: Seq<WorkerSpec>, wanted: spec_fn(WorkerSpec) -> bool)
    ensures
        places(workers, wanted).len() == workers.filter(wanted).len(),
        those(workers, wanted) == workers.filter(wanted),
    decreases workers.len(),
{
    reveal(Seq::filter);
    if workers.len() > 0 {
        lemma_count_of_places(workers.drop_last(), wanted);
    } else {
        assert(those(workers, wanted) =~= workers.filter(wanted));
    }
}

/// A worker is among the wanted ones exactly where it is in the list and wanted.
pub proof fn lemma_those(workers: Seq<WorkerSpec>, wanted: spec_fn(WorkerSpec) -> bool)
    ensures
        those(workers, wanted).len() <= workers.len(),
        forall|w: WorkerSpec|
            #[trigger] those(workers, wanted).contains(w) <==> workers.contains(w) && wanted(w),
    decreases workers.len(),
{
    if workers.len() > 0 {
        let front = workers.drop_last();
        let last = workers.last();
        lemma_those(front, wanted);
        let before = those(front, wanted);
        let all = those(workers, wanted);
        assert forall|w: WorkerSpec| all.contains(w) implies workers.contains(w) && wanted(w) by {
            if before.contains(w) {
                let k = choose|k: int| 0 <= k < front.len() && front[k] == w;
                assert(workers[k] == w);
            } else {
                let k = choose|k: int| 0 <= k < all.len() && all[k] == w;
                if k < before.len() {
                    assert(before[k] == w);
                }
                assert(workers[workers.len() - 1] == last);
            }
        }
        assert forall|w: WorkerSpec| workers.contains(w) && wanted(w) implies #[trigger] all.contains(
        w) by {
            let k = choose|k: int| 0 <= k < workers.len() && workers[k] == w;
            if k < front.len() {
                assert(front[k] == w);
                assert(before.contains(w));
                let j = choose|j: int| 0 <= j < before.len() && before[j] == w;
                assert(all[j] == w);
            } else {
                assert(all[all.len() - 1] == w);
            }
        }
    }
}

/// The places of the workers that `keep` keeps.
pub(crate) fn places_of<F: Fn(&WorkerSpec) -> bool>(
    workers: &[WorkerSpec],
    keep: F,
    Ghost(wanted): Ghost<spec_fn(WorkerSpec) -> bool>,
) -> (out: Vec<usize>)
    requires
        forall|w: &WorkerSpec| #[trigger] call_requires(keep, (w,)),
        forall|w: &WorkerSpec, yes: bool| #[trigger]
            call_ensures(keep, (w,), yes) ==> yes == wanted(*w),
    ensures
        out@ == places(workers@, wanted),
{
    let mut out: Vec<usize> = Vec::new();
    let mut i: usize = 0;
    assert(workers@.take(0) =~= Seq::<WorkerSpec>::empty());
    while i < workers.len()
        invariant
            i <= workers@.len(),
            forall|w: &WorkerSpec| #[trigger] call_requires(keep, (w,)),
            forall|w: &WorkerSpec, yes: bool| #[trigger]
                call_ensures(keep, (w,), yes) ==> yes == wanted(*w),
            out@ == places(workers@.take(i as int), wanted),
        decreases workers@.len() - i,
    {
        let yes: bool = keep(&workers[i]);
        if yes {
            out.push(i);
        }
        assert(workers@.take(i + 1).drop_last() =~= workers@.take(i as int));
        i = i + 1;
    }
    assert(workers@.take(i as int) =~= workers@);
    out
}

/// Copies of the workers that `keep` keeps.
pub(crate) fn copies_of<F: Fn(&WorkerSpec) -> bool>(
    workers: &[WorkerSpec],
    keep: F,
    Ghost(wanted): Ghost<spec_fn(WorkerSpec) -> bool>,
) -> (out: Vec<WorkerSpec>)
    requires
        forall|w: &WorkerSpec| #[trigger] call_requires(keep, (w,)),
        forall|w: &WorkerSpec, yes: bool| #[trigger]
            call_ensures(keep, (w,), yes) ==> yes == wanted(*w),
    ensures
        out@ == those(workers@, wanted),
{
    let mut out: Vec<WorkerSpec> = Vec::new();
    let mut i: usize = 0;
    assert(workers@.take(0) =~= Seq::<WorkerSpec>::empty());
    while i < workers.len()
        invariant
            i <= workers@.len(),
            forall|w: &WorkerSpec| #[trigger] call_requires(keep, (w,)),
            forall|w: &WorkerSpec, yes: bool| #[trigger]
                call_ensures(keep, (w,), yes) ==> yes == wanted(*w),
            out@ == those(workers@.take(i as int), wanted),
        decreases workers@.len() - i,
    {
        let yes: bool = keep(&workers[i]);
        if yes {
            out.push(workers[i].clone());
        }
        assert(workers@.take(i + 1).drop_last() =~= workers@.take(i as int));
        i = i + 1;
    }
    assert(workers@.take(i as int) =~= workers@);
    out
}

/// Copies of all workers of a list.
pub fn copy_workers(workers: &[WorkerSpec]) -> (out: Vec<WorkerSpec>)
    ensures
        out@ == workers@,
{
    let mut out: Vec<WorkerSpec> = Vec::new();
    let mut i: usize = 0;
    while i < workers.len()
        invariant
            i <= workers@.len(),
            out@ == workers@.take(i as int),
        decreases workers@.len() - i,
    {
        out.push(workers[i].clone());
        i = i + 1;
        assert(out@ =~= workers@.take(i as int));
    }
    assert(workers@.take(i as int) =~= workers@);
    out
}

/// The place of the worker with a given id.
pub fn position_of(workers: &[WorkerSpec], id: &str) -> (at: Option<usize>)
    ensures
        match at {
            Some(i) => {
                &&& i < workers@.len()
                &&& workers@[i as int].id@ == id@
                &&& forall|j: int| 0 <= j < i ==> (#[trigger] workers@[j]).id@ != id@
            },
            None => forall|j: int| 0 <= j < workers@.len() ==> (#[trigger] workers@[j]).id@ != id@,
        },
{
    let mut i: usize = 0;
    while i < workers.len()
        invariant
            i <= workers@.len(),
            forall|j: int| 0 <= j < i ==> (#[trigger] workers@[j]).id@ != id@,
        decreases workers@.len() - i,
    {
        if str_eq(workers[i].id.as_str(), id) {
            return Some(i);
        }
        i = i + 1;
    }
    None
}

/// A worker with a given id that no other one with that id follows.
pub open spec fn last_with_id(workers: Seq<WorkerSpec>, id: Seq<char>, at: int) -> bool {
    &&& 0 <= at < workers.len()
    &&& workers[at].id@ == id
    &&& forall|j: int| at < j < workers.len() ==> (#[trigger] workers[j]).id@ != id
}

/// Some worker has a given id.
pub open spec fn has_id(workers: Seq<WorkerSpec>, id: Seq<char>) -> bool {
    exists|i: int| 0 <= i < workers.len() && (#[trigger] workers[i]).id@ == id
}

/// The place of the last worker with a given id.
pub fn last_position_of(workers: &[WorkerSpec], id: &str) -> (at: Option<usize>)
    ensures
        match at {
            Some(i) => last_with_id(workers@, id@, i as int) && has_id(workers@, id@),
            None => !has_id(workers@, id@),
        },
{
    let mut i: usize = workers.len();
    while i > 0
        invariant
            i <= workers@.len(),
            forall|j: int| i <= j < workers@.len() ==> (#[trigger] workers@[j]).id@ != id@,
        decreases i,
    {
        i = i - 1;
        if str_eq(workers[i].id.as_str(), id) {
            return Some(i);
        }
    }
    None
}

/// The worker that an id stands for: the last one that has it.
pub open spec fn known_as(workers: Seq<WorkerSpec>, id: Seq<char>) -> Option<WorkerSpec>
    decreases workers.len(),
{
    if workers.len() == 0 {
        None
    } else if workers.last().id@ == id {
        Some(workers.last())
    } else {
        known_as(workers.drop_last(), id)
    }
}

proof fn lemma_known_as(workers: Seq<WorkerSpec>, id: Seq<char>, upto: int)
    requires
        0 <= upto <= workers.len(),
        forall|j: int| upto <= j < workers.len() ==> (#[trigger] workers[j]).id@ != id,
    ensures
        known_as(workers, id) == known_as(workers.take(upto), id),
    decreases workers.len() - upto,
{
    if upto < workers.len() {
        assert(workers.last() == workers[workers.len() - 1]);
        lemma_known_as(workers.drop_last(), id, upto);
        assert(workers.drop_last().take(upto) =~= workers.take(upto));
    } else {
        assert(workers.take(upto) =~= workers);
    }
}

/// The worker that an id stands for.
pub fn find_known<'a>(workers: &'a [WorkerSpec], id: &str) -> (found: Option<&'a WorkerSpec>)
    ensures
        match found {
            Some(w) => known_as(workers@, id@) == Some(*w) && w.id@ == id@,
            None => known_as(workers@, id@) is None && !has_id(workers@, id@),
        },
{
    match last_position_of(workers, id) {
        Some(i) => {
            proof {
                lemma_known_as(workers@, id@, i + 1);
                assert(workers@.take(i + 1).last() == workers@[i as int]);
            }
            Some(&workers[i])
        },
        None => {
            proof {
                lemma_known_as(workers@, id@, 0);
                assert(workers@.take(0).len() == 0);
            }
            None
        },
    }
}

/// The ids of a list of workers.
pub fn ids_of(workers: &[WorkerSpec]) -> (out: Vec<String>)
    ensures
        text::texts(out@) == ids(workers@),
        out@.len() == workers@.len(),
{
    let mut out: Vec<String> = Vec::new();
    let mut i: usize = 0;
    while i < workers.len()
        invariant
            i <= workers@.len(),
            out@.len() == i,
            forall|j: int| 0 <= j < i ==> (#[trigger] out@[j])@ == workers@[j].id@,
        decreases workers@.len() - i,
    {
        out.push(workers[i].id.clone());
        i = i + 1;
    }
    assert(text::texts(out@) =~= ids(workers@));
    out
}

// ---------------------------------------------------------------------------
// How often a worker is in a list
// ---------------------------------------------------------------------------

/// How often a worker is in a list.
pub open spec fn times(list: Seq<WorkerSpec>, w: WorkerSpec) -> nat {
    list.to_multiset().count(w)
}

/// A list of one worker.
pub open spec fn just(w: WorkerSpec) -> Seq<WorkerSpec> {
    seq![w]
}

/// How often a worker is in two lists, one behind the other.
pub proof fn lemma_times_joined(a: Seq<WorkerSpec>, b: Seq<WorkerSpec>, w: WorkerSpec)
    ensures
        times(a + b, w) == times(a, w) + times(b, w),
{
    vstd::seq_lib::lemma_multiset_commutative(a, b);
}

/// How often a worker is in a list with one more worker at the end.
pub proof fn lemma_times_pushed(a: Seq<WorkerSpec>, last: WorkerSpec, w: WorkerSpec)
    ensures
        times(a.push(last), w) == times(a, w) + times(just(last), w),
        times(just(last), w) == (if last == w {
            1nat
        } else {
            0nat
        }),
{
    assert(a.push(last) =~= a + just(last));
    lemma_times_joined(a, just(last), w);
    just(last).to_multiset_ensures();
    assert(just(last) =~= Seq::<WorkerSpec>::empty().push(last));
    Seq::<WorkerSpec>::empty().to_multiset_ensures();
}

/// How often a worker is in a list that is cut in two.
pub proof fn lemma_times_cut(list: Seq<WorkerSpec>, at: int, w: WorkerSpec)
    requires
        0 <= at <= list.len(),
    ensures
        times(list, w) == times(list.take(at), w) + times(list.skip(at), w),
        list.len() > 0 ==> times(list, w) == times(just(list[0]), w) + times(list.skip(1), w),
{
    assert(list =~= list.take(at) + list.skip(at));
    lemma_times_joined(list.take(at), list.skip(at), w);
    if list.len() > 0 {
        assert(list =~= just(list[0]) + list.skip(1));
        lemma_times_joined(just(list[0]), list.skip(1), w);
    }
}

/// A worker that is not in a list is in it zero times.
pub proof fn lemma_times_none(list: Seq<WorkerSpec>, w: WorkerSpec)
    ensures
        times(list, w) > 0 <==> list.contains(w),
        list.len() == 0 ==> times(list, w) == 0,
{
    list.to_multiset_ensures();
}

/// How often a worker is in a list without one of its places.
pub proof fn lemma_times_left_out(list: Seq<WorkerSpec>, at: int, w: WorkerSpec)
    requires
        0 <= at < list.len(),
    ensures
        times(list.remove(at), w) + (if w == list[at] {
            1nat
        } else {
            0nat
        }) == times(list, w),
{
    let rest = list.skip(at);
    lemma_times_cut(list, at, w);
    lemma_times_cut(rest, 0, w);
    lemma_times_pushed(Seq::empty(), list[at], w);
    assert(list.remove(at) =~= list.take(at) + rest.skip(1));
    lemma_times_joined(list.take(at), rest.skip(1), w);
}

/// Choosing from a list puts no worker into it.
pub proof fn lemma_times_chosen(
    list: Seq<WorkerSpec>,
    wanted: spec_fn(WorkerSpec) -> bool,
    w: WorkerSpec,
)
    ensures
        times(those(list, wanted), w) == (if wanted(w) {
            times(list, w)
        } else {
            0
        }),
    decreases list.len(),
{
    if list.len() == 0 {
        lemma_times_none(list, w);
        lemma_times_none(those(list, wanted), w);
    } else {
        lemma_times_chosen(list.drop_last(), wanted, w);
        lemma_times_pushed(list.drop_last(), list.last(), w);
        lemma_times_pushed(those(list.drop_last(), wanted), list.last(), w);
        assert(list =~= list.drop_last().push(list.last()));
    }
}

// ---------------------------------------------------------------------------
// Where workers come from
// ---------------------------------------------------------------------------

impl WorkerSpec {
    /// The worker that an id and a base address stand for: alone in its container, and measured.
    pub open spec fn is_legacy(self, id: Seq<char>, url: Seq<char>) -> bool {
        let base = text::without_trailing(url, '/');
        &&& self.id@ == id
        &&& self.url@ == url
        &&& self.command_url@ == base + "/command"@
        &&& self.health_url@ == base + "/health"@
        &&& self.physical_worker_id@ == id
        &&& self.container_mode == ContainerMode::Singleton
        &&& self.profile_enabled
        &&& self.device_kind@ == Seq::<char>::empty()
    }

    /// The worker that an id and a base address stand for.
    pub fn legacy(id: String, url: String) -> (worker: WorkerSpec)
        ensures
            worker.is_legacy(id@, url@),
    {
        let mut command_url: String = trim_end_matches(url.as_str(), '/');
        command_url.append("/command");
        let mut health_url: String = trim_end_matches(url.as_str(), '/');
        health_url.append("/health");
        WorkerSpec {
            id: id.clone(),
            url: url,
            command_url: command_url,
            health_url: health_url,
            physical_worker_id: id,
            container_mode: ContainerMode::Singleton,
            profile_enabled: true,
            device_kind: String::new(),
        }
    }
}

/// Why the workers on the command line were refused.
#[derive(Debug)]
pub enum WorkerSpecError {
    /// No `=` between an id and an address.
    NoSeparator { raw: String },
    /// Nothing before the `=`.
    EmptyId { raw: String },
    /// Nothing after the `=`.
    EmptyUrl { raw: String },
    /// An id was given twice.
    Duplicate { id: String },
    /// No worker was given.
    NoWorkers,
}

impl WorkerSpecError {
    /// The error as it is shown.
    pub open spec fn shown(self) -> Seq<char> {
        match self {
            WorkerSpecError::NoSeparator { raw } => "Invalid worker '"@ + raw@
                + "', expected ID=URL"@,
            WorkerSpecError::EmptyId { raw } => "Worker id cannot be empty in '"@ + raw@ + "'"@,
            WorkerSpecError::EmptyUrl { raw } => "Worker url cannot be empty in '"@ + raw@ + "'"@,
            WorkerSpecError::Duplicate { id } => "Duplicate worker id '"@ + id@ + "'"@,
            WorkerSpecError::NoWorkers => "At least one worker must be provided"@,
        }
    }

    /// The error as it is shown.
    pub fn message(&self) -> (out: String)
        ensures
            out@ == self.shown(),
    {
        match self {
            WorkerSpecError::NoSeparator { raw } => {
                let mut out: String = "Invalid worker '".to_owned();
                out.append(raw.as_str());
                out.append("', expected ID=URL");
                out
            },
            WorkerSpecError::EmptyId { raw } => {
                let mut out: String = "Worker id cannot be empty in '".to_owned();
                out.append(raw.as_str());
                out.append("'");
                out
            },
            WorkerSpecError::EmptyUrl { raw } => {
                let mut out: String = "Worker url cannot be empty in '".to_owned();
                out.append(raw.as_str());
                out.append("'");
                out
            },
            WorkerSpecError::Duplicate { id } => {
                let mut out: String = "Duplicate worker id '".to_owned();
                out.append(id.as_str());
                out.append("'");
                out
            },
            WorkerSpecError::NoWorkers => "At least one worker must be provided".to_owned(),
        }
    }
}

/// The id that `ID=URL` gives at its first `=`.
pub open spec fn given_id(raw: Seq<char>, at: int) -> Seq<char> {
    text::trimmed(raw.take(at))
}

/// The address that `ID=URL` gives after its first `=`, without slashes at its end.
pub open spec fn given_url(raw: Seq<char>, at: int) -> Seq<char> {
    text::without_trailing(text::trimmed(raw.skip(at + 1)), '/')
}

/// What `ID=URL` means: the worker, or the reason why it means none.
pub open spec fn worker_meant(raw: Seq<char>, result: Result<WorkerSpec, WorkerSpecError>) -> bool {
    if !text::occurs(raw, "="@) {
        result is Err && result->Err_0 is NoSeparator && result->Err_0->NoSeparator_raw@ == raw
    } else {
        exists|at: int| #[trigger]
            text::first_at(raw, "="@, at) && {
                if given_id(raw, at).len() == 0 {
                    result is Err && result->Err_0 is EmptyId && result->Err_0->EmptyId_raw@ == raw
                } else if given_url(raw, at).len() == 0 {
                    result is Err && result->Err_0 is EmptyUrl && result->Err_0->EmptyUrl_raw@
                        == raw
                } else {
                    result is Ok && result->Ok_0.is_legacy(given_id(raw, at), given_url(raw, at))
                }
            }
    }
}

/// Reads one `ID=URL`.
pub fn parse_worker_spec(raw: &str) -> (result: Result<WorkerSpec, WorkerSpecError>)
    ensures
        worker_meant(raw@, result),
{
    proof {
        reveal_strlit("=");
    }
    match split_once(raw, "=") {
        None => Err(WorkerSpecError::NoSeparator { raw: raw.to_owned() }),
        Some((before, after)) => {
            let ghost at = choose|at: int|
                {
                    &&& #[trigger] text::first_at(raw@, "="@, at)
                    &&& before@ == raw@.take(at)
                    &&& after@ == raw@.skip(at + "="@.len())
                };
            assert(text::first_at(raw@, "="@, at));
            assert(text::occurs_at(raw@, "="@, at));
            let id: String = trim(before.as_str());
            let url: String = trim_end_matches(trim(after.as_str()).as_str(), '/');
            if id.as_str().is_empty() {
                return Err(WorkerSpecError::EmptyId { raw: raw.to_owned() });
            }
            if url.as_str().is_empty() {
                return Err(WorkerSpecError::EmptyUrl { raw: raw.to_owned() });
            }
            Ok(WorkerSpec::legacy(id, url))
        },
    }
}

/// `result` is what the list of `ID=URL` means: each worker where all are given and no id twice, or
/// the first reason why not.
pub open spec fn workers_meant(
    raws: Seq<Seq<char>>,
    result: Result<Seq<WorkerSpec>, WorkerSpecError>,
) -> bool {
    match result {
        Ok(workers) => {
            &&& workers.len() > 0
            &&& workers.len() == raws.len()
            &&& distinct(workers)
            &&& forall|i: int|
                0 <= i < raws.len() ==> worker_meant(
                    raws[i],
                    Ok::<WorkerSpec, WorkerSpecError>(#[trigger] workers[i]),
                )
        },
        Err(WorkerSpecError::NoWorkers) => raws.len() == 0,
        Err(WorkerSpecError::Duplicate { id }) => exists|past: Seq<WorkerSpec>|
            {
                &&& #[trigger] past.len() < raws.len()
                &&& distinct(past)
                &&& forall|i: int|
                    0 <= i < past.len() ==> worker_meant(
                        raws[i],
                        Ok::<WorkerSpec, WorkerSpecError>(#[trigger] past[i]),
                    )
                &&& ids(past).contains(id@)
                &&& exists|again: WorkerSpec| #[trigger]
                    worker_meant(
                        raws[past.len() as int],
                        Ok::<WorkerSpec, WorkerSpecError>(again),
                    ) && again.id@ == id@
            },
        Err(error) => exists|past: Seq<WorkerSpec>|
            {
                &&& #[trigger] past.len() < raws.len()
                &&& distinct(past)
                &&& forall|i: int|
                    0 <= i < past.len() ==> worker_meant(
                        raws[i],
                        Ok::<WorkerSpec, WorkerSpecError>(#[trigger] past[i]),
                    )
                &&& worker_meant(raws[past.len() as int], Err::<WorkerSpec, WorkerSpecError>(error))
            },
    }
}

/// Reads the workers of a run.
pub fn parse_worker_specs(raw_specs: &[String]) -> (result: Result<
    Vec<WorkerSpec>,
    WorkerSpecError,
>)
    ensures
        workers_meant(
            text::texts(raw_specs@),
            match result {
                Ok(workers) => Ok(workers@),
                Err(error) => Err(error),
            },
        ),
{
    let ghost raws = text::texts(raw_specs@);
    let mut workers: Vec<WorkerSpec> = Vec::new();
    let mut i: usize = 0;
    while i < raw_specs.len()
        invariant
            i <= raw_specs@.len(),
            raws == text::texts(raw_specs@),
            workers@.len() == i,
            distinct(workers@),
            forall|j: int|
                0 <= j < i ==> worker_meant(
                    raws[j],
                    Ok::<WorkerSpec, WorkerSpecError>(#[trigger] workers@[j]),
                ),
        decreases raw_specs@.len() - i,
    {
        assert(raws[i as int] == raw_specs@[i as int]@);
        let ghost past = workers@;
        match parse_worker_spec(raw_specs[i].as_str()) {
            Err(error) => {
                assert(past.len() < raws.len());
                return Err(error);
            },
            Ok(spec) => {
                if position_of(workers.as_slice(), spec.id.as_str()).is_some() {
                    let id: String = spec.id.clone();
                    proof {
                        assert(past.len() < raws.len());
                        let k = choose|k: int|
                            0 <= k < past.len() && (#[trigger] past[k]).id@ == spec.id@;
                        assert(ids(past)[k] == id@);
                        assert(worker_meant(
                            raws[past.len() as int],
                            Ok::<WorkerSpec, WorkerSpecError>(spec),
                        ));
                    }
                    return Err(WorkerSpecError::Duplicate { id: id });
                }
                workers.push(spec);
                assert(ids(workers@) =~= ids(past).push(spec.id@));
                assert forall|j: int| 0 <= j < past.len() implies ids(past)[j] != spec.id@ by {
                    assert(past[j].id@ != spec.id@);
                }
            },
        }
        i = i + 1;
    }
    if workers.len() == 0 {
        return Err(WorkerSpecError::NoWorkers);
    }
    Ok(workers)
}

/// The worker that a client of a layout file stands for.
pub open spec fn laid_out(client: WorkerLayoutClient, worker: WorkerSpec) -> bool {
    &&& worker.id@ == client.client_id@
    &&& worker.url@ == client.command_url@
    &&& worker.command_url@ == client.command_url@
    &&& worker.health_url@ == client.health_url@
    &&& worker.physical_worker_id@ == client.physical_worker_id@
    &&& worker.container_mode == (if client.container_mode@ == "packed"@ {
        ContainerMode::Packed
    } else {
        ContainerMode::Singleton
    })
    &&& worker.profile_enabled == client.profile_enabled
    &&& worker.device_kind@ == client.device_kind@
}

/// The workers of a layout file, in its order.
pub fn workers_from_layout(layout: &WorkerLayout) -> (workers: Vec<WorkerSpec>)
    ensures
        workers@.len() == layout.clients@.len(),
        forall|i: int|
            0 <= i < workers@.len() ==> laid_out(layout.clients@[i], #[trigger] workers@[i]),
{
    let mut workers: Vec<WorkerSpec> = Vec::new();
    let mut i: usize = 0;
    while i < layout.clients.len()
        invariant
            i <= layout.clients@.len(),
            workers@.len() == i,
            forall|j: int| 0 <= j < i ==> laid_out(layout.clients@[j], #[trigger] workers@[j]),
        decreases layout.clients@.len() - i,
    {
        let client: &WorkerLayoutClient = &layout.clients[i];
        let container_mode: ContainerMode = if str_eq(client.container_mode.as_str(), "packed") {
            ContainerMode::Packed
        } else {
            ContainerMode::Singleton
        };
        workers.push(
            WorkerSpec {
                id: client.client_id.clone(),
                url: client.command_url.clone(),
                command_url: client.command_url.clone(),
                health_url: client.health_url.clone(),
                physical_worker_id: client.physical_worker_id.clone(),
                container_mode: container_mode,
                profile_enabled: client.profile_enabled,
                device_kind: client.device_kind.clone(),
            },
        );
        i = i + 1;
    }
    workers
}

// ---------------------------------------------------------------------------
// Which workers
// ---------------------------------------------------------------------------

/// The measured workers.
pub fn measured_active_clients(active: &[WorkerSpec]) -> (measured: Vec<&WorkerSpec>)
    ensures
        measured@.len() == those(active@, profiled()).len(),
        forall|i: int|
            0 <= i < measured@.len() ==> *(#[trigger] measured@[i]) == those(
                active@,
                profiled(),
            )[i],
{
    let mut measured: Vec<&WorkerSpec> = Vec::new();
    let mut i: usize = 0;
    assert(active@.take(0) =~= Seq::<WorkerSpec>::empty());
    while i < active.len()
        invariant
            i <= active@.len(),
            measured@.len() == those(active@.take(i as int), profiled()).len(),
            forall|j: int|
                0 <= j < measured@.len() ==> *(#[trigger] measured@[j]) == those(
                    active@.take(i as int),
                    profiled(),
                )[j],
        decreases active@.len() - i,
    {
        assert(active@.take(i + 1).drop_last() =~= active@.take(i as int));
        if active[i].profile_enabled {
            measured.push(&active[i]);
        }
        i = i + 1;
    }
    assert(active@.take(i as int) =~= active@);
    measured
}

/// The places of the measured workers on devices of their own.
pub fn active_external_indices(active: &[WorkerSpec]) -> (out: Vec<usize>)
    ensures
        out@ == places(active@, profiled_external()),
{
    let keep = |w: &WorkerSpec| -> (yes: bool)
            ensures
                yes == (w.profile_enabled && external(*w)),
        { w.profile_enabled && is_external_device(w) };
    places_of(active, keep, Ghost(profiled_external()))
}

/// The places of the measured workers.
pub fn active_profiled_indices(active: &[WorkerSpec]) -> (out: Vec<usize>)
    ensures
        out@ == places(active@, profiled()),
{
    let keep = |w: &WorkerSpec| -> (yes: bool)
            ensures
                yes == w.profile_enabled,
        { w.profile_enabled };
    places_of(active, keep, Ghost(profiled()))
}

/// The places of the measured workers in containers.
pub fn active_profiled_non_external_indices(active: &[WorkerSpec]) -> (out: Vec<usize>)
    ensures
        out@ == places(active@, profiled_in_container()),
{
    let keep = |w: &WorkerSpec| -> (yes: bool)
            ensures
                yes == (w.profile_enabled && !external(*w)),
        { w.profile_enabled && !is_external_device(w) };
    places_of(active, keep, Ghost(profiled_in_container()))
}

/// Workers on devices of their own.
pub open spec fn on_device() -> spec_fn(WorkerSpec) -> bool {
    |w: WorkerSpec| external(w)
}

/// Measured workers that are alone in a container.
pub open spec fn profiled_singleton() -> spec_fn(WorkerSpec) -> bool {
    |w: WorkerSpec|
        !external(w) && w.profile_enabled && w.container_mode == ContainerMode::Singleton
}

/// All other workers.
pub open spec fn ordinary() -> spec_fn(WorkerSpec) -> bool {
    |w: WorkerSpec|
        !external(w) && !(w.profile_enabled && w.container_mode == ContainerMode::Singleton)
}

/// The idle workers in the order in which they join: devices first, then measured singletons, then
/// the others.
pub open spec fn frontloaded(idle: Seq<WorkerSpec>) -> Seq<WorkerSpec> {
    those(idle, on_device()) + those(idle, profiled_singleton()) + those(idle, ordinary())
}

/// Puts idle workers into the order in which they join.
pub fn frontload_profile_enabled_singletons_in_idle(idle: VecDeque<WorkerSpec>) -> (out: VecDeque<
    WorkerSpec,
>)
    ensures
        out@ == frontloaded(idle@),
{
    let mut external_devices: VecDeque<WorkerSpec> = VecDeque::new();
    let mut profiled_singletons: VecDeque<WorkerSpec> = VecDeque::new();
    let mut other_workers: VecDeque<WorkerSpec> = VecDeque::new();
    let mut rest: VecDeque<WorkerSpec> = idle;
    let ghost mut done: int = 0;
    assert(idle@.take(0) =~= Seq::<WorkerSpec>::empty());
    assert(idle@.skip(0) =~= idle@);
    while rest.len() > 0
        invariant
            0 <= done <= idle@.len(),
            rest@ == idle@.skip(done),
            external_devices@ == those(idle@.take(done), on_device()),
            profiled_singletons@ == those(idle@.take(done), profiled_singleton()),
            other_workers@ == those(idle@.take(done), ordinary()),
        decreases rest@.len(),
    {
        if let Some(worker) = rest.pop_front() {
            proof {
                assert(idle@.take(done + 1).drop_last() =~= idle@.take(done));
                assert(idle@.take(done + 1).last() == worker);
                assert(idle@.skip(done).drop_first() =~= idle@.skip(done + 1));
                done = done + 1;
            }
            if is_external_device(&worker) {
                external_devices.push_back(worker);
            } else if worker.profile_enabled && worker.container_mode == ContainerMode::Singleton {
                profiled_singletons.push_back(worker);
            } else {
                other_workers.push_back(worker);
            }
        }
    }
    assert(idle@.take(done) =~= idle@);
    let mut out: VecDeque<WorkerSpec> = external_devices;
    out.append(&mut profiled_singletons);
    out.append(&mut other_workers);
    out
}

/// A group of workers in one container.
pub open spec fn in_container(id: Seq<char>) -> spec_fn(WorkerSpec) -> bool {
    |w: WorkerSpec| w.physical_worker_id@ == id
}

/// The containers of the workers, in the order in which they first occur.
pub open spec fn containers(workers: Seq<WorkerSpec>) -> Seq<Seq<char>>
    decreases workers.len(),
{
    if workers.len() == 0 {
        Seq::empty()
    } else {
        let before = containers(workers.drop_last());
        let id = workers.last().physical_worker_id@;
        if before.contains(id) {
            before
        } else {
            before.push(id)
        }
    }
}

/// `groups` lists each container once, with its workers in their order.
pub open spec fn grouped(groups: Seq<(String, Vec<&WorkerSpec>)>, workers: Seq<WorkerSpec>) -> bool {
    &&& groups.len() == containers(workers).len()
    &&& forall|g: int|
        0 <= g < groups.len() ==> {
            &&& (#[trigger] groups[g]).0@ == containers(workers)[g]
            &&& groups[g].1@.map_values(|w: &WorkerSpec| *w) == those(
                workers,
                in_container(groups[g].0@),
            )
        }
}

/// How many workers some containers hold together.
pub open spec fn held_by(workers: Seq<WorkerSpec>, ids: Seq<Seq<char>>) -> nat
    decreases ids.len(),
{
    if ids.len() == 0 {
        0
    } else {
        held_by(workers, ids.drop_last()) + those(workers, in_container(ids.last())).len()
    }
}

proof fn lemma_one_more_held(workers: Seq<WorkerSpec>, ids: Seq<Seq<char>>)
    requires
        workers.len() > 0,
        ids.no_duplicates(),
    ensures
        held_by(workers, ids) == held_by(workers.drop_last(), ids) + (if ids.contains(
            workers.last().physical_worker_id@,
        ) {
            1int
        } else {
            0int
        }),
    decreases ids.len(),
{
    if ids.len() > 0 {
        let id = workers.last().physical_worker_id@;
        let front = ids.drop_last();
        lemma_one_more_held(workers, front);
        assert(ids.contains(id) <==> front.contains(id) || ids.last() == id) by {
            if front.contains(id) {
                let k = choose|k: int| 0 <= k < front.len() && front[k] == id;
                assert(ids[k] == id);
            }
            if ids.last() == id {
                assert(ids[ids.len() - 1] == id);
            }
            if ids.contains(id) {
                let k = choose|k: int| 0 <= k < ids.len() && ids[k] == id;
                assert(k < front.len() ==> front[k] == id);
            }
        }
        if front.contains(id) {
            let k = choose|k: int| 0 <= k < front.len() && front[k] == id;
            assert(ids[k] != ids[ids.len() - 1]);
        }
    }
}

/// Different containers hold no more workers together than there are.
pub proof fn lemma_held_by(workers: Seq<WorkerSpec>, ids: Seq<Seq<char>>)
    requires
        ids.no_duplicates(),
    ensures
        held_by(workers, ids) <= workers.len(),
    decreases workers.len(), ids.len(),
{
    if workers.len() > 0 {
        lemma_held_by(workers.drop_last(), ids);
        lemma_one_more_held(workers, ids);
    } else if ids.len() > 0 {
        lemma_held_by(workers, ids.drop_last());
    }
}

/// No container is listed twice, and none is missing.
pub proof fn lemma_containers(workers: Seq<WorkerSpec>)
    ensures
        containers(workers).no_duplicates(),
        forall|i: int|
            0 <= i < workers.len() ==> containers(workers).contains(
                (#[trigger] workers[i]).physical_worker_id@,
            ),
    decreases workers.len(),
{
    if workers.len() > 0 {
        let front = workers.drop_last();
        lemma_containers(front);
        let before = containers(front);
        let all = containers(workers);
        assert forall|i: int| 0 <= i < workers.len() implies all.contains(
            (#[trigger] workers[i]).physical_worker_id@,
        ) by {
            let id = workers[i].physical_worker_id@;
            if i < front.len() {
                assert(front[i] == workers[i]);
                let k = choose|k: int| 0 <= k < before.len() && before[k] == id;
                assert(all[k] == id);
            } else if before.contains(id) {
                let k = choose|k: int| 0 <= k < before.len() && before[k] == id;
                assert(all[k] == id);
            } else {
                assert(all[all.len() - 1] == id);
            }
        }
    }
}

proof fn lemma_none_of(workers: Seq<WorkerSpec>, id: Seq<char>)
    requires
        !containers(workers).contains(id),
    ensures
        those(workers, in_container(id)) == Seq::<WorkerSpec>::empty(),
    decreases workers.len(),
{
    if workers.len() > 0 {
        let before = containers(workers.drop_last());
        if before.contains(id) {
            let k = choose|k: int| 0 <= k < before.len() && before[k] == id;
            assert(containers(workers)[k] == id);
        }
        lemma_none_of(workers.drop_last(), id);
        lemma_containers(workers);
        assert(workers[workers.len() - 1].physical_worker_id@ != id);
    }
}

/// The workers of each container, the containers in the order in which they first occur.
pub fn physical_groups<'a>(workers: &'a [WorkerSpec]) -> (groups: Vec<
    (String, Vec<&'a WorkerSpec>),
>)
    ensures
        grouped(groups@, workers@),
{
    let mut groups: Vec<(String, Vec<&'a WorkerSpec>)> = Vec::new();
    let mut i: usize = 0;
    assert(workers@.take(0) =~= Seq::<WorkerSpec>::empty());
    while i < workers.len()
        invariant
            i <= workers@.len(),
            grouped(groups@, workers@.take(i as int)),
        decreases workers@.len() - i,
    {
        let ghost past = workers@.take(i as int);
        let ghost now = workers@.take(i + 1);
        let ghost worker = workers@[i as int];
        let ghost old_groups = groups@;
        assert(now.drop_last() =~= past);
        assert(now.last() == worker);
        let mut at: usize = 0;
        while at < groups.len() && !str_eq(
            groups[at].0.as_str(),
            workers[i].physical_worker_id.as_str(),
        )
            invariant
                at <= groups@.len(),
                i < workers@.len(),
                worker == workers@[i as int],
                forall|g: int|
                    0 <= g < at ==> (#[trigger] groups@[g]).0@ != worker.physical_worker_id@,
            decreases groups@.len() - at,
        {
            at = at + 1;
        }
        if at < groups.len() {
            let mut members: Vec<&'a WorkerSpec> = Vec::new();
            let name: String = groups[at].0.clone();
            let mut m: usize = 0;
            while m < groups[at].1.len()
                invariant
                    at < groups@.len(),
                    m <= groups@[at as int].1@.len(),
                    members@ == groups@[at as int].1@.take(m as int),
                decreases groups@[at as int].1@.len() - m,
            {
                members.push(groups[at].1[m]);
                m = m + 1;
                assert(members@ =~= groups@[at as int].1@.take(m as int));
            }
            assert(members@ =~= groups@[at as int].1@);
            members.push(&workers[i]);
            groups.set(at, (name, members));
            proof {
                lemma_containers(past);
                assert(containers(past)[at as int] == worker.physical_worker_id@);
                assert(containers(now) == containers(past));
                assert forall|g: int| 0 <= g < groups@.len() implies {
                    &&& (#[trigger] groups@[g]).0@ == containers(now)[g]
                    &&& groups@[g].1@.map_values(|w: &WorkerSpec| *w) == those(
                        now,
                        in_container(groups@[g].0@),
                    )
                } by {
                    if g == at {
                        assert(groups@[g].1@.map_values(|w: &WorkerSpec| *w) =~= old_groups[g].1@.map_values(
                            |w: &WorkerSpec| *w,
                        ).push(worker));
                    } else {
                        assert(groups@[g] == old_groups[g]);
                        assert(containers(past)[g] != containers(past)[at as int]);
                    }
                }
            }
        } else {
            let mut members: Vec<&'a WorkerSpec> = Vec::new();
            members.push(&workers[i]);
            groups.push((workers[i].physical_worker_id.clone(), members));
            proof {
                let id = worker.physical_worker_id@;
                assert(!containers(past).contains(id)) by {
                    if containers(past).contains(id) {
                        let k = choose|k: int|
                            0 <= k < containers(past).len() && containers(past)[k] == id;
                        assert(old_groups[k].0@ == id);
                    }
                }
                lemma_none_of(past, id);
                assert forall|g: int| 0 <= g < groups@.len() implies {
                    &&& (#[trigger] groups@[g]).0@ == containers(now)[g]
                    &&& groups@[g].1@.map_values(|w: &WorkerSpec| *w) == those(
                        now,
                        in_container(groups@[g].0@),
                    )
                } by {
                    if g < old_groups.len() {
                        assert(groups@[g] == old_groups[g]);
                        assert(containers(past).contains(containers(past)[g]));
                    } else {
                        assert(groups@[g].1@.map_values(|w: &WorkerSpec| *w) =~= seq![worker]);
                        assert(those(now, in_container(id)) =~= seq![worker]);
                    }
                }
            }
        }
        i = i + 1;
    }
    assert(workers@.take(i as int) =~= workers@);
    groups
}

/// The idle workers that are put in order are the same as before. Those on devices of their own come
/// first, then the measured ones that are alone in a container, then all others.
pub proof fn law_frontloaded(idle: Seq<WorkerSpec>, w: WorkerSpec, i: int, j: int)
    ensures
        times(frontloaded(idle), w) == times(idle, w),
        0 <= i < j < frontloaded(idle).len() ==> {
            let a = frontloaded(idle)[i];
            let b = frontloaded(idle)[j];
            let alone = |w: WorkerSpec|
                w.profile_enabled && w.container_mode == ContainerMode::Singleton;
            &&& external(b) ==> external(a)
            &&& !external(b) && alone(b) ==> external(a) || alone(a)
        },
{
    let first = those(idle, on_device());
    let second = those(idle, profiled_singleton());
    let third = those(idle, ordinary());
    lemma_times_joined(first, second, w);
    lemma_times_joined(first + second, third, w);
    lemma_times_chosen(idle, on_device(), w);
    lemma_times_chosen(idle, profiled_singleton(), w);
    lemma_times_chosen(idle, ordinary(), w);
    lemma_those(idle, on_device());
    lemma_those(idle, profiled_singleton());
    lemma_those(idle, ordinary());
    if 0 <= i < j < frontloaded(idle).len() {
        lemma_part(idle, i);
        lemma_part(idle, j);
    }
}

proof fn lemma_part(idle: Seq<WorkerSpec>, i: int)
    requires
        0 <= i < frontloaded(idle).len(),
    ensures
        ({
            let w = frontloaded(idle)[i];
            let one = those(idle, on_device()).len();
            let two = those(idle, profiled_singleton()).len();
            if i < one {
                on_device()(w)
            } else if i < one + two {
                profiled_singleton()(w)
            } else {
                ordinary()(w)
            }
        }),
{
    let first = those(idle, on_device());
    let second = those(idle, profiled_singleton());
    let third = those(idle, ordinary());
    lemma_those(idle, on_device());
    lemma_those(idle, profiled_singleton());
    lemma_those(idle, ordinary());
    if i < first.len() {
        assert(first.contains(first[i]));
    } else if i < first.len() + second.len() {
        assert(second.contains(second[i - first.len()]));
    } else {
        assert(third.contains(third[i - first.len() - second.len()]));
    }
}

/// A worker that is typed as its id, `=` and its address is read back: it has that id and that address,
/// takes commands and is asked for its health there, is alone in a container of its own name, and is
/// measured.
pub proof fn law_typed_worker_reads_back(
    id: Seq<char>,
    url: Seq<char>,
    result: Result<WorkerSpec, WorkerSpecError>,
)
    requires
        id.len() > 0,
        url.len() > 0,
        !id.contains('='),
        text::trimmed(id) == id,
        text::trimmed(url) == url,
        text::without_trailing(url, '/') == url,
        worker_meant(id + "="@ + url, result),
    ensures
        result matches Ok(worker) && worker.id@ == id && worker.url@ == url && worker.command_url@
            == url + "/command"@ && worker.health_url@ == url + "/health"@
            && worker.physical_worker_id@ == id && worker.container_mode == ContainerMode::Singleton
            && worker.profile_enabled && !external(worker),
{
    reveal_strlit("=");
    let raw = id + "="@ + url;
    let end = id.len() as int;
    assert(raw.subrange(end, end + 1) =~= "="@);
    assert(text::occurs_at(raw, "="@, end));
    assert forall|at: int| text::first_at(raw, "="@, at) implies at == end by {
        if at < end {
            assert(raw.subrange(at, at + 1)[0] == raw[at]);
            assert(raw[at] == id[at]);
            assert(id.contains(id[at]));
        } else if end < at {
            assert(text::occurs_at(raw, "="@, end));
        }
    }
    assert(raw.take(end) =~= id);
    assert(raw.skip(end + 1) =~= url);
}

/// The worker that a client of a layout stands for has the client's id, address, health address and
/// device, belongs to the client's container, shares it exactly where the layout says that it is packed,
/// and is measured exactly where the client is. It counts as a device of its own exactly where the
/// layout names a device that is no scratch container.
pub proof fn law_worker_of_a_client(client: WorkerLayoutClient, worker: WorkerSpec)
    requires
        laid_out(client, worker),
    ensures
        worker.id@ == client.client_id@,
        worker.command_url@ == client.command_url@,
        worker.health_url@ == client.health_url@,
        worker.physical_worker_id@ == client.physical_worker_id@,
        worker.container_mode == ContainerMode::Packed <==> client.container_mode@ == "packed"@,
        worker.profile_enabled == client.profile_enabled,
        worker.device_kind@ == client.device_kind@,
        external(worker) <==> client.device_kind@.len() > 0 && client.device_kind@
            != "scratch_container"@,
{
}

} // verus!
