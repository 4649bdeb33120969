//! Waiting until every worker is ready, and whether the measured ones can measure.

use vstd::prelude::*;

use crate::expect;
use crate::expect::debug_texts;
use crate::fanout;
use crate::fanout::{latency_percentiles, NetworkPhaseMetrics};
use crate::text;
use crate::text::{contains, decimal_text, to_lowercase, trim_end_matches};
use crate::transport;
use crate::transport::is_transient_status;
use crate::units;
use crate::units::format_hms;
use crate::workers;
use crate::workers::{places_of, WorkerSpec};

verus! {

// ---------------------------------------------------------------------------
// A service
// ---------------------------------------------------------------------------

/// How long the delivery service may take to become healthy.
pub const DS_HEALTH_TIMEOUT_MS: u64 = 10_000;

/// How long one question to a service may take.
pub const HEALTH_REQUEST_TIMEOUT_MS: u64 = 5_000;

/// The pause before a service is asked again.
pub const HEALTH_PAUSE_MS: u64 = 200;

/// Where a service is asked whether it is healthy.
pub fn health_url(base_url: &str) -> (url: String)
    ensures
        url@ == text::without_trailing(base_url@, '/') + "/health"@,
{
    let mut url: String = trim_end_matches(base_url, '/');
    url.append("/health");
    url
}

/// How long one question may take where the service is given `timeout_ms` in all.
pub fn health_request_timeout_ms(timeout_ms: u64) -> (each_ms: u64)
    ensures
        each_ms as int == vstd::math::min(timeout_ms as int, HEALTH_REQUEST_TIMEOUT_MS as int),
{
    if timeout_ms < HEALTH_REQUEST_TIMEOUT_MS {
        timeout_ms
    } else {
        HEALTH_REQUEST_TIMEOUT_MS
    }
}

/// What came of asking a service whether it is healthy.
#[derive(Debug)]
pub enum HealthAnswer {
    Status { code: u16, shown: String, body: String },
    NotReached { transient: bool, error: String },
}

impl HealthAnswer {
    /// The service is healthy.
    pub open spec fn is_good(self) -> bool {
        self matches HealthAnswer::Status { code, .. } && 200 <= code < 300
    }

    /// The service may do better at another attempt.
    pub open spec fn may_get_better(self) -> bool {
        match self {
            HealthAnswer::Status { code, .. } => transport::transient_status(code),
            HealthAnswer::NotReached { transient, .. } => transient,
        }
    }

    /// Why the service is not healthy.
    pub open spec fn trouble(self) -> Seq<char> {
        match self {
            HealthAnswer::Status { shown, body, .. } => "HTTP "@ + shown@ + ": "@ + body@,
            HealthAnswer::NotReached { error, .. } => error@,
        }
    }

    /// What is said where it does not help to ask again.
    pub open spec fn verdict(self) -> Seq<char> {
        match self {
            HealthAnswer::Status { shown, body, .. } => "Health check failed with status "@ + shown@
                + ": "@ + body@,
            HealthAnswer::NotReached { error, .. } => error@,
        }
    }
}

/// What follows after the answer of a service.
#[derive(Debug)]
pub enum HealthStep {
    Healthy,
    AskAgain { delay_ms: u64 },
    Failed(String),
}

/// What follows after the answer of a service, so long after it was asked first. It is asked again
/// where that may help, until its time is up.
pub fn health_step(url: &str, answer: HealthAnswer, elapsed_ms: u128, timeout_ms: u64) -> (step:
    HealthStep)
    ensures
        if answer.is_good() {
            step is Healthy
        } else if !answer.may_get_better() {
            step is Failed && step->Failed_0@ == answer.verdict()
        } else if elapsed_ms >= timeout_ms {
            step is Failed && step->Failed_0@ == url@ + " is not healthy: "@ + answer.trouble()
        } else {
            step is AskAgain && step->delay_ms == HEALTH_PAUSE_MS
        },
{
    let why: String = match answer {
        HealthAnswer::Status { code, shown, body } => {
            if 200 <= code && code < 300 {
                return HealthStep::Healthy;
            }
            let better: bool = is_transient_status(code);
            let mut why: String = (if better {
                "HTTP "
            } else {
                "Health check failed with status "
            }).to_owned();
            why.append(shown.as_str());
            why.append(": ");
            why.append(body.as_str());
            if !better {
                return HealthStep::Failed(why);
            }
            why
        },
        HealthAnswer::NotReached { transient, error } => {
            if !transient {
                return HealthStep::Failed(error);
            }
            error
        },
    };
    if elapsed_ms >= timeout_ms as u128 {
        let mut out: String = url.to_owned();
        out.append(" is not healthy: ");
        out.append(why.as_str());
        return HealthStep::Failed(out);
    }
    HealthStep::AskAgain { delay_ms: HEALTH_PAUSE_MS }
}

// ---------------------------------------------------------------------------
// Readiness
// ---------------------------------------------------------------------------

/// How many workers an error names.
pub const NAMED_WORKERS: usize = 25;

/// How many workers are named while they are waited for.
pub const WAITED_FOR_WORKERS: usize = 10;

/// How long nothing is said of the workers that are waited for.
pub const PROGRESS_PAUSE_MS: u128 = 5_000;

/// How many workers are reported as the slowest.
pub const SLOWEST_WORKERS: usize = 5;

/// The workers that some probes found not to be ready, in the order of the answers.
pub open spec fn unready(probes: Seq<(usize, bool)>) -> Seq<usize>
    decreases probes.len(),
{
    if probes.len() == 0 {
        Seq::empty()
    } else {
        let front = unready(probes.drop_last());
        if probes.last().1 {
            front
        } else {
            front.push(probes.last().0)
        }
    }
}

/// At most so many of the first items.
pub open spec fn at_most<T>(list: Seq<T>, n: int) -> Seq<T> {
    if list.len() <= n {
        list
    } else {
        list.take(n)
    }
}

/// Workers that are waited for.
#[derive(Debug)]
pub struct Readiness {
    remaining: Vec<usize>,
}

impl View for Readiness {
    type V = Seq<usize>;

    closed spec fn view(&self) -> Seq<usize> {
        self.remaining@
    }
}

impl Readiness {
    /// Each place is one of a list of workers.
    pub open spec fn fits(&self, count: nat) -> bool {
        forall|i: int| 0 <= i < self@.len() ==> (#[trigger] self@[i]) < count
    }

    /// Every worker is waited for.
    pub fn new(count: usize) -> (readiness: Readiness)
        ensures
            readiness@ == Seq::new(count as nat, |i: int| i as usize),
            readiness.fits(count as nat),
    {
        let mut remaining: Vec<usize> = Vec::new();
        let mut i: usize = 0;
        while i < count
            invariant
                i <= count,
                remaining@ == Seq::new(i as nat, |j: int| j as usize),
            decreases count - i,
        {
            remaining.push(i);
            i = i + 1;
            assert(remaining@ =~= Seq::new(i as nat, |j: int| j as usize));
        }
        Readiness { remaining }
    }

    /// The places of the workers that are waited for, to be probed next.
    pub fn remaining(&self) -> (places: &Vec<usize>)
        ensures
            places@ == self@,
    {
        &self.remaining
    }

    /// Takes the answers of a round of probes in: who was not ready is waited for.
    pub fn round(&mut self, probes: &Vec<(usize, bool)>)
        ensures
            final(self)@ == unready(probes@),
    {
        let mut remaining: Vec<usize> = Vec::new();
        let mut i: usize = 0;
        while i < probes.len()
            invariant
                i <= probes@.len(),
                remaining@ == unready(probes@.take(i as int)),
            decreases probes@.len() - i,
        {
            assert(probes@.take(i + 1).drop_last() =~= probes@.take(i as int));
            if !probes[i].1 {
                remaining.push(probes[i].0);
            }
            i = i + 1;
        }
        assert(probes@.take(i as int) =~= probes@);
        self.remaining = remaining;
    }

    /// Whether no worker is waited for.
    pub fn is_ready(&self) -> (ready: bool)
        ensures
            ready == (self@.len() == 0),
    {
        self.remaining.len() == 0
    }
}

/// A round waits for workers that were probed and were not ready, and for no others.
pub proof fn law_round(probes: Seq<(usize, bool)>, place: usize)
    ensures
        unready(probes).contains(place) == exists|i: int|
            0 <= i < probes.len() && #[trigger] probes[i] == (place, false),
        unready(probes).len() <= probes.len(),
    decreases probes.len(),
{
    if probes.len() > 0 {
        let front = probes.drop_last();
        law_round(front, place);
        let before = unready(front);
        let all = unready(probes);
        if before.contains(place) {
            let i = choose|i: int| 0 <= i < front.len() && #[trigger] front[i] == (place, false);
            assert(probes[i] == (place, false));
            let j = choose|j: int| 0 <= j < before.len() && before[j] == place;
            assert(all[j] == place);
        }
        if exists|i: int| 0 <= i < probes.len() && #[trigger] probes[i] == (place, false) {
            let i = choose|i: int| 0 <= i < probes.len() && #[trigger] probes[i] == (place, false);
            if i < front.len() {
                assert(front[i] == (place, false));
            } else {
                assert(all[before.len() as int] == place);
            }
        }
        if all.contains(place) && !before.contains(place) {
            let j = choose|j: int| 0 <= j < all.len() && all[j] == place;
            if j < before.len() {
                assert(before[j] == place);
            }
            assert(probes[probes.len() - 1] == (place, false));
        }
    }
}

/// How many workers are measured.
pub open spec fn measured(workers: Seq<WorkerSpec>) -> nat {
    workers::places(workers, workers::profiled()).len()
}

/// How many workers are measured.
fn count_measured(workers: &[WorkerSpec]) -> (count: usize)
    ensures
        count == measured(workers@),
        count <= workers@.len(),
{
    let keep = |w: &WorkerSpec| -> (yes: bool)
        ensures
            yes == w.profile_enabled,
        { w.profile_enabled };
    let places: Vec<usize> = places_of(workers, keep, Ghost(workers::profiled()));
    proof {
        lemma_fewer(workers@, workers::profiled());
    }
    places.len()
}

/// There are no more places than workers.
proof fn lemma_fewer(list: Seq<WorkerSpec>, wanted: spec_fn(WorkerSpec) -> bool)
    ensures
        workers::places(list, wanted).len() <= list.len(),
    decreases list.len(),
{
    if list.len() > 0 {
        lemma_fewer(list.drop_last(), wanted);
    }
}

/// What is reported once every worker is ready.
pub open spec fn reports_ready(
    metrics: NetworkPhaseMetrics,
    workers: Seq<WorkerSpec>,
    latencies: Seq<u128>,
    max_parallelism: usize,
    effective: usize,
    wall_ms: u128,
) -> bool {
    &&& metrics.phase@ == "preflight"@
    &&& metrics.operation@ == "worker_health"@
    &&& metrics.group_size == workers.len()
    &&& metrics.request_count == workers.len()
    &&& metrics.recipient_count == workers.len()
    &&& metrics.success_count == workers.len()
    &&& metrics.failure_count == 0
    &&& metrics.timeout_count == 0
    &&& metrics.connect_error_count == 0
    &&& metrics.max_parallelism == max_parallelism
    &&& metrics.effective_parallelism == effective
    &&& metrics.wall_ms == wall_ms
    &&& metrics.retry_count == 0
    &&& metrics.retry_sleep_ms == 0
    &&& metrics.retry_pass_count == 0
    &&& metrics.failures == 0
    &&& metrics.worker_latency_p50_ms == fanout::percentile(latencies, 50)
    &&& metrics.worker_latency_p95_ms == fanout::percentile(latencies, 95)
    &&& metrics.worker_latency_p99_ms == fanout::percentile(latencies, 99)
    &&& metrics.worker_latency_max_ms == fanout::percentile(latencies, 100)
    &&& metrics.slowest_worker_ids@.len() == 0
    &&& metrics.logical_request_count == workers.len()
    &&& metrics.physical_request_count == workers.len()
    &&& metrics.singleton_request_count == workers.len()
    &&& metrics.packed_request_count == 0
    &&& metrics.packed_logical_client_count == 0
    &&& metrics.profile_enabled_recipient_count == measured(workers)
}

/// What is reported once every worker is ready.
pub fn ready_metrics(
    workers: &[WorkerSpec],
    latencies: &Vec<u128>,
    max_parallelism: usize,
    effective: usize,
    wall_ms: u128,
) -> (metrics: NetworkPhaseMetrics)
    ensures
        reports_ready(metrics, workers@, latencies@, max_parallelism, effective, wall_ms),
{
    let (p50, p95, p99, max) = latency_percentiles(latencies);
    let count: usize = workers.len();
    NetworkPhaseMetrics {
        phase: "preflight".to_owned(),
        group_size: count,
        operation: "worker_health".to_owned(),
        request_count: count,
        recipient_count: count,
        success_count: count,
        failure_count: 0,
        timeout_count: 0,
        connect_error_count: 0,
        max_parallelism,
        effective_parallelism: effective,
        wall_ms,
        retry_count: 0,
        retry_sleep_ms: 0,
        retry_pass_count: 0,
        failures: 0,
        worker_latency_p50_ms: p50,
        worker_latency_p95_ms: p95,
        worker_latency_p99_ms: p99,
        worker_latency_max_ms: max,
        slowest_worker_ids: Vec::new(),
        logical_request_count: count,
        physical_request_count: count,
        singleton_request_count: count,
        packed_request_count: 0,
        packed_logical_client_count: 0,
        profile_enabled_recipient_count: count_measured(workers),
    }
}

/// The ids of the workers at some places.
pub open spec fn ids_at(workers: Seq<WorkerSpec>, places: Seq<usize>) -> Seq<Seq<char>> {
    places.map_values(|at: usize| workers[at as int].id@)
}

/// The ids and the addresses of the workers at some places.
pub open spec fn addresses_at(workers: Seq<WorkerSpec>, places: Seq<usize>) -> Seq<Seq<char>> {
    places.map_values(|at: usize| workers[at as int].id@ + "="@ + workers[at as int].url@)
}

/// How many of two.
pub open spec fn fewer(a: nat, b: nat) -> nat {
    if a < b {
        a
    } else {
        b
    }
}

/// What is reported when the time is up.
pub open spec fn reports_unready(
    metrics: NetworkPhaseMetrics,
    workers: Seq<WorkerSpec>,
    remaining: Seq<usize>,
    max_parallelism: usize,
    wall_ms: u128,
) -> bool {
    &&& metrics.phase@ == "preflight"@
    &&& metrics.operation@ == "worker_health"@
    &&& metrics.group_size == workers.len()
    &&& metrics.request_count == workers.len()
    &&& metrics.recipient_count == workers.len()
    &&& metrics.success_count == (if remaining.len() <= workers.len() {
        workers.len() - remaining.len()
    } else {
        0
    })
    &&& metrics.failure_count == remaining.len()
    &&& metrics.timeout_count == 0
    &&& metrics.connect_error_count == 0
    &&& metrics.max_parallelism == max_parallelism
    &&& metrics.effective_parallelism == fewer(max_parallelism as nat, workers.len())
    &&& metrics.wall_ms == wall_ms
    &&& metrics.retry_count == 0
    &&& metrics.retry_sleep_ms == 0
    &&& metrics.retry_pass_count == 0
    &&& metrics.failures == remaining.len()
    &&& metrics.worker_latency_p50_ms is None
    &&& metrics.worker_latency_p95_ms is None
    &&& metrics.worker_latency_p99_ms is None
    &&& metrics.worker_latency_max_ms is None
    &&& text::texts(metrics.slowest_worker_ids@) == ids_at(
        workers,
        at_most(remaining, SLOWEST_WORKERS as int),
    )
    &&& metrics.logical_request_count == workers.len()
    &&& metrics.physical_request_count == workers.len()
    &&& metrics.singleton_request_count == measured(workers)
    &&& metrics.packed_request_count == workers.len() - measured(workers)
    &&& metrics.packed_logical_client_count == workers.len() - measured(workers)
    &&& metrics.profile_enabled_recipient_count == measured(workers)
}

/// What is said when the time is up.
pub open spec fn unready_shown(
    workers: Seq<WorkerSpec>,
    remaining: Seq<usize>,
    timeout_seconds: u64,
) -> Seq<char> {
    "Timeout waiting for worker readiness after "@ + units::hms(timeout_seconds) + ". "@
        + text::decimal(remaining.len()) + "/"@ + text::decimal(workers.len())
        + " workers still unhealthy. Examples: "@ + expect::debug_shown(
        addresses_at(workers, at_most(remaining, NAMED_WORKERS as int)),
    )
}

/// What is said while workers are waited for.
pub open spec fn waiting_shown(workers: Seq<WorkerSpec>, remaining: Seq<usize>) -> Seq<char> {
    "[preflight] "@ + text::decimal(
        if remaining.len() < workers.len() {
            (workers.len() - remaining.len()) as nat
        } else {
            0
        },
    ) + "/"@ + text::decimal(workers.len()) + " workers healthy; still waiting for "@
        + text::decimal(remaining.len()) + ". Examples: "@ + expect::debug_shown(
        ids_at(workers, at_most(remaining, WAITED_FOR_WORKERS as int)),
    )
}

impl Readiness {
    /// Whether the workers are probed once more, so long after they were probed first.
    pub fn is_due(&self, elapsed_ms: u128, timeout_seconds: u64) -> (due: bool)
        ensures
            due == (elapsed_ms < timeout_seconds * 1000),
    {
        elapsed_ms < timeout_seconds as u128 * 1000
    }

    /// What is said of the workers that are waited for, if nothing was said for a while.
    pub fn progress(&self, workers: &[WorkerSpec], silent_ms: u128) -> (out: Option<String>)
        requires
            self.fits(workers@.len()),
        ensures
            text::maybe(out) == (if silent_ms >= PROGRESS_PAUSE_MS {
                Some(waiting_shown(workers@, self@))
            } else {
                None
            }),
    {
        if silent_ms < PROGRESS_PAUSE_MS {
            return None;
        }
        let waiting: usize = self.remaining.len();
        let count: usize = workers.len();
        let shown: usize = if waiting < WAITED_FOR_WORKERS {
            waiting
        } else {
            WAITED_FOR_WORKERS
        };
        let mut examples: Vec<String> = Vec::new();
        let ghost named = ids_at(workers@, at_most(self@, WAITED_FOR_WORKERS as int));
        let mut i: usize = 0;
        while i < shown
            invariant
                i <= shown,
                shown <= self@.len(),
                shown == at_most(self@, WAITED_FOR_WORKERS as int).len(),
                self.fits(workers@.len()),
                named == ids_at(workers@, at_most(self@, WAITED_FOR_WORKERS as int)),
                examples@.len() == i,
                forall|j: int| 0 <= j < i ==> (#[trigger] examples@[j])@ == named[j],
            decreases shown - i,
        {
            let at: usize = self.remaining[i];
            assert(self@[i as int] == at);
            examples.push(workers[at].id.as_str().to_owned());
            i = i + 1;
        }
        assert(text::texts(examples@) =~= named);
        let healthy: usize = if waiting < count {
            count - waiting
        } else {
            0
        };
        let mut out: String = "[preflight] ".to_owned();
        out.append(decimal_text(healthy as u128).as_str());
        out.append("/");
        out.append(decimal_text(count as u128).as_str());
        out.append(" workers healthy; still waiting for ");
        out.append(decimal_text(waiting as u128).as_str());
        out.append(". Examples: ");
        out.append(debug_texts(&examples).as_str());
        Some(out)
    }

    /// What is reported when the time is up.
    pub fn unready_metrics(
        &self,
        workers: &[WorkerSpec],
        max_parallelism: usize,
        wall_ms: u128,
    ) -> (metrics: NetworkPhaseMetrics)
        requires
            self.fits(workers@.len()),
        ensures
            reports_unready(metrics, workers@, self@, max_parallelism, wall_ms),
    {
        let count: usize = workers.len();
        let unready: usize = self.remaining.len();
        let shown: usize = if unready < SLOWEST_WORKERS {
            unready
        } else {
            SLOWEST_WORKERS
        };
        let mut slowest: Vec<String> = Vec::new();
        let ghost named = ids_at(workers@, at_most(self@, SLOWEST_WORKERS as int));
        let mut i: usize = 0;
        while i < shown
            invariant
                i <= shown,
                shown <= self@.len(),
                shown == at_most(self@, SLOWEST_WORKERS as int).len(),
                self.fits(workers@.len()),
                named == ids_at(workers@, at_most(self@, SLOWEST_WORKERS as int)),
                slowest@.len() == i,
                forall|j: int| 0 <= j < i ==> (#[trigger] slowest@[j])@ == named[j],
            decreases shown - i,
        {
            let at: usize = self.remaining[i];
            assert(self@[i as int] == at);
            slowest.push(workers[at].id.as_str().to_owned());
            i = i + 1;
        }
        assert(text::texts(slowest@) =~= named);
        let profiled: usize = count_measured(workers);
        NetworkPhaseMetrics {
            phase: "preflight".to_owned(),
            group_size: count,
            operation: "worker_health".to_owned(),
            request_count: count,
            recipient_count: count,
            success_count: if unready <= count {
                count - unready
            } else {
                0
            },
            failure_count: unready,
            timeout_count: 0,
            connect_error_count: 0,
            max_parallelism,
            effective_parallelism: if max_parallelism < count {
                max_parallelism
            } else {
                count
            },
            wall_ms,
            retry_count: 0,
            retry_sleep_ms: 0,
            retry_pass_count: 0,
            failures: unready,
            worker_latency_p50_ms: None,
            worker_latency_p95_ms: None,
            worker_latency_p99_ms: None,
            worker_latency_max_ms: None,
            slowest_worker_ids: slowest,
            logical_request_count: count,
            physical_request_count: count,
            singleton_request_count: profiled,
            packed_request_count: count - profiled,
            packed_logical_client_count: count - profiled,
            profile_enabled_recipient_count: profiled,
        }
    }

    /// What is said when the time is up.
    pub fn timeout_message(&self, workers: &[WorkerSpec], timeout_seconds: u64) -> (out: String)
        requires
            self.fits(workers@.len()),
        ensures
            out@ == unready_shown(workers@, self@, timeout_seconds),
    {
        let unready: usize = self.remaining.len();
        let count: usize = workers.len();
        let shown: usize = if unready < NAMED_WORKERS {
            unready
        } else {
            NAMED_WORKERS
        };
        let mut examples: Vec<String> = Vec::new();
        let ghost named = addresses_at(workers@, at_most(self@, NAMED_WORKERS as int));
        let mut i: usize = 0;
        while i < shown
            invariant
                i <= shown,
                shown <= self@.len(),
                shown == at_most(self@, NAMED_WORKERS as int).len(),
                self.fits(workers@.len()),
                named == addresses_at(workers@, at_most(self@, NAMED_WORKERS as int)),
                examples@.len() == i,
                forall|j: int| 0 <= j < i ==> (#[trigger] examples@[j])@ == named[j],
            decreases shown - i,
        {
            let at: usize = self.remaining[i];
            assert(self@[i as int] == at);
            let mut example: String = workers[at].id.as_str().to_owned();
            example.append("=");
            example.append(workers[at].url.as_str());
            examples.push(example);
            i = i + 1;
        }
        assert(text::texts(examples@) =~= named);
        let mut out: String = "Timeout waiting for worker readiness after ".to_owned();
        out.append(format_hms(timeout_seconds).as_str());
        out.append(". ");
        out.append(decimal_text(unready as u128).as_str());
        out.append("/");
        out.append(decimal_text(count as u128).as_str());
        out.append(" workers still unhealthy. Examples: ");
        out.append(debug_texts(&examples).as_str());
        out
    }
}

// ---------------------------------------------------------------------------
// Whether workers can measure
// ---------------------------------------------------------------------------

/// A measured worker whose device has a name.
pub open spec fn publishing() -> spec_fn(WorkerSpec) -> bool {
    |w: WorkerSpec| w.profile_enabled && w.device_kind@.len() > 0
}

/// The workers that are asked what they can measure.
pub fn publication_workers(workers: &[WorkerSpec]) -> (places: Vec<usize>)
    ensures
        places@ == workers::places(workers@, publishing()),
{
    let keep = |w: &WorkerSpec| -> (yes: bool)
        ensures
            yes == (w.profile_enabled && w.device_kind@.len() > 0),
        { w.profile_enabled && !w.device_kind.as_str().is_empty() };
    places_of(workers, keep, Ghost(publishing()))
}

/// What a worker says it can measure.
#[derive(Debug, Clone)]
pub struct ProfilingCapabilities {
    pub client_exists: Option<bool>,
    pub profiling_enabled: bool,
    pub l1d_cache_profiling_enabled: bool,
    pub l1d_cache_counters_available: bool,
}

/// What becomes of the counters of a worker's cache.
#[derive(Debug, PartialEq, Eq, Clone, Copy, Structural)]
pub enum CacheCounters {
    /// They are read.
    Counted,
    /// The worker does not measure its cache.
    Disabled,
    /// The device has none, and is known not to have any.
    Missing,
}

/// What is wrong with what a worker says it can measure, or what becomes of its cache counters.
pub open spec fn capability(worker: WorkerSpec, told: ProfilingCapabilities) -> Result<
    CacheCounters,
    Seq<char>,
> {
    if told.client_exists == Some(false) {
        Err("profiling capability endpoint did not find client "@ + worker.id@)
    } else if !told.profiling_enabled {
        Err("profiling is disabled for publication worker "@ + worker.id@)
    } else if !told.l1d_cache_profiling_enabled {
        Ok(CacheCounters::Disabled)
    } else if told.l1d_cache_counters_available {
        Ok(CacheCounters::Counted)
    } else if text::occurs(text::unicode_lowercase(worker.device_kind@), "luckfox"@) {
        Ok(CacheCounters::Missing)
    } else {
        Err(
            "L1D hardware counters are unavailable for publication worker "@ + worker.id@ + " ("@
                + worker.device_kind@ + ")"@,
        )
    }
}

/// What is wrong with what a worker says it can measure, or what becomes of its cache counters.
pub fn check_capabilities(worker: &WorkerSpec, told: &ProfilingCapabilities) -> (result: Result<
    CacheCounters,
    String,
>)
    ensures
        match capability(*worker, *told) {
            Ok(counters) => result == Ok::<CacheCounters, String>(counters),
            Err(error) => result is Err && result->Err_0@ == error,
        },
{
    let missing: bool = match told.client_exists {
        Some(exists) => !exists,
        None => false,
    };
    if missing {
        let mut error: String = "profiling capability endpoint did not find client ".to_owned();
        error.append(worker.id.as_str());
        return Err(error);
    }
    if !told.profiling_enabled {
        let mut error: String = "profiling is disabled for publication worker ".to_owned();
        error.append(worker.id.as_str());
        return Err(error);
    }
    if !told.l1d_cache_profiling_enabled {
        return Ok(CacheCounters::Disabled);
    }
    if told.l1d_cache_counters_available {
        return Ok(CacheCounters::Counted);
    }
    if contains(to_lowercase(worker.device_kind.as_str()).as_str(), "luckfox") {
        return Ok(CacheCounters::Missing);
    }
    let mut error: String =
        "L1D hardware counters are unavailable for publication worker ".to_owned();
    error.append(worker.id.as_str());
    error.append(" (");
    error.append(worker.device_kind.as_str());
    error.append(")");
    Err(error)
}

/// What is said of a worker whose endpoint answers with another status than success.
pub fn capability_status_error(worker: &WorkerSpec, status: &str) -> (error: String)
    ensures
        error@ == "profiling capability endpoint for "@ + worker.id@ + " returned "@ + status@,
{
    let mut error: String = "profiling capability endpoint for ".to_owned();
    error.append(worker.id.as_str());
    error.append(" returned ");
    error.append(status);
    error
}

/// What is reported of the workers adds up: each worker either is ready or is not, and is either asked
/// alone or together with others. Every measured worker is among those that are reported.
pub proof fn law_reports_add_up(
    metrics: NetworkPhaseMetrics,
    workers: Seq<WorkerSpec>,
    remaining: Seq<usize>,
    latencies: Seq<u128>,
    max_parallelism: usize,
    effective: usize,
    wall_ms: u128,
)
    requires
        ({
            ||| reports_ready(metrics, workers, latencies, max_parallelism, effective, wall_ms)
            ||| reports_unready(metrics, workers, remaining, max_parallelism, wall_ms)
                && remaining.len() <= workers.len()
        }),
    ensures
        metrics.success_count + metrics.failure_count == metrics.recipient_count,
        metrics.recipient_count == workers.len(),
        metrics.request_count == workers.len(),
        metrics.failures == metrics.failure_count,
        metrics.singleton_request_count + metrics.packed_request_count
            == metrics.logical_request_count,
        metrics.logical_request_count == workers.len(),
        metrics.profile_enabled_recipient_count == workers.filter(
            |w: WorkerSpec| w.profile_enabled,
        ).len(),
        metrics.wall_ms == wall_ms,
        metrics.max_parallelism == max_parallelism,
{
    let wanted = |w: WorkerSpec| w.profile_enabled;
    crate::workers::lemma_count_of_places(workers, crate::workers::profiled());
    assert(wanted =~= crate::workers::profiled());
}

} // verus!
