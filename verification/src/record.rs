//! What the runner writes down when a worker fails.

use vstd::prelude::*;

use crate::command;
use crate::command::{BenchmarkCursor, Command, WorkerCommandContext};
use crate::failure;
use crate::failure::{
    classify_worker_error, is_measured_alone, Failure, FanoutFailure,
    WorkerFailure,
};
use crate::text;
use crate::text::{
    contains, copy_maybe, decimal_text, parse_index, parse_u64, split_whitespace, str_eq,
    strip_prefix, trim_matches,
};
use crate::workers::WorkerSpec;

verus! {

pub const PROFILE_SCHEMA_VERSION: u32 = 11;

// ---------------------------------------------------------------------------
// Evidence
// ---------------------------------------------------------------------------

/// A note of the host that a process was killed for want of memory.
#[derive(Debug)]
pub struct OomEvidence {
    pub ts_unix_ns: Option<u128>,
    pub source: String,
    pub worker_id: Option<String>,
    pub physical_worker_id: Option<String>,
    pub detail: Option<String>,
}

impl OomEvidence {
    /// The note is about a worker or about its container.
    pub open spec fn is_about(self, worker: WorkerSpec) -> bool {
        ||| text::maybe(self.worker_id) == Some(worker.id@)
        ||| text::maybe(self.physical_worker_id) == Some(worker.physical_worker_id@)
    }

    /// Whether the note is about a worker or about its container.
    pub fn matches(&self, worker: &WorkerSpec) -> (yes: bool)
        ensures
            yes == self.is_about(*worker),
    {
        let by_worker: bool = match &self.worker_id {
            Some(id) => str_eq(id.as_str(), worker.id.as_str()),
            None => false,
        };
        let by_container: bool = match &self.physical_worker_id {
            Some(id) => str_eq(id.as_str(), worker.physical_worker_id.as_str()),
            None => false,
        };
        by_worker || by_container
    }
}

/// The place of the last note about a worker.
pub fn latest_oom_evidence_for(notes: &[OomEvidence], worker: &WorkerSpec) -> (at: Option<usize>)
    ensures
        match at {
            Some(i) => {
                &&& i < notes@.len()
                &&& notes@[i as int].is_about(*worker)
                &&& forall|j: int|
                    i < j < notes@.len() ==> !(#[trigger] notes@[j]).is_about(*worker)
            },
            None => forall|j: int|
                0 <= j < notes@.len() ==> !(#[trigger] notes@[j]).is_about(*worker),
        },
{
    let mut i: usize = notes.len();
    while i > 0
        invariant
            i <= notes@.len(),
            forall|j: int| i <= j < notes@.len() ==> !(#[trigger] notes@[j]).is_about(*worker),
        decreases i,
    {
        i = i - 1;
        if notes[i].matches(worker) {
            return Some(i);
        }
    }
    None
}

/// How often the notes of the host are looked through.
pub const EVIDENCE_ATTEMPTS: usize = 6;

/// The pause before they are looked through again.
pub const EVIDENCE_PAUSE_MS: u64 = 200;

/// What follows after a look at the notes of the host, which may need a moment to write one.
#[derive(Debug, PartialEq, Eq)]
pub enum EvidenceStep {
    /// The place of the note.
    Found(usize),
    LookAgain { delay_ms: u64 },
    NotThere,
}

/// What follows after a look at the notes, the first one with the number zero.
pub fn evidence_step(notes: &[OomEvidence], worker: &WorkerSpec, attempt: usize) -> (step:
    EvidenceStep)
    ensures
        match step {
            EvidenceStep::Found(i) => {
                &&& i < notes@.len()
                &&& notes@[i as int].is_about(*worker)
                &&& forall|j: int|
                    i < j < notes@.len() ==> !(#[trigger] notes@[j]).is_about(*worker)
            },
            EvidenceStep::LookAgain { delay_ms } => {
                &&& forall|j: int|
                    0 <= j < notes@.len() ==> !(#[trigger] notes@[j]).is_about(*worker)
                &&& attempt + 1 < EVIDENCE_ATTEMPTS
                &&& delay_ms == EVIDENCE_PAUSE_MS
            },
            EvidenceStep::NotThere => {
                &&& forall|j: int|
                    0 <= j < notes@.len() ==> !(#[trigger] notes@[j]).is_about(*worker)
                &&& attempt + 1 >= EVIDENCE_ATTEMPTS
            },
        },
{
    match latest_oom_evidence_for(notes, worker) {
        Some(at) => EvidenceStep::Found(at),
        None => if attempt < EVIDENCE_ATTEMPTS - 1 {
            EvidenceStep::LookAgain { delay_ms: EVIDENCE_PAUSE_MS }
        } else {
            EvidenceStep::NotThere
        },
    }
}

// ---------------------------------------------------------------------------
// Events
// ---------------------------------------------------------------------------

/// The failure of a worker, as the runner's journal holds it.
#[derive(Debug)]
pub struct RunnerEvent {
    pub profile_schema_version: u32,
    pub ts_unix_ns: u128,
    pub event_kind: String,
    pub failed_worker_id: String,
    pub failed_physical_worker_id: String,
    pub failure_class: String,
    pub failure_detail: String,
    pub failure_evidence_source: Option<String>,
    pub failure_evidence_detail: Option<String>,
    pub failure_action: String,
    pub reassigned_to_worker_id: Option<String>,
    pub benchmark_plateau_index: usize,
    pub benchmark_target_size: usize,
    pub benchmark_active_size: usize,
    pub benchmark_phase: String,
    pub benchmark_operation: String,
    pub benchmark_operation_seq: Option<usize>,
    pub benchmark_payload_size: Option<usize>,
    pub membership_batch_requested: Option<usize>,
    pub membership_batch_effective: Option<usize>,
    pub membership_batch_group_cap: Option<usize>,
    pub membership_batch_transition_cap: Option<usize>,
    pub membership_batch_source: Option<String>,
    pub configured_payload_label: Option<String>,
}

/// The contents of a failure event.
pub struct EventView {
    pub version: u32,
    pub ts: u128,
    pub kind: Seq<char>,
    pub worker: Seq<char>,
    pub container: Seq<char>,
    pub class: Seq<char>,
    pub detail: Seq<char>,
    pub evidence_source: Option<Seq<char>>,
    pub evidence_detail: Option<Seq<char>>,
    pub action: Seq<char>,
    pub reassigned_to: Option<Seq<char>>,
    pub marks: command::Marks,
    pub payload_label: Option<Seq<char>>,
}

impl View for RunnerEvent {
    type V = EventView;

    open spec fn view(&self) -> EventView {
        EventView {
            version: self.profile_schema_version,
            ts: self.ts_unix_ns,
            kind: self.event_kind@,
            worker: self.failed_worker_id@,
            container: self.failed_physical_worker_id@,
            class: self.failure_class@,
            detail: self.failure_detail@,
            evidence_source: text::maybe(self.failure_evidence_source),
            evidence_detail: text::maybe(self.failure_evidence_detail),
            action: self.failure_action@,
            reassigned_to: text::maybe(self.reassigned_to_worker_id),
            marks: command::Marks {
                plateau_index: Some(self.benchmark_plateau_index),
                target_size: Some(self.benchmark_target_size),
                active_size: Some(self.benchmark_active_size),
                phase: Some(self.benchmark_phase@),
                operation: Some(self.benchmark_operation@),
                operation_seq: self.benchmark_operation_seq,
                payload_size: self.benchmark_payload_size,
                batch_requested: self.membership_batch_requested,
                batch_effective: self.membership_batch_effective,
                batch_group_cap: self.membership_batch_group_cap,
                batch_transition_cap: self.membership_batch_transition_cap,
                batch_source: text::maybe(self.membership_batch_source),
            },
            payload_label: text::maybe(self.configured_payload_label),
        }
    }
}

/// The event of a failure.
pub open spec fn event_of(
    ts: u128,
    marks: command::Marks,
    worker: WorkerSpec,
    detail: Seq<char>,
    class: Seq<char>,
    evidence_source: Option<Seq<char>>,
    evidence_detail: Option<Seq<char>>,
    action: Seq<char>,
    reassigned_to: Option<Seq<char>>,
) -> EventView {
    EventView {
        version: PROFILE_SCHEMA_VERSION,
        ts: ts,
        kind: "worker_failure"@,
        worker: worker.id@,
        container: worker.physical_worker_id@,
        class: class,
        detail: detail,
        evidence_source: evidence_source,
        evidence_detail: evidence_detail,
        action: action,
        reassigned_to: reassigned_to,
        marks: marks,
        payload_label: match marks.payload_size {
            Some(size) => Some(text::decimal(size as nat)),
            None => None,
        },
    }
}

fn new_event(
    ts_unix_ns: u128,
    cursor: &BenchmarkCursor,
    worker: &WorkerSpec,
    detail: &str,
    class: &str,
    evidence_source: Option<String>,
    evidence_detail: Option<String>,
    action: &str,
    reassigned_to: Option<&WorkerSpec>,
) -> (event: RunnerEvent)
    ensures
        event@ == event_of(
            ts_unix_ns,
            cursor@,
            *worker,
            detail@,
            class@,
            text::maybe(evidence_source),
            text::maybe(evidence_detail),
            action@,
            match reassigned_to {
                Some(other) => Some(other.id@),
                None => None,
            },
        ),
{
    RunnerEvent {
        profile_schema_version: PROFILE_SCHEMA_VERSION,
        ts_unix_ns: ts_unix_ns,
        event_kind: "worker_failure".to_owned(),
        failed_worker_id: worker.id.clone(),
        failed_physical_worker_id: worker.physical_worker_id.clone(),
        failure_class: class.to_owned(),
        failure_detail: detail.to_owned(),
        failure_evidence_source: evidence_source,
        failure_evidence_detail: evidence_detail,
        failure_action: action.to_owned(),
        reassigned_to_worker_id: match reassigned_to {
            Some(other) => Some(other.id.clone()),
            None => None,
        },
        benchmark_plateau_index: cursor.plateau_index,
        benchmark_target_size: cursor.target_size,
        benchmark_active_size: cursor.active_size,
        benchmark_phase: cursor.phase.clone(),
        benchmark_operation: cursor.operation.clone(),
        benchmark_operation_seq: cursor.operation_seq,
        benchmark_payload_size: cursor.payload_size,
        membership_batch_requested: cursor.membership_batch_requested,
        membership_batch_effective: cursor.membership_batch_effective,
        membership_batch_group_cap: cursor.membership_batch_group_cap,
        membership_batch_transition_cap: cursor.membership_batch_transition_cap,
        membership_batch_source: copy_maybe(&cursor.membership_batch_source),
        configured_payload_label: match cursor.payload_size {
            Some(size) => Some(decimal_text(size as u128)),
            None => None,
        },
    }
}

/// A text, or nothing where it is empty.
pub open spec fn unless_empty(text: Seq<char>) -> Option<Seq<char>> {
    if text.len() == 0 {
        None
    } else {
        Some(text)
    }
}

/// A text, or nothing where it is empty.
pub fn non_empty_string(value: &str) -> (out: Option<String>)
    ensures
        text::maybe(out) == unless_empty(value@),
{
    if value.is_empty() {
        None
    } else {
        Some(value.to_owned())
    }
}

/// What is written down of a failure, if anything, and whether the run may go on without the
/// worker. A note of the host explains any worker's failure; without one only a measured worker
/// that is alone in its container is written down.
pub open spec fn record_of(
    ts: u128,
    marks: command::Marks,
    worker: WorkerSpec,
    error: WorkerFailure,
    evidence: Option<OomEvidence>,
    action: Seq<char>,
    reassigned_to: Option<Seq<char>>,
    goes_on: bool,
) -> (Option<EventView>, bool) {
    match evidence {
        Some(note) => (
            Some(
                event_of(
                    ts,
                    marks,
                    worker,
                    error.text@,
                    "oom_kill"@,
                    unless_empty(note.source@),
                    text::maybe(note.detail),
                    action,
                    reassigned_to,
                ),
            ),
            goes_on || !failure::measured_alone(worker),
        ),
        None => if failure::measured_alone(worker) {
            (
                Some(
                    event_of(
                        ts,
                        marks,
                        worker,
                        error.text@,
                        failure::class_of(
                            error.kind,
                            text::unicode_lowercase(error.text@),
                        ),
                        Some("runner_observed_request_failure"@),
                        Some(error.text@),
                        action,
                        reassigned_to,
                    ),
                ),
                goes_on,
            )
        } else {
            (None, false)
        },
    }
}

/// The contents of an event that may be missing.
pub open spec fn maybe_event(event: Option<RunnerEvent>) -> Option<EventView> {
    match event {
        Some(given) => Some(given@),
        None => None,
    }
}

/// The id of a worker that may be missing.
pub open spec fn maybe_id(worker: Option<&WorkerSpec>) -> Option<Seq<char>> {
    match worker {
        Some(other) => Some(other.id@),
        None => None,
    }
}

/// What is written down of a failure, if anything, and whether the run may go on without the
/// worker.
pub fn record_profiled_worker_failure(
    ts_unix_ns: u128,
    cursor: &BenchmarkCursor,
    worker: &WorkerSpec,
    error: &WorkerFailure,
    evidence: Option<&OomEvidence>,
    action: &str,
    reassigned_to: Option<&WorkerSpec>,
    continue_profiled_failure: bool,
) -> (recorded: (Option<RunnerEvent>, bool))
    ensures
        (maybe_event(recorded.0), recorded.1) == record_of(
            ts_unix_ns,
            cursor@,
            *worker,
            *error,
            match evidence {
                Some(note) => Some(*note),
                None => None,
            },
            action@,
            maybe_id(reassigned_to),
            continue_profiled_failure,
        ),
{
    match evidence {
        Some(note) => {
            let event: RunnerEvent = new_event(
                ts_unix_ns,
                cursor,
                worker,
                error.text.as_str(),
                "oom_kill",
                non_empty_string(note.source.as_str()),
                copy_maybe(&note.detail),
                action,
                reassigned_to,
            );
            (Some(event), continue_profiled_failure || !is_measured_alone(worker))
        },
        None => {
            if is_measured_alone(worker) {
                let event: RunnerEvent = new_event(
                    ts_unix_ns,
                    cursor,
                    worker,
                    error.text.as_str(),
                    classify_worker_error(error),
                    Some("runner_observed_request_failure".to_owned()),
                    Some(error.text.clone()),
                    action,
                    reassigned_to,
                );
                (Some(event), continue_profiled_failure)
            } else {
                (None, false)
            }
        },
    }
}

/// Writes down the failures of several workers, one after the other.
#[derive(Debug)]
pub struct BatchRecorder {
    failures: Vec<FanoutFailure>,
    at: usize,
}

/// What follows after one failure was written down.
#[derive(Debug)]
pub enum BatchVerdict {
    /// The next worker's turn.
    Next,
    /// The run cannot go on without this worker.
    GiveUp,
    /// All failures were written down; the run goes on without these workers.
    Dead(Vec<WorkerSpec>),
}

impl BatchRecorder {
    /// The failures that are written down.
    pub closed spec fn failures(&self) -> Seq<FanoutFailure> {
        self.failures@
    }

    /// How many of them are.
    pub closed spec fn done(&self) -> int {
        self.at as int
    }

    pub open spec fn wf(&self) -> bool {
        0 <= self.done() <= self.failures().len()
    }

    /// The failures of several workers; nothing where a failure is that of one.
    pub fn start(error: &Failure) -> (recorder: Option<BatchRecorder>)
        ensures
            match error@ {
                failure::FailureView::Worker { text: _, kind: _, origin: _ } => recorder is None,
                failure::FailureView::Batch {
                    phase: _,
                    operation: _,
                    failures,
                } => recorder is Some && recorder->0.failures() == failures && recorder->0.done()
                    == 0 && recorder->0.wf(),
            },
    {
        match error.clone() {
            Failure::Worker(_) => None,
            Failure::Batch(batch) => Some(BatchRecorder { failures: batch.failures, at: 0 }),
        }
    }

    /// The worker whose failure is written down next; nothing where all are.
    pub fn worker(&self) -> (worker: Option<WorkerSpec>)
        requires
            self.wf(),
        ensures
            worker == (if self.done() < self.failures().len() {
                Some(self.failures()[self.done()].worker)
            } else {
                None
            }),
    {
        if self.at < self.failures.len() {
            Some(self.failures[self.at].worker.clone())
        } else {
            None
        }
    }

    /// The workers that failed.
    pub fn dead(&self) -> (dead: Vec<WorkerSpec>)
        ensures
            dead@ == failure::workers_of(self.failures()),
    {
        let mut dead: Vec<WorkerSpec> = Vec::new();
        let mut i: usize = 0;
        while i < self.failures.len()
            invariant
                i <= self.failures@.len(),
                dead@.len() == i,
                forall|j: int| 0 <= j < i ==> dead@[j] == self.failures@[j].worker,
            decreases self.failures@.len() - i,
        {
            dead.push(self.failures[i].worker.clone());
            i = i + 1;
        }
        assert(dead@ =~= failure::workers_of(self.failures@));
        dead
    }

    /// Writes down the next failure.
    pub fn record(
        &mut self,
        ts_unix_ns: u128,
        cursor: &BenchmarkCursor,
        evidence: Option<&OomEvidence>,
        action: &str,
        reassigned_to: Option<&WorkerSpec>,
        continue_profiled_failure: bool,
    ) -> (recorded: (Option<RunnerEvent>, BatchVerdict))
        requires
            old(self).wf(),
            old(self).done() < old(self).failures().len(),
        ensures
            final(self).wf(),
            final(self).failures() == old(self).failures(),
            final(self).done() == old(self).done() + 1,
            ({
                let next = old(self).failures()[old(self).done()];
                let record = record_of(
                    ts_unix_ns,
                    cursor@,
                    next.worker,
                    next.error,
                    match evidence {
                        Some(note) => Some(*note),
                        None => None,
                    },
                    action@,
                    maybe_id(reassigned_to),
                    continue_profiled_failure,
                );
                &&& maybe_event(recorded.0) == record.0
                &&& !record.1 ==> recorded.1 is GiveUp
                &&& record.1 && final(self).done() < final(self).failures().len()
                    ==> recorded.1 is Next
                &&& record.1 && final(self).done() == final(self).failures().len()
                    ==> recorded.1 is Dead && recorded.1->Dead_0@ == failure::workers_of(
                    final(self).failures(),
                )
            }),
    {
        let end: usize = self.failures.len();
        let (event, goes_on) = record_profiled_worker_failure(
            ts_unix_ns,
            cursor,
            &self.failures[self.at].worker,
            &self.failures[self.at].error,
            evidence,
            action,
            reassigned_to,
            continue_profiled_failure,
        );
        self.at = self.at + 1;
        if !goes_on {
            (event, BatchVerdict::GiveUp)
        } else if self.at < end {
            (event, BatchVerdict::Next)
        } else {
            (event, BatchVerdict::Dead(self.dead()))
        }
    }
}

// ---------------------------------------------------------------------------
// Events among the measurements
// ---------------------------------------------------------------------------

/// The value of `key=value` in a list of words, without quotes round it: the first one.
pub open spec fn field_in(parts: Seq<Seq<char>>, prefix: Seq<char>) -> Option<Seq<char>>
    decreases parts.len(),
{
    if parts.len() == 0 {
        None
    } else if text::has_prefix(parts[0], prefix) {
        Some(
            text::without_trailing(
                text::without_leading(parts[0].skip(prefix.len() as int), '"'),
                '"',
            ),
        )
    } else {
        field_in(parts.drop_first(), prefix)
    }
}

/// The value that a text gives to a key.
pub open spec fn field(detail: Seq<char>, key: Seq<char>) -> Option<Seq<char>> {
    field_in(text::words(detail), key + "="@)
}

/// The number that a text gives to a key, if it is one and at most `max`.
pub open spec fn number_field(detail: Seq<char>, key: Seq<char>, max: nat) -> Option<nat> {
    match field(detail, key) {
        Some(value) => text::spelled_up_to(value, max),
        None => None,
    }
}

/// The value that a text gives to a key.
pub fn app_heap_field(detail: &str, key: &str) -> (value: Option<String>)
    ensures
        text::maybe(value) == field(detail@, key@),
{
    let mut prefix: String = key.to_owned();
    prefix.append("=");
    let parts: Vec<String> = split_whitespace(detail);
    let ghost all = text::texts(parts@);
    let mut i: usize = 0;
    assert(all.skip(0) =~= all);
    while i < parts.len()
        invariant
            i <= parts@.len(),
            all == text::texts(parts@),
            all == text::words(detail@),
            prefix@ == key@ + "="@,
            field_in(all, prefix@) == field_in(all.skip(i as int), prefix@),
        decreases parts@.len() - i,
    {
        assert(all.skip(i as int)[0] == parts@[i as int]@);
        match strip_prefix(parts[i].as_str(), prefix.as_str()) {
            Some(rest) => {
                return Some(trim_matches(rest.as_str(), '"'));
            },
            None => {},
        }
        assert(all.skip(i as int).drop_first() =~= all.skip(i + 1));
        i = i + 1;
    }
    None
}

fn app_heap_number(detail: &str, key: &str) -> (value: Option<u64>)
    ensures
        match value {
            Some(n) => number_field(detail@, key@, u64::MAX as nat) == Some(n as nat),
            None => number_field(detail@, key@, u64::MAX as nat) is None,
        },
{
    match app_heap_field(detail, key) {
        Some(given) => parse_u64(given.as_str()),
        None => None,
    }
}

/// What a measurement tells of the heap.
#[derive(Debug)]
pub struct HeapFacts {
    pub memory_model: Option<String>,
    pub app_heap_budget: Option<String>,
    pub app_heap_budget_bytes: Option<u64>,
    pub heap_current_live_bytes: Option<u64>,
    pub heap_peak_live_bytes: Option<u64>,
    pub heap_operation_peak_live_bytes: Option<u64>,
    pub heap_total_allocated_bytes: Option<u64>,
    pub heap_allocation_count: Option<u64>,
    pub heap_deallocation_count: Option<u64>,
    pub heap_failed_allocation_size_bytes: Option<u64>,
    pub heap_failure_context: Option<String>,
    pub span_id: Option<u64>,
    pub operation_family: Option<String>,
    pub member_count: Option<usize>,
    pub member_count_before: Option<usize>,
    pub group_epoch: Option<u64>,
}

/// A number, if it is the one that a text gives to a key.
pub open spec fn is_number(value: Option<u64>, detail: Seq<char>, key: Seq<char>) -> bool {
    match value {
        Some(n) => number_field(detail, key, u64::MAX as nat) == Some(n as nat),
        None => number_field(detail, key, u64::MAX as nat) is None,
    }
}

impl HeapFacts {
    /// The number of members that a text tells.
    pub open spec fn members_told(detail: Seq<char>) -> Option<usize> {
        match number_field(detail, "member_count"@, usize::MAX as nat) {
            Some(n) => Some(n as usize),
            None => None,
        }
    }

    /// What was known before and what the text of a broken heap budget tells.
    pub open spec fn told(self, before: HeapFacts, detail: Seq<char>) -> bool {
        &&& text::maybe(self.memory_model) == field(detail, "memory_model"@)
        &&& text::maybe(self.app_heap_budget) == field(detail, "app_heap_budget"@)
        &&& is_number(self.app_heap_budget_bytes, detail, "app_heap_budget_bytes"@)
        &&& is_number(self.heap_current_live_bytes, detail, "current_live_heap_bytes"@)
        &&& is_number(self.heap_peak_live_bytes, detail, "peak_live_heap_bytes"@)
        &&& is_number(self.heap_operation_peak_live_bytes, detail, "operation_peak_live_heap_bytes"@)
        &&& is_number(self.heap_total_allocated_bytes, detail, "total_allocated_bytes"@)
        &&& is_number(self.heap_allocation_count, detail, "allocation_count"@)
        &&& is_number(self.heap_deallocation_count, detail, "deallocation_count"@)
        &&& is_number(
            self.heap_failed_allocation_size_bytes,
            detail,
            "failed_allocation_size_bytes"@,
        )
        &&& text::maybe(self.heap_failure_context) == field(detail, "heap_failure_context"@)
        &&& is_number(self.span_id, detail, "failure_span_id"@)
        &&& text::maybe(self.operation_family) == (if before.operation_family is None {
            field(detail, "operation_family"@)
        } else {
            text::maybe(before.operation_family)
        })
        &&& self.member_count == (match HeapFacts::members_told(detail) {
            Some(n) => Some(n),
            None => before.member_count,
        })
        &&& self.member_count_before == (if before.member_count_before is None {
            HeapFacts::members_told(detail)
        } else {
            before.member_count_before
        })
        &&& if before.group_epoch is None {
            is_number(self.group_epoch, detail, "epoch"@)
        } else {
            self.group_epoch == before.group_epoch
        }
    }

    /// Nothing is known.
    pub fn unknown() -> (facts: HeapFacts)
        ensures
            facts.is_unknown(),
    {
        HeapFacts {
            memory_model: None,
            app_heap_budget: None,
            app_heap_budget_bytes: None,
            heap_current_live_bytes: None,
            heap_peak_live_bytes: None,
            heap_operation_peak_live_bytes: None,
            heap_total_allocated_bytes: None,
            heap_allocation_count: None,
            heap_deallocation_count: None,
            heap_failed_allocation_size_bytes: None,
            heap_failure_context: None,
            span_id: None,
            operation_family: None,
            member_count: None,
            member_count_before: None,
            group_epoch: None,
        }
    }

    /// Nothing is known.
    pub open spec fn is_unknown(self) -> bool {
        self == HeapFacts {
            memory_model: None,
            app_heap_budget: None,
            app_heap_budget_bytes: None,
            heap_current_live_bytes: None,
            heap_peak_live_bytes: None,
            heap_operation_peak_live_bytes: None,
            heap_total_allocated_bytes: None,
            heap_allocation_count: None,
            heap_deallocation_count: None,
            heap_failed_allocation_size_bytes: None,
            heap_failure_context: None,
            span_id: None,
            operation_family: None,
            member_count: None,
            member_count_before: None,
            group_epoch: None,
        }
    }
}

/// Takes over what the text of a broken heap budget tells; any other text tells nothing.
pub fn apply_app_heap_budget_failure_fields(facts: &mut HeapFacts, detail: Option<&str>)
    ensures
        match detail {
            Some(told) => if text::occurs(told@, "APP_HEAP_BUDGET_EXCEEDED"@) {
                final(facts).told(*old(facts), told@)
            } else {
                *final(facts) == *old(facts)
            },
            None => *final(facts) == *old(facts),
        },
{
    let detail: &str = match detail {
        Some(told) => told,
        None => {
            return ;
        },
    };
    if !contains(detail, "APP_HEAP_BUDGET_EXCEEDED") {
        return ;
    }
    facts.memory_model = app_heap_field(detail, "memory_model");
    facts.app_heap_budget = app_heap_field(detail, "app_heap_budget");
    facts.app_heap_budget_bytes = app_heap_number(detail, "app_heap_budget_bytes");
    facts.heap_current_live_bytes = app_heap_number(detail, "current_live_heap_bytes");
    facts.heap_peak_live_bytes = app_heap_number(detail, "peak_live_heap_bytes");
    facts.heap_operation_peak_live_bytes = app_heap_number(
        detail,
        "operation_peak_live_heap_bytes",
    );
    facts.heap_total_allocated_bytes = app_heap_number(detail, "total_allocated_bytes");
    facts.heap_allocation_count = app_heap_number(detail, "allocation_count");
    facts.heap_deallocation_count = app_heap_number(detail, "deallocation_count");
    facts.heap_failed_allocation_size_bytes = app_heap_number(
        detail,
        "failed_allocation_size_bytes",
    );
    facts.heap_failure_context = app_heap_field(detail, "heap_failure_context");
    facts.span_id = app_heap_number(detail, "failure_span_id");
    if facts.operation_family.is_none() {
        facts.operation_family = app_heap_field(detail, "operation_family");
    }
    let members: Option<usize> = match app_heap_field(detail, "member_count") {
        Some(given) => parse_index(given.as_str()),
        None => None,
    };
    if let Some(count) = members {
        facts.member_count = Some(count);
        if facts.member_count_before.is_none() {
            facts.member_count_before = Some(count);
        }
    }
    if facts.group_epoch.is_none() {
        facts.group_epoch = app_heap_number(detail, "epoch");
    }
}

/// A failure as it stands among the measurements of the worker that failed.
#[derive(Debug)]
pub struct FailureProfile {
    pub profile_schema_version: u32,
    pub ts_unix_ns: u128,
    pub op: String,
    pub measurement_class: String,
    pub runner_event_kind: String,
    pub failed_worker_id: String,
    pub failed_physical_worker_id: String,
    pub failure_class: String,
    pub failure_detail: String,
    pub failure_evidence_source: Option<String>,
    pub failure_evidence_detail: Option<String>,
    pub failure_action: String,
    pub reassigned_to_worker_id: Option<String>,
    pub benchmark_plateau_index: usize,
    pub benchmark_target_size: usize,
    pub benchmark_active_size: usize,
    pub benchmark_phase: String,
    pub benchmark_operation: String,
    pub benchmark_operation_seq: Option<usize>,
    pub benchmark_payload_size: Option<usize>,
    pub configured_payload_label: Option<String>,
    pub worker_id: String,
    pub implementation: String,
    pub thread_id: String,
    pub heap: HeapFacts,
}

impl FailureProfile {
    /// The measurement that stands for an event.
    pub open spec fn stands_for(self, event: RunnerEvent) -> bool {
        &&& self.profile_schema_version == event.profile_schema_version
        &&& self.ts_unix_ns == event.ts_unix_ns
        &&& self.op@ == "benchmark.worker_failure"@
        &&& self.measurement_class@ == "runner_failure"@
        &&& self.runner_event_kind@ == event.event_kind@
        &&& self.failed_worker_id@ == event.failed_worker_id@
        &&& self.failed_physical_worker_id@ == event.failed_physical_worker_id@
        &&& self.failure_class@ == event.failure_class@
        &&& self.failure_detail@ == event.failure_detail@
        &&& text::maybe(self.failure_evidence_source) == text::maybe(event.failure_evidence_source)
        &&& text::maybe(self.failure_evidence_detail) == text::maybe(event.failure_evidence_detail)
        &&& self.failure_action@ == event.failure_action@
        &&& text::maybe(self.reassigned_to_worker_id) == text::maybe(event.reassigned_to_worker_id)
        &&& self.benchmark_plateau_index == event.benchmark_plateau_index
        &&& self.benchmark_target_size == event.benchmark_target_size
        &&& self.benchmark_active_size == event.benchmark_active_size
        &&& self.benchmark_phase@ == event.benchmark_phase@
        &&& self.benchmark_operation@ == event.benchmark_operation@
        &&& self.benchmark_operation_seq == event.benchmark_operation_seq
        &&& self.benchmark_payload_size == event.benchmark_payload_size
        &&& text::maybe(self.configured_payload_label) == text::maybe(
            event.configured_payload_label,
        )
        &&& self.worker_id@ == event.failed_worker_id@
        &&& self.implementation@ == "benchmark_runner"@
        &&& self.thread_id@ == "benchmark-runner"@
        &&& if text::occurs(event.failure_detail@, "APP_HEAP_BUDGET_EXCEEDED"@) {
            exists|blank: HeapFacts| #[trigger]
                blank.is_unknown() && self.heap.told(blank, event.failure_detail@)
        } else {
            self.heap.is_unknown()
        }
    }
}

impl RunnerEvent {
    /// The event as it stands among the measurements of the worker that failed.
    pub fn to_profile_event(&self) -> (profile: FailureProfile)
        ensures
            profile.stands_for(*self),
    {
        let mut heap: HeapFacts = HeapFacts::unknown();
        apply_app_heap_budget_failure_fields(&mut heap, Some(self.failure_detail.as_str()));
        FailureProfile {
            profile_schema_version: self.profile_schema_version,
            ts_unix_ns: self.ts_unix_ns,
            op: "benchmark.worker_failure".to_owned(),
            measurement_class: "runner_failure".to_owned(),
            runner_event_kind: self.event_kind.clone(),
            failed_worker_id: self.failed_worker_id.clone(),
            failed_physical_worker_id: self.failed_physical_worker_id.clone(),
            failure_class: self.failure_class.clone(),
            failure_detail: self.failure_detail.clone(),
            failure_evidence_source: copy_maybe(&self.failure_evidence_source),
            failure_evidence_detail: copy_maybe(&self.failure_evidence_detail),
            failure_action: self.failure_action.clone(),
            reassigned_to_worker_id: copy_maybe(&self.reassigned_to_worker_id),
            benchmark_plateau_index: self.benchmark_plateau_index,
            benchmark_target_size: self.benchmark_target_size,
            benchmark_active_size: self.benchmark_active_size,
            benchmark_phase: self.benchmark_phase.clone(),
            benchmark_operation: self.benchmark_operation.clone(),
            benchmark_operation_seq: self.benchmark_operation_seq,
            benchmark_payload_size: self.benchmark_payload_size,
            configured_payload_label: copy_maybe(&self.configured_payload_label),
            worker_id: self.failed_worker_id.clone(),
            implementation: "benchmark_runner".to_owned(),
            thread_id: "benchmark-runner".to_owned(),
            heap: heap,
        }
    }
}

/// What tells one measurement from another.
#[derive(Debug)]
pub struct ProfileKey {
    pub op: String,
    pub ts_unix_ns: u128,
    pub failed_worker_id: Option<String>,
}

impl ProfileKey {
    /// The measurement stands for an event.
    pub open spec fn is_for(self, event: RunnerEvent) -> bool {
        &&& self.op@ == "benchmark.worker_failure"@
        &&& self.ts_unix_ns == event.ts_unix_ns
        &&& text::maybe(self.failed_worker_id) == Some(event.failed_worker_id@)
    }

    /// The key under which a failure stands among the measurements.
    pub open spec fn is_of(self, profile: FailureProfile) -> bool {
        &&& self.op@ == profile.op@
        &&& self.ts_unix_ns == profile.ts_unix_ns
        &&& text::maybe(self.failed_worker_id) == Some(profile.failed_worker_id@)
    }
}

/// An event stands among some measurements.
pub open spec fn stands_among(keys: Seq<ProfileKey>, event: RunnerEvent) -> bool {
    exists|i: int| 0 <= i < keys.len() && (#[trigger] keys[i]).is_for(event)
}

/// An event that was merged into the measurements is found among them from then on, whatever is
/// written before and after it, so that merging again adds nothing.
pub proof fn law_merged_event_is_found(
    event: RunnerEvent,
    profile: FailureProfile,
    key: ProfileKey,
    earlier: Seq<ProfileKey>,
    later: Seq<ProfileKey>,
)
    requires
        profile.stands_for(event),
        key.is_of(profile),
    ensures
        stands_among(earlier.push(key) + later, event),
{
    assert((earlier.push(key) + later)[earlier.len() as int].is_for(event));
}

/// Whether an event already stands among some measurements.
pub fn profile_contains_runner_event(keys: &[ProfileKey], event: &RunnerEvent) -> (yes: bool)
    ensures
        yes == stands_among(keys@, *event),
{
    let mut i: usize = 0;
    while i < keys.len()
        invariant
            i <= keys@.len(),
            forall|j: int| 0 <= j < i ==> !(#[trigger] keys@[j]).is_for(*event),
        decreases keys@.len() - i,
    {
        let same_worker: bool = match &keys[i].failed_worker_id {
            Some(id) => str_eq(id.as_str(), event.failed_worker_id.as_str()),
            None => false,
        };
        if str_eq(keys[i].op.as_str(), "benchmark.worker_failure") && keys[i].ts_unix_ns
            == event.ts_unix_ns && same_worker {
            assert(keys@[i as int].is_for(*event));
            return true;
        }
        i = i + 1;
    }
    false
}

// ---------------------------------------------------------------------------
// Where measured workers are
// ---------------------------------------------------------------------------

/// A note of where in the run a measured worker is, so that its failure can be told apart later.
#[derive(Debug)]
pub struct OperationCursor {
    pub ts_unix_ns: u128,
    pub lifecycle: String,
    pub request_id: String,
    pub logical_client_id: String,
    pub physical_worker_id: String,
    pub command: String,
    pub benchmark_plateau_index: Option<usize>,
    pub benchmark_target_size: Option<usize>,
    pub benchmark_active_size: Option<usize>,
    pub benchmark_phase: Option<String>,
    pub benchmark_operation: Option<String>,
    pub benchmark_operation_seq: Option<usize>,
    pub benchmark_payload_size: Option<usize>,
}

impl OperationCursor {
    /// The note of a command that a worker is given.
    pub open spec fn is_of(
        self,
        ts: u128,
        worker: WorkerSpec,
        kind: Seq<char>,
        request_id: Seq<char>,
        marks: command::Marks,
        lifecycle: Seq<char>,
    ) -> bool {
        &&& self.ts_unix_ns == ts
        &&& self.lifecycle@ == lifecycle
        &&& self.request_id@ == request_id
        &&& self.logical_client_id@ == worker.id@
        &&& self.physical_worker_id@ == worker.physical_worker_id@
        &&& self.command@ == kind
        &&& self.benchmark_plateau_index == marks.plateau_index
        &&& self.benchmark_target_size == marks.target_size
        &&& self.benchmark_active_size == marks.active_size
        &&& text::maybe(self.benchmark_phase) == marks.phase
        &&& text::maybe(self.benchmark_operation) == marks.operation
        &&& self.benchmark_operation_seq == marks.operation_seq
        &&& self.benchmark_payload_size == marks.payload_size
    }
}

/// The note of a command that a worker is given: only a measured worker that is alone in its
/// container is noted.
pub fn operation_cursor(
    ts_unix_ns: u128,
    worker: &WorkerSpec,
    command: &Command,
    context: &WorkerCommandContext,
    lifecycle: &str,
) -> (note: Option<OperationCursor>)
    ensures
        match note {
            Some(note) => failure::measured_alone(*worker) && note.is_of(
                ts_unix_ns,
                *worker,
                command@.kind(),
                context.request_id@,
                command::marks_of(context.cursor),
                lifecycle@,
            ),
            None => !failure::measured_alone(*worker),
        },
{
    if !is_measured_alone(worker) {
        return None;
    }
    let kind: String = command.kind().to_owned();
    let blank: OperationCursor = OperationCursor {
        ts_unix_ns,
        lifecycle: lifecycle.to_owned(),
        request_id: context.request_id.as_str().to_owned(),
        logical_client_id: worker.id.as_str().to_owned(),
        physical_worker_id: worker.physical_worker_id.as_str().to_owned(),
        command: kind,
        benchmark_plateau_index: None,
        benchmark_target_size: None,
        benchmark_active_size: None,
        benchmark_phase: None,
        benchmark_operation: None,
        benchmark_operation_seq: None,
        benchmark_payload_size: None,
    };
    match &context.cursor {
        None => Some(blank),
        Some(place) => Some(
            OperationCursor {
                benchmark_plateau_index: Some(place.plateau_index),
                benchmark_target_size: Some(place.target_size),
                benchmark_active_size: Some(place.active_size),
                benchmark_phase: Some(place.phase.as_str().to_owned()),
                benchmark_operation: Some(place.operation.as_str().to_owned()),
                benchmark_operation_seq: place.operation_seq,
                benchmark_payload_size: place.payload_size,
                ..blank
            },
        ),
    }
}

/// What is written down of a failure, and stands among the measurements of the worker later, names the
/// worker that failed, its container, what it failed with and where the run stood, column by column.
pub proof fn law_failure_among_the_measurements(
    ts: u128,
    cursor: BenchmarkCursor,
    worker: WorkerSpec,
    error: WorkerFailure,
    evidence: Option<OomEvidence>,
    action: Seq<char>,
    reassigned_to: Option<Seq<char>>,
    goes_on: bool,
    event: RunnerEvent,
    profile: FailureProfile,
)
    requires
        record_of(ts, cursor@, worker, error, evidence, action, reassigned_to, goes_on).0 == Some(
            event@,
        ),
        profile.stands_for(event),
    ensures
        event.ts_unix_ns == ts && profile.ts_unix_ns == ts,
        event.failed_worker_id@ == worker.id@,
        profile.failed_worker_id@ == worker.id@,
        profile.worker_id@ == worker.id@,
        event.failed_physical_worker_id@ == worker.physical_worker_id@,
        profile.failed_physical_worker_id@ == worker.physical_worker_id@,
        event.failure_detail@ == error.text@,
        profile.failure_detail@ == error.text@,
        event.failure_action@ == action,
        profile.failure_action@ == action,
        text::maybe(event.reassigned_to_worker_id) == reassigned_to,
        text::maybe(profile.reassigned_to_worker_id) == reassigned_to,
        evidence matches Some(note) ==> {
            &&& event.failure_class@ == "oom_kill"@
            &&& profile.failure_class@ == "oom_kill"@
            &&& match profile.failure_evidence_source {
                Some(source) => source@ == note.source@ && source@.len() > 0,
                None => note.source@.len() == 0,
            }
            &&& text::maybe(profile.failure_evidence_detail) == text::maybe(note.detail)
        },
        evidence is None ==> {
            &&& profile.failure_class@ == event.failure_class@
            &&& profile.failure_evidence_source is Some && profile.failure_evidence_source->0@
                == "runner_observed_request_failure"@
            &&& profile.failure_evidence_detail is Some && profile.failure_evidence_detail->0@
                == error.text@
        },
        event.benchmark_plateau_index == cursor.plateau_index,
        profile.benchmark_plateau_index == cursor.plateau_index,
        event.benchmark_target_size == cursor.target_size,
        profile.benchmark_target_size == cursor.target_size,
        event.benchmark_active_size == cursor.active_size,
        profile.benchmark_active_size == cursor.active_size,
        event.benchmark_phase@ == cursor.phase@,
        profile.benchmark_phase@ == cursor.phase@,
        event.benchmark_operation@ == cursor.operation@,
        profile.benchmark_operation@ == cursor.operation@,
        event.benchmark_operation_seq == cursor.operation_seq,
        profile.benchmark_operation_seq == cursor.operation_seq,
        event.benchmark_payload_size == cursor.payload_size,
        profile.benchmark_payload_size == cursor.payload_size,
        event.membership_batch_requested == cursor.membership_batch_requested,
        event.membership_batch_effective == cursor.membership_batch_effective,
        event.membership_batch_group_cap == cursor.membership_batch_group_cap,
        event.membership_batch_transition_cap == cursor.membership_batch_transition_cap,
        text::maybe(event.membership_batch_source) == text::maybe(cursor.membership_batch_source),
        cursor.payload_size is Some == profile.configured_payload_label is Some,
        cursor.payload_size matches Some(size) ==> profile.configured_payload_label->0@
            == text::decimal(size as nat),
{
}

/// The run goes on without a worker that failed only where that is allowed, or where the host noted that
/// it was killed for want of memory and the worker is not one that is measured and alone in its
/// container. Nothing is written down only where the host noted nothing and the worker is no such one;
/// the run does not go on then.
pub proof fn law_going_on(
    ts: u128,
    marks: command::Marks,
    worker: WorkerSpec,
    error: WorkerFailure,
    evidence: Option<OomEvidence>,
    action: Seq<char>,
    reassigned_to: Option<Seq<char>>,
    goes_on: bool,
)
    ensures
        ({
            let alone = worker.profile_enabled && worker.container_mode
                == crate::workers::ContainerMode::Singleton;
            let recorded = record_of(
                ts,
                marks,
                worker,
                error,
                evidence,
                action,
                reassigned_to,
                goes_on,
            );
            &&& recorded.0 is Some <==> evidence is Some || alone
            &&& recorded.1 <==> if alone {
                goes_on
            } else {
                evidence is Some
            }
        }),
{
}

/// The note of a command names the worker, its container, the command, its request id and the place in
/// the run, column by column.
pub proof fn law_note_of_a_command(
    note: OperationCursor,
    ts: u128,
    worker: WorkerSpec,
    kind: Seq<char>,
    request_id: Seq<char>,
    cursor: Option<BenchmarkCursor>,
    lifecycle: Seq<char>,
)
    requires
        note.is_of(ts, worker, kind, request_id, command::marks_of(cursor), lifecycle),
    ensures
        note.ts_unix_ns == ts,
        note.lifecycle@ == lifecycle,
        note.request_id@ == request_id,
        note.logical_client_id@ == worker.id@,
        note.physical_worker_id@ == worker.physical_worker_id@,
        note.command@ == kind,
        cursor matches Some(place) ==> {
            &&& note.benchmark_plateau_index == Some(place.plateau_index)
            &&& note.benchmark_target_size == Some(place.target_size)
            &&& note.benchmark_active_size == Some(place.active_size)
            &&& note.benchmark_phase is Some && note.benchmark_phase->0@ == place.phase@
            &&& note.benchmark_operation is Some && note.benchmark_operation->0@
                == place.operation@
            &&& note.benchmark_operation_seq == place.operation_seq
            &&& note.benchmark_payload_size == place.payload_size
        },
        cursor is None ==> {
            &&& note.benchmark_plateau_index is None
            &&& note.benchmark_target_size is None
            &&& note.benchmark_active_size is None
            &&& note.benchmark_phase is None
            &&& note.benchmark_operation is None
            &&& note.benchmark_operation_seq is None
            &&& note.benchmark_payload_size is None
        },
{
}

} // verus!
