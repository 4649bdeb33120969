//! Failures of workers: what they are, how they are told apart, and what is recorded of them.

use vstd::prelude::*;

use crate::command;
use crate::command::BatchFanoutCommand;
use crate::table::{id_set, IdSet};
use crate::text;
use crate::text::{contains, decimal_text, join, str_eq, to_ascii_lowercase, to_lowercase};
use crate::workers;
use crate::workers::{ContainerMode, WorkerSpec};

verus! {

// ---------------------------------------------------------------------------
// Failures
// ---------------------------------------------------------------------------

/// What is known of a request that failed before an answer was read.
#[derive(Debug, Clone, Copy, PartialEq, Eq, Structural)]
pub struct RequestFault {
    pub connect: bool,
    pub refused: bool,
    pub timeout: bool,
    pub body_or_decode: bool,
}

/// Where a failure comes from.
#[derive(Debug, Clone, Copy, PartialEq, Eq, Structural)]
pub enum FailureKind {
    /// The request itself.
    Request(RequestFault),
    /// The retried sending of a command; whether the worker may have done it all the same.
    Command { ambiguous: bool },
    /// Anything else.
    Plain,
}

/// The command that a worker did not answer.
#[derive(Debug)]
pub struct CommandOrigin {
    pub command: &'static str,
    pub worker_id: String,
}

/// The failure of one worker: its text, where it comes from, and the command that was not
/// answered where it was one.
#[derive(Debug)]
pub struct WorkerFailure {
    pub text: String,
    pub kind: FailureKind,
    pub origin: Option<CommandOrigin>,
}

/// The name of a command that was not answered, and the worker's id.
pub open spec fn origin_view(origin: Option<CommandOrigin>) -> Option<(Seq<char>, Seq<char>)> {
    match origin {
        Some(given) => Some((given.command@, given.worker_id@)),
        None => None,
    }
}

fn copy_origin(origin: &Option<CommandOrigin>) -> (copy: Option<CommandOrigin>)
    ensures
        copy == *origin,
{
    match origin {
        Some(given) => Some(
            CommandOrigin { command: given.command, worker_id: given.worker_id.clone() },
        ),
        None => None,
    }
}

impl Clone for WorkerFailure {
    fn clone(&self) -> (copy: WorkerFailure)
        ensures
            copy == *self,
    {
        WorkerFailure {
            text: self.text.clone(),
            kind: self.kind,
            origin: copy_origin(&self.origin),
        }
    }
}

impl WorkerFailure {
    /// A failure that is only a text.
    pub fn plain(text: String) -> (failure: WorkerFailure)
        ensures
            failure.text == text,
            failure.kind == FailureKind::Plain,
            failure.origin is None,
    {
        WorkerFailure { text: text, kind: FailureKind::Plain, origin: None }
    }
}

/// A worker and its failure.
#[derive(Debug)]
pub struct FanoutFailure {
    pub worker: WorkerSpec,
    pub error: WorkerFailure,
}

impl Clone for FanoutFailure {
    fn clone(&self) -> (copy: FanoutFailure)
        ensures
            copy == *self,
    {
        FanoutFailure { worker: self.worker.clone(), error: self.error.clone() }
    }
}

/// The failures of the workers that were told to do something together.
#[derive(Debug)]
pub struct BatchFanoutError {
    pub phase: String,
    pub operation: String,
    pub failures: Vec<FanoutFailure>,
}

/// The failure of an operation: of one worker, or of several.
#[derive(Debug)]
pub enum Failure {
    Worker(WorkerFailure),
    Batch(BatchFanoutError),
}

/// The contents of a failure.
#[verifier::ext_equal]
pub enum FailureView {
    Worker {
        text: Seq<char>,
        kind: FailureKind,
        origin: Option<(Seq<char>, Seq<char>)>,
    },
    Batch { phase: Seq<char>, operation: Seq<char>, failures: Seq<FanoutFailure> },
}

impl View for Failure {
    type V = FailureView;

    open spec fn view(&self) -> FailureView {
        match self {
            Failure::Worker(error) => FailureView::Worker {
                text: error.text@,
                kind: error.kind,
                origin: origin_view(error.origin),
            },
            Failure::Batch(error) => FailureView::Batch {
                phase: error.phase@,
                operation: error.operation@,
                failures: error.failures@,
            },
        }
    }
}

/// A failure that is only a text.
pub open spec fn plain(text: Seq<char>) -> FailureView {
    FailureView::Worker { text: text, kind: FailureKind::Plain, origin: None }
}

/// The texts of some failures, each with the worker's id.
pub open spec fn failure_texts(failures: Seq<FanoutFailure>) -> Seq<Seq<char>> {
    failures.map_values(|f: FanoutFailure| f.worker.id@ + ": "@ + f.error.text@)
}

impl FailureView {
    /// The whole text of a failure.
    pub open spec fn text(self) -> Seq<char> {
        match self {
            FailureView::Worker { text, kind: _, origin: _ } => text,
            FailureView::Batch { phase, operation, failures } => "batch_fanout phase="@ + phase
                + " operation="@ + operation + " failed_workers="@ + text::decimal(failures.len())
                + " failures=["@ + text::joined(failure_texts(failures), "; "@) + "]"@,
        }
    }
}

/// The texts of some failures, in one line.
pub fn format_fanout_failures(failures: &[FanoutFailure]) -> (out: String)
    ensures
        out@ == text::joined(failure_texts(failures@), "; "@),
{
    let mut parts: Vec<String> = Vec::new();
    let mut i: usize = 0;
    while i < failures.len()
        invariant
            i <= failures@.len(),
            parts@.len() == i,
            forall|j: int| 0 <= j < i ==> (#[trigger] parts@[j])@ == failure_texts(failures@)[j],
        decreases failures@.len() - i,
    {
        let mut part: String = failures[i].worker.id.clone();
        part.append(": ");
        part.append(failures[i].error.text.as_str());
        parts.push(part);
        i = i + 1;
    }
    assert(text::texts(parts@) =~= failure_texts(failures@));
    join(&parts, "; ")
}

impl Failure {
    /// A failure that is only a text.
    pub fn plain(text: String) -> (failure: Failure)
        ensures
            failure@ == plain(text@),
    {
        Failure::Worker(WorkerFailure::plain(text))
    }

    /// The whole text of a failure.
    pub fn message(&self) -> (out: String)
        ensures
            out@ == self@.text(),
    {
        match self {
            Failure::Worker(error) => error.text.clone(),
            Failure::Batch(error) => {
                let mut out: String = "batch_fanout phase=".to_owned();
                out.append(error.phase.as_str());
                out.append(" operation=");
                out.append(error.operation.as_str());
                out.append(" failed_workers=");
                out.append(decimal_text(error.failures.len() as u128).as_str());
                out.append(" failures=[");
                out.append(format_fanout_failures(error.failures.as_slice()).as_str());
                out.append("]");
                out
            },
        }
    }

    /// The same failure, with a text in front that says what was tried.
    pub fn with_context(self, context: &str) -> (failure: Failure)
        ensures
            failure@.text() == context@ + ": "@ + self@.text(),
            self is Worker ==> failure@ == (FailureView::Worker {
                text: context@ + ": "@ + self@.text(),
                kind: self->Worker_0.kind,
                origin: origin_view(self->Worker_0.origin),
            }),
            self is Batch ==> failure@ == plain(context@ + ": "@ + self@.text()),
    {
        let mut text: String = context.to_owned();
        text.append(": ");
        text.append(self.message().as_str());
        match self {
            Failure::Worker(error) => Failure::Worker(
                WorkerFailure { text: text, kind: error.kind, origin: error.origin },
            ),
            Failure::Batch(_) => Failure::plain(text),
        }
    }
}

// ---------------------------------------------------------------------------
// Telling failures apart
// ---------------------------------------------------------------------------

/// The class that the text of a failure, in lower case, stands for.
pub open spec fn class_of_text(lower: Seq<char>) -> Seq<char> {
    if text::occurs(lower, "app_heap_budget_exceeded"@) {
        "app_heap_budget_exceeded"@
    } else if text::occurs(lower, "app_heap_budget_allocator_abort"@) {
        "app_heap_budget_allocator_abort"@
    } else if text::occurs(lower, "embedded_budget_timeout"@) {
        "embedded_budget_timeout"@
    } else if text::occurs(lower, "connection refused"@) {
        "container_exit"@
    } else if text::occurs(lower, "timeout"@) || text::occurs(lower, "deadline"@) || text::occurs(
        lower,
        "timed out"@,
    ) {
        "cpu_starvation_timeout"@
    } else if text::occurs(lower, "connect"@) {
        "worker_unreachable"@
    } else {
        "infrastructure_failure"@
    }
}

/// The class of a failure: what the request itself tells, or else what its text tells.
pub open spec fn class_of(kind: FailureKind, lower: Seq<char>) -> Seq<char> {
    match kind {
        FailureKind::Request(fault) => if fault.connect {
            if fault.refused {
                "container_exit"@
            } else {
                "worker_unreachable"@
            }
        } else if fault.timeout {
            "cpu_starvation_timeout"@
        } else if fault.body_or_decode {
            "protocol_failure"@
        } else {
            class_of_text(lower)
        },
        _ => class_of_text(lower),
    }
}

/// The class that the text of a failure, in lower case, stands for.
pub fn classify_lowered_text(lower: &str) -> (class: &'static str)
    ensures
        class@ == class_of_text(lower@),
{
    if contains(lower, "app_heap_budget_exceeded") {
        return "app_heap_budget_exceeded";
    }
    if contains(lower, "app_heap_budget_allocator_abort") {
        return "app_heap_budget_allocator_abort";
    }
    if contains(lower, "embedded_budget_timeout") {
        return "embedded_budget_timeout";
    }
    if contains(lower, "connection refused") {
        return "container_exit";
    }
    if contains(lower, "timeout") || contains(lower, "deadline") || contains(lower, "timed out") {
        return "cpu_starvation_timeout";
    }
    if contains(lower, "connect") {
        return "worker_unreachable";
    }
    "infrastructure_failure"
}

/// The class of a failure whose text is given in lower case.
pub fn classify_lowered(kind: FailureKind, lower: &str) -> (class: &'static str)
    ensures
        class@ == class_of(kind, lower@),
{
    match kind {
        FailureKind::Request(fault) => {
            if fault.connect {
                if fault.refused {
                    return "container_exit";
                }
                return "worker_unreachable";
            }
            if fault.timeout {
                return "cpu_starvation_timeout";
            }
            if fault.body_or_decode {
                return "protocol_failure";
            }
            classify_lowered_text(lower)
        },
        _ => classify_lowered_text(lower),
    }
}

impl Failure {
    /// The failure as that of one worker.
    pub fn as_worker_failure(&self) -> (error: WorkerFailure)
        ensures
            error.text@ == self@.text(),
            error.kind == self@.kind(),
            origin_view(error.origin) == self@.origin(),
    {
        match self {
            Failure::Worker(failure) => failure.clone(),
            Failure::Batch(_) => WorkerFailure::plain(self.message()),
        }
    }

    /// The command that was not answered, where the failure is one of that kind: its name and the
    /// worker's id.
    pub fn command_origin(&self) -> (origin: Option<CommandOrigin>)
        ensures
            origin_view(origin) == self@.origin(),
    {
        match self {
            Failure::Worker(failure) => copy_origin(&failure.origin),
            Failure::Batch(_) => None,
        }
    }
}

impl Clone for Failure {
    fn clone(&self) -> (copy: Failure)
        ensures
            copy@ == self@,
    {
        match self {
            Failure::Worker(error) => Failure::Worker(error.clone()),
            Failure::Batch(error) => {
                let mut failures: Vec<FanoutFailure> = Vec::new();
                let mut i: usize = 0;
                while i < error.failures.len()
                    invariant
                        i <= error.failures@.len(),
                        failures@ == error.failures@.take(i as int),
                    decreases error.failures@.len() - i,
                {
                    failures.push(error.failures[i].clone());
                    i = i + 1;
                    assert(failures@ =~= error.failures@.take(i as int));
                }
                assert(failures@ =~= error.failures@);
                Failure::Batch(
                    BatchFanoutError {
                        phase: error.phase.clone(),
                        operation: error.operation.clone(),
                        failures: failures,
                    },
                )
            },
        }
    }
}

/// The class of a worker's failure.
pub fn classify_worker_error(error: &WorkerFailure) -> (class: &'static str)
    ensures
        class@ == class_of(error.kind, text::unicode_lowercase(error.text@)),
{
    classify_lowered(error.kind, to_lowercase(error.text.as_str()).as_str())
}

/// A class that means that a worker ran out of what it was given.
pub open spec fn budget_class(class: Seq<char>) -> bool {
    ||| class == "app_heap_budget_exceeded"@
    ||| class == "app_heap_budget_allocator_abort"@
    ||| class == "embedded_budget_timeout"@
    ||| class == "cpu_starvation_timeout"@
}

/// A failure means that a worker ran out of what it was given.
pub open spec fn out_of_budget(kind: FailureKind, text: Seq<char>) -> bool {
    budget_class(class_of(kind, text::unicode_lowercase(text)))
}

fn is_budget_class(class: &str) -> (yes: bool)
    ensures
        yes == budget_class(class@),
{
    str_eq(class, "app_heap_budget_exceeded") || str_eq(class, "app_heap_budget_allocator_abort")
        || str_eq(class, "embedded_budget_timeout") || str_eq(class, "cpu_starvation_timeout")
}

/// Whether a failure means that a worker ran out of what it was given.
pub fn is_resource_budget_failure(error: &Failure) -> (yes: bool)
    ensures
        yes == error@.out_of_budget(),
{
    let kind: FailureKind = match error {
        Failure::Worker(failure) => failure.kind,
        Failure::Batch(_) => FailureKind::Plain,
    };
    is_budget_class(classify_lowered(kind, to_lowercase(error.message().as_str()).as_str()))
}

impl FailureView {
    /// Where the failure comes from; the failure of several workers is like any other text.
    pub open spec fn kind(self) -> FailureKind {
        match self {
            FailureView::Worker { text: _, kind, origin: _ } => kind,
            FailureView::Batch { phase: _, operation: _, failures: _ } => FailureKind::Plain,
        }
    }

    /// The command that was not answered: its name and the worker's id.
    pub open spec fn origin(self) -> Option<(Seq<char>, Seq<char>)> {
        match self {
            FailureView::Worker { text: _, kind: _, origin } => origin,
            FailureView::Batch { phase: _, operation: _, failures: _ } => None,
        }
    }

    /// A worker ran out of what it was given.
    pub open spec fn out_of_budget(self) -> bool {
        out_of_budget(self.kind(), self.text())
    }

    /// The worker may have done what it was told all the same.
    pub open spec fn ambiguous(self) -> bool {
        self.kind() == (FailureKind::Command { ambiguous: true })
    }
}

/// Whether the worker may have done what it was told all the same.
pub fn is_ambiguous(error: &Failure) -> (yes: bool)
    ensures
        yes == error@.ambiguous(),
{
    match error {
        Failure::Worker(failure) => match failure.kind {
            FailureKind::Command { ambiguous } => ambiguous,
            _ => false,
        },
        Failure::Batch(_) => false,
    }
}

/// A measured worker that is alone in its container.
pub open spec fn measured_alone(worker: WorkerSpec) -> bool {
    worker.profile_enabled && worker.container_mode == ContainerMode::Singleton
}

/// Whether a worker is measured and alone in its container.
pub fn is_measured_alone(worker: &WorkerSpec) -> (yes: bool)
    ensures
        yes == measured_alone(*worker),
{
    worker.profile_enabled && worker.container_mode == ContainerMode::Singleton
}

/// Whether a measured worker that is alone in its container ran out of what it was given.
pub fn is_profiled_resource_budget_failure(worker: &WorkerSpec, error: &WorkerFailure) -> (yes:
    bool)
    ensures
        yes == (measured_alone(*worker) && out_of_budget(error.kind, error.text@)),
{
    is_measured_alone(worker) && is_budget_class(classify_worker_error(error))
}

/// A failed request that took too long, by its text in lower case.
pub open spec fn timeout_text(lower: Seq<char>) -> bool {
    ||| text::occurs(lower, "timeout"@)
    ||| text::occurs(lower, "timed out"@)
    ||| text::occurs(lower, "deadline has elapsed"@)
}

/// A failed request that reached nobody, by its text in lower case.
pub open spec fn connect_text(lower: Seq<char>) -> bool {
    ||| text::occurs(lower, "host is unreachable"@)
    ||| text::occurs(lower, "no route to host"@)
    ||| text::occurs(lower, "network is unreachable"@)
    ||| text::occurs(lower, "tcp connect"@)
    ||| text::occurs(lower, "connect error"@)
    ||| text::occurs(lower, "failed to connect"@)
    ||| text::occurs(lower, "dns error"@)
    ||| text::occurs(lower, "failed to resolve"@)
}

/// How many failures took too long.
pub open spec fn timeouts_in(failures: Seq<FanoutFailure>) -> nat
    decreases failures.len(),
{
    if failures.len() == 0 {
        0
    } else {
        timeouts_in(failures.drop_last()) + if timeout_text(
            text::lowered(failures.last().error.text@),
        ) {
            1nat
        } else {
            0
        }
    }
}

/// How many failures reached nobody.
pub open spec fn connects_in(failures: Seq<FanoutFailure>) -> nat
    decreases failures.len(),
{
    if failures.len() == 0 {
        0
    } else {
        connects_in(failures.drop_last()) + if connect_text(
            text::lowered(failures.last().error.text@),
        ) {
            1nat
        } else {
            0
        }
    }
}

/// How many failures took too long, and how many reached nobody.
pub fn classify_fanout_failures(failures: &[FanoutFailure]) -> (counts: (usize, usize))
    ensures
        counts.0 == timeouts_in(failures@) <= failures@.len(),
        counts.1 == connects_in(failures@) <= failures@.len(),
{
    let mut timeouts: usize = 0;
    let mut connects: usize = 0;
    let mut i: usize = 0;
    assert(failures@.take(0) =~= Seq::<FanoutFailure>::empty());
    while i < failures.len()
        invariant
            i <= failures@.len(),
            timeouts == timeouts_in(failures@.take(i as int)) <= i,
            connects == connects_in(failures@.take(i as int)) <= i,
        decreases failures@.len() - i,
    {
        assert(failures@.take(i + 1).drop_last() =~= failures@.take(i as int));
        let lower: String = to_ascii_lowercase(failures[i].error.text.as_str());
        let l: &str = lower.as_str();
        if contains(l, "timeout") || contains(l, "timed out") || contains(
            l,
            "deadline has elapsed",
        ) {
            timeouts = timeouts + 1;
        }
        if contains(l, "host is unreachable") || contains(l, "no route to host") || contains(
            l,
            "network is unreachable",
        ) || contains(l, "tcp connect") || contains(l, "connect error") || contains(
            l,
            "failed to connect",
        ) || contains(l, "dns error") || contains(l, "failed to resolve") {
            connects = connects + 1;
        }
        i = i + 1;
    }
    assert(failures@.take(i as int) =~= failures@);
    (timeouts, connects)
}

// ---------------------------------------------------------------------------
// Sorting failures out
// ---------------------------------------------------------------------------

/// The failures of workers whose ids are, or are not, in a set.
pub open spec fn failures_in(
    failures: Seq<FanoutFailure>,
    set: Set<Seq<char>>,
    within: bool,
) -> Seq<FanoutFailure>
    decreases failures.len(),
{
    if failures.len() == 0 {
        Seq::empty()
    } else {
        let before = failures_in(failures.drop_last(), set, within);
        if set.contains(failures.last().worker.id@) == within {
            before.push(failures.last())
        } else {
            before
        }
    }
}

/// The workers of some failures.
pub open spec fn workers_of(failures: Seq<FanoutFailure>) -> Seq<WorkerSpec> {
    failures.map_values(|f: FanoutFailure| f.worker)
}

/// Parts the failures into the workers that turned out to have succeeded and the failures that
/// remain.
pub fn partition_batch_failures_by_reconciled_state(
    failures: Vec<FanoutFailure>,
    reconciled_ids: &IdSet,
) -> (parts: (Vec<WorkerSpec>, Vec<FanoutFailure>))
    ensures
        parts.0@ == workers_of(failures_in(failures@, reconciled_ids@, true)),
        parts.1@ == failures_in(failures@, reconciled_ids@, false),
        parts.0@.len() + parts.1@.len() == failures@.len(),
{
    let mut successes: Vec<WorkerSpec> = Vec::new();
    let mut remaining: Vec<FanoutFailure> = Vec::new();
    let mut i: usize = 0;
    assert(failures@.take(0) =~= Seq::<FanoutFailure>::empty());
    assert(successes@ =~= workers_of(Seq::<FanoutFailure>::empty()));
    while i < failures.len()
        invariant
            i <= failures@.len(),
            successes@ == workers_of(failures_in(failures@.take(i as int), reconciled_ids@, true)),
            remaining@ == failures_in(failures@.take(i as int), reconciled_ids@, false),
            successes@.len() + remaining@.len() == i,
        decreases failures@.len() - i,
    {
        let ghost before = failures_in(failures@.take(i as int), reconciled_ids@, true);
        assert(failures@.take(i + 1).drop_last() =~= failures@.take(i as int));
        if reconciled_ids.contains(failures[i].worker.id.as_str()) {
            successes.push(failures[i].worker.clone());
            assert(successes@ =~= workers_of(before.push(failures@[i as int])));
        } else {
            remaining.push(failures[i].clone());
        }
        i = i + 1;
    }
    assert(failures@.take(i as int) =~= failures@);
    (successes, remaining)
}

/// The ids of the workers that failed.
pub open spec fn failed_ids(failures: Seq<FanoutFailure>) -> Set<Seq<char>> {
    workers::ids(workers_of(failures)).to_set()
}

/// The commands of one container whose clients are in a set.
pub open spec fn commands_in(cmds: Seq<command::BatchView>, set: Set<Seq<char>>) -> Seq<
    command::BatchView,
>
    decreases cmds.len(),
{
    if cmds.len() == 0 {
        Seq::empty()
    } else {
        let before = commands_in(cmds.drop_last(), set);
        if set.contains(cmds.last().client_id) {
            before.push(cmds.last())
        } else {
            before
        }
    }
}

/// The commands of all containers whose clients are in a set, without containers that have none.
pub open spec fn retried(
    groups: Seq<(Seq<char>, Seq<command::BatchView>)>,
    set: Set<Seq<char>>,
) -> Seq<(Seq<char>, Seq<command::BatchView>)>
    decreases groups.len(),
{
    if groups.len() == 0 {
        Seq::empty()
    } else {
        let before = retried(groups.drop_last(), set);
        let again = commands_in(groups.last().1, set);
        if again.len() == 0 {
            before
        } else {
            before.push((groups.last().0, again))
        }
    }
}

/// The same commands again, with the same request ids, for the clients that failed.
pub fn retry_batch_commands_for_failures(
    commands_by_physical: &[(String, Vec<BatchFanoutCommand>)],
    failures: &[FanoutFailure],
) -> (again: Vec<(String, Vec<BatchFanoutCommand>)>)
    ensures
        command::packed(again@) == retried(
            command::packed(commands_by_physical@),
            failed_ids(failures@),
        ),
{
    let mut names: Vec<String> = Vec::new();
    let mut i: usize = 0;
    while i < failures.len()
        invariant
            i <= failures@.len(),
            names@.len() == i,
            forall|j: int| 0 <= j < i ==> (#[trigger] names@[j])@ == failures@[j].worker.id@,
        decreases failures@.len() - i,
    {
        names.push(failures[i].worker.id.clone());
        i = i + 1;
    }
    let failed: IdSet = id_set(&names);
    assert(text::texts(names@) =~= workers::ids(workers_of(failures@)));
    let ghost set = failed@;
    let ghost groups = command::packed(commands_by_physical@);
    let mut again: Vec<(String, Vec<BatchFanoutCommand>)> = Vec::new();
    let mut g: usize = 0;
    assert(groups.take(0) =~= Seq::<(Seq<char>, Seq<command::BatchView>)>::empty());
    assert(command::packed(again@) =~= Seq::<(Seq<char>, Seq<command::BatchView>)>::empty());
    while g < commands_by_physical.len()
        invariant
            g <= commands_by_physical@.len(),
            set == failed@,
            groups == command::packed(commands_by_physical@),
            command::packed(again@) == retried(groups.take(g as int), set),
        decreases commands_by_physical@.len() - g,
    {
        let ghost sent = again@;
        let ghost cmds = command::items(commands_by_physical@[g as int].1@);
        assert(groups.take(g + 1).drop_last() =~= groups.take(g as int));
        assert(groups[g as int] == (commands_by_physical@[g as int].0@, cmds));
        let mut retry: Vec<BatchFanoutCommand> = Vec::new();
        let mut c: usize = 0;
        assert(cmds.take(0) =~= Seq::<command::BatchView>::empty());
        assert(command::items(retry@) =~= Seq::<command::BatchView>::empty());
        while c < commands_by_physical[g].1.len()
            invariant
                g < commands_by_physical@.len(),
                c <= commands_by_physical@[g as int].1@.len(),
                set == failed@,
                cmds == command::items(commands_by_physical@[g as int].1@),
                command::items(retry@) == commands_in(cmds.take(c as int), set),
            decreases commands_by_physical@[g as int].1@.len() - c,
        {
            let item: &BatchFanoutCommand = &commands_by_physical[g].1[c];
            assert(cmds.take(c + 1).drop_last() =~= cmds.take(c as int));
            assert(cmds[c as int] == item@);
            if failed.contains(item.client_id.as_str()) {
                let ghost before = retry@;
                let copy: BatchFanoutCommand = item.clone();
                retry.push(copy);
                assert(command::items(retry@) =~= command::items(before).push(item@));
            }
            c = c + 1;
        }
        assert(cmds.take(c as int) =~= cmds);
        if retry.len() > 0 {
            let name: String = commands_by_physical[g].0.clone();
            again.push((name, retry));
            assert(command::packed(again@) =~= command::packed(sent).push(
                (name@, command::items(retry@)),
            ));
        }
        g = g + 1;
    }
    assert(groups.take(g as int) =~= groups);
    again
}

proof fn lemma_commands_in(cmds: Seq<command::BatchView>, set: Set<Seq<char>>)
    ensures
        forall|item: command::BatchView| #[trigger]
            commands_in(cmds, set).contains(item) <==> cmds.contains(item) && set.contains(
                item.client_id,
            ),
    decreases cmds.len(),
{
    if cmds.len() > 0 {
        let front = cmds.drop_last();
        lemma_commands_in(front, set);
        let before = commands_in(front, set);
        let all = commands_in(cmds, set);
        assert(cmds[cmds.len() - 1] == cmds.last());
        assert forall|item: command::BatchView| #[trigger] all.contains(item) <==> cmds.contains(
            item,
        ) && set.contains(item.client_id) by {
            if all.contains(item) {
                let k = choose|k: int| 0 <= k < all.len() && all[k] == item;
                if k < before.len() {
                    assert(before[k] == item);
                    assert(before.contains(item));
                    assert(front.contains(item));
                    let j = choose|j: int| 0 <= j < front.len() && front[j] == item;
                    assert(cmds[j] == item);
                }
            }
            if cmds.contains(item) && set.contains(item.client_id) {
                let j = choose|j: int| 0 <= j < cmds.len() && cmds[j] == item;
                if j < front.len() {
                    assert(front[j] == item);
                    assert(before.contains(item));
                    let k = choose|k: int| 0 <= k < before.len() && before[k] == item;
                    assert(all[k] == item);
                } else {
                    assert(all.last() == item);
                }
            }
        }
    }
}

/// A command stands in one of the packs that go to a container.
pub open spec fn goes_to(
    groups: Seq<(Seq<char>, Seq<command::BatchView>)>,
    container: Seq<char>,
    item: command::BatchView,
) -> bool {
    exists|g: int|
        0 <= g < groups.len() && (#[trigger] groups[g]).0 == container && groups[g].1.contains(item)
}

/// What is sent again are the commands for the clients that failed, and no others, unchanged, to the
/// same containers. Nothing is sent to a container without any.
pub proof fn law_only_failures_are_retried(
    groups: Seq<(Seq<char>, Seq<command::BatchView>)>,
    failures: Seq<FanoutFailure>,
    container: Seq<char>,
    item: command::BatchView,
)
    ensures
        goes_to(retried(groups, failed_ids(failures)), container, item) <==> goes_to(
            groups,
            container,
            item,
        ) && exists|k: int|
            0 <= k < failures.len() && (#[trigger] failures[k]).worker.id@ == item.client_id,
        forall|g: int|
            0 <= g < retried(groups, failed_ids(failures)).len() ==> (#[trigger] retried(
                groups,
                failed_ids(failures),
            )[g]).1.len() > 0,
{
    let set = failed_ids(failures);
    lemma_retried(groups, set, container, item);
    let ids = workers::ids(workers_of(failures));
    if set.contains(item.client_id) {
        let k = choose|k: int| 0 <= k < ids.len() && ids[k] == item.client_id;
        assert(failures[k].worker.id@ == item.client_id);
    }
    if exists|k: int| 0 <= k < failures.len() && (#[trigger] failures[k]).worker.id@
        == item.client_id {
        let k = choose|k: int|
            0 <= k < failures.len() && (#[trigger] failures[k]).worker.id@ == item.client_id;
        assert(ids[k] == item.client_id);
    }
}

proof fn lemma_retried(
    groups: Seq<(Seq<char>, Seq<command::BatchView>)>,
    set: Set<Seq<char>>,
    container: Seq<char>,
    item: command::BatchView,
)
    ensures
        goes_to(retried(groups, set), container, item) <==> goes_to(groups, container, item)
            && set.contains(item.client_id),
        forall|g: int|
            0 <= g < retried(groups, set).len() ==> (#[trigger] retried(groups, set)[g]).1.len() > 0,
    decreases groups.len(),
{
    if groups.len() > 0 {
        let front = groups.drop_last();
        let last = groups.last();
        lemma_retried(front, set, container, item);
        lemma_commands_in(last.1, set);
        let before = retried(front, set);
        let all = retried(groups, set);
        let again = commands_in(last.1, set);
        assert(groups[groups.len() - 1] == last);
        if goes_to(all, container, item) {
            let g = choose|g: int|
                0 <= g < all.len() && (#[trigger] all[g]).0 == container && all[g].1.contains(item);
            if g < before.len() {
                assert(before[g] == all[g]);
                assert(goes_to(front, container, item));
                let h = choose|h: int|
                    0 <= h < front.len() && (#[trigger] front[h]).0 == container
                        && front[h].1.contains(item);
                assert(groups[h] == front[h]);
            } else {
                assert(again.contains(item));
                assert(groups[groups.len() - 1].1.contains(item));
            }
        }
        if goes_to(groups, container, item) && set.contains(item.client_id) {
            let h = choose|h: int|
                0 <= h < groups.len() && (#[trigger] groups[h]).0 == container
                    && groups[h].1.contains(item);
            if h < front.len() {
                assert(front[h] == groups[h]);
                let g = choose|g: int|
                    0 <= g < before.len() && (#[trigger] before[g]).0 == container
                        && before[g].1.contains(item);
                assert(all[g] == before[g]);
            } else {
                assert(again.contains(item));
                assert(again.len() > 0);
                assert(all.last() == (last.0, again));
                assert(all[all.len() - 1].1.contains(item));
            }
        }
    }
}

/// Failures are parted by whether their workers are in a set: none is lost, and none is in both parts.
pub proof fn law_failures_are_parted(
    failures: Seq<FanoutFailure>,
    set: Set<Seq<char>>,
    f: FanoutFailure,
)
    ensures
        failures_in(failures, set, true).len() + failures_in(failures, set, false).len()
            == failures.len(),
        failures_in(failures, set, true).contains(f) <==> failures.contains(f) && set.contains(
            f.worker.id@,
        ),
        failures_in(failures, set, false).contains(f) <==> failures.contains(f) && !set.contains(
            f.worker.id@,
        ),
    decreases failures.len(),
{
    if failures.len() > 0 {
        let front = failures.drop_last();
        law_failures_are_parted(front, set, f);
        assert(failures[failures.len() - 1] == failures.last());
        lemma_part_grows(failures, set, true, f);
        lemma_part_grows(failures, set, false, f);
    }
}

proof fn lemma_part_grows(
    failures: Seq<FanoutFailure>,
    set: Set<Seq<char>>,
    within: bool,
    f: FanoutFailure,
)
    requires
        failures.len() > 0,
        failures_in(failures.drop_last(), set, within).contains(f) <==> failures.drop_last().contains(
            f,
        ) && set.contains(f.worker.id@) == within,
    ensures
        failures_in(failures, set, within).contains(f) <==> failures.contains(f) && set.contains(
            f.worker.id@,
        ) == within,
{
    let front = failures.drop_last();
    let before = failures_in(front, set, within);
    let all = failures_in(failures, set, within);
    assert(failures[failures.len() - 1] == failures.last());
    if all.contains(f) {
        let k = choose|k: int| 0 <= k < all.len() && all[k] == f;
        if k < before.len() {
            assert(before[k] == f);
            let j = choose|j: int| 0 <= j < front.len() && front[j] == f;
            assert(failures[j] == f);
        }
    }
    if failures.contains(f) && set.contains(f.worker.id@) == within {
        let j = choose|j: int| 0 <= j < failures.len() && failures[j] == f;
        if j < front.len() {
            assert(front[j] == f);
            let k = choose|k: int| 0 <= k < before.len() && before[k] == f;
            assert(all[k] == f);
        } else {
            assert(all.last() == f);
            assert(all[all.len() - 1] == f);
        }
    }
}

} // verus!
