//! Sending a command until it is answered, and reading the answers.

use vstd::prelude::*;

use crate::draw::draw_unseeded;
use crate::failure;
use crate::failure::{CommandOrigin, Failure, FailureKind, WorkerFailure};
use crate::order;
use crate::order::sort_texts;
use crate::text;
use crate::text::{
    contains, copy_texts, decimal_text, parse_u64, split_once, str_eq, strip_prefix,
};
use crate::workers::WorkerSpec;

verus! {

// ---------------------------------------------------------------------------
// Sending
// ---------------------------------------------------------------------------

pub const WORKER_COMMAND_MAX_ATTEMPTS: usize = 10;

pub const WORKER_COMMAND_INITIAL_DELAY_MS: u64 = 100;

pub const WORKER_COMMAND_MAX_DELAY_MS: u64 = 3_000;

/// Why a command was not answered.
#[derive(Debug, Clone, Copy, PartialEq, Eq, Structural)]
pub enum WorkerCommandErrorClass {
    TransportRetryable,
    FatalHttpStatus,
    FatalDecode,
}

impl WorkerCommandErrorClass {
    /// The name of the reason.
    pub open spec fn name(self) -> Seq<char> {
        match self {
            WorkerCommandErrorClass::TransportRetryable => "transport-retryable"@,
            WorkerCommandErrorClass::FatalHttpStatus => "fatal-http-status"@,
            WorkerCommandErrorClass::FatalDecode => "fatal-decode"@,
        }
    }

    /// The name of the reason.
    pub fn as_str(self) -> (name: &'static str)
        ensures
            name@ == self.name(),
    {
        match self {
            WorkerCommandErrorClass::TransportRetryable => "transport-retryable",
            WorkerCommandErrorClass::FatalHttpStatus => "fatal-http-status",
            WorkerCommandErrorClass::FatalDecode => "fatal-decode",
        }
    }
}

/// A command that was not answered.
#[derive(Debug)]
pub struct WorkerCommandError {
    pub worker_id: String,
    pub command: &'static str,
    pub url: String,
    pub request_id: String,
    pub attempts: usize,
    pub classification: WorkerCommandErrorClass,
    pub last_error: String,
    pub diagnostic: Option<String>,
}

impl WorkerCommandError {
    /// The error as it is shown.
    pub open spec fn shown(self) -> Seq<char> {
        let main = "runner.worker_command failed: worker="@ + self.worker_id@ + " command="@
            + self.command@ + " url="@ + self.url@ + " request_id="@ + self.request_id@
            + " attempts="@ + text::decimal(self.attempts as nat) + " classification="@
            + self.classification.name() + " last_error="@ + self.last_error@;
        match self.diagnostic {
            Some(diagnostic) => main + " diagnostics="@ + diagnostic@,
            None => main,
        }
    }

    /// Whether the worker may have done the command all the same.
    pub fn is_ambiguous_transport(&self) -> (yes: bool)
        ensures
            yes == (self.classification == WorkerCommandErrorClass::TransportRetryable),
    {
        self.classification == WorkerCommandErrorClass::TransportRetryable
    }

    /// The error as it is shown.
    pub fn message(&self) -> (out: String)
        ensures
            out@ == self.shown(),
    {
        let mut out: String = "runner.worker_command failed: worker=".to_owned();
        out.append(self.worker_id.as_str());
        out.append(" command=");
        out.append(self.command);
        out.append(" url=");
        out.append(self.url.as_str());
        out.append(" request_id=");
        out.append(self.request_id.as_str());
        out.append(" attempts=");
        out.append(decimal_text(self.attempts as u128).as_str());
        out.append(" classification=");
        out.append(self.classification.as_str());
        out.append(" last_error=");
        out.append(self.last_error.as_str());
        match &self.diagnostic {
            Some(diagnostic) => {
                out.append(" diagnostics=");
                out.append(diagnostic.as_str());
            },
            None => {},
        }
        out
    }

    /// The error as the failure of an operation.
    pub fn failure(&self) -> (failure: Failure)
        ensures
            failure@ == (failure::FailureView::Worker {
                text: self.shown(),
                kind: FailureKind::Command {
                    ambiguous: self.classification == WorkerCommandErrorClass::TransportRetryable,
                },
                origin: Some((self.command@, self.worker_id@)),
            }),
    {
        Failure::Worker(
            WorkerFailure {
                text: self.message(),
                kind: FailureKind::Command { ambiguous: self.is_ambiguous_transport() },
                origin: Some(
                    CommandOrigin { command: self.command, worker_id: self.worker_id.clone() },
                ),
            },
        )
    }
}

/// What became of one attempt to send a command.
#[derive(Debug)]
pub enum SendOutcome {
    /// No answer came; whether another attempt may help.
    NotSent { retryable: bool, error: String, diagnostic: String },
    /// The answer was an error status; whether another attempt may help.
    BadStatus { transient: bool, error: String },
    /// The answer could not be read; whether another attempt may help.
    Unreadable { transient: bool, error: String, diagnostic: String },
    /// The answer was read.
    Answered,
}

/// What follows after an attempt.
#[derive(Debug)]
pub enum SendStep {
    /// The command was answered.
    Finished,
    /// Another attempt, after a pause. `shown` is what is reported meanwhile.
    Retry { delay_ms: u64, shown: String },
    /// The command failed.
    Failed(WorkerCommandError),
}

/// The attempts to send one command.
#[derive(Debug)]
pub struct CommandAttempts {
    pub worker_id: String,
    pub command: &'static str,
    pub url: String,
    pub request_id: String,
    pub attempt: usize,
    pub delay_ms: u64,
}

/// The pause after the one before: twice as long, up to the longest.
pub open spec fn next_delay(delay_ms: u64) -> u64 {
    if 2 * delay_ms <= WORKER_COMMAND_MAX_DELAY_MS {
        (2 * delay_ms) as u64
    } else {
        WORKER_COMMAND_MAX_DELAY_MS
    }
}

/// The pause after the one before.
pub fn worker_command_next_delay(delay_ms: u64) -> (next: u64)
    ensures
        next == next_delay(delay_ms),
{
    if delay_ms <= WORKER_COMMAND_MAX_DELAY_MS / 2 {
        2 * delay_ms
    } else {
        WORKER_COMMAND_MAX_DELAY_MS
    }
}

/// The most that chance adds to a pause: a tenth of it, at least one and at most a hundred.
pub open spec fn jitter_cap(delay_ms: u64) -> int {
    let tenth = delay_ms as int / 10;
    if tenth < 1 {
        1
    } else if tenth > 100 {
        100
    } else {
        tenth
    }
}

/// The most that chance adds to a pause.
pub fn worker_command_jitter_cap(delay_ms: u64) -> (cap: u64)
    ensures
        cap == jitter_cap(delay_ms),
        1 <= cap <= 100,
{
    let tenth: u64 = delay_ms / 10;
    if tenth < 1 {
        1
    } else if tenth > 100 {
        100
    } else {
        tenth
    }
}

/// A pause with what was drawn for it.
pub fn jittered(delay_ms: u64, drawn: u64) -> (sleep_ms: u64)
    requires
        drawn <= jitter_cap(delay_ms),
        delay_ms + 100 <= u64::MAX,
    ensures
        sleep_ms == delay_ms + drawn,
{
    delay_ms + drawn
}

/// A pause with what chance adds to it; `jittered` says what becomes of what is drawn.
pub fn worker_command_with_jitter(delay_ms: u64) -> (sleep_ms: u64)
    requires
        delay_ms + 100 <= u64::MAX,
    ensures
        delay_ms <= sleep_ms <= delay_ms + jitter_cap(delay_ms),
{
    jittered(delay_ms, draw_unseeded(worker_command_jitter_cap(delay_ms)))
}

impl CommandAttempts {
    /// The attempt that is under way is one of those allowed.
    pub open spec fn wf(self) -> bool {
        1 <= self.attempt <= WORKER_COMMAND_MAX_ATTEMPTS && self.delay_ms
            <= WORKER_COMMAND_MAX_DELAY_MS
    }

    /// The first attempt to send a command to a worker.
    pub fn new(worker: &WorkerSpec, command: &'static str, request_id: &str) -> (attempts:
        CommandAttempts)
        ensures
            attempts.wf(),
            attempts.worker_id@ == worker.id@,
            attempts.command@ == command@,
            attempts.url@ == worker.url@ + "/command"@,
            attempts.request_id@ == request_id@,
            attempts.attempt == 1,
            attempts.delay_ms == WORKER_COMMAND_INITIAL_DELAY_MS,
    {
        let mut url: String = worker.url.clone();
        url.append("/command");
        CommandAttempts {
            worker_id: worker.id.clone(),
            command: command,
            url: url,
            request_id: request_id.to_owned(),
            attempt: 1,
            delay_ms: WORKER_COMMAND_INITIAL_DELAY_MS,
        }
    }

    /// The error of the attempt that is under way.
    pub open spec fn is_error(
        self,
        error: WorkerCommandError,
        classification: WorkerCommandErrorClass,
        last_error: Seq<char>,
        diagnostic: Option<Seq<char>>,
    ) -> bool {
        &&& error.worker_id@ == self.worker_id@
        &&& error.command@ == self.command@
        &&& error.url@ == self.url@
        &&& error.request_id@ == self.request_id@
        &&& error.attempts == self.attempt
        &&& error.classification == classification
        &&& error.last_error@ == last_error
        &&& text::maybe(error.diagnostic) == diagnostic
    }

    fn error(
        &self,
        classification: WorkerCommandErrorClass,
        last_error: String,
        diagnostic: Option<String>,
    ) -> (error: WorkerCommandError)
        ensures
            self.is_error(error, classification, last_error@, text::maybe(diagnostic)),
    {
        WorkerCommandError {
            worker_id: self.worker_id.clone(),
            command: self.command,
            url: self.url.clone(),
            request_id: self.request_id.clone(),
            attempts: self.attempt,
            classification: classification,
            last_error: last_error,
            diagnostic: diagnostic,
        }
    }

    /// The attempts after a pause, all else unchanged.
    pub open spec fn paused(self, before: CommandAttempts) -> bool {
        &&& self.attempt == before.attempt + 1
        &&& self.delay_ms == next_delay(before.delay_ms)
        &&& self.worker_id == before.worker_id
        &&& self.command == before.command
        &&& self.url == before.url
        &&& self.request_id == before.request_id
    }

    /// What follows after an attempt, and the attempts then, where another attempt would come after
    /// a given pause.
    pub open spec fn next(
        self,
        outcome: SendOutcome,
        after: CommandAttempts,
        step: SendStep,
        pause_ms: u64,
    ) -> bool {
        &&& step is Retry ==> self.attempt < WORKER_COMMAND_MAX_ATTEMPTS && after.paused(self)
            && step->delay_ms == pause_ms
        &&& !(step is Retry) ==> after == self
        &&& match outcome {
            SendOutcome::Answered => step is Finished,
            SendOutcome::NotSent { retryable, error, diagnostic } => self.next_transport(
                retryable,
                error@,
                diagnostic@,
                step,
            ),
            SendOutcome::BadStatus { transient, error } => if transient && self.attempt
                < WORKER_COMMAND_MAX_ATTEMPTS {
                step is Retry && step->shown@ == error@
            } else {
                step is Failed && self.is_error(
                    step->Failed_0,
                    WorkerCommandErrorClass::FatalHttpStatus,
                    error@,
                    None,
                )
            },
            SendOutcome::Unreadable { transient, error, diagnostic } => self.next_transport(
                transient,
                error@,
                diagnostic@,
                step,
            ),
        }
    }

    /// What follows where no answer came or none that could be read.
    pub open spec fn next_transport(
        self,
        retryable: bool,
        error: Seq<char>,
        diagnostic: Seq<char>,
        step: SendStep,
    ) -> bool {
        if !retryable {
            step is Failed && self.is_error(
                step->Failed_0,
                WorkerCommandErrorClass::FatalDecode,
                error,
                Some(diagnostic),
            )
        } else if self.attempt == WORKER_COMMAND_MAX_ATTEMPTS {
            step is Failed && self.is_error(
                step->Failed_0,
                WorkerCommandErrorClass::TransportRetryable,
                error,
                Some(diagnostic),
            )
        } else {
            step is Retry && step->shown@ == error + " ("@ + diagnostic + ")"@
        }
    }

    /// What follows after an attempt: the same command is sent again while attempts are left and
    /// another one may help. The pause before it has a share by chance; `step_after` says what
    /// becomes of each.
    pub fn step(&mut self, outcome: SendOutcome) -> (step: SendStep)
        requires
            old(self).wf(),
        ensures
            final(self).wf(),
            exists|pause_ms: u64|
                old(self).delay_ms <= pause_ms <= old(self).delay_ms + jitter_cap(
                    old(self).delay_ms,
                ) && #[trigger] old(self).next(outcome, *final(self), step, pause_ms),
    {
        let pause_ms: u64 = worker_command_with_jitter(self.delay_ms);
        self.step_after(outcome, pause_ms)
    }

    /// What follows after an attempt, where another attempt would come after a given pause.
    pub fn step_after(&mut self, outcome: SendOutcome, pause_ms: u64) -> (step: SendStep)
        requires
            old(self).wf(),
        ensures
            final(self).wf(),
            old(self).next(outcome, *final(self), step, pause_ms),
    {
        match outcome {
            SendOutcome::Answered => SendStep::Finished,
            SendOutcome::NotSent { retryable, error, diagnostic } => {
                self.step_transport(retryable, error, diagnostic, pause_ms)
            },
            SendOutcome::Unreadable { transient, error, diagnostic } => {
                self.step_transport(transient, error, diagnostic, pause_ms)
            },
            SendOutcome::BadStatus { transient, error } => {
                if transient && self.attempt < WORKER_COMMAND_MAX_ATTEMPTS {
                    self.attempt = self.attempt + 1;
                    self.delay_ms = worker_command_next_delay(self.delay_ms);
                    SendStep::Retry { delay_ms: pause_ms, shown: error }
                } else {
                    SendStep::Failed(
                        self.error(WorkerCommandErrorClass::FatalHttpStatus, error, None),
                    )
                }
            },
        }
    }

    fn step_transport(
        &mut self,
        retryable: bool,
        error: String,
        diagnostic: String,
        pause_ms: u64,
    ) -> (step: SendStep)
        requires
            old(self).wf(),
        ensures
            final(self).wf(),
            old(self).next_transport(retryable, error@, diagnostic@, step),
            if step is Retry {
                final(self).paused(*old(self)) && step->delay_ms == pause_ms
            } else {
                *final(self) == *old(self)
            },
    {
        if !retryable {
            return SendStep::Failed(
                self.error(WorkerCommandErrorClass::FatalDecode, error, Some(diagnostic)),
            );
        }
        if self.attempt == WORKER_COMMAND_MAX_ATTEMPTS {
            return SendStep::Failed(
                self.error(WorkerCommandErrorClass::TransportRetryable, error, Some(diagnostic)),
            );
        }
        self.attempt = self.attempt + 1;
        self.delay_ms = worker_command_next_delay(self.delay_ms);
        let mut shown: String = error;
        shown.append(" (");
        shown.append(diagnostic.as_str());
        shown.append(")");
        SendStep::Retry { delay_ms: pause_ms, shown: shown }
    }
}

// ---------------------------------------------------------------------------
// Answers
// ---------------------------------------------------------------------------

/// The answer to a command.
#[derive(Debug)]
pub struct CommandResponse {
    pub status: String,
    pub message: String,
}

impl CommandResponse {
    /// What the answer says.
    pub open spec fn said(self) -> (Seq<char>, Seq<char>) {
        (self.status@, self.message@)
    }

    /// The same answer once more.
    pub fn copy(&self) -> (same: CommandResponse)
        ensures
            same.said() == self.said(),
    {
        CommandResponse { status: self.status.clone(), message: self.message.clone() }
    }
}

/// The service may do better at another attempt: the request came too early or too late, there
/// were too many, or the service or one behind it is in trouble.
pub open spec fn transient_status(code: u16) -> bool {
    ||| code == 408
    ||| code == 425
    ||| code == 429
    ||| code == 500
    ||| 502 <= code <= 504
}

/// Whether the service may do better at another attempt.
pub fn is_transient_status(code: u16) -> (yes: bool)
    ensures
        yes == transient_status(code),
{
    code == 408 || code == 425 || code == 429 || code == 500 || (502 <= code && code <= 504)
}

/// What a worker said that was not expected.
pub open spec fn refusal(worker: Seq<char>, status: Seq<char>, message: Seq<char>) -> Seq<char> {
    if status == "ok"@ {
        "Worker "@ + worker + " returned unexpected ok message: "@ + message
    } else if status == "error"@ {
        "Worker "@ + worker + " error: "@ + message
    } else {
        "Worker "@ + worker + " returned unknown status '"@ + status + "': "@ + message
    }
}

pub(crate) fn refusal_text(worker_id: &str, status: &str, message: &str) -> (out: String)
    ensures
        out@ == refusal(worker_id@, status@, message@),
{
    let mut out: String = "Worker ".to_owned();
    out.append(worker_id);
    if str_eq(status, "ok") {
        out.append(" returned unexpected ok message: ");
    } else if str_eq(status, "error") {
        out.append(" error: ");
    } else {
        out.append(" returned unknown status '");
        out.append(status);
        out.append("': ");
    }
    out.append(message);
    out
}

/// The message of an answer that says that all went well, and how.
pub fn expect_ok_fragment(worker: &WorkerSpec, response: CommandResponse, ok_fragment: &str) -> (
result: Result<String, Failure>)
    ensures
        if response.status@ == "ok"@ && text::occurs(response.message@, ok_fragment@) {
            result is Ok && result->Ok_0@ == response.message@
        } else {
            result is Err && result->Err_0@ == failure::plain(
                refusal(worker.id@, response.status@, response.message@),
            )
        },
{
    if str_eq(response.status.as_str(), "ok") && contains(response.message.as_str(), ok_fragment) {
        return Ok(response.message);
    }
    Err(
        Failure::plain(
            refusal_text(
                worker.id.as_str(),
                response.status.as_str(),
                response.message.as_str(),
            ),
        ),
    )
}

/// For how long a worker is asked again where it is too early.
pub const UNTIL_OK_TIMEOUT_MS: u128 = 30_000;

/// The pause before a worker is asked again.
pub const UNTIL_OK_PAUSE_MS: u64 = 500;

/// What follows after an answer, where some errors mean that it is too early.
#[derive(Debug)]
pub enum UntilOk {
    Finished(String),
    AskAgain { delay_ms: u64 },
    Failed(Failure),
}

/// What follows after an answer, where an error with a given text means that it is too early.
pub fn check_until_ok(
    worker: &WorkerSpec,
    response: CommandResponse,
    ok_fragment: &str,
    retryable_error_fragment: &str,
) -> (next: UntilOk)
    ensures
        if response.status@ == "ok"@ && text::occurs(response.message@, ok_fragment@) {
            next is Finished && next->Finished_0@ == response.message@
        } else if response.status@ == "error"@ && text::occurs(
            response.message@,
            retryable_error_fragment@,
        ) {
            next is AskAgain && next->delay_ms == UNTIL_OK_PAUSE_MS
        } else {
            next is Failed && next->Failed_0@ == failure::plain(
                refusal(worker.id@, response.status@, response.message@),
            )
        },
{
    proof {
        reveal_strlit("ok");
        reveal_strlit("error");
        assert("ok"@.len() != "error"@.len());
    }
    if str_eq(response.status.as_str(), "ok") && contains(response.message.as_str(), ok_fragment) {
        return UntilOk::Finished(response.message);
    }
    if str_eq(response.status.as_str(), "error") && contains(
        response.message.as_str(),
        retryable_error_fragment,
    ) {
        return UntilOk::AskAgain { delay_ms: UNTIL_OK_PAUSE_MS };
    }
    UntilOk::Failed(
        Failure::plain(
            refusal_text(
                worker.id.as_str(),
                response.status.as_str(),
                response.message.as_str(),
            ),
        ),
    )
}

/// Whether a worker is asked, so long after it was asked first, and the failure where it was never
/// ready in time.
pub fn until_ok_due(worker: &WorkerSpec, ok_fragment: &str, elapsed_ms: u128) -> (due: Result<
    (),
    Failure,
>)
    ensures
        if elapsed_ms < UNTIL_OK_TIMEOUT_MS {
            due is Ok
        } else {
            due is Err && due->Err_0@ == failure::plain(
                "Timeout waiting for ok fragment '"@ + ok_fragment@ + "' from worker "@
                    + worker.id@,
            )
        },
{
    if elapsed_ms < UNTIL_OK_TIMEOUT_MS {
        return Ok(());
    }
    let mut out: String = "Timeout waiting for ok fragment '".to_owned();
    out.append(ok_fragment);
    out.append("' from worker ");
    out.append(worker.id.as_str());
    Err(Failure::plain(out))
}

/// The command lost against another commit and waits for its turn.
pub open spec fn queued_epoch_race(message: Seq<char>) -> bool {
    text::occurs(message, "lost the epoch race"@) && text::occurs(message, "queued for retry"@)
}

/// Whether the command lost against another commit and waits for its turn.
pub fn is_queued_epoch_race_message(message: &str) -> (yes: bool)
    ensures
        yes == queued_epoch_race(message@),
{
    contains(message, "lost the epoch race") && contains(message, "queued for retry")
}

/// A removal that had to wait was made up for.
pub open spec fn removal_republished(message: Seq<char>) -> bool {
    text::occurs(message, "queued remove_members"@) && text::occurs(
        message,
        "was retried and published"@,
    )
}

/// Whether a removal that had to wait was made up for.
pub fn queued_remove_members_republished(message: &str) -> (yes: bool)
    ensures
        yes == removal_republished(message@),
{
    contains(message, "queued remove_members") && contains(message, "was retried and published")
}

// ---------------------------------------------------------------------------
// Group state
// ---------------------------------------------------------------------------

/// What a member knows of its group.
#[derive(Debug)]
pub struct GroupStateSnapshot {
    pub group_id: String,
    pub epoch: u64,
    pub members: Vec<String>,
}

/// What a member knows of its group.
#[verifier::ext_equal]
pub struct StateView {
    pub group_id: Seq<char>,
    pub epoch: u64,
    pub members: Seq<Seq<char>>,
}

impl View for GroupStateSnapshot {
    type V = StateView;

    open spec fn view(&self) -> StateView {
        StateView {
            group_id: self.group_id@,
            epoch: self.epoch,
            members: text::texts(self.members@),
        }
    }
}

impl Clone for GroupStateSnapshot {
    fn clone(&self) -> (copy: GroupStateSnapshot)
        ensures
            copy@ == self@,
    {
        GroupStateSnapshot {
            group_id: self.group_id.clone(),
            epoch: self.epoch,
            members: copy_texts(&self.members),
        }
    }
}

/// Why a group state could not be read.
#[derive(Debug)]
pub enum GroupStateError {
    Unexpected { message: String },
    NoEpoch { message: String },
    NoMembers { message: String },
    BadEpoch { epoch: String, message: String },
    BadMembers { members: String, message: String },
}

impl GroupStateError {
    /// The error as it is shown.
    pub open spec fn shown(self) -> Seq<char> {
        match self {
            GroupStateError::Unexpected { message } => "Unexpected show_group_state message: "@
                + message@,
            GroupStateError::NoEpoch { message } => "Missing epoch in show_group_state message: "@
                + message@,
            GroupStateError::NoMembers { message } => "Missing members in show_group_state message: "@
                + message@,
            GroupStateError::BadEpoch { epoch, message } => "Invalid epoch '"@ + epoch@ + "' in '"@
                + message@ + "'"@,
            GroupStateError::BadMembers { members, message } => "Invalid members list '"@ + members@
                + "' in '"@ + message@ + "'"@,
        }
    }

    /// The error as it is shown.
    pub fn message(&self) -> (out: String)
        ensures
            out@ == self.shown(),
    {
        match self {
            GroupStateError::Unexpected { message } => {
                let mut out: String = "Unexpected show_group_state message: ".to_owned();
                out.append(message.as_str());
                out
            },
            GroupStateError::NoEpoch { message } => {
                let mut out: String = "Missing epoch in show_group_state message: ".to_owned();
                out.append(message.as_str());
                out
            },
            GroupStateError::NoMembers { message } => {
                let mut out: String = "Missing members in show_group_state message: ".to_owned();
                out.append(message.as_str());
                out
            },
            GroupStateError::BadEpoch { epoch, message } => {
                let mut out: String = "Invalid epoch '".to_owned();
                out.append(epoch.as_str());
                out.append("' in '");
                out.append(message.as_str());
                out.append("'");
                out
            },
            GroupStateError::BadMembers { members, message } => {
                let mut out: String = "Invalid members list '".to_owned();
                out.append(members.as_str());
                out.append("' in '");
                out.append(message.as_str());
                out.append("'");
                out
            },
        }
    }
}

/// `serde_json`'s error, of which nothing is known here.
#[verifier::external_type_specification]
#[verifier::external_body]
pub struct ExJsonError(serde_json::Error);

/// The texts that a JSON list of texts holds, or nothing where it is none.
pub uninterp spec fn json_texts(s: Seq<char>) -> Option<Seq<Seq<char>>>;

/// `serde_json::from_str` for a list of texts: what it returns is a function of the JSON text.
#[verifier::external_body]
fn parse_json_texts(s: &str) -> (result: Result<Vec<String>, serde_json::Error>)
    ensures
        match result {
            Ok(list) => json_texts(s@) == Some(text::texts(list@)),
            Err(_) => json_texts(s@) is None,
        },
{
    serde_json::from_str::<Vec<String>>(s)
}

/// The parts of a message that tells a group's state: what stands for the group, for the epoch and
/// for the members.
pub open spec fn state_parts(
    message: Seq<char>,
    group: Seq<char>,
    epoch: Seq<char>,
    members: Seq<char>,
) -> bool {
    &&& text::has_prefix(message, "group_id="@)
    &&& ({
        let rest = message.skip("group_id="@.len() as int);
        exists|at: int| #[trigger]
            text::first_at(rest, ", epoch="@, at) && group == rest.take(at) && {
                let after = rest.skip(at + ", epoch="@.len());
                exists|to: int| #[trigger]
                    text::first_at(after, ", members="@, to) && epoch == after.take(to) && members
                        == after.skip(to + ", members="@.len())
            }
    })
}

/// The state that a message tells, given what its list of members holds.
pub open spec fn state_meant(
    message: Seq<char>,
    group: Seq<char>,
    epoch: Seq<char>,
    members: Seq<char>,
    listed: Option<Seq<Seq<char>>>,
    result: Result<GroupStateSnapshot, GroupStateError>,
) -> bool {
    match text::spelled_up_to(epoch, u64::MAX as nat) {
        None => result is Err && result->Err_0 is BadEpoch && result->Err_0->BadEpoch_epoch@
            == epoch && result->Err_0->BadEpoch_message@ == message,
        Some(number) => match listed {
            None => result is Err && result->Err_0 is BadMembers
                && result->Err_0->BadMembers_members@ == members
                && result->Err_0->BadMembers_message@ == message,
            Some(list) => result is Ok && result->Ok_0@ == (StateView {
                group_id: group,
                epoch: number as u64,
                members: order::ascending(list),
            }),
        },
    }
}

/// Puts the parts of a message together to the state it tells.
pub fn group_state_from_parts(
    message: &str,
    group_id: &str,
    epoch: &str,
    members: &str,
    listed: Option<Vec<String>>,
) -> (result: Result<GroupStateSnapshot, GroupStateError>)
    ensures
        state_meant(
            message@,
            group_id@,
            epoch@,
            members@,
            match listed {
                Some(list) => Some(text::texts(list@)),
                None => None,
            },
            result,
        ),
{
    let number: u64 = match parse_u64(epoch) {
        Some(number) => number,
        None => {
            return Err(
                GroupStateError::BadEpoch {
                    epoch: epoch.to_owned(),
                    message: message.to_owned(),
                },
            );
        },
    };
    match listed {
        None => Err(
            GroupStateError::BadMembers {
                members: members.to_owned(),
                message: message.to_owned(),
            },
        ),
        Some(list) => Ok(
            GroupStateSnapshot {
                group_id: group_id.to_owned(),
                epoch: number,
                members: sort_texts(&list),
            },
        ),
    }
}

/// Reads the state of a group from a message such as `group_id=a, epoch=3, members=["x"]`.
pub fn parse_group_state_message(message: &str) -> (result: Result<
    GroupStateSnapshot,
    GroupStateError,
>)
    ensures
        result is Err && result->Err_0 is Unexpected <==> !text::has_prefix(
            message@,
            "group_id="@,
        ),
        result is Err && result->Err_0 is NoEpoch ==> text::has_prefix(message@, "group_id="@)
            && !text::occurs(message@.skip("group_id="@.len() as int), ", epoch="@),
        result is Err && result->Err_0 is NoMembers ==> text::has_prefix(message@, "group_id="@)
            && exists|at: int| #[trigger]
            text::first_at(message@.skip("group_id="@.len() as int), ", epoch="@, at)
                && !text::occurs(
                message@.skip("group_id="@.len() as int).skip(at + ", epoch="@.len()),
                ", members="@,
            ),
        result is Err && result->Err_0 is Unexpected ==> result->Err_0->Unexpected_message@
            == message@,
        result is Err && result->Err_0 is NoEpoch ==> result->Err_0->NoEpoch_message@ == message@,
        result is Err && result->Err_0 is NoMembers ==> result->Err_0->NoMembers_message@
            == message@,
        result is Ok || result->Err_0 is BadEpoch || result->Err_0 is BadMembers ==> exists|
            group: Seq<char>,
            epoch: Seq<char>,
            members: Seq<char>,
        | #[trigger]
            state_parts(message@, group, epoch, members) && state_meant(
                message@,
                group,
                epoch,
                members,
                json_texts(members),
                result,
            ),
{
    let rest: String = match strip_prefix(message, "group_id=") {
        Some(rest) => rest,
        None => {
            return Err(GroupStateError::Unexpected { message: message.to_owned() });
        },
    };
    let (group_id, after): (String, String) = match split_once(rest.as_str(), ", epoch=") {
        Some(parts) => parts,
        None => {
            return Err(GroupStateError::NoEpoch { message: message.to_owned() });
        },
    };
    let ghost at = choose|at: int|
        {
            &&& #[trigger] text::first_at(rest@, ", epoch="@, at)
            &&& group_id@ == rest@.take(at)
            &&& after@ == rest@.skip(at + ", epoch="@.len())
        };
    let (epoch, members): (String, String) = match split_once(after.as_str(), ", members=") {
        Some(parts) => parts,
        None => {
            return Err(GroupStateError::NoMembers { message: message.to_owned() });
        },
    };
    let ghost to = choose|to: int|
        {
            &&& #[trigger] text::first_at(after@, ", members="@, to)
            &&& epoch@ == after@.take(to)
            &&& members@ == after@.skip(to + ", members="@.len())
        };
    let listed: Option<Vec<String>> = match parse_json_texts(members.as_str()) {
        Ok(list) => Some(list),
        Err(_) => None,
    };
    assert(text::first_at(rest@, ", epoch="@, at));
    assert(text::first_at(after@, ", members="@, to));
    assert(state_parts(message@, group_id@, epoch@, members@));
    group_state_from_parts(
        message,
        group_id.as_str(),
        epoch.as_str(),
        members.as_str(),
        listed,
    )
}

// ---------------------------------------------------------------------------
// What is told of a request that failed
// ---------------------------------------------------------------------------

/// What a request that failed tells of itself.
#[derive(Debug)]
pub struct RequestTrouble {
    pub top_level: String,
    pub is_connect: bool,
    pub is_timeout: bool,
    pub is_request: bool,
    pub is_body: bool,
    pub status: Option<String>,
    /// What lies behind the failure, from the nearest cause on.
    pub sources: Vec<String>,
}

/// A truth value as text.
pub open spec fn truth(value: bool) -> Seq<char> {
    if value {
        "true"@
    } else {
        "false"@
    }
}

/// A truth value as text.
fn truth_text(value: bool) -> (out: &'static str)
    ensures
        out@ == truth(value),
{
    if value {
        "true"
    } else {
        "false"
    }
}

/// A cause behind a failure as it is shown.
pub open spec fn source_shown(at: nat, source: Seq<char>) -> Seq<char> {
    "source["@ + text::decimal(at) + "]="@ + source
}

impl RequestTrouble {
    /// How far the request came.
    pub open spec fn stage(self) -> Seq<char> {
        if self.is_connect {
            "connect"@
        } else if self.is_timeout {
            "timeout while connecting, writing request, or waiting for response"@
        } else if self.is_body {
            "reading response body"@
        } else if self.is_request {
            "writing request or waiting for response headers"@
        } else {
            "unknown"@
        }
    }

    /// How far the request came.
    pub fn inferred_stage(&self) -> (stage: &'static str)
        ensures
            stage@ == self.stage(),
    {
        if self.is_connect {
            "connect"
        } else if self.is_timeout {
            "timeout while connecting, writing request, or waiting for response"
        } else if self.is_body {
            "reading response body"
        } else if self.is_request {
            "writing request or waiting for response headers"
        } else {
            "unknown"
        }
    }

    /// What is told, part by part.
    pub open spec fn parts(self) -> Seq<Seq<char>> {
        seq![
            "top_level="@ + self.top_level@,
            "is_connect="@ + truth(self.is_connect),
            "is_timeout="@ + truth(self.is_timeout),
            "is_request="@ + truth(self.is_request),
            "is_body="@ + truth(self.is_body),
            "status="@ + (match self.status {
                Some(status) => status@,
                None => "-"@,
            }),
            "inferred_stage="@ + self.stage(),
        ] + Seq::new(self.sources@.len(), |i: int| source_shown(i as nat, self.sources@[i]@))
    }

    /// What is told of the failure.
    pub fn diagnostic(&self) -> (out: String)
        ensures
            out@ == text::joined(self.parts(), "; "@),
    {
        let status: &str = match &self.status {
            Some(status) => status.as_str(),
            None => "-",
        };
        let mut parts: Vec<String> = Vec::new();
        parts.push(labelled("top_level=", self.top_level.as_str()));
        parts.push(labelled("is_connect=", truth_text(self.is_connect)));
        parts.push(labelled("is_timeout=", truth_text(self.is_timeout)));
        parts.push(labelled("is_request=", truth_text(self.is_request)));
        parts.push(labelled("is_body=", truth_text(self.is_body)));
        parts.push(labelled("status=", status));
        parts.push(labelled("inferred_stage=", self.inferred_stage()));
        let ghost all = self.parts();
        assert(text::texts(parts@) =~= all.take(7));
        let mut i: usize = 0;
        while i < self.sources.len()
            invariant
                i <= self.sources@.len(),
                all == self.parts(),
                text::texts(parts@) == all.take(7 + i),
            decreases self.sources@.len() - i,
        {
            let mut part: String = "source[".to_owned();
            part.append(decimal_text(i as u128).as_str());
            part.append("]=");
            part.append(self.sources[i].as_str());
            assert(all[7 + i] == source_shown(i as nat, self.sources@[i as int]@));
            assert(part@ =~= all[7 + i]);
            assert(all.take(7 + i + 1) =~= all.take(7 + i).push(part@));
            assert(text::texts(parts@.push(part)) =~= text::texts(parts@).push(part@));
            parts.push(part);
            i = i + 1;
        }
        assert(all.take(7 + i) =~= all);
        text::join(&parts, "; ")
    }
}

/// A text behind a label.
fn labelled(label: &str, value: &str) -> (out: String)
    ensures
        out@ == label@ + value@,
{
    let mut out: String = label.to_owned();
    out.append(value);
    out
}

/// A command is done with once it is answered. Without an answer it is sent again, unchanged, exactly
/// where that may help and it was not sent often enough already; otherwise it fails, with the worker, the
/// command, the request and the number of attempts. Each pause is twice as long as the one before, up to
/// the longest.
pub proof fn law_attempts(
    attempts: CommandAttempts,
    outcome: SendOutcome,
    after: CommandAttempts,
    step: SendStep,
    pause_ms: u64,
)
    requires
        attempts.wf(),
        attempts.next(outcome, after, step, pause_ms),
    ensures
        ({
            let may_help = match outcome {
                SendOutcome::NotSent { retryable, .. } => retryable,
                SendOutcome::BadStatus { transient, .. } => transient,
                SendOutcome::Unreadable { transient, .. } => transient,
                SendOutcome::Answered => false,
            };
            &&& step is Finished <==> outcome is Answered
            &&& step is Retry <==> may_help && attempts.attempt < WORKER_COMMAND_MAX_ATTEMPTS
            &&& step is Retry ==> {
                &&& step->delay_ms == pause_ms
                &&& after.attempt == attempts.attempt + 1
                &&& after.worker_id == attempts.worker_id
                &&& after.command == attempts.command
                &&& after.url == attempts.url
                &&& after.request_id == attempts.request_id
                &&& after.delay_ms == 2 * attempts.delay_ms || (after.delay_ms
                    == WORKER_COMMAND_MAX_DELAY_MS && 2 * attempts.delay_ms
                    > WORKER_COMMAND_MAX_DELAY_MS)
                &&& after.delay_ms >= attempts.delay_ms
            }
            &&& step matches SendStep::Failed(error) ==> {
                &&& error.worker_id@ == attempts.worker_id@
                &&& error.command@ == attempts.command@
                &&& error.url@ == attempts.url@
                &&& error.request_id@ == attempts.request_id@
                &&& error.attempts == attempts.attempt
                &&& after == attempts
            }
        }),
{
}

/// A text that no comma stands in is followed by a mark that begins with one: the mark is found there
/// first.
proof fn lemma_mark_found(front: Seq<char>, mark: Seq<char>, back: Seq<char>)
    requires
        mark.len() > 0,
        mark[0] == ',',
        forall|i: int| 0 <= i < front.len() ==> #[trigger] front[i] != ',',
    ensures
        text::first_at(front + mark + back, mark, front.len() as int),
        (front + mark + back).take(front.len() as int) == front,
        (front + mark + back).skip((front.len() + mark.len()) as int) == back,
        forall|at: int| #[trigger]
            text::first_at(front + mark + back, mark, at) ==> at == front.len(),
{
    let whole = front + mark + back;
    let end = front.len() as int;
    assert(whole.subrange(end, end + mark.len()) =~= mark);
    assert forall|before: int| 0 <= before < end implies !text::occurs_at(whole, mark, before) by {
        if text::occurs_at(whole, mark, before) {
            assert(whole.subrange(before, before + mark.len())[0] == whole[before]);
            assert(whole[before] == front[before]);
        }
    }
    assert(whole.take(end) =~= front);
    assert(whole.skip((front.len() + mark.len()) as int) =~= back);
    assert forall|at: int| #[trigger] text::first_at(whole, mark, at) implies at == end by {
        if at < end {
            assert(!text::occurs_at(whole, mark, at));
        } else if end < at {
            assert(text::occurs_at(whole, mark, end));
        }
    }
}

/// A message that tells the state of a group is read back: the group, as long as no comma stands in its
/// name, the epoch and the list of members are those that it was put together from.
pub proof fn law_state_reads_back(
    group: Seq<char>,
    epoch: u64,
    members: Seq<char>,
    a: Seq<char>,
    b: Seq<char>,
    c: Seq<char>,
)
    requires
        forall|i: int| 0 <= i < group.len() ==> #[trigger] group[i] != ',',
    ensures
        ({
            let message = "group_id="@ + group + ", epoch="@ + text::decimal(epoch as nat)
                + ", members="@ + members;
            &&& state_parts(message, group, text::decimal(epoch as nat), members)
            &&& state_parts(message, a, b, c) ==> a == group && b == text::decimal(epoch as nat)
                && c == members
            &&& text::spelled_up_to(text::decimal(epoch as nat), u64::MAX as nat) == Some(
                epoch as nat,
            )
        }),
{
    let digits = text::decimal(epoch as nat);
    let message = "group_id="@ + group + ", epoch="@ + digits + ", members="@ + members;
    reveal_strlit("group_id=");
    reveal_strlit(", epoch=");
    reveal_strlit(", members=");
    text::law_decimal_reads_back(epoch as nat);
    assert forall|i: int| 0 <= i < digits.len() implies #[trigger] digits[i] != ',' by {
        assert(text::is_digit(digits[i]));
    }
    let tail = digits + ", members="@ + members;
    let rest = group + ", epoch="@ + tail;
    assert(message =~= "group_id="@ + rest);
    assert(message.subrange(0, "group_id="@.len() as int) =~= "group_id="@);
    assert(message.skip("group_id="@.len() as int) =~= rest);
    lemma_mark_found(group, ", epoch="@, tail);
    lemma_mark_found(digits, ", members="@, members);
    assert(text::first_at(rest, ", epoch="@, group.len() as int));
    assert(text::first_at(tail, ", members="@, digits.len() as int));
}

} // verus!
