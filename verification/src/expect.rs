//! Making sure that a worker handled a commit: by its answer, or by the state it is in afterwards.

use vstd::prelude::*;

use crate::command;
use crate::command::{Command, CommitSampling, PendingKind};
use crate::failure;
use crate::failure::{is_ambiguous, is_resource_budget_failure, Failure};
use crate::order;
use crate::order::sort_texts;
use crate::text;
use crate::text::{contains, copy_texts, decimal_text, str_eq};
use crate::transport;
use crate::transport::GroupStateSnapshot;
use crate::workers::WorkerSpec;

verus! {

// ---------------------------------------------------------------------------
// What is expected
// ---------------------------------------------------------------------------

/// The state that a group is expected to be in.
#[derive(Debug)]
pub struct ExpectedGroupState {
    pub group_id: String,
    pub epoch: u64,
    pub members: Vec<String>,
}

impl View for ExpectedGroupState {
    type V = transport::StateView;

    open spec fn view(&self) -> transport::StateView {
        transport::StateView {
            group_id: self.group_id@,
            epoch: self.epoch,
            members: text::texts(self.members@),
        }
    }
}

impl Clone for ExpectedGroupState {
    fn clone(&self) -> (copy: ExpectedGroupState)
        ensures
            copy@ == self@,
    {
        ExpectedGroupState {
            group_id: self.group_id.clone(),
            epoch: self.epoch,
            members: copy_texts(&self.members),
        }
    }
}

/// Whether two lists hold the same texts.
pub fn same_texts(a: &Vec<String>, b: &Vec<String>) -> (same: bool)
    ensures
        same == (text::texts(a@) == text::texts(b@)),
{
    if a.len() != b.len() {
        assert(text::texts(a@).len() != text::texts(b@).len());
        return false;
    }
    let mut i: usize = 0;
    while i < a.len()
        invariant
            i <= a@.len() == b@.len(),
            forall|j: int| 0 <= j < i ==> (#[trigger] a@[j])@ == b@[j]@,
        decreases a@.len() - i,
    {
        if !str_eq(a[i].as_str(), b[i].as_str()) {
            assert(text::texts(a@)[i as int] != text::texts(b@)[i as int]);
            return false;
        }
        i = i + 1;
    }
    assert(text::texts(a@) =~= text::texts(b@));
    true
}

impl ExpectedGroupState {
    /// The state that a snapshot shows.
    pub fn from_snapshot(snapshot: GroupStateSnapshot) -> (state: ExpectedGroupState)
        ensures
            state@ == snapshot@,
    {
        ExpectedGroupState {
            group_id: snapshot.group_id,
            epoch: snapshot.epoch,
            members: snapshot.members,
        }
    }

    /// Whether a snapshot shows the expected state.
    pub fn matches(&self, snapshot: &GroupStateSnapshot) -> (yes: bool)
        ensures
            yes == (self@ == snapshot@),
    {
        str_eq(self.group_id.as_str(), snapshot.group_id.as_str()) && self.epoch == snapshot.epoch
            && same_texts(&self.members, &snapshot.members)
    }
}

/// The state of the group that a snapshot shows, at another epoch and with other members.
pub fn expected_group_state(reference: &GroupStateSnapshot, epoch: u64, members: &Vec<String>) -> (
state: ExpectedGroupState)
    ensures
        state@ == (transport::StateView {
            group_id: reference@.group_id,
            epoch: epoch,
            members: order::ascending(text::texts(members@)),
        }),
{
    ExpectedGroupState {
        group_id: reference.group_id.clone(),
        epoch: epoch,
        members: sort_texts(members),
    }
}

/// What a worker is expected to know after a commit.
#[derive(Debug)]
pub enum ExpectedReceiveCommitState {
    Group(ExpectedGroupState),
    Removed { expected_epoch: u64 },
}

/// What a worker is expected to know after a commit.
pub enum ExpectedView {
    Group(transport::StateView),
    Removed { expected_epoch: u64 },
}

impl View for ExpectedReceiveCommitState {
    type V = ExpectedView;

    open spec fn view(&self) -> ExpectedView {
        match self {
            ExpectedReceiveCommitState::Group(state) => ExpectedView::Group(state@),
            ExpectedReceiveCommitState::Removed { expected_epoch } => ExpectedView::Removed {
                expected_epoch: *expected_epoch,
            },
        }
    }
}

impl Clone for ExpectedReceiveCommitState {
    fn clone(&self) -> (copy: ExpectedReceiveCommitState)
        ensures
            copy@ == self@,
    {
        match self {
            ExpectedReceiveCommitState::Group(state) => ExpectedReceiveCommitState::Group(
                state.clone(),
            ),
            ExpectedReceiveCommitState::Removed {
                expected_epoch,
            } => ExpectedReceiveCommitState::Removed { expected_epoch: *expected_epoch },
        }
    }
}

impl ExpectedView {
    /// The epoch that the commit leads to.
    pub open spec fn epoch(self) -> u64 {
        match self {
            ExpectedView::Group(state) => state.epoch,
            ExpectedView::Removed { expected_epoch } => expected_epoch,
        }
    }
}

/// The epoch that the commit leads to.
pub fn expected_epoch(expected: &ExpectedReceiveCommitState) -> (epoch: Option<u64>)
    ensures
        epoch == Some(expected@.epoch()),
{
    match expected {
        ExpectedReceiveCommitState::Group(state) => Some(state.epoch),
        ExpectedReceiveCommitState::Removed { expected_epoch } => Some(*expected_epoch),
    }
}

// ---------------------------------------------------------------------------
// What the state tells
// ---------------------------------------------------------------------------

/// A list of texts as it is shown for debugging.
pub uninterp spec fn debug_shown(list: Seq<Seq<char>>) -> Seq<char>;

/// `format!` with `{:?}` on a list of texts: what it returns is a function of the texts.
#[verifier::external_body]
pub(crate) fn debug_texts(list: &Vec<String>) -> (out: String)
    ensures
        out@ == debug_shown(text::texts(list@)),
{
    format!("{:?}", list)
}

/// A state as it is shown.
pub open spec fn state_shown(state: transport::StateView) -> Seq<char> {
    "group_id="@ + state.group_id + " epoch="@ + text::decimal(state.epoch as nat) + " members="@
        + debug_shown(state.members)
}

fn state_text(group_id: &str, epoch: u64, members: &Vec<String>) -> (out: String)
    ensures
        out@ == state_shown(
            transport::StateView {
                group_id: group_id@,
                epoch: epoch,
                members: text::texts(members@),
            },
        ),
{
    let mut out: String = "group_id=".to_owned();
    out.append(group_id);
    out.append(" epoch=");
    out.append(decimal_text(epoch as u128).as_str());
    out.append(" members=");
    out.append(debug_texts(members).as_str());
    out
}

/// What a worker's state, or the failure to learn it, is.
pub open spec fn observed_view(observed: Result<GroupStateSnapshot, Failure>) -> Result<
    transport::StateView,
    failure::FailureView,
> {
    match observed {
        Ok(snapshot) => Ok(snapshot@),
        Err(error) => Err(error@),
    }
}

/// A worker that was to be removed has no group any more.
pub open spec fn is_out(expected: ExpectedView, error: failure::FailureView) -> bool {
    expected is Removed && text::occurs(error.text(), "Client is not in a group"@)
}

/// What a worker's state tells about a commit that it may have missed: it has it, it lacks it, or
/// neither can be said.
pub open spec fn reconciled(
    worker: Seq<char>,
    expected: ExpectedView,
    observed: Result<transport::StateView, failure::FailureView>,
    original: Seq<char>,
) -> Result<bool, Seq<char>> {
    match observed {
        Ok(state) => match expected {
            ExpectedView::Group(wanted) => if wanted == state {
                Ok(true)
            } else if state.epoch < wanted.epoch {
                Ok(false)
            } else {
                Err(
                    "receive_commit ambiguous transport error could not be reconciled for worker "@
                        + worker + ": expected "@ + state_shown(wanted) + "; got "@ + state_shown(
                        state,
                    ) + "; original_error="@ + original,
                )
            },
            ExpectedView::Removed { expected_epoch } => Err(
                "receive_commit ambiguous transport error could not be reconciled for removed worker "@
                    + worker + ": expected removed after epoch "@ + text::decimal(
                    expected_epoch as nat,
                ) + ", but ShowGroupState still returned "@ + state_shown(state)
                    + "; original_error="@ + original,
            ),
        },
        Err(error) => if is_out(expected, error) {
            Ok(true)
        } else {
            Err(
                "receive_commit ambiguous transport error reconciliation could not query worker "@
                    + worker + " state: "@ + error.text() + "; original_error="@ + original,
            )
        },
    }
}

/// A verdict, with the failure where there is none.
pub open spec fn verdict_is(result: Result<bool, Failure>, meant: Result<bool, Seq<char>>) -> bool {
    match meant {
        Ok(yes) => result is Ok && result->Ok_0 == yes,
        Err(message) => result is Err && result->Err_0@ == failure::plain(message),
    }
}

/// What a worker's state tells about a commit that it may have missed.
pub fn receive_commit_reconciled_by_state(
    worker: &WorkerSpec,
    expected: &ExpectedReceiveCommitState,
    observed: &Result<GroupStateSnapshot, Failure>,
    original_error: &str,
) -> (result: Result<bool, Failure>)
    ensures
        verdict_is(
            result,
            reconciled(worker.id@, expected@, observed_view(*observed), original_error@),
        ),
{
    match observed {
        Ok(snapshot) => match expected {
            ExpectedReceiveCommitState::Group(wanted) => {
                if wanted.matches(snapshot) {
                    return Ok(true);
                }
                if snapshot.epoch < wanted.epoch {
                    return Ok(false);
                }
                let mut out: String =
                    "receive_commit ambiguous transport error could not be reconciled for worker ".to_owned();
                out.append(worker.id.as_str());
                out.append(": expected ");
                out.append(
                    state_text(wanted.group_id.as_str(), wanted.epoch, &wanted.members).as_str(),
                );
                out.append("; got ");
                out.append(
                    state_text(
                        snapshot.group_id.as_str(),
                        snapshot.epoch,
                        &snapshot.members,
                    ).as_str(),
                );
                out.append("; original_error=");
                out.append(original_error);
                Err(Failure::plain(out))
            },
            ExpectedReceiveCommitState::Removed { expected_epoch } => {
                let mut out: String =
                    "receive_commit ambiguous transport error could not be reconciled for removed worker ".to_owned();
                out.append(worker.id.as_str());
                out.append(": expected removed after epoch ");
                out.append(decimal_text(*expected_epoch as u128).as_str());
                out.append(", but ShowGroupState still returned ");
                out.append(
                    state_text(
                        snapshot.group_id.as_str(),
                        snapshot.epoch,
                        &snapshot.members,
                    ).as_str(),
                );
                out.append("; original_error=");
                out.append(original_error);
                Err(Failure::plain(out))
            },
        },
        Err(error) => {
            let shown: String = error.message();
            let removed: bool = match expected {
                ExpectedReceiveCommitState::Removed { expected_epoch: _ } => true,
                ExpectedReceiveCommitState::Group(_) => false,
            };
            if removed && contains(shown.as_str(), "Client is not in a group") {
                return Ok(true);
            }
            let mut out: String =
                "receive_commit ambiguous transport error reconciliation could not query worker ".to_owned();
            out.append(worker.id.as_str());
            out.append(" state: ");
            out.append(shown.as_str());
            out.append("; original_error=");
            out.append(original_error);
            Err(Failure::plain(out))
        },
    }
}

/// Whether a worker's state is the expected one, or why that cannot be said.
pub open spec fn reached(
    worker: Seq<char>,
    expected: ExpectedView,
    observed: Result<transport::StateView, failure::FailureView>,
) -> Result<bool, Seq<char>> {
    match observed {
        Ok(state) => match expected {
            ExpectedView::Group(wanted) => Ok(wanted == state),
            ExpectedView::Removed { expected_epoch } => Err(
                "worker "@ + worker + " was expected to be removed after epoch "@ + text::decimal(
                    expected_epoch as nat,
                ) + ", but ShowGroupState returned "@ + state_shown(state),
            ),
        },
        Err(error) => if is_out(expected, error) {
            Ok(true)
        } else {
            Err(
                "could not query worker "@ + worker + " state after ProcessPending: "@
                    + error.text(),
            )
        },
    }
}

/// Whether a worker's state is the expected one.
pub fn expected_receive_commit_state_reached(
    worker: &WorkerSpec,
    expected: &ExpectedReceiveCommitState,
    observed: &Result<GroupStateSnapshot, Failure>,
) -> (result: Result<bool, Failure>)
    ensures
        verdict_is(result, reached(worker.id@, expected@, observed_view(*observed))),
{
    match observed {
        Ok(snapshot) => match expected {
            ExpectedReceiveCommitState::Group(wanted) => Ok(wanted.matches(snapshot)),
            ExpectedReceiveCommitState::Removed { expected_epoch } => {
                let mut out: String = "worker ".to_owned();
                out.append(worker.id.as_str());
                out.append(" was expected to be removed after epoch ");
                out.append(decimal_text(*expected_epoch as u128).as_str());
                out.append(", but ShowGroupState returned ");
                out.append(
                    state_text(
                        snapshot.group_id.as_str(),
                        snapshot.epoch,
                        &snapshot.members,
                    ).as_str(),
                );
                Err(Failure::plain(out))
            },
        },
        Err(error) => {
            let shown: String = error.message();
            let removed: bool = match expected {
                ExpectedReceiveCommitState::Removed { expected_epoch: _ } => true,
                ExpectedReceiveCommitState::Group(_) => false,
            };
            if removed && contains(shown.as_str(), "Client is not in a group") {
                return Ok(true);
            }
            let mut out: String = "could not query worker ".to_owned();
            out.append(worker.id.as_str());
            out.append(" state after ProcessPending: ");
            out.append(shown.as_str());
            Err(Failure::plain(out))
        },
    }
}

// ---------------------------------------------------------------------------
// Handling a commit
// ---------------------------------------------------------------------------

/// How far the handling of a commit is.
#[derive(Debug)]
pub enum ExpectStage {
    /// The command is sent.
    Sending,
    /// The command was answered; the state is asked for.
    Confirming,
    /// The command failed; the state is asked for.
    Reconciling { original: String },
    /// The command is sent once more.
    Resending { original: String },
    /// It was answered this time; the state is asked for.
    Reconfirming,
    /// It failed again; the state is asked for.
    Rereconciling { original: String, again: String },
    /// Nothing is left to do.
    Over,
}

/// How far the handling of a commit is.
pub enum ExpectStageView {
    Sending,
    Confirming,
    Reconciling { original: Seq<char> },
    Resending { original: Seq<char> },
    Reconfirming,
    Rereconciling { original: Seq<char>, again: Seq<char> },
    Over,
}

impl View for ExpectStage {
    type V = ExpectStageView;

    open spec fn view(&self) -> ExpectStageView {
        match self {
            ExpectStage::Sending => ExpectStageView::Sending,
            ExpectStage::Confirming => ExpectStageView::Confirming,
            ExpectStage::Reconciling { original } => ExpectStageView::Reconciling {
                original: original@,
            },
            ExpectStage::Resending { original } => ExpectStageView::Resending {
                original: original@,
            },
            ExpectStage::Reconfirming => ExpectStageView::Reconfirming,
            ExpectStage::Rereconciling { original, again } => ExpectStageView::Rereconciling {
                original: original@,
                again: again@,
            },
            ExpectStage::Over => ExpectStageView::Over,
        }
    }
}

/// What happened.
#[derive(Debug)]
pub enum ExpectEvent {
    /// The command was answered as expected, or it failed.
    Sent(Result<(), Failure>),
    /// The worker's state, or the failure to learn it.
    State(Result<GroupStateSnapshot, Failure>),
}

/// What is done next.
#[derive(Debug)]
pub enum ExpectAction {
    /// Send the command, with the same request id each time.
    Send,
    /// Ask for the worker's state.
    ShowState,
    /// The handling is over.
    Done(Result<(), Failure>),
}

/// What is done next.
pub enum ExpectActionView {
    Send,
    ShowState,
    Done(Result<(), failure::FailureView>),
}

impl View for ExpectAction {
    type V = ExpectActionView;

    open spec fn view(&self) -> ExpectActionView {
        match self {
            ExpectAction::Send => ExpectActionView::Send,
            ExpectAction::ShowState => ExpectActionView::ShowState,
            ExpectAction::Done(Ok(())) => ExpectActionView::Done(Ok(())),
            ExpectAction::Done(Err(error)) => ExpectActionView::Done(Err(error@)),
        }
    }
}

/// The handling of a commit by one worker.
#[derive(Debug)]
pub struct CommitExpect {
    pub worker: WorkerSpec,
    pub expected: ExpectedReceiveCommitState,
    /// Whether the worker handles all that waits for it, rather than one commit.
    pub pending: bool,
    pub request_id: String,
    pub phase: String,
    pub stage: ExpectStage,
}

/// The whole text of a handling that failed twice.
pub open spec fn twice_failed(
    pending: bool,
    worker: Seq<char>,
    request_id: Seq<char>,
    phase: Seq<char>,
    original: Seq<char>,
    again: Seq<char>,
) -> Seq<char> {
    let what = if pending {
        "process_pending failed after reconciliation retry: worker="@
    } else {
        "receive_commit failed after ambiguous transport reconciliation retry: worker="@
    };
    what + worker + " request_id="@ + request_id + " phase="@ + phase + " initial_error="@
        + original + " retry_error="@ + again
}

impl CommitExpect {
    /// How far the handling is after an event, and what is done then.
    pub open spec fn after_event(self, event: ExpectEvent) -> (ExpectStageView, ExpectActionView) {
        let over = |result: Result<(), failure::FailureView>|
            (ExpectStageView::Over, ExpectActionView::Done(result));
        match (self.stage@, event) {
            (ExpectStageView::Sending, ExpectEvent::Sent(Ok(_))) => if self.pending {
                (ExpectStageView::Confirming, ExpectActionView::ShowState)
            } else {
                over(Ok(()))
            },
            (ExpectStageView::Sending, ExpectEvent::Sent(Err(error))) => if error@.out_of_budget()
                || (!self.pending && !error@.ambiguous()) {
                over(Err(error@))
            } else {
                (
                    ExpectStageView::Reconciling { original: error@.text() },
                    ExpectActionView::ShowState,
                )
            },
            (ExpectStageView::Confirming, ExpectEvent::State(observed)) => match reached(
                self.worker.id@,
                self.expected@,
                observed_view(observed),
            ) {
                Ok(true) => over(Ok(())),
                Ok(false) => over(
                    Err(
                        failure::plain(
                            "process_pending completed but worker "@ + self.worker.id@
                                + " did not reach expected state"@,
                        ),
                    ),
                ),
                Err(message) => over(Err(failure::plain(message))),
            },
            (ExpectStageView::Reconciling { original }, ExpectEvent::State(observed)) => match reconciled(
                self.worker.id@,
                self.expected@,
                observed_view(observed),
                original,
            ) {
                Ok(true) => over(Ok(())),
                Ok(false) => (
                    ExpectStageView::Resending { original: original },
                    ExpectActionView::Send,
                ),
                Err(message) => over(Err(failure::plain(message))),
            },
            (ExpectStageView::Resending { original }, ExpectEvent::Sent(Ok(_))) => if self.pending {
                (ExpectStageView::Reconfirming, ExpectActionView::ShowState)
            } else {
                over(Ok(()))
            },
            (
                ExpectStageView::Resending { original },
                ExpectEvent::Sent(Err(error)),
            ) => if error@.out_of_budget() {
                over(Err(error@))
            } else {
                (
                    ExpectStageView::Rereconciling { original: original, again: error@.text() },
                    ExpectActionView::ShowState,
                )
            },
            (ExpectStageView::Reconfirming, ExpectEvent::State(observed)) => match reached(
                self.worker.id@,
                self.expected@,
                observed_view(observed),
            ) {
                Ok(true) => over(Ok(())),
                Ok(false) => over(
                    Err(
                        failure::plain(
                            "process_pending retry completed but worker "@ + self.worker.id@
                                + " did not reach expected state"@,
                        ),
                    ),
                ),
                Err(message) => over(Err(failure::plain(message))),
            },
            (
                ExpectStageView::Rereconciling { original, again },
                ExpectEvent::State(observed),
            ) => match reconciled(
                self.worker.id@,
                self.expected@,
                observed_view(observed),
                again,
            ) {
                Ok(true) => over(Ok(())),
                Ok(false) => over(
                    Err(
                        failure::plain(
                            twice_failed(
                                self.pending,
                                self.worker.id@,
                                self.request_id@,
                                self.phase@,
                                original,
                                again,
                            ),
                        ),
                    ),
                ),
                Err(message) => over(Err(failure::plain(message))),
            },
            _ => (self.stage@, ExpectActionView::Send),
        }
    }

    /// The event is one that the stage waits for.
    pub open spec fn waits_for(self, event: ExpectEvent) -> bool {
        match self.stage@ {
            ExpectStageView::Sending => event is Sent,
            ExpectStageView::Confirming => event is State,
            ExpectStageView::Reconciling { original: _ } => event is State,
            ExpectStageView::Resending { original: _ } => event is Sent,
            ExpectStageView::Reconfirming => event is State,
            ExpectStageView::Rereconciling { original: _, again: _ } => event is State,
            ExpectStageView::Over => false,
        }
    }

    /// Two handlings of the same commit.
    pub open spec fn same_commit(self, other: CommitExpect) -> bool {
        &&& self.worker == other.worker
        &&& self.expected == other.expected
        &&& self.pending == other.pending
        &&& self.request_id == other.request_id
        &&& self.phase == other.phase
    }

    /// The first thing to do is to send the command.
    pub fn new(
        worker: &WorkerSpec,
        expected: ExpectedReceiveCommitState,
        pending: bool,
        request_id: &str,
        phase: &str,
    ) -> (handling: CommitExpect)
        ensures
            handling.worker == *worker,
            handling.expected == expected,
            handling.pending == pending,
            handling.request_id@ == request_id@,
            handling.phase@ == phase@,
            handling.stage@ == ExpectStageView::Sending,
    {
        CommitExpect {
            worker: worker.clone(),
            expected: expected,
            pending: pending,
            request_id: request_id.to_owned(),
            phase: phase.to_owned(),
            stage: ExpectStage::Sending,
        }
    }

    /// What the worker's answer has to hold for the handling to count.
    pub fn ok_fragment(&self) -> (fragment: &'static str)
        ensures
            fragment@ == (if self.pending {
                "process_pending processed;"@
            } else {
                "own commit accepted from DS"@
            }),
    {
        if self.pending {
            "process_pending processed;"
        } else {
            "own commit accepted from DS"
        }
    }

    /// The command that the worker is sent.
    pub fn command(&self) -> (command: Command)
        ensures
            command@ == (if self.pending {
                command::CommandView::ProcessPending {
                    kinds: Some(seq![PendingKind::Commits]),
                    max_messages: Some(8),
                    expected_epoch: Some(self.expected@.epoch()),
                    sampling: command::SamplingView::unmeasured(),
                }
            } else {
                command::CommandView::ReceiveCommit {
                    sampling: command::SamplingView::unmeasured(),
                }
            }),
    {
        if self.pending {
            let kinds: Vec<PendingKind> = vec![PendingKind::Commits];
            assert(kinds@ =~= seq![PendingKind::Commits]);
            Command::ProcessPending {
                kinds: Some(kinds),
                max_messages: Some(8),
                expected_epoch: expected_epoch(&self.expected),
                sampling: CommitSampling::unmeasured(),
            }
        } else {
            Command::ReceiveCommit { sampling: CommitSampling::unmeasured() }
        }
    }

    fn confirm(&self, observed: &Result<GroupStateSnapshot, Failure>, what: &str) -> (result: Result<
        (),
        Failure,
    >)
        ensures
            match reached(self.worker.id@, self.expected@, observed_view(*observed)) {
                Ok(true) => result is Ok,
                Ok(false) => result is Err && result->Err_0@ == failure::plain(
                    what@ + self.worker.id@ + " did not reach expected state"@,
                ),
                Err(message) => result is Err && result->Err_0@ == failure::plain(message),
            },
    {
        match expected_receive_commit_state_reached(&self.worker, &self.expected, observed) {
            Ok(true) => Ok(()),
            Ok(false) => {
                let mut out: String = what.to_owned();
                out.append(self.worker.id.as_str());
                out.append(" did not reach expected state");
                Err(Failure::plain(out))
            },
            Err(error) => Err(error),
        }
    }

    /// What is done after an event.
    pub fn step(&mut self, event: ExpectEvent) -> (action: ExpectAction)
        requires
            old(self).waits_for(event),
        ensures
            final(self).same_commit(*old(self)),
            (final(self).stage@, action@) == old(self).after_event(event),
    {
        let mut stage: ExpectStage = ExpectStage::Over;
        std::mem::swap(&mut stage, &mut self.stage);
        match (stage, event) {
            (ExpectStage::Sending, ExpectEvent::Sent(Ok(_))) => {
                if self.pending {
                    self.stage = ExpectStage::Confirming;
                    ExpectAction::ShowState
                } else {
                    ExpectAction::Done(Ok(()))
                }
            },
            (ExpectStage::Sending, ExpectEvent::Sent(Err(error))) => {
                if is_resource_budget_failure(&error) || (!self.pending && !is_ambiguous(&error)) {
                    ExpectAction::Done(Err(error))
                } else {
                    self.stage = ExpectStage::Reconciling { original: error.message() };
                    ExpectAction::ShowState
                }
            },
            (ExpectStage::Confirming, ExpectEvent::State(observed)) => {
                ExpectAction::Done(
                    self.confirm(&observed, "process_pending completed but worker "),
                )
            },
            (ExpectStage::Reconciling { original }, ExpectEvent::State(observed)) => {
                match receive_commit_reconciled_by_state(
                    &self.worker,
                    &self.expected,
                    &observed,
                    original.as_str(),
                ) {
                    Ok(true) => ExpectAction::Done(Ok(())),
                    Ok(false) => {
                        self.stage = ExpectStage::Resending { original: original };
                        ExpectAction::Send
                    },
                    Err(error) => ExpectAction::Done(Err(error)),
                }
            },
            (ExpectStage::Resending { original: _ }, ExpectEvent::Sent(Ok(_))) => {
                if self.pending {
                    self.stage = ExpectStage::Reconfirming;
                    ExpectAction::ShowState
                } else {
                    ExpectAction::Done(Ok(()))
                }
            },
            (ExpectStage::Resending { original }, ExpectEvent::Sent(Err(error))) => {
                if is_resource_budget_failure(&error) {
                    ExpectAction::Done(Err(error))
                } else {
                    self.stage = ExpectStage::Rereconciling {
                        original: original,
                        again: error.message(),
                    };
                    ExpectAction::ShowState
                }
            },
            (ExpectStage::Reconfirming, ExpectEvent::State(observed)) => {
                ExpectAction::Done(
                    self.confirm(&observed, "process_pending retry completed but worker "),
                )
            },
            (ExpectStage::Rereconciling { original, again }, ExpectEvent::State(observed)) => {
                match receive_commit_reconciled_by_state(
                    &self.worker,
                    &self.expected,
                    &observed,
                    again.as_str(),
                ) {
                    Ok(true) => ExpectAction::Done(Ok(())),
                    Ok(false) => {
                        let mut out: String = if self.pending {
                            "process_pending failed after reconciliation retry: worker=".to_owned()
                        } else {
                            "receive_commit failed after ambiguous transport reconciliation retry: worker=".to_owned()
                        };
                        out.append(self.worker.id.as_str());
                        out.append(" request_id=");
                        out.append(self.request_id.as_str());
                        out.append(" phase=");
                        out.append(self.phase.as_str());
                        out.append(" initial_error=");
                        out.append(original.as_str());
                        out.append(" retry_error=");
                        out.append(again.as_str());
                        ExpectAction::Done(Err(Failure::plain(out)))
                    },
                    Err(error) => ExpectAction::Done(Err(error)),
                }
            },
            (stage, _) => {
                self.stage = stage;
                ExpectAction::Send
            },
        }
    }
}

/// How many events a handling waits for at most.
pub open spec fn events_left(stage: ExpectStageView) -> nat {
    match stage {
        ExpectStageView::Sending => 4,
        ExpectStageView::Reconciling { original: _ } => 3,
        ExpectStageView::Resending { original: _ } => 2,
        ExpectStageView::Confirming => 1,
        ExpectStageView::Reconfirming => 1,
        ExpectStageView::Rereconciling { original: _, again: _ } => 1,
        ExpectStageView::Over => 0,
    }
}

/// Every event brings a handling closer to its end, and the command is sent again only once: when
/// the worker's state shows that it lacks the commit.
pub proof fn law_handling_ends(handling: CommitExpect, event: ExpectEvent)
    requires
        handling.waits_for(event),
    ensures
        events_left(handling.after_event(event).0) < events_left(handling.stage@),
        handling.after_event(event).1 == ExpectActionView::Send <==> handling.after_event(
            event,
        ).0 is Resending,
        handling.after_event(event).0 is Resending ==> handling.stage@ is Reconciling,
        handling.after_event(event).1 is Done <==> handling.after_event(event).0 is Over,
{
}

/// What follows when a worker did not confirm that it got a message.
#[derive(Debug)]
pub enum MessageExpect {
    /// It did.
    Done,
    /// The same request is sent once more.
    SendAgain { original: String },
    /// It failed.
    Failed(Failure),
}

/// What follows after the first request to take a message: it is sent once more where the worker
/// may have taken it all the same.
pub fn receive_application_message_expect(sent: Result<(), Failure>) -> (next: MessageExpect)
    ensures
        match sent {
            Ok(_) => next is Done,
            Err(error) => if error@.ambiguous() {
                next is SendAgain && next->original@ == error@.text()
            } else {
                next is Failed && next->Failed_0 == error
            },
        },
{
    match sent {
        Ok(_) => MessageExpect::Done,
        Err(error) => {
            if is_ambiguous(&error) {
                MessageExpect::SendAgain { original: error.message() }
            } else {
                MessageExpect::Failed(error)
            }
        },
    }
}

/// What follows after the second request to take a message.
pub fn receive_application_message_again(
    worker: &WorkerSpec,
    request_id: &str,
    phase: &str,
    original: &str,
    sent: Result<(), Failure>,
) -> (result: Result<(), Failure>)
    ensures
        match sent {
            Ok(_) => result is Ok,
            Err(error) => result is Err && result->Err_0@.text()
                == "receive_application_message failed after ambiguous transport retry: worker="@
                + worker.id@ + " request_id="@ + request_id@ + " phase="@ + phase@
                + " initial_error="@ + original@ + ": "@ + error@.text(),
        },
{
    match sent {
        Ok(_) => Ok(()),
        Err(error) => {
            let mut context: String =
                "receive_application_message failed after ambiguous transport retry: worker=".to_owned();
            context.append(worker.id.as_str());
            context.append(" request_id=");
            context.append(request_id);
            context.append(" phase=");
            context.append(phase);
            context.append(" initial_error=");
            context.append(original);
            Err(error.with_context(context.as_str()))
        },
    }
}

/// What was seen of a worker is what is expected of it: the group as it should be, or, where it should
/// have been removed, no group at all.
pub open spec fn is_seen(
    expected: ExpectedView,
    observed: Result<GroupStateSnapshot, Failure>,
) -> bool {
    match expected {
        ExpectedView::Group(wanted) => observed matches Ok(state) && state@.group_id
            == wanted.group_id && state@.epoch == wanted.epoch && state@.members == wanted.members,
        ExpectedView::Removed { expected_epoch: _ } => observed matches Err(error) && text::occurs(
            error@.text(),
            "Client is not in a group"@,
        ),
    }
}

/// A handling in which a state was asked for succeeds exactly where the worker is seen to be as
/// expected. Where the command failed the first time it is sent once more exactly where the worker is
/// seen to stand in the group at an earlier epoch. In all other cases the handling fails.
pub proof fn law_handling_by_state(
    handling: CommitExpect,
    observed: Result<GroupStateSnapshot, Failure>,
)
    requires
        handling.waits_for(ExpectEvent::State(observed)),
    ensures
        ({
            let action = handling.after_event(ExpectEvent::State(observed)).1;
            let behind = handling.expected@ matches ExpectedView::Group(wanted) && (
            observed matches Ok(state) && state@.epoch < wanted.epoch);
            &&& action == ExpectActionView::Done(Ok(())) <==> is_seen(handling.expected@, observed)
            &&& action == ExpectActionView::Send <==> handling.stage@ is Reconciling && behind
            &&& action != ExpectActionView::ShowState
        }),
{
    if let ExpectedView::Group(wanted) = handling.expected@ {
        if let Ok(state) = observed {
            if is_seen(handling.expected@, observed) {
                assert(state@ =~= wanted);
            }
        }
    }
}

/// A command that is answered counts at once where the worker handles one commit; where it handles all
/// that waits for it, its state is asked for. A failure for want of memory ends the handling, with that
/// failure. So does any failure of the first command that leaves no doubt, where the worker handles one
/// commit. After all other failures the state is asked for.
pub proof fn law_handling_by_answer(handling: CommitExpect, sent: Result<(), Failure>)
    requires
        handling.waits_for(ExpectEvent::Sent(sent)),
    ensures
        ({
            let action = handling.after_event(ExpectEvent::Sent(sent)).1;
            match sent {
                Ok(_) => action == (if handling.pending {
                    ExpectActionView::ShowState
                } else {
                    ExpectActionView::Done(Ok(()))
                }),
                Err(error) => action == (if error@.out_of_budget() || (handling.stage@ is Sending
                    && !handling.pending && !error@.ambiguous()) {
                    ExpectActionView::Done(Err(error@))
                } else {
                    ExpectActionView::ShowState
                }),
            }
        }),
{
}

} // verus!
