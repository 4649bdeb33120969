//! Whether all members agree on the state of the group.

use vstd::prelude::*;

use crate::command;
use crate::command::BenchmarkCursor;
use crate::evict;
use crate::evict::Evict;
use crate::expect;
use crate::expect::{debug_texts, same_texts};
use crate::failure;
use crate::failure::Failure;
use crate::order;
use crate::order::sort_texts;
use crate::task;
use crate::task::{Next, Order, Report, Spread};
use crate::text;
use crate::text::{decimal_text, str_eq};
use crate::transport;
use crate::transport::GroupStateSnapshot;
use crate::workers;
use crate::workers::{copy_workers, ids_of, WorkerSpec};

verus! {

// ---------------------------------------------------------------------------
// Comparing states
// ---------------------------------------------------------------------------

/// The state that a worker answered with; its last answer counts.
pub open spec fn answer_of(answers: Seq<(WorkerSpec, GroupStateSnapshot)>, id: Seq<char>) -> Option<
    transport::StateView,
>
    decreases answers.len(),
{
    if answers.len() == 0 {
        None
    } else if answers.last().0.id@ == id {
        Some(answers.last().1@)
    } else {
        answer_of(answers.drop_last(), id)
    }
}

/// The text on a worker without an answer.
pub open spec fn missing_text(id: Seq<char>) -> Seq<char> {
    "Missing ShowGroupState result for worker "@ + id
}

/// The states of the first `n` workers, in the order of the workers. Each worker needs an answer of
/// its own.
pub open spec fn in_worker_order(
    list: Seq<WorkerSpec>,
    answers: Seq<(WorkerSpec, GroupStateSnapshot)>,
    n: int,
) -> Result<Seq<(Seq<char>, transport::StateView)>, Seq<char>>
    decreases n,
{
    if n <= 0 {
        Ok(Seq::empty())
    } else {
        match in_worker_order(list, answers, n - 1) {
            Err(why) => Err(why),
            Ok(states) => {
                let id = list[n - 1].id@;
                match answer_of(answers, id) {
                    Some(state) => if workers::has_id(list.take(n - 1), id) {
                        Err(missing_text(id))
                    } else {
                        Ok(states.push((id, state)))
                    },
                    None => Err(missing_text(id)),
                }
            },
        }
    }
}

fn find_answer<'a>(answers: &'a [(WorkerSpec, GroupStateSnapshot)], id: &str) -> (found: Option<
    &'a GroupStateSnapshot,
>)
    ensures
        answer_of(answers@, id@) == (match found {
            Some(state) => Some(state@),
            None => None,
        }),
{
    let mut i: usize = answers.len();
    assert(answers@.take(i as int) =~= answers@);
    while i > 0
        invariant
            i <= answers@.len(),
            answer_of(answers@, id@) == answer_of(answers@.take(i as int), id@),
        decreases i,
    {
        assert(answers@.take(i as int).drop_last() =~= answers@.take(i - 1));
        assert(answers@.take(i as int).last() == answers@[i - 1]);
        i = i - 1;
        if str_eq(answers[i].0.id.as_str(), id) {
            return Some(&answers[i].1);
        }
    }
    None
}

/// The states of workers, each with the worker's id.
pub open spec fn states_view(states: Seq<(String, GroupStateSnapshot)>) -> Seq<
    (Seq<char>, transport::StateView),
> {
    states.map_values(|state: (String, GroupStateSnapshot)| (state.0@, state.1@))
}

/// The states of all workers, in the order of the workers.
pub fn states_in_order(list: &[WorkerSpec], answers: &[(WorkerSpec, GroupStateSnapshot)]) -> (
result: Result<Vec<(String, GroupStateSnapshot)>, String>)
    ensures
        in_worker_order(list@, answers@, list@.len() as int) == (match result {
            Ok(states) => Ok::<Seq<(Seq<char>, transport::StateView)>, Seq<char>>(
                states_view(states@),
            ),
            Err(why) => Err(why@),
        }),
{
    let mut states: Vec<(String, GroupStateSnapshot)> = Vec::new();
    let mut i: usize = 0;
    assert(states_view(states@) =~= Seq::<(Seq<char>, transport::StateView)>::empty());
    while i < list.len()
        invariant
            i <= list@.len(),
            in_worker_order(list@, answers@, i as int) == Ok::<
                Seq<(Seq<char>, transport::StateView)>,
                Seq<char>,
            >(states_view(states@)),
        decreases list@.len() - i,
    {
        let id: &str = list[i].id.as_str();
        let mut known: bool = false;
        let mut k: usize = 0;
        while k < i
            invariant
                k <= i < list@.len(),
                id@ == list@[i as int].id@,
                known == workers::has_id(list@.take(k as int), id@),
            decreases i - k,
        {
            proof {
                let now = list@.take(k + 1);
                let before = list@.take(k as int);
                assert(now[k as int] == list@[k as int]);
                assert forall|j: int| 0 <= j < k implies #[trigger] now[j] == before[j] by {
                }
                if workers::has_id(before, id@) {
                    let j = choose|j: int|
                        0 <= j < before.len() && (#[trigger] before[j]).id@ == id@;
                    assert(now[j].id@ == id@);
                }
                if workers::has_id(now, id@) && now[k as int].id@ != id@ {
                    let j = choose|j: int| 0 <= j < now.len() && (#[trigger] now[j]).id@ == id@;
                    assert(before[j].id@ == id@);
                }
            }
            if str_eq(list[k].id.as_str(), id) {
                known = true;
            }
            k = k + 1;
        }
        let found: Option<&GroupStateSnapshot> = find_answer(answers, id);
        match found {
            Some(state) => {
                if known {
                    let mut why: String = "Missing ShowGroupState result for worker ".to_owned();
                    why.append(id);
                    proof {
                        lemma_order_fails(list@, answers@, i + 1, list@.len() as int);
                    }
                    return Err(why);
                }
                let ghost before = states@;
                states.push((id.to_owned(), state.clone()));
                assert(states_view(states@) =~= states_view(before).push((id@, state@)));
            },
            None => {
                let mut why: String = "Missing ShowGroupState result for worker ".to_owned();
                why.append(id);
                proof {
                    lemma_order_fails(list@, answers@, i + 1, list@.len() as int);
                }
                return Err(why);
            },
        }
        i = i + 1;
    }
    Ok(states)
}

proof fn lemma_order_fails(
    list: Seq<WorkerSpec>,
    answers: Seq<(WorkerSpec, GroupStateSnapshot)>,
    n: int,
    m: int,
)
    requires
        n <= m,
        in_worker_order(list, answers, n) is Err,
    ensures
        in_worker_order(list, answers, m) == in_worker_order(list, answers, n),
    decreases m - n,
{
    if n < m {
        lemma_order_fails(list, answers, n, m - 1);
        if m <= 0 {
        }
    }
}

/// The text on a reference whose members are not those that are expected.
pub open spec fn reference_text(
    id: Seq<char>,
    expected: Seq<Seq<char>>,
    members: Seq<Seq<char>>,
) -> Seq<char> {
    "Reference worker "@ + id + " member list mismatch. Expected "@ + expect::debug_shown(expected)
        + ", got "@ + expect::debug_shown(members)
}

/// A state as the texts on convergence show it.
pub open spec fn state_shown(state: transport::StateView) -> Seq<char> {
    "group_id="@ + state.group_id + ", epoch="@ + text::decimal(state.epoch as nat)
        + ", members="@ + expect::debug_shown(state.members)
}

/// The text on a worker whose state is another one.
pub open spec fn mismatch_text(
    id: Seq<char>,
    reference: transport::StateView,
    state: transport::StateView,
) -> Seq<char> {
    "Convergence mismatch on worker "@ + id + ". Expected "@ + state_shown(reference) + "; got "@
        + state_shown(state)
}

/// The text on the first of `n` states that is another one than the first.
pub open spec fn odd_one(states: Seq<(Seq<char>, transport::StateView)>, n: int) -> Option<Seq<char>>
    decreases n,
{
    if n <= 1 {
        None
    } else {
        match odd_one(states, n - 1) {
            Some(why) => Some(why),
            None => if states[n - 1].1 != states[0].1 {
                Some(mismatch_text(states[n - 1].0, states[0].1, states[n - 1].1))
            } else {
                None
            },
        }
    }
}

/// The state on which all agree, or a text on the first who does not.
pub open spec fn agreed(
    states: Seq<(Seq<char>, transport::StateView)>,
    expected: Seq<Seq<char>>,
) -> Result<transport::StateView, Seq<char>> {
    if states.len() == 0 {
        Err("No active workers to verify"@)
    } else if states[0].1.members != expected {
        Err(reference_text(states[0].0, expected, states[0].1.members))
    } else {
        match odd_one(states, states.len() as int) {
            Some(why) => Err(why),
            None => Ok(states[0].1),
        }
    }
}

fn state_text(state: &GroupStateSnapshot) -> (out: String)
    ensures
        out@ == state_shown(state@),
{
    let mut out: String = "group_id=".to_owned();
    out.append(state.group_id.as_str());
    out.append(", epoch=");
    out.append(decimal_text(state.epoch as u128).as_str());
    out.append(", members=");
    out.append(debug_texts(&state.members).as_str());
    out
}

fn same_state(a: &GroupStateSnapshot, b: &GroupStateSnapshot) -> (same: bool)
    ensures
        same == (a@ == b@),
{
    let same: bool = str_eq(a.group_id.as_str(), b.group_id.as_str()) && a.epoch == b.epoch
        && same_texts(&a.members, &b.members);
    assert(same ==> a@ =~= b@);
    same
}

/// The state on which all agree, or a text on the first who does not.
pub fn check_agreement(states: &[(String, GroupStateSnapshot)], expected: &Vec<String>) -> (result:
    Result<GroupStateSnapshot, String>)
    ensures
        agreed(states_view(states@), text::texts(expected@)) == (match result {
            Ok(state) => Ok::<transport::StateView, Seq<char>>(state@),
            Err(why) => Err(why@),
        }),
{
    let ghost all = states_view(states@);
    if states.len() == 0 {
        return Err("No active workers to verify".to_owned());
    }
    let reference: &GroupStateSnapshot = &states[0].1;
    if !same_texts(&reference.members, expected) {
        let mut why: String = "Reference worker ".to_owned();
        why.append(states[0].0.as_str());
        why.append(" member list mismatch. Expected ");
        why.append(debug_texts(expected).as_str());
        why.append(", got ");
        why.append(debug_texts(&reference.members).as_str());
        return Err(why);
    }
    let mut i: usize = 1;
    while i < states.len()
        invariant
            1 <= i <= states@.len(),
            all == states_view(states@),
            reference@ == all[0].1,
            reference@.members == text::texts(expected@),
            odd_one(all, i as int) is None,
        decreases states@.len() - i,
    {
        assert(all[i as int] == (states@[i as int].0@, states@[i as int].1@));
        if !same_state(&states[i].1, reference) {
            let mut why: String = "Convergence mismatch on worker ".to_owned();
            why.append(states[i].0.as_str());
            why.append(". Expected ");
            why.append(state_text(reference).as_str());
            why.append("; got ");
            why.append(state_text(&states[i].1).as_str());
            proof {
                lemma_odd_stays(all, i + 1, states@.len() as int);
            }
            return Err(why);
        }
        i = i + 1;
    }
    Ok(reference.clone())
}

proof fn lemma_odd_stays(states: Seq<(Seq<char>, transport::StateView)>, n: int, m: int)
    requires
        n <= m,
        odd_one(states, n) is Some,
    ensures
        odd_one(states, m) == odd_one(states, n),
    decreases m - n,
{
    if n < m {
        lemma_odd_stays(states, n, m - 1);
    }
}

/// Whether all members agree, given what they answered.
pub open spec fn convergence(
    active: Seq<WorkerSpec>,
    answers: Seq<(WorkerSpec, GroupStateSnapshot)>,
) -> Result<transport::StateView, Seq<char>> {
    match in_worker_order(active, answers, active.len() as int) {
        Ok(states) => agreed(states, order::ascending(workers::ids(active))),
        Err(why) => Err(why),
    }
}

/// The state on which all members agree, given what they answered.
pub fn ensure_converged(active: &[WorkerSpec], answers: &[(WorkerSpec, GroupStateSnapshot)]) -> (
result: Result<GroupStateSnapshot, String>)
    ensures
        convergence(active@, answers@) == (match result {
            Ok(state) => Ok::<transport::StateView, Seq<char>>(state@),
            Err(why) => Err(why@),
        }),
{
    let expected: Vec<String> = sort_texts(&ids_of(active));
    match states_in_order(active, answers) {
        Ok(states) => check_agreement(states.as_slice(), &expected),
        Err(why) => Err(why),
    }
}

/// Where members converge, each of them answered with the same state, and its members are just the
/// members of the group.
pub proof fn law_convergence(
    active: Seq<WorkerSpec>,
    answers: Seq<(WorkerSpec, GroupStateSnapshot)>,
    i: int,
)
    requires
        convergence(active, answers) is Ok,
        0 <= i < active.len(),
    ensures
        answer_of(answers, active[i].id@) == Some(convergence(active, answers)->Ok_0),
        convergence(active, answers)->Ok_0.members == order::ascending(workers::ids(active)),
        workers::distinct(active),
{
    let n = active.len() as int;
    let states = in_worker_order(active, answers, n)->Ok_0;
    lemma_in_order(active, answers, n);
    lemma_none_odd(states, states.len() as int, i);
    let names = workers::ids(active);
    assert forall|a: int, b: int| 0 <= a < b < names.len() implies names[a] != names[b] by {
        lemma_in_order(active, answers, b + 1);
        lemma_prefix_ok(active, answers, b + 1, n);
        assert(!workers::has_id(active.take(b), active[b].id@));
        assert(active.take(b)[a] == active[a]);
    }
}

proof fn lemma_prefix_ok(
    list: Seq<WorkerSpec>,
    answers: Seq<(WorkerSpec, GroupStateSnapshot)>,
    n: int,
    m: int,
)
    requires
        n <= m,
        in_worker_order(list, answers, m) is Ok,
    ensures
        in_worker_order(list, answers, n) is Ok,
{
    if in_worker_order(list, answers, n) is Err {
        lemma_order_fails(list, answers, n, m);
    }
}

proof fn lemma_in_order(
    list: Seq<WorkerSpec>,
    answers: Seq<(WorkerSpec, GroupStateSnapshot)>,
    n: int,
)
    requires
        0 <= n <= list.len(),
    ensures
        in_worker_order(list, answers, n) matches Ok(states) ==> {
            &&& states.len() == n
            &&& forall|k: int|
                0 <= k < n ==> (#[trigger] states[k]).0 == list[k].id@ && answer_of(
                    answers,
                    list[k].id@,
                ) == Some(states[k].1)
        },
    decreases n,
{
    if n > 0 {
        lemma_in_order(list, answers, n - 1);
    }
}

proof fn lemma_none_odd(states: Seq<(Seq<char>, transport::StateView)>, n: int, i: int)
    requires
        odd_one(states, n) is None,
        0 <= i < n,
    ensures
        states[i].1 == states[0].1,
    decreases n,
{
    if n > 1 && i < n - 1 {
        lemma_none_odd(states, n - 1, i);
    }
}

// ---------------------------------------------------------------------------
// Converging while workers die
// ---------------------------------------------------------------------------

/// How far the agreement is.
#[derive(Debug)]
pub enum ConvergeStage {
    /// All members are asked.
    Asking,
    /// There is no agreement; those that failed are written down.
    Recording { error: Failure },
    /// All that died are taken out.
    Evicting(Evict),
    /// Nothing is left to do.
    Over,
}

/// The agreement of all members on a state. Those that die are taken out, and the others are asked
/// again.
#[derive(Debug)]
pub struct Converge {
    pub active: Vec<WorkerSpec>,
    pub spread: Spread,
    pub plateau_size: usize,
    pub plateau_index: usize,
    pub stage: ConvergeStage,
}

/// What the agreement leads to.
pub type Converged = Next<Result<GroupStateSnapshot, Failure>>;

/// There is an agreement.
pub open spec fn converged(next: Converged, state: transport::StateView) -> bool {
    next is Done && next->Done_0 is Ok && next->Done_0->Ok_0@ == state
}

/// There will be no agreement.
pub open spec fn diverged(next: Converged, error: failure::FailureView) -> bool {
    next is Done && next->Done_0 is Err && next->Done_0->Err_0@ == error
}

impl Converge {
    /// An eviction that is under way is consistent.
    pub open spec fn wf(self) -> bool {
        self.stage matches ConvergeStage::Evicting(evict) ==> evict.wf() && evict.active@
            == self.active@
    }

    /// The report is one that the stage waits for.
    pub open spec fn waits_for(self, report: Report) -> bool {
        match self.stage {
            ConvergeStage::Asking => report is Gathered,
            ConvergeStage::Recording { error: _ } => report is AllRecorded,
            ConvergeStage::Evicting(evict) => evict.waits_for(report),
            ConvergeStage::Over => false,
        }
    }

    /// What does not change.
    pub open spec fn same_task(self, other: Converge) -> bool {
        &&& self.spread == other.spread
        &&& self.plateau_size == other.plateau_size
        &&& self.plateau_index == other.plateau_index
    }

    /// The failures are written down.
    pub open spec fn records(
        self,
        active: Seq<WorkerSpec>,
        error: failure::FailureView,
        after: Converge,
        next: Converged,
    ) -> bool {
        &&& after.active@ == active
        &&& after.stage is Recording
        &&& after.stage->error@ == error
        &&& next is Do
        &&& next->Do_0.records_all(
            command::Marks::at(
                self.plateau_index,
                self.plateau_size,
                active.len() as usize,
                "convergence"@,
                "show_group_state"@,
            ),
            error,
            "evict_convergence_member_and_retry"@,
            if active.len() > 0 {
                Some(active[0])
            } else {
                None
            },
        )
    }

    /// All members are asked.
    pub open spec fn asks(
        self,
        active: Seq<WorkerSpec>,
        after: Converge,
        next: Converged,
    ) -> bool {
        if active.len() == 0 {
            self.records(active, failure::plain("No active workers to verify"@), after, next)
        } else {
            &&& after.active@ == active
            &&& after.stage is Asking
            &&& next is Do
            &&& next->Do_0.gathers(active)
        }
    }

    /// What follows a step of an eviction.
    pub open spec fn after_evict(
        self,
        evict: Evict,
        step: Next<Result<(), Failure>>,
        after: Converge,
        next: Converged,
    ) -> bool {
        match step {
            Next::Do(order) => {
                &&& after.active@ == self.active@
                &&& after.stage == ConvergeStage::Evicting(evict)
                &&& next == Next::<Result<GroupStateSnapshot, Failure>>::Do(order)
            },
            Next::Done(Ok(_)) => self.asks(evict.active@, after, next),
            Next::Done(Err(error)) => {
                &&& after.active@ == self.active@
                &&& after.stage is Over
                &&& diverged(next, error@)
            },
        }
    }

    /// How far the agreement is after a report, and what is done then.
    pub open spec fn next(self, report: Report, after: Converge, next: Converged) -> bool {
        &&& after.same_task(self)
        &&& match (self.stage, report) {
            (ConvergeStage::Asking, Report::Gathered(Err(error))) => self.records(
                self.active@,
                error@,
                after,
                next,
            ),
            (ConvergeStage::Asking, Report::Gathered(Ok(answers))) => match convergence(
                self.active@,
                answers@,
            ) {
                Ok(state) => {
                    &&& after.active@ == self.active@
                    &&& after.stage is Over
                    &&& converged(next, state)
                },
                Err(why) => self.records(self.active@, failure::plain(why), after, next),
            },
            (ConvergeStage::Recording { error }, Report::AllRecorded(Ok(None))) => {
                &&& after.active@ == self.active@
                &&& after.stage is Over
                &&& diverged(next, error@)
            },
            (ConvergeStage::Recording { error: _ }, Report::AllRecorded(Err(worse))) => {
                &&& after.active@ == self.active@
                &&& after.stage is Over
                &&& diverged(next, worse@)
            },
            (
                ConvergeStage::Recording { error: _ },
                Report::AllRecorded(Ok(Some(dead))),
            ) => exists|begun: Evict, step: Next<Result<(), Failure>>| #[trigger]
                begun.begun(self.active@, dead@, self.spread, self.plateau_size, step)
                    && self.after_evict(begun, step, after, next),
            (ConvergeStage::Evicting(evict), _) => exists|
                then: Evict,
                step: Next<Result<(), Failure>>,
            | #[trigger]
                evict.next(report, then, step) && self.after_evict(then, step, after, next),
            _ => true,
        }
    }

    /// The agreement as it begins.
    pub open spec fn started(
        self,
        active: Seq<WorkerSpec>,
        spread: Spread,
        plateau_size: usize,
        plateau_index: usize,
        next: Converged,
    ) -> bool {
        &&& self.wf()
        &&& self.spread == spread
        &&& self.plateau_size == plateau_size
        &&& self.plateau_index == plateau_index
        &&& self.asks(active, self, next)
    }

    /// Asks all members for their states.
    pub fn start(
        active: Vec<WorkerSpec>,
        spread: Spread,
        plateau_size: usize,
        plateau_index: usize,
    ) -> (made: (Converge, Converged))
        ensures
            made.0.started(active@, spread, plateau_size, plateau_index, made.1),
            made.1 is Do,
    {
        let mut converge: Converge = Converge {
            active: active,
            spread: spread,
            plateau_size: plateau_size,
            plateau_index: plateau_index,
            stage: ConvergeStage::Over,
        };
        let next: Converged = converge.ask();
        (converge, next)
    }

    fn record(&mut self, error: Failure) -> (next: Converged)
        ensures
            final(self).wf(),
            final(self).same_task(*old(self)),
            old(self).records(old(self).active@, error@, *final(self), next),
    {
        let first: Option<WorkerSpec> = if self.active.len() > 0 {
            Some(self.active[0].clone())
        } else {
            None
        };
        let order: Order = Order::RecordAll {
            cursor: BenchmarkCursor::new(
                self.plateau_index,
                self.plateau_size,
                self.active.len(),
                "convergence",
                "show_group_state",
            ),
            error: error.clone(),
            action: "evict_convergence_member_and_retry",
            reassigned_to: first,
        };
        self.stage = ConvergeStage::Recording { error: error };
        Next::Do(order)
    }

    fn ask(&mut self) -> (next: Converged)
        ensures
            final(self).wf(),
            final(self).same_task(*old(self)),
            old(self).asks(old(self).active@, *final(self), next),
            next is Do,
    {
        if self.active.len() == 0 {
            return self.record(Failure::plain("No active workers to verify".to_owned()));
        }
        self.stage = ConvergeStage::Asking;
        Next::Do(Order::Gather { workers: copy_workers(self.active.as_slice()) })
    }

    fn take_evicted(&mut self, evict: Evict, step: Next<Result<(), Failure>>) -> (next: Converged)
        requires
            evict.wf(),
            step is Do ==> evict.active@ == old(self).active@,
        ensures
            final(self).wf(),
            final(self).same_task(*old(self)),
            old(self).after_evict(evict, step, *final(self), next),
    {
        match step {
            Next::Do(order) => {
                self.stage = ConvergeStage::Evicting(evict);
                Next::Do(order)
            },
            Next::Done(Ok(_)) => {
                self.active = evict.active;
                self.ask()
            },
            Next::Done(Err(error)) => {
                self.stage = ConvergeStage::Over;
                Next::Done(Err(error))
            },
        }
    }

    /// What is done after a report.
    pub fn step(&mut self, report: Report) -> (next: Converged)
        requires
            old(self).wf(),
            old(self).waits_for(report),
        ensures
            final(self).wf(),
            old(self).next(report, *final(self), next),
    {
        let ghost given = report;
        let ghost start = *self;
        let mut stage: ConvergeStage = ConvergeStage::Over;
        std::mem::swap(&mut stage, &mut self.stage);
        match (stage, report) {
            (ConvergeStage::Asking, Report::Gathered(Err(error))) => self.record(error),
            (ConvergeStage::Asking, Report::Gathered(Ok(answers))) => {
                match ensure_converged(self.active.as_slice(), answers.as_slice()) {
                    Ok(state) => Next::Done(Ok(state)),
                    Err(why) => self.record(Failure::plain(why)),
                }
            },
            (ConvergeStage::Recording { error }, Report::AllRecorded(Ok(None))) => Next::Done(
                Err(error),
            ),
            (ConvergeStage::Recording { error: _ }, Report::AllRecorded(Err(worse))) => Next::Done(
                Err(worse),
            ),
            (ConvergeStage::Recording { error: _ }, Report::AllRecorded(Ok(Some(dead)))) => {
                let (evict, step): (Evict, Next<Result<(), Failure>>) = Evict::start(
                    self.active.as_slice(),
                    dead.as_slice(),
                    self.spread,
                    self.plateau_size,
                );
                assert(evict.begun(
                    start.active@,
                    dead@,
                    start.spread,
                    start.plateau_size,
                    step,
                ));
                self.take_evicted(evict, step)
            },
            (ConvergeStage::Evicting(evict), report) => {
                let mut evict: Evict = evict;
                let ghost before = evict;
                let step: Next<Result<(), Failure>> = evict.step(report);
                assert(before.next(given, evict, step));
                proof {
                    evict::law_eviction(before, given, evict, step);
                }
                self.take_evicted(evict, step)
            },
            (stage, _) => {
                self.stage = stage;
                Next::Do(Order::Gather { workers: Vec::new() })
            },
        }
    }
}

/// The agreement only takes members out of the group; where there is one, it is on what all members
/// that are left answered.
pub proof fn law_converge(converge: Converge, report: Report, after: Converge, next: Converged)
    requires
        converge.wf(),
        converge.waits_for(report),
        converge.next(report, after, next),
    ensures
        forall|w: WorkerSpec| #[trigger]
            workers::times(after.active@, w) <= workers::times(converge.active@, w),
        next is Done && next->Done_0 is Ok ==> {
            &&& converge.stage is Asking
            &&& report->Gathered_0 is Ok
            &&& convergence(after.active@, report->Gathered_0->Ok_0@) == Ok::<
                transport::StateView,
                Seq<char>,
            >(next->Done_0->Ok_0@)
        },
{
    match (converge.stage, report) {
        (ConvergeStage::Evicting(evict), _) => {
            let (then, step) = choose|then: Evict, step: Next<Result<(), Failure>>| #[trigger]
                evict.next(report, then, step) && converge.after_evict(then, step, after, next);
            evict::law_eviction(evict, report, then, step);
            assert forall|w: WorkerSpec| #[trigger]
                workers::times(then.active@, w) <= workers::times(converge.active@, w) by {
                workers::lemma_times_chosen(converge.active@, task::outside(then.dead@), w);
            }
        },
        _ => {},
    }
}

/// The last answer of a worker is a state.
pub open spec fn answers_last(
    answers: Seq<(WorkerSpec, GroupStateSnapshot)>,
    id: Seq<char>,
    state: transport::StateView,
) -> bool {
    exists|k: int|
        {
            &&& 0 <= k < answers.len()
            &&& (#[trigger] answers[k]).0.id@ == id
            &&& answers[k].1@ == state
            &&& forall|j: int| k < j < answers.len() ==> (#[trigger] answers[j]).0.id@ != id
        }
}

proof fn lemma_answer_of(
    answers: Seq<(WorkerSpec, GroupStateSnapshot)>,
    id: Seq<char>,
    state: transport::StateView,
)
    ensures
        answers_last(answers, id, state) == (answer_of(answers, id) == Some(state)),
    decreases answers.len(),
{
    if answers.len() > 0 {
        let front = answers.drop_last();
        let last = answers.len() - 1;
        lemma_answer_of(front, id, state);
        if answers.last().0.id@ == id {
            if answers.last().1@ == state {
                assert(answers[last].0.id@ == id);
            }
            if answers_last(answers, id, state) {
                let k = choose|k: int|
                    {
                        &&& 0 <= k < answers.len()
                        &&& (#[trigger] answers[k]).0.id@ == id
                        &&& answers[k].1@ == state
                        &&& forall|j: int|
                            k < j < answers.len() ==> (#[trigger] answers[j]).0.id@ != id
                    };
                assert(answers[last].0.id@ == id);
                assert(k == last);
            }
        } else {
            if answers_last(front, id, state) {
                let k = choose|k: int|
                    {
                        &&& 0 <= k < front.len()
                        &&& (#[trigger] front[k]).0.id@ == id
                        &&& front[k].1@ == state
                        &&& forall|j: int| k < j < front.len() ==> (#[trigger] front[j]).0.id@ != id
                    };
                assert(answers[k].0.id@ == id);
                assert forall|j: int| k < j < answers.len() implies (#[trigger] answers[j]).0.id@
                    != id by {
                    if j < last {
                        assert(front[j] == answers[j]);
                    }
                }
            }
            if answers_last(answers, id, state) {
                let k = choose|k: int|
                    {
                        &&& 0 <= k < answers.len()
                        &&& (#[trigger] answers[k]).0.id@ == id
                        &&& answers[k].1@ == state
                        &&& forall|j: int|
                            k < j < answers.len() ==> (#[trigger] answers[j]).0.id@ != id
                    };
                assert(k < last);
                assert(front[k].0.id@ == id);
                assert forall|j: int| k < j < front.len() implies (#[trigger] front[j]).0.id@
                    != id by {
                    assert(front[j] == answers[j]);
                }
            }
        }
    }
}

proof fn lemma_all_answered(
    active: Seq<WorkerSpec>,
    answers: Seq<(WorkerSpec, GroupStateSnapshot)>,
    state: transport::StateView,
    n: int,
)
    requires
        0 <= n <= active.len(),
        workers::distinct(active),
        forall|i: int|
            0 <= i < active.len() ==> answer_of(answers, (#[trigger] active[i]).id@) == Some(state),
    ensures
        in_worker_order(active, answers, n) is Ok,
        odd_one(in_worker_order(active, answers, n)->Ok_0, n) is None,
    decreases n,
{
    if n > 0 {
        lemma_all_answered(active, answers, state, n - 1);
        let before = in_worker_order(active, answers, n - 1)->Ok_0;
        let ids = workers::ids(active);
        if workers::has_id(active.take(n - 1), active[n - 1].id@) {
            let k = choose|k: int|
                0 <= k < active.take(n - 1).len() && (#[trigger] active.take(n - 1)[k]).id@
                    == active[n - 1].id@;
            assert(ids[k] == ids[n - 1]);
        }
        lemma_in_order(active, answers, n);
        lemma_in_order(active, answers, n - 1);
        let states = in_worker_order(active, answers, n)->Ok_0;
        lemma_odd_same(before, states, n - 1);
    }
}

proof fn lemma_odd_same(
    a: Seq<(Seq<char>, transport::StateView)>,
    b: Seq<(Seq<char>, transport::StateView)>,
    n: int,
)
    requires
        n <= a.len(),
        n <= b.len(),
        forall|k: int| 0 <= k < n ==> #[trigger] a[k] == b[k],
    ensures
        odd_one(a, n) == odd_one(b, n),
    decreases n,
{
    if n > 1 {
        lemma_odd_same(a, b, n - 1);
        assert(a[n - 1] == b[n - 1] && a[0] == b[0]);
    }
}

/// All members are asked, and there is an agreement exactly where each of them gave the same state as
/// its last answer, no two have one id, and the members of that state are the members of the group, in
/// the order of their ids. The agreement is on that state. Without one what went wrong is written down.
pub proof fn law_agreement(
    converge: Converge,
    answers: Vec<(WorkerSpec, GroupStateSnapshot)>,
    after: Converge,
    next: Converged,
    state: transport::StateView,
)
    requires
        converge.wf(),
        converge.stage is Asking,
        converge.active@.len() > 0,
        converge.next(Report::Gathered(Ok(answers)), after, next),
    ensures
        ({
            let active = converge.active@;
            let alike = {
                &&& workers::distinct(active)
                &&& state.members == order::ascending(workers::ids(active))
                &&& forall|i: int|
                    0 <= i < active.len() ==> answers_last(
                        answers@,
                        (#[trigger] active[i]).id@,
                        state,
                    )
            };
            &&& alike <==> (next matches Next::Done(Ok(agreed)) && agreed@ == state)
            &&& next matches Next::Done(result) ==> result is Ok
            &&& next matches Next::Do(order) ==> order is RecordAll
            &&& after.active@ == active
        }),
{
    let active = converge.active@;
    assert forall|i: int| 0 <= i < active.len() implies answers_last(
        answers@,
        (#[trigger] active[i]).id@,
        state,
    ) == (answer_of(answers@, active[i].id@) == Some(state)) by {
        lemma_answer_of(answers@, active[i].id@, state);
    }
    if convergence(active, answers@) is Ok {
        law_convergence(active, answers@, 0);
        assert forall|i: int| 0 <= i < active.len() implies answer_of(
            answers@,
            (#[trigger] active[i]).id@,
        ) == Some(convergence(active, answers@)->Ok_0) by {
            law_convergence(active, answers@, i);
        }
    }
    if workers::distinct(active) && state.members == order::ascending(workers::ids(active)) && (
    forall|i: int|
        0 <= i < active.len() ==> answers_last(answers@, (#[trigger] active[i]).id@, state)) {
        assert forall|i: int| 0 <= i < active.len() implies answer_of(
            answers@,
            (#[trigger] active[i]).id@,
        ) == Some(state) by {
            assert(answers_last(answers@, active[i].id@, state));
        }
        lemma_all_answered(active, answers@, state, active.len() as int);
        lemma_in_order(active, answers@, active.len() as int);
    }
}

/// Where the agreement begins all members are asked. Where they cannot be asked, the failures are
/// written down as they came, and the run goes on without those that it may go on without: another
/// member is then asked for its state. Where it does not go on, there is no agreement, for that reason.
pub proof fn law_agreement_that_fails(
    active: Seq<WorkerSpec>,
    spread: Spread,
    plateau_size: usize,
    plateau_index: usize,
    begun: Converge,
    ask: Converged,
    error: Failure,
    losing: Converge,
    record: Converged,
    verdict: Result<Option<Vec<WorkerSpec>>, Failure>,
    after: Converge,
    next: Converged,
)
    requires
        active.len() > 0,
        begun.started(active, spread, plateau_size, plateau_index, ask),
        begun.next(Report::Gathered(Err(error)), losing, record),
        losing.next(Report::AllRecorded(verdict), after, next),
    ensures
        ask matches Next::Do(Order::Gather { workers }) && workers@ == active,
        record matches Next::Do(Order::RecordAll { error: e, reassigned_to, .. }) && e@ == error@
            && reassigned_to == Some(active[0]),
        record->Do_0.place() matches Some(place) && place.plateau_index == Some(plateau_index)
            && place.target_size == Some(plateau_size) && place.active_size == Some(
            active.len() as usize,
        ),
        verdict matches Err(worse) ==> (next matches Next::Done(Err(e)) && e@ == worse@),
        verdict matches Ok(None) ==> (next matches Next::Done(Err(e)) && e@ == error@),
        verdict matches Ok(Some(dead)) ==> if dead@.len() == 0 {
            next matches Next::Do(Order::Gather { workers }) && workers@ == active
        } else if exists|i: int|
            0 <= i < active.len() && !evict::is_one_of(dead@, (#[trigger] active[i]).id@) {
            next matches Next::Do(Order::ShowState { worker }) && active.contains(worker)
                && !evict::is_one_of(dead@, worker.id@)
        } else {
            next matches Next::Done(Err(_))
        },
{
    if let Ok(Some(dead)) = verdict {
        evict::lemma_acts(active, dead@);
    }
}

} // verus!
