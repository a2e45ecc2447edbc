//! The coordinator of a batch of extractions: which request starts next, how
//! many run at once, and what the batch ends with.
//!
//! The coordinator runs nothing itself. Its caller starts the request that
//! `dispatch` hands out, and reports with `complete` how each one ended.

use crate::unzipper::UnzipperError;
use vstd::prelude::*;

verus! {

/// The most requests that run at the same time.
pub const MAX_IN_FLIGHT: usize = 2;

/// Where one request of a batch stands.
#[derive(Debug, Clone, Copy, PartialEq, Eq, Structural)]
pub enum RequestState {
    /// Not started yet.
    Queued,
    /// Started and not yet reported back.
    Running,
    /// Ended well.
    Succeeded,
    /// Ended with an error.
    Failed,
}

/// A batch as contracts see it.
pub struct BatchView {
    /// The state of every request, in the order of the batch.
    pub states: Seq<RequestState>,
    /// The request whose failure was reported first, if any was.
    pub first_failure: Option<int>,
}

/// How many of `states` are `which`.
pub open spec fn count(states: Seq<RequestState>, which: RequestState) -> nat
    decreases states.len(),
{
    if states.len() == 0 {
        0
    } else {
        count(states.drop_last(), which) + if states.last() == which {
            1nat
        } else {
            0nat
        }
    }
}

/// The requests that run now.
pub open spec fn in_flight(batch: BatchView) -> nat {
    count(batch.states, RequestState::Running)
}

/// The requests that have ended, well or not.
pub open spec fn ended(batch: BatchView) -> nat {
    count(batch.states, RequestState::Succeeded) + count(batch.states, RequestState::Failed)
}

/// The requests that have left the queue.
pub open spec fn started(batch: BatchView) -> nat {
    (batch.states.len() - count(batch.states, RequestState::Queued)) as nat
}

/// The requests that wait in the queue are the last of the batch: none that
/// has left the queue comes after one that waits.
pub open spec fn queue_in_order(states: Seq<RequestState>) -> bool {
    forall|i: int, j: int|
        0 <= i < j < states.len() && #[trigger] states[i] == RequestState::Queued
            ==> #[trigger] states[j] == RequestState::Queued
}

/// A batch as the coordinator keeps it: requests leave the queue in their
/// order, at most `MAX_IN_FLIGHT` run at once, and a first failure is on
/// record exactly if a request has failed.
pub open spec fn valid(batch: BatchView) -> bool {
    &&& in_flight(batch) <= MAX_IN_FLIGHT
    &&& queue_in_order(batch.states)
    &&& batch.first_failure matches Some(index) ==> 0 <= index < batch.states.len()
        && batch.states[index] == RequestState::Failed
    &&& batch.first_failure is None ==> count(batch.states, RequestState::Failed) == 0
}

/// A batch of `total` requests, none of them started.
pub open spec fn initial(total: nat) -> BatchView {
    BatchView { states: Seq::new(total, |i: int| RequestState::Queued), first_failure: None }
}

/// The request that `dispatch` starts: the first in the queue, if a slot is
/// free. That a request has failed keeps no other from starting.
pub open spec fn next_to_start(batch: BatchView) -> Option<int> {
    if in_flight(batch) < MAX_IN_FLIGHT && started(batch) < batch.states.len() {
        Some(started(batch) as int)
    } else {
        None
    }
}

/// The batch after `dispatch`.
pub open spec fn dispatched(batch: BatchView) -> BatchView {
    match next_to_start(batch) {
        Some(index) => BatchView {
            states: batch.states.update(index, RequestState::Running),
            ..batch
        },
        None => batch,
    }
}

/// Whether a report on the request at `index` is taken: it is, if that
/// request runs.
pub open spec fn takes_report(batch: BatchView, index: int) -> bool {
    0 <= index < batch.states.len() && batch.states[index] == RequestState::Running
}

/// The batch after the report that the request at `index` ended, well or
/// not. A report on a request that does not run changes nothing.
pub open spec fn completed(batch: BatchView, index: int, well: bool) -> BatchView {
    if !takes_report(batch, index) {
        batch
    } else if well {
        BatchView { states: batch.states.update(index, RequestState::Succeeded), ..batch }
    } else {
        BatchView {
            states: batch.states.update(index, RequestState::Failed),
            first_failure: if batch.first_failure is Some {
                batch.first_failure
            } else {
                Some(index)
            },
        }
    }
}

/// Every request has ended.
pub open spec fn done(batch: BatchView) -> bool {
    ended(batch) == batch.states.len()
}

/// What happens to a batch: the coordinator is asked for the next request to
/// start, or is told how a request ended.
pub enum Event {
    Dispatch,
    Complete { index: int, well: bool },
}

/// The batch after one event.
pub open spec fn after(batch: BatchView, event: Event) -> BatchView {
    match event {
        Event::Dispatch => dispatched(batch),
        Event::Complete { index, well } => completed(batch, index, well),
    }
}

/// The batch after a run of events.
pub open spec fn after_all(batch: BatchView, events: Seq<Event>) -> BatchView
    decreases events.len(),
{
    if events.len() == 0 {
        batch
    } else {
        after(after_all(batch, events.drop_last()), events.last())
    }
}

/// Changing one state changes the counts by that one state.
pub proof fn lemma_count_update(
    states: Seq<RequestState>,
    index: int,
    state: RequestState,
    which: RequestState,
)
    requires
        0 <= index < states.len(),
    ensures
        count(states.update(index, state), which) + (if states[index] == which {
            1nat
        } else {
            0nat
        }) == count(states, which) + (if state == which {
            1nat
        } else {
            0nat
        }),
    decreases states.len(),
{
    let changed = states.update(index, state);
    if index == states.len() - 1 {
        assert(changed.drop_last() == states.drop_last());
    } else {
        assert(changed.drop_last() == states.drop_last().update(index, state));
        lemma_count_update(states.drop_last(), index, state, which);
    }
}

/// Every request is in exactly one state.
pub proof fn lemma_counts_add_up(states: Seq<RequestState>)
    ensures
        count(states, RequestState::Queued) + count(states, RequestState::Running) + count(
            states,
            RequestState::Succeeded,
        ) + count(states, RequestState::Failed) == states.len(),
    decreases states.len(),
{
    if states.len() > 0 {
        lemma_counts_add_up(states.drop_last());
    }
}

/// A state that occurs is counted.
pub proof fn lemma_count_zero(states: Seq<RequestState>, which: RequestState, index: int)
    requires
        0 <= index < states.len(),
        states[index] == which,
    ensures
        count(states, which) > 0,
    decreases states.len(),
{
    if index < states.len() - 1 {
        lemma_count_zero(states.drop_last(), which, index);
    }
}

/// Where the queue is kept in order, it is the end of the batch: as many
/// requests as have left it come first, those that wait in it come after.
pub proof fn lemma_queue_is_the_end(states: Seq<RequestState>)
    requires
        queue_in_order(states),
    ensures
        count(states, RequestState::Queued) <= states.len(),
        forall|i: int|
            0 <= i < states.len() ==> (#[trigger] states[i] == RequestState::Queued
                <==> states.len() - count(states, RequestState::Queued) <= i),
    decreases states.len(),
{
    if states.len() > 0 {
        let front = states.drop_last();
        assert(queue_in_order(front)) by {
            assert forall|i: int, j: int|
                0 <= i < j < front.len() && #[trigger] front[i] == RequestState::Queued implies #[trigger] front[j]
                == RequestState::Queued by {
                assert(states[i] == RequestState::Queued);
                assert(states[j] == RequestState::Queued);
            }
        }
        lemma_queue_is_the_end(front);
        let left = front.len() - count(front, RequestState::Queued);
        assert forall|i: int| 0 <= i < states.len() implies (#[trigger] states[i]
            == RequestState::Queued <==> states.len() - count(states, RequestState::Queued)
            <= i) by {
            if i < front.len() {
                assert(front[i] == states[i]);
            } else if left < front.len() {
                assert(front[left] == RequestState::Queued);
            }
        }
    }
}

/// A new batch is one that the coordinator keeps: nothing runs in it.
pub proof fn lemma_initial_valid(total: nat)
    ensures
        valid(initial(total)),
        in_flight(initial(total)) == 0,
        started(initial(total)) == 0,
{
    lemma_count_uniform(total, RequestState::Running);
    lemma_count_uniform(total, RequestState::Failed);
    lemma_count_uniform(total, RequestState::Queued);
}

/// In a batch of which nothing has started, every request is queued and
/// none is in another state.
pub proof fn lemma_count_uniform(total: nat, which: RequestState)
    ensures
        count(Seq::new(total, |i: int| RequestState::Queued), which) == if which
            == RequestState::Queued {
            total
        } else {
            0
        },
    decreases total,
{
    if total > 0 {
        let all = Seq::new(total, |i: int| RequestState::Queued);
        assert(all.drop_last() == Seq::new((total - 1) as nat, |i: int| RequestState::Queued));
        lemma_count_uniform((total - 1) as nat, which);
    }
}

/// Whatever the coordinator is asked or told, the batch stays one that it
/// keeps.
pub proof fn lemma_event_keeps_valid(batch: BatchView, event: Event)
    requires
        valid(batch),
    ensures
        valid(after(batch, event)),
{
    let next = after(batch, event);
    lemma_queue_is_the_end(batch.states);
    match event {
        Event::Dispatch => {
            if let Some(index) = next_to_start(batch) {
                lemma_count_update(
                    batch.states,
                    index,
                    RequestState::Running,
                    RequestState::Running,
                );
                lemma_count_update(batch.states, index, RequestState::Running, RequestState::Failed);
                assert(queue_in_order(next.states)) by {
                    assert forall|i: int, j: int|
                        0 <= i < j < next.states.len() && #[trigger] next.states[i]
                            == RequestState::Queued implies #[trigger] next.states[j]
                        == RequestState::Queued by {
                        assert(batch.states[i] == RequestState::Queued);
                        assert(batch.states[j] == RequestState::Queued);
                    }
                }
            }
        },
        Event::Complete { index, well } => {
            if takes_report(batch, index) {
                let state = if well {
                    RequestState::Succeeded
                } else {
                    RequestState::Failed
                };
                lemma_count_update(batch.states, index, state, RequestState::Running);
                lemma_count_update(batch.states, index, state, RequestState::Failed);
                assert(queue_in_order(next.states)) by {
                    assert forall|i: int, j: int|
                        0 <= i < j < next.states.len() && #[trigger] next.states[i]
                            == RequestState::Queued implies #[trigger] next.states[j]
                        == RequestState::Queued by {
                        assert(batch.states[i] == RequestState::Queued);
                        assert(batch.states[j] == RequestState::Queued);
                    }
                }
            }
        },
    }
}

/// At no point of any run of events do more than `MAX_IN_FLIGHT` requests of
/// a batch run at the same time.
pub proof fn lemma_never_more_in_flight(total: nat, events: Seq<Event>)
    ensures
        valid(after_all(initial(total), events)),
        in_flight(after_all(initial(total), events)) <= MAX_IN_FLIGHT,
    decreases events.len(),
{
    if events.len() == 0 {
        lemma_initial_valid(total);
    } else {
        lemma_never_more_in_flight(total, events.drop_last());
        lemma_event_keeps_valid(after_all(initial(total), events.drop_last()), events.last());
    }
}

/// A report on one request, well or not, touches no other request, and the
/// slot it frees is free for the next in the queue whether or not the
/// request failed.
pub proof fn lemma_failure_is_isolated(batch: BatchView, index: int, well: bool)
    requires
        valid(batch),
        takes_report(batch, index),
    ensures
        forall|other: int|
            0 <= other < batch.states.len() && other != index ==> completed(
                batch,
                index,
                well,
            ).states[other] == batch.states[other],
        in_flight(completed(batch, index, well)) == in_flight(batch) - 1,
        started(completed(batch, index, well)) == started(batch),
        next_to_start(completed(batch, index, well)) == if started(batch) < batch.states.len() {
            Some(started(batch) as int)
        } else {
            None
        },
{
    let state = if well {
        RequestState::Succeeded
    } else {
        RequestState::Failed
    };
    lemma_count_update(batch.states, index, state, RequestState::Running);
    lemma_count_update(batch.states, index, state, RequestState::Queued);
}

/// What has ended stays as it ended: no event, and no failure of another
/// request, changes the state of a request that has succeeded or failed.
pub proof fn lemma_ended_stays(batch: BatchView, event: Event, index: int)
    requires
        valid(batch),
        0 <= index < batch.states.len(),
        batch.states[index] == RequestState::Succeeded || batch.states[index]
            == RequestState::Failed,
    ensures
        after(batch, event).states[index] == batch.states[index],
{
    lemma_queue_is_the_end(batch.states);
}

/// No event changes how many requests the batch holds.
pub proof fn lemma_batch_keeps_its_size(batch: BatchView, events: Seq<Event>)
    ensures
        after_all(batch, events).states.len() == batch.states.len(),
    decreases events.len(),
{
    if events.len() > 0 {
        lemma_batch_keeps_its_size(batch, events.drop_last());
    }
}

/// A request that was reported to have ended well has succeeded when the run
/// is over, whatever else happens in the run: the failure of another
/// request, before it or after it, does not undo it.
pub proof fn lemma_success_is_kept(total: nat, events: Seq<Event>, at: int, index: int)
    requires
        0 <= at < events.len(),
        events[at] == (Event::Complete { index, well: true }),
        takes_report(after_all(initial(total), events.take(at)), index),
    ensures
        0 <= index < total,
        after_all(initial(total), events).states.len() == total,
        after_all(initial(total), events).states[index] == RequestState::Succeeded,
    decreases events.len(),
{
    let front = events.drop_last();
    lemma_batch_keeps_its_size(initial(total), events);
    lemma_batch_keeps_its_size(initial(total), events.take(at));
    lemma_batch_keeps_its_size(initial(total), front);
    if at == events.len() - 1 {
        assert(events.take(at) == front);
    } else {
        assert(front.take(at) == events.take(at));
        lemma_success_is_kept(total, front, at, index);
        lemma_never_more_in_flight(total, front);
        lemma_ended_stays(after_all(initial(total), front), events.last(), index);
    }
}

/// As long as a request has not ended, the batch can go on: a request can
/// be started, or one runs whose report is awaited.
pub proof fn lemma_batch_goes_on(batch: BatchView)
    requires
        valid(batch),
        !done(batch),
    ensures
        next_to_start(batch) is Some || in_flight(batch) > 0,
{
    lemma_counts_add_up(batch.states);
}

/// When every request has ended, each has either succeeded or failed, and a
/// first failure is on record exactly if one of them failed.
pub proof fn lemma_done_batch(batch: BatchView)
    requires
        valid(batch),
        done(batch),
    ensures
        forall|i: int|
            0 <= i < batch.states.len() ==> #[trigger] batch.states[i] == RequestState::Succeeded
                || batch.states[i] == RequestState::Failed,
        batch.first_failure is Some <==> exists|i: int|
            0 <= i < batch.states.len() && batch.states[i] == RequestState::Failed,
{
    lemma_counts_add_up(batch.states);
    assert forall|i: int| 0 <= i < batch.states.len() implies #[trigger] batch.states[i]
        == RequestState::Succeeded || batch.states[i] == RequestState::Failed by {
        if batch.states[i] == RequestState::Queued {
            lemma_count_zero(batch.states, RequestState::Queued, i);
        }
        if batch.states[i] == RequestState::Running {
            lemma_count_zero(batch.states, RequestState::Running, i);
        }
    }
    if batch.first_failure is None {
        assert forall|i: int| 0 <= i < batch.states.len() implies batch.states[i]
            != RequestState::Failed by {
            if batch.states[i] == RequestState::Failed {
                lemma_count_zero(batch.states, RequestState::Failed, i);
            }
        }
    }
}

/// The coordinator of one batch of extractions.
#[derive(Debug)]
pub struct Coordinator {
    states: Vec<RequestState>,
    started: usize,
    running: usize,
    failure: Option<(usize, UnzipperError)>,
}

impl View for Coordinator {
    type V = BatchView;

    closed spec fn view(&self) -> BatchView {
        BatchView {
            states: self.states@,
            first_failure: match self.failure {
                Some((index, _)) => Some(index as int),
                None => None,
            },
        }
    }
}

impl Coordinator {
    #[verifier::type_invariant]
    spec fn kept(&self) -> bool {
        &&& valid(self@)
        &&& self.started == started(self@)
        &&& self.running == in_flight(self@)
    }

    /// The error of the request whose failure was reported first, if any
    /// was.
    pub closed spec fn first_error(&self) -> Option<UnzipperError> {
        match self.failure {
            Some((_, error)) => Some(error),
            None => None,
        }
    }

    /// The coordinator of a batch of `total` requests, none of them started.
    pub fn new(total: usize) -> (coordinator: Self)
        ensures
            coordinator@ == initial(total as nat),
            coordinator.first_error() is None,
    {
        let mut states: Vec<RequestState> = Vec::new();
        while states.len() < total
            invariant
                states.len() <= total,
                states@ == Seq::new(states.len() as nat, |i: int| RequestState::Queued),
            decreases total - states.len(),
        {
            states.push(RequestState::Queued);
        }
        proof {
            lemma_initial_valid(total as nat);
        }
        Coordinator { states, started: 0, running: 0, failure: None }
    }

    /// The number of requests in the batch.
    pub fn total(&self) -> (total: usize)
        ensures
            total == self@.states.len(),
    {
        self.states.len()
    }

    /// The number of requests that run now. It never exceeds
    /// `MAX_IN_FLIGHT`.
    pub fn in_flight(&self) -> (running: usize)
        ensures
            running == in_flight(self@),
            running <= MAX_IN_FLIGHT,
    {
        proof {
            use_type_invariant(self);
        }
        self.running
    }

    /// The number of requests that have ended, well or not: the position of
    /// the batch's overall progress.
    pub fn ended(&self) -> (count: usize)
        ensures
            count == ended(self@),
    {
        proof {
            use_type_invariant(self);
            lemma_counts_add_up(self@.states);
        }
        self.started - self.running
    }

    /// Whether every request has ended.
    pub fn is_done(&self) -> (yes: bool)
        ensures
            yes == done(self@),
    {
        proof {
            use_type_invariant(self);
            lemma_counts_add_up(self@.states);
        }
        self.started == self.states.len() && self.running == 0
    }

    /// Hands out the request to start next, if a slot is free and a request
    /// waits, and takes it as running from then on.
    pub fn dispatch(self) -> (next: (Self, Option<usize>))
        ensures
            next.0@ == dispatched(self@),
            next.0.first_error() == self.first_error(),
            match next.1 {
                Some(index) => next_to_start(self@) == Some(index as int),
                None => next_to_start(self@) is None,
            },
    {
        proof {
            use_type_invariant(&self);
            lemma_queue_is_the_end(self@.states);
            lemma_event_keeps_valid(self@, Event::Dispatch);
        }
        if self.running < MAX_IN_FLIGHT && self.started < self.states.len() {
            let index = self.started;
            let ghost before = self@;
            let mut states = self.states;
            states.set(index, RequestState::Running);
            proof {
                lemma_count_update(
                    before.states,
                    index as int,
                    RequestState::Running,
                    RequestState::Running,
                );
                lemma_count_update(
                    before.states,
                    index as int,
                    RequestState::Running,
                    RequestState::Queued,
                );
                lemma_counts_add_up(before.states);
                lemma_counts_add_up(states@);
            }
            (
                Coordinator {
                    states,
                    started: index + 1,
                    running: self.running + 1,
                    failure: self.failure,
                },
                Some(index),
            )
        } else {
            (self, None)
        }
    }

    /// Takes the report that the request at `index` ended with `outcome`.
    ///
    /// The first failure reported is kept as the failure of the batch. A
    /// report on a request that does not run changes nothing.
    pub fn complete(self, index: usize, outcome: Result<(), UnzipperError>) -> (next: Self)
        ensures
            next@ == completed(self@, index as int, outcome is Ok),
            next.first_error() == if takes_report(self@, index as int) && self.first_error() is None {
                match outcome {
                    Ok(_) => None,
                    Err(error) => Some(error),
                }
            } else {
                self.first_error()
            },
    {
        proof {
            use_type_invariant(&self);
            lemma_event_keeps_valid(
                self@,
                Event::Complete { index: index as int, well: outcome is Ok },
            );
        }
        if index >= self.states.len() {
            return self;
        }
        match self.states[index] {
            RequestState::Running => {},
            _ => {
                return self;
            },
        }
        let ghost before = self@;
        let mut states = self.states;
        match outcome {
            Ok(_) => {
                states.set(index, RequestState::Succeeded);
                proof {
                    lemma_count_update(
                        before.states,
                        index as int,
                        RequestState::Succeeded,
                        RequestState::Running,
                    );
                    lemma_count_update(
                        before.states,
                        index as int,
                        RequestState::Succeeded,
                        RequestState::Queued,
                    );
                }
                Coordinator {
                    states,
                    started: self.started,
                    running: self.running - 1,
                    failure: self.failure,
                }
            },
            Err(error) => {
                states.set(index, RequestState::Failed);
                proof {
                    lemma_count_update(
                        before.states,
                        index as int,
                        RequestState::Failed,
                        RequestState::Running,
                    );
                    lemma_count_update(
                        before.states,
                        index as int,
                        RequestState::Failed,
                        RequestState::Queued,
                    );
                }
                let failure = match self.failure {
                    Some(first) => Some(first),
                    None => Some((index, error)),
                };
                Coordinator {
                    states,
                    started: self.started,
                    running: self.running - 1,
                    failure,
                }
            },
        }
    }

    /// What the batch ends with: the error of the request whose failure was
    /// reported first, and success if no failure was reported.
    pub fn finish(self) -> (outcome: Result<(), UnzipperError>)
        ensures
            outcome == match self.first_error() {
                Some(error) => Err::<(), UnzipperError>(error),
                None => Ok::<(), UnzipperError>(()),
            },
            outcome is Err <==> self@.first_failure is Some,
    {
        match self.failure {
            Some((_, error)) => Err(error),
            None => Ok(()),
        }
    }
}

} // verus!
