//! The dispatcher's decisions, in steady-state form: while fewer than `T`
//! workers are in flight it starts one; otherwise it polls the running ones
//! and counts those that finished. It stops at the first clock reading past
//! the budget; workers still running then are abandoned and not counted.
//!
//! The caller performs each action (starting a thread, checking which have
//! finished, reading the clock) and reports what happened as an [`Event`].
use crate::config::Settings;
use vstd::prelude::*;

verus! {

/// What the caller should do next.
#[derive(Clone, Copy, Debug, PartialEq, Eq, Structural)]
pub enum Action {
    /// Start one more worker.
    Spawn,
    /// Look for finished workers, join them, and report each.
    Poll,
    /// The window is over: report the score.
    Stop,
}

/// What happened since the last decision.
#[derive(Clone, Copy, Debug, PartialEq, Eq, Structural)]
pub enum Event {
    /// One worker was started.
    Spawned,
    /// One worker was joined; `succeeded` is false where it panicked.
    Finished { succeeded: bool },
    /// The clock read `elapsed_nanos` since the window began.
    Clock { elapsed_nanos: u128 },
}

/// The dispatcher's whole state.
#[derive(Clone, Copy, Debug, PartialEq, Eq, Structural)]
pub struct DispatchState {
    /// The concurrency level `T`.
    pub threads: u32,
    /// The window length `S`, in nanoseconds.
    pub budget_nanos: u128,
    /// Workers started and not yet joined.
    pub in_flight: u32,
    /// Workers joined that finished normally.
    pub completed: u64,
    /// Workers joined that panicked.
    pub failed: u64,
    /// The window is over.
    pub stopped: bool,
}

impl DispatchState {
    /// At least one worker may run, and no more than `T` are in flight.
    pub open spec fn wf(&self) -> bool {
        self.threads > 0 && self.in_flight <= self.threads
    }

    /// The state at the start of the window.
    pub open spec fn initial(settings: Settings) -> DispatchState {
        DispatchState {
            threads: settings.threads,
            budget_nanos: settings.budget_nanos,
            in_flight: 0,
            completed: 0,
            failed: 0,
            stopped: false,
        }
    }

    /// The next action in this state.
    pub open spec fn action(&self) -> Action {
        if self.stopped {
            Action::Stop
        } else if self.in_flight < self.threads {
            Action::Spawn
        } else {
            Action::Poll
        }
    }

    /// The event can happen here: a worker is started only when one was asked
    /// for, only a worker in flight is joined, and the counters have room.
    pub open spec fn accepts(&self, e: Event) -> bool {
        match e {
            Event::Spawned => !self.stopped && self.in_flight < self.threads,
            Event::Finished { succeeded } => self.stopped || (self.in_flight > 0 && if succeeded {
                self.completed < u64::MAX
            } else {
                self.failed < u64::MAX
            }),
            Event::Clock { .. } => true,
        }
    }

    /// The state after the event. Once stopped, nothing changes any more.
    pub open spec fn apply(self, e: Event) -> DispatchState {
        if self.stopped {
            self
        } else {
            match e {
                Event::Spawned => DispatchState { in_flight: (self.in_flight + 1) as u32, ..self },
                Event::Finished { succeeded } => if succeeded {
                    DispatchState {
                        in_flight: (self.in_flight - 1) as u32,
                        completed: (self.completed + 1) as u64,
                        ..self
                    }
                } else {
                    DispatchState {
                        in_flight: (self.in_flight - 1) as u32,
                        failed: (self.failed + 1) as u64,
                        ..self
                    }
                },
                Event::Clock { elapsed_nanos } => if elapsed_nanos > self.budget_nanos {
                    DispatchState { stopped: true, ..self }
                } else {
                    self
                },
            }
        }
    }

    /// Every event of `es`, in turn, can happen.
    pub open spec fn accepts_all(self, es: Seq<Event>) -> bool
        decreases es.len(),
    {
        es.len() == 0 || (self.accepts(es[0]) && self.apply(es[0]).accepts_all(es.drop_first()))
    }

    /// The state after the events of `es`, in turn.
    pub open spec fn apply_all(self, es: Seq<Event>) -> DispatchState
        decreases es.len(),
    {
        if es.len() == 0 {
            self
        } else {
            self.apply(es[0]).apply_all(es.drop_first())
        }
    }
}

/// The dispatcher of one measurement window.
pub struct Dispatcher {
    state: DispatchState,
}

impl View for Dispatcher {
    type V = DispatchState;

    closed spec fn view(&self) -> DispatchState {
        self.state
    }
}

impl Dispatcher {
    /// A dispatcher for a window with these settings: nothing in flight,
    /// nothing counted.
    pub fn new(settings: Settings) -> (r: Self)
        requires
            settings.valid(),
        ensures
            r@ == DispatchState::initial(settings),
            r@.wf(),
    {
        Dispatcher {
            state: DispatchState {
                threads: settings.threads,
                budget_nanos: settings.budget_nanos,
                in_flight: 0,
                completed: 0,
                failed: 0,
                stopped: false,
            },
        }
    }

    /// The current state.
    pub fn state(&self) -> (r: DispatchState)
        ensures
            r == self@,
    {
        self.state
    }

    /// What to do next: stop once the window is over, else start a worker
    /// while fewer than `T` are in flight, else poll.
    pub fn next_action(&self) -> (r: Action)
        ensures
            r == self@.action(),
    {
        if self.state.stopped {
            Action::Stop
        } else if self.state.in_flight < self.state.threads {
            Action::Spawn
        } else {
            Action::Poll
        }
    }

    /// Whether `e` can be reported now.
    pub fn accepts(&self, e: Event) -> (r: bool)
        ensures
            r == self@.accepts(e),
    {
        let s = &self.state;
        match e {
            Event::Spawned => !s.stopped && s.in_flight < s.threads,
            Event::Finished { succeeded } => s.stopped || (s.in_flight > 0 && if succeeded {
                s.completed < u64::MAX
            } else {
                s.failed < u64::MAX
            }),
            Event::Clock { .. } => true,
        }
    }

    /// Takes in what happened. The completion counter never decreases.
    pub fn observe(&mut self, e: Event)
        requires
            old(self)@.wf(),
            old(self)@.accepts(e),
        ensures
            final(self)@ == old(self)@.apply(e),
            final(self)@.wf(),
            final(self)@.completed >= old(self)@.completed,
    {
        if self.state.stopped {
            return ;
        }
        match e {
            Event::Spawned => {
                self.state.in_flight = self.state.in_flight + 1;
            },
            Event::Finished { succeeded } => {
                self.state.in_flight = self.state.in_flight - 1;
                if succeeded {
                    self.state.completed = self.state.completed + 1;
                } else {
                    self.state.failed = self.state.failed + 1;
                }
            },
            Event::Clock { elapsed_nanos } => {
                if elapsed_nanos > self.state.budget_nanos {
                    self.state.stopped = true;
                }
            },
        }
    }
}

/// The concurrency level is never exceeded: after any events that can happen
/// in turn, at most `T` workers are in flight, and `T` and the budget are
/// those the window began with.
pub proof fn lemma_within_concurrency(s: DispatchState, es: Seq<Event>)
    requires
        s.wf(),
        s.accepts_all(es),
    ensures
        s.apply_all(es).wf(),
        s.apply_all(es).threads == s.threads,
        s.apply_all(es).budget_nanos == s.budget_nanos,
    decreases es.len(),
{
    if es.len() > 0 {
        lemma_within_concurrency(s.apply(es[0]), es.drop_first());
    }
}

/// The dispatcher never waits on nothing: while the window is open it either
/// may start a worker, or it polls with at least one worker in flight. This
/// holds for every `T >= 1`, a single worker included.
pub proof fn lemma_progress(s: DispatchState)
    requires
        s.wf(),
        !s.stopped,
    ensures
        s.action() == Action::Spawn ==> s.accepts(Event::Spawned),
        s.action() == Action::Poll ==> s.in_flight > 0,
        s.action() != Action::Stop,
{
}

/// The completion counter never decreases over the window.
pub proof fn lemma_counter_monotone(s: DispatchState, es: Seq<Event>)
    requires
        s.wf(),
        s.accepts_all(es),
    ensures
        s.apply_all(es).completed >= s.completed,
    decreases es.len(),
{
    if es.len() > 0 {
        lemma_counter_monotone(s.apply(es[0]), es.drop_first());
    }
}

/// The window ends only on a clock reading past the budget: a dispatcher
/// that was running and has stopped saw such a reading among the events.
pub proof fn lemma_stops_only_past_budget(s: DispatchState, es: Seq<Event>)
    requires
        !s.stopped,
        s.apply_all(es).stopped,
    ensures
        exists|k: int|
            0 <= k < es.len() && (#[trigger] es[k] matches Event::Clock { elapsed_nanos }
                && elapsed_nanos > s.budget_nanos),
    decreases es.len(),
{
    let t = s.apply(es[0]);
    if t.stopped {
        assert(es[0] matches Event::Clock { elapsed_nanos } && elapsed_nanos > s.budget_nanos);
    } else {
        assert(t.budget_nanos == s.budget_nanos);
        lemma_stops_only_past_budget(t, es.drop_first());
        let k = choose|k: int|
            0 <= k < es.drop_first().len() && (#[trigger] es.drop_first()[k] matches Event::Clock {
                elapsed_nanos,
            } && elapsed_nanos > t.budget_nanos);
        assert(es[k + 1] == es.drop_first()[k]);
    }
}

/// Once the window is over the state is final: whatever is reported later,
/// the count stays as it was when the dispatcher stopped.
pub proof fn lemma_stopped_is_final(s: DispatchState, es: Seq<Event>)
    requires
        s.stopped,
    ensures
        s.apply_all(es) == s,
    decreases es.len(),
{
    if es.len() > 0 {
        lemma_stopped_is_final(s.apply(es[0]), es.drop_first());
    }
}

} // verus!
