//! The orchestrator: it has the three backends fetch and reports their three
//! outcomes together. No outcome depends on another.
//!
//! The orchestrator decides; its caller acts. The caller hands in what
//! happened as an [`Event`] and carries out the [`Action`] that comes back.

use crate::error::FetchError;
use vstd::prelude::*;

verus! {

/// How far a run has come.
#[derive(Clone, Copy, Debug, PartialEq, Eq, Structural)]
pub enum Phase {
    NotStarted,
    AllDispatched,
    AllCompleted,
}

/// One of the three backends.
#[derive(Clone, Copy, Debug, PartialEq, Eq, Structural)]
pub enum Backend {
    Rpc,
    Relational,
    Document,
}

/// What the caller is to do next.
#[derive(Clone, Copy, Debug, PartialEq, Eq, Structural)]
pub enum Action {
    /// Start the three fetches, together.
    DispatchAll,
    /// Wait for the next outcome.
    Wait,
    /// All three outcomes are in: report them.
    Report,
}

/// What happened: the run was asked to start, or a backend's fetch ended.
#[derive(Debug, PartialEq, Eq)]
pub enum Event<A, B, C> {
    Start,
    RpcDone(Result<A, FetchError>),
    RelationalDone(Result<B, FetchError>),
    DocumentDone(Result<C, FetchError>),
}

/// The three outcomes of a completed run.
#[derive(Debug, PartialEq, Eq)]
pub struct Report<A, B, C> {
    pub rpc: Result<A, FetchError>,
    pub relational: Result<B, FetchError>,
    pub document: Result<C, FetchError>,
}

/// A run: its phase and the outcomes that are in.
#[derive(Debug, PartialEq, Eq)]
pub struct Orchestrator<A, B, C> {
    phase: Phase,
    rpc: Option<Result<A, FetchError>>,
    relational: Option<Result<B, FetchError>>,
    document: Option<Result<C, FetchError>>,
}

pub struct RunView<A, B, C> {
    pub phase: Phase,
    pub rpc: Option<Result<A, FetchError>>,
    pub relational: Option<Result<B, FetchError>>,
    pub document: Option<Result<C, FetchError>>,
}

impl<A, B, C> RunView<A, B, C> {
    /// No outcome is in before the start, all three are in at completion and
    /// only then.
    pub open spec fn well_formed(self) -> bool {
        match self.phase {
            Phase::NotStarted => self.rpc is None && self.relational is None && self.document is None,
            Phase::AllDispatched => !(self.rpc is Some && self.relational is Some && self.document is Some),
            Phase::AllCompleted => self.rpc is Some && self.relational is Some && self.document is Some,
        }
    }

    /// The run with the phase that its outcomes call for, once started.
    pub open spec fn settled(self) -> RunView<A, B, C> {
        if self.rpc is Some && self.relational is Some && self.document is Some {
            RunView { phase: Phase::AllCompleted, ..self }
        } else {
            RunView { phase: Phase::AllDispatched, ..self }
        }
    }

    /// The run after an event. `Start` dispatches a run that has not started.
    /// An outcome is taken while the run is dispatched and that backend has
    /// none yet; the run completes with the third. Every other event leaves
    /// the run as it is.
    pub open spec fn stepped(self, event: Event<A, B, C>) -> RunView<A, B, C> {
        match (self.phase, event) {
            (Phase::NotStarted, Event::Start) => RunView { phase: Phase::AllDispatched, ..self },
            (Phase::AllDispatched, Event::RpcDone(outcome)) => if self.rpc is None {
                (RunView { rpc: Some(outcome), ..self }).settled()
            } else {
                self
            },
            (Phase::AllDispatched, Event::RelationalDone(outcome)) => if self.relational is None {
                (RunView { relational: Some(outcome), ..self }).settled()
            } else {
                self
            },
            (Phase::AllDispatched, Event::DocumentDone(outcome)) => if self.document is None {
                (RunView { document: Some(outcome), ..self }).settled()
            } else {
                self
            },
            _ => self,
        }
    }

    /// What the caller is to do after an event: dispatch on the start of a
    /// run, report when the event completed it, and wait otherwise.
    pub open spec fn action_after(self, event: Event<A, B, C>) -> Action {
        if self.phase == Phase::NotStarted && event is Start {
            Action::DispatchAll
        } else if self.phase == Phase::AllDispatched && self.stepped(event).phase == Phase::AllCompleted {
            Action::Report
        } else {
            Action::Wait
        }
    }
}

impl<A, B, C> View for Orchestrator<A, B, C> {
    type V = RunView<A, B, C>;

    closed spec fn view(&self) -> RunView<A, B, C> {
        RunView { phase: self.phase, rpc: self.rpc, relational: self.relational, document: self.document }
    }
}

impl<A, B, C> Orchestrator<A, B, C> {
    #[verifier::type_invariant]
    spec fn consistent(self) -> bool {
        self@.well_formed()
    }

    /// A run that has not started.
    pub fn new() -> (run: Orchestrator<A, B, C>)
        ensures
            run@ == (RunView::<A, B, C> { phase: Phase::NotStarted, rpc: None, relational: None, document: None }),
    {
        Orchestrator { phase: Phase::NotStarted, rpc: None, relational: None, document: None }
    }

    /// The phase of the run.
    pub fn phase(&self) -> (phase: Phase)
        ensures
            phase == self@.phase,
            self@.well_formed(),
    {
        proof {
            use_type_invariant(self);
        }
        self.phase
    }

    /// Takes one event and says what to do next.
    pub fn step(self, event: Event<A, B, C>) -> (next: (Orchestrator<A, B, C>, Action))
        ensures
            next.0@ == self@.stepped(event),
            next.1 == self@.action_after(event),
    {
        proof {
            use_type_invariant(&self);
        }
        let Orchestrator { phase, rpc, relational, document } = self;
        match (phase, event) {
            (Phase::NotStarted, Event::Start) => (
                Orchestrator { phase: Phase::AllDispatched, rpc, relational, document },
                Action::DispatchAll,
            ),
            (Phase::AllDispatched, Event::RpcDone(outcome)) => {
                if rpc.is_none() {
                    Self::settle(Some(outcome), relational, document)
                } else {
                    (Orchestrator { phase, rpc, relational, document }, Action::Wait)
                }
            },
            (Phase::AllDispatched, Event::RelationalDone(outcome)) => {
                if relational.is_none() {
                    Self::settle(rpc, Some(outcome), document)
                } else {
                    (Orchestrator { phase, rpc, relational, document }, Action::Wait)
                }
            },
            (Phase::AllDispatched, Event::DocumentDone(outcome)) => {
                if document.is_none() {
                    Self::settle(rpc, relational, Some(outcome))
                } else {
                    (Orchestrator { phase, rpc, relational, document }, Action::Wait)
                }
            },
            (phase, _) => (Orchestrator { phase, rpc, relational, document }, Action::Wait),
        }
    }

    fn settle(
        rpc: Option<Result<A, FetchError>>,
        relational: Option<Result<B, FetchError>>,
        document: Option<Result<C, FetchError>>,
    ) -> (next: (Orchestrator<A, B, C>, Action))
        ensures
            next.0@ == (RunView { phase: Phase::AllDispatched, rpc, relational, document }).settled(),
            next.1 == if next.0@.phase == Phase::AllCompleted {
                Action::Report
            } else {
                Action::Wait
            },
    {
        if rpc.is_some() && relational.is_some() && document.is_some() {
            (Orchestrator { phase: Phase::AllCompleted, rpc, relational, document }, Action::Report)
        } else {
            (Orchestrator { phase: Phase::AllDispatched, rpc, relational, document }, Action::Wait)
        }
    }

    /// The three outcomes, once the run has completed.
    pub fn into_report(self) -> (report: Option<Report<A, B, C>>)
        ensures
            report is Some <==> self@.phase == Phase::AllCompleted,
            report matches Some(r) ==> {
                &&& self@.rpc == Some(r.rpc)
                &&& self@.relational == Some(r.relational)
                &&& self@.document == Some(r.document)
            },
    {
        proof {
            use_type_invariant(&self);
        }
        let Orchestrator { phase, rpc, relational, document } = self;
        match (phase, rpc, relational, document) {
            (Phase::AllCompleted, Some(rpc), Some(relational), Some(document)) => Some(
                Report { rpc, relational, document },
            ),
            _ => None,
        }
    }
}

/// The event that delivers the outcome of `backend`.
pub open spec fn done<A, B, C>(
    backend: Backend,
    rpc: Result<A, FetchError>,
    relational: Result<B, FetchError>,
    document: Result<C, FetchError>,
) -> Event<A, B, C> {
    match backend {
        Backend::Rpc => Event::RpcDone(rpc),
        Backend::Relational => Event::RelationalDone(relational),
        Backend::Document => Event::DocumentDone(document),
    }
}

/// Every event leaves a well-formed run well formed.
pub proof fn stepping_keeps_runs_well_formed<A, B, C>(run: RunView<A, B, C>, event: Event<A, B, C>)
    requires
        run.well_formed(),
    ensures
        run.stepped(event).well_formed(),
{
}

/// An outcome that is in stays as it is, whatever happens afterwards, and an
/// event of one backend leaves the outcomes of the other two untouched: a
/// failure of one cannot keep another from being recorded.
pub proof fn outcomes_are_independent<A, B, C>(run: RunView<A, B, C>, event: Event<A, B, C>)
    ensures
        run.rpc is Some ==> run.stepped(event).rpc == run.rpc,
        run.relational is Some ==> run.stepped(event).relational == run.relational,
        run.document is Some ==> run.stepped(event).document == run.document,
        !(event is RpcDone) ==> run.stepped(event).rpc == run.rpc,
        !(event is RelationalDone) ==> run.stepped(event).relational == run.relational,
        !(event is DocumentDone) ==> run.stepped(event).document == run.document,
{
}

/// A run that is started and then given the three outcomes, in any order and
/// whether they are values or errors, completes with the third and holds all
/// three as they were given.
pub proof fn three_outcomes_complete_a_run<A, B, C>(
    first: Backend,
    second: Backend,
    third: Backend,
    rpc: Result<A, FetchError>,
    relational: Result<B, FetchError>,
    document: Result<C, FetchError>,
)
    requires
        first != second,
        first != third,
        second != third,
    ensures
        ({
            let fresh = RunView::<A, B, C> {
                phase: Phase::NotStarted,
                rpc: None,
                relational: None,
                document: None,
            };
            let one = fresh.stepped(Event::Start).stepped(done(first, rpc, relational, document));
            let two = one.stepped(done(second, rpc, relational, document));
            let three = two.stepped(done(third, rpc, relational, document));
            &&& fresh.action_after(Event::Start) == Action::DispatchAll
            &&& one.phase == Phase::AllDispatched
            &&& two.phase == Phase::AllDispatched
            &&& two.action_after(done(third, rpc, relational, document)) == Action::Report
            &&& three == (RunView {
                phase: Phase::AllCompleted,
                rpc: Some(rpc),
                relational: Some(relational),
                document: Some(document),
            })
        }),
{
}

} // verus!
