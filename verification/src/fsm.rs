use vstd::prelude::*;
use crate::driver::{after_flush, CommandWrite, FlushOutcome, WriteOutcome};
use crate::types::{GpsError, GpsState};

verus! {

/// The outside work that the state machine asks for in its current state.
#[derive(Clone, Copy, Debug, PartialEq, Eq, Structural)]
pub enum FsmAction {
    /// Pulse the module's reset line and wait until it is ready again.
    ResetModule,
    /// Clear the parser state and send the default sentence configuration.
    PrepareAndConfigure,
    /// Read from the UART until an event can be emitted.
    ReadEvent,
    /// Wait before resetting the module.
    Backoff,
}

/// What the outside work reported back.
pub enum ActionOutcome<Ev, E> {
    ResetDone,
    Configured(Result<(), E>),
    Read(Result<Ev, E>),
    BackoffDone,
}

/// The action that each state asks for.
pub open spec fn action_of(s: GpsState) -> FsmAction {
    match s {
        GpsState::Reset => FsmAction::ResetModule,
        GpsState::SetupConnection => FsmAction::PrepareAndConfigure,
        GpsState::Running => FsmAction::ReadEvent,
        GpsState::Recover => FsmAction::Backoff,
    }
}

/// The outcome is the report of the action that the state asked for.
pub open spec fn outcome_fits<Ev, E>(s: GpsState, o: ActionOutcome<Ev, E>) -> bool {
    match s {
        GpsState::Reset => o is ResetDone,
        GpsState::SetupConnection => o is Configured,
        GpsState::Running => o is Read,
        GpsState::Recover => o is BackoffDone,
    }
}

/// One step of the machine: the next state and what the step returns.
pub open spec fn step_spec<Ev, E>(s: GpsState, o: ActionOutcome<Ev, E>) -> (GpsState, Result<Option<Ev>, E>) {
    match o {
        ActionOutcome::ResetDone => (GpsState::SetupConnection, Ok(None)),
        ActionOutcome::Configured(Ok(())) => (GpsState::Running, Ok(None)),
        ActionOutcome::Configured(Err(e)) => (s, Err(e)),
        ActionOutcome::Read(Ok(ev)) => (GpsState::Running, Ok(Some(ev))),
        ActionOutcome::Read(Err(e)) => (GpsState::Recover, Err(e)),
        ActionOutcome::BackoffDone => (GpsState::Reset, Ok(None)),
    }
}

impl GpsState {
    /// The state in which a freshly built machine starts: the driver has
    /// already pulsed the reset line, so the connection is set up next.
    pub fn initial() -> (s: GpsState)
        ensures
            s == GpsState::SetupConnection,
    {
        GpsState::SetupConnection
    }

    /// The outside work this state asks for.
    pub fn action(&self) -> (a: FsmAction)
        ensures
            a == action_of(*self),
    {
        match self {
            GpsState::Reset => FsmAction::ResetModule,
            GpsState::SetupConnection => FsmAction::PrepareAndConfigure,
            GpsState::Running => FsmAction::ReadEvent,
            GpsState::Recover => FsmAction::Backoff,
        }
    }

    /// Advances the machine with the report of the action it asked for, and
    /// returns what the step emits: `Ok(None)` while setting up or
    /// recovering, `Ok(Some(event))` for each event read while running, and
    /// the error of a failed action. A failed read moves to `Recover`; a
    /// failed configuration keeps the machine in `SetupConnection`.
    pub fn step<Ev, E>(&mut self, outcome: ActionOutcome<Ev, E>) -> (r: Result<Option<Ev>, E>)
        requires
            outcome_fits(*old(self), outcome),
        ensures
            (*final(self), r) == step_spec(*old(self), outcome),
    {
        match outcome {
            ActionOutcome::ResetDone => {
                *self = GpsState::SetupConnection;
                Ok(None)
            },
            ActionOutcome::Configured(Ok(())) => {
                *self = GpsState::Running;
                Ok(None)
            },
            ActionOutcome::Configured(Err(e)) => Err(e),
            ActionOutcome::Read(Ok(ev)) => Ok(Some(ev)),
            ActionOutcome::Read(Err(e)) => {
                *self = GpsState::Recover;
                Err(e)
            },
            ActionOutcome::BackoffDone => {
                *self = GpsState::Reset;
                Ok(None)
            },
        }
    }
}

/// The report of the action a state asks for when that action succeeds.
pub open spec fn success_of<Ev, E>(s: GpsState, ev: Ev) -> ActionOutcome<Ev, E> {
    match s {
        GpsState::Reset => ActionOutcome::ResetDone,
        GpsState::SetupConnection => ActionOutcome::Configured(Ok(())),
        GpsState::Running => ActionOutcome::Read(Ok(ev)),
        GpsState::Recover => ActionOutcome::BackoffDone,
    }
}

/// The state that follows when the action of `s` succeeds.
pub open spec fn next_on_success(s: GpsState) -> GpsState {
    match s {
        GpsState::Reset => GpsState::SetupConnection,
        GpsState::SetupConnection => GpsState::Running,
        GpsState::Running => GpsState::Running,
        GpsState::Recover => GpsState::Reset,
    }
}

/// The state after `n` steps whose actions all succeed.
pub open spec fn after_successes(s: GpsState, n: nat) -> GpsState
    decreases n,
{
    if n == 0 {
        s
    } else {
        after_successes(next_on_success(s), (n - 1) as nat)
    }
}

/// A successful action moves the machine as `next_on_success` says and
/// reports no error; only a successful read emits something, its event.
pub proof fn lemma_success_step<Ev, E>(s: GpsState, ev: Ev)
    ensures
        outcome_fits(s, success_of::<Ev, E>(s, ev)),
        step_spec(s, success_of::<Ev, E>(s, ev)).0 == next_on_success(s),
        step_spec(s, success_of::<Ev, E>(s, ev)).1 == (if s == GpsState::Running {
            Ok::<Option<Ev>, E>(Some(ev))
        } else {
            Ok::<Option<Ev>, E>(None)
        }),
{
}

/// From every state, at most three steps whose actions succeed bring the
/// machine to `Running`, and it stays there while reads succeed.
pub proof fn lemma_reaches_running(s: GpsState, n: nat)
    requires
        n >= 3,
    ensures
        after_successes(s, n) == GpsState::Running,
{
    reveal_with_fuel(after_successes, 4);
    assert(after_successes(s, 3) == GpsState::Running);
    lemma_after_successes_split(s, 3, (n - 3) as nat);
    lemma_running_stays(after_successes(s, 3), (n - 3) as nat);
}

proof fn lemma_running_stays(s: GpsState, n: nat)
    requires
        s == GpsState::Running,
    ensures
        after_successes(s, n) == GpsState::Running,
    decreases n,
{
    if n > 0 {
        lemma_running_stays(next_on_success(s), (n - 1) as nat);
    }
}

proof fn lemma_after_successes_split(s: GpsState, a: nat, b: nat)
    ensures
        after_successes(s, a + b) == after_successes(after_successes(s, a), b),
    decreases a,
{
    if a > 0 {
        lemma_after_successes_split(next_on_success(s), (a - 1) as nat, b);
    }
}

/// The machine recovers on its own after a failed read: the error is
/// returned, the machine backs off, resets the module and sets up the
/// connection again, and is running after those three actions succeed.
pub proof fn lemma_recovers_after_read_error<Ev, E>(e: E)
    ensures
        step_spec(GpsState::Running, ActionOutcome::<Ev, E>::Read(Err(e)))
            == (GpsState::Recover, Err::<Option<Ev>, E>(e)),
        action_of(GpsState::Recover) == FsmAction::Backoff,
        action_of(next_on_success(GpsState::Recover)) == FsmAction::ResetModule,
        action_of(after_successes(GpsState::Recover, 2)) == FsmAction::PrepareAndConfigure,
        after_successes(GpsState::Recover, 3) == GpsState::Running,
{
    reveal_with_fuel(after_successes, 4);
}

/// Every failed action is reported with its own error and nothing else is:
/// a failed configuration is retried from `SetupConnection`, a failed read
/// leads to `Recover`. An event is emitted exactly for a successful read,
/// which only the `Running` state asks for.
pub proof fn lemma_step_reports<Ev, E>(s: GpsState, o: ActionOutcome<Ev, E>)
    requires
        outcome_fits(s, o),
    ensures
        step_spec(s, o).1 is Err <==> (o matches ActionOutcome::Configured(Err(_))
            || o matches ActionOutcome::Read(Err(_))),
        o matches ActionOutcome::Configured(Err(e)) ==> step_spec(s, o) == (
            GpsState::SetupConnection,
            Err::<Option<Ev>, E>(e),
        ),
        o matches ActionOutcome::Read(Err(e)) ==> step_spec(s, o) == (
            GpsState::Recover,
            Err::<Option<Ev>, E>(e),
        ),
        (step_spec(s, o).1 matches Ok(Some(ev))) <==> (s == GpsState::Running && o matches ActionOutcome::Read(Ok(_))),
        step_spec(s, o).1 matches Ok(Some(ev)) ==> o == ActionOutcome::<Ev, E>::Read(Ok(ev)),
{
}

/// The transitions of the machine: every step moves along one of six
/// edges, emits an event exactly when it stays in `Running`, fails exactly
/// when configuration is retried or a read fails, and returns `Ok(None)`
/// on every other edge.
pub proof fn lemma_transition_table<Ev, E>(s: GpsState, o: ActionOutcome<Ev, E>)
    requires
        outcome_fits(s, o),
    ensures
        ({
            let (t, r) = step_spec(s, o);
            &&& (s, t) == (GpsState::Reset, GpsState::SetupConnection)
                || (s, t) == (GpsState::SetupConnection, GpsState::Running)
                || (s, t) == (GpsState::SetupConnection, GpsState::SetupConnection)
                || (s, t) == (GpsState::Running, GpsState::Running)
                || (s, t) == (GpsState::Running, GpsState::Recover)
                || (s, t) == (GpsState::Recover, GpsState::Reset)
            &&& (r matches Ok(Some(_))) <==> (s, t) == (GpsState::Running, GpsState::Running)
            &&& r is Err <==> ((s, t) == (GpsState::SetupConnection, GpsState::SetupConnection)
                || (s, t) == (GpsState::Running, GpsState::Recover))
            &&& (r matches Ok(None)) <==> ((s, t) == (GpsState::Reset, GpsState::SetupConnection)
                || (s, t) == (GpsState::SetupConnection, GpsState::Running)
                || (s, t) == (GpsState::Recover, GpsState::Reset))
        }),
{
}

/// The L76K state machine: the state that decides the next action.
pub struct GpsMachine {
    pub state: GpsState,
}

impl GpsMachine {
    /// A machine in its initial state.
    pub fn new() -> (m: GpsMachine)
        ensures
            m.state == GpsState::SetupConnection,
    {
        GpsMachine { state: GpsState::initial() }
    }

    /// The outside work the current state asks for.
    pub fn action(&self) -> (a: FsmAction)
        ensures
            a == action_of(self.state),
    {
        self.state.action()
    }

    /// Advances the machine with the report of the action it asked for.
    pub fn step<Ev, E>(&mut self, outcome: ActionOutcome<Ev, E>) -> (r: Result<Option<Ev>, E>)
        requires
            outcome_fits(old(self).state, outcome),
        ensures
            (final(self).state, r) == step_spec(old(self).state, outcome),
    {
        self.state.step(outcome)
    }

    /// Records one write of a command sent through the machine. Sending a
    /// command is no step: the machine stays as it is, so later steps go on
    /// as if no command had been sent, and a write fails only with an IO
    /// error or a timeout.
    pub fn command_write<E>(&mut self, progress: &mut CommandWrite, outcome: WriteOutcome<E>) -> (r: Result<(), GpsError<E>>)
        requires
            outcome matches WriteOutcome::Accepted(n) ==> old(progress).written() + n <= usize::MAX,
        ensures
            *final(self) == *old(self),
            final(progress).total() == old(progress).total(),
            old(progress).written() <= old(progress).total() && (outcome matches WriteOutcome::Accepted(n)
                && n <= old(progress).total() - old(progress).written())
                ==> final(progress).written() <= final(progress).total(),
            match outcome {
                WriteOutcome::Accepted(n) => if n == 0 {
                    r matches Err(GpsError::Timeout) && final(progress).written() == old(progress).written()
                } else {
                    r is Ok && final(progress).written() == old(progress).written() + n
                },
                WriteOutcome::Failed(e) => r == Err::<(), GpsError<E>>(GpsError::IO(e))
                    && final(progress).written() == old(progress).written(),
                WriteOutcome::TimedOut => r matches Err(GpsError::Timeout)
                    && final(progress).written() == old(progress).written(),
            },
    {
        progress.on_write(outcome)
    }

    /// Ends a command sent through the machine with its flush: the machine
    /// stays as it is, and the command fails only with an IO error or a
    /// timeout.
    pub fn command_flush<E>(&mut self, f: FlushOutcome<E>) -> (r: Result<(), GpsError<E>>)
        ensures
            *final(self) == *old(self),
            match f {
                FlushOutcome::Done => r is Ok,
                FlushOutcome::Failed(e) => r == Err::<(), GpsError<E>>(GpsError::IO(e)),
                FlushOutcome::TimedOut => r matches Err(GpsError::Timeout),
            },
    {
        after_flush(f)
    }
}

} // verus!
