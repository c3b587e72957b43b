use vstd::prelude::*;

verus! {

/// Minutes a session waits for the callback before it gives up.
pub const TIMEOUT_MINUTES: u64 = 10;

/// One step of tearing down or setting up a session, in the order the
/// caller performs them.
#[derive(Debug, Clone, Copy, PartialEq, Eq, Structural)]
pub enum Command {
    /// Fire the running session's cancellation signal.
    SignalCancel,
    /// Wait until the running session's task has exited.
    AwaitTask,
    /// Bind a new listener on an ephemeral loopback port and spawn its task.
    BindListener,
}

/// The steps of `start`: a running session is cancelled and awaited before
/// the new listener is bound.
pub open spec fn start_steps(active: bool) -> Seq<Command> {
    if active {
        seq![Command::SignalCancel, Command::AwaitTask, Command::BindListener]
    } else {
        seq![Command::BindListener]
    }
}

/// The steps of `cancel`: none when no session runs.
pub open spec fn cancel_steps(active: bool) -> Seq<Command> {
    if active {
        seq![Command::SignalCancel, Command::AwaitTask]
    } else {
        Seq::empty()
    }
}

/// The steps that start a session, given whether one is running.
pub fn start_plan(active: bool) -> (r: Vec<Command>)
    ensures
        r@ == start_steps(active),
{
    let mut r: Vec<Command> = Vec::new();
    if active {
        r.push(Command::SignalCancel);
        r.push(Command::AwaitTask);
    }
    r.push(Command::BindListener);
    proof {
        assert(r@ =~= start_steps(active));
    }
    r
}

/// The steps that cancel the session, given whether one is running.
pub fn cancel_plan(active: bool) -> (r: Vec<Command>)
    ensures
        r@ == cancel_steps(active),
{
    let mut r: Vec<Command> = Vec::new();
    if active {
        r.push(Command::SignalCancel);
        r.push(Command::AwaitTask);
    }
    proof {
        assert(r@ =~= cancel_steps(active));
    }
    r
}

/// What the session loop observed at its wait point.
#[derive(Debug)]
pub enum LoopEvent {
    /// The cancellation signal fired.
    Cancelled,
    /// The session's time ran out.
    TimedOut,
    /// A connection was handled; it captured the query mapping, or nothing.
    Handled(Option<Vec<(Vec<u8>, Vec<u8>)>>),
    /// Reading or writing a connection failed.
    ConnectionFailed,
    /// Accepting a connection failed.
    AcceptFailed,
}

/// What the session loop does next.
#[derive(Debug)]
pub enum LoopAction {
    /// Wait for the next event.
    Continue,
    /// Leave the loop.
    Exit,
    /// Fire the cancellation signal, then leave the loop.
    CancelAndExit,
    /// Fire the cancellation signal, hand the captured mapping to the
    /// notification sink, then leave the loop.
    DeliverAndExit(Vec<(Vec<u8>, Vec<u8>)>),
}

/// The decisions of one session's loop. Once the session is cancelled,
/// whatever comes next only makes the loop exit.
#[derive(Debug)]
pub struct SessionLoop {
    pub cancelled: bool,
    pub delivered: bool,
}

/// The loop's next action and state for an event.
pub open spec fn step_spec(cancelled: bool, delivered: bool, e: LoopEvent) -> (
    LoopAction,
    bool,
    bool,
) {
    if cancelled {
        (LoopAction::Exit, cancelled, delivered)
    } else {
        match e {
            LoopEvent::Cancelled => (LoopAction::Exit, true, delivered),
            LoopEvent::TimedOut => (LoopAction::CancelAndExit, true, delivered),
            LoopEvent::Handled(Some(q)) => (LoopAction::DeliverAndExit(q), true, true),
            _ => (LoopAction::Continue, cancelled, delivered),
        }
    }
}

/// The number of captures delivered while the loop runs through `es`.
pub open spec fn deliveries(cancelled: bool, delivered: bool, es: Seq<LoopEvent>) -> nat
    decreases es.len(),
{
    if es.len() == 0 {
        0
    } else {
        let (a, c, d) = step_spec(cancelled, delivered, es[0]);
        (if a is DeliverAndExit {
            1nat
        } else {
            0nat
        }) + deliveries(c, d, es.drop_first())
    }
}

/// Once a session is cancelled, no sequence of events delivers a capture.
pub proof fn law_no_delivery_after_cancel(delivered: bool, es: Seq<LoopEvent>)
    ensures
        deliveries(true, delivered, es) == 0,
    decreases es.len(),
{
    if es.len() > 0 {
        law_no_delivery_after_cancel(delivered, es.drop_first());
    }
}

/// A session delivers at most one capture, whatever events it sees.
pub proof fn law_at_most_one_delivery(delivered: bool, es: Seq<LoopEvent>)
    ensures
        deliveries(false, delivered, es) <= 1,
    decreases es.len(),
{
    if es.len() > 0 {
        let (a, c, d) = step_spec(false, delivered, es[0]);
        if c {
            law_no_delivery_after_cancel(d, es.drop_first());
        } else {
            law_at_most_one_delivery(d, es.drop_first());
        }
    }
}

/// A timeout cancels the session as an external cancel does, and no
/// capture is delivered afterwards.
pub proof fn law_timeout_cancels_without_capture(delivered: bool, es: Seq<LoopEvent>)
    ensures
        step_spec(false, delivered, LoopEvent::TimedOut) == (
            LoopAction::CancelAndExit,
            true,
            delivered,
        ),
        step_spec(false, delivered, LoopEvent::TimedOut).1 == step_spec(
            false,
            delivered,
            LoopEvent::Cancelled,
        ).1,
        deliveries(false, delivered, seq![LoopEvent::TimedOut] + es) == 0,
{
    let all = seq![LoopEvent::TimedOut] + es;
    assert(all.drop_first() =~= es);
    law_no_delivery_after_cancel(delivered, es);
}

/// A request that captures nothing leaves the session running, and a later
/// capture is still delivered.
pub proof fn law_bad_request_keeps_session(delivered: bool, q: Vec<(Vec<u8>, Vec<u8>)>)
    ensures
        step_spec(false, delivered, LoopEvent::Handled(None)) == (
            LoopAction::Continue,
            false,
            delivered,
        ),
        step_spec(false, delivered, LoopEvent::Handled(Some(q))) == (
            LoopAction::DeliverAndExit(q),
            true,
            true,
        ),
{
}

impl SessionLoop {
    /// A fresh session: not cancelled, nothing delivered.
    pub fn new() -> (r: SessionLoop)
        ensures
            !r.cancelled,
            !r.delivered,
    {
        SessionLoop { cancelled: false, delivered: false }
    }

    /// Decides what to do with an event. A capture is delivered only while
    /// the session is not cancelled, and cancels it; a timeout cancels it
    /// without a capture; a bad request or a failed connection or accept
    /// leaves it running.
    pub fn step(&mut self, event: LoopEvent) -> (a: LoopAction)
        ensures
            (a, final(self).cancelled, final(self).delivered) == step_spec(
                old(self).cancelled,
                old(self).delivered,
                event,
            ),
    {
        if self.cancelled {
            return LoopAction::Exit;
        }
        match event {
            LoopEvent::Cancelled => {
                self.cancelled = true;
                LoopAction::Exit
            },
            LoopEvent::TimedOut => {
                self.cancelled = true;
                LoopAction::CancelAndExit
            },
            LoopEvent::Handled(Some(q)) => {
                self.cancelled = true;
                self.delivered = true;
                LoopAction::DeliverAndExit(q)
            },
            LoopEvent::Handled(None) => LoopAction::Continue,
            LoopEvent::ConnectionFailed => LoopAction::Continue,
            LoopEvent::AcceptFailed => LoopAction::Continue,
        }
    }
}

} // verus!
