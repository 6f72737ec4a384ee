//! The splice of two byte streams: what to do when a direction reaches
//! its end, and when the splice is over.
//!
//! Bytes are copied in both directions at once. When the source of a
//! direction ends, the write side of its destination is closed, so that
//! the peer sees the end and ends the other direction in turn. The splice
//! is over when both directions are done, or at the first failure.

use vstd::prelude::*;

verus! {

/// One of the two directions of a splice.
#[derive(Clone, Copy, Debug, PartialEq, Eq, Structural)]
pub enum Direction {
    /// From the inbound stream to the outbound stream.
    Forward,
    /// From the outbound stream to the inbound stream.
    Backward,
}

/// How far one direction of a splice has come.
#[derive(Clone, Copy, Debug, PartialEq, Eq, Structural)]
pub enum Flow {
    /// Bytes are being copied.
    Copying,
    /// The source has ended; the destination's write side is being closed.
    Closing,
    /// The destination's write side is closed.
    Done,
}

/// What happened on one direction of a splice.
#[derive(Clone, Copy, Debug, PartialEq, Eq, Structural)]
pub enum Event {
    /// The source of the direction ended.
    Eof(Direction),
    /// The write side of the direction's destination was closed.
    Closed(Direction),
    /// Reading, writing or closing failed on the direction.
    Failed(Direction),
}

/// What the splice does next.
#[derive(Clone, Copy, Debug, PartialEq, Eq, Structural)]
pub enum Action {
    /// Go on copying.
    Continue,
    /// Close the write side of the direction's destination.
    Shutdown(Direction),
    /// Both directions are done: the splice ends well.
    Finish,
    /// The splice ends with a failure.
    Abort,
}

/// The state of a splice.
#[derive(Clone, Copy, Debug, PartialEq, Eq, Structural)]
pub struct Splice {
    pub forward: Flow,
    pub backward: Flow,
    pub failed: bool,
}

/// The state of the direction `d`.
pub open spec fn flow_of(s: Splice, d: Direction) -> Flow {
    match d {
        Direction::Forward => s.forward,
        Direction::Backward => s.backward,
    }
}

/// The splice `s` with the direction `d` in state `f`.
pub open spec fn with_flow(s: Splice, d: Direction, f: Flow) -> Splice {
    match d {
        Direction::Forward => Splice { forward: f, backward: s.backward, failed: s.failed },
        Direction::Backward => Splice { forward: s.forward, backward: f, failed: s.failed },
    }
}

/// The splice is over: it failed, or both directions are done.
pub open spec fn is_over(s: Splice) -> bool {
    s.failed || (s.forward == Flow::Done && s.backward == Flow::Done)
}

/// The state that follows `s` on the event `e`. An event that does not
/// fit the state of its direction, or comes when the splice is over,
/// changes nothing.
pub open spec fn next_state(s: Splice, e: Event) -> Splice {
    if is_over(s) {
        s
    } else {
        match e {
            Event::Failed(_) => Splice { forward: s.forward, backward: s.backward, failed: true },
            Event::Eof(d) => if flow_of(s, d) == Flow::Copying {
                with_flow(s, d, Flow::Closing)
            } else {
                s
            },
            Event::Closed(d) => if flow_of(s, d) == Flow::Closing {
                with_flow(s, d, Flow::Done)
            } else {
                s
            },
        }
    }
}

/// What the splice does on the event `e` in state `s`.
pub open spec fn action_on(s: Splice, e: Event) -> Action {
    if s.failed {
        Action::Abort
    } else if is_over(s) {
        Action::Finish
    } else {
        match e {
            Event::Failed(_) => Action::Abort,
            Event::Eof(d) => if flow_of(s, d) == Flow::Copying {
                Action::Shutdown(d)
            } else {
                Action::Continue
            },
            Event::Closed(_) => if is_over(next_state(s, e)) {
                Action::Finish
            } else {
                Action::Continue
            },
        }
    }
}

impl Splice {
    /// A splice that copies in both directions.
    pub fn new() -> (s: Splice)
        ensures
            s == (Splice { forward: Flow::Copying, backward: Flow::Copying, failed: false }),
    {
        Splice { forward: Flow::Copying, backward: Flow::Copying, failed: false }
    }

    /// The state of a direction.
    pub fn flow(&self, d: Direction) -> (f: Flow)
        ensures
            f == flow_of(*self, d),
    {
        match d {
            Direction::Forward => self.forward,
            Direction::Backward => self.backward,
        }
    }

    /// Whether the splice is over.
    pub fn is_finished(&self) -> (r: bool)
        ensures
            r == is_over(*self),
    {
        self.failed || (matches!(self.forward, Flow::Done) && matches!(self.backward, Flow::Done))
    }

    /// Takes an event and says what to do next.
    pub fn step(&mut self, e: Event) -> (a: Action)
        ensures
            *final(self) == next_state(*old(self), e),
            a == action_on(*old(self), e),
    {
        if self.failed {
            return Action::Abort;
        }
        if self.is_finished() {
            return Action::Finish;
        }
        match e {
            Event::Failed(_) => {
                self.failed = true;
                Action::Abort
            },
            Event::Eof(d) => {
                if matches!(self.flow(d), Flow::Copying) {
                    self.set(d, Flow::Closing);
                    Action::Shutdown(d)
                } else {
                    Action::Continue
                }
            },
            Event::Closed(d) => {
                if matches!(self.flow(d), Flow::Closing) {
                    self.set(d, Flow::Done);
                }
                if self.is_finished() {
                    Action::Finish
                } else {
                    Action::Continue
                }
            },
        }
    }

    /// Puts a direction into a state.
    fn set(&mut self, d: Direction, f: Flow)
        ensures
            *final(self) == with_flow(*old(self), d, f),
    {
        match d {
            Direction::Forward => { self.forward = f; },
            Direction::Backward => { self.backward = f; },
        }
    }
}

/// A splice ends well only when both directions were closed: each source
/// ended and each destination's write side was shut down.
pub proof fn lemma_finish_needs_both(s: Splice, e: Event)
    requires
        action_on(s, e) == Action::Finish,
    ensures
        !next_state(s, e).failed,
        next_state(s, e).forward == Flow::Done,
        next_state(s, e).backward == Flow::Done,
{
}

/// The end of a source is answered by closing its destination, and by
/// nothing else; the other direction goes on as it was.
pub proof fn lemma_eof_half_closes(s: Splice, d: Direction)
    requires
        !is_over(s),
        flow_of(s, d) == Flow::Copying,
    ensures
        action_on(s, Event::Eof(d)) == Action::Shutdown(d),
        flow_of(next_state(s, Event::Eof(d)), d) == Flow::Closing,
        forall|o: Direction| o != d ==> flow_of(next_state(s, Event::Eof(d)), o) == flow_of(s, o),
{
}

/// A failure on either direction ends the splice, and a splice that is
/// over stays as it is.
pub proof fn lemma_failure_aborts(s: Splice, d: Direction, e: Event)
    ensures
        !is_over(s) ==> action_on(s, Event::Failed(d)) == Action::Abort && is_over(
            next_state(s, Event::Failed(d)),
        ),
        is_over(s) ==> next_state(s, e) == s,
{
}

} // verus!
