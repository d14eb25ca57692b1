use vstd::prelude::*;

verus! {

/// How a poll of the event loop waits: until an event comes, not at all,
/// or at most a given time.
#[derive(Debug, Clone, Copy, PartialEq, Eq, Structural)]
pub enum WaitMode {
    Block,
    Poll,
    Timeout,
}

/// What waiting for an event gave.
#[derive(Debug, Clone, Copy, PartialEq, Eq, Structural)]
pub enum RecvOutcome {
    Received,
    TimedOut,
    Disconnected,
}

/// How to wait, for a timeout in nanoseconds (`None`: no timeout).
pub fn wait_mode(timeout_nanos: Option<u128>) -> (m: WaitMode)
    ensures
        m == (match timeout_nanos {
            None => WaitMode::Block,
            Some(n) => if n == 0 { WaitMode::Poll } else { WaitMode::Timeout },
        }),
{
    match timeout_nanos {
        None => WaitMode::Block,
        Some(n) => if n == 0 { WaitMode::Poll } else { WaitMode::Timeout },
    }
}

/// The decisions of an event loop: whether it is closing.
pub struct LoopState {
    closing: bool,
}

impl LoopState {
    /// A loop that runs.
    pub fn new() -> (s: LoopState)
        ensures
            !s.is_closing_spec(),
    {
        LoopState { closing: false }
    }

    pub closed spec fn is_closing_spec(&self) -> bool {
        self.closing
    }

    /// Whether the loop is closing.
    pub fn is_closing(&self) -> (r: bool)
        ensures
            r == self.is_closing_spec(),
    {
        self.closing
    }

    /// Asks the loop to close.
    pub fn stop(&mut self)
        ensures
            final(self).is_closing_spec(),
    {
        self.closing = true;
    }

    /// Whether a poll waits for events at all: not once the loop closes.
    pub fn should_wait(&self) -> (r: bool)
        ensures
            r == !self.is_closing_spec(),
    {
        !self.closing
    }

    /// What a poll reports after waiting: `true` where it timed out. The
    /// loop closes when the senders are gone.
    pub fn after_wait(&mut self, outcome: RecvOutcome) -> (timed_out: bool)
        ensures
            timed_out == (outcome == RecvOutcome::TimedOut),
            final(self).is_closing_spec() == (old(self).is_closing_spec() || outcome == RecvOutcome::Disconnected),
    {
        match outcome {
            RecvOutcome::Received => false,
            RecvOutcome::TimedOut => true,
            RecvOutcome::Disconnected => {
                self.closing = true;
                false
            },
        }
    }
}

} // verus!
