//! Nodes that the controller drives in their own thread, and the decision that
//! each such thread takes between two rounds of work.
use vstd::prelude::*;

verus! {

/// A node of the network that keeps working while it is run: each call lets it
/// handle what has arrived for it.
pub trait Runnable: Send {
    fn run(&mut self);
}

/// What a node's thread saw when it last waited for the shutdown signal.
#[derive(Clone, Copy, Debug, PartialEq, Eq, Structural)]
pub enum ShutdownPoll {
    /// The controller signalled shutdown.
    Signalled,
    /// The controller's end of the signal is gone.
    Disconnected,
    /// No signal arrived while the thread waited.
    TimedOut,
}

/// Whether a node's thread runs another round: only while no shutdown has been
/// signalled and the controller can still signal one.
pub fn keeps_running(poll: ShutdownPoll) -> (r: bool)
    ensures
        r <==> poll == ShutdownPoll::TimedOut,
{
    match poll {
        ShutdownPoll::TimedOut => true,
        ShutdownPoll::Signalled | ShutdownPoll::Disconnected => false,
    }
}

} // verus!
