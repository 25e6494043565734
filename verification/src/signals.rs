//! What the signals of a terminal and of other processes ask for.

use vstd::prelude::*;

verus! {

/// A signal that the program handles.
#[derive(Debug, Clone, Copy, Eq, PartialEq, Structural)]
pub enum SignalEvent {
    Interrupt,
    Terminate,
    Hangup,
    Suspend,
    Continue,
    Resize,
}

/// What a running transfer is asked to do.
#[derive(Debug, Clone, Copy, Eq, PartialEq, Structural)]
pub enum ControlRequest {
    /// Give up, and keep what can be resumed.
    Interrupt,
    /// Save what can be resumed, and stop the process.
    Suspend,
    /// Go on.
    Continue,
    /// Fit what is shown to the terminal again.
    Resize,
}

/// What a signal asks a transfer to do.
pub open spec fn requested(event: SignalEvent) -> ControlRequest {
    match event {
        SignalEvent::Interrupt | SignalEvent::Terminate | SignalEvent::Hangup =>
            ControlRequest::Interrupt,
        SignalEvent::Suspend => ControlRequest::Suspend,
        SignalEvent::Continue => ControlRequest::Continue,
        SignalEvent::Resize => ControlRequest::Resize,
    }
}

impl SignalEvent {
    /// What the signal asks a transfer to do.
    pub fn request(self) -> (request: ControlRequest)
        ensures
            request == requested(self),
    {
        match self {
            SignalEvent::Interrupt | SignalEvent::Terminate | SignalEvent::Hangup => {
                ControlRequest::Interrupt
            },
            SignalEvent::Suspend => ControlRequest::Suspend,
            SignalEvent::Continue => ControlRequest::Continue,
            SignalEvent::Resize => ControlRequest::Resize,
        }
    }
}

} // verus!
