//! The decisions of the bidirectional streaming harness. The caller owns the
//! channels to and from the service task; this state says which operations
//! are allowed and what each observation on the response channel means.

use vstd::prelude::*;
use crate::grpc_mock::append_str;
use crate::response::{append_exceeded, exceeded_text};
use crate::status::{Code, Status};

verus! {

/// What the caller must do when the test completes.
#[derive(Debug, PartialEq, Eq, Structural)]
pub enum CompleteAction {
    /// Drop the client-message sender (half-close) and fire the done signal.
    CloseClient,
    /// Nothing: the harness was already completed.
    Nothing,
}

/// What one receive on the response channel gave.
pub enum ResponseEvent<T> {
    /// The service task forwarded an item.
    Received(Result<T, Status>),
    /// The service task is gone and every item has been read.
    Exhausted,
    /// Nothing arrived within the timeout, of this many milliseconds; the
    /// channel stays usable.
    TimedOut(u64),
}

/// The state of a bidirectional streaming test.
#[derive(Clone, Copy, Debug, PartialEq, Eq, Structural)]
pub struct HarnessState {
    /// Whether `complete` or `dispose` has run.
    pub completed: bool,
    /// Whether the client-message sender is held.
    pub client_open: bool,
    /// Whether the done signal is still to be fired.
    pub done_pending: bool,
    /// Whether the response receiver is held.
    pub responses_open: bool,
}

impl HarnessState {
    /// A completed harness holds no client sender and has fired its signal.
    pub open spec fn wf(&self) -> bool {
        self.completed ==> !self.client_open && !self.done_pending
    }

    /// A fresh harness: every channel end held, not completed.
    pub fn new() -> (r: HarnessState)
        ensures
            !r.completed && r.client_open && r.done_pending && r.responses_open,
            r.wf(),
    {
        HarnessState { completed: false, client_open: true, done_pending: true, responses_open: true }
    }

    /// Whether a client message may be sent now. Sending when this is false
    /// is a misuse of the harness.
    pub fn can_send(&self) -> (r: bool)
        ensures
            r == (!self.completed && self.client_open),
    {
        !self.completed && self.client_open
    }

    /// Completes the client side once: the first call closes the client
    /// stream and fires the done signal; later calls do nothing.
    pub fn complete(&mut self) -> (r: CompleteAction)
        requires
            old(self).wf(),
        ensures
            final(self).wf(),
            final(self).completed,
            !final(self).client_open,
            !final(self).done_pending,
            final(self).responses_open == old(self).responses_open,
            old(self).completed ==> r == CompleteAction::Nothing && *final(self) == *old(self),
            !old(self).completed ==> r == CompleteAction::CloseClient,
    {
        if self.completed {
            CompleteAction::Nothing
        } else {
            self.client_open = false;
            self.done_pending = false;
            self.completed = true;
            CompleteAction::CloseClient
        }
    }

    /// Releases every channel end and marks the harness completed.
    pub fn dispose(&mut self)
        ensures
            final(self).wf(),
            final(self).completed,
            !final(self).client_open,
            !final(self).done_pending,
            !final(self).responses_open,
    {
        self.client_open = false;
        self.done_pending = false;
        self.responses_open = false;
        self.completed = true;
    }

    /// The response that a read without timeout reports: the item if the
    /// service sent one, nothing if it sent an error or the responses are
    /// exhausted, and nothing without reading once the receiver is released.
    pub fn server_response<T>(&self, event: ResponseEvent<T>) -> (r: Option<T>)
        requires
            !(event is TimedOut),
        ensures
            match event {
                ResponseEvent::Received(Ok(v)) => self.responses_open ==> r == Some(v),
                _ => true,
            },
            !self.responses_open ==> r is None,
            !(event matches ResponseEvent::Received(Ok(_))) ==> r is None,
    {
        if !self.responses_open {
            return None;
        }
        match event {
            ResponseEvent::Received(Ok(v)) => Some(v),
            _ => None,
        }
    }

    /// The response that a read with a timeout reports: the item; the
    /// service's error; no response once exhausted or released; or a
    /// deadline-exceeded error when nothing arrived in time.
    pub fn server_response_with_timeout<T>(&self, event: ResponseEvent<T>) -> (r: Result<
        Option<T>,
        Status,
    >)
        ensures
            !self.responses_open ==> r == Ok::<Option<T>, Status>(None),
            self.responses_open ==> match event {
                ResponseEvent::Received(Ok(v)) => r == Ok::<Option<T>, Status>(Some(v)),
                ResponseEvent::Received(Err(s)) => r == Err::<Option<T>, Status>(s),
                ResponseEvent::Exhausted => r == Ok::<Option<T>, Status>(None),
                ResponseEvent::TimedOut(ms) => r matches Err(s) && s.code == Code::DeadlineExceeded
                    && s.message@ == "Timeout waiting for server response"@ + exceeded_text(ms as nat),
            },
    {
        if !self.responses_open {
            return Ok(None);
        }
        match event {
            ResponseEvent::Received(Ok(v)) => Ok(Some(v)),
            ResponseEvent::Received(Err(s)) => Err(s),
            ResponseEvent::Exhausted => Ok(None),
            ResponseEvent::TimedOut(ms) => {
                let mut message = String::new();
                append_str(&mut message, "Timeout waiting for server response");
                append_exceeded(&mut message, ms);
                Err(Status::from_string(Code::DeadlineExceeded, message))
            },
        }
    }
}

} // verus!
