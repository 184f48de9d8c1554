use std::time::Duration;
use vstd::prelude::*;

verus! {

/// An item that was not sent.
#[derive(Debug, PartialEq)]
pub enum SendError<T> {
    Full(T),
    Disconnected(T),
    /// The item, and how far past the deadline it was given up.
    TimeOut((T, Duration)),
}

impl<T> SendError<T> {
    /// The item that was not sent.
    pub open spec fn item(self) -> T {
        match self {
            SendError::Full(v) => v,
            SendError::Disconnected(v) => v,
            SendError::TimeOut((v, _)) => v,
        }
    }

    pub fn into_inner(self) -> (v: T)
        ensures
            v == self.item(),
    {
        match self {
            SendError::Full(v) => v,
            SendError::Disconnected(v) => v,
            SendError::TimeOut((v, _)) => v,
        }
    }
}

/// An item that could not be sent, because the receivers are gone.
#[derive(Debug, PartialEq)]
pub enum AsyncSendError<T> {
    Disconnected(T),
}

/// Nothing was received.
#[derive(Debug, PartialEq)]
pub enum RecvError {
    Empty,
    Disconnected,
    /// How far past the deadline the wait was given up.
    TimeOut(Duration),
}

/// Nothing was received, because the senders are gone.
#[derive(Debug, PartialEq, Eq, Structural)]
pub enum AsyncRecvError {
    Disconnected,
}

pub type ResultSender<T, V> = Result<T, SendError<V>>;

pub type ResultAsyncSender<T, V> = Result<T, AsyncSendError<V>>;

pub type ResultReceiver<T> = Result<T, RecvError>;

pub type ResultAsyncReceiver<T> = Result<T, AsyncRecvError>;

} // verus!
