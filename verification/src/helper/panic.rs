use crate::print::{write_between, write_str};
use std::fmt::{Debug, Error, Formatter};
use vstd::prelude::*;

verus! {

/// The text of a cancellation.
pub const WORKER_CANCELLED: &'static str = "worker cancelled";

/// What a handler panicked with.
pub enum PanicPayload<P> {
    /// It did not panic: its worker was cancelled.
    Cancelled,
    /// A text.
    Message(String),
    /// Something else.
    Other(P),
}

/// Why an item was not handled.
pub struct PanicReason<P>(pub PanicPayload<P>);

impl<P> PanicReason<P> {
    /// The worker was cancelled.
    pub fn cancelled() -> (r: Self)
        ensures
            r.0 is Cancelled,
    {
        PanicReason(PanicPayload::Cancelled)
    }

    /// The worker was cancelled; a panic with the same text is no cancellation.
    pub fn is_cancelled(&self) -> (b: bool)
        ensures
            b == (self.0 is Cancelled),
    {
        matches!(self.0, PanicPayload::Cancelled)
    }

    /// The reason as text, if it has one.
    pub fn message(&self) -> (r: Option<&str>)
        ensures
            match self.0 {
                PanicPayload::Cancelled => r is Some && r->Some_0@ == WORKER_CANCELLED@,
                PanicPayload::Message(s) => r is Some && r->Some_0@ == s@,
                PanicPayload::Other(_) => r is None,
            },
    {
        match &self.0 {
            PanicPayload::Cancelled => Some(WORKER_CANCELLED),
            PanicPayload::Message(s) => Some(s.as_str()),
            PanicPayload::Other(_) => None,
        }
    }

    /// What the handler panicked with.
    pub fn into_inner(self) -> (r: PanicPayload<P>)
        ensures
            r == self.0,
    {
        self.0
    }
}

/// Prints the text of the reason, if it has one.
impl<P> Debug for PanicReason<P> {
    fn fmt(&self, f: &mut Formatter<'_>) -> (r: Result<(), Error>) {
        match self.message() {
            Some(m) => write_between(f, "PanicReason(", &m, ")"),
            None => write_str(f, "PanicReason(<non-string payload>)"),
        }
    }
}

} // verus!
