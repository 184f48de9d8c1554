use crate::print::{write_between, write_str};
use std::fmt::{Debug, Error, Formatter};
use std::time::Duration;
use crate::text::{decimal, lemma_between, lemma_decimal, push_decimal};
use vstd::prelude::*;
use vstd::string::StringExecFns;

verus! {

/// An item that was not sent without waiting.
#[derive(PartialEq)]
pub enum TrySendError<T> {
    Full(T),
    Disconnected(T),
}

impl<T> TrySendError<T> {
    /// The name of the error.
    pub open spec fn label(self) -> Seq<char> {
        match self {
            TrySendError::Full(_) => "Full"@,
            TrySendError::Disconnected(_) => "Disconnected"@,
        }
    }

    pub fn name(&self) -> (r: &'static str)
        ensures
            r@ == self.label(),
    {
        match self {
            TrySendError::Full(_) => "Full",
            TrySendError::Disconnected(_) => "Disconnected",
        }
    }

    /// The item that was not sent.
    pub open spec fn item(self) -> T {
        match self {
            TrySendError::Full(v) => v,
            TrySendError::Disconnected(v) => v,
        }
    }

    pub fn into_inner(self) -> (v: T)
        ensures
            v == self.item(),
    {
        match self {
            TrySendError::Full(v) => v,
            TrySendError::Disconnected(v) => v,
        }
    }

    pub fn is_full(&self) -> (b: bool)
        ensures
            b == (self is Full),
    {
        matches!(self, TrySendError::Full(_))
    }

    pub fn is_disconnected(&self) -> (b: bool)
        ensures
            b == (self is Disconnected),
    {
        matches!(self, TrySendError::Disconnected(_))
    }

    /// What went wrong, in words.
    pub open spec fn words(self) -> Seq<char> {
        match self {
            TrySendError::Full(_) => "sending on a full channel"@,
            TrySendError::Disconnected(_) => "sending on a disconnected channel"@,
        }
    }

    pub fn text(&self) -> (r: &'static str)
        ensures
            r@ == self.words(),
    {
        match self {
            TrySendError::Full(_) => "sending on a full channel",
            TrySendError::Disconnected(_) => "sending on a disconnected channel",
        }
    }
}

/// Prints the name of the error, without the item.
impl<T> Debug for TrySendError<T> {
    fn fmt(&self, f: &mut Formatter<'_>) -> (r: Result<(), Error>) {
        write_str(f, self.name())
    }
}

/// An item that was not sent: in time, or at all.
#[derive(PartialEq)]
pub enum SendError<T> {
    /// The item, and how far past the deadline it was given up.
    TimeOut((T, Duration)),
    Disconnected(T),
}

impl<T> SendError<T> {
    /// The item that was not sent.
    pub open spec fn item(self) -> T {
        match self {
            SendError::TimeOut((v, _)) => v,
            SendError::Disconnected(v) => v,
        }
    }

    pub fn into_inner(self) -> (v: T)
        ensures
            v == self.item(),
    {
        match self {
            SendError::TimeOut((v, _)) => v,
            SendError::Disconnected(v) => v,
        }
    }

    pub fn is_timeout(&self) -> (b: bool)
        ensures
            b == (self is TimeOut),
    {
        matches!(self, SendError::TimeOut(_))
    }

    pub fn is_disconnected(&self) -> (b: bool)
        ensures
            b == (self is Disconnected),
    {
        matches!(self, SendError::Disconnected(_))
    }

    /// The name of the error, with how long it took as the text `time`.
    pub open spec fn label(self, time: Seq<char>) -> Seq<char> {
        match self {
            SendError::TimeOut(_) => "TimeOut("@ + time + ")"@,
            SendError::Disconnected(_) => "Disconnected"@,
        }
    }

    pub fn name(&self, time: &str) -> (r: String)
        ensures
            r@ == self.label(time@),
    {
        match self {
            SendError::TimeOut(_) => {
                let mut s = String::from_str("TimeOut(");
                s.append(time);
                s.append(")");
                s
            },
            SendError::Disconnected(_) => String::from_str("Disconnected"),
        }
    }

    /// What went wrong, in words, with how long it took as the text `time`.
    pub open spec fn words(self, time: Seq<char>) -> Seq<char> {
        match self {
            SendError::TimeOut(_) => "send timed out after "@ + time,
            SendError::Disconnected(_) => "sending on a disconnected channel"@,
        }
    }

    pub fn text(&self, time: &str) -> (r: String)
        ensures
            r@ == self.words(time@),
    {
        match self {
            SendError::TimeOut(_) => {
                let mut s = String::from_str("send timed out after ");
                s.append(time);
                s
            },
            SendError::Disconnected(_) => String::from_str("sending on a disconnected channel"),
        }
    }
}

/// Prints the name of the error, without the item.
impl<T> Debug for SendError<T> {
    fn fmt(&self, f: &mut Formatter<'_>) -> (r: Result<(), Error>) {
        match self {
            SendError::TimeOut((_, d)) => write_between(f, "TimeOut(", d, ")"),
            SendError::Disconnected(_) => write_str(f, "Disconnected"),
        }
    }
}

/// An item that could not be sent, because the receivers are gone.
#[derive(PartialEq)]
pub enum AsyncSendError<T> {
    Disconnected(T),
}

impl<T> AsyncSendError<T> {
    /// The name of the error.
    pub open spec fn label(self) -> Seq<char> {
        match self {
            AsyncSendError::Disconnected(_) => "Disconnected"@,
        }
    }

    pub fn name(&self) -> (r: &'static str)
        ensures
            r@ == self.label(),
    {
        match self {
            AsyncSendError::Disconnected(_) => "Disconnected",
        }
    }

    pub fn into_inner(self) -> (v: T)
        ensures
            self == AsyncSendError::Disconnected(v),
    {
        match self {
            AsyncSendError::Disconnected(v) => v,
        }
    }

    /// What went wrong, in words.
    pub open spec fn words(self) -> Seq<char> {
        "sending on a disconnected channel"@
    }

    pub fn text(&self) -> (r: &'static str)
        ensures
            r@ == self.words(),
    {
        "sending on a disconnected channel"
    }
}

/// Prints the name of the error, without the item.
impl<T> Debug for AsyncSendError<T> {
    fn fmt(&self, f: &mut Formatter<'_>) -> (r: Result<(), Error>) {
        write_str(f, self.name())
    }
}

/// The receivers are gone; the item stays in the caller's slot.
#[derive(Debug, Clone, Copy, PartialEq, Eq, Structural)]
pub enum AsyncSendRefError {
    Disconnected,
}

impl AsyncSendRefError {
    /// The name of the error.
    pub open spec fn label(self) -> Seq<char> {
        match self {
            AsyncSendRefError::Disconnected => "Disconnected"@,
        }
    }

    pub fn name(&self) -> (r: &'static str)
        ensures
            r@ == self.label(),
    {
        match self {
            AsyncSendRefError::Disconnected => "Disconnected",
        }
    }

    /// What went wrong, in words.
    pub open spec fn words(self) -> Seq<char> {
        "sending on a disconnected channel (value kept in the slot)"@
    }

    pub fn text(&self) -> (r: &'static str)
        ensures
            r@ == self.words(),
    {
        "sending on a disconnected channel (value kept in the slot)"
    }
}

/// Nothing was received without waiting.
#[derive(Debug, PartialEq, Eq, Structural)]
pub enum TryRecvError {
    Empty,
    Disconnected,
}

impl TryRecvError {
    /// The name of the error.
    pub open spec fn label(self) -> Seq<char> {
        match self {
            TryRecvError::Empty => "Empty"@,
            TryRecvError::Disconnected => "Disconnected"@,
        }
    }

    pub fn name(&self) -> (r: &'static str)
        ensures
            r@ == self.label(),
    {
        match self {
            TryRecvError::Empty => "Empty",
            TryRecvError::Disconnected => "Disconnected",
        }
    }

    pub fn is_empty(&self) -> (b: bool)
        ensures
            b == (self is Empty),
    {
        matches!(self, TryRecvError::Empty)
    }

    pub fn is_disconnected(&self) -> (b: bool)
        ensures
            b == (self is Disconnected),
    {
        matches!(self, TryRecvError::Disconnected)
    }

    /// What went wrong, in words.
    pub open spec fn words(self) -> Seq<char> {
        match self {
            TryRecvError::Empty => "receiving on an empty channel"@,
            TryRecvError::Disconnected => "receiving on an empty and disconnected channel"@,
        }
    }

    pub fn text(&self) -> (r: &'static str)
        ensures
            r@ == self.words(),
    {
        match self {
            TryRecvError::Empty => "receiving on an empty channel",
            TryRecvError::Disconnected => "receiving on an empty and disconnected channel",
        }
    }
}

/// Nothing was received: in time, or at all.
#[derive(Debug, PartialEq)]
pub enum RecvError {
    /// How long the wait was.
    TimeOut(Duration),
    Disconnected,
}

impl RecvError {
    /// The name of the error, with how long it took as the text `time`.
    pub open spec fn label(self, time: Seq<char>) -> Seq<char> {
        match self {
            RecvError::TimeOut(_) => "TimeOut("@ + time + ")"@,
            RecvError::Disconnected => "Disconnected"@,
        }
    }

    pub fn name(&self, time: &str) -> (r: String)
        ensures
            r@ == self.label(time@),
    {
        match self {
            RecvError::TimeOut(_) => {
                let mut s = String::from_str("TimeOut(");
                s.append(time);
                s.append(")");
                s
            },
            RecvError::Disconnected => String::from_str("Disconnected"),
        }
    }

    /// What went wrong, in words, with how long it took as the text `time`.
    pub open spec fn words(self, time: Seq<char>) -> Seq<char> {
        match self {
            RecvError::TimeOut(_) => "receive timed out after "@ + time,
            RecvError::Disconnected => "receiving on an empty and disconnected channel"@,
        }
    }

    pub fn text(&self, time: &str) -> (r: String)
        ensures
            r@ == self.words(time@),
    {
        match self {
            RecvError::TimeOut(_) => {
                let mut s = String::from_str("receive timed out after ");
                s.append(time);
                s
            },
            RecvError::Disconnected => String::from_str(
                "receiving on an empty and disconnected channel",
            ),
        }
    }
}

/// Nothing was received, because the senders are gone.
#[derive(Debug, PartialEq, Eq, Structural)]
pub enum AsyncRecvError {
    Disconnected,
}

impl AsyncRecvError {
    /// The name of the error.
    pub open spec fn label(self) -> Seq<char> {
        match self {
            AsyncRecvError::Disconnected => "Disconnected"@,
        }
    }

    pub fn name(&self) -> (r: &'static str)
        ensures
            r@ == self.label(),
    {
        match self {
            AsyncRecvError::Disconnected => "Disconnected",
        }
    }

    /// What went wrong, in words.
    pub open spec fn words(self) -> Seq<char> {
        "receiving on an empty and disconnected channel"@
    }

    pub fn text(&self) -> (r: &'static str)
        ensures
            r@ == self.words(),
    {
        "receiving on an empty and disconnected channel"
    }
}

/// Why a batch was not sent whole without waiting.
#[derive(Debug, Clone, Copy, PartialEq, Eq, Structural)]
pub enum TrySendBatchError {
    Full,
    Disconnected,
}

impl TrySendBatchError {
    /// The name of the error.
    pub open spec fn label(self) -> Seq<char> {
        match self {
            TrySendBatchError::Full => "Full"@,
            TrySendBatchError::Disconnected => "Disconnected"@,
        }
    }

    pub fn name(&self) -> (r: &'static str)
        ensures
            r@ == self.label(),
    {
        match self {
            TrySendBatchError::Full => "Full",
            TrySendBatchError::Disconnected => "Disconnected",
        }
    }

    /// What went wrong, in words.
    pub open spec fn words(self) -> Seq<char> {
        match self {
            TrySendBatchError::Full => "batch send hit a full channel"@,
            TrySendBatchError::Disconnected => "batch send on a disconnected channel"@,
        }
    }

    pub fn text(&self) -> (r: &'static str)
        ensures
            r@ == self.words(),
    {
        match self {
            TrySendBatchError::Full => "batch send hit a full channel",
            TrySendBatchError::Disconnected => "batch send on a disconnected channel",
        }
    }
}

/// Why a batch was not sent whole.
#[derive(Debug, Clone, Copy, PartialEq, Eq, Structural)]
pub enum SendBatchError {
    TimeOut,
    Disconnected,
}

impl SendBatchError {
    /// The name of the error.
    pub open spec fn label(self) -> Seq<char> {
        match self {
            SendBatchError::TimeOut => "TimeOut"@,
            SendBatchError::Disconnected => "Disconnected"@,
        }
    }

    pub fn name(&self) -> (r: &'static str)
        ensures
            r@ == self.label(),
    {
        match self {
            SendBatchError::TimeOut => "TimeOut",
            SendBatchError::Disconnected => "Disconnected",
        }
    }

    /// What went wrong, in words.
    pub open spec fn words(self) -> Seq<char> {
        match self {
            SendBatchError::TimeOut => "batch send timed out"@,
            SendBatchError::Disconnected => "batch send on a disconnected channel"@,
        }
    }

    pub fn text(&self) -> (r: &'static str)
        ensures
            r@ == self.words(),
    {
        match self {
            SendBatchError::TimeOut => "batch send timed out",
            SendBatchError::Disconnected => "batch send on a disconnected channel",
        }
    }
}

/// A batch that was cut short after `sent` items.
#[derive(Debug)]
pub struct BatchSendError<E> {
    pub sent: usize,
    pub err: E,
}

/// A reason and how many items had been sent, in words.
pub open spec fn cut_short(reason: Seq<char>, sent: usize) -> Seq<char> {
    reason + " after "@ + decimal(sent as int) + " items were sent"@
}

fn cut_short_text(reason: &str, sent: usize) -> (r: String)
    ensures
        r@ == cut_short(reason@, sent),
{
    let mut s = String::from_str(reason);
    s.append(" after ");
    push_decimal(&mut s, sent);
    s.append(" items were sent");
    s
}

impl BatchSendError<TrySendBatchError> {
    /// What went wrong, in words.
    pub fn text(&self) -> (r: String)
        ensures
            r@ == cut_short(self.err.words(), self.sent),
    {
        cut_short_text(self.err.text(), self.sent)
    }
}

impl BatchSendError<SendBatchError> {
    /// What went wrong, in words.
    pub fn text(&self) -> (r: String)
        ensures
            r@ == cut_short(self.err.words(), self.sent),
    {
        cut_short_text(self.err.text(), self.sent)
    }
}

/// The text of a batch that was cut short names the reason, and then how many items had been
/// sent, each in full.
pub proof fn law_text_of_a_cut_short_batch(r: Seq<char>, s: Seq<char>, a: usize, b: usize)
    ensures
        cut_short(r, a) == cut_short(r, b) ==> a == b,
        cut_short(r, a) == cut_short(s, a) ==> r == s,
        cut_short(r, a).subrange(0, r.len() as int) == r,
{
    let end = " items were sent"@;
    if cut_short(r, a) == cut_short(r, b) {
        lemma_between(r + " after "@, decimal(a as int), decimal(b as int), end);
        lemma_decimal(a as int, b as int);
    }
    if cut_short(r, a) == cut_short(s, a) {
        let after = " after "@ + decimal(a as int) + end;
        assert(cut_short(r, a) =~= Seq::empty() + r + after);
        assert(cut_short(s, a) =~= Seq::empty() + s + after);
        lemma_between(Seq::empty(), r, s, after);
    }
    assert(cut_short(r, a).subrange(0, r.len() as int) =~= r);
}

/// The text of an error that came with a time names that time in full.
pub proof fn law_text_of_a_time_out<T>(e: SendError<T>, r: RecvError, a: Seq<char>, b: Seq<char>)
    ensures
        e is TimeOut && e.words(a) == e.words(b) ==> a == b,
        e is TimeOut && e.label(a) == e.label(b) ==> a == b,
        r is TimeOut && r.words(a) == r.words(b) ==> a == b,
        r is TimeOut && r.label(a) == r.label(b) ==> a == b,
{
    let none = Seq::<char>::empty();
    if e is TimeOut && e.words(a) == e.words(b) {
        let before = "send timed out after "@;
        assert(e.words(a) =~= before + a + none);
        assert(e.words(b) =~= before + b + none);
        lemma_between(before, a, b, none);
    }
    if e is TimeOut && e.label(a) == e.label(b) {
        lemma_between("TimeOut("@, a, b, ")"@);
    }
    if r is TimeOut && r.words(a) == r.words(b) {
        let before = "receive timed out after "@;
        assert(r.words(a) =~= before + a + none);
        assert(r.words(b) =~= before + b + none);
        lemma_between(before, a, b, none);
    }
    if r is TimeOut && r.label(a) == r.label(b) {
        lemma_between("TimeOut("@, a, b, ")"@);
    }
}

} // verus!
