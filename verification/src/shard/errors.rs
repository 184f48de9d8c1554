use crate::internal_channel::errors::{
    AsyncRecvError, AsyncSendError, AsyncSendRefError, RecvError, SendBatchError, SendError,
    TryRecvError, TrySendBatchError, TrySendError,
};
use crate::print::{debug_struct, field, finish};
use crate::text::{decimal, push_decimal};
use std::fmt::{Debug, Error, Formatter};
use vstd::prelude::*;
use vstd::string::StringExecFns;

verus! {

/// A send to a shard that was refused at once.
pub struct ShardTrySendError<T> {
    pub shard: usize,
    pub err: TrySendError<T>,
}

/// Prints the fields, without the item.
impl<T> Debug for ShardTrySendError<T> {
    fn fmt(&self, f: &mut Formatter<'_>) -> (r: Result<(), Error>) {
        let mut s = debug_struct(f, "ShardTrySendError");
        field(&mut s, "shard", &self.shard);
        field(&mut s, "err", &self.err);
        finish(&mut s)
    }
}

impl<T> ShardTrySendError<T> {
    /// What went wrong, in words; that the receivers are gone is spelled out.
    pub open spec fn words(self) -> Seq<char> {
        "ShardTrySendError { shard: "@ + decimal(self.shard as int) + ", err: "@ + (
        if self.err is Disconnected {
            self.err.words()
        } else {
            self.err.label()
        }) + " }"@
    }

    pub fn text(&self) -> (r: String)
        ensures
            r@ == self.words(),
    {
        let mut s = String::from_str("ShardTrySendError { shard: ");
        push_decimal(&mut s, self.shard);
        s.append(", err: ");
        s.append(
            if self.err.is_disconnected() {
                self.err.text()
            } else {
                self.err.name()
            },
        );
        s.append(" }");
        assert(s@ =~= self.words());
        s
    }
}

/// A send to a shard that was given up.
pub struct ShardSendError<T> {
    pub shard: usize,
    pub err: SendError<T>,
}

/// Prints the fields, without the item.
impl<T> Debug for ShardSendError<T> {
    fn fmt(&self, f: &mut Formatter<'_>) -> (r: Result<(), Error>) {
        let mut s = debug_struct(f, "ShardSendError");
        field(&mut s, "shard", &self.shard);
        field(&mut s, "err", &self.err);
        finish(&mut s)
    }
}

impl<T> ShardSendError<T> {
    /// What went wrong, in words, with how long it took as the text `time`.
    pub open spec fn words(self, time: Seq<char>) -> Seq<char> {
        "ShardSendError { shard: "@ + decimal(self.shard as int)
            + ", err: "@ + self.err.label(time)
            + " }"@
    }

    pub fn text(&self, time: &str) -> (r: String)
        ensures
            r@ == self.words(time@),
    {
        let mut s = String::from_str("ShardSendError { shard: ");
        push_decimal(&mut s, self.shard);
        s.append(", err: ");
        s.append(self.err.name(time).as_str());
        s.append(" }");
        assert(s@ =~= self.words(time@));
        s
    }
}

/// A send by key that was refused at once.
pub struct ShardKeyTrySendError<T> {
    pub key: String,
    pub shard: usize,
    pub err: TrySendError<T>,
}

/// Prints the fields, without the item.
impl<T> Debug for ShardKeyTrySendError<T> {
    fn fmt(&self, f: &mut Formatter<'_>) -> (r: Result<(), Error>) {
        let mut s = debug_struct(f, "ShardKeyTrySendError");
        field(&mut s, "key", &self.key);
        field(&mut s, "shard", &self.shard);
        field(&mut s, "err", &self.err);
        finish(&mut s)
    }
}

impl<T> ShardKeyTrySendError<T> {
    /// What went wrong, in words.
    pub open spec fn words(self) -> Seq<char> {
        "ShardKeyTrySendError { key: "@ + self.key@
            + ", shard: "@ + decimal(self.shard as int)
            + ", err: "@ + self.err.label()
            + " }"@
    }

    pub fn text(&self) -> (r: String)
        ensures
            r@ == self.words(),
    {
        let mut s = String::from_str("ShardKeyTrySendError { key: ");
        s.append(self.key.as_str());
        s.append(", shard: ");
        push_decimal(&mut s, self.shard);
        s.append(", err: ");
        s.append(self.err.name());
        s.append(" }");
        assert(s@ =~= self.words());
        s
    }
}

/// A send by key that was given up.
pub struct ShardKeySendError<T> {
    pub key: String,
    pub shard: usize,
    pub err: SendError<T>,
}

/// Prints the fields, without the item.
impl<T> Debug for ShardKeySendError<T> {
    fn fmt(&self, f: &mut Formatter<'_>) -> (r: Result<(), Error>) {
        let mut s = debug_struct(f, "ShardKeySendError");
        field(&mut s, "key", &self.key);
        field(&mut s, "shard", &self.shard);
        field(&mut s, "err", &self.err);
        finish(&mut s)
    }
}

impl<T> ShardKeySendError<T> {
    /// What went wrong, in words, with how long it took as the text `time`.
    pub open spec fn words(self, time: Seq<char>) -> Seq<char> {
        "ShardKeySendError { key: "@ + self.key@
            + ", shard: "@ + decimal(self.shard as int)
            + ", err: "@ + self.err.label(time)
            + " }"@
    }

    pub fn text(&self, time: &str) -> (r: String)
        ensures
            r@ == self.words(time@),
    {
        let mut s = String::from_str("ShardKeySendError { key: ");
        s.append(self.key.as_str());
        s.append(", shard: ");
        push_decimal(&mut s, self.shard);
        s.append(", err: ");
        s.append(self.err.name(time).as_str());
        s.append(" }");
        assert(s@ =~= self.words(time@));
        s
    }
}

/// An awaited send to a shard whose receivers are gone.
#[derive(PartialEq)]
pub struct ShardAsyncSendError<T> {
    pub shard: usize,
    pub err: AsyncSendError<T>,
}

/// Prints the fields, without the item.
impl<T> Debug for ShardAsyncSendError<T> {
    fn fmt(&self, f: &mut Formatter<'_>) -> (r: Result<(), Error>) {
        let mut s = debug_struct(f, "ShardAsyncSendError");
        field(&mut s, "shard", &self.shard);
        field(&mut s, "err", &self.err);
        finish(&mut s)
    }
}

impl<T> ShardAsyncSendError<T> {
    /// What went wrong, in words.
    pub open spec fn words(self) -> Seq<char> {
        "ShardAsyncSendError { shard: "@ + decimal(self.shard as int)
            + ", err: "@ + self.err.label()
            + " }"@
    }

    pub fn text(&self) -> (r: String)
        ensures
            r@ == self.words(),
    {
        let mut s = String::from_str("ShardAsyncSendError { shard: ");
        push_decimal(&mut s, self.shard);
        s.append(", err: ");
        s.append(self.err.name());
        s.append(" }");
        assert(s@ =~= self.words());
        s
    }
}

/// An awaited send by key to a shard whose receivers are gone.
#[derive(PartialEq)]
pub struct ShardKeyAsyncSendError<T> {
    pub key: String,
    pub shard: usize,
    pub err: AsyncSendError<T>,
}

/// Prints the fields, without the item.
impl<T> Debug for ShardKeyAsyncSendError<T> {
    fn fmt(&self, f: &mut Formatter<'_>) -> (r: Result<(), Error>) {
        let mut s = debug_struct(f, "ShardKeyAsyncSendError");
        field(&mut s, "key", &self.key);
        field(&mut s, "shard", &self.shard);
        field(&mut s, "err", &self.err);
        finish(&mut s)
    }
}

impl<T> ShardKeyAsyncSendError<T> {
    /// What went wrong, in words.
    pub open spec fn words(self) -> Seq<char> {
        "ShardKeyAsyncSendError { key: "@ + self.key@
            + ", shard: "@ + decimal(self.shard as int)
            + ", err: "@ + self.err.label()
            + " }"@
    }

    pub fn text(&self) -> (r: String)
        ensures
            r@ == self.words(),
    {
        let mut s = String::from_str("ShardKeyAsyncSendError { key: ");
        s.append(self.key.as_str());
        s.append(", shard: ");
        push_decimal(&mut s, self.shard);
        s.append(", err: ");
        s.append(self.err.name());
        s.append(" }");
        assert(s@ =~= self.words());
        s
    }
}

/// An awaited send by key whose item stays with the caller.
#[derive(Debug, PartialEq)]
pub struct ShardKeyAsyncSendRefError {
    pub key: String,
    pub shard: usize,
    pub err: AsyncSendRefError,
}

impl ShardKeyAsyncSendRefError {
    /// What went wrong, in words.
    pub open spec fn words(self) -> Seq<char> {
        "ShardKeyAsyncSendRefError { key: "@ + self.key@
            + ", shard: "@ + decimal(self.shard as int)
            + ", err: "@ + self.err.label()
            + " }"@
    }

    pub fn text(&self) -> (r: String)
        ensures
            r@ == self.words(),
    {
        let mut s = String::from_str("ShardKeyAsyncSendRefError { key: ");
        s.append(self.key.as_str());
        s.append(", shard: ");
        push_decimal(&mut s, self.shard);
        s.append(", err: ");
        s.append(self.err.name());
        s.append(" }");
        assert(s@ =~= self.words());
        s
    }
}

/// A receive from a shard that found nothing at once.
#[derive(Debug, PartialEq)]
pub struct ShardTryRecvError {
    pub shard: usize,
    pub err: TryRecvError,
}

impl ShardTryRecvError {
    /// What went wrong, in words.
    pub open spec fn words(self) -> Seq<char> {
        "ShardTryRecvError { shard: "@ + decimal(self.shard as int)
            + ", err: "@ + self.err.label()
            + " }"@
    }

    pub fn text(&self) -> (r: String)
        ensures
            r@ == self.words(),
    {
        let mut s = String::from_str("ShardTryRecvError { shard: ");
        push_decimal(&mut s, self.shard);
        s.append(", err: ");
        s.append(self.err.name());
        s.append(" }");
        assert(s@ =~= self.words());
        s
    }
}

/// A receive from a shard that was given up.
#[derive(Debug, PartialEq)]
pub struct ShardRecvError {
    pub shard: usize,
    pub err: RecvError,
}

impl ShardRecvError {
    /// What went wrong, in words, with how long it took as the text `time`.
    pub open spec fn words(self, time: Seq<char>) -> Seq<char> {
        "ShardRecvError { shard: "@ + decimal(self.shard as int)
            + ", err: "@ + self.err.label(time)
            + " }"@
    }

    pub fn text(&self, time: &str) -> (r: String)
        ensures
            r@ == self.words(time@),
    {
        let mut s = String::from_str("ShardRecvError { shard: ");
        push_decimal(&mut s, self.shard);
        s.append(", err: ");
        s.append(self.err.name(time).as_str());
        s.append(" }");
        assert(s@ =~= self.words(time@));
        s
    }
}

/// An awaited receive from a shard whose senders are gone.
#[derive(Debug, PartialEq)]
pub struct ShardAsyncRecvError {
    pub shard: usize,
    pub err: AsyncRecvError,
}

impl ShardAsyncRecvError {
    /// What went wrong, in words.
    pub open spec fn words(self) -> Seq<char> {
        "ShardAsyncRecvError { shard: "@ + decimal(self.shard as int)
            + ", err: "@ + self.err.label()
            + " }"@
    }

    pub fn text(&self) -> (r: String)
        ensures
            r@ == self.words(),
    {
        let mut s = String::from_str("ShardAsyncRecvError { shard: ");
        push_decimal(&mut s, self.shard);
        s.append(", err: ");
        s.append(self.err.name());
        s.append(" }");
        assert(s@ =~= self.words());
        s
    }
}

/// A batch to a shard that was cut short at once; the rest is still in the buffer.
#[derive(Debug, PartialEq)]
pub struct ShardTryBatchSendError {
    pub shard: usize,
    pub sent: usize,
    pub reason: TrySendBatchError,
}

impl ShardTryBatchSendError {
    /// What went wrong, in words.
    pub open spec fn words(self) -> Seq<char> {
        "ShardTryBatchSendError { shard: "@ + decimal(self.shard as int)
            + ", sent: "@ + decimal(self.sent as int)
            + ", reason: "@ + self.reason.label()
            + " }"@
    }

    pub fn text(&self) -> (r: String)
        ensures
            r@ == self.words(),
    {
        let mut s = String::from_str("ShardTryBatchSendError { shard: ");
        push_decimal(&mut s, self.shard);
        s.append(", sent: ");
        push_decimal(&mut s, self.sent);
        s.append(", reason: ");
        s.append(self.reason.name());
        s.append(" }");
        assert(s@ =~= self.words());
        s
    }
}

/// A batch to a shard that was cut short; the rest is still in the buffer.
#[derive(Debug, PartialEq)]
pub struct ShardBatchSendError {
    pub shard: usize,
    pub sent: usize,
    pub reason: SendBatchError,
}

impl ShardBatchSendError {
    /// What went wrong, in words.
    pub open spec fn words(self) -> Seq<char> {
        "ShardBatchSendError { shard: "@ + decimal(self.shard as int)
            + ", sent: "@ + decimal(self.sent as int)
            + ", reason: "@ + self.reason.label()
            + " }"@
    }

    pub fn text(&self) -> (r: String)
        ensures
            r@ == self.words(),
    {
        let mut s = String::from_str("ShardBatchSendError { shard: ");
        push_decimal(&mut s, self.shard);
        s.append(", sent: ");
        push_decimal(&mut s, self.sent);
        s.append(", reason: ");
        s.append(self.reason.name());
        s.append(" }");
        assert(s@ =~= self.words());
        s
    }
}

/// An awaited batch that was cut short because receivers are gone.
#[derive(Debug, PartialEq)]
pub struct ShardAsyncBatchSendError {
    pub shard: usize,
    pub sent: usize,
}

impl ShardAsyncBatchSendError {
    /// What went wrong, in words.
    pub open spec fn words(self) -> Seq<char> {
        "ShardAsyncBatchSendError { shard: "@ + decimal(self.shard as int)
            + ", sent: "@ + decimal(self.sent as int)
            + " }"@
    }

    pub fn text(&self) -> (r: String)
        ensures
            r@ == self.words(),
    {
        let mut s = String::from_str("ShardAsyncBatchSendError { shard: ");
        push_decimal(&mut s, self.shard);
        s.append(", sent: ");
        push_decimal(&mut s, self.sent);
        s.append(" }");
        assert(s@ =~= self.words());
        s
    }
}

/// A batch by key that was cut short at once; the rest is still in the buffer.
#[derive(Debug, PartialEq)]
pub struct ShardKeyTryBatchSendError {
    pub key: String,
    pub shard: usize,
    pub sent: usize,
    pub reason: TrySendBatchError,
}

impl ShardKeyTryBatchSendError {
    /// What went wrong, in words.
    pub open spec fn words(self) -> Seq<char> {
        "ShardKeyTryBatchSendError { key: "@ + self.key@
            + ", shard: "@ + decimal(self.shard as int)
            + ", sent: "@ + decimal(self.sent as int)
            + ", reason: "@ + self.reason.label()
            + " }"@
    }

    pub fn text(&self) -> (r: String)
        ensures
            r@ == self.words(),
    {
        let mut s = String::from_str("ShardKeyTryBatchSendError { key: ");
        s.append(self.key.as_str());
        s.append(", shard: ");
        push_decimal(&mut s, self.shard);
        s.append(", sent: ");
        push_decimal(&mut s, self.sent);
        s.append(", reason: ");
        s.append(self.reason.name());
        s.append(" }");
        assert(s@ =~= self.words());
        s
    }
}

/// A batch by key that was cut short; the rest is still in the buffer.
#[derive(Debug, PartialEq)]
pub struct ShardKeyBatchSendError {
    pub key: String,
    pub shard: usize,
    pub sent: usize,
    pub reason: SendBatchError,
}

impl ShardKeyBatchSendError {
    /// What went wrong, in words.
    pub open spec fn words(self) -> Seq<char> {
        "ShardKeyBatchSendError { key: "@ + self.key@
            + ", shard: "@ + decimal(self.shard as int)
            + ", sent: "@ + decimal(self.sent as int)
            + ", reason: "@ + self.reason.label()
            + " }"@
    }

    pub fn text(&self) -> (r: String)
        ensures
            r@ == self.words(),
    {
        let mut s = String::from_str("ShardKeyBatchSendError { key: ");
        s.append(self.key.as_str());
        s.append(", shard: ");
        push_decimal(&mut s, self.shard);
        s.append(", sent: ");
        push_decimal(&mut s, self.sent);
        s.append(", reason: ");
        s.append(self.reason.name());
        s.append(" }");
        assert(s@ =~= self.words());
        s
    }
}

/// An awaited batch by key that was cut short because receivers are gone.
#[derive(Debug, PartialEq)]
pub struct ShardKeyAsyncBatchSendError {
    pub key: String,
    pub shard: usize,
    pub sent: usize,
}

impl ShardKeyAsyncBatchSendError {
    /// What went wrong, in words.
    pub open spec fn words(self) -> Seq<char> {
        "ShardKeyAsyncBatchSendError { key: "@ + self.key@
            + ", shard: "@ + decimal(self.shard as int)
            + ", sent: "@ + decimal(self.sent as int)
            + " }"@
    }

    pub fn text(&self) -> (r: String)
        ensures
            r@ == self.words(),
    {
        let mut s = String::from_str("ShardKeyAsyncBatchSendError { key: ");
        s.append(self.key.as_str());
        s.append(", shard: ");
        push_decimal(&mut s, self.shard);
        s.append(", sent: ");
        push_decimal(&mut s, self.sent);
        s.append(" }");
        assert(s@ =~= self.words());
        s
    }
}

/// A receive from any shard when all shards are closed and read to the end.
#[derive(Debug, PartialEq)]
pub struct ShardRecvAnyError {
    pub disconnected_shards: usize,
    pub err: AsyncRecvError,
}

impl ShardRecvAnyError {
    /// What went wrong, in words.
    pub open spec fn words(self) -> Seq<char> {
        "ShardRecvAnyError { disconnected: "@ + decimal(self.disconnected_shards as int)
            + ", err: "@ + self.err.label()
            + " }"@
    }

    pub fn text(&self) -> (r: String)
        ensures
            r@ == self.words(),
    {
        let mut s = String::from_str("ShardRecvAnyError { disconnected: ");
        push_decimal(&mut s, self.disconnected_shards);
        s.append(", err: ");
        s.append(self.err.name());
        s.append(" }");
        assert(s@ =~= self.words());
        s
    }
}

} // verus!
