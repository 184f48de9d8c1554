use super::errors::{
    ShardAsyncBatchSendError, ShardAsyncRecvError, ShardAsyncSendError, ShardBatchSendError,
    ShardKeyAsyncBatchSendError, ShardKeyAsyncSendError, ShardKeyAsyncSendRefError,
    ShardKeyBatchSendError, ShardKeySendError, ShardKeyTryBatchSendError, ShardKeyTrySendError,
    ShardRecvError, ShardSendError, ShardTryBatchSendError, ShardTryRecvError, ShardTrySendError,
};
use crate::text::{decimal, lemma_between, lemma_decimal};
use vstd::prelude::*;

verus! {

/// The text of the error tells the shards apart: it names the shard in full.
pub proof fn law_text_of_shard_try_send_error<T>(a: ShardTrySendError<T>, b: ShardTrySendError<T>)
    requires
        a.words() == b.words(),
        a.err == b.err,
    ensures
        a.shard == b.shard,
{
    let before = "ShardTrySendError { shard: "@;
    let after = ", err: "@ + (if a.err is Disconnected {
        a.err.words()
    } else {
        a.err.label()
    }) + " }"@;
    assert(a.words() =~= before + decimal(a.shard as int) + after);
    assert(b.words() =~= before + decimal(b.shard as int) + after);
    lemma_between(before, decimal(a.shard as int), decimal(b.shard as int), after);
    lemma_decimal(a.shard as int, b.shard as int);
}

/// The text of the error tells the shards apart: it names the shard in full.
pub proof fn law_text_of_shard_send_error<T>(
    a: ShardSendError<T>,
    b: ShardSendError<T>,
    time: Seq<char>,
)
    requires
        a.words(time) == b.words(time),
        a.err == b.err,
    ensures
        a.shard == b.shard,
{
    let before = "ShardSendError { shard: "@;
    let after = ", err: "@ + a.err.label(time) + " }"@;
    assert(a.words(time) =~= before + decimal(a.shard as int) + after);
    assert(b.words(time) =~= before + decimal(b.shard as int) + after);
    lemma_between(before, decimal(a.shard as int), decimal(b.shard as int), after);
    lemma_decimal(a.shard as int, b.shard as int);
}

/// The text of the error tells the keys and the shards apart: it names each in full.
pub proof fn law_text_of_shard_key_try_send_error<T>(
    a: ShardKeyTrySendError<T>,
    b: ShardKeyTrySendError<T>,
)
    requires
        a.words() == b.words(),
        a.err == b.err,
    ensures
        a.shard == b.shard ==> a.key@ == b.key@,
        a.key@ == b.key@ ==> a.shard == b.shard,
{
    if a.shard == b.shard {
        let before = "ShardKeyTrySendError { key: "@;
        let after = ", shard: "@ + decimal(a.shard as int) + ", err: "@ + a.err.label() + " }"@;
        assert(a.words() =~= before + a.key@ + after);
        assert(b.words() =~= before + b.key@ + after);
        lemma_between(before, a.key@, b.key@, after);
    }
    if a.key@ == b.key@ {
        let before = "ShardKeyTrySendError { key: "@ + a.key@ + ", shard: "@;
        let after = ", err: "@ + a.err.label() + " }"@;
        assert(a.words() =~= before + decimal(a.shard as int) + after);
        assert(b.words() =~= before + decimal(b.shard as int) + after);
        lemma_between(before, decimal(a.shard as int), decimal(b.shard as int), after);
        lemma_decimal(a.shard as int, b.shard as int);
    }
}

/// The text of the error tells the keys and the shards apart: it names each in full.
pub proof fn law_text_of_shard_key_send_error<T>(
    a: ShardKeySendError<T>,
    b: ShardKeySendError<T>,
    time: Seq<char>,
)
    requires
        a.words(time) == b.words(time),
        a.err == b.err,
    ensures
        a.shard == b.shard ==> a.key@ == b.key@,
        a.key@ == b.key@ ==> a.shard == b.shard,
{
    if a.shard == b.shard {
        let before = "ShardKeySendError { key: "@;
        let after = ", shard: "@ + decimal(a.shard as int) + ", err: "@ + a.err.label(time) + " }"@;
        assert(a.words(time) =~= before + a.key@ + after);
        assert(b.words(time) =~= before + b.key@ + after);
        lemma_between(before, a.key@, b.key@, after);
    }
    if a.key@ == b.key@ {
        let before = "ShardKeySendError { key: "@ + a.key@ + ", shard: "@;
        let after = ", err: "@ + a.err.label(time) + " }"@;
        assert(a.words(time) =~= before + decimal(a.shard as int) + after);
        assert(b.words(time) =~= before + decimal(b.shard as int) + after);
        lemma_between(before, decimal(a.shard as int), decimal(b.shard as int), after);
        lemma_decimal(a.shard as int, b.shard as int);
    }
}

/// The text of the error tells the shards apart: it names the shard in full.
pub proof fn law_text_of_shard_async_send_error<T>(
    a: ShardAsyncSendError<T>,
    b: ShardAsyncSendError<T>,
)
    requires
        a.words() == b.words(),
        a.err == b.err,
    ensures
        a.shard == b.shard,
{
    let before = "ShardAsyncSendError { shard: "@;
    let after = ", err: "@ + a.err.label() + " }"@;
    assert(a.words() =~= before + decimal(a.shard as int) + after);
    assert(b.words() =~= before + decimal(b.shard as int) + after);
    lemma_between(before, decimal(a.shard as int), decimal(b.shard as int), after);
    lemma_decimal(a.shard as int, b.shard as int);
}

/// The text of the error tells the keys and the shards apart: it names each in full.
pub proof fn law_text_of_shard_key_async_send_error<T>(
    a: ShardKeyAsyncSendError<T>,
    b: ShardKeyAsyncSendError<T>,
)
    requires
        a.words() == b.words(),
        a.err == b.err,
    ensures
        a.shard == b.shard ==> a.key@ == b.key@,
        a.key@ == b.key@ ==> a.shard == b.shard,
{
    if a.shard == b.shard {
        let before = "ShardKeyAsyncSendError { key: "@;
        let after = ", shard: "@ + decimal(a.shard as int) + ", err: "@ + a.err.label() + " }"@;
        assert(a.words() =~= before + a.key@ + after);
        assert(b.words() =~= before + b.key@ + after);
        lemma_between(before, a.key@, b.key@, after);
    }
    if a.key@ == b.key@ {
        let before = "ShardKeyAsyncSendError { key: "@ + a.key@ + ", shard: "@;
        let after = ", err: "@ + a.err.label() + " }"@;
        assert(a.words() =~= before + decimal(a.shard as int) + after);
        assert(b.words() =~= before + decimal(b.shard as int) + after);
        lemma_between(before, decimal(a.shard as int), decimal(b.shard as int), after);
        lemma_decimal(a.shard as int, b.shard as int);
    }
}

/// The text of the error tells the keys and the shards apart: it names each in full.
pub proof fn law_text_of_shard_key_async_send_ref_error(
    a: ShardKeyAsyncSendRefError,
    b: ShardKeyAsyncSendRefError,
)
    requires
        a.words() == b.words(),
        a.err == b.err,
    ensures
        a.shard == b.shard ==> a.key@ == b.key@,
        a.key@ == b.key@ ==> a.shard == b.shard,
{
    if a.shard == b.shard {
        let before = "ShardKeyAsyncSendRefError { key: "@;
        let after = ", shard: "@ + decimal(a.shard as int) + ", err: "@ + a.err.label() + " }"@;
        assert(a.words() =~= before + a.key@ + after);
        assert(b.words() =~= before + b.key@ + after);
        lemma_between(before, a.key@, b.key@, after);
    }
    if a.key@ == b.key@ {
        let before = "ShardKeyAsyncSendRefError { key: "@ + a.key@ + ", shard: "@;
        let after = ", err: "@ + a.err.label() + " }"@;
        assert(a.words() =~= before + decimal(a.shard as int) + after);
        assert(b.words() =~= before + decimal(b.shard as int) + after);
        lemma_between(before, decimal(a.shard as int), decimal(b.shard as int), after);
        lemma_decimal(a.shard as int, b.shard as int);
    }
}

/// The text of the error tells the shards apart: it names the shard in full.
pub proof fn law_text_of_shard_try_recv_error(a: ShardTryRecvError, b: ShardTryRecvError)
    requires
        a.words() == b.words(),
        a.err == b.err,
    ensures
        a.shard == b.shard,
{
    let before = "ShardTryRecvError { shard: "@;
    let after = ", err: "@ + a.err.label() + " }"@;
    assert(a.words() =~= before + decimal(a.shard as int) + after);
    assert(b.words() =~= before + decimal(b.shard as int) + after);
    lemma_between(before, decimal(a.shard as int), decimal(b.shard as int), after);
    lemma_decimal(a.shard as int, b.shard as int);
}

/// The text of the error tells the shards apart: it names the shard in full.
pub proof fn law_text_of_shard_recv_error(a: ShardRecvError, b: ShardRecvError, time: Seq<char>)
    requires
        a.words(time) == b.words(time),
        a.err == b.err,
    ensures
        a.shard == b.shard,
{
    let before = "ShardRecvError { shard: "@;
    let after = ", err: "@ + a.err.label(time) + " }"@;
    assert(a.words(time) =~= before + decimal(a.shard as int) + after);
    assert(b.words(time) =~= before + decimal(b.shard as int) + after);
    lemma_between(before, decimal(a.shard as int), decimal(b.shard as int), after);
    lemma_decimal(a.shard as int, b.shard as int);
}

/// The text of the error tells the shards apart: it names the shard in full.
pub proof fn law_text_of_shard_async_recv_error(a: ShardAsyncRecvError, b: ShardAsyncRecvError)
    requires
        a.words() == b.words(),
        a.err == b.err,
    ensures
        a.shard == b.shard,
{
    let before = "ShardAsyncRecvError { shard: "@;
    let after = ", err: "@ + a.err.label() + " }"@;
    assert(a.words() =~= before + decimal(a.shard as int) + after);
    assert(b.words() =~= before + decimal(b.shard as int) + after);
    lemma_between(before, decimal(a.shard as int), decimal(b.shard as int), after);
    lemma_decimal(a.shard as int, b.shard as int);
}

/// The text of the error tells the shards and the counts apart: it names each in full.
pub proof fn law_text_of_shard_try_batch_send_error(
    a: ShardTryBatchSendError,
    b: ShardTryBatchSendError,
)
    requires
        a.words() == b.words(),
        a.reason == b.reason,
    ensures
        a.sent == b.sent ==> a.shard == b.shard,
        a.shard == b.shard ==> a.sent == b.sent,
{
    if a.sent == b.sent {
        let before = "ShardTryBatchSendError { shard: "@;
        let after = ", sent: "@ + decimal(a.sent as int) + ", reason: "@ + a.reason.label() + " }"@;
        assert(a.words() =~= before + decimal(a.shard as int) + after);
        assert(b.words() =~= before + decimal(b.shard as int) + after);
        lemma_between(before, decimal(a.shard as int), decimal(b.shard as int), after);
        lemma_decimal(a.shard as int, b.shard as int);
    }
    if a.shard == b.shard {
        let before = "ShardTryBatchSendError { shard: "@ + decimal(a.shard as int) + ", sent: "@;
        let after = ", reason: "@ + a.reason.label() + " }"@;
        assert(a.words() =~= before + decimal(a.sent as int) + after);
        assert(b.words() =~= before + decimal(b.sent as int) + after);
        lemma_between(before, decimal(a.sent as int), decimal(b.sent as int), after);
        lemma_decimal(a.sent as int, b.sent as int);
    }
}

/// The text of the error tells the shards and the counts apart: it names each in full.
pub proof fn law_text_of_shard_batch_send_error(a: ShardBatchSendError, b: ShardBatchSendError)
    requires
        a.words() == b.words(),
        a.reason == b.reason,
    ensures
        a.sent == b.sent ==> a.shard == b.shard,
        a.shard == b.shard ==> a.sent == b.sent,
{
    if a.sent == b.sent {
        let before = "ShardBatchSendError { shard: "@;
        let after = ", sent: "@ + decimal(a.sent as int) + ", reason: "@ + a.reason.label() + " }"@;
        assert(a.words() =~= before + decimal(a.shard as int) + after);
        assert(b.words() =~= before + decimal(b.shard as int) + after);
        lemma_between(before, decimal(a.shard as int), decimal(b.shard as int), after);
        lemma_decimal(a.shard as int, b.shard as int);
    }
    if a.shard == b.shard {
        let before = "ShardBatchSendError { shard: "@ + decimal(a.shard as int) + ", sent: "@;
        let after = ", reason: "@ + a.reason.label() + " }"@;
        assert(a.words() =~= before + decimal(a.sent as int) + after);
        assert(b.words() =~= before + decimal(b.sent as int) + after);
        lemma_between(before, decimal(a.sent as int), decimal(b.sent as int), after);
        lemma_decimal(a.sent as int, b.sent as int);
    }
}

/// The text of the error tells the shards and the counts apart: it names each in full.
pub proof fn law_text_of_shard_async_batch_send_error(
    a: ShardAsyncBatchSendError,
    b: ShardAsyncBatchSendError,
)
    requires
        a.words() == b.words(),
    ensures
        a.sent == b.sent ==> a.shard == b.shard,
        a.shard == b.shard ==> a.sent == b.sent,
{
    if a.sent == b.sent {
        let before = "ShardAsyncBatchSendError { shard: "@;
        let after = ", sent: "@ + decimal(a.sent as int) + " }"@;
        assert(a.words() =~= before + decimal(a.shard as int) + after);
        assert(b.words() =~= before + decimal(b.shard as int) + after);
        lemma_between(before, decimal(a.shard as int), decimal(b.shard as int), after);
        lemma_decimal(a.shard as int, b.shard as int);
    }
    if a.shard == b.shard {
        let before = "ShardAsyncBatchSendError { shard: "@ + decimal(a.shard as int) + ", sent: "@;
        let after = " }"@;
        assert(a.words() =~= before + decimal(a.sent as int) + after);
        assert(b.words() =~= before + decimal(b.sent as int) + after);
        lemma_between(before, decimal(a.sent as int), decimal(b.sent as int), after);
        lemma_decimal(a.sent as int, b.sent as int);
    }
}

/// The text of the error tells the keys, the shards and the counts apart: it names each in full.
pub proof fn law_text_of_shard_key_try_batch_send_error(
    a: ShardKeyTryBatchSendError,
    b: ShardKeyTryBatchSendError,
)
    requires
        a.words() == b.words(),
        a.reason == b.reason,
    ensures
        a.shard == b.shard && a.sent == b.sent ==> a.key@ == b.key@,
        a.key@ == b.key@ && a.sent == b.sent ==> a.shard == b.shard,
        a.key@ == b.key@ && a.shard == b.shard ==> a.sent == b.sent,
{
    if a.shard == b.shard && a.sent == b.sent {
        let before = "ShardKeyTryBatchSendError { key: "@;
        let after = ", shard: "@ + decimal(a.shard as int) + ", sent: "@
            + decimal(a.sent as int) + ", reason: "@ + a.reason.label() + " }"@;
        assert(a.words() =~= before + a.key@ + after);
        assert(b.words() =~= before + b.key@ + after);
        lemma_between(before, a.key@, b.key@, after);
    }
    if a.key@ == b.key@ && a.sent == b.sent {
        let before = "ShardKeyTryBatchSendError { key: "@ + a.key@ + ", shard: "@;
        let after = ", sent: "@ + decimal(a.sent as int) + ", reason: "@ + a.reason.label() + " }"@;
        assert(a.words() =~= before + decimal(a.shard as int) + after);
        assert(b.words() =~= before + decimal(b.shard as int) + after);
        lemma_between(before, decimal(a.shard as int), decimal(b.shard as int), after);
        lemma_decimal(a.shard as int, b.shard as int);
    }
    if a.key@ == b.key@ && a.shard == b.shard {
        let before = "ShardKeyTryBatchSendError { key: "@ + a.key@ + ", shard: "@
            + decimal(a.shard as int) + ", sent: "@;
        let after = ", reason: "@ + a.reason.label() + " }"@;
        assert(a.words() =~= before + decimal(a.sent as int) + after);
        assert(b.words() =~= before + decimal(b.sent as int) + after);
        lemma_between(before, decimal(a.sent as int), decimal(b.sent as int), after);
        lemma_decimal(a.sent as int, b.sent as int);
    }
}

/// The text of the error tells the keys, the shards and the counts apart: it names each in full.
pub proof fn law_text_of_shard_key_batch_send_error(
    a: ShardKeyBatchSendError,
    b: ShardKeyBatchSendError,
)
    requires
        a.words() == b.words(),
        a.reason == b.reason,
    ensures
        a.shard == b.shard && a.sent == b.sent ==> a.key@ == b.key@,
        a.key@ == b.key@ && a.sent == b.sent ==> a.shard == b.shard,
        a.key@ == b.key@ && a.shard == b.shard ==> a.sent == b.sent,
{
    if a.shard == b.shard && a.sent == b.sent {
        let before = "ShardKeyBatchSendError { key: "@;
        let after = ", shard: "@ + decimal(a.shard as int) + ", sent: "@
            + decimal(a.sent as int) + ", reason: "@ + a.reason.label() + " }"@;
        assert(a.words() =~= before + a.key@ + after);
        assert(b.words() =~= before + b.key@ + after);
        lemma_between(before, a.key@, b.key@, after);
    }
    if a.key@ == b.key@ && a.sent == b.sent {
        let before = "ShardKeyBatchSendError { key: "@ + a.key@ + ", shard: "@;
        let after = ", sent: "@ + decimal(a.sent as int) + ", reason: "@ + a.reason.label() + " }"@;
        assert(a.words() =~= before + decimal(a.shard as int) + after);
        assert(b.words() =~= before + decimal(b.shard as int) + after);
        lemma_between(before, decimal(a.shard as int), decimal(b.shard as int), after);
        lemma_decimal(a.shard as int, b.shard as int);
    }
    if a.key@ == b.key@ && a.shard == b.shard {
        let before = "ShardKeyBatchSendError { key: "@ + a.key@ + ", shard: "@
            + decimal(a.shard as int) + ", sent: "@;
        let after = ", reason: "@ + a.reason.label() + " }"@;
        assert(a.words() =~= before + decimal(a.sent as int) + after);
        assert(b.words() =~= before + decimal(b.sent as int) + after);
        lemma_between(before, decimal(a.sent as int), decimal(b.sent as int), after);
        lemma_decimal(a.sent as int, b.sent as int);
    }
}

/// The text of the error tells the keys, the shards and the counts apart: it names each in full.
pub proof fn law_text_of_shard_key_async_batch_send_error(
    a: ShardKeyAsyncBatchSendError,
    b: ShardKeyAsyncBatchSendError,
)
    requires
        a.words() == b.words(),
    ensures
        a.shard == b.shard && a.sent == b.sent ==> a.key@ == b.key@,
        a.key@ == b.key@ && a.sent == b.sent ==> a.shard == b.shard,
        a.key@ == b.key@ && a.shard == b.shard ==> a.sent == b.sent,
{
    if a.shard == b.shard && a.sent == b.sent {
        let before = "ShardKeyAsyncBatchSendError { key: "@;
        let after = ", shard: "@ + decimal(a.shard as int) + ", sent: "@
            + decimal(a.sent as int) + " }"@;
        assert(a.words() =~= before + a.key@ + after);
        assert(b.words() =~= before + b.key@ + after);
        lemma_between(before, a.key@, b.key@, after);
    }
    if a.key@ == b.key@ && a.sent == b.sent {
        let before = "ShardKeyAsyncBatchSendError { key: "@ + a.key@ + ", shard: "@;
        let after = ", sent: "@ + decimal(a.sent as int) + " }"@;
        assert(a.words() =~= before + decimal(a.shard as int) + after);
        assert(b.words() =~= before + decimal(b.shard as int) + after);
        lemma_between(before, decimal(a.shard as int), decimal(b.shard as int), after);
        lemma_decimal(a.shard as int, b.shard as int);
    }
    if a.key@ == b.key@ && a.shard == b.shard {
        let before = "ShardKeyAsyncBatchSendError { key: "@ + a.key@ + ", shard: "@
            + decimal(a.shard as int) + ", sent: "@;
        let after = " }"@;
        assert(a.words() =~= before + decimal(a.sent as int) + after);
        assert(b.words() =~= before + decimal(b.sent as int) + after);
        lemma_between(before, decimal(a.sent as int), decimal(b.sent as int), after);
        lemma_decimal(a.sent as int, b.sent as int);
    }
}

} // verus!
