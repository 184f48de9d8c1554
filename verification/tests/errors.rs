use hel::helper::panic::{PanicPayload, PanicReason};
use hel::internal_channel::errors::{AsyncSendError, RecvError, SendError, TrySendError};
use hel::shard::errors::{
    ShardAsyncSendError, ShardKeyAsyncSendError, ShardKeySendError, ShardKeyTrySendError,
    ShardRecvError, ShardSendError, ShardTrySendError,
};
use std::time::Duration;

/// An item that cannot be printed.
struct Mute;

const HALF: Duration = Duration::from_millis(500);

fn key() -> String {
    "user:1".to_string()
}

/// Errors are printed by their names, whatever the item.
#[test]
fn send_errors_print_without_the_item() {
    assert_eq!(format!("{:?}", TrySendError::Full(Mute)), "Full");
    assert_eq!(format!("{:?}", TrySendError::Disconnected(Mute)), "Disconnected");
    assert_eq!(format!("{:?}", SendError::TimeOut((Mute, HALF))), "TimeOut(500ms)");
    assert_eq!(format!("{:#?}", SendError::TimeOut((Mute, HALF))), "TimeOut(500ms)");
    assert_eq!(format!("{:?}", SendError::Disconnected(Mute)), "Disconnected");
    assert_eq!(format!("{:?}", AsyncSendError::Disconnected(Mute)), "Disconnected");
}

#[test]
fn shard_errors_print_without_the_item() {
    let e = ShardTrySendError { shard: 3, err: TrySendError::Full(Mute) };
    assert_eq!(format!("{e:?}"), "ShardTrySendError { shard: 3, err: Full }");
    assert_eq!(format!("{e:#?}"), "ShardTrySendError {\n    shard: 3,\n    err: Full,\n}");
    let e = ShardSendError { shard: 1, err: SendError::TimeOut((Mute, HALF)) };
    assert_eq!(format!("{e:?}"), "ShardSendError { shard: 1, err: TimeOut(500ms) }");
    let e = ShardKeyTrySendError { key: key(), shard: 2, err: TrySendError::Disconnected(Mute) };
    assert_eq!(
        format!("{e:?}"),
        "ShardKeyTrySendError { key: \"user:1\", shard: 2, err: Disconnected }"
    );
    let e = ShardKeySendError { key: key(), shard: 2, err: SendError::Disconnected(Mute) };
    assert_eq!(
        format!("{e:?}"),
        "ShardKeySendError { key: \"user:1\", shard: 2, err: Disconnected }"
    );
    let e = ShardAsyncSendError { shard: 0, err: AsyncSendError::Disconnected(Mute) };
    assert_eq!(format!("{e:?}"), "ShardAsyncSendError { shard: 0, err: Disconnected }");
    let e = ShardKeyAsyncSendError {
        key: key(),
        shard: 9,
        err: AsyncSendError::Disconnected(Mute),
    };
    assert_eq!(
        format!("{e:?}"),
        "ShardKeyAsyncSendError { key: \"user:1\", shard: 9, err: Disconnected }"
    );
}

/// The time comes as text.
#[test]
fn timed_errors_in_words() {
    let time = format!("{HALF:?}");
    let late = SendError::TimeOut((Mute, HALF));
    assert_eq!(late.text(&time), "send timed out after 500ms");
    assert_eq!(late.name(&time), "TimeOut(500ms)");
    let gone = SendError::Disconnected(Mute);
    assert_eq!(gone.text(&time), "sending on a disconnected channel");
    assert_eq!(gone.name(&time), "Disconnected");
    let late = RecvError::TimeOut(HALF);
    assert_eq!(late.text(&time), "receive timed out after 500ms");
    assert_eq!(late.name(&time), format!("{late:?}"));
    let gone = RecvError::Disconnected;
    assert_eq!(gone.text(""), "receiving on an empty and disconnected channel");
    assert_eq!(gone.name(""), format!("{gone:?}"));
}

#[test]
fn timed_shard_errors_in_words() {
    let time = format!("{HALF:?}");
    let e = ShardSendError { shard: 12, err: SendError::TimeOut((Mute, HALF)) };
    assert_eq!(e.text(&time), "ShardSendError { shard: 12, err: TimeOut(500ms) }");
    let e = ShardSendError { shard: 0, err: SendError::Disconnected(Mute) };
    assert_eq!(e.text(""), "ShardSendError { shard: 0, err: Disconnected }");
    let e = ShardKeySendError { key: key(), shard: 7, err: SendError::TimeOut((Mute, HALF)) };
    assert_eq!(
        e.text(&time),
        "ShardKeySendError { key: user:1, shard: 7, err: TimeOut(500ms) }"
    );
    let e = ShardRecvError { shard: 1, err: RecvError::TimeOut(HALF) };
    assert_eq!(e.text(&time), "ShardRecvError { shard: 1, err: TimeOut(500ms) }");
    let e = ShardRecvError { shard: 1, err: RecvError::Disconnected };
    assert_eq!(e.text(""), "ShardRecvError { shard: 1, err: Disconnected }");
}

#[test]
fn panic_reasons_print_their_text() {
    let cancelled: PanicReason<Mute> = PanicReason::cancelled();
    assert_eq!(format!("{cancelled:?}"), "PanicReason(\"worker cancelled\")");
    let said: PanicReason<Mute> = PanicReason(PanicPayload::Message("a \"b\"".to_string()));
    assert_eq!(format!("{said:?}"), "PanicReason(\"a \\\"b\\\"\")");
    let other = PanicReason(PanicPayload::Other(Mute));
    assert_eq!(format!("{other:?}"), "PanicReason(<non-string payload>)");
}
