use topic_consumer::consumer::{
    consumer_tag, Admission, Consumer, HandlerOutcome, HandlerResult, Phase, Settlement, StopReason,
};

fn running(queue: &str) -> Consumer {
    let mut c = Consumer::new(queue.to_string());
    c.started();
    c
}

#[test]
fn consumer_tag_prefixes_queue_name() {
    assert_eq!(consumer_tag("orders"), "consumer_orders");
}

#[test]
fn three_messages_acked_in_delivery_order() {
    let mut c = running("orders");
    let mut acks = Vec::new();
    for (tag, _payload) in [(1u64, "a"), (2, "b"), (3, "c")] {
        assert_eq!(c.deliver(tag), Admission::Handle);
        acks.push(c.finish(HandlerResult::Completed(HandlerOutcome::Ack)).unwrap());
    }
    assert_eq!(
        acks,
        vec![
            Settlement::Ack { tag: 1 },
            Settlement::Ack { tag: 2 },
            Settlement::Ack { tag: 3 },
        ]
    );
}

#[test]
fn second_finish_settles_nothing() {
    let mut c = running("q");
    c.deliver(7);
    assert_eq!(
        c.finish(HandlerResult::Completed(HandlerOutcome::Ack)),
        Some(Settlement::Ack { tag: 7 })
    );
    assert_eq!(c.finish(HandlerResult::Completed(HandlerOutcome::Ack)), None);
}

#[test]
fn reject_keeps_requeue_flag() {
    let mut c = running("q");
    c.deliver(4);
    assert_eq!(
        c.finish(HandlerResult::Completed(HandlerOutcome::Reject { requeue: true })),
        Some(Settlement::Reject { tag: 4, requeue: true })
    );
}

#[test]
fn handler_failure_rejects_and_consumer_goes_on() {
    let mut c = running("q");
    c.deliver(1);
    assert_eq!(
        c.finish(HandlerResult::Failed),
        Some(Settlement::Reject { tag: 1, requeue: false })
    );
    assert_eq!(c.phase(), Phase::Running);
    assert_eq!(c.failures(), 1);
    assert_eq!(c.deliver(2), Admission::Handle);
    assert_eq!(
        c.finish(HandlerResult::Completed(HandlerOutcome::Ack)),
        Some(Settlement::Ack { tag: 2 })
    );
}

#[test]
fn failure_on_one_queue_leaves_another_untouched() {
    let mut a = running("a");
    let mut b = running("b");
    a.deliver(1);
    b.deliver(1);
    a.finish(HandlerResult::Failed);
    assert_eq!(
        b.finish(HandlerResult::Completed(HandlerOutcome::Ack)),
        Some(Settlement::Ack { tag: 1 })
    );
    assert_eq!(b.failures(), 0);
}

#[test]
fn delivery_while_busy_is_requeued() {
    let mut c = running("q");
    assert_eq!(c.deliver(1), Admission::Handle);
    assert_eq!(
        c.deliver(2),
        Admission::Settle(Settlement::Reject { tag: 2, requeue: true })
    );
}

#[test]
fn delivery_before_start_is_requeued() {
    let mut c = Consumer::new("q".to_string());
    assert_eq!(
        c.deliver(9),
        Admission::Settle(Settlement::Reject { tag: 9, requeue: true })
    );
}

#[test]
fn cancel_when_idle_stops_cleanly() {
    let mut c = running("q");
    assert_eq!(c.stop_reason(), None);
    c.cancel();
    assert_eq!(c.phase(), Phase::Stopped);
    assert_eq!(c.stop_reason(), Some(StopReason::Cancelled));
    c.stream_ended();
    assert_eq!(c.stop_reason(), Some(StopReason::Cancelled));
}

#[test]
fn cancel_while_handling_drains_first() {
    let mut c = running("q");
    c.deliver(5);
    c.cancel();
    assert_eq!(c.phase(), Phase::Draining);
    assert_eq!(
        c.deliver(6),
        Admission::Settle(Settlement::Reject { tag: 6, requeue: true })
    );
    assert_eq!(
        c.finish(HandlerResult::Completed(HandlerOutcome::Ack)),
        Some(Settlement::Ack { tag: 5 })
    );
    assert_eq!(c.phase(), Phase::Stopped);
    assert_eq!(c.stop_reason(), Some(StopReason::Cancelled));
}

#[test]
fn stream_end_without_cancel_is_channel_loss() {
    let mut c = running("q");
    c.stream_ended();
    assert_eq!(c.stop_reason(), Some(StopReason::ChannelClosed));
    assert!(!StopReason::ChannelClosed.is_clean());
    assert!(StopReason::Cancelled.is_clean());
}

#[test]
fn failed_start_stops_with_error() {
    let mut c = Consumer::new("q".to_string());
    assert_eq!(c.phase(), Phase::Starting);
    c.start_failed();
    assert_eq!(c.stop_reason(), Some(StopReason::StartFailed));
    c.started();
    assert_eq!(c.phase(), Phase::Stopped);
    assert_eq!(c.queue(), "q");
}

#[test]
fn cancel_before_start_stops() {
    let mut c = Consumer::new("q".to_string());
    c.cancel();
    assert_eq!(c.stop_reason(), Some(StopReason::Cancelled));
}
