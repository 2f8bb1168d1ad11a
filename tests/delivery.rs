use topic_consumer::consumer::HandlerOutcome;
use topic_consumer::delivery::{handle_text, DecodePolicy};

#[test]
fn text_payload_is_decoded_and_acked() {
    let d = handle_text(DecodePolicy::RejectUndecodable, "héllo".as_bytes());
    assert_eq!(d.outcome, HandlerOutcome::Ack);
    assert_eq!(d.text.as_deref(), Some("héllo"));
}

#[test]
fn undecodable_payload_follows_policy() {
    let bytes = vec![0xffu8, 0xfe, 0x41];
    let acked = handle_text(DecodePolicy::AckUndecodable, &bytes);
    assert_eq!(acked.outcome, HandlerOutcome::Ack);
    assert!(acked.text.is_none());
    let rejected = handle_text(DecodePolicy::RejectUndecodable, &bytes);
    assert_eq!(rejected.outcome, HandlerOutcome::Reject { requeue: false });
    assert!(rejected.text.is_none());
}

#[test]
fn empty_payload_is_empty_text() {
    let d = handle_text(DecodePolicy::RejectUndecodable, &[]);
    assert_eq!(d.text.as_deref(), Some(""));
}
