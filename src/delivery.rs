use vstd::prelude::*;
use vstd::utf8::{decode_utf8, valid_utf8};
use crate::consumer::HandlerOutcome;

verus! {

/// What the text handler does with a payload that is not valid UTF-8.
#[derive(Debug, Clone, Copy, PartialEq, Eq, Structural)]
pub enum DecodePolicy {
    /// Acknowledge it all the same: the text is only logged.
    AckUndecodable,
    /// Reject it without requeue.
    RejectUndecodable,
}

/// Relies on std::str::from_utf8: it succeeds exactly on valid UTF-8, and
/// then yields the characters that the bytes encode.
#[verifier::external_body]
fn utf8_text(bytes: &[u8]) -> (r: Option<String>)
    ensures
        r is Some <==> valid_utf8(bytes@),
        r matches Some(s) ==> s@ == decode_utf8(bytes@),
{
    match std::str::from_utf8(bytes) {
        Ok(s) => Some(s.to_owned()),
        Err(_) => None,
    }
}

/// The text handler's decision on a payload, and the payload as text when
/// it decodes, for the log.
#[derive(Debug)]
pub struct TextDelivery {
    pub outcome: HandlerOutcome,
    pub text: Option<String>,
}

pub open spec fn text_outcome(policy: DecodePolicy, payload: Seq<u8>) -> HandlerOutcome {
    if valid_utf8(payload) || policy == DecodePolicy::AckUndecodable {
        HandlerOutcome::Ack
    } else {
        HandlerOutcome::Reject { requeue: false }
    }
}

/// Decodes a payload as UTF-8 text and decides on it: decodable payloads are
/// acknowledged, and the others as `policy` says.
pub fn handle_text(policy: DecodePolicy, payload: &[u8]) -> (r: TextDelivery)
    ensures
        r.text is Some <==> valid_utf8(payload@),
        r.text matches Some(t) ==> t@ == decode_utf8(payload@),
        r.outcome == text_outcome(policy, payload@),
{
    let text = utf8_text(payload);
    let outcome = match (&text, policy) {
        (Some(_), _) => HandlerOutcome::Ack,
        (None, DecodePolicy::AckUndecodable) => HandlerOutcome::Ack,
        (None, DecodePolicy::RejectUndecodable) => HandlerOutcome::Reject { requeue: false },
    };
    TextDelivery { outcome, text }
}

} // verus!
