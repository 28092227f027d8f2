//! JSON text and the signaling messages.

use vstd::prelude::*;

verus! {

/// `serde_json`'s dynamically typed JSON value.
#[verifier::external_type_specification]
#[verifier::external_body]
pub struct ExJsonValue(serde_json::Value);

/// `serde_json`'s parse error.
#[verifier::external_type_specification]
#[verifier::external_body]
pub struct ExJsonError(serde_json::Error);

/// The value that `serde_json` reads from a JSON text; `None` where the text is no JSON.
pub uninterp spec fn parsed_json(text: Seq<char>) -> Option<serde_json::Value>;

/// Calls `serde_json::from_str::<serde_json::Value>`. Claims that the outcome depends on the
/// text alone: the value under the name `parsed_json` on success, no value there on failure.
/// Nothing is said of which error comes back.
#[verifier::external_body]
fn parse_value(text: &str) -> (parsed: Result<serde_json::Value, serde_json::Error>)
    ensures
        parsed matches Ok(value) ==> parsed_json(text@) == Some(value),
        parsed is Err ==> parsed_json(text@) is None,
{
    serde_json::from_str::<serde_json::Value>(text)
}

/// Calls `serde_json::Value::default`, which returns `Value::Null`. Claims that this is the
/// value that the JSON text `null` stands for.
#[verifier::external_body]
fn null_value() -> (value: serde_json::Value)
    ensures
        parsed_json("null"@) == Some(value),
{
    serde_json::Value::default()
}

/// Whether `value` is the JSON null.
pub open spec fn is_json_null(value: serde_json::Value) -> bool {
    parsed_json("null"@) == Some(value)
}

/// The value of a successful parse, and the JSON null for a failed one.
pub fn value_or_null(parsed: Result<serde_json::Value, serde_json::Error>) -> (value:
    serde_json::Value)
    ensures
        parsed matches Ok(v) ==> value == v,
        parsed is Err ==> is_json_null(value),
{
    match parsed {
        Ok(value) => value,
        Err(_) => null_value(),
    }
}

/// Parses a JSON text. A text that is no JSON gives the JSON null.
pub fn to_json(text: &str) -> (value: serde_json::Value)
    ensures
        match parsed_json(text@) {
            Some(v) => value == v,
            None => is_json_null(value),
        },
{
    value_or_null(parse_value(text))
}

/// A message that the peers and the signaling server exchange.
#[derive(Debug, Clone, PartialEq, Eq)]
pub enum SignalMessage {
    /// A peer makes itself known to the server.
    Register { from: String },
    /// A viewer offers a session.
    Offer { sdp: String, from: String, offer_to: String },
    /// The reply to an offer.
    Answer { sdp: String, from: String, answer_to: String },
    /// An ICE candidate.
    Candidate {
        candidate: String,
        sdp_mid: Option<String>,
        sdp_mline_index: Option<u16>,
        from: String,
        to: String,
    },
    /// A request for video.
    Video { from: String, to: String },
    /// The server's keep-alive.
    Ping { t: String },
}

/// What a [`SignalMessage`] says, with its strings as character sequences.
#[verifier::ext_equal]
pub enum SignalMessageView {
    Register { from: Seq<char> },
    Offer { sdp: Seq<char>, from: Seq<char>, offer_to: Seq<char> },
    Answer { sdp: Seq<char>, from: Seq<char>, answer_to: Seq<char> },
    Candidate {
        candidate: Seq<char>,
        sdp_mid: Option<Seq<char>>,
        sdp_mline_index: Option<u16>,
        from: Seq<char>,
        to: Seq<char>,
    },
    Video { from: Seq<char>, to: Seq<char> },
    Ping { t: Seq<char> },
}

/// The characters of an optional string.
pub open spec fn opt_chars(text: Option<String>) -> Option<Seq<char>> {
    match text {
        Some(s) => Some(s@),
        None => None,
    }
}

impl View for SignalMessage {
    type V = SignalMessageView;

    open spec fn view(&self) -> SignalMessageView {
        match *self {
            SignalMessage::Register { from } => SignalMessageView::Register { from: from@ },
            SignalMessage::Offer { sdp, from, offer_to } => SignalMessageView::Offer {
                sdp: sdp@,
                from: from@,
                offer_to: offer_to@,
            },
            SignalMessage::Answer { sdp, from, answer_to } => SignalMessageView::Answer {
                sdp: sdp@,
                from: from@,
                answer_to: answer_to@,
            },
            SignalMessage::Candidate {
                candidate,
                sdp_mid,
                sdp_mline_index,
                from,
                to,
            } => SignalMessageView::Candidate {
                candidate: candidate@,
                sdp_mid: opt_chars(sdp_mid),
                sdp_mline_index,
                from: from@,
                to: to@,
            },
            SignalMessage::Video { from, to } => SignalMessageView::Video {
                from: from@,
                to: to@,
            },
            SignalMessage::Ping { t } => SignalMessageView::Ping { t: t@ },
        }
    }
}

/// A message is seen as it is: each member under its own name.
pub proof fn message_is_seen_as_it_is(message: SignalMessage)
    ensures
        message is Register <==> message@ is Register,
        message is Offer <==> message@ is Offer,
        message is Answer <==> message@ is Answer,
        message is Candidate <==> message@ is Candidate,
        message is Video <==> message@ is Video,
        message is Ping <==> message@ is Ping,
        message is Register ==> message@->Register_from == message->Register_from@,
        message is Offer ==> message@->Offer_sdp == message->Offer_sdp@ && message@->Offer_from
            == message->Offer_from@ && message@->offer_to == message->offer_to@,
        message is Answer ==> message@->Answer_sdp == message->Answer_sdp@ && message@->Answer_from
            == message->Answer_from@ && message@->answer_to == message->answer_to@,
        message is Candidate ==> message@->candidate == message->candidate@
            && message@->sdp_mline_index == message->sdp_mline_index && message@->Candidate_from
            == message->Candidate_from@ && message@->Candidate_to == message->Candidate_to@,
        message is Candidate && message->sdp_mid is None ==> message@->sdp_mid is None,
        message is Candidate && message->sdp_mid is Some ==> message@->sdp_mid == Some(
            message->sdp_mid->0@,
        ),
        message is Video ==> message@->Video_from == message->Video_from@ && message@->Video_to
            == message->Video_to@,
        message is Ping ==> message@->t == message->t@,
{
}

} // verus!
