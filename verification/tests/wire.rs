use rusty_cam::utils::{to_json, value_or_null, SignalMessage};
use rusty_cam::wire::{from_fields, to_fields, Field, FieldValue};

fn text(name: &str, value: &str) -> Field {
    Field { name: name.to_string(), value: FieldValue::Text(value.to_string()) }
}

fn member(name: &str, value: FieldValue) -> Field {
    Field { name: name.to_string(), value }
}

fn every_message() -> Vec<SignalMessage> {
    vec![
        SignalMessage::Register { from: "camera_peer".to_string() },
        SignalMessage::Offer {
            sdp: "v=0".to_string(),
            from: "viewer".to_string(),
            offer_to: "camera_peer".to_string(),
        },
        SignalMessage::Answer {
            sdp: "v=0".to_string(),
            from: "camera_peer".to_string(),
            answer_to: "viewer".to_string(),
        },
        SignalMessage::Candidate {
            candidate: "candidate:1".to_string(),
            sdp_mid: Some("0".to_string()),
            sdp_mline_index: Some(7),
            from: "camera_peer".to_string(),
            to: "viewer".to_string(),
        },
        SignalMessage::Candidate {
            candidate: "candidate:2".to_string(),
            sdp_mid: None,
            sdp_mline_index: None,
            from: "camera_peer".to_string(),
            to: "viewer".to_string(),
        },
        SignalMessage::Video { from: "a".to_string(), to: "b".to_string() },
        SignalMessage::Ping { t: "ping".to_string() },
    ]
}

#[test]
fn messages_read_back_as_written() {
    for message in every_message() {
        assert_eq!(from_fields(&to_fields(&message)), Some(message));
    }
}

#[test]
fn members_may_come_in_any_order() {
    for message in every_message() {
        let mut fields = to_fields(&message);
        fields.reverse();
        assert_eq!(from_fields(&fields), Some(message));
    }
}

#[test]
fn offer_is_written_in_declaration_order() {
    let offer = SignalMessage::Offer {
        sdp: "s".to_string(),
        from: "f".to_string(),
        offer_to: "o".to_string(),
    };
    assert_eq!(to_fields(&offer), vec![text("sdp", "s"), text("from", "f"), text("offer_to", "o")]);
}

#[test]
fn candidate_without_mid_is_written_with_nulls() {
    let message = SignalMessage::Candidate {
        candidate: "c".to_string(),
        sdp_mid: None,
        sdp_mline_index: None,
        from: "f".to_string(),
        to: "t".to_string(),
    };
    assert_eq!(
        to_fields(&message),
        vec![
            text("candidate", "c"),
            member("sdp_mid", FieldValue::Null),
            member("sdp_mline_index", FieldValue::Null),
            text("from", "f"),
            text("to", "t"),
        ]
    );
}

#[test]
fn optional_members_may_be_left_out() {
    let fields = vec![text("to", "t"), text("candidate", "c"), text("from", "f")];
    assert_eq!(
        from_fields(&fields),
        Some(SignalMessage::Candidate {
            candidate: "c".to_string(),
            sdp_mid: None,
            sdp_mline_index: None,
            from: "f".to_string(),
            to: "t".to_string(),
        })
    );
}

#[test]
fn unknown_member_is_rejected() {
    let fields = vec![text("from", "f"), text("color", "red")];
    assert_eq!(from_fields(&fields), None);
}

#[test]
fn missing_member_is_rejected() {
    assert_eq!(from_fields(&vec![text("sdp", "s"), text("from", "f")]), None);
    assert_eq!(from_fields(&vec![]), None);
}

#[test]
fn repeated_member_is_rejected() {
    assert_eq!(from_fields(&vec![text("from", "a"), text("from", "b")]), None);
    assert_eq!(from_fields(&vec![text("from", "a"), text("from", "a")]), None);
}

#[test]
fn member_of_another_type_is_rejected() {
    for value in vec![FieldValue::Number(1), FieldValue::Null, FieldValue::Other] {
        assert_eq!(from_fields(&vec![member("from", value)]), None);
    }
}

fn candidate_with(name: &str, value: FieldValue) -> Option<SignalMessage> {
    from_fields(&vec![
        text("candidate", "c"),
        member(name, value),
        text("from", "f"),
        text("to", "t"),
    ])
}

#[test]
fn line_index_must_fit_sixteen_bits() {
    assert!(matches!(
        candidate_with("sdp_mline_index", FieldValue::Number(65535)),
        Some(SignalMessage::Candidate { sdp_mline_index: Some(65535), sdp_mid: None, .. })
    ));
    assert_eq!(candidate_with("sdp_mline_index", FieldValue::Number(65536)), None);
    assert_eq!(candidate_with("sdp_mline_index", FieldValue::Text("1".to_string())), None);
    assert_eq!(candidate_with("sdp_mline_index", FieldValue::Other), None);
}

#[test]
fn mid_must_be_text_or_null() {
    assert!(candidate_with("sdp_mid", FieldValue::Null).is_some());
    assert_eq!(candidate_with("sdp_mid", FieldValue::Number(0)), None);
    assert_eq!(candidate_with("sdp_mid", FieldValue::Other), None);
}

#[test]
fn kinds_are_told_apart_by_their_members() {
    assert!(matches!(
        from_fields(&vec![text("from", "a")]),
        Some(SignalMessage::Register { .. })
    ));
    assert!(matches!(
        from_fields(&vec![text("from", "a"), text("to", "b")]),
        Some(SignalMessage::Video { .. })
    ));
    assert!(matches!(from_fields(&vec![text("t", "ping")]), Some(SignalMessage::Ping { .. })));
}

#[test]
fn json_text_is_parsed() {
    let value = to_json("{\"a\": [1, true, \"x\"]}");
    assert_eq!(value["a"][0], serde_json::Value::from(1));
    assert_eq!(value["a"][1], serde_json::Value::Bool(true));
    assert_eq!(value["a"][2], serde_json::Value::String("x".to_string()));
    assert_eq!(to_json("null"), serde_json::Value::Null);
}

#[test]
fn text_that_is_no_json_gives_null() {
    assert_eq!(to_json("{"), serde_json::Value::Null);
    assert_eq!(to_json(""), serde_json::Value::Null);
    assert_eq!(to_json("1 2"), serde_json::Value::Null);
}

#[test]
fn parsed_value_is_kept_and_failure_gives_null() {
    let seven = serde_json::from_str::<serde_json::Value>("7");
    assert_eq!(value_or_null(seven), serde_json::Value::from(7));
    let broken = serde_json::from_str::<serde_json::Value>("]");
    assert_eq!(value_or_null(broken), serde_json::Value::Null);
}

fn fields_of_text(json: &str) -> Vec<Field> {
    let value = to_json(json);
    value
        .as_object()
        .unwrap()
        .iter()
        .map(|(name, value)| {
            let value = match value {
                serde_json::Value::String(text) => FieldValue::Text(text.clone()),
                serde_json::Value::Null => FieldValue::Null,
                serde_json::Value::Number(n) if n.as_u64().is_some() => {
                    FieldValue::Number(n.as_u64().unwrap())
                }
                _ => FieldValue::Other,
            };
            Field { name: name.clone(), value }
        })
        .collect()
}

#[test]
fn json_texts_are_messages() {
    assert_eq!(
        from_fields(&fields_of_text("{\"from\":\"camera_peer\"}")),
        Some(SignalMessage::Register { from: "camera_peer".to_string() })
    );
    assert_eq!(
        from_fields(&fields_of_text("{\"sdp\":\"s\",\"from\":\"f\",\"answer_to\":\"a\"}")),
        Some(SignalMessage::Answer {
            sdp: "s".to_string(),
            from: "f".to_string(),
            answer_to: "a".to_string(),
        })
    );
    assert_eq!(
        from_fields(&fields_of_text("{ \"t\": \"ping\"}")),
        Some(SignalMessage::Ping { t: "ping".to_string() })
    );
    assert_eq!(from_fields(&fields_of_text("{\"from\": true}")), None);
    assert_eq!(from_fields(&fields_of_text("{\"from\": -1}")), None);
    assert_eq!(from_fields(&fields_of_text("{\"from\": [\"a\"]}")), None);
}
