use physics::messages::{parse_server_msg_payload, InnerServerMessage, ProtoUuid, ServerMessagePayload};

fn payload(id: Option<(u64, u64)>, content: Option<&'static str>) -> ServerMessagePayload<&'static str> {
    ServerMessagePayload {
        id: id.map(|(data_1, data_2)| ProtoUuid { data_1, data_2 }),
        payload: content,
    }
}

fn pairs(messages: &[InnerServerMessage<&'static str>]) -> Vec<(u128, &'static str)> {
    messages.iter().map(|message| (message.id, message.content)).collect()
}

#[test]
fn wire_identity_has_its_low_half_first() {
    assert_eq!(ProtoUuid { data_1: 3, data_2: 5 }.key(), (5u128 << 64) | 3);
    assert_eq!(ProtoUuid { data_1: u64::MAX, data_2: u64::MAX }.key(), u128::MAX);
}

#[test]
fn complete_payload_becomes_a_message() {
    let inner = payload(Some((1, 0)), Some("moved")).into_inner().expect("both fields are there");
    assert_eq!((inner.id, inner.content), (1, "moved"));
}

#[test]
fn payload_without_identity_or_content_is_dropped() {
    assert!(payload(None, Some("moved")).into_inner().is_none());
    assert!(payload(Some((1, 0)), None).into_inner().is_none());
    assert!(payload(None, None).into_inner().is_none());
}

#[test]
fn usable_payloads_keep_their_order() {
    let parsed = parse_server_msg_payload(vec![
        payload(Some((7, 0)), Some("a")),
        payload(None, Some("b")),
        payload(Some((0, 1)), Some("c")),
        payload(Some((9, 9)), None),
        payload(Some((7, 0)), Some("d")),
    ]);
    assert_eq!(pairs(&parsed), vec![(7, "a"), (1u128 << 64, "c"), (7, "d")]);
}

#[test]
fn no_payloads_give_no_messages() {
    let parsed = parse_server_msg_payload(Vec::<ServerMessagePayload<&'static str>>::new());
    assert!(parsed.is_empty());
}
