use gateway_engine::codec::BodyField;
use gateway_engine::codec::BodyVal;
use gateway_engine::codec::Command;
use gateway_engine::codec::CommandKind;
use gateway_engine::codec::DecodeError;
use gateway_engine::codec::InboundMessage;
use gateway_engine::codec::decode;
use gateway_engine::codec::encode;

fn create_cmd(secret: Option<&[u8]>, tx: &[u8]) -> Command {
    Command {
        kind: CommandKind::Create,
        secret: secret.map(|s| s.to_vec()),
        plugin: None,
        transaction: tx.to_vec(),
        session_id: None,
        handle_id: None,
        body: None,
    }
}

#[test]
fn encode_create_exact_bytes() {
    let cmd = create_cmd(Some(b"api_secret4321"), b"Qs6uJ7jODoJR");
    let frame = encode(&cmd);
    assert_eq!(
        frame,
        b"{\"janus\":\"create\",\"apisecret\":\"api_secret4321\",\"transaction\":\"Qs6uJ7jODoJR\"}"
            .to_vec()
    );
}

#[test]
fn encode_keepalive_exact_bytes() {
    let cmd = Command {
        kind: CommandKind::Keepalive,
        secret: Some(b"api_secret4321".to_vec()),
        plugin: None,
        transaction: b"N7vgphoNxsNv".to_vec(),
        session_id: Some(2147901755134278),
        handle_id: None,
        body: None,
    };
    let frame = encode(&cmd);
    assert_eq!(
        frame,
        b"{\"janus\":\"keepalive\",\"apisecret\":\"api_secret4321\",\"transaction\":\"N7vgphoNxsNv\",\"session_id\":2147901755134278}"
            .to_vec()
    );
}

#[test]
fn encode_message_with_body() {
    let cmd = Command {
        kind: CommandKind::Message,
        secret: None,
        plugin: None,
        transaction: b"T9".to_vec(),
        session_id: Some(7),
        handle_id: Some(8),
        body: Some(vec![
            BodyField { key: b"request".to_vec(), val: BodyVal::Text(b"create".to_vec()) },
            BodyField { key: b"room".to_vec(), val: BodyVal::Num(5555) },
        ]),
    };
    let frame = encode(&cmd);
    assert_eq!(
        frame,
        b"{\"janus\":\"message\",\"transaction\":\"T9\",\"session_id\":7,\"handle_id\":8,\"body\":{\"request\":\"create\",\"room\":5555}}"
            .to_vec()
    );
}

#[test]
fn roundtrip_create_recovers_fields() {
    let cmd = create_cmd(Some(b"s3cr3t"), b"T1");
    let frame = encode(&cmd);
    match decode(&frame) {
        Ok(InboundMessage::Event { janus, transaction, session_id, handle_id, .. }) => {
            assert_eq!(janus, b"create".to_vec());
            assert_eq!(transaction, Some(b"T1".to_vec()));
            assert_eq!(session_id, None);
            assert_eq!(handle_id, None);
        }
        other => panic!("expected an event, got {:?}", is_kind(&other)),
    }
}

#[test]
fn roundtrip_message_recovers_ids_and_body() {
    let cmd = Command {
        kind: CommandKind::Message,
        secret: None,
        plugin: None,
        transaction: b"T2".to_vec(),
        session_id: Some(11),
        handle_id: Some(22),
        body: Some(vec![
            BodyField { key: b"request".to_vec(), val: BodyVal::Text(b"kick".to_vec()) },
            BodyField { key: b"id".to_vec(), val: BodyVal::Num(99) },
        ]),
    };
    let frame = encode(&cmd);
    match decode(&frame) {
        Ok(InboundMessage::Event { janus, transaction, session_id, handle_id, payload, .. }) => {
            assert_eq!(janus, b"message".to_vec());
            assert_eq!(transaction, Some(b"T2".to_vec()));
            assert_eq!(session_id, Some(11));
            assert_eq!(handle_id, Some(22));
            assert_eq!(payload, Some(b"{\"request\":\"kick\",\"id\":99}".to_vec()));
        }
        other => panic!("expected an event, got {:?}", is_kind(&other)),
    }
}

fn is_kind(r: &Result<InboundMessage, DecodeError>) -> &'static str {
    match r {
        Ok(InboundMessage::Success { .. }) => "success",
        Ok(InboundMessage::GatewayError { .. }) => "error",
        Ok(InboundMessage::Ack { .. }) => "ack",
        Ok(InboundMessage::Event { .. }) => "event",
        Err(_) => "malformed",
    }
}

#[test]
fn decode_success_with_data_id() {
    let frame =
        b"{    \"janus\": \"success\",    \"transaction\": \"Qs6uJ7jODoJR\",    \"data\": {       \"id\": 2147901755134278    } }"
            .to_vec();
    match decode(&frame) {
        Ok(InboundMessage::Success { transaction, data_id, .. }) => {
            assert_eq!(transaction, b"Qs6uJ7jODoJR".to_vec());
            assert_eq!(data_id, Some(2147901755134278));
        }
        other => panic!("expected success, got {:?}", is_kind(&other)),
    }
}

#[test]
fn decode_error_envelope() {
    let frame =
        b"{ \"janus\": \"error\", \"transaction\": \"Qs6uJ7jODoJR\", \"error\": { \"code\": 403, \"reason\": \"Unauthorized request (wrong or missing secret/token)\" } }"
            .to_vec();
    match decode(&frame) {
        Ok(InboundMessage::GatewayError { transaction, code, reason }) => {
            assert_eq!(transaction, b"Qs6uJ7jODoJR".to_vec());
            assert_eq!(code, 403);
            assert_eq!(
                reason,
                b"Unauthorized request (wrong or missing secret/token)".to_vec()
            );
        }
        other => panic!("expected a gateway error, got {:?}", is_kind(&other)),
    }
}

#[test]
fn decode_ack_envelope() {
    let frame = b"{ \"janus\": \"ack\", \"session_id\": 7, \"transaction\": \"N7\" }".to_vec();
    match decode(&frame) {
        Ok(InboundMessage::Ack { transaction, session_id }) => {
            assert_eq!(transaction, b"N7".to_vec());
            assert_eq!(session_id, Some(7));
        }
        other => panic!("expected an ack, got {:?}", is_kind(&other)),
    }
}

#[test]
fn decode_event_with_nested_arrays() {
    let frame =
        b"{ \"janus\": \"event\", \"session_id\": 4875230564143493, \"sender\": 6705816660265647, \"plugindata\": { \"plugin\": \"janus.plugin.videoroom\", \"data\": { \"videoroom\": \"event\", \"room\": 1234, \"publishers\": [ { \"id\": 6450855227982898, \"display\": \"aluno/3\", \"talking\": false } ] } } }"
            .to_vec();
    match decode(&frame) {
        Ok(InboundMessage::Event { transaction, session_id, sender, payload, .. }) => {
            assert_eq!(transaction, None);
            assert_eq!(session_id, Some(4875230564143493));
            assert_eq!(sender, Some(6705816660265647));
            assert!(payload.is_some());
        }
        other => panic!("expected an event, got {:?}", is_kind(&other)),
    }
}

#[test]
fn decode_malformed_json_is_rejected() {
    assert!(matches!(decode(&b"{\"janus\":".to_vec()), Err(DecodeError::Malformed)));
    assert!(matches!(decode(&b"not json".to_vec()), Err(DecodeError::Malformed)));
    assert!(matches!(decode(&b"".to_vec()), Err(DecodeError::Malformed)));
}

#[test]
fn decode_unknown_status_is_rejected() {
    let frame = b"{\"janus\":\"banana\",\"transaction\":\"T\"}".to_vec();
    assert!(matches!(decode(&frame), Err(DecodeError::Malformed)));
}

#[test]
fn decode_missing_status_is_rejected() {
    let frame = b"{\"transaction\":\"T\"}".to_vec();
    assert!(matches!(decode(&frame), Err(DecodeError::Malformed)));
}

#[test]
fn decode_success_without_transaction_is_event() {
    let frame = b"{\"janus\":\"success\"}".to_vec();
    assert!(matches!(decode(&frame), Ok(InboundMessage::Event { .. })));
}
