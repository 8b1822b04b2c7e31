use gateway_engine::engine::BootStep;
use gateway_engine::engine::Config;
use gateway_engine::engine::ConnState;
use gateway_engine::engine::Engine;
use gateway_engine::engine::EngineError;
use gateway_engine::engine::Outcome;
use gateway_engine::engine::RouterOutput;
use gateway_engine::engine::_wsclient_connect;
use gateway_engine::engine::_wsclient_createroom;
use gateway_engine::engine::_wsclient_keepalive;
use gateway_engine::engine::_wsclient_kick;
use gateway_engine::engine::_wsclient_processevent;
use gateway_engine::engine::advance_bootstrap;
use gateway_engine::engine::backoff_delay;
use gateway_engine::engine::on_link_lost;
use gateway_engine::engine::on_link_opened;
use gateway_engine::engine::plugin_request;
use gateway_engine::engine::shutdown;
use gateway_engine::codec::BodyField;
use gateway_engine::codec::BodyVal;

fn config() -> Config {
    Config {
        secret: Some(b"api_secret4321".to_vec()),
        plugin: b"janus.plugin.videoroom".to_vec(),
        admin_key: Some(b"admin_key4321".to_vec()),
        room_secret: Some(b"adminpwd".to_vec()),
        keepalive_interval: 30_000,
        request_timeout: 10_000,
        backoff_min: 1_000,
        backoff_max: 30_000,
    }
}

/// Drives a fresh engine through connect and bootstrap up to `Connected`,
/// with session 42 and handle 77; its create and attach used tokens 0 and 1.
fn connected_engine() -> Engine {
    let mut e = Engine::new(config());
    assert!(_wsclient_connect(&mut e));
    assert_eq!(e.state, ConnState::Connecting);
    let (stale, create) = on_link_opened(&mut e, 0).expect("opening must start the bootstrap");
    assert!(stale.is_empty());
    assert_eq!(e.state, ConnState::Bootstrapping);
    assert_eq!(e.epoch, 1);
    assert_eq!(create.token, b"0".to_vec());

    let reply = b"{\"janus\":\"success\",\"transaction\":\"0\",\"data\":{\"id\":42}}".to_vec();
    let out = _wsclient_processevent(&mut e, &reply, );
    let (w, o) = match out {
        RouterOutput::Resolved { waiter, outcome } => (waiter, outcome),
        _ => panic!("the create reply must resolve its waiter"),
    };
    let attach = match advance_bootstrap(&mut e, &w, &o, 1) {
        BootStep::SendAttach(iss) => iss,
        _ => panic!("the create reply must issue the attach"),
    };
    assert_eq!(e.session, Some(42));
    assert_eq!(attach.token, b"1".to_vec());
    assert_eq!(
        attach.frame,
        b"{\"janus\":\"attach\",\"apisecret\":\"api_secret4321\",\"plugin\":\"janus.plugin.videoroom\",\"transaction\":\"1\",\"session_id\":42}"
            .to_vec()
    );

    let reply2 = b"{\"janus\":\"success\",\"session_id\":42,\"transaction\":\"1\",\"data\":{\"id\":77}}"
        .to_vec();
    let out2 = _wsclient_processevent(&mut e, &reply2);
    let (w2, o2) = match out2 {
        RouterOutput::Resolved { waiter, outcome } => (waiter, outcome),
        _ => panic!("the attach reply must resolve its waiter"),
    };
    match advance_bootstrap(&mut e, &w2, &o2, 2) {
        BootStep::Established => {}
        _ => panic!("the attach reply must open service"),
    }
    assert_eq!(e.state, ConnState::Connected);
    assert_eq!(e.handle, Some(77));
    e
}

#[test]
fn bootstrap_reaches_connected() {
    let e = connected_engine();
    assert_eq!(e.session, Some(42));
    assert_eq!(e.handle, Some(77));
    assert_eq!(e.attempts, 0);
}

#[test]
fn create_session_resolves_with_the_created_id() {
    // The caller issues create-session; the gateway replies with an id; the
    // engine's session becomes that id.
    let mut e = Engine::new(config());
    assert!(_wsclient_connect(&mut e));
    let (_, create) = on_link_opened(&mut e, 0).unwrap();
    assert_eq!(
        create.frame,
        b"{\"janus\":\"create\",\"apisecret\":\"api_secret4321\",\"transaction\":\"0\"}".to_vec()
    );
    let reply = b"{\"janus\":\"success\",\"transaction\":\"0\",\"data\":{\"id\":42}}".to_vec();
    let out = _wsclient_processevent(&mut e, &reply);
    match out {
        RouterOutput::Resolved { waiter, outcome } => {
            assert_eq!(waiter.token, b"0".to_vec());
            match &outcome {
                Outcome::Success { data_id, .. } => assert_eq!(*data_id, Some(42)),
                _ => panic!("the reply is a success"),
            }
            advance_bootstrap(&mut e, &waiter, &outcome, 1);
        }
        _ => panic!("the reply must resolve the create waiter"),
    }
    assert_eq!(e.session, Some(42));
}

#[test]
fn keepalive_carries_the_current_session() {
    let mut e = connected_engine();
    let iss = _wsclient_keepalive(&mut e, 5).expect("keepalive while connected must go out");
    assert_eq!(
        iss.frame,
        b"{\"janus\":\"keepalive\",\"apisecret\":\"api_secret4321\",\"transaction\":\"2\",\"session_id\":42}"
            .to_vec()
    );
    // Its reply is a bare ack.
    let ack = b"{\"janus\":\"ack\",\"session_id\":42,\"transaction\":\"2\"}".to_vec();
    match _wsclient_processevent(&mut e, &ack) {
        RouterOutput::Resolved { outcome: Outcome::Acked, .. } => {}
        _ => panic!("the ack must resolve the keepalive"),
    }
}

#[test]
fn keepalive_while_disconnected_is_refused() {
    let mut e = Engine::new(config());
    assert!(matches!(_wsclient_keepalive(&mut e, 0), Err(EngineError::NotConnected)));
}

#[test]
fn plugin_request_while_disconnected_is_refused() {
    let mut e = Engine::new(config());
    let body = vec![BodyField { key: b"request".to_vec(), val: BodyVal::Text(b"x".to_vec()) }];
    assert!(matches!(plugin_request(&mut e, body, 0), Err(EngineError::NotConnected)));
}

#[test]
fn pending_request_resolves_connection_lost_after_link_drop() {
    // The caller issues a request; the link drops before any reply; the
    // pending call is handed back so it fails with a connection-lost outcome
    // rather than hanging; the reconnect then opens a fresh epoch.
    let mut e = connected_engine();
    let body = vec![BodyField { key: b"request".to_vec(), val: BodyVal::Text(b"x".to_vec()) }];
    let iss = plugin_request(&mut e, body, 10).unwrap();
    let (stale, delay) = on_link_lost(&mut e).expect("a live link was lost");
    assert_eq!(stale.len(), 1);
    assert_eq!(stale[0].token, iss.token);
    assert_eq!(e.state, ConnState::Disconnected);
    assert_eq!(delay, 1_000);
    // A late reply for the dropped request is now stale.
    assert!(_wsclient_connect(&mut e));
    let (invalidated, _) = on_link_opened(&mut e, 20).unwrap();
    assert!(invalidated.is_empty());
    assert_eq!(e.epoch, 2);
    let late = b"{\"janus\":\"success\",\"transaction\":\"2\",\"data\":{\"id\":1}}".to_vec();
    assert!(matches!(_wsclient_processevent(&mut e, &late), RouterOutput::Stale));
}

#[test]
fn event_without_transaction_goes_to_the_sink() {
    let mut e = connected_engine();
    let pending = e.registry.len();
    let frame =
        b"{\"janus\":\"event\",\"session_id\":42,\"sender\":77,\"plugindata\":{\"data\":{\"room\":1234}}}"
            .to_vec();
    match _wsclient_processevent(&mut e, &frame) {
        RouterOutput::EventOut { payload, session_id, sender } => {
            assert_eq!(session_id, Some(42));
            assert_eq!(sender, Some(77));
            assert_eq!(payload, Some(b"{\"data\":{\"room\":1234}}".to_vec()));
        }
        _ => panic!("an event must go to the sink"),
    }
    // No waiter was touched.
    assert_eq!(e.registry.len(), pending);
}

#[test]
fn out_of_order_replies_reach_their_own_callers() {
    // Two concurrent callers, distinct tokens; the gateway replies in
    // reverse order; each caller still receives its own result.
    let mut e = connected_engine();
    let body_a = vec![BodyField { key: b"a".to_vec(), val: BodyVal::Num(1) }];
    let body_b = vec![BodyField { key: b"b".to_vec(), val: BodyVal::Num(2) }];
    let ia = plugin_request(&mut e, body_a, 10).unwrap();
    let ib = plugin_request(&mut e, body_b, 10).unwrap();
    assert_ne!(ia.token, ib.token);

    let reply_b =
        b"{\"janus\":\"success\",\"transaction\":\"3\",\"sender\":77,\"plugindata\":{\"data\":{\"which\":2}}}"
            .to_vec();
    let reply_a =
        b"{\"janus\":\"success\",\"transaction\":\"2\",\"sender\":77,\"plugindata\":{\"data\":{\"which\":1}}}"
            .to_vec();
    match _wsclient_processevent(&mut e, &reply_b) {
        RouterOutput::Resolved { waiter, outcome } => {
            assert_eq!(waiter.token, ib.token);
            match outcome {
                Outcome::Success { payload, .. } => {
                    assert_eq!(payload, Some(b"{\"data\":{\"which\":2}}".to_vec()));
                }
                _ => panic!("a success reply"),
            }
        }
        _ => panic!("the first reply resolves the second caller"),
    }
    match _wsclient_processevent(&mut e, &reply_a) {
        RouterOutput::Resolved { waiter, outcome } => {
            assert_eq!(waiter.token, ia.token);
            match outcome {
                Outcome::Success { payload, .. } => {
                    assert_eq!(payload, Some(b"{\"data\":{\"which\":1}}".to_vec()));
                }
                _ => panic!("a success reply"),
            }
        }
        _ => panic!("the second reply resolves the first caller"),
    }
}

#[test]
fn createroom_and_kick_build_their_bodies() {
    let mut e = connected_engine();
    let room = _wsclient_createroom(&mut e, 5555, 10).unwrap();
    assert_eq!(
        room.frame,
        b"{\"janus\":\"message\",\"apisecret\":\"api_secret4321\",\"transaction\":\"2\",\"session_id\":42,\"handle_id\":77,\"body\":{\"request\":\"create\",\"room\":5555,\"admin_key\":\"admin_key4321\"}}"
            .to_vec()
    );
    let kick = _wsclient_kick(&mut e, 5555, 7295162779679030, 10).unwrap();
    assert_eq!(
        kick.frame,
        b"{\"janus\":\"message\",\"apisecret\":\"api_secret4321\",\"transaction\":\"3\",\"session_id\":42,\"handle_id\":77,\"body\":{\"request\":\"kick\",\"room\":5555,\"secret\":\"adminpwd\",\"id\":7295162779679030}}"
            .to_vec()
    );
}

#[test]
fn bootstrap_error_reply_gives_the_link_up() {
    let mut e = Engine::new(config());
    assert!(_wsclient_connect(&mut e));
    on_link_opened(&mut e, 0).unwrap();
    let reply =
        b"{\"janus\":\"error\",\"transaction\":\"0\",\"error\":{\"code\":403,\"reason\":\"Unauthorized\"}}"
            .to_vec();
    let (w, o) = match _wsclient_processevent(&mut e, &reply) {
        RouterOutput::Resolved { waiter, outcome } => (waiter, outcome),
        _ => panic!("the error reply resolves the create waiter"),
    };
    match &o {
        Outcome::Failed(EngineError::GatewayError { code, reason }) => {
            assert_eq!(*code, 403);
            assert_eq!(reason, &b"Unauthorized".to_vec());
        }
        _ => panic!("the outcome carries the gateway error"),
    }
    match advance_bootstrap(&mut e, &w, &o, 1) {
        BootStep::Failed { retry_in, .. } => assert_eq!(retry_in, 1_000),
        _ => panic!("a failed bootstrap gives the link up"),
    }
    assert_eq!(e.state, ConnState::Disconnected);
    assert_eq!(e.attempts, 1);
}

#[test]
fn malformed_frame_is_dropped_and_loop_continues() {
    let mut e = connected_engine();
    assert!(matches!(
        _wsclient_processevent(&mut e, &b"{\"janus\":\"nope\"}".to_vec()),
        RouterOutput::Malformed
    ));
    // The engine still serves traffic.
    assert!(_wsclient_keepalive(&mut e, 5).is_ok());
}

#[test]
fn backoff_doubles_and_caps() {
    assert_eq!(backoff_delay(0, 1_000, 30_000), 1_000);
    assert_eq!(backoff_delay(1, 1_000, 30_000), 1_000);
    assert_eq!(backoff_delay(2, 1_000, 30_000), 2_000);
    assert_eq!(backoff_delay(3, 1_000, 30_000), 4_000);
    assert_eq!(backoff_delay(6, 1_000, 30_000), 32_000.min(30_000));
    assert_eq!(backoff_delay(60, 1_000, 30_000), 30_000);
    // The floor is one second even when configured lower.
    assert_eq!(backoff_delay(1, 10, 30_000), 1_000);
}

#[test]
fn shutdown_drains_every_waiter() {
    let mut e = connected_engine();
    let body = vec![BodyField { key: b"x".to_vec(), val: BodyVal::Num(1) }];
    let iss = plugin_request(&mut e, body, 10).unwrap();
    let stale = shutdown(&mut e);
    assert_eq!(e.state, ConnState::Stopped);
    assert_eq!(stale.len(), 1);
    assert_eq!(stale[0].token, iss.token);
    assert!(matches!(_wsclient_keepalive(&mut e, 11), Err(EngineError::NotConnected)));
}
