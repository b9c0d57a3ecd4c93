use std::collections::HashMap;

use nodelite::ws::{
    after_shared_update, gate_session_step, tick_step, RefreshOrigin, SessionAction, TickAction,
    auth_rejection_notice, parse_wire_message, prune_outstanding_pings, recv_hello_step,
    session_step, should_refresh_token, Frame, HelloEvent, HelloStep, ParsedFrame, ProtocolError,
    SessionEvent, SessionStep, WireKind, WsSession, MAX_OUTSTANDING_PINGS,
    TOKEN_REFRESH_WINDOW_NANOS,
};

fn client_message(e: ProtocolError) -> String {
    match e {
        ProtocolError::Client(m) => m,
        ProtocolError::Server(m) => panic!("expected a client error, got server error {m}"),
    }
}

#[test]
fn frames_are_sorted() {
    assert!(matches!(parse_wire_message(Frame::Text(Ok(WireKind::Metrics))), Ok(ParsedFrame::Wire(WireKind::Metrics))));
    assert!(matches!(parse_wire_message(Frame::Close), Ok(ParsedFrame::Close)));
    assert!(matches!(parse_wire_message(Frame::Ping), Ok(ParsedFrame::Control)));
    assert!(matches!(parse_wire_message(Frame::Pong), Ok(ParsedFrame::Control)));
    assert_eq!(
        client_message(parse_wire_message(Frame::Binary).unwrap_err()),
        "binary websocket messages are not supported"
    );
    assert_eq!(
        client_message(parse_wire_message(Frame::Text(Err("EOF while parsing".to_string()))).unwrap_err()),
        "invalid websocket json: EOF while parsing"
    );
}

#[test]
fn hello_wait_steps() {
    assert!(matches!(recv_hello_step(HelloEvent::Frame(Frame::Ping)), HelloStep::Continue));
    assert!(matches!(recv_hello_step(HelloEvent::Frame(Frame::Text(Ok(WireKind::Hello)))), HelloStep::Hello));
    match recv_hello_step(HelloEvent::Frame(Frame::Text(Ok(WireKind::Metrics)))) {
        HelloStep::Fail(e) => assert_eq!(client_message(e), "first websocket message must be hello"),
        _ => panic!("metrics before hello must fail"),
    }
    match recv_hello_step(HelloEvent::Closed) {
        HelloStep::Fail(e) => assert_eq!(client_message(e), "connection closed before hello message"),
        _ => panic!("closed connection must fail"),
    }
    match recv_hello_step(HelloEvent::Frame(Frame::Close)) {
        HelloStep::Fail(e) => assert_eq!(client_message(e), "connection closed before hello message"),
        _ => panic!("close frame must fail"),
    }
    match recv_hello_step(HelloEvent::ReceiveFailed("reset".to_string())) {
        HelloStep::Fail(ProtocolError::Server(m)) => assert_eq!(m, "failed to receive hello: reset"),
        _ => panic!("receive error is a server error"),
    }
}

#[test]
fn session_steps_for_each_message() {
    let step = |event| session_step("hk-01", event);
    assert!(matches!(step(SessionEvent::Ended), SessionStep::Close));
    assert!(matches!(step(SessionEvent::Frame(Frame::Close)), SessionStep::Close));
    assert!(matches!(step(SessionEvent::Frame(Frame::Pong)), SessionStep::Continue));
    assert!(matches!(step(SessionEvent::Frame(Frame::Text(Ok(WireKind::Metrics)))), SessionStep::Metrics));
    assert!(matches!(step(SessionEvent::Frame(Frame::Text(Ok(WireKind::Pong(7))))), SessionStep::Pong(7)));
    for (kind, message) in [
        (WireKind::Hello, "duplicate hello message"),
        (WireKind::Ping, "agent must not send ping messages"),
        (WireKind::ServerNotice, "agent must not send server_notice messages"),
        (WireKind::RefreshTokenResponse, "agent must not send refresh_token_response messages"),
    ] {
        match step(SessionEvent::Frame(Frame::Text(Ok(kind)))) {
            SessionStep::Fail(e) => assert_eq!(client_message(e), message),
            _ => panic!("{message} must end the session"),
        }
    }
    match step(SessionEvent::ReceiveFailed("io".to_string())) {
        SessionStep::Fail(ProtocolError::Server(m)) => assert_eq!(m, "websocket receive failed: io"),
        _ => panic!("receive error is a server error"),
    }
}

#[test]
fn refresh_request_for_another_node_is_served_for_this_one() {
    match session_step("hk-01", SessionEvent::Frame(Frame::Text(Ok(WireKind::RefreshTokenRequest("hk-01".to_string()))))) {
        SessionStep::RefreshToken { foreign_node_id } => assert!(!foreign_node_id),
        _ => panic!("refresh expected"),
    }
    match session_step("hk-01", SessionEvent::Frame(Frame::Text(Ok(WireKind::RefreshTokenRequest("sg-01".to_string()))))) {
        SessionStep::RefreshToken { foreign_node_id } => assert!(foreign_node_id),
        _ => panic!("refresh expected"),
    }
}

#[test]
fn rejection_notice_tells_expired_tokens_apart() {
    let (notice, label) = auth_rejection_notice("node hk-01: token expired at 2024-01-01");
    assert_eq!(label, "token expired");
    assert_eq!(
        notice,
        "token expired; run `ximonitor-server install-agent --rotate-token` and reinstall this node"
    );
    let (notice, label) = auth_rejection_notice("wrong token");
    assert_eq!((notice.as_str(), label.as_str()), ("unauthorized", "unauthorized"));
}

#[test]
fn token_refresh_window_is_seven_days() {
    let now: i128 = 1_700_000_000 * 1_000_000_000;
    assert!(should_refresh_token(None, now));
    assert!(should_refresh_token(Some(now + TOKEN_REFRESH_WINDOW_NANOS), now));
    assert!(!should_refresh_token(Some(now + TOKEN_REFRESH_WINDOW_NANOS + 1), now));
    assert!(should_refresh_token(Some(now - 1), now));
    assert_eq!(TOKEN_REFRESH_WINDOW_NANOS, 7 * 24 * 3600 * 1_000_000_000);
}

#[test]
fn pings_get_fresh_nonces_and_pongs_report_latency() {
    let mut session = WsSession::new("tok".to_string());
    assert_eq!(session.session_token(), "tok");
    let sec = 1_000_000_000u64;
    assert_eq!(session.on_ping_tick(0, 30 * sec), 1);
    assert_eq!(session.on_ping_tick(10 * sec, 30 * sec), 2);
    assert_eq!(session.outstanding_ping_count(), 2);
    assert_eq!(session.on_pong(2, 10 * sec + 25_900_000), Some(25));
    assert_eq!(session.on_pong(2, 11 * sec), None);
    assert_eq!(session.on_pong(99, 11 * sec), None);
    assert_eq!(session.outstanding_ping_count(), 1);
    assert!(session
        .finish_token_refresh(RefreshOrigin::Tick, "new".to_string(), Ok(()))
        .is_ok());
    assert_eq!(session.session_token(), "new");
}

#[test]
fn expired_pings_are_pruned_on_tick() {
    let mut session = WsSession::new("tok".to_string());
    let sec = 1_000_000_000u64;
    session.on_ping_tick(0, 30 * sec);
    session.on_ping_tick(10 * sec, 30 * sec);
    // At 30 s the first ping has waited 30 s, which is not less than 30 s.
    assert_eq!(session.on_ping_tick(30 * sec, 30 * sec), 3);
    assert_eq!(session.outstanding_ping_count(), 2);
    assert_eq!(session.on_pong(1, 31 * sec), None);
    assert_eq!(session.on_pong(2, 31 * sec), Some(21_000));
}

#[test]
fn ping_table_never_exceeds_its_cap() {
    let mut session = WsSession::new("tok".to_string());
    for i in 0..100u64 {
        session.on_ping_tick(i, u64::MAX);
        assert!(session.outstanding_ping_count() <= MAX_OUTSTANDING_PINGS);
    }
    assert_eq!(session.outstanding_ping_count(), MAX_OUTSTANDING_PINGS);
    // The oldest pings were dropped: nonce 1 is gone, the newest is there.
    assert_eq!(session.on_pong(1, 100), None);
    assert_eq!(session.on_pong(100, 100), Some(0));
}

#[test]
fn prune_drops_expired_then_oldest() {
    let mut pings: HashMap<u64, u64> = HashMap::new();
    for nonce in 0..40u64 {
        pings.insert(nonce, 1_000 + nonce);
    }
    prune_outstanding_pings(&mut pings, 1_040, 35);
    // Sent at 1000..=1005 have waited 35 or more; 34 remain, then the oldest goes.
    assert_eq!(pings.len(), 33);
    assert!(!pings.contains_key(&6));
    assert!(pings.contains_key(&7));

    let mut few: HashMap<u64, u64> = HashMap::new();
    few.insert(1, 10);
    few.insert(2, 20);
    prune_outstanding_pings(&mut few, 25, 10);
    assert_eq!(few.len(), 1);
    assert!(few.contains_key(&2));

    // A clock that reads earlier than a send time counts as no wait.
    let mut future: HashMap<u64, u64> = HashMap::new();
    future.insert(1, 500);
    prune_outstanding_pings(&mut future, 100, 1);
    assert_eq!(future.len(), 1);
}

#[test]
fn refreshed_token_is_adopted_only_after_a_successful_send() {
    let mut session = WsSession::new("old".to_string());
    match session.finish_token_refresh(RefreshOrigin::Tick, "new".to_string(), Err("broken pipe".to_string())) {
        Err(ProtocolError::Server(m)) => assert_eq!(m, "failed to send token refresh response: broken pipe"),
        _ => panic!("a failed send ends the session"),
    }
    assert_eq!(session.session_token(), "old");
    match session.finish_token_refresh(RefreshOrigin::Request, "new".to_string(), Err("closed".to_string())) {
        Err(ProtocolError::Server(m)) => assert_eq!(m, "failed to send refresh response: closed"),
        _ => panic!("a failed send ends the session"),
    }
    assert_eq!(session.session_token(), "old");
    assert!(session
        .finish_token_refresh(RefreshOrigin::Request, "newer".to_string(), Ok(()))
        .is_ok());
    assert_eq!(session.session_token(), "newer");
}

#[test]
fn metrics_and_pongs_need_a_current_token() {
    assert!(matches!(gate_session_step(SessionStep::Metrics, true), SessionAction::StoreMetrics));
    assert!(matches!(gate_session_step(SessionStep::Metrics, false), SessionAction::Close));
    assert!(matches!(gate_session_step(SessionStep::Pong(4), true), SessionAction::RecordPong(4)));
    assert!(matches!(gate_session_step(SessionStep::Pong(4), false), SessionAction::Close));
    assert!(matches!(gate_session_step(SessionStep::Continue, false), SessionAction::Continue));
    assert!(matches!(gate_session_step(SessionStep::Close, true), SessionAction::Close));
    assert!(matches!(
        gate_session_step(SessionStep::RefreshToken { foreign_node_id: true }, false),
        SessionAction::RefreshToken { foreign_node_id: true }
    ));
    match gate_session_step(SessionStep::Fail(ProtocolError::Client("x".to_string())), true) {
        SessionAction::Fail(e) => assert_eq!(client_message(e), "x"),
        _ => panic!("failures pass through"),
    }
}

#[test]
fn superseded_sessions_close() {
    assert!(matches!(after_shared_update(true), SessionAction::Continue));
    assert!(matches!(after_shared_update(false), SessionAction::Close));
    assert_eq!(tick_step(true, true), TickAction::Ping);
    assert_eq!(tick_step(false, true), TickAction::Close);
    assert_eq!(tick_step(true, false), TickAction::Close);
    assert_eq!(tick_step(false, false), TickAction::Close);
}
