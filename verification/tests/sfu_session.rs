use mezon_store::sfu_session::{
    parse_ice_servers, parse_sfu_frame, peer_ice_servers, session_step, IceServer, PeerState, SessionAction,
    SessionInput, SessionState, SfuFrame,
};

fn fresh() -> SessionState {
    SessionState { live: false, has_peer: false }
}

fn text(s: &str) -> SessionInput {
    SessionInput::Text(s.to_string())
}

fn fail_message(a: &SessionAction) -> &str {
    match a {
        SessionAction::Fail(m) => m.as_str(),
        _ => panic!("expected a failure, got {:?}", a),
    }
}

#[test]
fn ice_servers_keep_entries_with_urls() {
    let v = parse_ice_servers(
        r#"[{"urls":"stun:a"},{"urls":["turn:b",3,"turn:c"],"username":"u","credential":"p"},{"urls":[]},{"username":"x"}]"#,
    );
    assert_eq!(v.len(), 2);
    assert_eq!(v[0].urls, vec!["stun:a".to_string()]);
    assert_eq!(v[0].username, "");
    assert_eq!(v[1].urls, vec!["turn:b".to_string(), "turn:c".to_string()]);
    assert_eq!(v[1].username, "u");
    assert_eq!(v[1].password, "p");
    assert!(parse_ice_servers(r#"{"urls":"stun:a"}"#).is_empty());
}

#[test]
fn peer_falls_back_to_public_stun() {
    let v = peer_ice_servers(Vec::new());
    assert_eq!(v.len(), 1);
    assert_eq!(v[0].urls, vec!["stun:stun.l.google.com:19302".to_string()]);
    let listed = vec![IceServer { urls: vec!["stun:x".into()], username: String::new(), password: String::new() }];
    assert_eq!(peer_ice_servers(listed.clone()), listed);
}

#[test]
fn frames_are_read_by_type() {
    assert_eq!(parse_sfu_frame("not json"), None);
    assert_eq!(parse_sfu_frame(r#"{"type":"ping"}"#), Some(SfuFrame::Ping));
    assert_eq!(parse_sfu_frame(r#"{"type":"pong"}"#), Some(SfuFrame::Pong));
    assert_eq!(parse_sfu_frame(r#"{"kind":"ping"}"#), Some(SfuFrame::Other));
    assert_eq!(
        parse_sfu_frame(r#"{"type":"offer","offer_generation":7,"sdp":"v=0"}"#),
        Some(SfuFrame::Offer { generation: Some(7), sdp: Some("v=0".into()) })
    );
    assert_eq!(
        parse_sfu_frame(r#"{"type":"offer","offer_generation":-1}"#),
        Some(SfuFrame::Offer { generation: None, sdp: None })
    );
    assert_eq!(parse_sfu_frame(r#"{"type":"error"}"#), Some(SfuFrame::Error { reason: None }));
    match parse_sfu_frame(r#"{"type":"joined","iceServers":[{"urls":"stun:a"}]}"#) {
        Some(SfuFrame::Joined { ice_servers }) => assert_eq!(ice_servers[0].urls, vec!["stun:a".to_string()]),
        other => panic!("unexpected {:?}", other),
    }
}

#[test]
fn session_answers_pings_and_creates_the_peer_once() {
    let st = fresh();
    assert_eq!(session_step(st, text(r#"{"type":"ping"}"#)), (st, SessionAction::SendPong));
    assert_eq!(session_step(st, text(r#"{"type":"pong"}"#)), (st, SessionAction::Nothing));
    assert_eq!(session_step(st, SessionInput::Ping), (st, SessionAction::ReplyPing));
    assert_eq!(session_step(st, SessionInput::OtherFrame), (st, SessionAction::Nothing));
    let (st2, a) = session_step(st, text(r#"{"type":"joined"}"#));
    assert!(st2.has_peer);
    match a {
        SessionAction::CreatePeer { ice_servers } => {
            assert_eq!(ice_servers[0].urls, vec!["stun:stun.l.google.com:19302".to_string()])
        }
        other => panic!("unexpected {:?}", other),
    }
    assert_eq!(session_step(st2, text(r#"{"type":"joined"}"#)), (st2, SessionAction::Nothing));
}

#[test]
fn offers_need_generation_sdp_and_peer() {
    let st = fresh();
    let peer = SessionState { live: false, has_peer: true };
    let (_, a) = session_step(peer, text(r#"{"type":"offer","sdp":"v=0"}"#));
    assert_eq!(fail_message(&a), "SFU offer is missing offer_generation");
    let (_, a) = session_step(peer, text(r#"{"type":"offer","offer_generation":3}"#));
    assert_eq!(fail_message(&a), "SFU offer is missing sdp");
    let (_, a) = session_step(st, text(r#"{"type":"offer","offer_generation":3,"sdp":"v=0"}"#));
    assert_eq!(fail_message(&a), "SFU offer arrived before joined");
    assert_eq!(
        session_step(peer, text(r#"{"type":"offer","offer_generation":3,"sdp":"v=0"}"#)),
        (peer, SessionAction::Negotiate { generation: 3, sdp: "v=0".into() })
    );
}

#[test]
fn errors_and_closes_end_the_session() {
    let st = fresh();
    let (_, a) = session_step(st, text(r#"{"type":"error","message":"room full"}"#));
    assert_eq!(fail_message(&a), "SFU error: room full");
    let (_, a) = session_step(st, text(r#"{"type":"error"}"#));
    assert_eq!(fail_message(&a), "SFU error: SFU error");
    let (_, a) = session_step(st, text("{oops"));
    assert_eq!(fail_message(&a), "invalid SFU JSON");
    let (_, a) = session_step(st, SessionInput::Close);
    assert_eq!(fail_message(&a), "SFU closed stream session");
    let (_, a) = session_step(st, SessionInput::Ended);
    assert_eq!(fail_message(&a), "SFU websocket closed");
    let (_, a) = session_step(st, SessionInput::Peer(PeerState::Failed));
    assert_eq!(fail_message(&a), "SFU peer connection failed");
    let (_, a) = session_step(st, SessionInput::Peer(PeerState::Closed));
    assert_eq!(fail_message(&a), "SFU peer connection closed");
}

#[test]
fn peer_connected_reports_live_once() {
    let st = SessionState { live: false, has_peer: true };
    let (st2, a) = session_step(st, SessionInput::Peer(PeerState::Connected));
    assert!(st2.live);
    assert_eq!(a, SessionAction::Connected { emit_live: true });
    let (st3, a) = session_step(st2, SessionInput::Peer(PeerState::Connected));
    assert_eq!(st3, st2);
    assert_eq!(a, SessionAction::Connected { emit_live: false });
    assert_eq!(session_step(st2, SessionInput::Peer(PeerState::Disconnected)), (st2, SessionAction::Nothing));
}
