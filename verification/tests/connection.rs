use mezon_store::connection::connection_watch_step;
use mezon_store::connection::{
    apply_session_refresh, backoff_delay_ms, parse_u16, promote_connecting_to_authenticated,
    resolve_initial_auth_state, resolve_tcp_port, AfterConnect, AuthState, ConnectOutcome,
    ConnectionManager, ManagerAction, SessionEndpoint,
};

fn session(host: Option<&str>) -> SessionEndpoint {
    SessionEndpoint {
        user_id: "42".into(),
        tcp_host: host.map(|h| h.to_string()),
        ..SessionEndpoint::default()
    }
}

#[test]
fn tcp_port_prefers_session_then_env_then_host() {
    let mut s = session(Some("sock.mezon.ai"));
    assert_eq!(resolve_tcp_port(&s, Some("9000")), 9000);
    assert_eq!(resolve_tcp_port(&s, Some("oops")), 4433);
    assert_eq!(resolve_tcp_port(&s, None), 4433);
    s.ws_port = Some(8443);
    assert_eq!(resolve_tcp_port(&s, Some("9000")), 8443);
    s.tcp_port = Some(1234);
    assert_eq!(resolve_tcp_port(&s, None), 1234);
    let dev = session(Some("dev-mezon.nccsoft.vn"));
    assert_eq!(resolve_tcp_port(&dev, None), 7349);
    let ws_dev = SessionEndpoint {
        ws_host: Some("chat.nccsoft.vn".into()),
        ..SessionEndpoint::default()
    };
    assert_eq!(resolve_tcp_port(&ws_dev, Some("-1")), 7349);
}

#[test]
fn u16_parsing_matches_from_str() {
    assert_eq!(parse_u16("+80"), Some(80));
    assert_eq!(parse_u16("65535"), Some(65535));
    assert_eq!(parse_u16("65536"), None);
    assert_eq!(parse_u16("-0"), None);
    assert_eq!(parse_u16(""), None);
}

#[test]
fn manager_connects_then_parks_and_closes_on_sign_out() {
    let mut m = ConnectionManager::new();
    assert_eq!(m.next_action(None, false, None), ManagerAction::Park);
    let s = session(Some("sock.mezon.ai"));
    assert_eq!(
        m.next_action(Some(&s), true, None),
        ManagerAction::Connect {
            host: Some("sock.mezon.ai".into()),
            port: 4433,
            close_stale: true,
        }
    );
    assert_eq!(m.on_connect_result("42", ConnectOutcome::Confirmed), AfterConnect::Connected);
    assert_eq!(m.next_action(Some(&s), true, None), ManagerAction::Park);
    assert_eq!(m.next_action(None, true, None), ManagerAction::CloseThenPark);
    assert_eq!(m.next_action(None, false, None), ManagerAction::Park);
}

#[test]
fn manager_backs_off_exponentially_up_to_a_minute() {
    let mut m = ConnectionManager::new();
    let mut waits = Vec::new();
    for _ in 0..7 {
        match m.on_connect_result("42", ConnectOutcome::Failed) {
            AfterConnect::Retry { backoff_secs, close_first } => {
                assert!(!close_first);
                waits.push(backoff_secs);
            }
            AfterConnect::Connected => panic!("failed attempt reported connected"),
        }
    }
    assert_eq!(waits, vec![2, 4, 8, 16, 32, 60, 60]);
    assert_eq!(
        m.on_connect_result("42", ConnectOutcome::NotConfirmed),
        AfterConnect::Retry {
            close_first: true,
            backoff_secs: 60,
        }
    );
    m.on_connect_result("42", ConnectOutcome::Confirmed);
    assert_eq!(m.backoff_secs(), 1);
}

#[test]
fn backoff_delay_adds_bounded_jitter() {
    assert_eq!(backoff_delay_ms(2, 0), 2000);
    assert_eq!(backoff_delay_ms(2, 499), 2499);
    assert_eq!(backoff_delay_ms(2, 500), 2000);
    assert_eq!(backoff_delay_ms(0, 7), 0);
}

#[test]
fn session_refresh_replaces_id_only_when_signed_in() {
    let mut sid = Some("old".to_string());
    assert_eq!(apply_session_refresh(5, &mut sid, "new"), (6, true));
    assert_eq!(sid.as_deref(), Some("new"));
    assert_eq!(apply_session_refresh(u64::MAX, &mut sid, ""), (0, false));
    let mut none: Option<String> = None;
    assert_eq!(apply_session_refresh(1, &mut none, "x"), (2, false));
    assert!(none.is_none());
}

#[test]
fn connection_watch_refreshes_on_reconnect_only() {
    assert_eq!(connection_watch_step(false, true), (true, true));
    assert_eq!(connection_watch_step(true, true), (false, true));
    assert_eq!(connection_watch_step(true, false), (false, false));
    assert_eq!(connection_watch_step(false, false), (false, false));
}

#[test]
fn backoff_after_k_failures_is_two_to_the_k_capped_at_sixty() {
    let mut m = ConnectionManager::new();
    let expected = [2u64, 4, 8, 16, 32, 60, 60, 60];
    for (i, want) in expected.iter().enumerate() {
        let outcome = if i % 2 == 0 { ConnectOutcome::Failed } else { ConnectOutcome::NotConfirmed };
        m.on_connect_result("u1", outcome);
        assert_eq!(m.backoff_secs(), *want);
        let delay = backoff_delay_ms(m.backoff_secs(), 999_999_999);
        assert!(delay >= want * 1000 && delay < want * 1250);
    }
    m.on_connect_result("u1", ConnectOutcome::Confirmed);
    assert_eq!(m.backoff_secs(), 1);
}

#[test]
fn stored_session_starts_connecting_and_any_outcome_promotes_it() {
    assert_eq!(resolve_initial_auth_state(None), AuthState::NotAuthenticated);
    let mut state = resolve_initial_auth_state(Some(session(Some("h"))));
    assert_eq!(state, AuthState::Connecting(session(Some("h"))));
    assert!(promote_connecting_to_authenticated(&mut state));
    assert_eq!(state, AuthState::Authenticated(session(Some("h"))));
    assert!(!promote_connecting_to_authenticated(&mut state));
    assert_eq!(state, AuthState::Authenticated(session(Some("h"))));
    let mut out = AuthState::NotAuthenticated;
    assert!(!promote_connecting_to_authenticated(&mut out));
    assert_eq!(out, AuthState::NotAuthenticated);
}
