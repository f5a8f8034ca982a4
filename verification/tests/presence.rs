use mezon_store::presence::{PresenceEvent, PresenceState, PresenceUpdate};

fn empty_store() -> PresenceState {
    PresenceState::new()
}

#[test]
fn typing_start_adds_user_by_display_name() {
    let mut store = empty_store();
    store.apply_typing("ch1", "Alice", "alice_user", "uid1", 0);
    assert!(store.is_typing("ch1", "Alice"));
}

#[test]
fn typing_start_falls_back_to_username_when_no_display_name() {
    let mut store = empty_store();
    store.apply_typing("ch1", "", "alice_user", "uid1", 0);
    assert!(store.is_typing("ch1", "alice_user"));
}

#[test]
fn typing_start_falls_back_to_sender_id_when_no_name() {
    let mut store = empty_store();
    store.apply_typing("ch1", "", "", "uid1", 0);
    assert!(store.is_typing("ch1", "uid1"));
}

#[test]
fn typing_stop_removes_user_and_cleans_empty_channel() {
    let mut store = empty_store();
    store.apply_typing("ch1", "Alice", "", "", 0);
    store.apply_typing("ch1", "Alice", "", "", 1);
    assert!(!store.has_typing("ch1"));
}

#[test]
fn typing_stop_leaves_other_users_in_channel() {
    let mut store = empty_store();
    store.apply_typing("ch1", "Alice", "", "", 0);
    store.apply_typing("ch1", "Bob", "", "", 0);
    store.apply_typing("ch1", "Alice", "", "", 1);
    assert!(!store.is_typing("ch1", "Alice"));
    assert!(store.is_typing("ch1", "Bob"));
}

#[test]
fn channel_presence_join_adds_to_channel_and_global() {
    let mut store = empty_store();
    store.apply_channel_presence("ch1", &["u1".into(), "u2".into()], &[]);
    assert!(store.is_in_channel("ch1", "u1"));
    assert!(store.is_online("u1"));
    assert!(store.is_online("u2"));
}

#[test]
fn channel_presence_leave_removes_from_channel_and_global() {
    let mut store = empty_store();
    store.apply_channel_presence("ch1", &["u1".into()], &[]);
    store.apply_channel_presence("ch1", &[], &["u1".into()]);
    assert!(!store.has_channel_presence("ch1"));
    assert!(!store.is_online("u1"));
}

#[test]
fn channel_presence_empty_channel_cleaned_up() {
    let mut store = empty_store();
    store.apply_channel_presence("ch1", &["u1".into()], &[]);
    store.apply_channel_presence("ch1", &[], &["u1".into()]);
    assert!(!store.has_channel_presence("ch1"));
}

#[test]
fn status_presence_join_adds_to_user_online() {
    let mut store = empty_store();
    store.apply_status_presence(&["u1".into(), "u2".into()], &[]);
    assert!(store.is_online("u1"));
    assert!(store.is_online("u2"));
}

#[test]
fn status_presence_leave_removes_from_user_online() {
    let mut store = empty_store();
    store.apply_status_presence(&["u1".into()], &[]);
    store.apply_status_presence(&[], &["u1".into()]);
    assert!(!store.is_online("u1"));
}

#[test]
fn typing_users_returns_vec_for_channel() {
    let mut store = empty_store();
    store.apply_typing("ch1", "Alice", "", "", 0);
    let users = store.typing_users("ch1");
    assert_eq!(users, vec!["Alice".to_string()]);
}

#[test]
fn typing_users_returns_empty_for_unknown_channel() {
    let store = empty_store();
    assert!(store.typing_users("unknown").is_empty());
}

#[test]
fn typing_the_same_name_twice_lists_it_once() {
    let mut store = empty_store();
    store.apply_typing("ch1", "Alice", "", "", 0);
    store.apply_typing("ch1", "Alice", "", "", 0);
    store.apply_typing("ch2", "Bob", "", "", 0);
    assert_eq!(store.typing_users("ch1"), vec!["Alice".to_string()]);
    store.clear_typing();
    assert!(!store.has_typing("ch2"));
}

#[test]
fn join_and_leave_in_one_push_ends_offline() {
    let mut store = empty_store();
    store.apply_channel_presence("ch1", &["u1".into(), "u2".into()], &["u1".into()]);
    assert!(!store.is_in_channel("ch1", "u1"));
    assert!(store.is_in_channel("ch1", "u2"));
    assert!(!store.is_online("u1"));
    store.clear_all();
    assert!(!store.is_online("u2"));
}

#[test]
fn realtime_updates_use_decimal_ids() {
    let mut store = empty_store();
    let ev = store.handle_update(&PresenceUpdate::Typing {
        channel_id: 12,
        sender_display_name: String::new(),
        sender_username: String::new(),
        sender_id: 34,
        mode: 0,
    });
    assert!(matches!(ev, PresenceEvent::TypingChanged { ref channel_id } if channel_id == "12"));
    assert!(store.is_typing("12", "34"));
    let ev = store.handle_update(&PresenceUpdate::ChannelPresence {
        channel_id: 5,
        joins: vec![7, 8],
        leaves: vec![],
    });
    assert!(matches!(ev, PresenceEvent::ChannelPresenceChanged { ref channel_id } if channel_id == "5"));
    assert!(store.is_in_channel("5", "8"));
    let ev = store.handle_update(&PresenceUpdate::StatusPresence {
        joins: vec![],
        leaves: vec![7],
    });
    assert!(matches!(ev, PresenceEvent::StatusChanged));
    assert!(!store.is_online("7"));
    assert!(store.is_online("8"));
}
