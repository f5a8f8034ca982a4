use mezon_store::direct::{
    direct_from_api, join, note_channel_message, sort_by_recent, ApiDirectChannel, DirectChannel,
    DirectKind,
};

fn api_dm(id: &str, label: &str, ty: u32) -> ApiDirectChannel {
    ApiDirectChannel {
        channel_id: id.into(),
        channel_label: label.into(),
        channel_type: ty,
        channel_avatar: String::new(),
        avatars: vec!["peer.png".into()],
        usernames: vec!["peer".into()],
        display_names: vec!["Peer".into()],
        user_ids: vec!["42".into()],
        onlines: vec![true],
        member_count: 2,
        count_mess_unread: 0,
        last_sent_timestamp: 0,
        last_seen_timestamp: 0,
    }
}

fn chan(id: &str, sent: i64) -> DirectChannel {
    DirectChannel {
        id: id.into(),
        label: id.into(),
        kind: DirectKind::Dm,
        avatar: String::new(),
        peer_user_id: None,
        online: false,
        member_count: 0,
        last_sent_timestamp: sent,
        last_seen_timestamp: 0,
    }
}

#[test]
fn dm_maps_peer_avatar_and_id() {
    let dm = direct_from_api(api_dm("1", "Peer", 3));
    assert_eq!(dm.kind, DirectKind::Dm);
    assert_eq!(dm.avatar, "peer.png");
    assert_eq!(dm.peer_user_id.as_deref(), Some("42"));
    assert!(dm.online);
}

#[test]
fn dm_uses_last_nonempty_avatar_when_multiple() {
    let mut api = api_dm("1", "Peer", 3);
    api.avatars = vec!["".into(), "peer.png".into()];
    api.user_ids = vec!["self".into(), "42".into()];
    api.onlines = vec![true, false];
    let dm = direct_from_api(api);
    assert_eq!(dm.avatar, "peer.png");
    assert_eq!(dm.peer_user_id.as_deref(), Some("42"));
    assert!(!dm.online);
}

#[test]
fn dm_skips_trailing_empty_avatar() {
    let mut api = api_dm("1", "Peer", 3);
    api.avatars = vec!["peer.png".into(), String::new()];
    let dm = direct_from_api(api);
    assert_eq!(dm.avatar, "peer.png");
}

#[test]
fn group_uses_channel_avatar_and_no_peer() {
    let mut api = api_dm("2", "Group", 2);
    api.channel_avatar = "group.png".into();
    let group = direct_from_api(api);
    assert_eq!(group.kind, DirectKind::Group);
    assert_eq!(group.avatar, "group.png");
    assert_eq!(group.peer_user_id, None);
}

#[test]
fn empty_label_falls_back_to_display_names() {
    let api = api_dm("3", "", 3);
    let dm = direct_from_api(api);
    assert_eq!(dm.label, "Peer");
}

#[test]
fn stream_mode_and_channel_type_match_react() {
    assert_eq!(DirectKind::Dm.stream_mode(), 4);
    assert_eq!(DirectKind::Group.stream_mode(), 3);
    assert_eq!(DirectKind::Dm.channel_type(), 3);
    assert_eq!(DirectKind::Group.channel_type(), 2);
}

#[test]
fn sort_orders_most_recent_first() {
    let mut chans = vec![chan("a", 100), chan("b", 200)];
    sort_by_recent(&mut chans);
    assert_eq!(chans[0].id, "b");
    assert_eq!(chans[1].id, "a");
}

#[test]
fn sort_is_stable_for_equal_times() {
    let mut chans = vec![chan("a", 5), chan("b", 9), chan("c", 5), chan("d", 9)];
    sort_by_recent(&mut chans);
    let ids: Vec<&str> = chans.iter().map(|c| c.id.as_str()).collect();
    assert_eq!(ids, vec!["b", "d", "a", "c"]);
}

#[test]
fn labels_join_names_and_fall_back_to_usernames() {
    let mut api = api_dm("4", "", 2);
    api.display_names = vec!["Ann".into(), "Bo".into()];
    assert_eq!(direct_from_api(api.clone()).label, "Ann, Bo");
    api.display_names = vec![];
    api.usernames = vec!["ann".into(), "bo".into(), "cy".into()];
    assert_eq!(direct_from_api(api).label, "ann, bo, cy");
    assert_eq!(join(&vec![], ", "), "");
}

#[test]
fn negative_member_count_is_zero_and_kind_from_raw() {
    let mut api = api_dm("5", "x", 7);
    api.member_count = -3;
    let dm = direct_from_api(api);
    assert_eq!(dm.member_count, 0);
    assert_eq!(dm.kind, DirectKind::Dm);
    assert_eq!(DirectKind::from_raw(2), DirectKind::Group);
}

#[test]
fn unread_needs_a_newer_message() {
    let mut c = chan("a", 100);
    assert!(c.is_unread());
    c.last_seen_timestamp = 100;
    assert!(!c.is_unread());
    assert!(!chan("z", 0).is_unread());
}

#[test]
fn a_message_moves_its_conversation_up() {
    let mut chans = vec![chan("a", 300), chan("b", 200), chan("c", 100)];
    assert!(note_channel_message(&mut chans, "c", 400));
    let ids: Vec<&str> = chans.iter().map(|c| c.id.as_str()).collect();
    assert_eq!(ids, vec!["c", "a", "b"]);
    assert_eq!(chans[0].last_sent_timestamp, 400);
    assert!(!note_channel_message(&mut chans, "zz", 1));
    assert!(note_channel_message(&mut chans, "b", 0));
    assert_eq!(chans[2].last_sent_timestamp, 200);
}
