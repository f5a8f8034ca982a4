use mezon_store::notification_push::{
    dm_unread_note_at, is_do_not_disturb, is_viewing_while_focused, may_start, note_dm_unread,
    prepare, route_ids, sync_action, GotifyLoop, GotifyNotification, GotifyStep, RetryPlan,
    StreamEnd, SyncAction,
};

fn note(sender: &str, channel: &str) -> GotifyNotification {
    GotifyNotification {
        sender_id: sender.into(),
        channel_id: channel.into(),
        date: "2021-01-01T00:00:00Z".into(),
        title: "Alice".into(),
        message: "hello".into(),
        image: "https://cdn/a.png".into(),
        link: String::new(),
    }
}

#[test]
fn own_messages_dnd_and_viewed_channels_are_suppressed() {
    let n = note("7", "100");
    assert!(prepare("7", &n, false, false, false, None).is_none());
    assert!(prepare("8", &n, true, false, false, None).is_none());
    assert!(prepare("8", &n, false, true, false, None).is_none());
    let shown = prepare("8", &n, false, false, false, Some(3)).unwrap();
    assert_eq!(shown.title, "Alice");
    assert_eq!(shown.body, "hello");
    assert_eq!(shown.channel_id.as_deref(), Some("100"));
    assert_eq!(shown.clan_id.as_deref(), Some("3"));
    assert!(shown.link.is_none());
    assert!(shown.icon_url.is_none());
}

#[test]
fn hidden_content_keeps_the_title_only() {
    let mut n = note("7", "100");
    n.link = "mezon://x".into();
    let shown = prepare("8", &n, false, false, true, Some(0)).unwrap();
    assert_eq!(shown.body, "");
    assert!(shown.clan_id.is_none());
    assert_eq!(shown.link.as_deref(), Some("mezon://x"));
}

#[test]
fn routing_needs_a_numeric_channel() {
    assert_eq!(route_ids("abc", Some(4)), (None, None));
    assert_eq!(route_ids("5", None), (Some("5".into()), None));
}

#[test]
fn do_not_disturb_and_focus_checks() {
    assert!(is_do_not_disturb("12", Some("Do Not Disturb")));
    assert!(!is_do_not_disturb("12", Some("Online")));
    assert!(!is_do_not_disturb("me", Some("Do Not Disturb")));
    assert!(is_viewing_while_focused(true, "9", Some(9)));
    assert!(!is_viewing_while_focused(false, "9", Some(9)));
    assert!(!is_viewing_while_focused(true, "x", Some(9)));
}

#[test]
fn dm_badge_note_reads_the_date() {
    assert_eq!(note_dm_unread("8", &note("7", "100")), Some((100, 1609459200)));
    let mut bad_date = note("7", "100");
    bad_date.date = "yesterday".into();
    assert_eq!(note_dm_unread("8", &bad_date), Some((100, 0)));
    assert_eq!(note_dm_unread("7", &note("7", "100")), None);
    assert_eq!(dm_unread_note_at("8", &note("7", "0"), Some(5)), None);
    assert_eq!(dm_unread_note_at("8", &note("7", "12"), Some(5)), Some((12, 5)));
}

#[test]
fn stream_starts_per_user_and_stops_on_sign_out() {
    assert_eq!(sync_action(Some("1"), None, false), SyncAction::Start("1".into()));
    assert_eq!(sync_action(Some("1"), Some("1"), true), SyncAction::Keep);
    assert_eq!(sync_action(Some("2"), Some("1"), true), SyncAction::Start("2".into()));
    assert_eq!(sync_action(None, Some("1"), true), SyncAction::Stop);
    assert_eq!(sync_action(None, None, false), SyncAction::Keep);
    assert!(may_start(Some("wss://n"), true));
    assert!(!may_start(Some(""), true));
    assert!(!may_start(Some("wss://n"), false));
}

#[test]
fn stream_loop_registers_then_streams_and_reregisters_when_refused() {
    let mut l = GotifyLoop::new();
    assert_eq!(l.next_step(false), GotifyStep::WaitOnline);
    assert_eq!(l.next_step(true), GotifyStep::Register);
    assert_eq!(
        l.on_register(Some(("   ".into(), "dev".into()))),
        Err(RetryPlan::Retry { reset_backoff: false })
    );
    assert_eq!(l.on_register(Some((" tok ".into(), "dev".into()))), Ok(Some("dev".into())));
    assert_eq!(l.next_step(true), GotifyStep::OpenStream("tok".into()));
    assert_eq!(l.on_stream_end(StreamEnd::Dropped), RetryPlan::Retry { reset_backoff: true });
    assert_eq!(l.on_stream_end(StreamEnd::Rejected), RetryPlan::Retry { reset_backoff: false });
    assert_eq!(l.next_step(true), GotifyStep::Register);
    assert_eq!(l.on_stream_end(StreamEnd::ReceiverGone), RetryPlan::Stop);
}
