use mezon_store::message::{
    reaction_key, strip_marker, tenor_mp4_url, upsert_sender, MessageCode, ReactionSender,
};

#[test]
fn tenor_gif_maps_to_mp4() {
    assert_eq!(
        tenor_mp4_url("https://media.tenor.com/abcdefghijk12345/funny-cat.gif").as_deref(),
        Some("https://media.tenor.com/abcdefghijkAAAPo/funny-cat.mp4")
    );
}

#[test]
fn tenor_rejects_other_shapes() {
    assert_eq!(tenor_mp4_url("https://media.tenor.com/short/x.gif"), None);
    assert_eq!(tenor_mp4_url("https://media.tenor.com/abcdefghijk12345/.gif"), None);
    assert_eq!(tenor_mp4_url("https://media.tenor.com/abcdefghijk12345/x.png"), None);
    assert_eq!(tenor_mp4_url("https://example.com/abcdefghijk12345/x.gif"), None);
    assert_eq!(tenor_mp4_url("https://media.tenor.com/abcdefghijk12345"), None);
}

#[test]
fn message_codes_from_wire() {
    assert_eq!(MessageCode::from_raw(0), MessageCode::Chat);
    assert_eq!(MessageCode::from_raw(5), MessageCode::Welcome);
    assert_eq!(MessageCode::from_raw(18), MessageCode::Poll);
    assert_eq!(MessageCode::from_raw(42), MessageCode::Unknown(42));
}

#[test]
fn system_and_timeline_codes() {
    assert!(MessageCode::Welcome.is_system());
    assert!(MessageCode::AuditLog.is_system());
    assert!(!MessageCode::Chat.is_system());
    assert!(MessageCode::Chat.is_user_timeline());
    assert!(!MessageCode::Typing.is_user_timeline());
    assert!(!MessageCode::CreatePin.is_user_timeline());
    assert!(MessageCode::Poll.is_user_timeline());
}

#[test]
fn reaction_key_prefers_real_emoji_id() {
    assert_eq!(reaction_key("123", "smile"), "123");
    assert_eq!(reaction_key("0", "smile"), "smile");
    assert_eq!(reaction_key("", "smile"), "smile");
}

#[test]
fn upsert_sender_adds_sets_and_saturates() {
    let mut senders = Vec::new();
    upsert_sender(&mut senders, "a", 1, false);
    upsert_sender(&mut senders, "b", 2, false);
    upsert_sender(&mut senders, "a", 3, false);
    assert_eq!(
        senders,
        vec![
            ReactionSender { sender_id: "a".into(), count: 4 },
            ReactionSender { sender_id: "b".into(), count: 2 },
        ]
    );
    upsert_sender(&mut senders, "b", 7, true);
    assert_eq!(senders[1].count, 7);
    upsert_sender(&mut senders, "a", u32::MAX, false);
    assert_eq!(senders[0].count, u32::MAX);
}

#[test]
fn strip_marker_needs_both_ends() {
    assert_eq!(strip_marker("**bold**", "**"), "bold");
    assert_eq!(strip_marker("**bold", "**"), "**bold");
    assert_eq!(strip_marker("`x`", "`"), "x");
    assert_eq!(strip_marker("`", "`"), "`");
    assert_eq!(strip_marker("```code```", "```"), "code");
}
