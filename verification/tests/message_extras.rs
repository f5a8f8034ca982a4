use mezon_store::channel_message::{message_combined_with_prev, recompute_message_grouping, Message};
use mezon_store::dates::{format_clock, format_day};
use mezon_store::highlight::{
    mention_user_id_targets_viewer, message_row_highlight, message_row_highlight_roles, should_show_message_head,
    viewer_highlight_direct,
};
use mezon_store::ids::{MessageId, UserId};
use mezon_store::message::{
    message_reference_from_api, poll_is_expired, ApiMessageRef, MentionTarget, MessageAttachment, MessageReference,
};
use mezon_store::outgoing::STICKER_FILETYPE;
use mezon_store::spans::MessageSpan;
use mezon_store::stream::{build_ws_url, SdpLayoutError};

#[test]
fn message_precomputes_clock_and_day_labels() {
    let msg = Message::new("1".into(), "hi".into(), "u".into(), "User".into(), 1_609_459_200 + 48_300);
    assert_eq!(msg.timestamp_label, "1:25 PM");
    assert_eq!(msg.day_label, "January 01, 2021");
}

#[test]
fn message_clock_label_handles_midnight() {
    let msg = Message::new("1".into(), "hi".into(), "u".into(), "User".into(), 1_609_459_200);
    assert_eq!(msg.timestamp_label, "12:00 AM");
}

#[test]
fn clock_and_day_labels_of_a_time() {
    let ts = 1_609_459_200 + 48_300;
    assert_eq!(format_clock(ts), "1:25 PM");
    assert_eq!(format_day(ts), "January 01, 2021");
}

fn chat(id: &str, sender: &str, t: i64) -> Message {
    Message::new(id.into(), "x".into(), sender.into(), "S".into(), t)
}

#[test]
fn channel_messages_group_by_sender_day_and_window() {
    let base = 1_609_459_200 + 3_600;
    let mut v = vec![
        chat("1", "a", base),
        chat("2", "a", base + 299),
        chat("3", "a", base + 299 + 300),
        chat("4", "b", base + 600),
        chat("5", "b", base + 400),
    ];
    recompute_message_grouping(&mut v);
    let flags: Vec<bool> = v.iter().map(|m| m.combined_with_prev).collect();
    assert_eq!(flags, vec![false, true, false, false, true]);
    assert!(!message_combined_with_prev(None, &v[0]));
    // Across midnight the day label differs, so no group.
    let late = chat("6", "c", 1_609_459_200 + 86_399);
    let early = chat("7", "c", 1_609_459_200 + 86_401);
    assert!(!message_combined_with_prev(Some(&late), &early));
}

#[test]
fn channel_message_builders_set_one_field() {
    let m = chat("1", "a", 0)
        .with_avatar("https://a/x.png".into())
        .with_avatar_proxied("https://p/x.png".into())
        .with_attachments(vec![attachment("https://a/y.png", "image/png")]);
    assert_eq!(m.avatar_url, "https://a/x.png");
    assert_eq!(m.avatar_proxied, "https://p/x.png");
    assert_eq!(m.attachments.len(), 1);
    assert_eq!(m.id, "1");
    assert!(m.reactions.is_empty());
}

#[test]
fn clock_label_before_the_epoch_wraps_to_the_previous_day() {
    assert_eq!(format_clock(-60), "11:59 PM");
    assert_eq!(format_clock(12 * 3600 + 5 * 60), "12:05 PM");
}

#[test]
fn appends_access_token_without_replacing_existing_query() {
    let url = build_ws_url("wss://sfu.example/ws?transport=websocket", "opaque-token").unwrap();
    let parsed = url::Url::parse(url.as_str()).unwrap();
    let query: std::collections::HashMap<_, _> = parsed.query_pairs().into_owned().collect();
    assert_eq!(query.get("transport").map(String::as_str), Some("websocket"));
    assert_eq!(query.get("access_token").map(String::as_str), Some("opaque-token"));
}

#[test]
fn ws_url_is_trimmed_and_rejects_relative_addresses() {
    let url = build_ws_url("  wss://sfu.example/ws  ", "t").unwrap();
    assert_eq!(url.as_str(), "wss://sfu.example/ws?access_token=t");
    assert!(build_ws_url("not a url", "t").is_err());
}

#[test]
fn ws_url_form_encodes_the_token() {
    let url = build_ws_url("wss://sfu.example/ws?transport=websocket", "a b&c").unwrap();
    assert_eq!(url.as_str(), "wss://sfu.example/ws?transport=websocket&access_token=a+b%26c");
}

#[test]
fn sdp_layout_errors_have_fixed_messages() {
    assert_eq!(SdpLayoutError::SectionCountChanged.message(), "SFU answer changed m-line count");
    assert_eq!(SdpLayoutError::OrderOrMidChanged.message(), "SFU answer changed m-line order or mid");
    assert_eq!(SdpLayoutError::VideoActivated.message(), "SFU answer activated a video m-line");
    assert_eq!(SdpLayoutError::AudioSenderActivated.message(), "SFU answer activated an audio sender");
}

fn attachment(url: &str, filetype: &str) -> MessageAttachment {
    MessageAttachment { url: url.into(), filetype: filetype.into(), ..Default::default() }
}

#[test]
fn sticker_attachment_is_recognized_as_image() {
    let a = attachment("https://cdn/1.webp", STICKER_FILETYPE);
    assert_eq!(a.filetype, "sticker");
    assert!(a.is_image());
}

#[test]
fn image_detection_uses_type_or_extension() {
    assert!(attachment("https://x/y", "image/png").is_image());
    assert!(attachment("https://x/y.JPG?size=2#top", "").is_image());
    assert!(!attachment("https://x/y.pdf", "application/pdf").is_image());
    assert!(!attachment("https://x/y.png.txt", "").is_image());
}

#[test]
fn video_detection_skips_tenor_mp4_and_transport_streams() {
    assert!(attachment("https://x/v.mp4", "video/mp4").is_video());
    assert!(attachment("https://media.tenor.com/v.mp4", "video/webm").is_video());
    assert!(!attachment("https://media.tenor.com/v.mp4", "gif/mp4").is_video());
    assert!(!attachment("https://x/v", "video/vnd.dlna.mpeg-tts").is_video());
    assert!(!attachment("https://x/v", "audio/mp3").is_video());
}

#[test]
fn unsupported_media_types() {
    assert!(attachment("", "video/avi").is_unsupported_media());
    assert!(attachment("", "image/psd").is_unsupported_media());
    assert!(!attachment("", "video/mp4").is_unsupported_media());
}

#[test]
fn poll_expiry() {
    assert!(poll_is_expired(Some(10), 11));
    assert!(!poll_is_expired(Some(10), 10));
    assert!(!poll_is_expired(Some(0), 11));
    assert!(!poll_is_expired(None, 11));
}

#[test]
fn reference_names_prefer_clan_nick_then_display_name() {
    let mut r = ApiMessageRef {
        message_ref_id: 5,
        message_sender_id: 6,
        message_sender_username: "user".into(),
        message_sender_avatar: "a.png".into(),
        message_sender_clan_nick: "nick".into(),
        message_sender_display_name: "display".into(),
        content: "{\"t\":\"hi\"}".into(),
        has_attachment: false,
    };
    let m = message_reference_from_api(&r, Some("hi".into()), "proxied.png".into());
    assert_eq!(m.sender_name, "nick");
    assert_eq!(m.content, "hi");
    assert_eq!(m.message_ref_id, MessageId(5));
    assert_eq!(m.sender_id, UserId(6));
    assert_eq!(m.sender_avatar, "proxied.png");
    r.message_sender_clan_nick.clear();
    assert_eq!(message_reference_from_api(&r, None, String::new()).sender_name, "display");
    r.message_sender_display_name.clear();
    let m = message_reference_from_api(&r, None, String::new());
    assert_eq!(m.sender_name, "user");
    assert_eq!(m.content, "{\"t\":\"hi\"}");
}

fn reference_from(sender: i64) -> MessageReference {
    MessageReference { sender_id: UserId(sender), ..Default::default() }
}

#[test]
fn mentions_of_the_viewer_or_everyone_present() {
    let here = vec!["999".to_string()];
    assert!(mention_user_id_targets_viewer("42", UserId(42), &here));
    assert!(mention_user_id_targets_viewer("999", UserId(42), &here));
    assert!(!mention_user_id_targets_viewer("0", UserId(0), &here));
    assert!(!mention_user_id_targets_viewer("", UserId(42), &here));
    assert!(!mention_user_id_targets_viewer("43", UserId(42), &here));
}

#[test]
fn direct_highlight_by_reply_target_or_span() {
    let here: Vec<String> = Vec::new();
    let none: Vec<MentionTarget> = Vec::new();
    let no_spans: Vec<MessageSpan> = Vec::new();
    assert!(viewer_highlight_direct(&vec![reference_from(42)], &none, &no_spans, Some(UserId(42)), &here));
    assert!(!viewer_highlight_direct(&vec![reference_from(42)], &none, &no_spans, None, &here));
    let targets = vec![MentionTarget { user_id: Some("42".into()), role_id: None }];
    assert!(viewer_highlight_direct(&Vec::new(), &targets, &no_spans, Some(UserId(42)), &here));
    let spans = vec![MessageSpan::Mention { display: "@me".into(), user_id: Some("42".into()), role_id: None }];
    assert!(viewer_highlight_direct(&Vec::new(), &none, &spans, Some(UserId(42)), &here));
    assert!(!viewer_highlight_direct(&Vec::new(), &none, &spans, Some(UserId(7)), &here));
}

#[test]
fn role_highlight_needs_a_matching_role() {
    let targets = vec![MentionTarget { user_id: None, role_id: Some("5".into()) }];
    let no_spans: Vec<MessageSpan> = Vec::new();
    assert!(message_row_highlight_roles(&targets, &no_spans, &vec![5]));
    assert!(!message_row_highlight_roles(&targets, &no_spans, &vec![6]));
    assert!(!message_row_highlight_roles(&targets, &no_spans, &Vec::new()));
    let spans = vec![MessageSpan::Mention { display: "@r".into(), user_id: None, role_id: Some("6".into()) }];
    assert!(message_row_highlight_roles(&Vec::new(), &spans, &vec![6]));
    let blank = vec![MessageSpan::Mention { display: "@r".into(), user_id: None, role_id: Some(String::new()) }];
    assert!(!message_row_highlight_roles(&Vec::new(), &blank, &vec![6]));
    assert!(message_row_highlight(&Vec::new(), &targets, &no_spans, None, &vec![5], &Vec::new()));
}

#[test]
fn message_head_shows_for_replies_and_group_starts() {
    assert!(should_show_message_head(&Vec::new(), false));
    assert!(!should_show_message_head(&Vec::new(), true));
    assert!(should_show_message_head(&vec![reference_from(1)], true));
}
