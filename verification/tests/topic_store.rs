use mezon_store::ids::MessageId;
use mezon_store::outgoing::ReplyDraft;
use mezon_store::topic_store::{can_create_topic, sort_by_recent, topic_from_event, TopicDiscussion, TopicsState};
use mezon_store::topics::{STREAM_MODE_CHANNEL, STREAM_MODE_THREAD};

fn topic(id: &str, ts: u32, origin: &str) -> TopicDiscussion {
    TopicDiscussion {
        id: id.to_string(),
        content: format!("topic {}", id),
        last_message_timestamp: ts,
        last_sender_id: "7".to_string(),
        message_id: origin.to_string(),
    }
}

#[test]
fn sort_by_recent_puts_newest_first_and_keeps_ties_in_order() {
    let mut v = vec![topic("a", 5, "1"), topic("b", 9, "2"), topic("c", 5, "3"), topic("d", 1, "4")];
    sort_by_recent(&mut v);
    let ids: Vec<&str> = v.iter().map(|t| t.id.as_str()).collect();
    assert_eq!(ids, vec!["b", "a", "c", "d"]);
}

#[test]
fn fetch_result_of_current_generation_replaces_topics_sorted() {
    let mut s = TopicsState::new();
    let g = s.begin_fetch("clan-1").unwrap();
    assert!(s.loading);
    // A second request while loading the same clan starts nothing.
    assert_eq!(s.begin_fetch("clan-1"), None);
    assert!(s.apply_fetch_result("clan-1", g, Some(vec![topic("1", 3, "10"), topic("2", 8, "20")])));
    assert!(!s.loading);
    assert!(s.fetched);
    let ids: Vec<&str> = s.topics_for("clan-1").iter().map(|t| t.id.as_str()).collect();
    assert_eq!(ids, vec!["2", "1"]);
    assert!(s.topics_for("clan-2").is_empty());
}

#[test]
fn stale_fetch_result_is_dropped() {
    let mut s = TopicsState::new();
    let first = s.begin_fetch("clan-1").unwrap();
    let second = s.begin_fetch("clan-2").unwrap();
    assert_ne!(first, second);
    assert!(!s.apply_fetch_result("clan-1", first, Some(vec![topic("1", 3, "10")])));
    assert!(s.loading);
    assert!(s.topics.is_empty());
    assert!(s.apply_fetch_result("clan-2", second, None));
    assert!(!s.loading);
    assert!(!s.fetched);
}

#[test]
fn upsert_topic_refreshes_existing_or_appends() {
    let mut s = TopicsState::new();
    s.upsert_topic(topic("1", 3, "10"));
    s.upsert_topic(topic("2", 4, "20"));
    assert_eq!(s.topics.len(), 2);
    let mut newer = topic("1", 9, "10");
    newer.content = "fresh".to_string();
    s.upsert_topic(newer);
    assert_eq!(s.topics.len(), 2);
    let t = s.topic_by_id("1").unwrap();
    assert_eq!(t.content, "fresh");
    assert_eq!(t.last_message_timestamp, 9);
    assert!(s.topic_by_id("3").is_none());
}

#[test]
fn reply_count_meta_merges_increments_and_decrements() {
    let mut s = TopicsState::new();
    s.upsert_topic(topic("5", 1, "50"));
    s.upsert_topic_meta("5".to_string(), 2, 100);
    assert_eq!(s.topic_display_reply_count(5), 2);
    assert_eq!(s.topic_last_reply_timestamp(5), Some(100));
    assert_eq!(s.topic_by_id("5").unwrap().last_message_timestamp, 100);
    // An older time does not move the last reply back.
    s.upsert_topic_meta("5".to_string(), 3, 50);
    assert_eq!(s.topic_display_reply_count(5), 3);
    assert_eq!(s.topic_last_reply_timestamp(5), Some(100));
    s.increment_topic_reply_count(5, 200);
    assert_eq!(s.topic_display_reply_count(5), 4);
    assert_eq!(s.topic_last_reply_timestamp(5), Some(200));
    assert_eq!(s.topic_by_id("5").unwrap().last_message_timestamp, 200);
    assert!(s.decrement_topic_reply_count(5));
    assert_eq!(s.topic_display_reply_count(5), 3);
    assert!(!s.decrement_topic_reply_count(6));
    assert!(!s.decrement_topic_reply_count(0));
    assert_eq!(s.topic_display_reply_count(6), 0);
    assert_eq!(s.topic_last_reply_timestamp(6), None);
}

#[test]
fn decrement_never_goes_below_zero() {
    let mut s = TopicsState::new();
    s.upsert_topic_meta("9".to_string(), 0, 0);
    assert!(s.decrement_topic_reply_count(9));
    assert_eq!(s.topic_display_reply_count(9), 0);
    assert_eq!(s.topic_last_reply_timestamp(9), None);
}

#[test]
fn increment_on_unknown_topic_starts_at_one() {
    let mut s = TopicsState::new();
    s.increment_topic_reply_count(11, 30);
    assert_eq!(s.topic_display_reply_count(11), 1);
    assert_eq!(s.topic_last_reply_timestamp(11), Some(30));
    s.increment_topic_reply_count(0, 30);
    assert_eq!(s.meta.len(), 1);
}

#[test]
fn touch_last_sent_ignores_zero_id_and_nonpositive_time() {
    let mut s = TopicsState::new();
    s.touch_topic_last_sent(0, 10);
    s.touch_topic_last_sent(3, 0);
    assert!(s.meta.is_empty());
    s.touch_topic_last_sent(3, 10);
    assert_eq!(s.topic_last_reply_timestamp(3), Some(10));
    assert_eq!(s.topic_display_reply_count(3), 0);
}

#[test]
fn resolve_topic_prefers_listed_topic_of_origin() {
    let mut s = TopicsState::new();
    s.upsert_topic(topic("100", 1, "42"));
    assert_eq!(s.resolve_topic_id_for_origin(42, Some(7)), Some("100".to_string()));
    assert_eq!(s.resolve_topic_id_for_origin(43, Some(7)), Some("7".to_string()));
    assert_eq!(s.resolve_topic_id_for_origin(43, None), None);
}

#[test]
fn start_create_opens_panel_and_reuses_topic() {
    let mut s = TopicsState::new();
    assert_eq!(s.start_create(MessageId(5), Some(77), None, 1, STREAM_MODE_CHANNEL, true), None);
    assert!(!s.panel_open);
    assert_eq!(s.start_create(MessageId(5), Some(0), Some(9), 1, STREAM_MODE_CHANNEL, true), None);
    assert!(s.panel_open);
    assert_eq!(s.compose.active_topic_id, None);
    assert_eq!(s.start_create(MessageId(5), Some(77), Some(9), 1, STREAM_MODE_CHANNEL, true), Some(77));
    assert_eq!(s.compose.active_topic_id, Some(77));
    assert!(s.is_init_topic_message(MessageId(5)));
    assert!(!s.is_init_topic_message(MessageId(6)));
    s.clear_init_topic_message_if(MessageId(6));
    assert!(s.is_init_topic_message(MessageId(5)));
    s.clear_init_topic_message_if(MessageId(5));
    assert!(!s.is_init_topic_message(MessageId(5)));
}

#[test]
fn panel_closes_on_origin_or_topic_deletion() {
    let mut s = TopicsState::new();
    s.start_create(MessageId(5), Some(77), Some(9), 1, STREAM_MODE_CHANNEL, false);
    assert!(s.should_close_on_message_deleted(MessageId(5), None));
    assert!(s.should_close_on_message_deleted(MessageId(8), Some(77)));
    assert!(!s.should_close_on_message_deleted(MessageId(8), Some(78)));
    assert!(!s.should_close_on_message_deleted(MessageId(8), None));
    assert!(s.close_panel_state());
    assert!(!s.panel_open);
    assert_eq!(s.compose.origin_message_id, None);
    assert!(!s.close_panel_state());
}

#[test]
fn submit_flow_creates_topic_then_counts_reply() {
    let mut s = TopicsState::new();
    s.start_create(MessageId(5), None, Some(9), 1, STREAM_MODE_THREAD, true);
    s.reply_target = Some(ReplyDraft {
        message_ref_id: "12".to_string(),
        sender_id: "3".to_string(),
        sender_name: "ann".to_string(),
        sender_avatar: String::new(),
        content_preview: "hi".to_string(),
        has_attachment: false,
    });
    // Blank text without attachments is not sent.
    assert!(s.begin_submit("   ", false).is_none());
    let plan = s.begin_submit("  hello  ", false).unwrap();
    assert_eq!(plan.content, "hello");
    assert_eq!(plan.parent_channel_id, 9);
    assert_eq!(plan.clan_id, 1);
    assert_eq!(plan.origin_message_id, MessageId(5));
    assert_eq!(plan.mode, STREAM_MODE_THREAD);
    assert!(plan.is_public);
    assert_eq!(plan.existing_topic_id, None);
    assert_eq!(plan.reply.as_ref().unwrap().message_ref_id, 12);
    assert!(s.compose.submitting);
    assert!(s.compose.creating);
    assert!(s.reply_target.is_none());
    // A second submission while one is under way is refused.
    assert!(s.begin_submit("again", false).is_none());
    assert!(s.finish_submit(300, 40));
    assert!(!s.compose.submitting);
    assert_eq!(s.compose.active_topic_id, Some(300));
    assert_eq!(s.topic_display_reply_count(300), 1);
    let plan = s.begin_submit("", true).unwrap();
    assert_eq!(plan.existing_topic_id, Some(300));
    assert!(!s.compose.creating);
    s.fail_submit("network".to_string());
    assert!(!s.compose.submitting);
    assert_eq!(s.compose.error, Some("network".to_string()));
    assert_eq!(s.compose.active_topic_id, Some(300));
}

#[test]
fn reset_forgets_everything_and_moves_generation() {
    let mut s = TopicsState::new();
    let g = s.begin_fetch("c").unwrap();
    s.upsert_topic(topic("1", 1, "2"));
    s.upsert_topic_meta("1".to_string(), 4, 5);
    s.start_create(MessageId(2), None, Some(3), 4, STREAM_MODE_CHANNEL, false);
    assert!(s.reset());
    assert!(s.topics.is_empty() && s.meta.is_empty());
    assert!(s.clan_id.is_none());
    assert!(!s.loading && !s.panel_open);
    assert_ne!(s.fetch_generation, g);
    assert!(!s.apply_fetch_result("c", g, Some(vec![topic("9", 1, "9")])));
    assert!(!s.reset());
}

#[test]
fn can_create_topic_requires_channel_stream_in_clan() {
    let active = Some((10i64, 20i64));
    assert!(can_create_topic(false, STREAM_MODE_CHANNEL, active, Some(0), true));
    assert!(can_create_topic(false, STREAM_MODE_THREAD, active, Some(0), true));
    assert!(!can_create_topic(true, STREAM_MODE_CHANNEL, active, Some(0), true));
    assert!(!can_create_topic(false, STREAM_MODE_CHANNEL, Some((10, 0)), Some(0), true));
    assert!(!can_create_topic(false, STREAM_MODE_CHANNEL, None, Some(0), true));
    assert!(!can_create_topic(false, STREAM_MODE_CHANNEL, active, None, true));
    assert!(!can_create_topic(false, STREAM_MODE_CHANNEL, active, Some(8), true));
    assert!(!can_create_topic(false, STREAM_MODE_CHANNEL, active, Some(10), true));
    assert!(!can_create_topic(false, STREAM_MODE_CHANNEL, active, Some(6), true));
    assert!(!can_create_topic(false, STREAM_MODE_CHANNEL, active, Some(0), false));
}

#[test]
fn topic_from_event_falls_back_to_last_reply_content() {
    let t = topic_from_event(1, 2, Some("root".to_string()), Some("last".to_string()), Some(9), 3);
    assert_eq!(t.id, "1");
    assert_eq!(t.message_id, "2");
    assert_eq!(t.content, "root");
    assert_eq!(t.last_message_timestamp, 9);
    assert_eq!(t.last_sender_id, "3");
    let t = topic_from_event(1, 2, Some(String::new()), Some("last".to_string()), None, 3);
    assert_eq!(t.content, "last");
    assert_eq!(t.last_message_timestamp, 0);
    let t = topic_from_event(-4, 2, None, None, None, 0);
    assert_eq!(t.id, "-4");
    assert_eq!(t.content, "");
}

#[test]
fn url_attachment_reply_needs_an_address() {
    let mut s = TopicsState::new();
    s.start_create(MessageId(5), Some(9), Some(9), 1, STREAM_MODE_CHANNEL, false);
    assert!(s.begin_submit_url_attachment("").is_none());
    assert!(!s.compose.submitting);
    let plan = s.begin_submit_url_attachment("https://cdn/x.png").unwrap();
    assert_eq!(plan.content, "");
    assert_eq!(plan.existing_topic_id, Some(9));
    assert!(s.compose.submitting);
    assert!(s.begin_submit_url_attachment("https://cdn/y.png").is_none());
}

#[test]
fn submitted_reply_is_the_reply_target() {
    let mut s = TopicsState::new();
    s.start_create(MessageId(5), None, Some(9), 1, STREAM_MODE_CHANNEL, false);
    s.reply_target = Some(ReplyDraft {
        message_ref_id: "12".to_string(),
        sender_id: "3".to_string(),
        sender_name: "ann".to_string(),
        sender_avatar: "a".to_string(),
        content_preview: "hi".to_string(),
        has_attachment: true,
    });
    let plan = s.begin_submit("x", false).unwrap();
    let r = plan.reply.unwrap();
    assert!(r.has_attachment);
    assert_eq!(r.message_sender_id, 3);
    assert_eq!(r.content, "hi");
    assert_eq!(r.message_sender_avatar, "a");
}
