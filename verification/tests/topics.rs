use mezon_store::message::MessageCode;
use mezon_store::topics::{
    clamp_timestamp, decremented_meta, incremented_meta, merged_meta, message_allows_topic_discussion,
    should_close_on_message_deleted, touched_meta, TopicMessageMeta,
};

#[test]
fn message_allows_topic_discussion_rejects_topic_and_poll() {
    assert!(!message_allows_topic_discussion(MessageCode::Topic));
    assert!(!message_allows_topic_discussion(MessageCode::Poll));
}

#[test]
fn message_allows_topic_discussion_rejects_system_codes() {
    assert!(!message_allows_topic_discussion(MessageCode::CreateThread));
    assert!(!message_allows_topic_discussion(MessageCode::Welcome));
    assert!(message_allows_topic_discussion(MessageCode::Chat));
}

#[test]
fn clamp_timestamp_bounds_to_u32() {
    assert_eq!(clamp_timestamp(-5), 0);
    assert_eq!(clamp_timestamp(42), 42);
    assert_eq!(clamp_timestamp(1 << 40), u32::MAX);
}

fn meta(rpl: i32, lsnt: i64, id: &str) -> TopicMessageMeta {
    TopicMessageMeta { rpl, lsnt, tp_id: id.to_string() }
}

#[test]
fn merged_meta_takes_count_and_later_time() {
    let old = meta(3, 100, "t1");
    let id = "t1".to_string();
    let m = merged_meta(Some(&old), &id, 5, 50);
    assert_eq!(m, meta(5, 100, "t1"));
    let m = merged_meta(Some(&old), &id, 5, 200);
    assert_eq!(m, meta(5, 200, "t1"));
    let m = merged_meta(None, &id, 2, 7);
    assert_eq!(m, meta(2, 7, "t1"));
}

#[test]
fn touched_meta_moves_time_forward_only() {
    let old = meta(3, 100, "t1");
    let id = "other".to_string();
    assert_eq!(touched_meta(Some(&old), &id, 90), meta(3, 100, "t1"));
    assert_eq!(touched_meta(Some(&old), &id, 150), meta(3, 150, "t1"));
    assert_eq!(touched_meta(None, &id, 150), meta(0, 150, "other"));
}

#[test]
fn incremented_meta_counts_one_more_reply() {
    let old = meta(3, 100, "t1");
    let id = "t1".to_string();
    assert_eq!(incremented_meta(Some(&old), &id, 150), meta(4, 150, "t1"));
    assert_eq!(incremented_meta(Some(&old), &id, 0), meta(4, 100, "t1"));
    assert_eq!(incremented_meta(None, &id, 9), meta(1, 9, "t1"));
    let full = meta(i32::MAX, 1, "t1");
    assert_eq!(incremented_meta(Some(&full), &id, 0).rpl, i32::MAX);
}

#[test]
fn decremented_meta_stops_at_zero() {
    assert_eq!(decremented_meta(&meta(2, 5, "t")), meta(1, 5, "t"));
    assert_eq!(decremented_meta(&meta(0, 5, "t")), meta(0, 5, "t"));
}

#[test]
fn panel_closes_on_origin_or_anchor_deletion() {
    assert!(should_close_on_message_deleted(true, Some(1), Some(9), 1, None));
    assert!(should_close_on_message_deleted(true, Some(1), Some(9), 2, Some(9)));
    assert!(!should_close_on_message_deleted(true, Some(1), Some(9), 2, Some(8)));
    assert!(!should_close_on_message_deleted(true, None, None, 2, None));
    assert!(!should_close_on_message_deleted(false, Some(1), Some(9), 1, Some(9)));
}
