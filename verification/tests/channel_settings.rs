use mezon_store::channel_settings::{
    count_message, holds_channel, message_effect, ChannelSetting, ChannelSettingItem, MessageEffect,
};
use mezon_store::ids::{ChannelId, UserId};
use mezon_store::message::MessageCode;

fn row(id: i64, count: i64) -> ChannelSetting {
    ChannelSetting::from_item(ChannelSettingItem { id, message_count: count, ..ChannelSettingItem::default() })
}

#[test]
fn from_item_maps_flags_and_last_message() {
    let r = ChannelSetting::from_item(ChannelSettingItem {
        id: 4,
        creator_id: 2,
        parent_id: 1,
        channel_label: "general".to_string(),
        channel_private: 1,
        channel_type: 1,
        user_ids: vec![5, 6],
        message_count: 10,
        last_sent_message: Some((5, 77)),
    });
    assert_eq!(r.id, ChannelId(4));
    assert!(r.private);
    assert_eq!(r.label, "general");
    assert_eq!(r.user_ids, vec![UserId(5), UserId(6)]);
    assert_eq!(r.last_sender_id, UserId(5));
    assert_eq!(r.last_sent_seconds, 77);
    let r = row(4, 0);
    assert!(!r.private);
    assert_eq!(r.last_sender_id, UserId(0));
    assert_eq!(r.last_sent_seconds, 0);
}

#[test]
fn message_effects_by_code() {
    assert_eq!(message_effect(MessageCode::Typing), MessageEffect::Ignore);
    assert_eq!(message_effect(MessageCode::ChatUpdate), MessageEffect::Ignore);
    assert_eq!(message_effect(MessageCode::ChatRemove), MessageEffect::Reload);
    assert_eq!(message_effect(MessageCode::Chat), MessageEffect::Count);
}

#[test]
fn counting_updates_first_matching_row_only() {
    let mut rows = vec![row(1, 0), row(2, 5), row(2, 9)];
    assert!(count_message(&mut rows, ChannelId(2), 33, 1000));
    assert_eq!(rows[1].message_count, 6);
    assert_eq!(rows[1].last_sender_id, UserId(33));
    assert_eq!(rows[1].last_sent_seconds, 1000);
    assert_eq!(rows[2].message_count, 9);
    assert_eq!(rows[0].message_count, 0);
}

#[test]
fn counting_unknown_channel_changes_nothing() {
    let mut rows = vec![row(1, 0)];
    assert!(!count_message(&mut rows, ChannelId(2), 33, 1000));
    assert_eq!(rows[0].message_count, 0);
    assert!(holds_channel(&rows, ChannelId(1)));
    assert!(!holds_channel(&rows, ChannelId(2)));
}

#[test]
fn counting_saturates() {
    let mut rows = vec![row(1, i64::MAX)];
    assert!(count_message(&mut rows, ChannelId(1), 1, 1));
    assert_eq!(rows[0].message_count, i64::MAX);
}
