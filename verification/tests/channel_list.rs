use mezon_store::channel::{Category, Channel, ChannelEvent, ChannelType};
use mezon_store::channel_list::{ChannelList, ChannelListEvent, ClanChannels};

fn make_channel(id: &str, cat_id: &str) -> Channel {
    Channel {
        id: id.into(),
        name: format!("ch-{id}"),
        channel_type: ChannelType::Text,
        private: false,
        clan_id: "1".into(),
        category_name: "General".into(),
        category_id: Some(cat_id.into()),
        member_count: 0,
        badge_count: 0,
        muted: false,
        parent_id: None,
        last_seen_timestamp: 0,
        last_sent_timestamp: 0,
        voice_members: Vec::new(),
        is_favorite: false,
    }
}

fn list() -> ChannelList {
    let mut l = ChannelList::new();
    l.clans.push(ClanChannels {
        clan_id: "1".into(),
        categories: vec![Category {
            id: "7".into(),
            clan_id: "1".into(),
            name: "Main".into(),
            order: 0,
            channels: vec![make_channel("10", "7"), make_channel("11", "7")],
        }],
    });
    l
}

fn channel<'a>(l: &'a ChannelList, id: &str) -> &'a Channel {
    l.clans[0].categories[0]
        .channels
        .iter()
        .find(|c| c.id == id)
        .unwrap()
}

#[test]
fn channel_message_bumps_badge_and_reports_unread() {
    let mut l = list();
    let out = l.handle_event(&ChannelListEvent::ChannelMessage { channel_id: 10, create_time_seconds: 500 });
    assert!(out.notify);
    assert!(matches!(out.event, Some(ChannelEvent::Unread(ref id)) if id == "10"));
    let ch = channel(&l, "10");
    assert_eq!(ch.badge_count, 1);
    assert_eq!(ch.last_sent_timestamp, 500);
    assert!(ch.is_unread());
}

#[test]
fn channel_message_for_viewed_channel_changes_nothing() {
    let mut l = list();
    l.active_channel_id = Some("10".into());
    let out = l.handle_event(&ChannelListEvent::ChannelMessage { channel_id: 10, create_time_seconds: 500 });
    assert!(!out.notify);
    assert!(out.event.is_none());
    assert_eq!(channel(&l, "10").badge_count, 0);
}

#[test]
fn mark_as_read_resets_badge_and_seen_time() {
    let mut l = list();
    l.on_channel_message("11", 900);
    l.on_channel_message("11", 950);
    assert_eq!(channel(&l, "11").badge_count, 2);
    let out = l.handle_event(&ChannelListEvent::MarkAsRead { channel_id: 11 });
    assert!(out.notify);
    let ch = channel(&l, "11");
    assert_eq!(ch.badge_count, 0);
    assert_eq!(ch.last_seen_timestamp, 950);
    assert!(!ch.is_unread());
}

#[test]
fn unknown_channel_is_ignored() {
    let mut l = list();
    let out = l.handle_event(&ChannelListEvent::MarkAsRead { channel_id: 99 });
    assert!(!out.notify);
    let out = l.handle_event(&ChannelListEvent::ChannelDeleted { channel_id: 99 });
    assert!(!out.notify);
    assert_eq!(l.clans[0].categories[0].channels.len(), 2);
}

#[test]
fn created_channel_is_placed_by_id() {
    let mut l = list();
    let out = l.handle_event(&ChannelListEvent::ChannelCreated {
        clan_id: 1,
        channel_id: 105,
        channel_label: "new".into(),
        channel_type: 1,
        channel_private: 0,
        category_id: 7,
        parent_id: 0,
    });
    assert!(out.notify);
    let ids: Vec<&str> = l.clans[0].categories[0].channels.iter().map(|c| c.id.as_str()).collect();
    assert_eq!(ids, ["10", "105", "11"]);
    let again = l.handle_event(&ChannelListEvent::ChannelCreated {
        clan_id: 1,
        channel_id: 105,
        channel_label: "new".into(),
        channel_type: 1,
        channel_private: 0,
        category_id: 7,
        parent_id: 0,
    });
    assert!(!again.notify);
}

#[test]
fn updated_channel_is_renamed_and_blank_label_keeps_name() {
    let mut l = list();
    l.handle_event(&ChannelListEvent::ChannelUpdated {
        channel_id: 10,
        channel_label: "renamed".into(),
        channel_private: true,
    });
    assert_eq!(channel(&l, "10").name, "renamed");
    assert!(channel(&l, "10").private);
    l.handle_event(&ChannelListEvent::ChannelUpdated {
        channel_id: 11,
        channel_label: String::new(),
        channel_private: false,
    });
    assert_eq!(channel(&l, "11").name, "ch-11");
}

#[test]
fn deleting_the_viewed_channel_clears_it() {
    let mut l = list();
    l.active_channel_id = Some("10".into());
    let out = l.handle_event(&ChannelListEvent::ChannelDeleted { channel_id: 10 });
    assert!(out.notify);
    assert!(matches!(out.event, Some(ChannelEvent::ActiveChannelChanged(None))));
    assert!(l.active_channel_id.is_none());
    assert_eq!(l.clans[0].categories[0].channels.len(), 1);
}

#[test]
fn voice_join_and_leave_update_members_once() {
    let mut l = list();
    let joined = l.handle_event(&ChannelListEvent::VoiceJoined {
        clan_id: 1,
        voice_channel_id: 11,
        user_id: 5,
    });
    assert!(joined.notify);
    l.handle_event(&ChannelListEvent::VoiceJoined { clan_id: 1, voice_channel_id: 11, user_id: 5 });
    assert_eq!(channel(&l, "11").voice_members.len(), 1);
    assert_eq!(channel(&l, "11").voice_members[0].user_id, "5");
    l.handle_event(&ChannelListEvent::VoiceLeaved {
        clan_id: 1,
        voice_channel_id: 11,
        voice_user_id: 5,
    });
    assert!(channel(&l, "11").voice_members.is_empty());
}
