use mezon_store::events::{
    apply_event_push, nonzero_channel, retain_live, visible_events, ClanEventItem, EventDesc, EventPush,
    EVENT_COMPLETED, EVENT_CREATED, EVENT_DELETED, EVENT_INTERESTED, EVENT_UNINTERESTED, EVENT_UPDATED,
};
use mezon_store::ids::{ChannelId, UserId};

fn listed(id: i64, end: u32, status: i32) -> ClanEventItem {
    ClanEventItem::from_api(EventDesc {
        id,
        title: format!("event {id}"),
        creator_id: 1,
        end_time_seconds: end,
        event_status: status,
        user_ids: vec![1, 2],
        ..EventDesc::default()
    })
}

fn push(action: i32, event_id: i64, user_id: i64) -> EventPush {
    EventPush {
        action,
        event_id,
        user_id,
        creator_id: 5,
        title: "pushed".to_string(),
        channel_id: 8,
        ..EventPush::default()
    }
}

#[test]
fn from_api_maps_zero_channels_to_none() {
    let e = ClanEventItem::from_api(EventDesc {
        id: 3,
        channel_voice_id: 0,
        channel_id: 4,
        meet_room_link: Some("room".to_string()),
        user_ids: vec![9],
        ..EventDesc::default()
    });
    assert_eq!(e.channel_voice_id, None);
    assert_eq!(e.channel_id, Some(ChannelId(4)));
    assert_eq!(e.external_link, "room");
    assert_eq!(e.user_ids, vec![UserId(9)]);
    assert_eq!(nonzero_channel(0), None);
}

#[test]
fn created_push_adds_event_with_creator_as_user() {
    let mut events = vec![listed(1, 0, 0)];
    let fetch = apply_event_push(&mut events, &push(EVENT_CREATED, 2, 0), 100);
    assert!(!fetch);
    assert_eq!(events.len(), 2);
    assert_eq!(events[1].id, 2);
    assert_eq!(events[1].user_ids, vec![UserId(5)]);
    assert_eq!(events[1].channel_id, Some(ChannelId(8)));
}

#[test]
fn created_push_replaces_existing_event() {
    let mut events = vec![listed(1, 0, 0)];
    apply_event_push(&mut events, &push(EVENT_CREATED, 1, 0), 100);
    assert_eq!(events.len(), 1);
    assert_eq!(events[0].title, "pushed");
}

#[test]
fn updated_push_keeps_users_and_completed_removes() {
    let mut events = vec![listed(1, 0, 2), listed(2, 0, 0)];
    apply_event_push(&mut events, &push(EVENT_UPDATED, 1, 0), 100);
    assert_eq!(events[0].title, "pushed");
    assert_eq!(events[0].user_ids, vec![UserId(1), UserId(2)]);
    assert_eq!(events[0].event_status, 2);
    let mut done = push(EVENT_UPDATED, 2, 0);
    done.event_status = EVENT_COMPLETED;
    apply_event_push(&mut events, &done, 100);
    assert_eq!(events.len(), 1);
    assert_eq!(events[0].id, 1);
}

#[test]
fn deleted_push_removes_event() {
    let mut events = vec![listed(1, 0, 0), listed(2, 0, 0)];
    apply_event_push(&mut events, &push(EVENT_DELETED, 1, 0), 100);
    assert_eq!(events.len(), 1);
    assert_eq!(events[0].id, 2);
}

#[test]
fn interest_adds_once_and_uninterest_removes() {
    let mut events = vec![listed(1, 0, 0)];
    apply_event_push(&mut events, &push(EVENT_INTERESTED, 1, 3), 100);
    apply_event_push(&mut events, &push(EVENT_INTERESTED, 1, 3), 100);
    assert_eq!(events[0].user_ids, vec![UserId(1), UserId(2), UserId(3)]);
    apply_event_push(&mut events, &push(EVENT_UNINTERESTED, 1, 1), 100);
    assert_eq!(events[0].user_ids, vec![UserId(2), UserId(3)]);
}

#[test]
fn unknown_action_asks_for_a_fetch() {
    let mut events = vec![listed(1, 0, 0)];
    assert!(apply_event_push(&mut events, &push(99, 1, 0), 100));
    assert_eq!(events.len(), 1);
}

#[test]
fn ended_and_completed_events_are_dropped() {
    let mut events = vec![listed(1, 50, 0), listed(2, 150, 0), listed(3, 0, EVENT_COMPLETED), listed(4, 0, 0)];
    assert!(retain_live(&mut events, 100));
    let ids: Vec<i64> = events.iter().map(|e| e.id).collect();
    assert_eq!(ids, vec![2, 4]);
    assert!(!retain_live(&mut events, 100));
}

#[test]
fn visible_events_hide_private_and_foreign_channels() {
    let mut private = listed(1, 0, 0);
    private.is_private = true;
    let mut foreign = listed(2, 0, 0);
    foreign.channel_id = Some(ChannelId(77));
    let mut inside = listed(3, 0, 0);
    inside.channel_id = Some(ChannelId(8));
    let events = vec![private, foreign, inside, listed(4, 10, 0)];
    let shown: Vec<i64> = visible_events(&events, 100, Some(UserId(9)), &vec![8]).iter().map(|e| e.id).collect();
    assert_eq!(shown, vec![3]);
    let shown: Vec<i64> = visible_events(&events, 100, Some(UserId(1)), &vec![8]).iter().map(|e| e.id).collect();
    assert_eq!(shown, vec![1, 3]);
}
