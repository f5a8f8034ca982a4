use std::collections::HashMap;

use mezon_store::group_members::{
    apply_add_members, apply_remove_members, group_members_from_proto, GroupBucket, GroupMember,
    MembersResponse, User, UserProfile,
};
use mezon_store::ids::{ChannelId, UserId};

fn member(id: i64, name: &str) -> GroupMember {
    GroupMember {
        user: User {
            id: UserId(id),
            username: format!("user{id}"),
            display_name: name.to_string(),
            avatar_url: format!("{id}.png"),
            about_me: String::new(),
            create_time_seconds: 0,
        },
        online: id % 2 == 0,
    }
}

#[test]
fn names_fall_back_to_username() {
    assert_eq!(member(1, "Ann").name(), "Ann");
    assert_eq!(member(1, "").name(), "user1");
    assert_eq!(member(3, "x").avatar(), "3.png");
    assert_eq!(member(3, "x").id(), UserId(3));
}

#[test]
fn upsert_replaces_or_appends() {
    let mut bucket = GroupBucket::new();
    bucket.upsert(member(7, "bob"));
    bucket.upsert(member(8, "eve"));
    bucket.upsert(member(7, "bobby"));
    assert_eq!(bucket.as_slice().len(), 2);
    assert_eq!(bucket.get(UserId(7)).map(|m| m.name()), Some("bobby"));
    assert_eq!(bucket.as_slice()[1].id(), UserId(8));
    assert!(bucket.get(UserId(9)).is_none());
}

#[test]
fn remove_members_ignored_for_unloaded_group() {
    let mut by_channel: HashMap<i64, GroupBucket> = HashMap::new();
    assert!(!apply_remove_members(&mut by_channel, ChannelId(1), &[UserId(2)]));
    assert!(by_channel.is_empty());
}

fn proto_response(ids: &[i64]) -> MembersResponse {
    MembersResponse {
        channel_id: 1,
        user_ids: ids.to_vec(),
        limit: 500,
        usernames: ids.iter().map(|id| format!("user{id}")).collect(),
        display_names: ids.iter().map(|id| format!("User {id}")).collect(),
        avatars: ids.iter().map(|id| format!("{id}.png")).collect(),
        onlines: ids.iter().map(|id| id % 2 == 0).collect(),
    }
}

fn assert_index_consistent(bucket: &GroupBucket) {
    for (i, m) in bucket.as_slice().iter().enumerate() {
        let found = bucket.get(m.id()).unwrap();
        assert!(std::ptr::eq(found, &bucket.as_slice()[i]));
    }
}

#[test]
fn maps_parallel_arrays_to_members() {
    let members = group_members_from_proto(&proto_response(&[10, 11]));
    assert_eq!(members.len(), 2);
    assert_eq!(members[0].id(), UserId(10));
    assert_eq!(members[0].name(), "User 10");
    assert_eq!(members[0].avatar(), "10.png");
    assert!(members[0].online);
    assert!(!members[1].online);
}

#[test]
fn maps_robustly_when_arrays_shorter_than_user_ids() {
    let mut resp = proto_response(&[10, 11, 12]);
    resp.usernames = vec!["only-one".into()];
    resp.display_names = vec![];
    resp.avatars = vec![];
    resp.onlines = vec![];
    let members = group_members_from_proto(&resp);
    assert_eq!(members.len(), 3);
    assert_eq!(members[0].user.username, "only-one");
    assert_eq!(members[1].user.username, "");
    assert_eq!(members[0].name(), "only-one");
    assert_eq!(members[1].name(), "");
    assert!(!members[0].online);
}

#[test]
fn skips_zero_user_ids() {
    let members = group_members_from_proto(&proto_response(&[0, 5]));
    assert_eq!(members.len(), 1);
    assert_eq!(members[0].id(), UserId(5));
}

#[test]
fn add_members_applies_to_loaded_group() {
    let mut by_channel = HashMap::from([(1i64, GroupBucket::new())]);
    let users = vec![UserProfile {
        user_id: 7,
        username: "bob".into(),
        ..Default::default()
    }];
    assert!(apply_add_members(&mut by_channel, ChannelId(1), &users));
    let bucket = &by_channel[&1];
    assert_eq!(bucket.as_slice().len(), 1);
    assert_eq!(bucket.as_slice()[0].id(), UserId(7));
    assert_eq!(bucket.get(UserId(7)).map(GroupMember::id), Some(UserId(7)));
    assert_index_consistent(bucket);
}

#[test]
fn add_members_ignored_for_unloaded_group() {
    let mut by_channel: HashMap<i64, GroupBucket> = HashMap::new();
    let users = vec![UserProfile {
        user_id: 7,
        ..Default::default()
    }];
    assert!(!apply_add_members(&mut by_channel, ChannelId(1), &users));
    assert!(by_channel.is_empty());
}

#[test]
fn add_members_dedupes_existing_user() {
    let mut by_channel = HashMap::from([(1i64, GroupBucket::new())]);
    let users = vec![UserProfile {
        user_id: 7,
        username: "bob".into(),
        ..Default::default()
    }];
    apply_add_members(&mut by_channel, ChannelId(1), &users);
    apply_add_members(&mut by_channel, ChannelId(1), &users);
    assert_eq!(by_channel[&1].as_slice().len(), 1);
    assert_index_consistent(&by_channel[&1]);
}

#[test]
fn add_members_skips_user_zero() {
    let mut by_channel = HashMap::from([(1i64, GroupBucket::new())]);
    let users = vec![UserProfile::default()];
    assert!(apply_add_members(&mut by_channel, ChannelId(1), &users));
    assert!(by_channel[&1].as_slice().is_empty());
}

#[test]
fn remove_members_drops_users() {
    let mut by_channel = HashMap::from([(
        1i64,
        GroupBucket::from_members(group_members_from_proto(&proto_response(&[1, 2, 3]))),
    )]);
    assert!(apply_remove_members(&mut by_channel, ChannelId(1), &[UserId(2)]));
    let bucket = &by_channel[&1];
    let ids: Vec<UserId> = bucket.as_slice().iter().map(GroupMember::id).collect();
    assert_eq!(ids, vec![UserId(1), UserId(3)]);
    assert!(bucket.get(UserId(2)).is_none());
    assert_index_consistent(bucket);
}
