use std::collections::HashMap;

use mezon_store::channel_members::{
    channel_member_from_proto, channel_member_from_redis, ChannelBucket, ChannelMember,
    ChannelUserDesc,
};
use mezon_store::group_members::UserProfile;
use mezon_store::channel_role_permissions::{
    applied_overrides, build_permission_snapshot, PermissionEntity, PermissionUpdate,
    OVERRIDE_TYPE_ALLOW, OVERRIDE_TYPE_DENY, OVERRIDE_TYPE_NEUTRAL,
};
use mezon_store::channel_users::{apply_add, apply_remove};
use mezon_store::ids::{RoleId, UserId};

#[test]
fn add_users_skips_duplicates_and_reports_change() {
    let mut existing = vec![UserId(1), UserId(2)];
    assert!(apply_add(&mut existing, &[UserId(3)]));
    assert_eq!(existing, vec![UserId(1), UserId(2), UserId(3)]);
    assert!(!apply_add(&mut existing, &[UserId(2), UserId(3)]));
    assert_eq!(existing, vec![UserId(1), UserId(2), UserId(3)]);
}

#[test]
fn remove_users_reports_change_only_when_present() {
    let mut existing = vec![UserId(1), UserId(2), UserId(3)];
    assert!(apply_remove(&mut existing, &[UserId(2)]));
    assert_eq!(existing, vec![UserId(1), UserId(3)]);
    assert!(!apply_remove(&mut existing, &[UserId(99)]));
    assert_eq!(existing, vec![UserId(1), UserId(3)]);
}

#[test]
fn add_users_dedupes_within_one_batch() {
    let mut existing = Vec::new();
    assert!(apply_add(&mut existing, &[UserId(4), UserId(4), UserId(5)]));
    assert_eq!(existing, vec![UserId(4), UserId(5)]);
}

#[test]
fn entity_maps_to_exactly_one_id_field() {
    let role = PermissionEntity::Role(RoleId(7));
    assert_eq!((role.role_id(), role.user_id()), (7, 0));
    let user = PermissionEntity::User(UserId(9));
    assert_eq!((user.role_id(), user.user_id()), (0, 9));
}

fn definitions() -> Vec<(i64, String)> {
    vec![
        (1, "send-message".into()),
        (2, "delete-message".into()),
        (3, "manage-thread".into()),
    ]
}

#[test]
fn snapshot_without_persisted_overrides_would_wipe_them_all() {
    let updates = build_permission_snapshot(&definitions(), &HashMap::new(), None);
    assert!(updates.iter().all(|u| u.override_type == OVERRIDE_TYPE_NEUTRAL));
}

#[test]
fn snapshot_sends_every_channel_scoped_permission_not_just_the_diff() {
    let pending = HashMap::from([(1, OVERRIDE_TYPE_DENY)]);
    let persisted = HashMap::from([(2, true)]);
    let updates = build_permission_snapshot(&definitions(), &pending, Some(&persisted));

    assert_eq!(updates.len(), 3);
    let by_id = updates
        .iter()
        .map(|u| (u.permission_id, u.override_type))
        .collect::<HashMap<_, _>>();
    assert_eq!(by_id[&1], OVERRIDE_TYPE_DENY);
    assert_eq!(by_id[&2], OVERRIDE_TYPE_ALLOW);
    assert_eq!(by_id[&3], OVERRIDE_TYPE_NEUTRAL);
    assert_eq!(updates[0].slug, "send-message");
}

#[test]
fn applied_overrides_drop_neutral_and_map_allow_deny() {
    let updates = vec![
        PermissionUpdate {
            permission_id: 1,
            slug: "send-message".into(),
            override_type: OVERRIDE_TYPE_ALLOW,
        },
        PermissionUpdate {
            permission_id: 2,
            slug: "delete-message".into(),
            override_type: OVERRIDE_TYPE_DENY,
        },
        PermissionUpdate {
            permission_id: 3,
            slug: "manage-thread".into(),
            override_type: OVERRIDE_TYPE_NEUTRAL,
        },
    ];
    let applied = applied_overrides(&updates);

    assert_eq!(applied.get(&1), Some(&true));
    assert_eq!(applied.get(&2), Some(&false));
    assert_eq!(applied.get(&3), None);
}

#[test]
fn channel_bucket_upserts_and_removes_by_user() {
    let mut bucket = ChannelBucket::default();
    bucket.upsert(ChannelMember { user_id: UserId(1), role_ids: vec![RoleId(5)] });
    bucket.upsert(ChannelMember { user_id: UserId(2), role_ids: vec![] });
    bucket.upsert(ChannelMember { user_id: UserId(1), role_ids: vec![RoleId(6)] });
    assert_eq!(bucket.members.len(), 2);
    assert_eq!(bucket.members[0].role_ids, vec![RoleId(6)]);
    bucket.remove(UserId(1));
    assert_eq!(bucket.members.len(), 1);
    assert_eq!(bucket.members[0].user_id, UserId(2));
}

#[test]
fn snapshot_falls_back_to_neutral_without_persisted_overrides() {
    let updates = build_permission_snapshot(&definitions(), &HashMap::new(), None);
    assert!(updates.iter().all(|u| u.override_type == OVERRIDE_TYPE_NEUTRAL));
}

fn proto_channel_user(user_id: i64) -> ChannelUserDesc {
    ChannelUserDesc {
        user_id,
        role_id: vec![5],
    }
}

#[test]
fn maps_proto_channel_user_to_domain() {
    let member = channel_member_from_proto(&proto_channel_user(9));
    assert_eq!(member.user_id, UserId(9));
    assert_eq!(member.role_ids, vec![RoleId(5)]);
}

#[test]
fn bucket_upsert_dedupes_by_user() {
    let mut bucket = ChannelBucket::default();
    bucket.upsert(channel_member_from_proto(&proto_channel_user(1)));
    bucket.upsert(channel_member_from_proto(&proto_channel_user(2)));
    bucket.upsert(channel_member_from_proto(&proto_channel_user(1)));
    assert_eq!(bucket.members.len(), 2);
}

#[test]
fn bucket_remove_drops_member() {
    let mut bucket = ChannelBucket::default();
    bucket.upsert(channel_member_from_proto(&proto_channel_user(1)));
    bucket.upsert(channel_member_from_proto(&proto_channel_user(2)));
    bucket.remove(UserId(1));
    assert_eq!(bucket.members.len(), 1);
    assert_eq!(bucket.members[0].user_id, UserId(2));
}

#[test]
fn redis_profile_maps_user_id_only() {
    let redis = UserProfile {
        user_id: 33,
        ..Default::default()
    };
    let member = channel_member_from_redis(&redis);
    assert_eq!(member.user_id, UserId(33));
    assert!(member.role_ids.is_empty());
}
