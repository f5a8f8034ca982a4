use std::collections::HashMap;

use mezon_store::ids::{ChannelId, ClanId, RoleId, UserId};
use mezon_store::roles::{
    apply_order_ranks, everyone_slug, parse_role_color, reconcile_order, role_styles_for_clan,
    roles_for_in, roles_map_from_proto, ClanRoleDetail, ClanRoles, MemberRoles, PermissionDesc,
    RoleColor, RoleDesc, RoleStyle, DEFAULT_ROLE_COLOR,
};

fn detail(name: &str, order: i32) -> ClanRoleDetail {
    ClanRoleDetail {
        name: name.into(),
        color: "#fff".into(),
        icon: String::new(),
        slug: name.to_lowercase(),
        active: true,
        order_role: order,
        max_level_permission: 0,
        permissions: Vec::new(),
        member_count: 0,
        member_ids: Vec::<UserId>::new(),
        channel_ids: Vec::<ChannelId>::new(),
        role_channel_active: false,
        creator_id: UserId(0),
    }
}

#[test]
fn roles_for_returns_empty_for_unknown_clan() {
    let by_clan: HashMap<i64, ClanRoles> = HashMap::new();
    assert!(roles_for_in(&by_clan, ClanId(99), &[RoleId(1)]).is_empty());
}

#[test]
fn roles_for_returns_matching_roles() {
    let mut by_clan: HashMap<i64, ClanRoles> = HashMap::new();
    by_clan.insert(
        1,
        roles_map_from_proto(vec![
            make_role(10, "Admin", "#f00"),
            make_role(20, "Mod", "#0f0"),
        ]),
    );
    let result = roles_for_in(&by_clan, ClanId(1), &[RoleId(10), RoleId(20), RoleId(99)]);
    assert_eq!(result.len(), 2);
    assert!(result.iter().any(|r| r.name == "Admin"));
    assert!(result.iter().any(|r| r.name == "Mod"));
}

#[test]
fn reconcile_order_keeps_roles_created_during_an_in_flight_save() {
    let previous = vec![RoleId(1), RoleId(2), RoleId(3)];
    let current = vec![RoleId(3), RoleId(1), RoleId(2), RoleId(9)];

    assert_eq!(
        reconcile_order(&previous, &current),
        vec![RoleId(1), RoleId(2), RoleId(3), RoleId(9)],
        "rollback restores the old relative order but must not drop the new role"
    );
}

#[test]
fn reconcile_order_drops_roles_deleted_during_an_in_flight_save() {
    let previous = vec![RoleId(1), RoleId(2), RoleId(3)];
    let current = vec![RoleId(1), RoleId(3)];
    assert_eq!(
        reconcile_order(&previous, &current),
        vec![RoleId(1), RoleId(3)]
    );
}

#[test]
fn everyone_slug_names_the_clan() {
    assert_eq!(everyone_slug(ClanId(42)), "everyone-42");
    assert_eq!(everyone_slug(ClanId(-7)), "everyone--7");
}

#[test]
fn order_ranks_are_one_based_positions() {
    let mut roles = ClanRoles::new();
    roles.by_id.insert(1, detail("A", 9));
    roles.by_id.insert(2, detail("B", 9));
    roles.by_id.insert(3, detail("C", 9));
    roles.order = vec![RoleId(3), RoleId(1), RoleId(77)];
    apply_order_ranks(&mut roles);
    assert_eq!(roles.by_id[&3].order_role, 1);
    assert_eq!(roles.by_id[&1].order_role, 2);
    assert_eq!(roles.by_id[&2].order_role, 9);
    assert_eq!(roles.by_id.len(), 3);
}

fn make_role(id: i64, title: &str, color: &str) -> RoleDesc {
    RoleDesc {
        id,
        title: title.into(),
        color: color.into(),
        active: 1,
        ..Default::default()
    }
}

fn make_role_with_order(id: i64, title: &str, color: &str, order_role: i32) -> RoleDesc {
    RoleDesc {
        order_role,
        ..make_role(id, title, color)
    }
}

fn styled_role(id: i64, color: &str, icon: &str) -> RoleDesc {
    RoleDesc {
        id,
        title: format!("role-{id}"),
        color: color.into(),
        role_icon: icon.into(),
        active: 1,
        ..Default::default()
    }
}

fn member_with_roles(user_id: i64, role_ids: &[i64]) -> MemberRoles {
    MemberRoles {
        user_id: UserId(user_id),
        role_ids: role_ids.iter().copied().map(RoleId).collect(),
    }
}

fn style_of(styles: &[(UserId, RoleStyle)], user: UserId) -> Option<&RoleStyle> {
    styles.iter().rev().find(|(u, _)| *u == user).map(|(_, s)| s)
}

#[test]
fn maps_proto_roles_to_domain() {
    let roles = roles_map_from_proto(vec![
        make_role(1, "Admin", "#ff0000"),
        make_role(2, "Member", "#00ff00"),
    ]);
    assert_eq!(roles.by_id.len(), 2);
    assert_eq!(roles.by_id[&1].name, "Admin");
    assert_eq!(roles.by_id[&1].color, "#ff0000");
    assert_eq!(roles.by_id[&2].name, "Member");
}

#[test]
fn sorts_by_order_role() {
    let mut high = make_role(9, "Zulu", "");
    high.order_role = 3;
    let mut mid = make_role(3, "Alpha", "");
    mid.order_role = 1;
    let mut low = make_role(7, "Mike", "");
    low.order_role = 2;
    let roles = roles_map_from_proto(vec![high, mid, low]);
    assert_eq!(roles.order, vec![RoleId(3), RoleId(7), RoleId(9)]);
}

#[test]
fn sorts_roles_by_order_role_ascending() {
    let roles = roles_map_from_proto(vec![
        make_role_with_order(9, "Zulu", "", 5),
        make_role_with_order(3, "Alpha", "", 1),
        make_role_with_order(7, "Mike", "", 3),
    ]);
    assert_eq!(roles.order, vec![RoleId(3), RoleId(7), RoleId(9)]);
}

#[test]
fn skips_role_with_zero_id() {
    let roles = roles_map_from_proto(vec![make_role(0, "Bad", ""), make_role(1, "Good", "blue")]);
    assert!(!roles.by_id.contains_key(&0));
    assert!(roles.by_id.contains_key(&1));
    assert_eq!(roles.order, vec![RoleId(1)]);
}

#[test]
fn unordered_and_inactive_roles() {
    let mut inactive = make_role(4, "Gone", "");
    inactive.active = 0;
    let roles = roles_map_from_proto(vec![
        make_role(8, "Plain", ""),
        inactive,
        make_role_with_order(6, "First", "", 2),
        make_role(5, "Later", ""),
        make_role_with_order(8, "Again", "", 0),
    ]);
    assert_eq!(roles.order, vec![RoleId(6), RoleId(8), RoleId(5)]);
    assert_eq!(roles.by_id[&8].name, "Again");
    assert!(!roles.by_id.contains_key(&4));
}

#[test]
fn maps_channel_ids_and_role_channel_active_from_proto() {
    let roles = roles_map_from_proto(vec![RoleDesc {
        channel_ids: vec![7, 9],
        role_channel_active: 1,
        permission_list: Some(vec![PermissionDesc {
            id: 3,
            slug: "send".into(),
            title: "Send".into(),
            active: 1,
        }]),
        role_user_ids: Some(vec![11, 12]),
        ..make_role(10, "Admin", "#f00")
    }]);
    let role = &roles.by_id[&10];
    assert_eq!(role.channel_ids, vec![ChannelId(7), ChannelId(9)]);
    assert!(role.role_channel_active);
    assert_eq!(role.member_count, 2);
    assert_eq!(role.member_ids, vec![UserId(11), UserId(12)]);
    assert!(role.permissions[0].active);
}

#[test]
fn role_style_takes_color_from_first_role_and_first_non_empty_icon() {
    let roles = roles_map_from_proto(vec![
        styled_role(10, "", ""),
        styled_role(20, "#112233", "icon-b.png"),
        styled_role(30, "#445566", "icon-c.png"),
    ]);
    let member = member_with_roles(5, &[30, 20, 10]);
    let styles = role_styles_for_clan(&roles, &[member]);

    let style = style_of(&styles, UserId(5)).expect("style for member");
    assert_eq!(style.color, parse_role_color(DEFAULT_ROLE_COLOR));
    assert_eq!(style.icon.as_deref(), Some("icon-b.png"));
}

#[test]
fn role_style_keeps_first_role_color_even_when_later_role_has_one() {
    let roles = roles_map_from_proto(vec![
        styled_role(10, "#aabbcc", ""),
        styled_role(20, "#112233", "icon-b.png"),
    ]);
    let member = member_with_roles(5, &[10, 20]);
    let styles = role_styles_for_clan(&roles, &[member]);

    let style = style_of(&styles, UserId(5)).expect("style for member");
    assert_eq!(style.color, parse_role_color("#aabbcc"));
    assert_eq!(style.icon.as_deref(), Some("icon-b.png"));
}

#[test]
fn role_style_orders_by_role_order_not_by_member_role_ids_order() {
    let roles = roles_map_from_proto(vec![
        make_role_with_order(10, "Low", "#aabbcc", 2),
        make_role_with_order(20, "High", "#112233", 1),
    ]);
    assert_eq!(roles.order, vec![RoleId(20), RoleId(10)]);
    let member = member_with_roles(5, &[10, 20]);
    let styles = role_styles_for_clan(&roles, &[member]);

    assert_eq!(
        style_of(&styles, UserId(5)).and_then(|style| style.color),
        parse_role_color("#112233")
    );
}

#[test]
fn role_style_skips_members_without_known_roles() {
    let roles = roles_map_from_proto(vec![styled_role(10, "#aabbcc", "icon.png")]);
    let no_roles = member_with_roles(5, &[]);
    let unknown_role = member_with_roles(6, &[99]);
    let styles = role_styles_for_clan(&roles, &[no_roles, unknown_role]);

    assert!(styles.is_empty());
}

#[test]
fn role_style_has_no_icon_when_every_role_icon_is_empty() {
    let roles = roles_map_from_proto(vec![
        styled_role(10, "#aabbcc", ""),
        styled_role(20, "", ""),
    ]);
    let member = member_with_roles(5, &[10, 20]);
    let styles = role_styles_for_clan(&roles, &[member]);

    assert!(style_of(&styles, UserId(5)).unwrap().icon.is_none());
}

#[test]
fn parse_role_color_accepts_shorthand_and_ignores_alpha() {
    assert_eq!(parse_role_color("#fff"), parse_role_color("#ffffff"));
    assert_eq!(parse_role_color("#ff000080"), parse_role_color("#ff0000"));
    assert!(parse_role_color("").is_none());
    assert!(parse_role_color("not-a-color").is_none());
    assert!(parse_role_color("日本語").is_none());
    assert!(parse_role_color("#日本").is_none());
}

#[test]
fn parse_role_color_reads_channels() {
    assert_eq!(
        parse_role_color(" #1a2B3c "),
        Some(RoleColor { r: 0x1a, g: 0x2b, b: 0x3c })
    );
    assert_eq!(parse_role_color("abc"), Some(RoleColor { r: 0xaa, g: 0xbb, b: 0xcc }));
    assert_eq!(parse_role_color("#12345"), None);
    assert_eq!(parse_role_color("#12x456"), None);
}
