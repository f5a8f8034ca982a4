use mezon_store::channel_load::{app_channel_from, ApiChannelApp};
use mezon_store::channel::{Category, Channel, ChannelType, FAVOR_CATE_ID};
use mezon_store::channel_list::{ChannelList, ClanChannels, CollapsedCategories};
use mezon_store::channel_load::{
    channel_from_desc, channels_from_descs, clan_categories, ApiChannelDesc, BadgeDesc, VoiceUsersDesc,
};
use mezon_store::categories::CategoryDesc;
use mezon_store::favorites::{add_favorite, remove_favorite};

fn make_channel(id: &str, cat_id: &str, kind: ChannelType) -> Channel {
    Channel {
        id: id.into(),
        name: id.into(),
        channel_type: kind,
        private: false,
        clan_id: "1".into(),
        category_name: "Main".into(),
        category_id: Some(cat_id.into()),
        member_count: 0,
        badge_count: 0,
        muted: false,
        parent_id: None,
        last_seen_timestamp: 0,
        last_sent_timestamp: 0,
        voice_members: Vec::new(),
        is_favorite: false,
    }
}

fn cats() -> Vec<Category> {
    vec![
        Category {
            id: "7".into(),
            clan_id: "1".into(),
            name: "Main".into(),
            order: 0,
            channels: vec![make_channel("10", "7", ChannelType::Voice), make_channel("11", "7", ChannelType::Text)],
        },
        Category {
            id: "8".into(),
            clan_id: "1".into(),
            name: "Other".into(),
            order: 1,
            channels: vec![make_channel("12", "8", ChannelType::Text)],
        },
    ]
}

fn list() -> ChannelList {
    let mut l = ChannelList::new();
    l.insert_clan("1".into(), cats());
    l
}

#[test]
fn add_favorite_creates_the_favorites_category_first() {
    let mut c = cats();
    assert!(add_favorite(&mut c, "12", "1"));
    assert_eq!(c.len(), 3);
    assert_eq!(c[0].id, FAVOR_CATE_ID);
    assert_eq!(c[0].order, i32::MIN);
    assert_eq!(c[0].name, "favoriteChannel");
    assert_eq!(c[0].channels.len(), 1);
    assert_eq!(c[0].channels[0].id, "12");
    assert!(c[0].channels[0].is_favorite);
    assert!(c[2].channels[0].is_favorite);
    assert!(!c[1].channels[0].is_favorite);
}

#[test]
fn add_favorite_appends_once_to_existing_favorites() {
    let mut c = cats();
    add_favorite(&mut c, "12", "1");
    add_favorite(&mut c, "11", "1");
    add_favorite(&mut c, "11", "1");
    let ids: Vec<&str> = c[0].channels.iter().map(|ch| ch.id.as_str()).collect();
    assert_eq!(ids, vec!["12", "11"]);
}

#[test]
fn add_unknown_favorite_changes_nothing() {
    let mut c = cats();
    assert!(!add_favorite(&mut c, "99", "1"));
    assert_eq!(c.len(), 2);
}

#[test]
fn remove_favorite_unflags_and_drops_empty_favorites() {
    let mut c = cats();
    add_favorite(&mut c, "12", "1");
    remove_favorite(&mut c, "12");
    assert_eq!(c.len(), 2);
    assert_eq!(c[0].id, "7");
    assert!(!c[1].channels[0].is_favorite);
}

#[test]
fn remove_one_of_two_favorites_keeps_the_category() {
    let mut c = cats();
    add_favorite(&mut c, "12", "1");
    add_favorite(&mut c, "11", "1");
    remove_favorite(&mut c, "12");
    assert_eq!(c[0].id, FAVOR_CATE_ID);
    let ids: Vec<&str> = c[0].channels.iter().map(|ch| ch.id.as_str()).collect();
    assert_eq!(ids, vec!["11"]);
}

#[test]
fn channel_list_favorites_need_a_loaded_clan() {
    let mut l = list();
    assert!(l.add_channel_favorite("11", "1"));
    assert_eq!(l.categories_for_clan("1")[0].id, FAVOR_CATE_ID);
    assert!(!l.add_channel_favorite("11", "2"));
    assert!(l.remove_channel_favorite("11", "1"));
    assert_eq!(l.categories_for_clan("1").len(), 2);
    assert!(!l.remove_channel_favorite("11", "2"));
}

#[test]
fn queries_look_in_the_right_clan() {
    let mut l = list();
    assert!(l.channel_in_clan("1", "12"));
    assert!(!l.channel_in_clan("1", "99"));
    assert!(!l.channel_in_clan("2", "12"));
    assert_eq!(l.default_channel_id("1"), Some("11".to_string()));
    assert_eq!(l.default_channel_id("2"), None);
    assert!(l.categories_for_clan("2").is_empty());
    assert!(l.find_channel("11").is_none());
    l.set_active_clan("1");
    assert_eq!(l.find_channel("11").map(|c| c.id.as_str()), Some("11"));
    assert!(l.active_channel().is_none());
    assert!(l.select_channel("11"));
    assert!(!l.select_channel("11"));
    assert_eq!(l.active_channel().map(|c| c.id.as_str()), Some("11"));
}

#[test]
fn default_channel_skips_the_favorites_category() {
    let mut l = list();
    l.add_channel_favorite("12", "1");
    assert_eq!(l.default_channel_id("1"), Some("11".to_string()));
}

#[test]
fn selecting_a_channel_marks_it_read() {
    let mut l = ChannelList::new();
    let mut c = cats();
    c[1].channels[0].badge_count = 4;
    c[1].channels[0].last_sent_timestamp = 50;
    l.clans.push(ClanChannels { clan_id: "1".into(), categories: c });
    assert!(l.select_channel("12"));
    let ch = &l.clans[0].categories[1].channels[0];
    assert_eq!(ch.badge_count, 0);
    assert_eq!(ch.last_seen_timestamp, 50);
}

#[test]
fn insert_clan_replaces_a_loaded_clan() {
    let mut l = list();
    l.insert_clan("1".into(), Vec::new());
    assert_eq!(l.clans.len(), 1);
    assert!(l.categories_for_clan("1").is_empty());
    l.insert_clan("2".into(), cats());
    assert_eq!(l.clans.len(), 2);
}

#[test]
fn is_category_collapsed_toggles() {
    let mut c = CollapsedCategories::new();
    assert!(!c.is_category_collapsed("1", "7"));
    c.toggle_category("1", "7");
    assert!(c.is_category_collapsed("1", "7"));
    assert!(!c.is_category_collapsed("1", "8"));
    c.toggle_category("1", "7");
    assert!(!c.is_category_collapsed("1", "7"));
}

fn desc(id: &str, kind: u32, cat: &str, badge: i32) -> ApiChannelDesc {
    ApiChannelDesc {
        channel_id: id.into(),
        channel_label: format!("ch{id}"),
        channel_type: kind,
        clan_id: "1".into(),
        category_id: cat.into(),
        category_name: "Main".into(),
        badge_count: badge,
        member_count: -3,
        ..ApiChannelDesc::default()
    }
}

#[test]
fn channel_from_desc_maps_ids_and_voice_members() {
    let mut d = desc("10", 10, "0", 0);
    d.parent_id = "".into();
    d.channel_private = 1;
    let ch = channel_from_desc(d, 3, vec!["u1".into()], true);
    assert_eq!(ch.category_id, None);
    assert_eq!(ch.parent_id, None);
    assert!(ch.private);
    assert_eq!(ch.member_count, 0);
    assert_eq!(ch.badge_count, 3);
    assert!(ch.is_favorite);
    assert_eq!(ch.voice_members.len(), 1);
    assert_eq!(ch.voice_members[0].user_id, "u1");
    assert_eq!(ch.voice_members[0].display_name, "u1");
    assert_eq!(ch.channel_type, ChannelType::Voice);
}

#[test]
fn badges_come_from_the_badge_list_except_app_and_voice() {
    let descs = vec![desc("10", 1, "7", 2), desc("11", 10, "7", 5), desc("12", 1, "7", -4)];
    let badges = vec![
        BadgeDesc { channel_id: "10".into(), channel_type: 1, badge_count: 9 },
        BadgeDesc { channel_id: "11".into(), channel_type: 10, badge_count: 7 },
        BadgeDesc { channel_id: "10".into(), channel_type: 1, badge_count: 4 },
    ];
    let voices = vec![VoiceUsersDesc { channel_id: "11".into(), user_ids: vec!["a".into(), "b".into()] }];
    let chs = channels_from_descs(descs, &badges, &voices, &vec!["12".to_string()]);
    assert_eq!(chs[0].badge_count, 4);
    assert_eq!(chs[1].badge_count, 5);
    assert_eq!(chs[2].badge_count, 0);
    assert_eq!(chs[1].voice_members.len(), 2);
    assert!(chs[2].is_favorite);
    assert!(!chs[0].is_favorite);
}

#[test]
fn clan_categories_groups_and_puts_favorites_first() {
    let cats = vec![CategoryDesc {
        category_id: "7".into(),
        category_name: "Main".into(),
        clan_id: "1".into(),
        category_order: 1,
    }];
    let descs = vec![desc("10", 1, "7", 0), desc("11", 1, "7", 0)];
    let out = clan_categories(cats.clone(), descs.clone(), &Vec::new(), &Vec::new(), &vec!["11".to_string()]);
    assert_eq!(out[0].id, FAVOR_CATE_ID);
    assert_eq!(out[0].channels[0].id, "11");
    assert_eq!(out[1].id, "7");
    assert_eq!(out[1].channels.len(), 2);
    let plain = clan_categories(cats, descs, &Vec::new(), &Vec::new(), &Vec::new());
    assert_eq!(plain.len(), 1);
}

#[test]
fn app_channels_keep_every_field() {
    let a = app_channel_from(ApiChannelApp {
        app_id: "a".into(),
        app_name: "App".into(),
        app_logo: Some("l.png".into()),
        app_url: "https://app".into(),
        channel_id: "5".into(),
    });
    assert_eq!(a.app_id, "a");
    assert_eq!(a.app_logo.as_deref(), Some("l.png"));
    assert_eq!(a.channel_id, "5");
}

#[test]
fn unfavorite_undoes_favorite() {
    let before = cats();
    let mut c = cats();
    add_favorite(&mut c, "11", "1");
    remove_favorite(&mut c, "11");
    assert_eq!(c.len(), before.len());
    for (a, b) in c.iter().zip(before.iter()) {
        assert_eq!(a.id, b.id);
        let ai: Vec<(&str, bool)> = a.channels.iter().map(|ch| (ch.id.as_str(), ch.is_favorite)).collect();
        let bi: Vec<(&str, bool)> = b.channels.iter().map(|ch| (ch.id.as_str(), ch.is_favorite)).collect();
        assert_eq!(ai, bi);
    }
}
