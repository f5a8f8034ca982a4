use std::collections::{HashMap, HashSet};

use mezon_store::categories::{build_categories, CategoryDesc};

use mezon_store::channel::{
    assemble_with_favorites, insert_channel, remove_channel, update_channel, Category, Channel,
    ChannelType, VoiceMember, FAVOR_CATE_ID,
};

fn make_channel(id: &str, name: &str, cat_id: &str) -> Channel {
    Channel {
        id: id.into(),
        name: name.into(),
        channel_type: ChannelType::Text,
        private: false,
        clan_id: "1".into(),
        category_name: "General".into(),
        category_id: Some(cat_id.into()),
        member_count: 0,
        badge_count: 0,
        muted: false,
        parent_id: None,
        last_seen_timestamp: 0,
        last_sent_timestamp: 0,
        voice_members: Vec::new(),
        is_favorite: false,
    }
}

fn make_thread(id: &str, parent_id: &str, cat_id: &str) -> Channel {
    let mut ch = make_channel(id, id, cat_id);
    ch.parent_id = Some(parent_id.into());
    ch
}

fn categories() -> Vec<Category> {
    vec![Category {
        id: "cat1".into(),
        clan_id: "1".into(),
        name: "General".into(),
        order: 0,
        channels: vec![
            make_channel("10", "alpha", "cat1"),
            make_channel("11", "beta", "cat1"),
        ],
    }]
}

#[test]
fn channel_type_from_raw_maps_all_known() {
    assert_eq!(ChannelType::from_raw(1), ChannelType::Text);
    assert_eq!(ChannelType::from_raw(10), ChannelType::Voice);
    assert_eq!(ChannelType::from_raw(6), ChannelType::Stream);
    assert_eq!(ChannelType::from_raw(7), ChannelType::Thread);
    assert_eq!(ChannelType::from_raw(8), ChannelType::App);
    assert_eq!(ChannelType::from_raw(5), ChannelType::Forum);
    assert_eq!(ChannelType::from_raw(9), ChannelType::Announcement);
    assert!(matches!(
        ChannelType::from_raw(99),
        ChannelType::Unknown(99)
    ));
}

#[test]
fn channel_is_unread_uses_badge_count_and_timestamps() {
    let mut ch = make_channel("1", "test", "cat1");
    assert!(!ch.is_unread());
    ch.badge_count = 5;
    assert!(ch.is_unread());
    ch.badge_count = 0;
    ch.last_sent_timestamp = 100;
    ch.last_seen_timestamp = 50;
    assert!(ch.is_unread());
    ch.last_seen_timestamp = 100;
    assert!(!ch.is_unread());
}

#[test]
fn remove_channel_drops_it_and_prunes_empty_category() {
    let mut c = categories();
    assert!(remove_channel(&mut c, "10"));
    assert_eq!(c[0].channels.len(), 1);
    assert!(remove_channel(&mut c, "11"));
    assert!(c.is_empty());
}

#[test]
fn remove_channel_unknown_is_noop() {
    let mut c = categories();
    assert!(!remove_channel(&mut c, "999"));
    assert_eq!(c[0].channels.len(), 2);
}

#[test]
fn update_channel_renames_and_sets_private() {
    let mut c = categories();
    assert!(update_channel(&mut c, "10", Some("renamed".into()), true));
    assert_eq!(c[0].channels[0].name, "renamed");
    assert!(c[0].channels[0].private);
}

#[test]
fn update_channel_blank_label_keeps_name() {
    let mut c = categories();
    assert!(update_channel(&mut c, "11", None, true));
    assert_eq!(c[0].channels[1].name, "beta");
    assert!(c[0].channels[1].private);
}

#[test]
fn update_channel_unknown_is_noop() {
    let mut c = categories();
    assert!(!update_channel(&mut c, "999", Some("x".into()), true));
}

#[test]
fn favorites_mapping_sets_is_favorite_flag() {
    let ch = Channel {
        id: "42".into(),
        name: "fav".into(),
        channel_type: ChannelType::Text,
        private: false,
        clan_id: "1".into(),
        category_name: "General".into(),
        category_id: Some("c1".into()),
        member_count: 0,
        badge_count: 0,
        muted: false,
        parent_id: None,
        last_seen_timestamp: 0,
        last_sent_timestamp: 0,
        voice_members: Vec::new(),
        is_favorite: true,
    };
    assert!(ch.is_favorite);
}

#[test]
fn synthetic_favor_cate_is_element_zero() {
    let mut general = make_channel("1", "general", "cat1");
    general.clan_id = "clan1".into();
    general.category_name = "Main".into();
    let mut fav = make_channel("2", "fav-ch", "cat1");
    fav.clan_id = "clan1".into();
    fav.category_name = "Main".into();
    fav.is_favorite = true;
    let channels_all = vec![general, fav];

    let favor_channels: Vec<Channel> = channels_all
        .iter()
        .filter(|ch| ch.is_favorite)
        .cloned()
        .collect();

    let mut categories = vec![Category {
        id: "cat1".into(),
        clan_id: "clan1".into(),
        name: "Main".into(),
        order: 0,
        channels: channels_all,
    }];

    if !favor_channels.is_empty() {
        categories.insert(
            0,
            Category {
                id: FAVOR_CATE_ID.into(),
                clan_id: "clan1".into(),
                name: "favoriteChannel".into(),
                order: i32::MIN,
                channels: favor_channels,
            },
        );
    }

    assert_eq!(categories[0].id, FAVOR_CATE_ID);
    assert_eq!(categories[0].channels.len(), 1);
    assert_eq!(categories[0].channels[0].id, "2");
    assert_eq!(categories[1].id, "cat1");
}

#[test]
fn assemble_with_favorites_puts_favorites_first() {
    let mut c = categories();
    c[0].channels[1].is_favorite = true;
    let favorite_ids: HashSet<String> = ["11".to_string()].into_iter().collect();
    let result = assemble_with_favorites(c, &favorite_ids, "1");
    assert_eq!(result[0].id, FAVOR_CATE_ID);
    assert_eq!(result[0].channels.len(), 1);
    assert_eq!(result[0].channels[0].id, "11");
    assert_eq!(result[0].clan_id, "1");
    assert_eq!(result[0].order, i32::MIN);
    assert_eq!(result[0].name, "favoriteChannel");
    assert_eq!(result[1].id, "cat1");
}

#[test]
fn assemble_with_favorites_no_favorites_is_noop() {
    let api_cats = vec![CategoryDesc {
        category_id: "c1".into(),
        category_name: "General".into(),
        clan_id: "clan1".into(),
        category_order: 0,
    }];
    let mut channels = vec![make_channel("1", "normal", "c1")];
    let favorite_ids: HashSet<String> = HashSet::new();
    let categories = build_categories(api_cats, &mut channels);
    let result = assemble_with_favorites(categories, &favorite_ids, "clan1");

    assert_eq!(result.len(), 1);
    assert_eq!(result[0].id, "c1");
}

#[test]
fn assemble_with_favorites_yields_favor_cate_as_element_zero_on_first_load() {
    let api_cats = vec![CategoryDesc {
        category_id: "c1".into(),
        category_name: "General".into(),
        clan_id: "clan1".into(),
        category_order: 0,
    }];
    let mut channels = vec![
        {
            let mut ch = make_channel("1", "normal", "c1");
            ch.clan_id = "clan1".into();
            ch
        },
        {
            let mut ch = make_channel("2", "fav-ch", "c1");
            ch.clan_id = "clan1".into();
            ch.is_favorite = true;
            ch
        },
    ];
    let favorite_ids: HashSet<String> = ["2".to_string()].into_iter().collect();
    let categories = build_categories(api_cats, &mut channels);
    let result = assemble_with_favorites(categories, &favorite_ids, "clan1");

    assert_eq!(result[0].id, FAVOR_CATE_ID);
    assert_eq!(result[0].channels.len(), 1);
    assert_eq!(result[0].channels[0].id, "2");
    assert_eq!(result[1].id, "c1");
}

#[test]
fn build_categories_orders_by_category_order() {
    let api_cats = vec![
        CategoryDesc {
            category_id: "c1".into(),
            category_name: "Bravo".into(),
            clan_id: "1".into(),
            category_order: 2,
        },
        CategoryDesc {
            category_id: "c2".into(),
            category_name: "Alpha".into(),
            clan_id: "1".into(),
            category_order: 1,
        },
    ];
    let mut channels = vec![
        make_channel("10", "ch1", "c1"),
        make_channel("11", "ch2", "c2"),
    ];
    let cats = build_categories(api_cats, &mut channels);
    assert_eq!(cats[0].name, "Alpha");
    assert_eq!(cats[1].name, "Bravo");
}

#[test]
fn build_categories_threads_nested_after_parent() {
    let api_cats = vec![CategoryDesc {
        category_id: "c1".into(),
        category_name: "General".into(),
        clan_id: "1".into(),
        category_order: 0,
    }];
    let mut channels = vec![
        make_channel("20", "parent-b", "c1"),
        make_channel("10", "parent-a", "c1"),
        make_thread("15", "10", "c1"),
        make_thread("25", "20", "c1"),
        make_thread("12", "10", "c1"),
    ];
    let cats = build_categories(api_cats, &mut channels);
    assert_eq!(cats.len(), 1);
    let ids: Vec<&str> = cats[0].channels.iter().map(|c| c.id.as_str()).collect();
    assert_eq!(ids, vec!["10", "12", "15", "20", "25"]);
    assert!(channels.is_empty());
}

#[test]
fn build_categories_channel_id_ordering_within_category() {
    let api_cats = vec![CategoryDesc {
        category_id: "c1".into(),
        category_name: "General".into(),
        clan_id: "1".into(),
        category_order: 0,
    }];
    let mut channels = vec![
        make_channel("30", "z", "c1"),
        make_channel("10", "a", "c1"),
        make_channel("20", "m", "c1"),
    ];
    let cats = build_categories(api_cats, &mut channels);
    let ids: Vec<&str> = cats[0].channels.iter().map(|c| c.id.as_str()).collect();
    assert_eq!(ids, vec!["10", "20", "30"]);
}

#[test]
fn build_categories_threads_do_not_appear_as_top_level_siblings() {
    let api_cats = vec![CategoryDesc {
        category_id: "c1".into(),
        category_name: "General".into(),
        clan_id: "1".into(),
        category_order: 0,
    }];
    let mut channels = vec![
        make_channel("10", "parent", "c1"),
        make_thread("11", "10", "c1"),
    ];
    let cats = build_categories(api_cats, &mut channels);
    let top_level: Vec<&str> = cats[0]
        .channels
        .iter()
        .filter(|ch| ch.parent_id.is_none())
        .map(|c| c.id.as_str())
        .collect();
    assert_eq!(top_level, vec!["10"]);
    let thread_row = cats[0].channels.iter().find(|c| c.id == "11").unwrap();
    assert_eq!(thread_row.parent_id.as_deref(), Some("10"));
}

#[test]
fn build_categories_unknown_category_is_general_and_last() {
    let api_cats = vec![CategoryDesc {
        category_id: "c1".into(),
        category_name: "Main".into(),
        clan_id: "1".into(),
        category_order: 5,
    }];
    let mut nowhere = make_channel("40", "stray", "c9");
    nowhere.category_id = None;
    let mut channels = vec![nowhere, make_channel("10", "a", "c1"), make_thread("50", "77", "c1")];
    let cats = build_categories(api_cats, &mut channels);
    assert_eq!(cats.len(), 2);
    assert_eq!(cats[0].id, "c1");
    assert_eq!(cats[0].name, "Main");
    assert_eq!(cats[1].id, "0");
    assert_eq!(cats[1].name, "General");
    assert_eq!(cats[1].order, i32::MAX);
    // a thread whose parent is not listed is dropped
    assert_eq!(cats[0].channels.len(), 1);
}

#[test]
fn badge_update_increments_and_mark_read_resets() {
    let mut c = categories();
    let ch = &mut c[0].channels[0];
    ch.badge_count = 3;
    ch.badge_count = ch.badge_count.saturating_add(1);
    assert_eq!(ch.badge_count, 4);
    ch.badge_count = 0;
    assert_eq!(ch.badge_count, 0);
}

#[test]
fn badge_map_excludes_app_and_voice_channel_types() {
    let badge_descs: Vec<(String, u32, i32)> = vec![
        ("text_ch".into(), 1, 5),
        ("app_ch".into(), 8, 99),
        ("voice_ch".into(), 10, 77),
    ];

    let badge_map: HashMap<String, i32> = badge_descs
        .into_iter()
        .filter(|d| {
            !matches!(
                ChannelType::from_raw(d.1),
                ChannelType::App | ChannelType::Voice
            )
        })
        .map(|d| (d.0, d.2))
        .collect();

    assert_eq!(badge_map.get("text_ch"), Some(&5));
    assert!(!badge_map.contains_key("app_ch"));
    assert!(!badge_map.contains_key("voice_ch"));
}

#[test]
fn voice_join_leave_updates_member_list() {
    let mut c = categories();
    let ch = &mut c[0].channels[0];
    ch.voice_members.push(VoiceMember {
        user_id: "u1".into(),
        display_name: "u1".into(),
        avatar_url: String::new(),
    });
    assert!(ch.voice_members.iter().any(|m| m.user_id == "u1"));
    ch.voice_members.retain(|m| m.user_id != "u1");
    assert!(ch.voice_members.is_empty());
}

#[test]
fn voice_member_resolution_fallback_to_user_id() {
    let vm = VoiceMember {
        user_id: "uid42".into(),
        display_name: "uid42".into(),
        avatar_url: String::new(),
    };
    assert_eq!(vm.display_name, vm.user_id);
    assert!(vm.avatar_url.is_empty());
}

#[test]
fn is_category_collapsed_defaults_to_false() {
    let collapsed: HashSet<(String, String)> = HashSet::new();
    let is_collapsed =
        |clan: &str, cat: &str| collapsed.contains(&(clan.to_string(), cat.to_string()));
    assert!(!is_collapsed("clan1", "cat1"));
}

#[test]
fn favorites_removal_keeps_regular_categories() {
    let mut c = categories();
    let mut favs = make_channel("10", "alpha", "cat1");
    favs.is_favorite = true;
    c.insert(
        0,
        Category {
            id: FAVOR_CATE_ID.into(),
            clan_id: "1".into(),
            name: "favoriteChannel".into(),
            order: i32::MIN,
            channels: vec![favs],
        },
    );
    assert!(remove_channel(&mut c, "10"));
    assert_eq!(c.len(), 1);
    assert_eq!(c[0].id, "cat1");
    assert_eq!(c[0].channels.len(), 1);
}

#[test]
fn insert_channel_places_by_id_and_skips_duplicates() {
    let mut c = categories();
    assert!(insert_channel(&mut c, make_channel("105", "new", "cat1")));
    let ids: Vec<&str> = c[0].channels.iter().map(|x| x.id.as_str()).collect();
    assert_eq!(ids, vec!["10", "105", "11"]);
    assert!(!insert_channel(&mut c, make_channel("10", "again", "cat1")));
    assert_eq!(c[0].channels.len(), 3);
}

#[test]
fn insert_thread_goes_after_parent_and_its_threads() {
    let mut c = categories();
    assert!(insert_channel(&mut c, make_thread("50", "10", "x")));
    assert!(insert_channel(&mut c, make_thread("40", "10", "x")));
    let ids: Vec<&str> = c[0].channels.iter().map(|x| x.id.as_str()).collect();
    assert_eq!(ids, vec!["10", "50", "40", "11"]);
    assert_eq!(c[0].channels[1].category_name, "General");
}

#[test]
fn insert_into_unknown_category_creates_general() {
    let mut c = categories();
    let mut ch = make_channel("77", "lost", "nowhere");
    ch.category_id = Some("nowhere".into());
    assert!(insert_channel(&mut c, ch));
    assert_eq!(c.len(), 2);
    assert_eq!(c[1].id, "0");
    assert_eq!(c[1].name, "General");
    assert_eq!(c[1].order, i32::MAX);
    assert_eq!(c[1].channels[0].category_name, "General");
}
