use mezon_store::clan::{
    apply_badges, apply_created_clan, update_clan, ApiClanDesc, Clan, ClanList, CreateClanError,
};

fn make_clan(id: &str, name: &str, avatar_url: Option<&str>) -> Clan {
    Clan {
        id: id.into(),
        name: name.into(),
        avatar_url: avatar_url.map(|s| s.into()),
        banner_url: None,
        badge_count: 0,
        has_unread: false,
        muted: false,
        welcome_channel_id: None,
    }
}

fn clans() -> Vec<Clan> {
    vec![
        make_clan("1", "One", None),
        make_clan("2", "Two", Some("old.png")),
    ]
}

#[test]
fn update_clan_sets_name_and_logo() {
    let mut c = clans();
    assert!(update_clan(
        &mut c,
        "1",
        Some("NewName".into()),
        "logo.png".into()
    ));
    assert_eq!(c[0].name, "NewName");
    assert_eq!(c[0].avatar_url.as_deref(), Some("logo.png"));
}

#[test]
fn update_clan_blank_name_keeps_name_and_empty_logo_clears_avatar() {
    let mut c = clans();
    assert!(update_clan(&mut c, "2", None, String::new()));
    assert_eq!(c[1].name, "Two");
    assert_eq!(c[1].avatar_url, None);
}

#[test]
fn update_clan_unknown_is_noop() {
    let mut c = clans();
    assert!(!update_clan(&mut c, "999", Some("x".into()), "y".into()));
}

#[test]
fn clan_from_api_desc_zeroes_badge_and_muted() {
    let desc = ApiClanDesc {
        clan_id: "42".into(),
        clan_name: "Alpha".into(),
        creator_id: String::new(),
        logo: "logo.png".into(),
        banner: String::new(),
        welcome_channel_id: String::new(),
    };
    let clan = Clan::from_desc(desc);
    assert_eq!(clan.badge_count, 0);
    assert!(!clan.has_unread);
    assert!(!clan.muted);
    assert_eq!(clan.avatar_url.as_deref(), Some("logo.png"));
    assert!(clan.welcome_channel_id.is_none());
}

#[test]
fn badge_map_applies_to_clans_on_reload() {
    let mut c = clans();
    let badges = vec![
        ("1".to_string(), 3_i32, true),
        ("99".to_string(), 5_i32, false),
    ];
    apply_badges(&mut c, &badges);
    assert_eq!(c[0].badge_count, 3);
    assert!(c[0].has_unread);
    assert_eq!(c[1].badge_count, 0);
    assert!(!c[1].has_unread);
}

#[test]
fn negative_badges_count_as_zero() {
    let mut c = clans();
    apply_badges(&mut c, &vec![("2".to_string(), -4, true)]);
    assert_eq!(c[1].badge_count, 0);
    assert!(c[1].has_unread);
}

#[test]
fn channel_message_increments_badge_when_not_muted() {
    let mut list = ClanList::new();
    list.clans = clans();
    assert!(list.note_channel_message("1"));
    assert_eq!(list.clans[0].badge_count, 1);
    assert!(list.clans[0].has_unread);
}

#[test]
fn channel_message_skipped_when_muted() {
    let mut list = ClanList::new();
    list.clans = clans();
    list.clans[0].muted = true;
    assert!(!list.note_channel_message("1"));
    assert_eq!(list.clans[0].badge_count, 0);
    assert!(!list.clans[0].has_unread);
}

#[test]
fn mark_as_read_resets_badge_and_unread() {
    let mut list = ClanList::new();
    list.clans = clans();
    list.clans[0].badge_count = 7;
    list.clans[0].has_unread = true;
    assert!(list.mark_read("1"));
    assert_eq!(list.clans[0].badge_count, 0);
    assert!(!list.clans[0].has_unread);
}

#[test]
fn mark_as_read_unknown_clan_is_noop() {
    let mut list = ClanList::new();
    list.clans = clans();
    list.clans[0].badge_count = 3;
    assert!(!list.mark_read("999"));
    assert_eq!(list.clans[0].badge_count, 3);
}

#[test]
fn apply_created_clan_inserts_new_clan() {
    let mut clans = clans();
    let desc = ApiClanDesc {
        clan_id: "99".into(),
        clan_name: "NewClan".into(),
        creator_id: String::new(),
        logo: "logo.png".into(),
        banner: String::new(),
        welcome_channel_id: String::new(),
    };
    apply_created_clan(&mut clans, desc);
    assert_eq!(clans.len(), 3);
    let inserted = clans.iter().find(|c| c.id == "99").unwrap();
    assert_eq!(inserted.name, "NewClan");
    assert_eq!(inserted.avatar_url.as_deref(), Some("logo.png"));
    assert_eq!(inserted.badge_count, 0);
    assert!(!inserted.has_unread);
}

#[test]
fn apply_created_clan_skips_duplicate_id() {
    let mut clans = clans();
    let desc = ApiClanDesc {
        clan_id: "1".into(),
        clan_name: "SameClan".into(),
        creator_id: String::new(),
        logo: String::new(),
        banner: String::new(),
        welcome_channel_id: String::new(),
    };
    apply_created_clan(&mut clans, desc);
    assert_eq!(clans.len(), 2);
    assert_eq!(clans[0].name, "One");
}

#[test]
fn create_clan_error_display_duplicate_name() {
    let err = CreateClanError::DuplicateName;
    let msg = err.message();
    assert!(msg.contains("already exists"));
}

#[test]
fn create_clan_error_display_other() {
    let err = CreateClanError::Other("network timeout".into());
    let msg = err.message();
    assert_eq!(msg, "network timeout");
}

#[test]
fn removing_the_shown_clan_shows_the_next() {
    let mut list = ClanList::new();
    list.clans = clans();
    list.active_clan_id = Some("1".into());
    let r = list.remove_clan("1");
    assert!(r.removed);
    assert!(r.active_changed);
    assert_eq!(list.active_clan_id.as_deref(), Some("2"));
    let r = list.remove_clan("1");
    assert!(!r.removed);
    let r = list.remove_clan("2");
    assert!(r.active_changed);
    assert_eq!(list.active_clan_id, None);
    assert!(list.clans.is_empty());
}

#[test]
fn update_clans_keeps_or_resets_the_shown_clan() {
    let mut list = ClanList::new();
    assert!(list.update_clans(clans()));
    assert_eq!(list.active_clan_id.as_deref(), Some("1"));
    assert!(!list.update_clans(vec![make_clan("3", "Three", None), make_clan("1", "One", None)]));
    assert_eq!(list.active_clan_id.as_deref(), Some("1"));
    assert!(list.update_clans(vec![make_clan("3", "Three", None)]));
    assert_eq!(list.active_clan_id.as_deref(), Some("3"));
    assert!(!list.update_clans(Vec::new()));
    assert!(list.is_active_clan("3"));
}
