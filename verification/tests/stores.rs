use std::collections::HashMap;

use mezon_store::channel_members::{bucket_from_users, clan_and_type_for_channel, ChannelUserDesc};
use mezon_store::channel_role_permissions::{PermissionCache, PermissionEntity, SaveStart};
use mezon_store::channel_settings::{paging_done, ChannelSetting, ChannelSettingItem, RowsKey, SettingsTable};
use mezon_store::clan::{clans_from_descs, create_clan_name, ApiClanDesc, ClanList};
use mezon_store::direct::{directs_from_api, ApiDirectChannel};
use mezon_store::events::{clock_seconds, events_from_api, EventDesc, EVENT_COMPLETED};
use mezon_store::files::{documents_from_api, uploader_label, ChannelAttachmentDesc, FilesChannel};
use mezon_store::gif::{Gif, GifState, KlipyConfig, SearchStart};
use mezon_store::ids::{ChannelId, ClanId, RoleId, UserId};
use mezon_store::loading::{begin_channel_users_load, LoadingSet};
use mezon_store::notification_setting::{ChannelNotificationSetting, NotificationSettings, SettingConstants};

#[test]
fn permission_loads_and_saves_are_tracked() {
    let mut cache = PermissionCache::new();
    let role = PermissionEntity::Role(RoleId(3));
    assert!(cache.begin_load(ChannelId(1), role));
    assert!(!cache.begin_load(ChannelId(1), role));
    let mut loaded = HashMap::new();
    loaded.insert(10i64, true);
    assert!(cache.finish_load(ChannelId(1), role, Some(loaded)));
    assert!(cache.is_loaded(ChannelId(1), role));
    assert_eq!(cache.permission_active(ChannelId(1), role, 10), Some(true));
    assert_eq!(cache.permission_active(ChannelId(1), role, 11), None);
    assert!(!cache.begin_load(ChannelId(1), role));

    let defs = vec![(10i64, "a".to_string()), (11i64, "b".to_string())];
    let mut pending = HashMap::new();
    pending.insert(11i64, 2);
    match cache.begin_save(ChannelId(1), role, &defs, &pending) {
        SaveStart::Send { updates, applied } => {
            assert_eq!(updates.len(), 2);
            assert_eq!(updates[0].override_type, 1);
            assert_eq!(updates[1].override_type, 2);
            assert_eq!(applied.get(&11), Some(&false));
            assert!(cache.is_saving(ChannelId(1), role));
            assert!(matches!(cache.begin_save(ChannelId(1), role, &defs, &pending), SaveStart::InFlight));
            assert!(cache.finish_save(ChannelId(1), role, Some(applied)));
        }
        _ => panic!("expected a save"),
    }
    assert!(!cache.is_saving(ChannelId(1), role));
    assert_eq!(cache.permission_active(ChannelId(1), role, 11), Some(false));
    let user = PermissionEntity::User(UserId(3));
    assert!(matches!(cache.begin_save(ChannelId(1), user, &defs, &pending), SaveStart::NotLoaded));
    cache.clear_cache();
    assert!(!cache.is_loaded(ChannelId(1), role));
}

fn consts() -> SettingConstants {
    SettingConstants {
        default_level: -1,
        mute_infinity: 999,
        unmute: 0,
        blank: ChannelNotificationSetting { id: 0, level: -1, mute_until_ms: 0 },
    }
}

#[test]
fn notification_overrides_set_and_restore() {
    let mut s = NotificationSettings::new(consts());
    assert_eq!(s.level(ChannelId(5)), -1);
    let prev = s.set_level(ChannelId(5), 2);
    assert_eq!(prev, None);
    assert_eq!(s.level(ChannelId(5)), 2);
    assert_eq!(s.setting(ChannelId(5)).unwrap().id, 5);
    s.restore(ChannelId(5), prev);
    assert_eq!(s.setting(ChannelId(5)), None);
    s.set_mute(ChannelId(5), 3600, 12345);
    assert_eq!(s.setting(ChannelId(5)).unwrap().mute_until_ms, 12345);
    s.set_mute(ChannelId(5), 0, 0);
    assert_eq!(s.setting(ChannelId(5)).unwrap().id, 0);
}

#[test]
fn muted_channel_ids_seed_forever_mutes() {
    let mut s = NotificationSettings::new(consts());
    s.set_mute(ChannelId(7), 60, 500);
    s.seed_muted_channels(&vec!["7".into(), "8".into(), "0".into(), "x".into()]);
    assert_eq!(s.setting(ChannelId(7)).unwrap().mute_until_ms, 500);
    let eight = s.setting(ChannelId(8)).unwrap();
    assert_eq!(eight.mute_until_ms, 999);
    assert_eq!(eight.id, 8);
    assert_eq!(s.setting(ChannelId(0)), None);
}

#[test]
fn notification_loads_and_prefetches() {
    let mut s = NotificationSettings::new(consts());
    assert!(!s.begin_load(ChannelId(0)));
    assert!(s.begin_load(ChannelId(4)));
    assert!(!s.begin_load(ChannelId(4)));
    assert!(s.finish_load(ChannelId(4), Some(ChannelNotificationSetting { id: 4, level: 1, mute_until_ms: 0 })));
    assert!(!s.begin_load(ChannelId(4)));
    assert!(s.begin_prefetch(ClanId(2)));
    assert!(!s.begin_prefetch(ClanId(2)));
    assert!(!s.begin_prefetch(ClanId(0)));
    s.finish_prefetch(ClanId(2), Some(vec!["9".into()]), Some(3));
    assert_eq!(s.clan_default(ClanId(2)), Some(3));
    assert!(s.setting(ChannelId(9)).is_some());
    assert!(s.begin_prefetch(ClanId(2)));
    s.reset();
    assert_eq!(s.clan_default(ClanId(2)), None);
}

fn setting(id: i64) -> ChannelSetting {
    ChannelSetting::from_item(ChannelSettingItem { id, ..ChannelSettingItem::default() })
}

#[test]
fn settings_paging_stops_on_short_page_or_total() {
    assert!(paging_done(ChannelId(0), 5, 0, 100, 5));
    assert!(!paging_done(ChannelId(0), 500, 0, 100, 100));
    assert!(paging_done(ChannelId(3), 500, 120, 100, 200));
    assert!(paging_done(ChannelId(3), 500, 120, 20, 20));
    assert!(paging_done(ChannelId(0), -1, 0, 100, 100));
}

#[test]
fn settings_table_loads_counts_and_reloads() {
    let mut t = SettingsTable::new();
    assert!(t.begin_load(ClanId(1), ChannelId(0)));
    assert!(!t.begin_load(ClanId(1), ChannelId(0)));
    assert!(t.is_loading(ClanId(1), ChannelId(0)));
    let key = RowsKey { clan_id: ClanId(1), parent_id: ChannelId(0) };
    assert!(t.finish_load(key, Some(vec![setting(10), setting(11)])));
    assert!(!t.is_loading(ClanId(1), ChannelId(0)));
    assert_eq!(t.rows(ClanId(1), ChannelId(0)).len(), 2);
    assert!(!t.begin_load(ClanId(1), ChannelId(0)));
    let changed = t.count_message(ClanId(1), ChannelId(11), 4, 77);
    assert_eq!(changed, vec![ChannelId(0)]);
    assert_eq!(t.rows(ClanId(1), ChannelId(0))[1].message_count, 1);
    assert!(t.count_message(ClanId(2), ChannelId(11), 4, 77).is_empty());
    assert_eq!(t.keys_holding(ClanId(1), ChannelId(10)), vec![key]);
    assert!(t.keys_holding(ClanId(1), ChannelId(99)).is_empty());
    assert_eq!(t.loaded_keys(), vec![key]);
    assert!(t.begin_reload(key));
    assert!(!t.begin_reload(key));
    assert!(!t.finish_load(key, None));
    assert_eq!(t.rows(ClanId(1), ChannelId(0)).len(), 2);
    assert!(t.rows(ClanId(9), ChannelId(0)).is_empty());
}

fn attachment(id: i64, t: u32, filetype: &str) -> ChannelAttachmentDesc {
    ChannelAttachmentDesc {
        id,
        message_id: id * 10,
        uploader: 3,
        url: format!("https://cdn/{id}"),
        filename: format!("f{id}"),
        filetype: filetype.into(),
        create_time_seconds: t,
    }
}

#[test]
fn documents_keep_only_documents_newest_first_once() {
    let docs = documents_from_api(
        vec![
            attachment(1, 10, "application/pdf"),
            attachment(2, 30, "image/png"),
            attachment(3, 20, "text/plain"),
            attachment(1, 5, "application/pdf"),
        ],
        ChannelId(8),
        ClanId(2),
    );
    let ids: Vec<(i64, u32)> = docs.iter().map(|d| (d.id, d.create_time_seconds)).collect();
    assert_eq!(ids, vec![(3, 20), (1, 10)]);
    assert_eq!(docs[0].channel_id, ChannelId(8));
    assert_eq!(uploader_label(String::new()), "Unknown");
    assert_eq!(uploader_label("Ann".into()), "Ann");
}

#[test]
fn files_channel_fetch_cycle() {
    let mut f = FilesChannel::new();
    assert!(f.needs_fetch(true));
    f.begin_fetch();
    assert!(!f.needs_fetch(false));
    f.finish_fetch(Some(documents_from_api(vec![attachment(1, 1, "")], ChannelId(1), ClanId(1))));
    assert!(!f.needs_fetch(true));
    assert!(f.needs_fetch(false));
    f.begin_fetch();
    f.finish_fetch(None);
    assert!(f.fetch_error);
    assert_eq!(f.documents.len(), 1);
    assert!(f.needs_fetch(true));
}

fn gif(url: &str) -> Gif {
    Gif { url: url.into(), preview_url: url.into(), width: 1, height: 1 }
}

#[test]
fn gif_state_loads_once_and_drops_stale_searches() {
    let mut g = GifState::new(KlipyConfig { key: "k".into(), base_url: "https://g/".into() });
    let (cats, featured) = g.ensure_loaded().unwrap();
    assert_eq!(cats, "https://g/k/gifs/categories");
    assert_eq!(featured, "https://g/k/gifs/trending?page=1&per_page=30&format_filter=gif");
    assert!(g.ensure_loaded().is_none());
    g.finish_base(None, Some(vec![gif("a")]));
    assert!(g.loaded);
    assert!(g.ensure_loaded().is_none());
    let first = match g.start_search("  cat ") {
        SearchStart::Fetch { generation, url } => {
            assert_eq!(url, "https://g/k/gifs/search?page=1&per_page=30&q=cat&format_filter=gif");
            generation
        }
        _ => panic!("expected a fetch"),
    };
    let second = match g.start_search("dog") {
        SearchStart::Fetch { generation, .. } => generation,
        _ => panic!("expected a fetch"),
    };
    assert!(!g.finish_search(first, Some(vec![gif("old")])));
    assert!(g.finish_search(second, Some(vec![gif("new")])));
    assert_eq!(g.search_results[0].url, "new");
    assert!(matches!(g.start_search("   "), SearchStart::Cleared { changed: true }));
    assert!(matches!(g.start_search(""), SearchStart::Cleared { changed: false }));
}

#[test]
fn clans_from_descs_apply_last_badge() {
    let descs = vec![
        ApiClanDesc { clan_id: "1".into(), clan_name: "One".into(), welcome_channel_id: "9".into(), ..Default::default() },
        ApiClanDesc { clan_id: "2".into(), clan_name: "Two".into(), ..Default::default() },
    ];
    let badges = vec![("1".to_string(), 3, true), ("1".to_string(), -2, false)];
    let clans = clans_from_descs(descs, &badges);
    assert_eq!(clans[0].badge_count, 0);
    assert!(!clans[0].has_unread);
    assert_eq!(clans[1].badge_count, 0);
    let mut list = ClanList::new();
    list.update_clans(clans);
    assert_eq!(list.welcome_channel_id("1"), Some("9".to_string()));
    assert_eq!(list.welcome_channel_id("2"), None);
    assert_eq!(list.active_clan().map(|c| c.id.as_str()), Some("1"));
    assert!(list.active_clan_banner().is_none());
    assert!(list.select_clan("2"));
    assert!(!list.select_clan("2"));
    assert_eq!(create_clan_name("  My clan \n"), "My clan");
}

#[test]
fn channel_users_resolve_clan_and_collapse_duplicates() {
    assert_eq!(clan_and_type_for_channel(Some((ClanId(4), 1)), Some(ClanId(9))), Some((ClanId(4), 1)));
    assert_eq!(clan_and_type_for_channel(Some((ClanId(0), 1)), Some(ClanId(9))), Some((ClanId(9), 1)));
    assert_eq!(clan_and_type_for_channel(None, Some(ClanId(9))), Some((ClanId(9), 0)));
    assert_eq!(clan_and_type_for_channel(None, None), None);
    let bucket = bucket_from_users(&vec![
        ChannelUserDesc { user_id: 1, role_id: vec![5] },
        ChannelUserDesc { user_id: 2, role_id: vec![] },
        ChannelUserDesc { user_id: 1, role_id: vec![6, 7] },
    ]);
    assert_eq!(bucket.member_ids(), vec![UserId(1), UserId(2)]);
    assert_eq!(bucket.members[0].role_ids, vec![RoleId(6), RoleId(7)]);
}

#[test]
fn loading_set_tracks_fetches() {
    let mut l = LoadingSet::new();
    assert!(l.begin(ChannelId(1)));
    assert!(!l.begin(ChannelId(1)));
    assert!(l.contains(ChannelId(1)));
    l.finish(ChannelId(1));
    assert!(!l.contains(ChannelId(1)));
    assert!(!begin_channel_users_load(&mut l, ChannelId(0), false));
    assert!(!begin_channel_users_load(&mut l, ChannelId(2), true));
    assert!(begin_channel_users_load(&mut l, ChannelId(2), false));
    l.clear();
    assert!(!l.contains(ChannelId(2)));
}

#[test]
fn listed_events_drop_those_over() {
    let items = vec![
        EventDesc { id: 1, end_time_seconds: 50, ..EventDesc::default() },
        EventDesc { id: 2, event_status: EVENT_COMPLETED, ..EventDesc::default() },
        EventDesc { id: 3, end_time_seconds: 500, ..EventDesc::default() },
        EventDesc { id: 4, ..EventDesc::default() },
    ];
    let ids: Vec<i64> = events_from_api(items, 100).iter().map(|e| e.id).collect();
    assert_eq!(ids, vec![3, 4]);
    assert_eq!(clock_seconds(-5), 0);
    assert_eq!(clock_seconds(1_700_000_000), 1_700_000_000);
}

#[test]
fn direct_list_is_newest_first() {
    let make = |id: &str, t: i64| ApiDirectChannel {
        channel_id: id.into(),
        channel_type: 3,
        last_sent_timestamp: t,
        user_ids: vec!["u".into()],
        ..Default::default()
    };
    let list = directs_from_api(vec![make("a", 1), make("b", 3), make("c", 2)]);
    let ids: Vec<&str> = list.iter().map(|d| d.id.as_str()).collect();
    assert_eq!(ids, vec!["b", "c", "a"]);
}
