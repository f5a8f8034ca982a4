use mezon_store::ids::{ChannelId, ClanId, UserId};
use mezon_store::webhook::{
    channel_webhook_from_proto, channel_webhooks_for_channel, clan_webhook_from_proto, create_time_from,
    webhook_create_time_seconds, WebhookDesc,
};

fn desc(id: i64, channel: i64, clan: i64, time: &str) -> WebhookDesc {
    WebhookDesc {
        id,
        webhook_name: "hook".to_string(),
        channel_id: channel,
        clan_id: clan,
        url: "https://example.com/h".to_string(),
        avatar: "a.png".to_string(),
        creator_id: 7,
        create_time: time.to_string(),
    }
}

#[test]
fn create_time_parses_rfc3339() {
    assert_eq!(webhook_create_time_seconds("2024-01-02T03:04:05Z"), 1_704_164_645);
    assert_eq!(webhook_create_time_seconds("2024-01-02T03:04:05+01:00"), 1_704_164_645 - 3600);
}

#[test]
fn create_time_is_zero_when_missing_or_unreadable() {
    assert_eq!(webhook_create_time_seconds(""), 0);
    assert_eq!(webhook_create_time_seconds("yesterday"), 0);
    assert_eq!(create_time_from("x", None), 0);
    assert_eq!(create_time_from("x", Some(12)), 12);
    assert_eq!(create_time_from("", Some(12)), 0);
}

#[test]
fn channel_webhook_maps_fields_and_falls_back_to_clan() {
    let w = channel_webhook_from_proto(desc(42, 5, 0, "2024-01-02T03:04:05Z"), ClanId(9)).unwrap();
    assert_eq!(w.id, "42");
    assert_eq!(w.webhook_name, "hook");
    assert_eq!(w.channel_id, ChannelId(5));
    assert_eq!(w.clan_id, ClanId(9));
    assert_eq!(w.creator_id, UserId(7));
    assert_eq!(w.create_time_seconds, 1_704_164_645);
    let w = channel_webhook_from_proto(desc(42, 5, 3, ""), ClanId(9)).unwrap();
    assert_eq!(w.clan_id, ClanId(3));
    assert_eq!(w.create_time_seconds, 0);
}

#[test]
fn webhook_with_zero_id_is_skipped() {
    assert!(channel_webhook_from_proto(desc(0, 5, 3, ""), ClanId(9)).is_none());
    assert!(clan_webhook_from_proto(desc(0, 5, 3, "")).is_none());
}

#[test]
fn clan_webhook_maps_fields() {
    let w = clan_webhook_from_proto(desc(-8, 5, 3, "2024-01-02T03:04:05Z")).unwrap();
    assert_eq!(w.id, "-8");
    assert_eq!(w.clan_id, ClanId(3));
    assert_eq!(w.url, "https://example.com/h");
    assert_eq!(w.avatar, "a.png");
    assert_eq!(w.create_time_seconds, 1_704_164_645);
}

#[test]
fn webhooks_for_channel_keeps_order() {
    let hooks: Vec<_> = vec![desc(1, 5, 3, ""), desc(2, 6, 3, ""), desc(3, 5, 3, "")]
        .into_iter()
        .map(|d| channel_webhook_from_proto(d, ClanId(3)).unwrap())
        .collect();
    let ids: Vec<&str> = channel_webhooks_for_channel(&hooks, ChannelId(5)).iter().map(|w| w.id.as_str()).collect();
    assert_eq!(ids, vec!["1", "3"]);
    assert!(channel_webhooks_for_channel(&hooks, ChannelId(99)).is_empty());
}
