use vstd::prelude::*;

use crate::dates::{parse_rfc3339_seconds, rfc3339_seconds};
use crate::ids::{ChannelId, ClanId, UserId};
use crate::text::{i64_to_string, int_decimal};

verus! {

/// The longest webhook name accepted.
pub const WEBHOOK_NAME_MAX_LENGTH: usize = 64;

/// The largest webhook avatar accepted for upload, in bytes.
pub const MAX_WEBHOOK_AVATAR_BYTES: u64 = 1048576;

/// A webhook that posts into a channel.
#[derive(Debug, Clone, PartialEq, Eq)]
pub struct ChannelWebhook {
    pub id: String,
    pub webhook_name: String,
    pub channel_id: ChannelId,
    pub clan_id: ClanId,
    pub url: String,
    pub avatar: String,
    pub creator_id: UserId,
    pub create_time_seconds: i64,
}

/// A webhook of a whole clan.
#[derive(Debug, Clone, PartialEq, Eq)]
pub struct ClanWebhook {
    pub id: String,
    pub webhook_name: String,
    pub clan_id: ClanId,
    pub url: String,
    pub avatar: String,
    pub creator_id: UserId,
    pub create_time_seconds: i64,
}

/// What the webhook store tells its observers.
#[derive(Debug, Clone)]
pub enum WebhookEvent {
    ChannelWebhooksChanged { clan_id: ClanId },
    ClanWebhooksChanged { clan_id: ClanId },
}

/// A webhook as the server lists it.
#[derive(Debug, Clone, Default, PartialEq, Eq)]
pub struct WebhookDesc {
    pub id: i64,
    pub webhook_name: String,
    pub channel_id: i64,
    pub clan_id: i64,
    pub url: String,
    pub avatar: String,
    pub creator_id: i64,
    pub create_time: String,
}

/// The creation time of a webhook in seconds, given how `chrono` reads its date (`seconds`):
/// `0` for no date or an unreadable one.
pub open spec fn create_time_spec(create_time: Seq<char>, seconds: Option<i64>) -> i64 {
    if create_time.len() == 0 {
        0
    } else {
        match seconds {
            Some(t) => t,
            None => 0,
        }
    }
}

pub fn create_time_from(create_time: &str, seconds: Option<i64>) -> (r: i64)
    ensures
        r == create_time_spec(create_time@, seconds),
{
    if create_time.is_empty() {
        return 0;
    }
    match seconds {
        Some(t) => t,
        None => 0,
    }
}

/// The creation time of a webhook in seconds (see `create_time_spec`).
pub fn webhook_create_time_seconds(create_time: &str) -> (r: i64)
    ensures
        r == create_time_spec(create_time@, rfc3339_seconds(create_time@)),
{
    if create_time.is_empty() {
        return 0;
    }
    let seconds = parse_rfc3339_seconds(create_time);
    create_time_from(create_time, seconds)
}

/// A listed channel webhook (none for id `0`): its id in decimal, and the given clan when it
/// names none.
pub fn channel_webhook_from_proto(proto: WebhookDesc, clan_id: ClanId) -> (r: Option<ChannelWebhook>)
    ensures
        proto.id == 0 <==> r is None,
        r matches Some(w) ==> {
            &&& w.id@ == int_decimal(proto.id as int)
            &&& w.webhook_name@ == proto.webhook_name@
            &&& w.channel_id == ChannelId(proto.channel_id)
            &&& w.clan_id == (if proto.clan_id != 0 {
                ClanId(proto.clan_id)
            } else {
                clan_id
            })
            &&& w.url@ == proto.url@
            &&& w.avatar@ == proto.avatar@
            &&& w.creator_id == UserId(proto.creator_id)
            &&& w.create_time_seconds == create_time_spec(proto.create_time@, rfc3339_seconds(proto.create_time@))
        },
{
    if proto.id == 0 {
        return None;
    }
    let create_time_seconds = webhook_create_time_seconds(proto.create_time.as_str());
    Some(
        ChannelWebhook {
            id: i64_to_string(proto.id),
            webhook_name: proto.webhook_name,
            channel_id: ChannelId(proto.channel_id),
            clan_id: if proto.clan_id != 0 {
                ClanId(proto.clan_id)
            } else {
                clan_id
            },
            url: proto.url,
            avatar: proto.avatar,
            creator_id: UserId(proto.creator_id),
            create_time_seconds,
        },
    )
}

/// A listed clan webhook (none for id `0`), its id in decimal.
pub fn clan_webhook_from_proto(proto: WebhookDesc) -> (r: Option<ClanWebhook>)
    ensures
        proto.id == 0 <==> r is None,
        r matches Some(w) ==> {
            &&& w.id@ == int_decimal(proto.id as int)
            &&& w.webhook_name@ == proto.webhook_name@
            &&& w.clan_id == ClanId(proto.clan_id)
            &&& w.url@ == proto.url@
            &&& w.avatar@ == proto.avatar@
            &&& w.creator_id == UserId(proto.creator_id)
            &&& w.create_time_seconds == create_time_spec(proto.create_time@, rfc3339_seconds(proto.create_time@))
        },
{
    if proto.id == 0 {
        return None;
    }
    let create_time_seconds = webhook_create_time_seconds(proto.create_time.as_str());
    Some(
        ClanWebhook {
            id: i64_to_string(proto.id),
            webhook_name: proto.webhook_name,
            clan_id: ClanId(proto.clan_id),
            url: proto.url,
            avatar: proto.avatar,
            creator_id: UserId(proto.creator_id),
            create_time_seconds,
        },
    )
}

/// The webhooks of a clan that post into `channel_id`, in order.
pub fn channel_webhooks_for_channel<'a>(webhooks: &'a Vec<ChannelWebhook>, channel_id: ChannelId) -> (r: Vec<&'a ChannelWebhook>)
    ensures
        r@.map_values(|w: &ChannelWebhook| *w) == webhooks@.filter(|w: ChannelWebhook| w.channel_id == channel_id),
{
    let ghost s = webhooks@;
    let mut out: Vec<&ChannelWebhook> = Vec::new();
    let mut i: usize = 0;
    proof {
        assert(s.take(0) =~= Seq::<ChannelWebhook>::empty());
        assert(out@.map_values(|w: &ChannelWebhook| *w) =~= Seq::<ChannelWebhook>::empty());
    }
    while i < webhooks.len()
        invariant
            s == webhooks@,
            i <= s.len(),
            out@.map_values(|w: &ChannelWebhook| *w) == s.take(i as int).filter(|w: ChannelWebhook| w.channel_id == channel_id),
        decreases s.len() - i,
    {
        proof {
            reveal_with_fuel(Seq::filter, 1);
            assert(s.take(i + 1).drop_last() =~= s.take(i as int));
            assert(s.take(i + 1).last() == s[i as int]);
        }
        if webhooks[i].channel_id.0 == channel_id.0 {
            let ghost before = out@.map_values(|w: &ChannelWebhook| *w);
            out.push(&webhooks[i]);
            proof {
                assert(out@.map_values(|w: &ChannelWebhook| *w) =~= before.push(s[i as int]));
            }
        }
        i += 1;
    }
    proof {
        assert(s.take(s.len() as int) =~= s);
    }
    out
}

} // verus!
