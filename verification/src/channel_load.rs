use vstd::prelude::*;

use crate::categories::{build_categories, build_categories_spec, descs_view, CategoryDesc};
use crate::channel::{
    assemble_favorites, assemble_spec, categories_view, channel_type_of, channels_view, zero_id,
    AppChannel, Category, Channel, ChannelType, ChannelView, VoiceMember, VoiceMemberView,
};
use crate::text::{opt_view, str_eq};

verus! {

/// A channel as the server lists it.
#[derive(Debug, Clone, Default, PartialEq, Eq)]
pub struct ApiChannelDesc {
    pub channel_id: String,
    pub channel_label: String,
    pub channel_type: u32,
    pub channel_private: i32,
    pub clan_id: String,
    pub category_name: String,
    pub category_id: String,
    pub member_count: i32,
    pub badge_count: i32,
    pub is_mute: bool,
    pub parent_id: String,
    pub last_seen_timestamp: i64,
    pub last_sent_timestamp: i64,
}

/// The unread count of a channel as the badge list gives it.
#[derive(Debug, Clone, Default, PartialEq, Eq)]
pub struct BadgeDesc {
    pub channel_id: String,
    pub channel_type: u32,
    pub badge_count: i32,
}

/// The users connected to a voice channel.
#[derive(Debug, Clone, Default, PartialEq, Eq)]
pub struct VoiceUsersDesc {
    pub channel_id: String,
    pub user_ids: Vec<String>,
}

/// An id field that the server fills with `""` or `"0"` for none.
pub open spec fn nonzero_id(s: Seq<char>) -> Option<Seq<char>> {
    if s.len() == 0 || s == zero_id() {
        None
    } else {
        Some(s)
    }
}

fn nonzero_id_exec(s: String) -> (r: Option<String>)
    ensures
        opt_view(r) == nonzero_id(s@),
{
    proof {
        reveal_strlit("0");
        assert("0"@ =~= zero_id());
    }
    if s.unicode_len() == 0 || str_eq(s.as_str(), "0") {
        None
    } else {
        Some(s)
    }
}

/// A voice member known only by id: the id serves as display name, without avatar.
pub open spec fn voice_member_of(uid: Seq<char>) -> VoiceMemberView {
    VoiceMemberView { display_name: uid, avatar_url: Seq::empty(), user_id: uid }
}

/// The channel listed by `c`, with its unread count, the ids of its voice members, and
/// whether it is a favorite.
pub open spec fn channel_from_desc_spec(c: ApiChannelDesc, badge_count: u32, voice_ids: Seq<Seq<char>>, is_favorite: bool) -> ChannelView {
    ChannelView {
        id: c.channel_id@,
        name: c.channel_label@,
        channel_type: channel_type_of(c.channel_type),
        private: c.channel_private != 0,
        clan_id: c.clan_id@,
        category_name: c.category_name@,
        category_id: nonzero_id(c.category_id@),
        member_count: if c.member_count < 0 {
            0
        } else {
            c.member_count as u32
        },
        badge_count,
        muted: c.is_mute,
        parent_id: nonzero_id(c.parent_id@),
        last_seen_timestamp: c.last_seen_timestamp,
        last_sent_timestamp: c.last_sent_timestamp,
        voice_members: voice_ids.map_values(|u: Seq<char>| voice_member_of(u)),
        is_favorite,
    }
}

pub open spec fn strings_view(v: Seq<String>) -> Seq<Seq<char>> {
    v.map_values(|s: String| s@)
}

pub fn channel_from_desc(c: ApiChannelDesc, badge_count: u32, voice_ids: Vec<String>, is_favorite: bool) -> (r: Channel)
    ensures
        r@ == channel_from_desc_spec(c, badge_count, strings_view(voice_ids@), is_favorite),
{
    let ghost cv = c;
    let ghost ids = strings_view(voice_ids@);
    let mut voice_members: Vec<VoiceMember> = Vec::new();
    let mut i: usize = 0;
    while i < voice_ids.len()
        invariant
            ids == strings_view(voice_ids@),
            i <= voice_ids@.len(),
            voice_members@.len() == i,
            forall|j: int| 0 <= j < i ==> (#[trigger] voice_members@[j])@ == voice_member_of(ids[j]),
        decreases voice_ids@.len() - i,
    {
        let uid = &voice_ids[i];
        voice_members.push(VoiceMember { display_name: uid.clone(), avatar_url: String::new(), user_id: uid.clone() });
        i += 1;
    }
    let member_count: u32 = if c.member_count < 0 {
        0
    } else {
        c.member_count as u32
    };
    let r = Channel {
        id: c.channel_id,
        name: c.channel_label,
        channel_type: ChannelType::from_raw(c.channel_type),
        private: c.channel_private != 0,
        clan_id: c.clan_id,
        category_name: c.category_name,
        category_id: nonzero_id_exec(c.category_id),
        member_count,
        badge_count,
        muted: c.is_mute,
        parent_id: nonzero_id_exec(c.parent_id),
        last_seen_timestamp: c.last_seen_timestamp,
        last_sent_timestamp: c.last_sent_timestamp,
        voice_members,
        is_favorite,
    };
    proof {
        assert(r@.voice_members =~= ids.map_values(|u: Seq<char>| voice_member_of(u)));
    }
    r
}

/// Badges of app and voice channels are not counted.
pub open spec fn counts_badge(b: BadgeDesc) -> bool {
    !(channel_type_of(b.channel_type) is App || channel_type_of(b.channel_type) is Voice)
}

/// The unread count of channel `id`: from the last counted badge of that channel, else the
/// channel's own count; never below zero.
pub open spec fn badge_of(badges: Seq<BadgeDesc>, id: Seq<char>, own: i32) -> u32
    decreases badges.len(),
{
    if badges.len() == 0 {
        if own < 0 {
            0
        } else {
            own as u32
        }
    } else {
        let b = badges.last();
        if counts_badge(b) && b.channel_id@ == id {
            if b.badge_count < 0 {
                0
            } else {
                b.badge_count as u32
            }
        } else {
            badge_of(badges.drop_last(), id, own)
        }
    }
}

/// The voice member ids of channel `id`: from the last entry for that channel, else none.
pub open spec fn voice_of(voices: Seq<VoiceUsersDesc>, id: Seq<char>) -> Seq<Seq<char>>
    decreases voices.len(),
{
    if voices.len() == 0 {
        Seq::empty()
    } else if voices.last().channel_id@ == id {
        strings_view(voices.last().user_ids@)
    } else {
        voice_of(voices.drop_last(), id)
    }
}

fn badge_for(badges: &Vec<BadgeDesc>, id: &String, own: i32) -> (r: u32)
    ensures
        r == badge_of(badges@, id@, own),
{
    let mut k: usize = badges.len();
    proof {
        assert(badges@.take(k as int) =~= badges@);
    }
    while k > 0
        invariant
            k <= badges@.len(),
            badge_of(badges@, id@, own) == badge_of(badges@.take(k as int), id@, own),
        decreases k,
    {
        let b = &badges[k - 1];
        proof {
            assert(badges@.take(k as int).drop_last() =~= badges@.take(k - 1));
            assert(badges@.take(k as int).last() == badges@[k - 1]);
        }
        let counted = match ChannelType::from_raw(b.channel_type) {
            ChannelType::App | ChannelType::Voice => false,
            _ => true,
        };
        if counted && b.channel_id == *id {
            return if b.badge_count < 0 {
                0
            } else {
                b.badge_count as u32
            };
        }
        k -= 1;
    }
    if own < 0 {
        0
    } else {
        own as u32
    }
}

fn voice_for(voices: &Vec<VoiceUsersDesc>, id: &String) -> (r: Vec<String>)
    ensures
        strings_view(r@) == voice_of(voices@, id@),
{
    let mut k: usize = voices.len();
    proof {
        assert(voices@.take(k as int) =~= voices@);
    }
    while k > 0
        invariant
            k <= voices@.len(),
            voice_of(voices@, id@) == voice_of(voices@.take(k as int), id@),
        decreases k,
    {
        proof {
            assert(voices@.take(k as int).drop_last() =~= voices@.take(k - 1));
            assert(voices@.take(k as int).last() == voices@[k - 1]);
        }
        if voices[k - 1].channel_id == *id {
            let src = &voices[k - 1].user_ids;
            let mut out: Vec<String> = Vec::new();
            let mut j: usize = 0;
            while j < src.len()
                invariant
                    j <= src@.len(),
                    out@.len() == j,
                    forall|q: int| 0 <= q < j ==> (#[trigger] out@[q])@ == src@[q]@,
                decreases src@.len() - j,
            {
                out.push(src[j].clone());
                j += 1;
            }
            proof {
                assert(strings_view(out@) =~= strings_view(src@));
            }
            return out;
        }
        k -= 1;
    }
    proof {
        assert(voices@.take(0) =~= Seq::<VoiceUsersDesc>::empty());
        assert(strings_view(Seq::<String>::empty()) =~= Seq::<Seq<char>>::empty());
    }
    Vec::new()
}

fn contains_string(v: &Vec<String>, s: &String) -> (r: bool)
    ensures
        r == strings_view(v@).contains(s@),
{
    let mut i: usize = 0;
    while i < v.len()
        invariant
            i <= v@.len(),
            forall|j: int| 0 <= j < i ==> (#[trigger] v@[j])@ != s@,
        decreases v@.len() - i,
    {
        if v[i] == *s {
            proof {
                assert(strings_view(v@)[i as int] == s@);
            }
            return true;
        }
        i += 1;
    }
    proof {
        if strings_view(v@).contains(s@) {
            let j = choose|j: int| 0 <= j < strings_view(v@).len() && strings_view(v@)[j] == s@;
            assert(v@[j]@ == s@);
        }
    }
    false
}

/// The channel listed by `c` with what the other lists say of it.
pub open spec fn loaded_channel(
    c: ApiChannelDesc,
    badges: Seq<BadgeDesc>,
    voices: Seq<VoiceUsersDesc>,
    favorite_ids: Seq<Seq<char>>,
) -> ChannelView {
    channel_from_desc_spec(
        c,
        badge_of(badges, c.channel_id@, c.badge_count),
        voice_of(voices, c.channel_id@),
        favorite_ids.contains(c.channel_id@),
    )
}

/// The channels of a clan, in the order listed, each with its unread count, voice members
/// and favorite flag (see `loaded_channel`).
pub fn channels_from_descs(
    descs: Vec<ApiChannelDesc>,
    badges: &Vec<BadgeDesc>,
    voices: &Vec<VoiceUsersDesc>,
    favorite_ids: &Vec<String>,
) -> (r: Vec<Channel>)
    ensures
        r@.len() == descs@.len(),
        forall|i: int| 0 <= i < descs@.len() ==> (#[trigger] r@[i])@ == loaded_channel(
            descs@[i],
            badges@,
            voices@,
            strings_view(favorite_ids@),
        ),
{
    let ghost d0 = descs@;
    let mut descs = descs;
    let mut out: Vec<Channel> = Vec::new();
    let n = descs.len();
    while descs.len() > 0
        invariant
            n == d0.len(),
            descs@.len() <= n,
            descs@ == d0.skip(n - descs@.len()),
            out@.len() == n - descs@.len(),
            forall|i: int| 0 <= i < out@.len() ==> (#[trigger] out@[i])@ == loaded_channel(
                d0[i],
                badges@,
                voices@,
                strings_view(favorite_ids@),
            ),
        decreases descs@.len(),
    {
        let ghost k = n - descs@.len();
        let c = descs.remove(0);
        proof {
            assert(c == d0[k]);
            assert(descs@ =~= d0.skip(k + 1));
        }
        let badge = badge_for(badges, &c.channel_id, c.badge_count);
        let voice = voice_for(voices, &c.channel_id);
        let fav = contains_string(favorite_ids, &c.channel_id);
        let ch = channel_from_desc(c, badge, voice, fav);
        out.push(ch);
    }
    out
}

/// A clan's channel list: its channels (see `channels_from_descs`) grouped under its
/// categories (see `build_categories_spec`), with the favorites category first when the
/// clan has favorite channels (see `assemble_spec`).
pub fn clan_categories(
    api_categories: Vec<CategoryDesc>,
    descs: Vec<ApiChannelDesc>,
    badges: &Vec<BadgeDesc>,
    voices: &Vec<VoiceUsersDesc>,
    favorite_ids: &Vec<String>,
) -> (r: Vec<Category>)
    ensures
        categories_view(r@) == assemble_spec(
            build_categories_spec(
                descs_view(api_categories@),
                descs@.map_values(|c: ApiChannelDesc| loaded_channel(c, badges@, voices@, strings_view(favorite_ids@))),
            ),
            favorite_ids@.len() == 0,
        ),
{
    let ghost dv = descs@;
    let mut channels = channels_from_descs(descs, badges, voices, favorite_ids);
    proof {
        assert(channels_view(channels@) =~= dv.map_values(
            |c: ApiChannelDesc| loaded_channel(c, badges@, voices@, strings_view(favorite_ids@)),
        ));
    }
    let categories = build_categories(api_categories, &mut channels);
    assemble_favorites(categories, favorite_ids.len() > 0)
}

/// An app attached to a channel, as the server lists it.
#[derive(Debug, Clone, Default, PartialEq, Eq)]
pub struct ApiChannelApp {
    pub app_id: String,
    pub app_name: String,
    pub app_logo: Option<String>,
    pub app_url: String,
    pub channel_id: String,
}

/// The app as the channel list keeps it: every field as listed.
pub fn app_channel_from(a: ApiChannelApp) -> (r: AppChannel)
    ensures
        r.app_id == a.app_id,
        r.app_name == a.app_name,
        r.app_logo == a.app_logo,
        r.app_url == a.app_url,
        r.channel_id == a.channel_id,
{
    AppChannel { app_id: a.app_id, app_name: a.app_name, app_logo: a.app_logo, app_url: a.app_url, channel_id: a.channel_id }
}

} // verus!
