use vstd::prelude::*;

use crate::text::{owned, push_all, push_str, chars_of, string_from_chars};

verus! {

/// A one-to-one conversation or a group conversation.
#[derive(Debug, Clone, Copy, PartialEq, Eq, Structural)]
pub enum DirectKind {
    Dm,
    Group,
}

impl DirectKind {
    /// Group for wire type 2, one-to-one for anything else.
    pub fn from_raw(raw: u32) -> (r: Self)
        ensures
            r == (if raw == 2 {
                DirectKind::Group
            } else {
                DirectKind::Dm
            }),
    {
        match raw {
            2 => DirectKind::Group,
            _ => DirectKind::Dm,
        }
    }

    /// `ChannelStreamMode` used when sending (DM = 4, GROUP = 3).
    pub fn stream_mode(self) -> (r: i32)
        ensures
            r == (if self is Dm {
                4i32
            } else {
                3i32
            }),
    {
        match self {
            DirectKind::Dm => 4,
            DirectKind::Group => 3,
        }
    }

    /// `ChannelType` used when joining the socket room (DM = 3, GROUP = 2).
    pub fn channel_type(self) -> (r: i32)
        ensures
            r == (if self is Dm {
                3i32
            } else {
                2i32
            }),
    {
        match self {
            DirectKind::Dm => 3,
            DirectKind::Group => 2,
        }
    }
}

/// A conversation in the direct-message list.
#[derive(Debug, Clone)]
pub struct DirectChannel {
    pub id: String,
    pub label: String,
    pub kind: DirectKind,
    pub avatar: String,
    pub peer_user_id: Option<String>,
    pub online: bool,
    pub member_count: u32,
    pub last_sent_timestamp: i64,
    pub last_seen_timestamp: i64,
}

impl DirectChannel {
    /// Unread when something was sent after what was last seen.
    pub fn is_unread(&self) -> (r: bool)
        ensures
            r == (self.last_sent_timestamp > 0 && self.last_seen_timestamp
                < self.last_sent_timestamp),
    {
        self.last_sent_timestamp > 0 && self.last_seen_timestamp < self.last_sent_timestamp
    }
}

// ---------------------------------------------------------------------------
// Ordering by recent activity
// ---------------------------------------------------------------------------

/// `x` inserted into `s` after every element sent at the same time or later, counting from
/// the back: one step of a stable sort, newest first.
pub open spec fn insert_recent(s: Seq<DirectChannel>, x: DirectChannel) -> Seq<DirectChannel>
    decreases s.len(),
{
    if s.len() == 0 {
        seq![x]
    } else if s.last().last_sent_timestamp >= x.last_sent_timestamp {
        s.push(x)
    } else {
        insert_recent(s.drop_last(), x).push(s.last())
    }
}

/// `s` stably sorted by last activity, newest first.
pub open spec fn sort_recent(s: Seq<DirectChannel>) -> Seq<DirectChannel>
    decreases s.len(),
{
    if s.len() == 0 {
        s
    } else {
        insert_recent(sort_recent(s.drop_last()), s.last())
    }
}

proof fn lemma_insert_at(s: Seq<DirectChannel>, x: DirectChannel, j: int)
    requires
        0 <= j <= s.len(),
        forall|k: int| j <= k < s.len() ==> (#[trigger] s[k]).last_sent_timestamp
            < x.last_sent_timestamp,
        j > 0 ==> s[j - 1].last_sent_timestamp >= x.last_sent_timestamp,
    ensures
        insert_recent(s, x) == s.take(j) + seq![x] + s.skip(j),
    decreases s.len(),
{
    if s.len() == 0 {
        assert(s.take(j) + seq![x] + s.skip(j) =~= seq![x]);
    } else if j == s.len() {
        assert(s.take(j) + seq![x] + s.skip(j) =~= s.push(x));
    } else {
        let p = s.drop_last();
        assert(s[s.len() - 1] == s.last());
        lemma_insert_at(p, x, j);
        assert(p.take(j) + seq![x] + p.skip(j) + seq![s.last()] =~= s.take(j) + seq![x] + s.skip(
            j,
        ));
    }
}

/// Stably sorts the conversations by last activity, newest first.
pub fn sort_by_recent(channels: &mut Vec<DirectChannel>)
    ensures
        final(channels)@ == sort_recent(old(channels)@),
{
    let ghost s = channels@;
    let mut out: Vec<DirectChannel> = Vec::new();
    let n = channels.len();
    proof {
        assert(s.subrange(0, 0) =~= Seq::<DirectChannel>::empty());
    }
    while channels.len() > 0
        invariant
            n == s.len(),
            channels@.len() <= n,
            channels@ == s.subrange(n - channels@.len(), n as int),
            out@ == sort_recent(s.subrange(0, n - channels@.len())),
        decreases channels@.len(),
    {
        let ghost k = n - channels@.len();
        let ghost before = channels@;
        let x = channels.remove(0);
        proof {
            assert(x == s[k]);
            assert(channels@ =~= s.subrange(k + 1, n as int));
            assert(s.subrange(0, k + 1).drop_last() =~= s.subrange(0, k));
        }
        let mut j = out.len();
        while j > 0 && out[j - 1].last_sent_timestamp < x.last_sent_timestamp
            invariant
                j <= out@.len(),
                forall|q: int| j <= q < out@.len() ==> (#[trigger] out@[q]).last_sent_timestamp
                    < x.last_sent_timestamp,
            decreases j,
        {
            j -= 1;
        }
        proof {
            lemma_insert_at(out@, x, j as int);
        }
        let ghost prev = out@;
        out.insert(j, x);
        proof {
            assert(out@ =~= prev.take(j as int) + seq![x] + prev.skip(j as int));
        }
    }
    proof {
        assert(s.subrange(0, n as int) =~= s);
    }
    *channels = out;
}

/// A message arrived in a conversation: its last activity moves to the message time (when
/// known) and the list is sorted again. Returns whether the conversation is listed.
pub fn note_channel_message(
    channels: &mut Vec<DirectChannel>,
    channel_id: &str,
    create_time_seconds: u32,
) -> (found: bool)
    ensures
        found == (exists|i: int|
            0 <= i < old(channels)@.len() && #[trigger] old(channels)@[i].id@ == channel_id@),
        !found ==> final(channels)@ == old(channels)@,
        found ==> {
            let i = first_direct(old(channels)@, channel_id@);
            let c = old(channels)@[i];
            let updated = if create_time_seconds > 0 {
                DirectChannel { last_sent_timestamp: create_time_seconds as i64, ..c }
            } else {
                c
            };
            final(channels)@ == sort_recent(old(channels)@.update(i, updated))
        },
{
    let id = owned(channel_id);
    let mut i: usize = 0;
    while i < channels.len() && !(channels[i].id == id)
        invariant
            i <= channels@.len(),
            id@ == channel_id@,
            forall|j: int| 0 <= j < i ==> (#[trigger] channels@[j]).id@ != channel_id@,
        decreases channels@.len() - i,
    {
        i += 1;
    }
    if i == channels.len() {
        return false;
    }
    proof {
        lemma_first_direct(channels@, channel_id@, i as int);
    }
    let ghost before = channels@;
    if create_time_seconds > 0 {
        let mut c = channels.remove(i);
        c.last_sent_timestamp = create_time_seconds as i64;
        let ghost cv = c;
        channels.insert(i, c);
        proof {
            assert(cv == (DirectChannel { last_sent_timestamp: create_time_seconds as i64, ..before[i as int] }));
            assert(channels@ =~= before.update(i as int, cv));
        }
    } else {
        proof {
            assert(channels@ =~= before.update(i as int, before[i as int]));
        }
    }
    sort_by_recent(channels);
    true
}

/// `i` is the index of the first conversation with id `id`.
pub open spec fn is_first_direct(s: Seq<DirectChannel>, id: Seq<char>, i: int) -> bool {
    &&& 0 <= i < s.len()
    &&& s[i].id@ == id
    &&& forall|j: int| 0 <= j < i ==> (#[trigger] s[j]).id@ != id
}

pub open spec fn first_direct(s: Seq<DirectChannel>, id: Seq<char>) -> int {
    choose|i: int| is_first_direct(s, id, i)
}

proof fn lemma_first_direct(s: Seq<DirectChannel>, id: Seq<char>, i: int)
    requires
        is_first_direct(s, id, i),
    ensures
        first_direct(s, id) == i,
{
    let f = first_direct(s, id);
    assert(is_first_direct(s, id, f));
    if f < i {
        assert(s[f].id@ != id);
    }
    if i < f {
        assert(s[i].id@ != id);
    }
}

// ---------------------------------------------------------------------------
// Conversations from the server's list
// ---------------------------------------------------------------------------

/// A conversation as the server lists it.
#[derive(Debug, Clone, Default)]
pub struct ApiDirectChannel {
    pub channel_id: String,
    pub channel_label: String,
    pub channel_type: u32,
    pub channel_avatar: String,
    pub avatars: Vec<String>,
    pub usernames: Vec<String>,
    pub display_names: Vec<String>,
    pub user_ids: Vec<String>,
    pub onlines: Vec<bool>,
    pub member_count: i32,
    pub count_mess_unread: i32,
    pub last_sent_timestamp: i64,
    pub last_seen_timestamp: i64,
}

pub open spec fn strs(v: Seq<String>) -> Seq<Seq<char>> {
    v.map_values(|s: String| s@)
}

/// The strings of `s` separated by `sep` (`[String]::join`).
pub open spec fn join_spec(s: Seq<Seq<char>>, sep: Seq<char>) -> Seq<char>
    decreases s.len(),
{
    if s.len() == 0 {
        Seq::empty()
    } else if s.len() == 1 {
        s[0]
    } else {
        join_spec(s.drop_last(), sep) + sep + s.last()
    }
}

/// The strings of `v` separated by `sep`.
pub fn join(v: &Vec<String>, sep: &str) -> (r: String)
    ensures
        r@ == join_spec(strs(v@), sep@),
{
    let mut out: Vec<char> = Vec::new();
    let mut i: usize = 0;
    while i < v.len()
        invariant
            i <= v@.len(),
            out@ == join_spec(strs(v@.subrange(0, i as int)), sep@),
        decreases v@.len() - i,
    {
        let ghost before = out@;
        if i > 0 {
            push_str(&mut out, sep);
        }
        push_str(&mut out, v[i].as_str());
        proof {
            let p = strs(v@.subrange(0, i + 1));
            assert(p.drop_last() =~= strs(v@.subrange(0, i as int)));
            assert(p.last() == v@[i as int]@);
            if i == 0 {
                assert(out@ =~= p[0]);
            }
        }
        i += 1;
    }
    proof {
        assert(v@.subrange(0, v@.len() as int) =~= v@);
    }
    string_from_chars(&out)
}

/// Index of the last non-empty avatar (the other member of a one-to-one conversation), or 0.
pub open spec fn is_peer_index(avatars: Seq<Seq<char>>, p: int) -> bool {
    &&& forall|j: int| p < j < avatars.len() ==> (#[trigger] avatars[j]).len() == 0
    &&& if exists|j: int| 0 <= j < avatars.len() && (#[trigger] avatars[j]).len() > 0 {
        0 <= p < avatars.len() && avatars[p].len() > 0
    } else {
        p == 0
    }
}

pub open spec fn peer_index(avatars: Seq<Seq<char>>) -> int {
    choose|p: int| is_peer_index(avatars, p)
}

proof fn lemma_peer_index(avatars: Seq<Seq<char>>, p: int)
    requires
        is_peer_index(avatars, p),
    ensures
        peer_index(avatars) == p,
{
    let f = peer_index(avatars);
    assert(is_peer_index(avatars, f));
    if exists|j: int| 0 <= j < avatars.len() && (#[trigger] avatars[j]).len() > 0 {
        if f < p {
            assert(avatars[p].len() == 0);
        }
        if p < f {
            assert(avatars[f].len() == 0);
        }
    }
}

fn dm_peer_index(c: &ApiDirectChannel) -> (r: usize)
    ensures
        r as int == peer_index(strs(c.avatars@)),
{
    let ghost a = strs(c.avatars@);
    let mut b: usize = c.avatars.len();
    while b > 0 && c.avatars[b - 1].as_str().is_empty()
        invariant
            a == strs(c.avatars@),
            b <= c.avatars@.len(),
            forall|j: int| b <= j < a.len() ==> (#[trigger] a[j]).len() == 0,
        decreases b,
    {
        b -= 1;
    }
    let r = if b == 0 {
        0
    } else {
        b - 1
    };
    proof {
        if b > 0 {
            assert(a[b - 1] == c.avatars@[b - 1]@);
        } else {
            assert forall|j: int| 0 <= j < a.len() implies (#[trigger] a[j]).len() == 0 by {}
        }
        assert(is_peer_index(a, r as int));
        lemma_peer_index(a, r as int);
    }
    r
}

/// The label of a conversation: its own label, else its members' display names, else their
/// user names, joined with `, `.
pub open spec fn direct_label(c: ApiDirectChannel) -> Seq<char> {
    if c.channel_label@.len() > 0 {
        c.channel_label@
    } else if c.display_names@.len() > 0 {
        join_spec(strs(c.display_names@), ", "@)
    } else {
        join_spec(strs(c.usernames@), ", "@)
    }
}

/// The fields of the list entry for a server conversation. A group shows its own avatar and
/// has no peer; a one-to-one conversation shows the peer at `peer_index`: its avatar (empty when
/// missing), its user id and whether it is online.
pub open spec fn direct_from_api_spec(c: ApiDirectChannel, d: DirectChannel) -> bool {
    let kind = if c.channel_type == 2 {
        DirectKind::Group
    } else {
        DirectKind::Dm
    };
    let p = peer_index(strs(c.avatars@));
    &&& d.id@ == c.channel_id@
    &&& d.label@ == direct_label(c)
    &&& d.kind == kind
    &&& d.member_count == (if c.member_count < 0 {
        0u32
    } else {
        c.member_count as u32
    })
    &&& d.last_sent_timestamp == c.last_sent_timestamp
    &&& d.last_seen_timestamp == c.last_seen_timestamp
    &&& if kind is Group {
        &&& d.avatar@ == c.channel_avatar@
        &&& d.peer_user_id is None
        &&& !d.online
    } else {
        &&& d.avatar@ == (if 0 <= p < c.avatars@.len() {
            c.avatars@[p]@
        } else {
            Seq::empty()
        })
        &&& d.peer_user_id is Some == (0 <= p < c.user_ids@.len())
        &&& (0 <= p < c.user_ids@.len() ==> d.peer_user_id->0@ == c.user_ids@[p]@)
        &&& d.online == (0 <= p < c.onlines@.len() && c.onlines@[p])
    }
}

/// The list entry for a conversation from the server.
pub fn direct_from_api(c: ApiDirectChannel) -> (d: DirectChannel)
    ensures
        direct_from_api_spec(c, d),
{
    let kind = DirectKind::from_raw(c.channel_type);
    let (avatar, peer_user_id, online) = match kind {
        DirectKind::Group => (c.channel_avatar.clone(), None, false),
        DirectKind::Dm => {
            let p = dm_peer_index(&c);
            let avatar = if p < c.avatars.len() {
                c.avatars[p].clone()
            } else {
                String::new()
            };
            let peer = if p < c.user_ids.len() {
                Some(c.user_ids[p].clone())
            } else {
                None
            };
            let online = if p < c.onlines.len() {
                c.onlines[p]
            } else {
                false
            };
            (avatar, peer, online)
        },
    };
    let label = if !c.channel_label.as_str().is_empty() {
        c.channel_label.clone()
    } else if c.display_names.len() > 0 {
        join(&c.display_names, ", ")
    } else {
        join(&c.usernames, ", ")
    };
    let member_count: u32 = if c.member_count < 0 {
        0
    } else {
        c.member_count as u32
    };
    DirectChannel {
        id: c.channel_id,
        label,
        kind,
        avatar,
        peer_user_id,
        online,
        member_count,
        last_sent_timestamp: c.last_sent_timestamp,
        last_seen_timestamp: c.last_seen_timestamp,
    }
}


pub open spec fn newest_first(s: Seq<DirectChannel>) -> bool {
    forall|i: int, j: int|
        0 <= i < j < s.len() ==> (#[trigger] s[i]).last_sent_timestamp
            >= (#[trigger] s[j]).last_sent_timestamp
}

proof fn lemma_insert_recent(s: Seq<DirectChannel>, x: DirectChannel)
    requires
        newest_first(s),
    ensures
        newest_first(insert_recent(s, x)),
        insert_recent(s, x).to_multiset() == s.to_multiset().insert(x),
    decreases s.len(),
{
    broadcast use vstd::seq_lib::group_to_multiset_ensures;

    if s.len() == 0 {
        assert(seq![x] =~= Seq::<DirectChannel>::empty().push(x));
    } else if s.last().last_sent_timestamp >= x.last_sent_timestamp {
        let t = s.push(x);
        assert forall|i: int, j: int| 0 <= i < j < t.len() implies (#[trigger] t[i]).last_sent_timestamp
            >= (#[trigger] t[j]).last_sent_timestamp by {
            if j == t.len() - 1 && i < s.len() - 1 {
                assert(s[i].last_sent_timestamp >= s[s.len() - 1].last_sent_timestamp);
            }
        }
    } else {
        let p = s.drop_last();
        assert(p.push(s.last()) =~= s);
        lemma_insert_recent(p, x);
        let q = insert_recent(p, x);
        let t = q.push(s.last());
        assert forall|i: int, j: int| 0 <= i < j < t.len() implies (#[trigger] t[i]).last_sent_timestamp
            >= (#[trigger] t[j]).last_sent_timestamp by {
            if j == t.len() - 1 {
                // every element of q is x or an element of p, all sent no earlier than s.last()
                assert(q.to_multiset().count(t[i]) > 0);
                assert(q.contains(t[i]));
                if t[i] != x {
                    assert(p.to_multiset().count(t[i]) > 0);
                    assert(p.contains(t[i]));
                    let k = choose|k: int| 0 <= k < p.len() && p[k] == t[i];
                    assert(s[k].last_sent_timestamp >= s[s.len() - 1].last_sent_timestamp);
                }
            }
        }
    }
}

/// Sorting by recent activity puts newer conversations first and keeps every conversation
/// exactly once.
pub proof fn law_sort_recent(s: Seq<DirectChannel>)
    ensures
        newest_first(sort_recent(s)),
        sort_recent(s).to_multiset() == s.to_multiset(),
    decreases s.len(),
{
    broadcast use vstd::seq_lib::group_to_multiset_ensures;

    if s.len() > 0 {
        let p = s.drop_last();
        assert(p.push(s.last()) =~= s);
        law_sort_recent(p);
        lemma_insert_recent(sort_recent(p), s.last());
    }
}

/// The conversation list from the server's list: each entry mapped (see `direct_from_api`),
/// newest activity first (see `sort_recent`).
pub fn directs_from_api(list: Vec<ApiDirectChannel>) -> (r: Vec<DirectChannel>)
    ensures
        exists|mid: Seq<DirectChannel>| #![trigger sort_recent(mid)] {
            &&& mid.len() == list@.len()
            &&& forall|i: int| 0 <= i < list@.len() ==> direct_from_api_spec(list@[i], #[trigger] mid[i])
            &&& r@ == sort_recent(mid)
        },
{
    let ghost d0 = list@;
    let mut list = list;
    let mut out: Vec<DirectChannel> = Vec::new();
    let n = list.len();
    while list.len() > 0
        invariant
            n == d0.len(),
            list@.len() <= n,
            list@ == d0.skip(n - list@.len()),
            out@.len() == n - list@.len(),
            forall|i: int| 0 <= i < out@.len() ==> direct_from_api_spec(d0[i], #[trigger] out@[i]),
        decreases list@.len(),
    {
        let ghost k = n - list@.len();
        let c = list.remove(0);
        proof {
            assert(c == d0[k]);
            assert(list@ =~= d0.skip(k + 1));
        }
        out.push(direct_from_api(c));
    }
    let ghost mid = out@;
    sort_by_recent(&mut out);
    proof {
        assert(out@ == sort_recent(mid));
    }
    out
}

} // verus!
