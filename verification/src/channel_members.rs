use vstd::prelude::*;

use crate::group_members::UserProfile;
use crate::ids::{ChannelId, ClanId, RoleId, UserId};

verus! {

/// A member of a private channel, with the roles it holds there.
#[derive(Debug, Clone, Default, PartialEq, Eq)]
pub struct ChannelMember {
    pub user_id: UserId,
    pub role_ids: Vec<RoleId>,
}

/// What the channel members store tells its observers.
#[derive(Debug, Clone)]
pub enum ChannelMembersEvent {
    Changed { channel_id: ChannelId },
}

/// The members of one channel.
#[derive(Default)]
pub struct ChannelBucket {
    pub members: Vec<ChannelMember>,
}

/// `i` is the first member of user `id` (`ms.len()` when there is none).
pub open spec fn is_first_member(ms: Seq<ChannelMember>, id: UserId, i: int) -> bool {
    &&& 0 <= i <= ms.len()
    &&& forall|j: int| 0 <= j < i ==> (#[trigger] ms[j]).user_id != id
    &&& i < ms.len() ==> ms[i].user_id == id
}

pub open spec fn first_member(ms: Seq<ChannelMember>, id: UserId) -> int {
    choose|i: int| is_first_member(ms, id, i)
}

/// The member replaces the first entry of its user, or is appended.
pub open spec fn upsert_member_spec(ms: Seq<ChannelMember>, m: ChannelMember) -> Seq<ChannelMember> {
    let i = first_member(ms, m.user_id);
    if i < ms.len() {
        ms.update(i, m)
    } else {
        ms.push(m)
    }
}

pub open spec fn remove_member_spec(ms: Seq<ChannelMember>, id: UserId) -> Seq<ChannelMember> {
    ms.filter(|m: ChannelMember| m.user_id != id)
}

impl ChannelBucket {
    pub fn upsert(&mut self, member: ChannelMember)
        ensures
            final(self).members@ == upsert_member_spec(old(self).members@, member),
    {
        let mut i: usize = 0;
        while i < self.members.len() && self.members[i].user_id.0 != member.user_id.0
            invariant
                i <= self.members@.len(),
                forall|j: int| 0 <= j < i ==> (#[trigger] self.members@[j]).user_id
                    != member.user_id,
            decreases self.members@.len() - i,
        {
            i += 1;
        }
        proof {
            let ms = self.members@;
            assert(is_first_member(ms, member.user_id, i as int));
            let c = first_member(ms, member.user_id);
            assert(is_first_member(ms, member.user_id, c));
            if c < i {
                assert(ms[c].user_id != member.user_id);
            }
            if i < c {
                assert(ms[i as int].user_id != member.user_id);
            }
        }
        if i < self.members.len() {
            self.members.set(i, member);
        } else {
            self.members.push(member);
        }
    }

    pub fn remove(&mut self, user_id: UserId)
        ensures
            final(self).members@ == remove_member_spec(old(self).members@, user_id),
    {
        let ghost ms = self.members@;
        let mut kept: Vec<ChannelMember> = Vec::new();
        let n = self.members.len();
        while self.members.len() > 0
            invariant
                n == ms.len(),
                self.members@.len() <= n,
                self.members@ == ms.subrange(n - self.members@.len(), n as int),
                kept@ == remove_member_spec(ms.subrange(0, n - self.members@.len()), user_id),
            decreases self.members@.len(),
        {
            let ghost k = n - self.members@.len();
            let m = self.members.remove(0);
            proof {
                assert(m == ms[k]);
                assert(self.members@ =~= ms.subrange(k + 1, n as int));
                assert(ms.subrange(0, k + 1).drop_last() =~= ms.subrange(0, k));
                reveal_with_fuel(Seq::filter, 1);
            }
            if m.user_id.0 != user_id.0 {
                kept.push(m);
            }
        }
        proof {
            assert(ms.subrange(0, n as int) =~= ms);
        }
        self.members = kept;
    }
}

/// A channel member as the server lists it.
#[derive(Debug, Clone, Default, PartialEq, Eq)]
pub struct ChannelUserDesc {
    pub user_id: i64,
    pub role_id: Vec<i64>,
}

/// The member a listed channel user stands for, with its role ids in order.
pub fn channel_member_from_proto(cu: &ChannelUserDesc) -> (r: ChannelMember)
    ensures
        r.user_id == UserId(cu.user_id),
        r.role_ids@.len() == cu.role_id@.len(),
        forall|i: int| 0 <= i < cu.role_id@.len() ==> #[trigger] r.role_ids@[i] == RoleId(
            cu.role_id@[i],
        ),
{
    let mut role_ids: Vec<RoleId> = Vec::new();
    let mut i: usize = 0;
    while i < cu.role_id.len()
        invariant
            i <= cu.role_id@.len(),
            role_ids@.len() == i,
            forall|j: int| 0 <= j < i ==> #[trigger] role_ids@[j] == RoleId(cu.role_id@[j]),
        decreases cu.role_id@.len() - i,
    {
        role_ids.push(RoleId(cu.role_id[i]));
        i += 1;
    }
    ChannelMember { user_id: UserId(cu.user_id), role_ids }
}

/// The member a pushed profile stands for: its user, with no roles.
pub fn channel_member_from_redis(user: &UserProfile) -> (r: ChannelMember)
    ensures
        r.user_id == UserId(user.user_id),
        r.role_ids@.len() == 0,
{
    ChannelMember { user_id: UserId(user.user_id), role_ids: Vec::new() }
}

/// A member as a user and its role ids.
pub open spec fn member_view(m: ChannelMember) -> (UserId, Seq<RoleId>) {
    (m.user_id, m.role_ids@)
}

pub open spec fn members_view(ms: Seq<ChannelMember>) -> Seq<(UserId, Seq<RoleId>)> {
    ms.map_values(|m: ChannelMember| member_view(m))
}

/// A listed channel user as a user and its role ids.
pub open spec fn user_view(cu: ChannelUserDesc) -> (UserId, Seq<RoleId>) {
    (UserId(cu.user_id), cu.role_id@.map_values(|r: i64| RoleId(r)))
}

pub open spec fn is_first_view(s: Seq<(UserId, Seq<RoleId>)>, id: UserId, i: int) -> bool {
    &&& 0 <= i <= s.len()
    &&& forall|j: int| 0 <= j < i ==> (#[trigger] s[j]).0 != id
    &&& i < s.len() ==> s[i].0 == id
}

/// `x` replaces the first entry of its user, or is appended.
pub open spec fn upsert_view(s: Seq<(UserId, Seq<RoleId>)>, x: (UserId, Seq<RoleId>)) -> Seq<(UserId, Seq<RoleId>)> {
    let i = choose|i: int| is_first_view(s, x.0, i);
    if i < s.len() {
        s.update(i, x)
    } else {
        s.push(x)
    }
}

/// The members of a channel from its listed users: each user once, where it first appears,
/// with the roles of its last listing.
pub open spec fn collapsed(users: Seq<(UserId, Seq<RoleId>)>) -> Seq<(UserId, Seq<RoleId>)>
    decreases users.len(),
{
    if users.len() == 0 {
        Seq::empty()
    } else {
        upsert_view(collapsed(users.drop_last()), users.last())
    }
}

proof fn lemma_upsert_view(ms: Seq<ChannelMember>, m: ChannelMember)
    ensures
        members_view(upsert_member_spec(ms, m)) == upsert_view(members_view(ms), member_view(m)),
{
    let v = members_view(ms);
    let i = first_member(ms, m.user_id);
    let k = choose|k: int| is_first_view(v, m.user_id, k);
    lemma_first_member_exists(ms, m.user_id);
    assert(is_first_view(v, m.user_id, i)) by {
        assert forall|j: int| 0 <= j < i implies (#[trigger] v[j]).0 != m.user_id by {
            assert(v[j] == member_view(ms[j]));
        }
        if i < v.len() {
            assert(v[i] == member_view(ms[i]));
        }
    }
    assert(is_first_view(v, m.user_id, k));
    if k < i {
        assert(v[k] == member_view(ms[k]));
    }
    if i < k {
        assert(v[i] == member_view(ms[i]));
    }
    assert(members_view(upsert_member_spec(ms, m)) =~= upsert_view(v, member_view(m)));
}

proof fn lemma_first_member_exists(ms: Seq<ChannelMember>, id: UserId)
    ensures
        is_first_member(ms, id, first_member(ms, id)),
    decreases ms.len(),
{
    if ms.len() == 0 {
        assert(is_first_member(ms, id, 0));
    } else {
        let p = ms.drop_last();
        lemma_first_member_exists(p, id);
        let i = first_member(p, id);
        assert forall|j: int| 0 <= j < i implies (#[trigger] ms[j]).user_id != id by {
            assert(ms[j] == p[j]);
        }
        if i < p.len() {
            assert(ms[i] == p[i]);
            assert(is_first_member(ms, id, i));
        } else if ms.last().user_id == id {
            assert(is_first_member(ms, id, p.len() as int));
        } else {
            assert(is_first_member(ms, id, ms.len() as int));
        }
    }
}

/// The members of a channel from the users the server lists for it (see `collapsed`).
pub fn bucket_from_users(users: &Vec<ChannelUserDesc>) -> (r: ChannelBucket)
    ensures
        members_view(r.members@) == collapsed(users@.map_values(|cu: ChannelUserDesc| user_view(cu))),
{
    let ghost uv = users@.map_values(|cu: ChannelUserDesc| user_view(cu));
    let mut bucket = ChannelBucket { members: Vec::new() };
    let mut i: usize = 0;
    proof {
        assert(uv.take(0) =~= Seq::<(UserId, Seq<RoleId>)>::empty());
        assert(members_view(bucket.members@) =~= Seq::<(UserId, Seq<RoleId>)>::empty());
    }
    while i < users.len()
        invariant
            uv == users@.map_values(|cu: ChannelUserDesc| user_view(cu)),
            i <= users@.len(),
            members_view(bucket.members@) == collapsed(uv.take(i as int)),
        decreases users@.len() - i,
    {
        let m = channel_member_from_proto(&users[i]);
        proof {
            assert(uv.take(i + 1).drop_last() =~= uv.take(i as int));
            assert(m.role_ids@ =~= users@[i as int].role_id@.map_values(|r: i64| RoleId(r)));
            assert(member_view(m) == uv[i as int]);
            lemma_upsert_view(bucket.members@, m);
        }
        bucket.upsert(m);
        i += 1;
    }
    proof {
        assert(uv.take(users@.len() as int) =~= uv);
    }
    bucket
}

impl ChannelBucket {
    /// The users of the channel, in order.
    pub fn member_ids(&self) -> (r: Vec<UserId>)
        ensures
            r@ == self.members@.map_values(|m: ChannelMember| m.user_id),
    {
        let mut out: Vec<UserId> = Vec::new();
        let mut i: usize = 0;
        while i < self.members.len()
            invariant
                i <= self.members@.len(),
                out@ == self.members@.take(i as int).map_values(|m: ChannelMember| m.user_id),
            decreases self.members@.len() - i,
        {
            out.push(self.members[i].user_id);
            proof {
                assert(self.members@.take(i + 1).map_values(|m: ChannelMember| m.user_id) =~= self.members@.take(
                    i as int,
                ).map_values(|m: ChannelMember| m.user_id).push(self.members@[i as int].user_id));
            }
            i += 1;
        }
        proof {
            assert(self.members@.take(self.members@.len() as int) =~= self.members@);
        }
        out
    }
}

/// The clan and raw type to list a channel's users with. A channel the channel list knows
/// (`found`) gives its type, and its clan unless that is `0`; then, and for an unknown
/// channel (type `0`), the active clan is used; without one nothing is listed.
pub fn clan_and_type_for_channel(found: Option<(ClanId, i32)>, active_clan_id: Option<ClanId>) -> (r: Option<(ClanId, i32)>)
    ensures
        r == match found {
            Some((clan, t)) => if clan.0 != 0 {
                Some((clan, t))
            } else {
                match active_clan_id {
                    Some(a) => Some((a, t)),
                    None => None,
                }
            },
            None => match active_clan_id {
                Some(a) => Some((a, 0i32)),
                None => None,
            },
        },
{
    match found {
        Some((clan, t)) => if clan.0 != 0 {
            Some((clan, t))
        } else {
            match active_clan_id {
                Some(a) => Some((a, t)),
                None => None,
            }
        },
        None => match active_clan_id {
            Some(a) => Some((a, 0)),
            None => None,
        },
    }
}

} // verus!
