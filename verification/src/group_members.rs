use std::collections::HashMap;

use vstd::prelude::*;

use crate::ids::{ChannelId, UserId};

verus! {

broadcast use vstd::std_specs::hash::group_hash_axioms;

/// A user account as member lists show it.
#[derive(Debug, Clone, Default, PartialEq, Eq)]
pub struct User {
    pub id: UserId,
    pub username: String,
    pub display_name: String,
    pub avatar_url: String,
    pub about_me: String,
    pub create_time_seconds: u32,
}

/// A member of a group conversation.
#[derive(Debug, Clone, Default, PartialEq, Eq)]
pub struct GroupMember {
    pub user: User,
    pub online: bool,
}

pub struct GroupMemberView {
    pub id: i64,
    pub username: Seq<char>,
    pub display_name: Seq<char>,
    pub avatar_url: Seq<char>,
    pub about_me: Seq<char>,
    pub create_time_seconds: u32,
    pub online: bool,
}

impl View for GroupMember {
    type V = GroupMemberView;

    open spec fn view(&self) -> GroupMemberView {
        GroupMemberView {
            id: self.user.id.0,
            username: self.user.username@,
            display_name: self.user.display_name@,
            avatar_url: self.user.avatar_url@,
            about_me: self.user.about_me@,
            create_time_seconds: self.user.create_time_seconds,
            online: self.online,
        }
    }
}

impl GroupMember {
    pub fn id(&self) -> (r: UserId)
        ensures
            r == self.user.id,
    {
        self.user.id
    }

    /// The display name, or the user name when there is none.
    pub fn name(&self) -> (r: &str)
        ensures
            r@ == (if self.user.display_name@.len() > 0 {
                self.user.display_name@
            } else {
                self.user.username@
            }),
    {
        if !self.user.display_name.as_str().is_empty() {
            self.user.display_name.as_str()
        } else {
            self.user.username.as_str()
        }
    }

    pub fn avatar(&self) -> (r: &str)
        ensures
            r@ == self.user.avatar_url@,
    {
        self.user.avatar_url.as_str()
    }
}

/// What the group members store tells its observers.
#[derive(Debug, Clone)]
pub enum GroupMembersEvent {
    Changed { channel_id: ChannelId },
}

// ---------------------------------------------------------------------------
// The member list of one group, indexed by user
// ---------------------------------------------------------------------------

/// `i` is the last position of user `id` in `ms`.
pub open spec fn is_last_of(ms: Seq<GroupMember>, id: i64, i: int) -> bool {
    &&& 0 <= i < ms.len()
    &&& ms[i].user.id.0 == id
    &&& forall|j: int| i < j < ms.len() ==> (#[trigger] ms[j]).user.id.0 != id
}

pub open spec fn has_member(ms: Seq<GroupMember>, id: i64) -> bool {
    exists|i: int| 0 <= i < ms.len() && (#[trigger] ms[i]).user.id.0 == id
}

/// The index holds each member's user once, at the position of that user's last entry.
pub open spec fn index_consistent(ms: Seq<GroupMember>, index: Map<i64, usize>) -> bool {
    &&& forall|id: i64| #[trigger] index.contains_key(id) <==> has_member(ms, id)
    &&& forall|id: i64| #[trigger] index.contains_key(id) ==> is_last_of(ms, id, index[id] as int)
}

/// The members of one group, with an index from user to position.
pub struct GroupBucket {
    members: Vec<GroupMember>,
    by_id: HashMap<i64, usize>,
}

impl GroupBucket {
    pub closed spec fn members_view(&self) -> Seq<GroupMember> {
        self.members@
    }

    pub closed spec fn index(&self) -> Map<i64, usize> {
        self.by_id@
    }

    pub open spec fn wf(&self) -> bool {
        index_consistent(self.members_view(), self.index())
    }

    pub fn new() -> (r: Self)
        ensures
            r.wf(),
            r.members_view() == Seq::<GroupMember>::empty(),
    {
        GroupBucket { members: Vec::new(), by_id: HashMap::new() }
    }

    pub fn from_members(members: Vec<GroupMember>) -> (r: Self)
        ensures
            r.wf(),
            r.members_view() == members@,
    {
        let mut bucket = GroupBucket { members, by_id: HashMap::new() };
        bucket.reindex();
        bucket
    }

    /// Rebuilds the index from the member list.
    pub fn reindex(&mut self)
        ensures
            final(self).wf(),
            final(self).members_view() == old(self).members_view(),
    {
        self.by_id.clear();
        let ghost ms = self.members@;
        let mut i: usize = 0;
        while i < self.members.len()
            invariant
                self.members@ == ms,
                i <= ms.len(),
                index_consistent(ms.subrange(0, i as int), self.by_id@),
            decreases ms.len() - i,
        {
            let id = self.members[i].user.id.0;
            let ghost before = self.by_id@;
            self.by_id.insert(id, i);
            proof {
                let p = ms.subrange(0, i as int);
                let q = ms.subrange(0, i + 1);
                assert forall|k: i64| #[trigger] self.by_id@.contains_key(k) <==> has_member(q, k) by {
                    if has_member(p, k) {
                        let w = choose|w: int| 0 <= w < p.len() && (#[trigger] p[w]).user.id.0 == k;
                        assert(q[w] == p[w]);
                    }
                    if has_member(q, k) && k != id {
                        let w = choose|w: int| 0 <= w < q.len() && (#[trigger] q[w]).user.id.0 == k;
                        assert(w < i);
                        assert(p[w] == q[w]);
                    }
                    if k == id {
                        assert(q[i as int].user.id.0 == k);
                    }
                }
                assert forall|k: i64| #[trigger] self.by_id@.contains_key(k) implies is_last_of(
                    q,
                    k,
                    self.by_id@[k] as int,
                ) by {
                    if k != id {
                        let j = before[k] as int;
                        assert(is_last_of(p, k, j));
                        assert(q[j] == p[j]);
                        assert forall|m: int| j < m < q.len() implies (#[trigger] q[m]).user.id.0
                            != k by {
                            if m < i {
                                assert(q[m] == p[m]);
                            }
                        }
                    }
                }
            }
            i += 1;
        }
        proof {
            assert(ms.subrange(0, ms.len() as int) =~= ms);
        }
    }

    pub fn as_slice(&self) -> (r: &[GroupMember])
        ensures
            r@ == self.members_view(),
    {
        self.members.as_slice()
    }

    /// The entry of a user (its last one, should the list hold the user twice).
    pub fn get(&self, user_id: UserId) -> (r: Option<&GroupMember>)
        requires
            self.wf(),
        ensures
            match r {
                Some(m) => exists|i: int|
                    is_last_of(self.members_view(), user_id.0, i) && *m == self.members_view()[i],
                None => !has_member(self.members_view(), user_id.0),
            },
    {
        match self.by_id.get(&user_id.0) {
            Some(idx) => {
                let i = *idx;
                proof {
                    assert(is_last_of(self.members@, user_id.0, i as int));
                }
                Some(&self.members[i])
            },
            None => None,
        }
    }

    /// Replaces the entry of the member's user, or appends the member when the user is new.
    pub fn upsert(&mut self, member: GroupMember)
        requires
            old(self).wf(),
        ensures
            final(self).wf(),
            has_member(old(self).members_view(), member.user.id.0) ==> final(self).members_view()
                == old(self).members_view().update(
                old(self).index()[member.user.id.0] as int,
                member,
            ),
            !has_member(old(self).members_view(), member.user.id.0) ==> final(self).members_view()
                == old(self).members_view().push(member),
    {
        let id = member.user.id.0;
        let ghost ms = self.members@;
        let ghost idx0 = self.by_id@;
        match self.by_id.get(&id) {
            Some(idx) => {
                let i = *idx;
                proof {
                    assert(is_last_of(ms, id, i as int));
                }
                self.members.set(i, member);
                proof {
                    let q = self.members@;
                    assert forall|k: i64| has_member(q, k) <==> has_member(ms, k) by {
                        if has_member(ms, k) {
                            let w = choose|w: int| 0 <= w < ms.len() && (#[trigger] ms[w]).user.id.0 == k;
                            if w == i {
                                assert(q[w].user.id.0 == k);
                            } else {
                                assert(q[w] == ms[w]);
                            }
                        }
                        if has_member(q, k) {
                            let w = choose|w: int| 0 <= w < q.len() && (#[trigger] q[w]).user.id.0 == k;
                            if w == i {
                                assert(ms[w].user.id.0 == k);
                            } else {
                                assert(q[w] == ms[w]);
                            }
                        }
                    }
                    assert forall|k: i64| #[trigger] self.by_id@.contains_key(k) implies is_last_of(
                        q,
                        k,
                        self.by_id@[k] as int,
                    ) by {
                        let j = idx0[k] as int;
                        assert(is_last_of(ms, k, j));
                        assert forall|m: int| j < m < q.len() implies (#[trigger] q[m]).user.id.0 != k by {
                            if m != i {
                                assert(q[m] == ms[m]);
                            } else {
                                assert(ms[m].user.id.0 == id);
                            }
                        }
                        if j == i {
                            assert(k == id);
                        } else {
                            assert(q[j] == ms[j]);
                        }
                    }
                }
            },
            None => {
                let n = self.members.len();
                self.by_id.insert(id, n);
                self.members.push(member);
                proof {
                    let q = self.members@;
                    assert(!has_member(ms, id));
                    assert forall|k: i64| #[trigger] self.by_id@.contains_key(k) <==> has_member(q, k) by {
                        if has_member(ms, k) {
                            let w = choose|w: int| 0 <= w < ms.len() && (#[trigger] ms[w]).user.id.0 == k;
                            assert(q[w] == ms[w]);
                        }
                        if has_member(q, k) && k != id {
                            let w = choose|w: int| 0 <= w < q.len() && (#[trigger] q[w]).user.id.0 == k;
                            assert(w < n);
                            assert(q[w] == ms[w]);
                        }
                        if k == id {
                            assert(q[n as int].user.id.0 == k);
                        }
                    }
                    assert forall|k: i64| #[trigger] self.by_id@.contains_key(k) implies is_last_of(
                        q,
                        k,
                        self.by_id@[k] as int,
                    ) by {
                        if k != id {
                            let j = idx0[k] as int;
                            assert(is_last_of(ms, k, j));
                            assert(q[j] == ms[j]);
                            assert forall|m: int| j < m < q.len() implies (#[trigger] q[m]).user.id.0
                                != k by {
                                if m < n {
                                    assert(q[m] == ms[m]);
                                }
                            }
                        }
                    }
                }
            },
        }
    }

    /// Drops every member whose user is in `user_ids`, keeping the order of the rest.
    pub fn remove_ids(&mut self, user_ids: &[UserId])
        requires
            old(self).wf(),
        ensures
            final(self).wf(),
            final(self).members_view() == without_users(old(self).members_view(), user_ids@),
    {
        let ghost ms = self.members@;
        let before = self.members.len();
        let mut kept: Vec<GroupMember> = Vec::new();
        while self.members.len() > 0
            invariant
                before == ms.len(),
                self.members@.len() <= before,
                self.members@ == ms.subrange(before - self.members@.len(), before as int),
                kept@ == without_users(ms.subrange(0, before - self.members@.len()), user_ids@),
                kept@.len() == before - self.members@.len() ==> kept@ == ms.subrange(
                    0,
                    before - self.members@.len(),
                ),
                index_consistent(ms, self.by_id@),
            decreases self.members@.len(),
        {
            let ghost k = before - self.members@.len();
            let ghost kb = kept@;
            let m = self.members.remove(0);
            proof {
                assert(m == ms[k]);
                assert(self.members@ =~= ms.subrange(k + 1, before as int));
                assert(ms.subrange(0, k + 1).drop_last() =~= ms.subrange(0, k));
                reveal_with_fuel(Seq::filter, 1);
            }
            if !contains_user(user_ids, m.user.id) {
                kept.push(m);
                proof {
                    if kb.len() == k {
                        assert(kept@ =~= ms.subrange(0, k + 1));
                    }
                }
            } else {
                proof {
                    assert(kb.len() <= k) by {
                        broadcast use vstd::seq_lib::group_filter_ensures;

                    }
                }
            }
        }
        proof {
            assert(ms.subrange(0, before as int) =~= ms);
        }
        let changed = kept.len() != before;
        self.members = kept;
        if changed {
            self.reindex();
        }
    }
}

/// `ms` without the members whose user is one of `ids`.
pub open spec fn without_users(ms: Seq<GroupMember>, ids: Seq<UserId>) -> Seq<GroupMember> {
    ms.filter(|m: GroupMember| !ids.contains(m.user.id))
}

fn contains_user(user_ids: &[UserId], id: UserId) -> (r: bool)
    ensures
        r == user_ids@.contains(id),
{
    let mut i: usize = 0;
    while i < user_ids.len()
        invariant
            i <= user_ids@.len(),
            forall|j: int| 0 <= j < i ==> user_ids@[j] != id,
        decreases user_ids@.len() - i,
    {
        if user_ids[i].0 == id.0 {
            return true;
        }
        i += 1;
    }
    false
}


/// Buckets are kept per channel; a bucket exists once the channel's members were loaded.
pub open spec fn buckets_wf(by_channel: Map<i64, GroupBucket>) -> bool {
    forall|k: i64| #[trigger] by_channel.contains_key(k) ==> by_channel[k].wf()
}

/// Users left a group: they leave its member list, when that list is loaded. Returns whether
/// it is.
pub fn apply_remove_members(
    by_channel: &mut HashMap<i64, GroupBucket>,
    channel_id: ChannelId,
    user_ids: &[UserId],
) -> (r: bool)
    requires
        buckets_wf(old(by_channel)@),
    ensures
        r == old(by_channel)@.contains_key(channel_id.0),
        buckets_wf(final(by_channel)@),
        !r ==> final(by_channel)@ == old(by_channel)@,
        r ==> final(by_channel)@.dom() == old(by_channel)@.dom(),
        r ==> forall|k: i64|
            k != channel_id.0 && #[trigger] old(by_channel)@.contains_key(k)
                ==> final(by_channel)@[k] == old(by_channel)@[k],
        r ==> final(by_channel)@[channel_id.0].members_view() == without_users(
            old(by_channel)@[channel_id.0].members_view(),
            user_ids@,
        ),
{
    let k = channel_id.0;
    let ghost m0 = by_channel@;
    match by_channel.remove(&k) {
        None => {
            proof {
                assert(by_channel@ =~= m0);
            }
            false
        },
        Some(mut bucket) => {
            bucket.remove_ids(user_ids);
            by_channel.insert(k, bucket);
            proof {
                assert(by_channel@.dom() =~= m0.dom());
            }
            true
        },
    }
}

// ---------------------------------------------------------------------------
// Members from the server
// ---------------------------------------------------------------------------

/// A user profile as pushed by the server when users join a group.
#[derive(Debug, Clone, Default, PartialEq, Eq)]
pub struct UserProfile {
    pub user_id: i64,
    pub username: String,
    pub display_name: String,
    pub avatar: String,
    pub online: bool,
    pub create_time_second: u32,
}

/// The member list of a group as the server returns it: parallel arrays, indexed like
/// `user_ids`.
#[derive(Debug, Clone, Default, PartialEq, Eq)]
pub struct MembersResponse {
    pub channel_id: i64,
    pub user_ids: Vec<i64>,
    pub limit: i32,
    pub usernames: Vec<String>,
    pub display_names: Vec<String>,
    pub avatars: Vec<String>,
    pub onlines: Vec<bool>,
}

pub open spec fn member_views(ms: Seq<GroupMember>) -> Seq<GroupMemberView> {
    ms.map_values(|m: GroupMember| m@)
}

pub open spec fn string_at(v: Seq<String>, i: int) -> Seq<char> {
    if 0 <= i < v.len() {
        v[i]@
    } else {
        Seq::empty()
    }
}

/// The member at position `i` of a response: missing entries of the shorter arrays read as
/// empty (offline).
pub open spec fn response_member(r: MembersResponse, i: int) -> GroupMemberView {
    GroupMemberView {
        id: r.user_ids@[i],
        username: string_at(r.usernames@, i),
        display_name: string_at(r.display_names@, i),
        avatar_url: string_at(r.avatars@, i),
        about_me: Seq::empty(),
        create_time_seconds: 0,
        online: 0 <= i < r.onlines@.len() && r.onlines@[i],
    }
}

/// The members of the first `n` user ids of a response, skipping id `0`.
pub open spec fn response_members(r: MembersResponse, n: int) -> Seq<GroupMemberView>
    decreases n,
{
    if n <= 0 {
        Seq::empty()
    } else {
        let p = response_members(r, n - 1);
        if r.user_ids@[n - 1] == 0 {
            p
        } else {
            p.push(response_member(r, n - 1))
        }
    }
}

fn string_at_exec(v: &Vec<String>, i: usize) -> (r: String)
    ensures
        r@ == string_at(v@, i as int),
{
    if i < v.len() {
        v[i].clone()
    } else {
        String::new()
    }
}

/// The members listed in a response, in order, without user id `0`.
pub fn group_members_from_proto(resp: &MembersResponse) -> (r: Vec<GroupMember>)
    ensures
        member_views(r@) == response_members(*resp, resp.user_ids@.len() as int),
{
    let mut out: Vec<GroupMember> = Vec::new();
    let mut i: usize = 0;
    proof {
        assert(member_views(out@) =~= Seq::<GroupMemberView>::empty());
    }
    while i < resp.user_ids.len()
        invariant
            i <= resp.user_ids@.len(),
            member_views(out@) == response_members(*resp, i as int),
        decreases resp.user_ids@.len() - i,
    {
        let uid = resp.user_ids[i];
        if uid != 0 {
            let online = if i < resp.onlines.len() {
                resp.onlines[i]
            } else {
                false
            };
            let m = GroupMember {
                user: User {
                    id: UserId(uid),
                    username: string_at_exec(&resp.usernames, i),
                    display_name: string_at_exec(&resp.display_names, i),
                    avatar_url: string_at_exec(&resp.avatars, i),
                    about_me: String::new(),
                    create_time_seconds: 0,
                },
                online,
            };
            let ghost before = member_views(out@);
            proof {
                assert(m@ == response_member(*resp, i as int));
            }
            out.push(m);
            proof {
                assert(member_views(out@) =~= before.push(response_member(*resp, i as int)));
            }
        }
        i += 1;
    }
    out
}

/// The member a pushed profile stands for.
pub open spec fn profile_member(u: UserProfile) -> GroupMemberView {
    GroupMemberView {
        id: u.user_id,
        username: u.username@,
        display_name: u.display_name@,
        avatar_url: u.avatar@,
        about_me: Seq::empty(),
        create_time_seconds: u.create_time_second,
        online: u.online,
    }
}

/// A pushed profile is a member unless its user id is `0`.
pub fn group_member_from_redis(user: &UserProfile) -> (r: Option<GroupMember>)
    ensures
        match r {
            Some(m) => user.user_id != 0 && m@ == profile_member(*user),
            None => user.user_id == 0,
        },
{
    if user.user_id == 0 {
        return None;
    }
    Some(
        GroupMember {
            user: User {
                id: UserId(user.user_id),
                username: user.username.clone(),
                display_name: user.display_name.clone(),
                avatar_url: user.avatar.clone(),
                about_me: String::new(),
                create_time_seconds: user.create_time_second,
            },
            online: user.online,
        },
    )
}

pub open spec fn is_last_view(vs: Seq<GroupMemberView>, id: i64, i: int) -> bool {
    &&& 0 <= i < vs.len()
    &&& vs[i].id == id
    &&& forall|j: int| i < j < vs.len() ==> (#[trigger] vs[j]).id != id
}

/// `m` replaces the last entry of its user, or is appended when the user is new.
pub open spec fn upserted(vs: Seq<GroupMemberView>, m: GroupMemberView) -> Seq<GroupMemberView> {
    if exists|i: int| is_last_view(vs, m.id, i) {
        vs.update(choose|i: int| is_last_view(vs, m.id, i), m)
    } else {
        vs.push(m)
    }
}

/// The member list after the profiles `us` joined, in order; profiles of user `0` are skipped.
pub open spec fn with_profiles(vs: Seq<GroupMemberView>, us: Seq<UserProfile>) -> Seq<
    GroupMemberView,
>
    decreases us.len(),
{
    if us.len() == 0 {
        vs
    } else {
        let p = with_profiles(vs, us.drop_last());
        if us.last().user_id == 0 {
            p
        } else {
            upserted(p, profile_member(us.last()))
        }
    }
}

proof fn lemma_upsert_views(ms: Seq<GroupMember>, idx: Map<i64, usize>, m: GroupMember, after: Seq<GroupMember>)
    requires
        index_consistent(ms, idx),
        has_member(ms, m.user.id.0) ==> after == ms.update(idx[m.user.id.0] as int, m),
        !has_member(ms, m.user.id.0) ==> after == ms.push(m),
    ensures
        member_views(after) == upserted(member_views(ms), m@),
{
    let vs = member_views(ms);
    let id = m.user.id.0;
    if has_member(ms, id) {
        assert(idx.contains_key(id));
        let j = idx[id] as int;
        assert(is_last_of(ms, id, j));
        assert(is_last_view(vs, id, j));
        let c = choose|i: int| is_last_view(vs, id, i);
        assert(is_last_view(vs, id, c));
        if c < j {
            assert(vs[j].id == id);
        }
        if j < c {
            assert(vs[c].id == id);
        }
        assert(c == j);
        assert(m@.id == id);
        assert(upserted(vs, m@) == vs.update(j, m@));
        assert(member_views(after) =~= vs.update(j, m@));
    } else {
        if exists|i: int| is_last_view(vs, id, i) {
            let c = choose|i: int| is_last_view(vs, id, i);
            assert(ms[c].user.id.0 == id);
        }
        assert(!(exists|i: int| is_last_view(vs, m@.id, i)));
        assert(upserted(vs, m@) == vs.push(m@));
        assert(member_views(after) =~= vs.push(m@));
    }
}

/// Users joined a group: each (but user `0`) is upserted into its member list, when that list
/// is loaded. Returns whether it is.
pub fn apply_add_members(
    by_channel: &mut HashMap<i64, GroupBucket>,
    channel_id: ChannelId,
    users: &[UserProfile],
) -> (r: bool)
    requires
        buckets_wf(old(by_channel)@),
    ensures
        r == old(by_channel)@.contains_key(channel_id.0),
        buckets_wf(final(by_channel)@),
        !r ==> final(by_channel)@ == old(by_channel)@,
        r ==> final(by_channel)@.dom() == old(by_channel)@.dom(),
        r ==> forall|k: i64|
            k != channel_id.0 && #[trigger] old(by_channel)@.contains_key(k)
                ==> final(by_channel)@[k] == old(by_channel)@[k],
        r ==> member_views(final(by_channel)@[channel_id.0].members_view()) == with_profiles(
            member_views(old(by_channel)@[channel_id.0].members_view()),
            users@,
        ),
{
    let k = channel_id.0;
    let ghost m0 = by_channel@;
    match by_channel.remove(&k) {
        None => {
            proof {
                assert(by_channel@ =~= m0);
            }
            false
        },
        Some(mut bucket) => {
            let ghost v0 = member_views(bucket.members_view());
            let mut i: usize = 0;
            proof {
                assert(users@.take(0) =~= Seq::<UserProfile>::empty());
            }
            while i < users.len()
                invariant
                    bucket.wf(),
                    i <= users@.len(),
                    member_views(bucket.members_view()) == with_profiles(v0, users@.take(i as int)),
                decreases users@.len() - i,
            {
                proof {
                    assert(users@.take(i + 1).drop_last() =~= users@.take(i as int));
                    assert(users@.take(i + 1).last() == users@[i as int]);
                }
                match group_member_from_redis(&users[i]) {
                    Some(member) => {
                        let ghost ms = bucket.members_view();
                        let ghost idx = bucket.index();
                        let ghost mv = member@;
                        bucket.upsert(member);
                        proof {
                            lemma_upsert_views(ms, idx, member, bucket.members_view());
                        }
                    },
                    None => {},
                }
                i += 1;
            }
            proof {
                assert(users@.take(users@.len() as int) =~= users@);
            }
            by_channel.insert(k, bucket);
            proof {
                assert(by_channel@.dom() =~= m0.dom());
            }
            true
        },
    }
}

} // verus!
