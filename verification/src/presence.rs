use vstd::prelude::*;

use crate::text::{i64_to_string, int_decimal, owned};

verus! {

/// How long typing notifications of one channel are held back, in milliseconds.
pub const TYPING_NOTIFY_DEBOUNCE_MS: u64 = 250;

/// What the presence store tells its observers.
#[derive(Debug, Clone)]
pub enum PresenceEvent {
    TypingChanged { channel_id: String },
    ChannelPresenceChanged { channel_id: String },
    StatusChanged,
}

/// Who is typing in which channel, who is in which channel, and who is online.
pub struct PresenceState {
    typing: Vec<(String, String)>,
    channel_online: Vec<(String, String)>,
    user_online: Vec<String>,
}

/// The (channel, user) pairs listed in `v`.
pub open spec fn pair_set(v: Seq<(String, String)>) -> Set<(Seq<char>, Seq<char>)> {
    Set::new(|p: (Seq<char>, Seq<char>)| exists|i: int| 0 <= i < v.len() && (#[trigger] v[i]).0@ == p.0 && v[i].1@ == p.1)
}

/// The users listed in `v`.
pub open spec fn name_set(v: Seq<String>) -> Set<Seq<char>> {
    Set::new(|n: Seq<char>| exists|i: int| 0 <= i < v.len() && (#[trigger] v[i])@ == n)
}

pub open spec fn no_dup_pairs(v: Seq<(String, String)>) -> bool {
    forall|i: int, j: int|
        0 <= i < j < v.len() ==> !((#[trigger] v[i]).0@ == (#[trigger] v[j]).0@ && v[i].1@ == v[j].1@)
}

pub open spec fn no_dup_names(v: Seq<String>) -> bool {
    forall|i: int, j: int| 0 <= i < j < v.len() ==> (#[trigger] v[i])@ != (#[trigger] v[j])@
}

/// The name a typing user is shown by: the display name, else the user name, else the id.
pub open spec fn typing_name(display_name: Seq<char>, username: Seq<char>, sender_id: Seq<char>) -> Seq<char> {
    if display_name.len() > 0 {
        display_name
    } else if username.len() > 0 {
        username
    } else {
        sender_id
    }
}

/// The users of `channel` in a set of pairs.
pub open spec fn users_in(pairs: Set<(Seq<char>, Seq<char>)>, channel: Seq<char>) -> Set<Seq<char>> {
    Set::new(|u: Seq<char>| pairs.contains((channel, u)))
}

/// `pairs` after users `joins` joined and then users `leaves` left `channel`.
pub open spec fn moved(
    pairs: Set<(Seq<char>, Seq<char>)>,
    channel: Seq<char>,
    joins: Seq<String>,
    leaves: Seq<String>,
) -> Set<(Seq<char>, Seq<char>)> {
    Set::new(|p: (Seq<char>, Seq<char>)|
        if p.0 == channel {
            (pairs.contains(p) || name_set(joins).contains(p.1)) && !name_set(leaves).contains(p.1)
        } else {
            pairs.contains(p)
        })
}

/// `users` after `joins` came online and then `leaves` went offline.
pub open spec fn online_after(users: Set<Seq<char>>, joins: Seq<String>, leaves: Seq<String>) -> Set<
    Seq<char>,
> {
    users.union(name_set(joins)).difference(name_set(leaves))
}

fn find_pair(v: &Vec<(String, String)>, a: &String, b: &String) -> (r: bool)
    ensures
        r == pair_set(v@).contains((a@, b@)),
{
    let mut i: usize = 0;
    while i < v.len()
        invariant
            i <= v@.len(),
            forall|j: int| 0 <= j < i ==> !(v@[j].0@ == a@ && v@[j].1@ == b@),
        decreases v@.len() - i,
    {
        if v[i].0 == *a && v[i].1 == *b {
            proof {
                assert(v@[i as int].0@ == a@ && v@[i as int].1@ == b@);
            }
            return true;
        }
        i += 1;
    }
    false
}

fn add_pair(v: &mut Vec<(String, String)>, a: &String, b: &String)
    requires
        no_dup_pairs(old(v)@),
    ensures
        no_dup_pairs(final(v)@),
        pair_set(final(v)@) == pair_set(old(v)@).insert((a@, b@)),
{
    if !find_pair(v, a, b) {
        let ghost before = v@;
        v.push((a.clone(), b.clone()));
        proof {
            assert(pair_set(v@) =~= pair_set(before).insert((a@, b@))) by {
                assert forall|p: (Seq<char>, Seq<char>)| #[trigger] pair_set(v@).contains(p) implies pair_set(
                    before,
                ).insert((a@, b@)).contains(p) by {
                    let i = choose|i: int| 0 <= i < v@.len() && (#[trigger] v@[i]).0@ == p.0 && v@[i].1@ == p.1;
                    if i < before.len() {
                        assert(before[i] == v@[i]);
                    }
                }
                assert forall|p: (Seq<char>, Seq<char>)| #[trigger] pair_set(before).insert((a@, b@)).contains(
                    p,
                ) implies pair_set(v@).contains(p) by {
                    if p == (a@, b@) {
                        assert(v@[before.len() as int].0@ == p.0);
                    } else {
                        let i = choose|i: int| 0 <= i < before.len() && (#[trigger] before[i]).0@ == p.0 && before[i].1@ == p.1;
                        assert(v@[i] == before[i]);
                    }
                }
            }
            assert forall|i: int, j: int| 0 <= i < j < v@.len() implies !((#[trigger] v@[i]).0@ == (#[trigger] v@[j]).0@
                && v@[i].1@ == v@[j].1@) by {
                if j == before.len() {
                    assert(v@[i] == before[i]);
                } else {
                    assert(v@[i] == before[i]);
                    assert(v@[j] == before[j]);
                }
            }
        }
    } else {
        proof {
            assert(pair_set(v@) =~= pair_set(v@).insert((a@, b@)));
        }
    }
}

fn remove_pair(v: &mut Vec<(String, String)>, a: &String, b: &String)
    requires
        no_dup_pairs(old(v)@),
    ensures
        no_dup_pairs(final(v)@),
        pair_set(final(v)@) == pair_set(old(v)@).remove((a@, b@)),
{
    let ghost s = v@;
    let mut kept: Vec<(String, String)> = Vec::new();
    let mut i: usize = 0;
    while i < v.len()
        invariant
            s == v@,
            i <= s.len(),
            no_dup_pairs(s),
            no_dup_pairs(kept@),
            forall|k: int| 0 <= k < kept@.len() ==> !((#[trigger] kept@[k]).0@ == a@ && kept@[k].1@ == b@),
            forall|k: int| #![trigger kept@[k]] 0 <= k < kept@.len() ==> exists|j: int| 0 <= j < i && #[trigger] s[j] == kept@[k],
            forall|j: int| 0 <= j < i && !(s[j].0@ == a@ && s[j].1@ == b@) ==> exists|k: int|
                0 <= k < kept@.len() && #[trigger] kept@[k] == #[trigger] s[j],
        decreases s.len() - i,
    {
        if !(v[i].0 == *a && v[i].1 == *b) {
            let ghost before = kept@;
            let x = (v[i].0.clone(), v[i].1.clone());
            proof {
                assert(x == s[i as int]);
            }
            kept.push(x);
            proof {
                assert(kept@[before.len() as int] == s[i as int]);
                assert forall|k: int| #![trigger kept@[k]] 0 <= k < kept@.len() implies exists|j: int| 0 <= j < i + 1 && #[trigger] s[j]
                    == kept@[k] by {
                    if k < before.len() {
                        assert(kept@[k] == before[k]);
                        let j = choose|j: int| 0 <= j < i && #[trigger] s[j] == before[k];
                        assert(s[j] == kept@[k]);
                    } else {
                        assert(s[i as int] == kept@[k]);
                    }
                }
                assert forall|j: int| 0 <= j < i + 1 && !(s[j].0@ == a@ && s[j].1@ == b@) implies exists|k: int|
                    0 <= k < kept@.len() && #[trigger] kept@[k] == #[trigger] s[j] by {
                    if j < i {
                        let k = choose|k: int| 0 <= k < before.len() && #[trigger] before[k] == #[trigger] s[j];
                        assert(kept@[k] == before[k]);
                    } else {
                        assert(kept@[before.len() as int] == s[j]);
                    }
                }
                assert forall|p: int, q: int| 0 <= p < q < kept@.len() implies !((#[trigger] kept@[p]).0@
                    == (#[trigger] kept@[q]).0@ && kept@[p].1@ == kept@[q].1@) by {
                    if q == before.len() {
                        assert(kept@[p] == before[p]);
                        let jp = choose|j: int| 0 <= j < i && #[trigger] s[j] == before[p];
                        if kept@[p].0@ == kept@[q].0@ && kept@[p].1@ == kept@[q].1@ {
                            assert(s[jp].0@ == s[i as int].0@);
                        }
                    } else {
                        assert(kept@[p] == before[p]);
                        assert(kept@[q] == before[q]);
                    }
                }
            }
        }
        i += 1;
    }
    proof {
        assert(pair_set(kept@) =~= pair_set(s).remove((a@, b@))) by {
            assert forall|p: (Seq<char>, Seq<char>)| #[trigger] pair_set(kept@).contains(p) implies pair_set(
                s,
            ).remove((a@, b@)).contains(p) by {
                let k = choose|k: int| 0 <= k < kept@.len() && (#[trigger] kept@[k]).0@ == p.0 && kept@[k].1@ == p.1;
                let j = choose|j: int| 0 <= j < s.len() && #[trigger] s[j] == kept@[k];
                assert(s[j].0@ == p.0);
            }
            assert forall|p: (Seq<char>, Seq<char>)| #[trigger] pair_set(s).remove((a@, b@)).contains(
                p,
            ) implies pair_set(kept@).contains(p) by {
                let j = choose|j: int| 0 <= j < s.len() && (#[trigger] s[j]).0@ == p.0 && s[j].1@ == p.1;
                let k = choose|k: int| 0 <= k < kept@.len() && #[trigger] kept@[k] == #[trigger] s[j];
                assert(kept@[k].0@ == p.0);
            }
        }
    }
    *v = kept;
}

fn find_name(v: &Vec<String>, a: &String) -> (r: bool)
    ensures
        r == name_set(v@).contains(a@),
{
    let mut i: usize = 0;
    while i < v.len()
        invariant
            i <= v@.len(),
            forall|j: int| 0 <= j < i ==> v@[j]@ != a@,
        decreases v@.len() - i,
    {
        if v[i] == *a {
            proof {
                assert(v@[i as int]@ == a@);
            }
            return true;
        }
        i += 1;
    }
    false
}

fn add_name(v: &mut Vec<String>, a: &String)
    requires
        no_dup_names(old(v)@),
    ensures
        no_dup_names(final(v)@),
        name_set(final(v)@) == name_set(old(v)@).insert(a@),
{
    if !find_name(v, a) {
        let ghost before = v@;
        v.push(a.clone());
        proof {
            assert(name_set(v@) =~= name_set(before).insert(a@)) by {
                assert forall|n: Seq<char>| #[trigger] name_set(v@).contains(n) implies name_set(
                    before,
                ).insert(a@).contains(n) by {
                    let i = choose|i: int| 0 <= i < v@.len() && (#[trigger] v@[i])@ == n;
                    if i < before.len() {
                        assert(before[i] == v@[i]);
                    }
                }
                assert forall|n: Seq<char>| #[trigger] name_set(before).insert(a@).contains(n) implies name_set(
                    v@,
                ).contains(n) by {
                    if n == a@ {
                        assert(v@[before.len() as int]@ == n);
                    } else {
                        let i = choose|i: int| 0 <= i < before.len() && (#[trigger] before[i])@ == n;
                        assert(v@[i] == before[i]);
                    }
                }
            }
            assert forall|i: int, j: int| 0 <= i < j < v@.len() implies (#[trigger] v@[i])@ != (#[trigger] v@[j])@ by {
                assert(v@[i] == before[i]);
                if j < before.len() {
                    assert(v@[j] == before[j]);
                }
            }
        }
    } else {
        proof {
            assert(name_set(v@) =~= name_set(v@).insert(a@));
        }
    }
}

fn remove_name(v: &mut Vec<String>, a: &String)
    requires
        no_dup_names(old(v)@),
    ensures
        no_dup_names(final(v)@),
        name_set(final(v)@) == name_set(old(v)@).remove(a@),
{
    let ghost s = v@;
    let mut kept: Vec<String> = Vec::new();
    let mut i: usize = 0;
    while i < v.len()
        invariant
            s == v@,
            i <= s.len(),
            no_dup_names(s),
            no_dup_names(kept@),
            forall|k: int| 0 <= k < kept@.len() ==> (#[trigger] kept@[k])@ != a@,
            forall|k: int| #![trigger kept@[k]] 0 <= k < kept@.len() ==> exists|j: int| 0 <= j < i && #[trigger] s[j] == kept@[k],
            forall|j: int| 0 <= j < i && s[j]@ != a@ ==> exists|k: int|
                0 <= k < kept@.len() && #[trigger] kept@[k] == #[trigger] s[j],
        decreases s.len() - i,
    {
        if !(v[i] == *a) {
            let ghost before = kept@;
            let x = v[i].clone();
            kept.push(x);
            proof {
                assert(kept@[before.len() as int] == s[i as int]);
                assert forall|k: int| #![trigger kept@[k]] 0 <= k < kept@.len() implies exists|j: int| 0 <= j < i + 1 && #[trigger] s[j]
                    == kept@[k] by {
                    if k < before.len() {
                        assert(kept@[k] == before[k]);
                        let j = choose|j: int| 0 <= j < i && #[trigger] s[j] == before[k];
                        assert(s[j] == kept@[k]);
                    } else {
                        assert(s[i as int] == kept@[k]);
                    }
                }
                assert forall|j: int| 0 <= j < i + 1 && s[j]@ != a@ implies exists|k: int|
                    0 <= k < kept@.len() && #[trigger] kept@[k] == #[trigger] s[j] by {
                    if j < i {
                        let k = choose|k: int| 0 <= k < before.len() && #[trigger] before[k] == #[trigger] s[j];
                        assert(kept@[k] == before[k]);
                    } else {
                        assert(kept@[before.len() as int] == s[j]);
                    }
                }
                assert forall|p: int, q: int| 0 <= p < q < kept@.len() implies (#[trigger] kept@[p])@
                    != (#[trigger] kept@[q])@ by {
                    if q == before.len() {
                        assert(kept@[p] == before[p]);
                        let jp = choose|j: int| 0 <= j < i && #[trigger] s[j] == before[p];
                        if kept@[p]@ == kept@[q]@ {
                            assert(s[jp]@ == s[i as int]@);
                        }
                    } else {
                        assert(kept@[p] == before[p]);
                        assert(kept@[q] == before[q]);
                    }
                }
            }
        }
        i += 1;
    }
    proof {
        assert(name_set(kept@) =~= name_set(s).remove(a@)) by {
            assert forall|n: Seq<char>| #[trigger] name_set(kept@).contains(n) implies name_set(
                s,
            ).remove(a@).contains(n) by {
                let k = choose|k: int| 0 <= k < kept@.len() && (#[trigger] kept@[k])@ == n;
                let j = choose|j: int| 0 <= j < s.len() && #[trigger] s[j] == kept@[k];
                assert(s[j]@ == n);
            }
            assert forall|n: Seq<char>| #[trigger] name_set(s).remove(a@).contains(n) implies name_set(
                kept@,
            ).contains(n) by {
                let j = choose|j: int| 0 <= j < s.len() && (#[trigger] s[j])@ == n;
                let k = choose|k: int| 0 <= k < kept@.len() && #[trigger] kept@[k] == #[trigger] s[j];
                assert(kept@[k]@ == n);
            }
        }
    }
    *v = kept;
}

// ---------------------------------------------------------------------------
// The presence state
// ---------------------------------------------------------------------------

impl PresenceState {
    /// The (channel, name) pairs of users typing.
    pub closed spec fn typing_view(&self) -> Set<(Seq<char>, Seq<char>)> {
        pair_set(self.typing@)
    }

    /// The (channel, user id) pairs of users in channels.
    pub closed spec fn channel_view(&self) -> Set<(Seq<char>, Seq<char>)> {
        pair_set(self.channel_online@)
    }

    /// The ids of users online.
    pub closed spec fn online_view(&self) -> Set<Seq<char>> {
        name_set(self.user_online@)
    }

    pub closed spec fn wf(&self) -> bool {
        &&& no_dup_pairs(self.typing@)
        &&& no_dup_pairs(self.channel_online@)
        &&& no_dup_names(self.user_online@)
    }

    pub fn new() -> (r: Self)
        ensures
            r.wf(),
            r.typing_view() == Set::<(Seq<char>, Seq<char>)>::empty(),
            r.channel_view() == Set::<(Seq<char>, Seq<char>)>::empty(),
            r.online_view() == Set::<Seq<char>>::empty(),
    {
        let r = PresenceState { typing: Vec::new(), channel_online: Vec::new(), user_online: Vec::new() };
        proof {
            assert(pair_set(r.typing@) =~= Set::<(Seq<char>, Seq<char>)>::empty());
            assert(pair_set(r.channel_online@) =~= Set::<(Seq<char>, Seq<char>)>::empty());
            assert(name_set(r.user_online@) =~= Set::<Seq<char>>::empty());
        }
        r
    }

    /// A user started (`mode` 0) or stopped typing in a channel; they are shown by
    /// `typing_name`. Returns the channel.
    pub fn apply_typing(
        &mut self,
        channel_id: &str,
        display_name: &str,
        username: &str,
        sender_id: &str,
        mode: i32,
    ) -> (r: String)
        requires
            old(self).wf(),
        ensures
            final(self).wf(),
            r@ == channel_id@,
            ({
                let name = typing_name(display_name@, username@, sender_id@);
                if mode == 0 {
                    final(self).typing_view() == old(self).typing_view().insert((channel_id@, name))
                } else {
                    final(self).typing_view() == old(self).typing_view().remove((channel_id@, name))
                }
            }),
            final(self).channel_view() == old(self).channel_view(),
            final(self).online_view() == old(self).online_view(),
    {
        let ch = owned(channel_id);
        let name = if !display_name.is_empty() {
            owned(display_name)
        } else if !username.is_empty() {
            owned(username)
        } else {
            owned(sender_id)
        };
        if mode == 0 {
            add_pair(&mut self.typing, &ch, &name);
        } else {
            remove_pair(&mut self.typing, &ch, &name);
        }
        ch
    }

    /// Users joined and then users left a channel; they come online or go offline with it.
    pub fn apply_channel_presence(&mut self, channel_id: &str, joins: &[String], leaves: &[String])
        requires
            old(self).wf(),
        ensures
            final(self).wf(),
            final(self).channel_view() == moved(old(self).channel_view(), channel_id@, joins@, leaves@),
            final(self).online_view() == online_after(old(self).online_view(), joins@, leaves@),
            final(self).typing_view() == old(self).typing_view(),
    {
        let ch = owned(channel_id);
        let ghost c0 = self.channel_view();
        let mut i: usize = 0;
        while i < joins.len()
            invariant
                self.wf(),
                i <= joins@.len(),
                ch@ == channel_id@,
                self.typing_view() == old(self).typing_view(),
                self.channel_view() == Set::new(|p: (Seq<char>, Seq<char>)| c0.contains(p) || (p.0 == ch@ && name_set(joins@.take(i as int)).contains(p.1))),
                self.online_view() == old(self).online_view().union(name_set(joins@.take(i as int))),
            decreases joins@.len() - i,
        {
            let ghost cb = self.channel_view();
            let ghost ob = self.online_view();
            add_pair(&mut self.channel_online, &ch, &joins[i]);
            add_name(&mut self.user_online, &joins[i]);
            proof {
                lemma_name_set_take_push(joins@, i as int);
                assert(self.channel_view() =~= Set::new(|p: (Seq<char>, Seq<char>)| c0.contains(p) || (p.0 == ch@ && name_set(joins@.take(i + 1)).contains(p.1))));
                assert(self.online_view() =~= old(self).online_view().union(name_set(joins@.take(i + 1))));
            }
            i += 1;
        }
        proof {
            assert(joins@.take(joins@.len() as int) =~= joins@);
        }
        let ghost c1 = self.channel_view();
        let ghost o1 = self.online_view();
        let mut k: usize = 0;
        while k < leaves.len()
            invariant
                self.wf(),
                k <= leaves@.len(),
                ch@ == channel_id@,
                self.typing_view() == old(self).typing_view(),
                self.channel_view() == Set::new(|p: (Seq<char>, Seq<char>)| c1.contains(p) && !(p.0 == ch@ && name_set(leaves@.take(k as int)).contains(p.1))),
                self.online_view() == o1.difference(name_set(leaves@.take(k as int))),
            decreases leaves@.len() - k,
        {
            remove_pair(&mut self.channel_online, &ch, &leaves[k]);
            remove_name(&mut self.user_online, &leaves[k]);
            proof {
                lemma_name_set_take_push(leaves@, k as int);
                assert(self.channel_view() =~= Set::new(|p: (Seq<char>, Seq<char>)| c1.contains(p) && !(p.0 == ch@ && name_set(leaves@.take(k + 1)).contains(p.1))));
                assert(self.online_view() =~= o1.difference(name_set(leaves@.take(k + 1))));
            }
            k += 1;
        }
        proof {
            assert(leaves@.take(leaves@.len() as int) =~= leaves@);
            assert(self.channel_view() =~= moved(old(self).channel_view(), channel_id@, joins@, leaves@));
            assert(self.online_view() =~= online_after(old(self).online_view(), joins@, leaves@));
        }
    }

    /// Users came online and then users went offline.
    pub fn apply_status_presence(&mut self, joins: &[String], leaves: &[String])
        requires
            old(self).wf(),
        ensures
            final(self).wf(),
            final(self).online_view() == online_after(old(self).online_view(), joins@, leaves@),
            final(self).typing_view() == old(self).typing_view(),
            final(self).channel_view() == old(self).channel_view(),
    {
        let mut i: usize = 0;
        while i < joins.len()
            invariant
                self.wf(),
                i <= joins@.len(),
                self.typing_view() == old(self).typing_view(),
                self.channel_view() == old(self).channel_view(),
                self.online_view() == old(self).online_view().union(name_set(joins@.take(i as int))),
            decreases joins@.len() - i,
        {
            add_name(&mut self.user_online, &joins[i]);
            proof {
                lemma_name_set_take_push(joins@, i as int);
                assert(self.online_view() =~= old(self).online_view().union(name_set(joins@.take(i + 1))));
            }
            i += 1;
        }
        proof {
            assert(joins@.take(joins@.len() as int) =~= joins@);
        }
        let ghost o1 = self.online_view();
        let mut k: usize = 0;
        while k < leaves.len()
            invariant
                self.wf(),
                k <= leaves@.len(),
                self.typing_view() == old(self).typing_view(),
                self.channel_view() == old(self).channel_view(),
                self.online_view() == o1.difference(name_set(leaves@.take(k as int))),
            decreases leaves@.len() - k,
        {
            remove_name(&mut self.user_online, &leaves[k]);
            proof {
                lemma_name_set_take_push(leaves@, k as int);
                assert(self.online_view() =~= o1.difference(name_set(leaves@.take(k + 1))));
            }
            k += 1;
        }
        proof {
            assert(leaves@.take(leaves@.len() as int) =~= leaves@);
        }
    }
}

proof fn lemma_name_set_take_push(v: Seq<String>, i: int)
    requires
        0 <= i < v.len(),
    ensures
        name_set(v.take(i + 1)) == name_set(v.take(i)).insert(v[i]@),
{
    let a = v.take(i);
    let b = v.take(i + 1);
    assert(name_set(b) =~= name_set(a).insert(v[i]@)) by {
        assert forall|n: Seq<char>| #[trigger] name_set(b).contains(n) implies name_set(a).insert(
            v[i]@,
        ).contains(n) by {
            let j = choose|j: int| 0 <= j < b.len() && (#[trigger] b[j])@ == n;
            if j < i {
                assert(a[j] == b[j]);
            }
        }
        assert forall|n: Seq<char>| #[trigger] name_set(a).insert(v[i]@).contains(n) implies name_set(
            b,
        ).contains(n) by {
            if n == v[i]@ {
                assert(b[i]@ == n);
            } else {
                let j = choose|j: int| 0 <= j < a.len() && (#[trigger] a[j])@ == n;
                assert(b[j] == a[j]);
            }
        }
    }
}

/// A realtime presence push, with ids as numbers.
pub enum PresenceUpdate {
    Typing { channel_id: i64, sender_display_name: String, sender_username: String, sender_id: i64, mode: i32 },
    ChannelPresence { channel_id: i64, joins: Vec<i64>, leaves: Vec<i64> },
    StatusPresence { joins: Vec<i64>, leaves: Vec<i64> },
}

fn ids_to_strings(ids: &Vec<i64>) -> (r: Vec<String>)
    ensures
        r@.len() == ids@.len(),
        forall|i: int| 0 <= i < ids@.len() ==> (#[trigger] r@[i])@ == int_decimal(ids@[i] as int),
{
    let mut r: Vec<String> = Vec::new();
    let mut i: usize = 0;
    while i < ids.len()
        invariant
            i <= ids@.len(),
            r@.len() == i,
            forall|j: int| 0 <= j < i ==> (#[trigger] r@[j])@ == int_decimal(ids@[j] as int),
        decreases ids@.len() - i,
    {
        r.push(i64_to_string(ids[i]));
        i += 1;
    }
    r
}

/// The users whose ids are `ids`, written in decimal.
pub open spec fn decimal_set(ids: Seq<i64>) -> Set<Seq<char>> {
    Set::new(|n: Seq<char>| exists|i: int| 0 <= i < ids.len() && int_decimal(#[trigger] ids[i] as int) == n)
}

proof fn lemma_decimal_names(ids: Seq<i64>, names: Seq<String>)
    requires
        names.len() == ids.len(),
        forall|i: int| 0 <= i < ids.len() ==> (#[trigger] names[i])@ == int_decimal(ids[i] as int),
    ensures
        name_set(names) == decimal_set(ids),
{
    assert(name_set(names) =~= decimal_set(ids)) by {
        assert forall|n: Seq<char>| #[trigger] name_set(names).contains(n) implies decimal_set(ids).contains(n) by {
            let i = choose|i: int| 0 <= i < names.len() && (#[trigger] names[i])@ == n;
            assert(int_decimal(ids[i] as int) == n);
        }
        assert forall|n: Seq<char>| #[trigger] decimal_set(ids).contains(n) implies name_set(names).contains(n) by {
            let i = choose|i: int| 0 <= i < ids.len() && int_decimal(#[trigger] ids[i] as int) == n;
            assert(names[i]@ == n);
        }
    }
}

impl PresenceState {
    /// Whether `name` is shown typing in `channel_id`.
    pub fn is_typing(&self, channel_id: &str, name: &str) -> (r: bool)
        ensures
            r == self.typing_view().contains((channel_id@, name@)),
    {
        find_pair(&self.typing, &owned(channel_id), &owned(name))
    }

    /// Whether someone is shown typing in `channel_id`.
    pub fn has_typing(&self, channel_id: &str) -> (r: bool)
        ensures
            r == exists|n: Seq<char>| #[trigger] self.typing_view().contains((channel_id@, n)),
    {
        let ch = owned(channel_id);
        let mut i: usize = 0;
        while i < self.typing.len()
            invariant
                i <= self.typing@.len(),
                ch@ == channel_id@,
                forall|j: int| 0 <= j < i ==> self.typing@[j].0@ != ch@,
            decreases self.typing@.len() - i,
        {
            if self.typing[i].0 == ch {
                proof {
                    let n = self.typing@[i as int].1@;
                    assert(pair_set(self.typing@).contains((channel_id@, n)));
                    assert(self.typing_view().contains((channel_id@, n)));
                }
                return true;
            }
            i += 1;
        }
        proof {
            if exists|n: Seq<char>| #[trigger] self.typing_view().contains((channel_id@, n)) {
                let n = choose|n: Seq<char>| #[trigger] self.typing_view().contains((channel_id@, n));
                let j = choose|j: int| 0 <= j < self.typing@.len() && (#[trigger] self.typing@[j]).0@ == channel_id@ && self.typing@[j].1@ == n;
            }
        }
        false
    }

    /// Whether user `user_id` is in `channel_id`.
    pub fn is_in_channel(&self, channel_id: &str, user_id: &str) -> (r: bool)
        ensures
            r == self.channel_view().contains((channel_id@, user_id@)),
    {
        find_pair(&self.channel_online, &owned(channel_id), &owned(user_id))
    }

    /// Whether anyone is in `channel_id`.
    pub fn has_channel_presence(&self, channel_id: &str) -> (r: bool)
        ensures
            r == exists|n: Seq<char>| #[trigger] self.channel_view().contains((channel_id@, n)),
    {
        let ch = owned(channel_id);
        let mut i: usize = 0;
        while i < self.channel_online.len()
            invariant
                i <= self.channel_online@.len(),
                ch@ == channel_id@,
                forall|j: int| 0 <= j < i ==> self.channel_online@[j].0@ != ch@,
            decreases self.channel_online@.len() - i,
        {
            if self.channel_online[i].0 == ch {
                proof {
                    let n = self.channel_online@[i as int].1@;
                    assert(pair_set(self.channel_online@).contains((channel_id@, n)));
                    assert(self.channel_view().contains((channel_id@, n)));
                }
                return true;
            }
            i += 1;
        }
        proof {
            if exists|n: Seq<char>| #[trigger] self.channel_view().contains((channel_id@, n)) {
                let n = choose|n: Seq<char>| #[trigger] self.channel_view().contains((channel_id@, n));
                let j = choose|j: int| 0 <= j < self.channel_online@.len() && (#[trigger] self.channel_online@[j]).0@ == channel_id@ && self.channel_online@[j].1@ == n;
            }
        }
        false
    }

    /// Whether user `user_id` is online.
    pub fn is_online(&self, user_id: &str) -> (r: bool)
        ensures
            r == self.online_view().contains(user_id@),
    {
        find_name(&self.user_online, &owned(user_id))
    }

    /// The names shown typing in `channel_id`, each once (in the order they started).
    pub fn typing_users(&self, channel_id: &str) -> (r: Vec<String>)
        requires
            self.wf(),
        ensures
            name_set(r@) == users_in(self.typing_view(), channel_id@),
            no_dup_names(r@),
    {
        let ch = owned(channel_id);
        let ghost t = self.typing@;
        let mut r: Vec<String> = Vec::new();
        let mut i: usize = 0;
        proof {
            assert(t.take(0) =~= Seq::<(String, String)>::empty());
            assert(r@.map_values(|x: String| x@) =~= Seq::<Seq<char>>::empty());
        }
        while i < self.typing.len()
            invariant
                t == self.typing@,
                ch@ == channel_id@,
                i <= t.len(),
                r@.map_values(|x: String| x@) == chan_names(t.take(i as int), ch@),
            decreases t.len() - i,
        {
            proof {
                assert(t.take(i + 1).drop_last() =~= t.take(i as int));
                assert(t.take(i + 1).last() == t[i as int]);
            }
            if self.typing[i].0 == ch {
                let ghost before = r@.map_values(|x: String| x@);
                r.push(self.typing[i].1.clone());
                proof {
                    assert(r@.map_values(|x: String| x@) =~= before.push(t[i as int].1@));
                }
            }
            i += 1;
        }
        proof {
            assert(t.take(t.len() as int) =~= t);
            lemma_chan_names(t, ch@);
            let cn = chan_names(t, ch@);
            assert(name_set(r@) =~= users_in(self.typing_view(), channel_id@)) by {
                assert forall|n: Seq<char>| #[trigger] name_set(r@).contains(n) implies users_in(self.typing_view(), channel_id@).contains(n) by {
                    let k = choose|k: int| 0 <= k < r@.len() && (#[trigger] r@[k])@ == n;
                    assert(cn[k] == n);
                }
                assert forall|n: Seq<char>| #[trigger] users_in(self.typing_view(), channel_id@).contains(n) implies name_set(r@).contains(n) by {
                    let k = choose|k: int| 0 <= k < cn.len() && cn[k] == n;
                    assert(r@[k]@ == n);
                }
            }
            assert forall|p: int, q: int| 0 <= p < q < r@.len() implies (#[trigger] r@[p])@ != (#[trigger] r@[q])@ by {
                assert(cn[p] == r@[p]@);
                assert(cn[q] == r@[q]@);
            }
        }
        r
    }

    /// The viewed channel changed: nobody is shown typing any more.
    pub fn clear_typing(&mut self)
        ensures
            old(self).wf() ==> final(self).wf(),
            final(self).typing_view() == Set::<(Seq<char>, Seq<char>)>::empty(),
            final(self).channel_view() == old(self).channel_view(),
            final(self).online_view() == old(self).online_view(),
    {
        self.typing = Vec::new();
        proof {
            assert(pair_set(self.typing@) =~= Set::<(Seq<char>, Seq<char>)>::empty());
        }
    }

    /// Realtime events were lost: all presence is forgotten.
    pub fn clear_all(&mut self)
        ensures
            final(self).wf(),
            final(self).typing_view() == Set::<(Seq<char>, Seq<char>)>::empty(),
            final(self).channel_view() == Set::<(Seq<char>, Seq<char>)>::empty(),
            final(self).online_view() == Set::<Seq<char>>::empty(),
    {
        *self = PresenceState::new();
    }

    /// Applies a realtime push, with ids written in decimal, and says what changed.
    pub fn handle_update(&mut self, update: &PresenceUpdate) -> (r: PresenceEvent)
        requires
            old(self).wf(),
        ensures
            final(self).wf(),
            match *update {
                PresenceUpdate::Typing { channel_id, sender_display_name, sender_username, sender_id, mode } => {
                    let ch = int_decimal(channel_id as int);
                    let name = typing_name(sender_display_name@, sender_username@, int_decimal(sender_id as int));
                    &&& (r matches PresenceEvent::TypingChanged { channel_id: c } && c@ == ch)
                    &&& final(self).typing_view() == (if mode == 0 {
                        old(self).typing_view().insert((ch, name))
                    } else {
                        old(self).typing_view().remove((ch, name))
                    })
                    &&& final(self).channel_view() == old(self).channel_view()
                    &&& final(self).online_view() == old(self).online_view()
                },
                PresenceUpdate::ChannelPresence { channel_id, joins, leaves } => {
                    let ch = int_decimal(channel_id as int);
                    &&& (r matches PresenceEvent::ChannelPresenceChanged { channel_id: c } && c@ == ch)
                    &&& final(self).channel_view() == Set::new(|p: (Seq<char>, Seq<char>)|
                        if p.0 == ch {
                            (old(self).channel_view().contains(p) || decimal_set(joins@).contains(p.1)) && !decimal_set(leaves@).contains(p.1)
                        } else {
                            old(self).channel_view().contains(p)
                        })
                    &&& final(self).online_view() == old(self).online_view().union(decimal_set(joins@)).difference(decimal_set(leaves@))
                    &&& final(self).typing_view() == old(self).typing_view()
                },
                PresenceUpdate::StatusPresence { joins, leaves } => {
                    &&& r is StatusChanged
                    &&& final(self).online_view() == old(self).online_view().union(decimal_set(joins@)).difference(decimal_set(leaves@))
                    &&& final(self).typing_view() == old(self).typing_view()
                    &&& final(self).channel_view() == old(self).channel_view()
                },
            },
    {
        match update {
            PresenceUpdate::Typing { channel_id, sender_display_name, sender_username, sender_id, mode } => {
                let cid = i64_to_string(*channel_id);
                let sid = i64_to_string(*sender_id);
                let ch = self.apply_typing(cid.as_str(), sender_display_name.as_str(), sender_username.as_str(), sid.as_str(), *mode);
                PresenceEvent::TypingChanged { channel_id: ch }
            },
            PresenceUpdate::ChannelPresence { channel_id, joins, leaves } => {
                let cid = i64_to_string(*channel_id);
                let js = ids_to_strings(joins);
                let ls = ids_to_strings(leaves);
                proof {
                    lemma_decimal_names(joins@, js@);
                    lemma_decimal_names(leaves@, ls@);
                }
                self.apply_channel_presence(cid.as_str(), js.as_slice(), ls.as_slice());
                proof {
                    assert(final_channel_ok(self.channel_view(), old(self).channel_view(), cid@, js@, ls@, joins@, leaves@));
                }
                PresenceEvent::ChannelPresenceChanged { channel_id: cid }
            },
            PresenceUpdate::StatusPresence { joins, leaves } => {
                let js = ids_to_strings(joins);
                let ls = ids_to_strings(leaves);
                proof {
                    lemma_decimal_names(joins@, js@);
                    lemma_decimal_names(leaves@, ls@);
                }
                self.apply_status_presence(js.as_slice(), ls.as_slice());
                PresenceEvent::StatusChanged
            },
        }
    }
}

spec fn final_channel_ok(
    after: Set<(Seq<char>, Seq<char>)>,
    before: Set<(Seq<char>, Seq<char>)>,
    ch: Seq<char>,
    js: Seq<String>,
    ls: Seq<String>,
    joins: Seq<i64>,
    leaves: Seq<i64>,
) -> bool {
    after == moved(before, ch, js, ls) ==> after == Set::new(|p: (Seq<char>, Seq<char>)|
        if p.0 == ch {
            (before.contains(p) || decimal_set(joins).contains(p.1)) && !decimal_set(leaves).contains(p.1)
        } else {
            before.contains(p)
        })
}

/// The names paired with `ch` in `t`, in order.
pub open spec fn chan_names(t: Seq<(String, String)>, ch: Seq<char>) -> Seq<Seq<char>>
    decreases t.len(),
{
    if t.len() == 0 {
        Seq::empty()
    } else {
        let p = chan_names(t.drop_last(), ch);
        if t.last().0@ == ch {
            p.push(t.last().1@)
        } else {
            p
        }
    }
}

proof fn lemma_chan_names(t: Seq<(String, String)>, ch: Seq<char>)
    requires
        no_dup_pairs(t),
    ensures
        forall|n: Seq<char>| pair_set(t).contains((ch, n)) <==> exists|k: int| 0 <= k < chan_names(t, ch).len() && chan_names(t, ch)[k] == n,
        forall|p: int, q: int| 0 <= p < q < chan_names(t, ch).len() ==> chan_names(t, ch)[p] != chan_names(t, ch)[q],
    decreases t.len(),
{
    if t.len() > 0 {
        let pre = t.drop_last();
        assert forall|i: int, j: int| 0 <= i < j < pre.len() implies !((#[trigger] pre[i]).0@ == (#[trigger] pre[j]).0@ && pre[i].1@ == pre[j].1@) by {
            assert(pre[i] == t[i]);
            assert(pre[j] == t[j]);
        }
        lemma_chan_names(pre, ch);
        let cp = chan_names(pre, ch);
        let c = chan_names(t, ch);
        assert forall|n: Seq<char>| pair_set(t).contains((ch, n)) <==> exists|k: int| 0 <= k < c.len() && c[k] == n by {
            if pair_set(t).contains((ch, n)) {
                let i = choose|i: int| 0 <= i < t.len() && (#[trigger] t[i]).0@ == ch && t[i].1@ == n;
                if i < pre.len() {
                    assert(pre[i] == t[i]);
                    assert(pair_set(pre).contains((ch, n)));
                    let k = choose|k: int| 0 <= k < cp.len() && cp[k] == n;
                    assert(c[k] == n);
                } else {
                    assert(c[cp.len() as int] == n);
                }
            }
            if exists|k: int| 0 <= k < c.len() && c[k] == n {
                let k = choose|k: int| 0 <= k < c.len() && c[k] == n;
                if k < cp.len() {
                    assert(c[k] == cp[k]);
                    assert(pair_set(pre).contains((ch, n)));
                    let i = choose|i: int| 0 <= i < pre.len() && (#[trigger] pre[i]).0@ == ch && pre[i].1@ == n;
                    assert(t[i] == pre[i]);
                } else {
                    assert(t[t.len() - 1].0@ == ch);
                }
            }
        }
        assert forall|p: int, q: int| 0 <= p < q < c.len() implies c[p] != c[q] by {
            if q < cp.len() {
                assert(c[p] == cp[p]);
                assert(c[q] == cp[q]);
            } else {
                assert(c[p] == cp[p]);
                if c[p] == c[q] {
                    assert(pair_set(pre).contains((ch, c[p])));
                    let i = choose|i: int| 0 <= i < pre.len() && (#[trigger] pre[i]).0@ == ch && pre[i].1@ == c[p];
                    assert(t[i] == pre[i]);
                    assert(t[t.len() - 1].0@ == ch);
                }
            }
        }
    }
}

} // verus!
