use vstd::prelude::*;

use crate::ids::ChannelId;

verus! {

/// The channels whose data is being fetched; each at most once.
pub struct LoadingSet {
    pub ids: Vec<ChannelId>,
}

impl LoadingSet {
    pub fn new() -> (r: Self)
        ensures
            r.ids@.len() == 0,
    {
        LoadingSet { ids: Vec::new() }
    }

    pub fn contains(&self, id: ChannelId) -> (r: bool)
        ensures
            r == self.ids@.contains(id),
    {
        let mut i: usize = 0;
        while i < self.ids.len()
            invariant
                i <= self.ids@.len(),
                forall|j: int| 0 <= j < i ==> self.ids@[j] != id,
            decreases self.ids@.len() - i,
        {
            if self.ids[i] == id {
                assert(self.ids@[i as int] == id);
                return true;
            }
            i += 1;
        }
        false
    }

    /// A fetch of channel `id` is wanted: unless one is under way it begins (returns `true`).
    pub fn begin(&mut self, id: ChannelId) -> (start: bool)
        ensures
            start == !old(self).ids@.contains(id),
            final(self).ids@ == if start {
                old(self).ids@.push(id)
            } else {
                old(self).ids@
            },
    {
        if self.contains(id) {
            return false;
        }
        self.ids.push(id);
        true
    }

    /// The fetch of channel `id` ended.
    pub fn finish(&mut self, id: ChannelId)
        ensures
            final(self).ids@ == old(self).ids@.filter(|c: ChannelId| c != id),
    {
        let ghost s = self.ids@;
        let mut kept: Vec<ChannelId> = Vec::new();
        let mut i: usize = 0;
        proof {
            assert(s.take(0) =~= Seq::<ChannelId>::empty());
        }
        while i < self.ids.len()
            invariant
                s == self.ids@,
                i <= s.len(),
                kept@ == s.take(i as int).filter(|c: ChannelId| c != id),
            decreases s.len() - i,
        {
            proof {
                reveal_with_fuel(Seq::filter, 1);
                assert(s.take(i + 1).drop_last() =~= s.take(i as int));
                assert(s.take(i + 1).last() == s[i as int]);
            }
            if self.ids[i] != id {
                kept.push(self.ids[i]);
            }
            i += 1;
        }
        proof {
            assert(s.take(s.len() as int) =~= s);
        }
        self.ids = kept;
    }

    /// Everything is forgotten.
    pub fn clear(&mut self)
        ensures
            final(self).ids@.len() == 0,
    {
        self.ids = Vec::new();
    }
}

/// The users of a channel are fetched unless its id is `0` or its cached list is fresh, and
/// then only when no fetch is under way (see `LoadingSet::begin`).
pub fn begin_channel_users_load(loading: &mut LoadingSet, channel_id: ChannelId, fresh: bool) -> (start: bool)
    ensures
        start == (channel_id.0 != 0 && !fresh && !old(loading).ids@.contains(channel_id)),
        final(loading).ids@ == if start {
            old(loading).ids@.push(channel_id)
        } else {
            old(loading).ids@
        },
{
    if channel_id.0 == 0 || fresh {
        return false;
    }
    loading.begin(channel_id)
}

} // verus!
