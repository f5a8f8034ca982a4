use vstd::prelude::*;

use crate::ids::{ChannelId, UserId};

verus! {

/// What the channel users store tells its observers.
#[derive(Debug, Clone)]
pub enum ChannelUsersEvent {
    Changed { channel_id: ChannelId },
}

/// `existing` with each user of `added` appended that it does not hold yet (checked against
/// the users appended before it too).
pub open spec fn add_users_spec(existing: Seq<UserId>, added: Seq<UserId>) -> Seq<UserId>
    decreases added.len(),
{
    if added.len() == 0 {
        existing
    } else {
        let p = add_users_spec(existing, added.drop_last());
        if p.contains(added.last()) {
            p
        } else {
            p.push(added.last())
        }
    }
}

/// `existing` without the users of `removed`.
pub open spec fn remove_users_spec(existing: Seq<UserId>, removed: Seq<UserId>) -> Seq<UserId> {
    existing.filter(|id: UserId| !removed.contains(id))
}

fn contains_user(ids: &[UserId], id: UserId) -> (r: bool)
    ensures
        r == ids@.contains(id),
{
    let mut i: usize = 0;
    while i < ids.len()
        invariant
            i <= ids@.len(),
            forall|j: int| 0 <= j < i ==> ids@[j] != id,
        decreases ids@.len() - i,
    {
        if ids[i].0 == id.0 {
            return true;
        }
        i += 1;
    }
    false
}

/// Users joined a channel: appends those not listed yet. Returns whether the list changed.
pub fn apply_add(existing: &mut Vec<UserId>, user_ids: &[UserId]) -> (changed: bool)
    ensures
        final(existing)@ == add_users_spec(old(existing)@, user_ids@),
        changed == (final(existing)@ != old(existing)@),
{
    let ghost e0 = existing@;
    let mut changed = false;
    let mut i: usize = 0;
    while i < user_ids.len()
        invariant
            i <= user_ids@.len(),
            existing@ == add_users_spec(e0, user_ids@.subrange(0, i as int)),
            existing@.len() >= e0.len(),
            existing@.subrange(0, e0.len() as int) == e0,
            changed == (existing@.len() > e0.len()),
        decreases user_ids@.len() - i,
    {
        proof {
            assert(user_ids@.subrange(0, i + 1).drop_last() =~= user_ids@.subrange(0, i as int));
        }
        let id = user_ids[i];
        if !contains_user(existing.as_slice(), id) {
            let ghost before = existing@;
            existing.push(id);
            proof {
                assert(existing@.subrange(0, e0.len() as int) =~= before.subrange(
                    0,
                    e0.len() as int,
                ));
            }
            changed = true;
        }
        i += 1;
    }
    proof {
        assert(user_ids@.subrange(0, user_ids@.len() as int) =~= user_ids@);
        if !changed {
            assert(existing@ =~= existing@.subrange(0, e0.len() as int));
        }
    }
    changed
}

/// Users left a channel: drops them. Returns whether the list changed.
pub fn apply_remove(existing: &mut Vec<UserId>, user_ids: &[UserId]) -> (changed: bool)
    ensures
        final(existing)@ == remove_users_spec(old(existing)@, user_ids@),
        changed == (final(existing)@ != old(existing)@),
{
    let ghost e0 = existing@;
    let mut kept: Vec<UserId> = Vec::new();
    let mut i: usize = 0;
    while i < existing.len()
        invariant
            existing@ == e0,
            i <= e0.len(),
            kept@ == remove_users_spec(e0.subrange(0, i as int), user_ids@),
            kept@.len() <= i,
            kept@.len() == i ==> kept@ == e0.subrange(0, i as int),
        decreases e0.len() - i,
    {
        proof {
            reveal_with_fuel(Seq::filter, 1);
            assert(e0.subrange(0, i + 1).drop_last() =~= e0.subrange(0, i as int));
        }
        let id = existing[i];
        if !contains_user(user_ids, id) {
            kept.push(id);
            proof {
                if kept@.len() == i + 1 {
                    assert(kept@ =~= e0.subrange(0, i + 1));
                }
            }
        }
        i += 1;
    }
    proof {
        assert(e0.subrange(0, e0.len() as int) =~= e0);
    }
    let changed = kept.len() != existing.len();
    proof {
        if changed {
            assert(kept@.len() != e0.len());
        }
    }
    *existing = kept;
    changed
}

} // verus!
