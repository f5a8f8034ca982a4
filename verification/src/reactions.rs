use vstd::prelude::*;

use crate::message::{
    first_sender, lemma_first_sender, reaction_key, reaction_key_spec, senders_view,
    upsert_sender, upsert_sender_spec, ReactionSender,
};
use crate::text::owned;

verus! {

/// The reactions of a message with one emoji: who reacted how many times, and the total.
#[derive(Debug, Clone, Default, PartialEq, Eq)]
pub struct Reaction {
    /// The grouping key (the emoji id when there is one, else the short name).
    pub key: String,
    pub emoji: String,
    pub emoji_id: String,
    pub count: u32,
    pub senders: Vec<ReactionSender>,
}

pub struct ReactionView {
    pub key: Seq<char>,
    pub emoji: Seq<char>,
    pub emoji_id: Seq<char>,
    pub count: u32,
    pub senders: Seq<(Seq<char>, u32)>,
}

impl View for Reaction {
    type V = ReactionView;

    open spec fn view(&self) -> ReactionView {
        ReactionView {
            key: self.key@,
            emoji: self.emoji@,
            emoji_id: self.emoji_id@,
            count: self.count,
            senders: senders_view(self.senders@),
        }
    }
}

pub open spec fn reactions_view(v: Seq<Reaction>) -> Seq<ReactionView> {
    v.map_values(|r: Reaction| r@)
}

/// The total of the senders' counts.
pub open spec fn sum_counts(s: Seq<(Seq<char>, u32)>) -> int
    decreases s.len(),
{
    if s.len() == 0 {
        0
    } else {
        sum_counts(s.drop_last()) + s.last().1
    }
}

/// The reaction with its total recomputed from its senders.
pub open spec fn refreshed(r: ReactionView) -> ReactionView {
    ReactionView { count: sum_counts(r.senders) as u32, ..r }
}

proof fn lemma_sum_nonneg(s: Seq<(Seq<char>, u32)>)
    ensures
        sum_counts(s) >= 0,
    decreases s.len(),
{
    if s.len() > 0 {
        lemma_sum_nonneg(s.drop_last());
    }
}

proof fn lemma_sum_prefix(s: Seq<(Seq<char>, u32)>, i: int)
    requires
        0 <= i <= s.len(),
    ensures
        0 <= sum_counts(s.take(i)) <= sum_counts(s),
    decreases s.len() - i,
{
    if i == s.len() {
        assert(s.take(i) =~= s);
        lemma_sum_nonneg(s);
    } else {
        lemma_sum_prefix(s, i + 1);
        assert(s.take(i + 1).drop_last() =~= s.take(i));
        lemma_sum_nonneg(s.take(i));
    }
}

fn total_of(senders: &Vec<ReactionSender>) -> (r: u32)
    requires
        sum_counts(senders_view(senders@)) <= u32::MAX,
    ensures
        r == sum_counts(senders_view(senders@)),
{
    let ghost sv = senders_view(senders@);
    let mut total: u32 = 0;
    let mut i: usize = 0;
    proof {
        assert(sv.take(0) =~= Seq::<(Seq<char>, u32)>::empty());
    }
    while i < senders.len()
        invariant
            sv == senders_view(senders@),
            sum_counts(sv) <= u32::MAX,
            i <= sv.len(),
            total == sum_counts(sv.take(i as int)),
        decreases sv.len() - i,
    {
        proof {
            assert(sv.take(i + 1).drop_last() =~= sv.take(i as int));
            assert(sv.take(i + 1).last() == senders@[i as int]@);
            lemma_sum_prefix(sv, i + 1);
        }
        total = total + senders[i].count;
        i += 1;
    }
    proof {
        assert(sv.take(sv.len() as int) =~= sv);
    }
    total
}

// ---------------------------------------------------------------------------
// Finding a reaction by key
// ---------------------------------------------------------------------------

pub open spec fn is_first_key(rs: Seq<ReactionView>, k: Seq<char>, i: int) -> bool {
    &&& 0 <= i <= rs.len()
    &&& forall|j: int| 0 <= j < i ==> (#[trigger] rs[j]).key != k
    &&& i < rs.len() ==> rs[i].key == k
}

/// The first reaction with key `k` (`rs.len()` when there is none).
pub open spec fn first_key(rs: Seq<ReactionView>, k: Seq<char>) -> int {
    choose|i: int| is_first_key(rs, k, i)
}

proof fn lemma_first_key(rs: Seq<ReactionView>, k: Seq<char>, i: int)
    requires
        is_first_key(rs, k, i),
    ensures
        first_key(rs, k) == i,
{
    let f = first_key(rs, k);
    assert(is_first_key(rs, k, f));
    if f < i {
        assert(rs[f].key != k);
    }
    if i < f {
        assert(rs[i].key != k);
    }
}

fn find_key(rs: &Vec<Reaction>, k: &String) -> (r: usize)
    ensures
        r == first_key(reactions_view(rs@), k@),
{
    let ghost rv = reactions_view(rs@);
    let mut i: usize = 0;
    while i < rs.len() && !(rs[i].key == *k)
        invariant
            rv == reactions_view(rs@),
            i <= rs@.len(),
            forall|j: int| 0 <= j < i ==> (#[trigger] rv[j]).key != k@,
        decreases rs@.len() - i,
    {
        proof {
            assert(rv[i as int] == rs@[i as int]@);
        }
        i += 1;
    }
    proof {
        if i < rs@.len() {
            assert(rv[i as int] == rs@[i as int]@);
        }
        lemma_first_key(rv, k@, i as int);
    }
    i
}

// ---------------------------------------------------------------------------
// A reaction added or removed
// ---------------------------------------------------------------------------

/// The senders without `id`.
pub open spec fn without_sender(s: Seq<(Seq<char>, u32)>, id: Seq<char>) -> Seq<(Seq<char>, u32)> {
    s.filter(|e: (Seq<char>, u32)| e.0 != id)
}

/// The reactions after user `sender` reacted with an emoji (or, `removed`, took its reaction
/// back). No key: nothing changes. Taken back: the user leaves the first reaction of that key,
/// which goes away when nobody is left. Added: the user counts once more in the first reaction
/// of that key, or a new reaction with that user once goes at the end. Totals are recomputed.
pub open spec fn apply_event_spec(
    rs: Seq<ReactionView>,
    emoji_id: Seq<char>,
    emoji: Seq<char>,
    sender: Seq<char>,
    removed: bool,
) -> Seq<ReactionView> {
    let k = reaction_key_spec(emoji_id, emoji);
    let p = first_key(rs, k);
    if k.len() == 0 {
        rs
    } else if removed {
        if p < rs.len() {
            let r2 = refreshed(ReactionView { senders: without_sender(rs[p].senders, sender), ..rs[p] });
            if r2.count == 0 {
                rs.remove(p)
            } else {
                rs.update(p, r2)
            }
        } else {
            rs
        }
    } else if p < rs.len() {
        rs.update(
            p,
            refreshed(ReactionView { senders: upsert_sender_spec(rs[p].senders, sender, 1, false), ..rs[p] }),
        )
    } else {
        rs.push(ReactionView { key: k, emoji, emoji_id, count: 1, senders: seq![(sender, 1u32)] })
    }
}

/// Recomputing the total cannot overflow.
pub open spec fn event_fits(
    rs: Seq<ReactionView>,
    emoji_id: Seq<char>,
    emoji: Seq<char>,
    sender: Seq<char>,
    removed: bool,
) -> bool {
    let k = reaction_key_spec(emoji_id, emoji);
    let p = first_key(rs, k);
    k.len() == 0 || p >= rs.len() || (if removed {
        sum_counts(without_sender(rs[p].senders, sender)) <= u32::MAX
    } else {
        sum_counts(upsert_sender_spec(rs[p].senders, sender, 1, false)) <= u32::MAX
    })
}

proof fn lemma_filter_sum_le(s: Seq<(Seq<char>, u32)>, id: Seq<char>)
    ensures
        0 <= sum_counts(without_sender(s, id)) <= sum_counts(s),
    decreases s.len(),
{
    reveal_with_fuel(Seq::filter, 1);
    if s.len() == 0 {
        assert(without_sender(s, id) =~= Seq::<(Seq<char>, u32)>::empty());
    } else {
        lemma_filter_sum_le(s.drop_last(), id);
        assert(without_sender(s, id) == (if s.last().0 != id {
            without_sender(s.drop_last(), id).push(s.last())
        } else {
            without_sender(s.drop_last(), id)
        }));
        if s.last().0 != id {
            assert(without_sender(s, id).drop_last() =~= without_sender(s.drop_last(), id));
        }
    }
}

fn remove_sender(senders: &mut Vec<ReactionSender>, id: &str)
    ensures
        senders_view(final(senders)@) == without_sender(senders_view(old(senders)@), id@),
{
    let ghost s = senders_view(senders@);
    let key = owned(id);
    let mut kept: Vec<ReactionSender> = Vec::new();
    let mut i: usize = 0;
    proof {
        assert(s.take(0) =~= Seq::<(Seq<char>, u32)>::empty());
        assert(senders_view(kept@) =~= Seq::<(Seq<char>, u32)>::empty());
    }
    while i < senders.len()
        invariant
            s == senders_view(senders@),
            key@ == id@,
            i <= s.len(),
            senders_view(kept@) == without_sender(s.take(i as int), id@),
        decreases s.len() - i,
    {
        proof {
            reveal_with_fuel(Seq::filter, 1);
            assert(s.take(i + 1).drop_last() =~= s.take(i as int));
            assert(s.take(i + 1).last() == senders@[i as int]@);
        }
        if !(senders[i].sender_id == key) {
            let ghost before = senders_view(kept@);
            kept.push(ReactionSender { sender_id: senders[i].sender_id.clone(), count: senders[i].count });
            proof {
                assert(senders_view(kept@) =~= before.push(senders@[i as int]@));
            }
        }
        i += 1;
    }
    proof {
        assert(s.take(s.len() as int) =~= s);
    }
    *senders = kept;
}

/// Applies a reaction push to a message's reactions (see `apply_event_spec`).
pub fn apply_reaction_event(
    reactions: &mut Vec<Reaction>,
    emoji_id: &str,
    emoji: &str,
    sender_id: &str,
    removed: bool,
)
    requires
        event_fits(reactions_view(old(reactions)@), emoji_id@, emoji@, sender_id@, removed),
    ensures
        reactions_view(final(reactions)@) == apply_event_spec(
            reactions_view(old(reactions)@),
            emoji_id@,
            emoji@,
            sender_id@,
            removed,
        ),
{
    let ghost rv = reactions_view(reactions@);
    let key = owned(reaction_key(emoji_id, emoji));
    if key.as_str().is_empty() {
        return;
    }
    let p = find_key(reactions, &key);
    if removed {
        if p < reactions.len() {
            let mut rec = reactions.remove(p);
            proof {
                assert(rec@ == rv[p as int]);
            }
            remove_sender(&mut rec.senders, sender_id);
            proof {
                lemma_filter_sum_le(rv[p as int].senders, sender_id@);
                lemma_sum_nonneg(rv[p as int].senders);
                assert(rv[p as int] == reactions_view(old(reactions)@)[p as int]);
            }
            rec.count = total_of(&rec.senders);
            if rec.count == 0 {
                proof {
                    assert(reactions_view(reactions@) =~= rv.remove(p as int));
                }
            } else {
                let ghost recv = rec@;
                reactions.insert(p, rec);
                proof {
                    assert(reactions_view(reactions@) =~= rv.update(p as int, recv));
                }
            }
        }
    } else if p < reactions.len() {
        let mut rec = reactions.remove(p);
        proof {
            assert(rec@ == rv[p as int]);
        }
        upsert_sender(&mut rec.senders, sender_id, 1, false);
        rec.count = total_of(&rec.senders);
        let ghost recv = rec@;
        reactions.insert(p, rec);
        proof {
            assert(reactions_view(reactions@) =~= rv.update(p as int, recv));
        }
    } else {
        let mut senders: Vec<ReactionSender> = Vec::new();
        senders.push(ReactionSender { sender_id: owned(sender_id), count: 1 });
        let rec = Reaction { key, emoji: owned(emoji), emoji_id: owned(emoji_id), count: 1, senders };
        let ghost recv = rec@;
        reactions.push(rec);
        proof {
            assert(senders_view(senders@) =~= seq![(sender_id@, 1u32)]);
            assert(reactions_view(reactions@) =~= rv.push(recv));
        }
    }
}

// ---------------------------------------------------------------------------
// Undoing an optimistic reaction
// ---------------------------------------------------------------------------

/// The senders after `id`'s count went down by one (not below zero), keeping only senders
/// with a count.
pub open spec fn decremented(s: Seq<(Seq<char>, u32)>, id: Seq<char>) -> Seq<(Seq<char>, u32)> {
    let i = first_sender(s, id);
    let d = if i < s.len() {
        s.update(i, (id, if s[i].1 > 0 { (s[i].1 - 1) as u32 } else { 0 }))
    } else {
        s
    };
    d.filter(|e: (Seq<char>, u32)| e.1 > 0)
}

/// The reactions after an optimistic reaction change failed. A failed removal is undone by
/// adding the reaction again; a failed addition by counting the user once less in the first
/// reaction of that key (which goes away when nobody is left).
pub open spec fn rollback_spec(
    rs: Seq<ReactionView>,
    emoji_id: Seq<char>,
    emoji: Seq<char>,
    sender: Seq<char>,
    was_remove: bool,
) -> Seq<ReactionView> {
    if was_remove {
        apply_event_spec(rs, emoji_id, emoji, sender, false)
    } else {
        let k = reaction_key_spec(emoji_id, emoji);
        let p = first_key(rs, k);
        if p < rs.len() {
            let r2 = refreshed(ReactionView { senders: decremented(rs[p].senders, sender), ..rs[p] });
            if r2.count == 0 {
                rs.remove(p)
            } else {
                rs.update(p, r2)
            }
        } else {
            rs
        }
    }
}

pub open spec fn rollback_fits(
    rs: Seq<ReactionView>,
    emoji_id: Seq<char>,
    emoji: Seq<char>,
    sender: Seq<char>,
    was_remove: bool,
) -> bool {
    if was_remove {
        event_fits(rs, emoji_id, emoji, sender, false)
    } else {
        let p = first_key(rs, reaction_key_spec(emoji_id, emoji));
        p >= rs.len() || sum_counts(decremented(rs[p].senders, sender)) <= u32::MAX
    }
}

fn decrement_sender(senders: &mut Vec<ReactionSender>, id: &str)
    ensures
        senders_view(final(senders)@) == decremented(senders_view(old(senders)@), id@),
{
    let ghost sv = senders_view(senders@);
    let key = owned(id);
    let mut i: usize = 0;
    while i < senders.len() && !(senders[i].sender_id == key)
        invariant
            sv == senders_view(senders@),
            key@ == id@,
            i <= senders@.len(),
            forall|j: int| 0 <= j < i ==> (#[trigger] sv[j]).0 != id@,
        decreases senders@.len() - i,
    {
        proof {
            assert(sv[i as int] == senders@[i as int]@);
        }
        i += 1;
    }
    proof {
        if i < senders@.len() {
            assert(sv[i as int] == senders@[i as int]@);
        }
        lemma_first_sender(sv, id@, i as int);
    }
    let ghost d = if (i as int) < sv.len() {
        sv.update(i as int, (id@, if sv[i as int].1 > 0 { (sv[i as int].1 - 1) as u32 } else { 0 }))
    } else {
        sv
    };
    if i < senders.len() {
        let c = senders[i].count;
        let entry = ReactionSender { sender_id: key, count: if c > 0 { c - 1 } else { 0 } };
        senders.set(i, entry);
        proof {
            assert(senders_view(senders@) =~= d);
        }
    }
    let ghost s = senders_view(senders@);
    let mut kept: Vec<ReactionSender> = Vec::new();
    let mut j: usize = 0;
    proof {
        assert(s.take(0) =~= Seq::<(Seq<char>, u32)>::empty());
        assert(senders_view(kept@) =~= Seq::<(Seq<char>, u32)>::empty());
    }
    while j < senders.len()
        invariant
            s == senders_view(senders@),
            j <= s.len(),
            senders_view(kept@) == s.take(j as int).filter(|e: (Seq<char>, u32)| e.1 > 0),
        decreases s.len() - j,
    {
        proof {
            reveal_with_fuel(Seq::filter, 1);
            assert(s.take(j + 1).drop_last() =~= s.take(j as int));
            assert(s.take(j + 1).last() == senders@[j as int]@);
        }
        if senders[j].count > 0 {
            let ghost before = senders_view(kept@);
            kept.push(ReactionSender { sender_id: senders[j].sender_id.clone(), count: senders[j].count });
            proof {
                assert(senders_view(kept@) =~= before.push(senders@[j as int]@));
            }
        }
        j += 1;
    }
    proof {
        assert(s.take(s.len() as int) =~= s);
    }
    *senders = kept;
}

/// Undoes an optimistic reaction change that the server refused (see `rollback_spec`).
pub fn rollback_reaction(
    reactions: &mut Vec<Reaction>,
    emoji_id: &str,
    emoji: &str,
    sender_id: &str,
    was_remove: bool,
)
    requires
        rollback_fits(reactions_view(old(reactions)@), emoji_id@, emoji@, sender_id@, was_remove),
    ensures
        reactions_view(final(reactions)@) == rollback_spec(
            reactions_view(old(reactions)@),
            emoji_id@,
            emoji@,
            sender_id@,
            was_remove,
        ),
{
    if was_remove {
        apply_reaction_event(reactions, emoji_id, emoji, sender_id, false);
        return;
    }
    let ghost rv = reactions_view(reactions@);
    let key = owned(reaction_key(emoji_id, emoji));
    let p = find_key(reactions, &key);
    if p < reactions.len() {
        let mut rec = reactions.remove(p);
        proof {
            assert(rec@ == rv[p as int]);
        }
        decrement_sender(&mut rec.senders, sender_id);
        rec.count = total_of(&rec.senders);
        if rec.count == 0 {
            proof {
                assert(reactions_view(reactions@) =~= rv.remove(p as int));
            }
        } else {
            let ghost recv = rec@;
            reactions.insert(p, rec);
            proof {
                assert(reactions_view(reactions@) =~= rv.update(p as int, recv));
            }
        }
    }
}

// ---------------------------------------------------------------------------
// Reactions of a loaded message
// ---------------------------------------------------------------------------

/// A reaction as the server lists it with a message (`action` set for a removal).
#[derive(Debug, Clone, Default, PartialEq, Eq)]
pub struct ReactionDesc {
    pub emoji_id: String,
    pub emoji: String,
    pub sender_id: String,
    pub count: u32,
    pub action: bool,
}

/// The listed reactions grouped by key, in first-seen order, before totals: removals and
/// entries without a key are skipped; each entry sets its sender's count (a count of `0`
/// reads as one) in the first group of its key, or opens a new group.
pub open spec fn grouped(raw: Seq<ReactionDesc>) -> Seq<ReactionView>
    decreases raw.len(),
{
    if raw.len() == 0 {
        Seq::empty()
    } else {
        let acc = grouped(raw.drop_last());
        let r = raw.last();
        let k = reaction_key_spec(r.emoji_id@, r.emoji@);
        let c: u32 = if r.count == 0 {
            1
        } else {
            r.count
        };
        if r.action || k.len() == 0 {
            acc
        } else {
            let p = first_key(acc, k);
            if p < acc.len() {
                acc.update(
                    p,
                    ReactionView { senders: upsert_sender_spec(acc[p].senders, r.sender_id@, c, true), ..acc[p] },
                )
            } else {
                acc.push(
                    ReactionView {
                        key: k,
                        emoji: r.emoji@,
                        emoji_id: r.emoji_id@,
                        count: 0,
                        senders: upsert_sender_spec(Seq::empty(), r.sender_id@, c, true),
                    },
                )
            }
        }
    }
}

/// The groups with their totals, without those whose total is zero.
pub open spec fn totals(gs: Seq<ReactionView>) -> Seq<ReactionView>
    decreases gs.len(),
{
    if gs.len() == 0 {
        Seq::empty()
    } else {
        let p = totals(gs.drop_last());
        let r = refreshed(gs.last());
        if r.count > 0 {
            p.push(r)
        } else {
            p
        }
    }
}

pub open spec fn totals_fit(gs: Seq<ReactionView>) -> bool {
    forall|i: int| 0 <= i < gs.len() ==> sum_counts(#[trigger] gs[i].senders) <= u32::MAX
}

/// The reactions of a loaded message (see `grouped` and `totals`).
pub fn aggregate_reactions(raw: &[ReactionDesc]) -> (r: Vec<Reaction>)
    requires
        totals_fit(grouped(raw@)),
    ensures
        reactions_view(r@) == totals(grouped(raw@)),
{
    let mut out: Vec<Reaction> = Vec::new();
    let mut i: usize = 0;
    proof {
        assert(raw@.take(0) =~= Seq::<ReactionDesc>::empty());
        assert(reactions_view(out@) =~= Seq::<ReactionView>::empty());
    }
    while i < raw.len()
        invariant
            i <= raw@.len(),
            reactions_view(out@) == grouped(raw@.take(i as int)),
        decreases raw@.len() - i,
    {
        proof {
            assert(raw@.take(i + 1).drop_last() =~= raw@.take(i as int));
            assert(raw@.take(i + 1).last() == raw@[i as int]);
        }
        let r = &raw[i];
        let key = owned(reaction_key(r.emoji_id.as_str(), r.emoji.as_str()));
        if !r.action && !key.as_str().is_empty() {
            let c: u32 = if r.count == 0 {
                1
            } else {
                r.count
            };
            let ghost ov = reactions_view(out@);
            let p = find_key(&out, &key);
            if p < out.len() {
                let mut rec = out.remove(p);
                proof {
                    assert(rec@ == ov[p as int]);
                }
                upsert_sender(&mut rec.senders, r.sender_id.as_str(), c, true);
                let ghost recv = rec@;
                out.insert(p, rec);
                proof {
                    assert(reactions_view(out@) =~= ov.update(p as int, recv));
                }
            } else {
                let mut senders: Vec<ReactionSender> = Vec::new();
                upsert_sender(&mut senders, r.sender_id.as_str(), c, true);
                let rec = Reaction {
                    key,
                    emoji: r.emoji.clone(),
                    emoji_id: r.emoji_id.clone(),
                    count: 0,
                    senders,
                };
                let ghost recv = rec@;
                out.push(rec);
                proof {
                    assert(senders_view(Seq::<ReactionSender>::empty()) =~= Seq::<(Seq<char>, u32)>::empty());
                    assert(reactions_view(out@) =~= ov.push(recv));
                }
            }
        }
        i += 1;
    }
    proof {
        assert(raw@.take(raw@.len() as int) =~= raw@);
    }
    let ghost g = reactions_view(out@);
    let mut result: Vec<Reaction> = Vec::new();
    let mut rest = out;
    let mut stack: Vec<Reaction> = Vec::new();
    while rest.len() > 0
        invariant
            reactions_view(rest@) + reactions_view(stack@).reverse() == g,
        decreases rest@.len(),
    {
        let ghost rb = rest@;
        let ghost sb = stack@;
        let x = rest.pop().unwrap();
        stack.push(x);
        proof {
            assert(reactions_view(rest@) =~= reactions_view(rb).drop_last());
            assert(reactions_view(stack@) =~= reactions_view(sb).push(x@));
            assert(reactions_view(rest@) + reactions_view(stack@).reverse() =~= g);
        }
    }
    proof {
        assert(reactions_view(stack@).reverse() =~= g);
        assert(g.take(0) =~= Seq::<ReactionView>::empty());
        assert(reactions_view(result@) =~= Seq::<ReactionView>::empty());
    }
    let n = stack.len();
    while stack.len() > 0
        invariant
            n == g.len(),
            stack@.len() <= n,
            totals_fit(g),
            reactions_view(stack@).reverse() == g.subrange(n - stack@.len(), n as int),
            reactions_view(result@) == totals(g.take(n - stack@.len())),
        decreases stack@.len(),
    {
        let ghost k = n - stack@.len();
        let ghost sb = stack@;
        let mut x = stack.pop().unwrap();
        proof {
            assert(reactions_view(sb).reverse()[0] == x@);
            assert(x@ == g[k]);
            assert(reactions_view(stack@).reverse() =~= g.subrange(k + 1, n as int)) by {
                assert forall|q: int| 0 <= q < stack@.len() implies reactions_view(stack@).reverse()[q]
                    == g.subrange(k + 1, n as int)[q] by {
                    assert(reactions_view(stack@).reverse()[q] == reactions_view(sb).reverse()[q + 1]);
                }
            }
            assert(g.take(k + 1).drop_last() =~= g.take(k));
            assert(g.take(k + 1).last() == x@);
            assert(sum_counts(g[k].senders) <= u32::MAX);
        }
        x.count = total_of(&x.senders);
        if x.count > 0 {
            let ghost rb = reactions_view(result@);
            let ghost xv = x@;
            result.push(x);
            proof {
                assert(reactions_view(result@) =~= rb.push(xv));
            }
        }
    }
    proof {
        assert(g.take(n as int) =~= g);
    }
    result
}

// ---------------------------------------------------------------------------
// Laws
// ---------------------------------------------------------------------------

/// Reactions as this module keeps them: each has a key, senders that all count, and a
/// positive total that is the sum of their counts.
pub open spec fn reactions_wf(rs: Seq<ReactionView>) -> bool {
    forall|i: int|
        0 <= i < rs.len() ==> {
            let r = #[trigger] rs[i];
            &&& r.key.len() > 0
            &&& r.count > 0
            &&& r.count == sum_counts(r.senders)
            &&& forall|j: int| 0 <= j < r.senders.len() ==> (#[trigger] r.senders[j]).1 > 0
        }
}

proof fn lemma_filter_all_positive(s: Seq<(Seq<char>, u32)>)
    requires
        forall|j: int| 0 <= j < s.len() ==> (#[trigger] s[j]).1 > 0,
    ensures
        s.filter(|e: (Seq<char>, u32)| e.1 > 0) == s,
    decreases s.len(),
{
    reveal_with_fuel(Seq::filter, 1);
    if s.len() == 0 {
        assert(s.filter(|e: (Seq<char>, u32)| e.1 > 0) =~= s);
    } else {
        let p = s.drop_last();
        assert forall|j: int| 0 <= j < p.len() implies (#[trigger] p[j]).1 > 0 by {
            assert(p[j] == s[j]);
        }
        lemma_filter_all_positive(p);
        assert(s.filter(|e: (Seq<char>, u32)| e.1 > 0) =~= p.push(s.last()));
    }
}

proof fn first_key_index(rs: Seq<ReactionView>, k: Seq<char>) -> (i: int)
    ensures
        is_first_key(rs, k, i),
    decreases rs.len(),
{
    if rs.len() == 0 {
        0
    } else {
        let p = rs.drop_last();
        let j = first_key_index(p, k);
        if j < p.len() {
            assert forall|q: int| 0 <= q < j implies (#[trigger] rs[q]).key != k by {
                assert(rs[q] == p[q]);
            }
            assert(rs[j] == p[j]);
            j
        } else {
            assert forall|q: int| 0 <= q < p.len() implies (#[trigger] rs[q]).key != k by {
                assert(rs[q] == p[q]);
            }
            if rs.last().key == k {
                p.len() as int
            } else {
                rs.len() as int
            }
        }
    }
}

proof fn first_sender_index(s: Seq<(Seq<char>, u32)>, id: Seq<char>) -> (i: int)
    ensures
        crate::message::is_first_sender(s, id, i),
    decreases s.len(),
{
    if s.len() == 0 {
        0
    } else {
        let p = s.drop_last();
        let j = first_sender_index(p, id);
        if j < p.len() {
            assert forall|q: int| 0 <= q < j implies (#[trigger] s[q]).0 != id by {
                assert(s[q] == p[q]);
            }
            assert(s[j] == p[j]);
            j
        } else {
            assert forall|q: int| 0 <= q < p.len() implies (#[trigger] s[q]).0 != id by {
                assert(s[q] == p[q]);
            }
            if s.last().0 == id {
                p.len() as int
            } else {
                s.len() as int
            }
        }
    }
}

/// A reaction added optimistically and then rolled back (the server refused it) leaves the
/// reactions as they were, unless the user's count was already at its maximum.
pub proof fn law_rollback_undoes_add(
    rs: Seq<ReactionView>,
    emoji_id: Seq<char>,
    emoji: Seq<char>,
    sender: Seq<char>,
)
    requires
        reactions_wf(rs),
        ({
            let p = first_key(rs, reaction_key_spec(emoji_id, emoji));
            let i = first_sender(rs[p].senders, sender);
            p < rs.len() && i < rs[p].senders.len() ==> rs[p].senders[i].1 < u32::MAX
        }),
    ensures
        rollback_spec(apply_event_spec(rs, emoji_id, emoji, sender, false), emoji_id, emoji, sender, false)
            == rs,
{
    let k = reaction_key_spec(emoji_id, emoji);
    let p = first_key(rs, k);
    let a = apply_event_spec(rs, emoji_id, emoji, sender, false);
    let w = first_key_index(rs, k);
    lemma_first_key(rs, k, w);
    assert(is_first_key(rs, k, p));
    if k.len() == 0 {
        if p < rs.len() {
            assert(rs[p].key.len() > 0);
        }
        assert(a == rs);
    } else if p < rs.len() {
        let r = rs[p];
        let sv = r.senders;
        let up = upsert_sender_spec(sv, sender, 1, false);
        let r1 = refreshed(ReactionView { senders: up, ..r });
        assert(a == rs.update(p, r1));
        assert(is_first_key(a, k, p)) by {
            assert forall|j: int| 0 <= j < p implies (#[trigger] a[j]).key != k by {
                assert(a[j] == rs[j]);
            }
        }
        lemma_first_key(a, k, p);
        let i = first_sender(sv, sender);
        let wi = first_sender_index(sv, sender);
        lemma_first_sender(sv, sender, wi);
        assert(crate::message::is_first_sender(sv, sender, i));
        if i < sv.len() {
            assert(up == sv.update(i, (sender, (sv[i].1 + 1) as u32)));
            assert(crate::message::is_first_sender(up, sender, i)) by {
                assert forall|j: int| 0 <= j < i implies (#[trigger] up[j]).0 != sender by {
                    assert(up[j] == sv[j]);
                }
            }
            lemma_first_sender(up, sender, i);
            assert(up.update(i, (sender, sv[i].1)) =~= sv);
            lemma_filter_all_positive(sv);
            assert(decremented(up, sender) == sv);
        } else {
            assert(up == sv.push((sender, 1u32)));
            assert(crate::message::is_first_sender(up, sender, sv.len() as int)) by {
                assert forall|j: int| 0 <= j < sv.len() implies (#[trigger] up[j]).0 != sender by {
                    assert(up[j] == sv[j]);
                }
            }
            lemma_first_sender(up, sender, sv.len() as int);
            let d = up.update(sv.len() as int, (sender, 0u32));
            assert(d =~= sv.push((sender, 0u32)));
            lemma_filter_all_positive(sv);
            reveal_with_fuel(Seq::filter, 1);
            assert(d.drop_last() =~= sv);
            assert(decremented(up, sender) == sv);
        }
        assert(a[p] == r1);
        let r2 = refreshed(ReactionView { senders: decremented(a[p].senders, sender), ..a[p] });
        assert(r2 == r);
        assert(a.update(p, r2) =~= rs);
    } else {
        let n = ReactionView { key: k, emoji, emoji_id, count: 1, senders: seq![(sender, 1u32)] };
        assert(a == rs.push(n));
        assert(is_first_key(a, k, rs.len() as int)) by {
            assert forall|j: int| 0 <= j < rs.len() implies (#[trigger] a[j]).key != k by {
                assert(a[j] == rs[j]);
            }
        }
        lemma_first_key(a, k, rs.len() as int);
        let sv = seq![(sender, 1u32)];
        assert(crate::message::is_first_sender(sv, sender, 0));
        lemma_first_sender(sv, sender, 0);
        reveal_with_fuel(Seq::filter, 2);
        let d = sv.update(0, (sender, 0u32));
        assert(d.drop_last() =~= Seq::<(Seq<char>, u32)>::empty());
        assert(decremented(sv, sender) =~= Seq::<(Seq<char>, u32)>::empty());
        assert(a.remove(rs.len() as int) =~= rs);
    }
}

proof fn lemma_sum_positive(s: Seq<(Seq<char>, u32)>, i: int)
    requires
        0 <= i < s.len(),
        s[i].1 > 0,
    ensures
        sum_counts(s) > 0,
    decreases s.len(),
{
    if i < s.len() - 1 {
        lemma_sum_positive(s.drop_last(), i);
    } else {
        lemma_sum_nonneg(s.drop_last());
    }
}

proof fn lemma_without_sender_positive(s: Seq<(Seq<char>, u32)>, id: Seq<char>)
    requires
        forall|j: int| 0 <= j < s.len() ==> (#[trigger] s[j]).1 > 0,
    ensures
        forall|j: int| 0 <= j < without_sender(s, id).len() ==> (#[trigger] without_sender(s, id)[j]).1 > 0,
    decreases s.len(),
{
    reveal_with_fuel(Seq::filter, 1);
    if s.len() > 0 {
        let p = s.drop_last();
        assert forall|j: int| 0 <= j < p.len() implies (#[trigger] p[j]).1 > 0 by {
            assert(p[j] == s[j]);
        }
        lemma_without_sender_positive(p, id);
        let fp = without_sender(p, id);
        let f = without_sender(s, id);
        if s.last().0 != id {
            assert(f == fp.push(s.last()));
            assert forall|j: int| 0 <= j < f.len() implies (#[trigger] f[j]).1 > 0 by {
                if j < fp.len() {
                    assert(f[j] == fp[j]);
                }
            }
        } else {
            assert(f == fp);
        }
    } else {
        assert(without_sender(s, id) =~= Seq::<(Seq<char>, u32)>::empty());
    }
}

/// Adding or taking back a reaction keeps the reactions as this module keeps them.
pub proof fn law_apply_keeps_wf(
    rs: Seq<ReactionView>,
    emoji_id: Seq<char>,
    emoji: Seq<char>,
    sender: Seq<char>,
    removed: bool,
)
    requires
        reactions_wf(rs),
        event_fits(rs, emoji_id, emoji, sender, removed),
    ensures
        reactions_wf(apply_event_spec(rs, emoji_id, emoji, sender, removed)),
{
    let k = reaction_key_spec(emoji_id, emoji);
    let p = first_key(rs, k);
    let a = apply_event_spec(rs, emoji_id, emoji, sender, removed);
    let w = first_key_index(rs, k);
    lemma_first_key(rs, k, w);
    if k.len() == 0 {
    } else if removed {
        if p < rs.len() {
            let f = without_sender(rs[p].senders, sender);
            lemma_without_sender_positive(rs[p].senders, sender);
            lemma_sum_nonneg(f);
            let r2 = refreshed(ReactionView { senders: f, ..rs[p] });
            if r2.count == 0 {
                assert forall|i: int| 0 <= i < a.len() implies {
                    let r = #[trigger] a[i];
                    &&& r.key.len() > 0
                    &&& r.count > 0
                    &&& r.count == sum_counts(r.senders)
                    &&& forall|j: int| 0 <= j < r.senders.len() ==> (#[trigger] r.senders[j]).1 > 0
                } by {
                    if i < p {
                        assert(a[i] == rs[i]);
                    } else {
                        assert(a[i] == rs[i + 1]);
                    }
                }
            } else {
                assert forall|i: int| 0 <= i < a.len() implies {
                    let r = #[trigger] a[i];
                    &&& r.key.len() > 0
                    &&& r.count > 0
                    &&& r.count == sum_counts(r.senders)
                    &&& forall|j: int| 0 <= j < r.senders.len() ==> (#[trigger] r.senders[j]).1 > 0
                } by {
                    if i != p {
                        assert(a[i] == rs[i]);
                    }
                }
            }
        }
    } else if p < rs.len() {
        let sv = rs[p].senders;
        let up = upsert_sender_spec(sv, sender, 1, false);
        let i0 = first_sender(sv, sender);
        let wi = first_sender_index(sv, sender);
        lemma_first_sender(sv, sender, wi);
        assert forall|j: int| 0 <= j < up.len() implies (#[trigger] up[j]).1 > 0 by {
            if i0 < sv.len() {
                if j != i0 {
                    assert(up[j] == sv[j]);
                }
            } else {
                if j < sv.len() {
                    assert(up[j] == sv[j]);
                }
            }
        }
        if i0 < sv.len() {
            lemma_sum_positive(up, i0);
        } else {
            lemma_sum_positive(up, sv.len() as int);
        }
        assert forall|i: int| 0 <= i < a.len() implies {
            let r = #[trigger] a[i];
            &&& r.key.len() > 0
            &&& r.count > 0
            &&& r.count == sum_counts(r.senders)
            &&& forall|j: int| 0 <= j < r.senders.len() ==> (#[trigger] r.senders[j]).1 > 0
        } by {
            if i != p {
                assert(a[i] == rs[i]);
            }
        }
    } else {
        let sv = seq![(sender, 1u32)];
        assert(sum_counts(sv) == 1) by {
            assert(sv.drop_last() =~= Seq::<(Seq<char>, u32)>::empty());
            assert(sum_counts(sv.drop_last()) == 0);
            assert(sv.last().1 == 1);
        }
        assert forall|i: int| 0 <= i < a.len() implies {
            let r = #[trigger] a[i];
            &&& r.key.len() > 0
            &&& r.count > 0
            &&& r.count == sum_counts(r.senders)
            &&& forall|j: int| 0 <= j < r.senders.len() ==> (#[trigger] r.senders[j]).1 > 0
        } by {
            if i < rs.len() {
                assert(a[i] == rs[i]);
            }
        }
    }
}

/// Every group built from listed reactions has senders whose counts are all at least one,
/// and every listed reaction that counts (not a removal, with a key) shows up as its sender
/// in a group of its key.
proof fn lemma_grouped_shows_entries(raw: Seq<ReactionDesc>)
    ensures
        forall|j: int, q: int|
            0 <= j < grouped(raw).len() && 0 <= q < grouped(raw)[j].senders.len() ==> #[trigger] grouped(
                raw,
            )[j].senders[q].1 >= 1,
        forall|i: int|
            0 <= i < raw.len() && !raw[i].action && reaction_key_spec(raw[i].emoji_id@, raw[i].emoji@).len() > 0
                ==> #[trigger] shows_sender(
                grouped(raw),
                reaction_key_spec(raw[i].emoji_id@, raw[i].emoji@),
                raw[i].sender_id@,
            ),
    decreases raw.len(),
{
    if raw.len() == 0 {
        return;
    }
    let p = raw.drop_last();
    lemma_grouped_shows_entries(p);
    let acc = grouped(p);
    let g = grouped(raw);
    let r = raw.last();
    let k = reaction_key_spec(r.emoji_id@, r.emoji@);
    let c: u32 = if r.count == 0 {
        1
    } else {
        r.count
    };
    assert forall|i: int| 0 <= i < p.len() implies #[trigger] raw[i] == p[i] by {}
    if r.action || k.len() == 0 {
        assert(g == acc);
        assert forall|i: int|
            0 <= i < raw.len() && !raw[i].action && reaction_key_spec(raw[i].emoji_id@, raw[i].emoji@).len() > 0
                implies #[trigger] shows_sender(g, reaction_key_spec(raw[i].emoji_id@, raw[i].emoji@), raw[i].sender_id@) by {
            assert(i < p.len());
            assert(raw[i] == p[i]);
        }
        return;
    }
    let pk = first_key_index(acc, k);
    lemma_first_key(acc, k, pk);
    if pk < acc.len() {
        let s = acc[pk].senders;
        let fi = first_sender_index(s, r.sender_id@);
        crate::message::lemma_first_sender(s, r.sender_id@, fi);
        let ups = upsert_sender_spec(s, r.sender_id@, c, true);
        assert(g == acc.update(pk, ReactionView { senders: ups, ..acc[pk] }));
        assert forall|q: int| 0 <= q < ups.len() implies ups[q].1 >= 1 && (q < s.len() ==> ups[q].0 == s[q].0)
            && (q == fi ==> ups[q].0 == r.sender_id@) by {
            if q < s.len() {
                assert(acc[pk].senders[q].1 >= 1);
            }
        }
        assert forall|j: int, q: int| 0 <= j < g.len() && 0 <= q < g[j].senders.len() implies #[trigger] g[j].senders[q].1
            >= 1 by {
            if j != pk {
                assert(g[j] == acc[j]);
                assert(acc[j].senders[q].1 >= 1);
            }
        }
        assert forall|i: int|
            0 <= i < raw.len() && !raw[i].action && reaction_key_spec(raw[i].emoji_id@, raw[i].emoji@).len() > 0
                implies #[trigger] shows_sender(g, reaction_key_spec(raw[i].emoji_id@, raw[i].emoji@), raw[i].sender_id@) by {
            let ki = reaction_key_spec(raw[i].emoji_id@, raw[i].emoji@);
            if i == raw.len() - 1 {
                assert(g[pk].key == k);
                if fi < s.len() {
                    assert(g[pk].senders[fi].0 == r.sender_id@);
                } else {
                    assert(g[pk].senders[s.len() as int].0 == r.sender_id@);
                }
            } else {
                assert(raw[i] == p[i]);
                assert(shows_sender(acc, ki, raw[i].sender_id@));
                let (j, q) = choose|j: int, q: int|
                    0 <= j < acc.len() && 0 <= q < acc[j].senders.len() && acc[j].key == ki && acc[j].senders[q].0
                        == raw[i].sender_id@;
                if j != pk {
                    assert(g[j] == acc[j]);
                } else {
                    assert(g[j].senders[q].0 == acc[j].senders[q].0);
                }
                assert(0 <= j < g.len() && 0 <= q < g[j].senders.len() && g[j].key == ki && g[j].senders[q].0
                    == raw[i].sender_id@);
            }
        }
    } else {
        let e = Seq::<(Seq<char>, u32)>::empty();
        let fi = first_sender_index(e, r.sender_id@);
        crate::message::lemma_first_sender(e, r.sender_id@, fi);
        let ng = ReactionView {
            key: k,
            emoji: r.emoji@,
            emoji_id: r.emoji_id@,
            count: 0,
            senders: upsert_sender_spec(e, r.sender_id@, c, true),
        };
        assert(g == acc.push(ng));
        assert(ng.senders =~= seq![(r.sender_id@, c)]);
        assert forall|j: int, q: int| 0 <= j < g.len() && 0 <= q < g[j].senders.len() implies #[trigger] g[j].senders[q].1
            >= 1 by {
            if j < acc.len() {
                assert(g[j] == acc[j]);
                assert(acc[j].senders[q].1 >= 1);
            }
        }
        assert forall|i: int|
            0 <= i < raw.len() && !raw[i].action && reaction_key_spec(raw[i].emoji_id@, raw[i].emoji@).len() > 0
                implies #[trigger] shows_sender(g, reaction_key_spec(raw[i].emoji_id@, raw[i].emoji@), raw[i].sender_id@) by {
            let ki = reaction_key_spec(raw[i].emoji_id@, raw[i].emoji@);
            if i == raw.len() - 1 {
                assert(g[acc.len() as int] == ng);
                assert(g[acc.len() as int].key == ki);
                assert(g[acc.len() as int].senders[0].0 == r.sender_id@);
            } else {
                assert(raw[i] == p[i]);
                assert(shows_sender(acc, ki, raw[i].sender_id@));
                let (j, q) = choose|j: int, q: int|
                    0 <= j < acc.len() && 0 <= q < acc[j].senders.len() && acc[j].key == ki && acc[j].senders[q].0
                        == raw[i].sender_id@;
                assert(g[j] == acc[j]);
                assert(g[j].key == ki && g[j].senders[q].0 == raw[i].sender_id@);
            }
        }
    }
}

/// Some group of `gs` with key `k` lists sender `id`.
pub open spec fn shows_sender(gs: Seq<ReactionView>, k: Seq<char>, id: Seq<char>) -> bool {
    exists|j: int, q: int|
        0 <= j < gs.len() && 0 <= q < gs[j].senders.len() && #[trigger] gs[j].key == k && #[trigger] gs[j].senders[q].0
            == id
}

proof fn lemma_totals_keep(gs: Seq<ReactionView>, j: int)
    requires
        0 <= j < gs.len(),
        refreshed(gs[j]).count > 0,
    ensures
        exists|m: int| 0 <= m < totals(gs).len() && #[trigger] totals(gs)[m] == refreshed(gs[j]),
    decreases gs.len(),
{
    let p = totals(gs.drop_last());
    if j == gs.len() - 1 {
        assert(totals(gs) == p.push(refreshed(gs.last())));
        assert(totals(gs)[p.len() as int] == refreshed(gs[j]));
    } else {
        assert(gs.drop_last()[j] == gs[j]);
        lemma_totals_keep(gs.drop_last(), j);
        let m = choose|m: int| 0 <= m < p.len() && #[trigger] p[m] == refreshed(gs[j]);
        assert(totals(gs)[m] == p[m]);
    }
}

/// Every listed reaction that counts (not a removal, with an emoji id or name) is shown after
/// aggregation: some aggregated reaction of its key lists its sender with a count of at least
/// one (a listed count of `0` reads as one, so it is never dropped as empty).
pub proof fn law_listed_reaction_is_shown(raw: Seq<ReactionDesc>, i: int)
    requires
        totals_fit(grouped(raw)),
        0 <= i < raw.len(),
        !raw[i].action,
        reaction_key_spec(raw[i].emoji_id@, raw[i].emoji@).len() > 0,
    ensures
        exists|m: int, q: int|
            0 <= m < totals(grouped(raw)).len() && 0 <= q < totals(grouped(raw))[m].senders.len()
                && #[trigger] totals(grouped(raw))[m].key == reaction_key_spec(raw[i].emoji_id@, raw[i].emoji@)
                && #[trigger] totals(grouped(raw))[m].senders[q].0 == raw[i].sender_id@
                && totals(grouped(raw))[m].senders[q].1 >= 1,
{
    let g = grouped(raw);
    let k = reaction_key_spec(raw[i].emoji_id@, raw[i].emoji@);
    lemma_grouped_shows_entries(raw);
    assert(shows_sender(g, k, raw[i].sender_id@));
    let (j, q) = choose|j: int, q: int|
        0 <= j < g.len() && 0 <= q < g[j].senders.len() && g[j].key == k && g[j].senders[q].0 == raw[i].sender_id@;
    assert(g[j].senders[q].1 >= 1);
    lemma_sum_positive(g[j].senders, q);
    assert(sum_counts(g[j].senders) <= u32::MAX);
    assert(refreshed(g[j]).count > 0);
    lemma_totals_keep(g, j);
    let m = choose|m: int| 0 <= m < totals(g).len() && #[trigger] totals(g)[m] == refreshed(g[j]);
    assert(totals(g)[m].senders[q] == g[j].senders[q]);
    assert(totals(g)[m].key == k);
    assert(totals(g)[m].senders[q].0 == raw[i].sender_id@);
}

} // verus!

