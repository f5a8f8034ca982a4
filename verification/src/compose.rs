use std::collections::HashMap;
use std::path::PathBuf;

use vstd::prelude::*;

use crate::ids::ChannelId;
use crate::text::{is_blank, is_blank_seq};

verus! {

broadcast use vstd::std_specs::hash::group_hash_axioms;

/// A filesystem path; the store only carries it.
#[verifier::external_type_specification]
#[verifier::external_body]
pub struct ExPathBuf(PathBuf);

/// `PathBuf::clone` (std): copies the path; nothing about the copy is claimed.
pub assume_specification[ <PathBuf as Clone>::clone ](p: &PathBuf) -> (r: PathBuf);

/// How many channels may hold a draft at once.
pub const MAX_DRAFT_CHANNELS: usize = 50;

#[derive(Debug, Clone, PartialEq, Eq)]
pub enum ComposeTokenKind {
    Mention { user_id: String, role_id: String },
    Hashtag { channel_id: String },
    Emoji { emoji_id: String },
}

/// A mention, hashtag or emoji placed in the draft text, between two character offsets.
#[derive(Debug, Clone, PartialEq, Eq)]
pub struct ComposeToken {
    pub kind: ComposeTokenKind,
    pub display: String,
    pub start: usize,
    pub end: usize,
}

/// A file picked for upload but not sent yet.
#[derive(Debug, Clone)]
pub struct PendingAttachment {
    pub path: PathBuf,
    pub filename: String,
    pub filetype: String,
    pub size: u64,
    pub is_image: bool,
    pub is_video: bool,
    pub width: u32,
    pub height: u32,
    pub duration: i32,
    pub poster_jpeg: Option<Vec<u8>>,
}

/// What the composer of one channel holds: text, its tokens and pending files.
#[derive(Debug, Clone, Default)]
pub struct ComposeDraft {
    pub text: String,
    pub tokens: Vec<ComposeToken>,
    pub attachments: Vec<PendingAttachment>,
}

/// A draft is empty when its text is blank and it has no attachment.
pub open spec fn draft_is_empty(d: ComposeDraft) -> bool {
    is_blank_seq(d.text@) && d.attachments@.len() == 0
}

impl ComposeDraft {
    pub fn is_empty(&self) -> (r: bool)
        ensures
            r == draft_is_empty(*self),
    {
        is_blank(self.text.as_str()) && self.attachments.len() == 0
    }
}

/// `s` without the channel `k`.
pub open spec fn recency_without(s: Seq<i64>, k: i64) -> Seq<i64> {
    s.filter(|x: i64| x != k)
}

/// The recency order after a draft for `k` is written: `k` moves to the back, and the
/// oldest channels fall out past the cap.
pub open spec fn touched(s: Seq<i64>, k: i64) -> Seq<i64> {
    let t = recency_without(s, k).push(k);
    if t.len() > MAX_DRAFT_CHANNELS {
        t.skip(t.len() - MAX_DRAFT_CHANNELS)
    } else {
        t
    }
}

/// The drafts are keyed exactly by the channels of the recency order, which has no repeats
/// and no more than the cap; no stored draft is empty.
pub open spec fn store_inv(drafts: Map<i64, ComposeDraft>, recency: Seq<i64>) -> bool {
    &&& recency.no_duplicates()
    &&& recency.len() <= MAX_DRAFT_CHANNELS
    &&& forall|k: i64|
        #![trigger drafts.contains_key(k)]
        #![trigger recency.contains(k)]
        drafts.contains_key(k) <==> recency.contains(k)
    &&& forall|k: i64| #[trigger] drafts.contains_key(k) ==> !draft_is_empty(drafts[k])
}

/// Unsent drafts per channel, with the least recently written evicted past the cap.
pub struct ComposeStore {
    by_channel: HashMap<i64, ComposeDraft>,
    recent: Vec<i64>,
}

proof fn lemma_without(s: Seq<i64>, k: i64)
    ensures
        forall|x: i64| recency_without(s, k).contains(x) <==> (s.contains(x) && x != k),
        s.no_duplicates() ==> recency_without(s, k).no_duplicates(),
        !s.contains(k) ==> recency_without(s, k) == s,
    decreases s.len(),
{
    broadcast use Seq::lemma_filter_push;

    if s.len() > 0 {
        let p = s.drop_last();
        let x = s.last();
        assert(p.push(x) =~= s);
        lemma_without(p, k);
        assert(forall|y: i64| s.contains(y) <==> (p.contains(y) || y == x)) by {
            assert forall|y: i64| s.contains(y) implies (p.contains(y) || y == x) by {
                let i = choose|i: int| 0 <= i < s.len() && s[i] == y;
                if i < s.len() - 1 {
                    assert(p[i] == y);
                }
            }
            assert forall|y: i64| p.contains(y) implies s.contains(y) by {
                let i = choose|i: int| 0 <= i < p.len() && p[i] == y;
                assert(s[i] == y);
            }
            assert(s[s.len() - 1] == x);
        }
        if s.no_duplicates() {
            assert(p.no_duplicates()) by {
                assert forall|i: int, j: int|
                    0 <= i < p.len() && 0 <= j < p.len() && i != j implies p[i] != p[j] by {
                    assert(p[i] == s[i] && p[j] == s[j]);
                }
            }
            assert(!p.contains(x)) by {
                if p.contains(x) {
                    let i = choose|i: int| 0 <= i < p.len() && p[i] == x;
                    assert(s[i] == s[s.len() - 1]);
                }
            }
            let f = recency_without(p, k);
            if x != k {
                assert(recency_without(s, k) == f.push(x));
                assert(!f.contains(x));
                assert forall|i: int, j: int|
                    0 <= i < f.len() + 1 && 0 <= j < f.len() + 1 && i != j implies f.push(
                    x,
                )[i] != f.push(x)[j] by {
                    if i < f.len() && j < f.len() {
                    } else if i == f.len() {
                        assert(f.contains(f.push(x)[j]) || j == f.len());
                    } else {
                        assert(f.contains(f.push(x)[i]));
                    }
                }
            }
        }
    } else {
        assert(recency_without(s, k) =~= s);
    }
}

proof fn lemma_skip_keeps(t: Seq<i64>, n: int)
    requires
        0 <= n <= t.len(),
        t.no_duplicates(),
    ensures
        t.skip(n).no_duplicates(),
        forall|x: i64| t.skip(n).contains(x) <==> exists|i: int| n <= i < t.len() && t[i] == x,
{
    let u = t.skip(n);
    assert forall|i: int, j: int| 0 <= i < u.len() && 0 <= j < u.len() && i != j implies u[i]
        != u[j] by {
        assert(u[i] == t[i + n] && u[j] == t[j + n]);
    }
    assert forall|x: i64| u.contains(x) implies exists|i: int| n <= i < t.len() && t[i] == x by {
        let i = choose|i: int| 0 <= i < u.len() && u[i] == x;
        assert(t[i + n] == x);
    }
    assert forall|x: i64| (exists|i: int| n <= i < t.len() && t[i] == x) implies u.contains(x) by {
        let i = choose|i: int| n <= i < t.len() && t[i] == x;
        assert(u[i - n] == x);
    }
}

/// Removes every occurrence of `k`, keeping the order of the rest.
fn remove_id(v: &mut Vec<i64>, k: i64)
    ensures
        final(v)@ == recency_without(old(v)@, k),
{
    broadcast use Seq::lemma_filter_push;

    let ghost s = v@;
    let mut out: Vec<i64> = Vec::new();
    let mut i: usize = 0;
    while i < v.len()
        invariant
            v@ == s,
            i <= s.len(),
            out@ == recency_without(s.subrange(0, i as int), k),
        decreases s.len() - i,
    {
        proof {
            let sub = s.subrange(0, i as int);
            assert(s.subrange(0, i as int + 1) =~= sub.push(s[i as int]));
            reveal_with_fuel(Seq::filter, 1);
            assert(sub.push(s[i as int]).drop_last() =~= sub);
            assert(recency_without(sub.push(s[i as int]), k) == (if s[i as int] != k {
                recency_without(sub, k).push(s[i as int])
            } else {
                recency_without(sub, k)
            }));
        }
        let x = v[i];
        if x != k {
            out.push(x);
        }
        i += 1;
    }
    proof {
        assert(s.subrange(0, s.len() as int) =~= s);
    }
    *v = out;
}

impl ComposeStore {
    /// The stored drafts, by channel.
    pub closed spec fn drafts(&self) -> Map<i64, ComposeDraft> {
        self.by_channel@
    }

    /// The channels that hold a draft, least recently written first.
    pub closed spec fn recency(&self) -> Seq<i64> {
        self.recent@
    }

    pub open spec fn wf(&self) -> bool {
        store_inv(self.drafts(), self.recency())
    }

    pub fn new() -> (r: Self)
        ensures
            r.wf(),
            r.drafts() == Map::<i64, ComposeDraft>::empty(),
            r.recency() == Seq::<i64>::empty(),
    {
        ComposeStore { by_channel: HashMap::new(), recent: Vec::new() }
    }

    /// The draft kept for a channel.
    pub fn draft(&self, channel_id: ChannelId) -> (r: Option<&ComposeDraft>)
        ensures
            r == (if self.drafts().contains_key(channel_id.0) {
                Some(&self.drafts()[channel_id.0])
            } else {
                None
            }),
    {
        self.by_channel.get(&channel_id.0)
    }

    /// Stores a draft for a channel; an empty draft clears the channel's draft instead.
    pub fn set_draft(&mut self, channel_id: ChannelId, draft: ComposeDraft)
        requires
            old(self).wf(),
        ensures
            final(self).wf(),
            draft_is_empty(draft) ==> final(self).drafts() == old(self).drafts().remove(
                channel_id.0,
            ) && final(self).recency() == recency_without(old(self).recency(), channel_id.0),
            !draft_is_empty(draft) ==> final(self).recency() == touched(
                old(self).recency(),
                channel_id.0,
            ) && final(self).drafts() == old(self).drafts().insert(channel_id.0, draft).restrict(
                touched(old(self).recency(), channel_id.0).to_set(),
            ),
            !draft_is_empty(draft) ==> final(self).drafts().contains_key(channel_id.0)
                && final(self).drafts()[channel_id.0] == draft,
    {
        if draft.is_empty() {
            self.clear_draft(channel_id);
            return;
        }
        let k = channel_id.0;
        let ghost m0 = self.by_channel@;
        let ghost s0 = self.recent@;
        self.by_channel.insert(k, draft);
        remove_id(&mut self.recent, k);
        self.recent.push(k);
        proof {
            lemma_without(s0, k);
            let t = recency_without(s0, k).push(k);
            assert(self.recent@ == t);
            assert(t.no_duplicates()) by {
                let f = recency_without(s0, k);
                assert forall|i: int, j: int|
                    0 <= i < t.len() && 0 <= j < t.len() && i != j implies t[i] != t[j] by {
                    if i < f.len() && j < f.len() {
                        assert(t[i] == f[i] && t[j] == f[j]);
                    } else if i == f.len() {
                        assert(f.contains(t[j]));
                    } else {
                        assert(f.contains(t[i]));
                    }
                }
            }
            assert forall|x: i64| #[trigger] t.contains(x) <==> (s0.contains(x) || x == k) by {
                if t.contains(x) && x != k {
                    let i = choose|i: int| 0 <= i < t.len() && t[i] == x;
                    assert(i < t.len() - 1);
                    assert(recency_without(s0, k)[i] == x);
                    assert(recency_without(s0, k).contains(x));
                }
                if x == k {
                    assert(t[t.len() - 1] == k);
                }
                if s0.contains(x) && x != k {
                    assert(recency_without(s0, k).contains(x));
                    let i = choose|i: int|
                        0 <= i < recency_without(s0, k).len() && recency_without(s0, k)[i] == x;
                    assert(t[i] == x);
                }
            }
            assert(t.len() <= MAX_DRAFT_CHANNELS + 1) by {
                if s0.contains(k) {
                    let i = choose|i: int| 0 <= i < s0.len() && s0[i] == k;
                    // k leaves, so the filtered order is shorter than `s0`
                    assert(recency_without(s0, k).len() < s0.len()) by {
                        lemma_filter_shorter(s0, k, i);
                    }
                } else {
                    assert(recency_without(s0, k) == s0);
                }
            }
        }
        self.evict_oldest();
        proof {
            law_draft_round_trip(m0, s0, k, draft);
        }
    }

    /// Drops the least recently written channels until the cap holds.
    fn evict_oldest(&mut self)
        requires
            old(self).recent@.no_duplicates(),
            old(self).recent@.len() <= MAX_DRAFT_CHANNELS + 1,
            forall|x: i64|
                #![trigger old(self).by_channel@.contains_key(x)]
                #![trigger old(self).recent@.contains(x)]
                old(self).by_channel@.contains_key(x) <==> old(self).recent@.contains(x),
            forall|x: i64| #[trigger]
                old(self).by_channel@.contains_key(x) ==> !draft_is_empty(old(self).by_channel@[x]),
        ensures
            final(self).wf(),
            final(self).recent@ == (if old(self).recent@.len() > MAX_DRAFT_CHANNELS {
                old(self).recent@.skip(old(self).recent@.len() - MAX_DRAFT_CHANNELS)
            } else {
                old(self).recent@
            }),
            final(self).by_channel@ == old(self).by_channel@.restrict(final(self).recent@.to_set()),
    {
        let ghost s = self.recent@;
        let ghost m = self.by_channel@;
        proof {
            assert(m.restrict(s.to_set()) =~= m);
            lemma_skip_keeps(s, 0);
            assert(s.skip(0) =~= s);
        }
        while self.recent.len() > MAX_DRAFT_CHANNELS
            invariant
                s.no_duplicates(),
                s.len() <= MAX_DRAFT_CHANNELS + 1,
                self.recent@.len() <= s.len(),
                self.recent@.len() >= MAX_DRAFT_CHANNELS || self.recent@.len() == s.len(),
                self.recent@ == s.skip(s.len() - self.recent@.len()),
                self.by_channel@ == m.restrict(self.recent@.to_set()),
                forall|x: i64| #[trigger] m.contains_key(x) ==> !draft_is_empty(m[x]),
            decreases self.recent@.len(),
        {
            let ghost before = self.recent@;
            let oldest = self.recent.remove(0);
            self.by_channel.remove(&oldest);
            proof {
                let n = s.len() - before.len();
                assert(self.recent@ =~= s.skip(n + 1));
                lemma_skip_keeps(s, n);
                assert(!self.recent@.contains(oldest)) by {
                    if self.recent@.contains(oldest) {
                        let i = choose|i: int|
                            0 <= i < self.recent@.len() && self.recent@[i] == oldest;
                        assert(before[i + 1] == before[0]);
                    }
                }
                let cur = self.recent@;
                assert forall|x: i64| (before.contains(x) && x != oldest) <==> cur.contains(x) by {
                    if cur.contains(x) {
                        let i = choose|i: int| 0 <= i < cur.len() && cur[i] == x;
                        assert(before[i + 1] == x);
                    }
                    if before.contains(x) && x != oldest {
                        let i = choose|i: int| 0 <= i < before.len() && before[i] == x;
                        assert(i > 0);
                        assert(cur[i - 1] == x);
                    }
                }
                assert(self.by_channel@ =~= m.restrict(self.recent@.to_set()));
            }
        }
        proof {
            let r = self.recent@;
            lemma_skip_keeps(s, s.len() - r.len());
            assert(r.len() == s.len() || r.len() == MAX_DRAFT_CHANNELS);
            if r.len() == s.len() {
                assert(r =~= s);
            }
            assert forall|x: i64| #[trigger]
                self.by_channel@.contains_key(x) <==> self.recent@.contains(x) by {
                if self.recent@.contains(x) {
                    let i = choose|i: int| 0 <= i < r.len() && r[i] == x;
                    assert(s[i + s.len() - r.len()] == x);
                    assert(s.contains(x));
                }
            }
        }
    }

    /// Removes a channel's draft and hands it back.
    pub fn take_draft(&mut self, channel_id: ChannelId) -> (r: Option<ComposeDraft>)
        requires
            old(self).wf(),
        ensures
            final(self).wf(),
            final(self).drafts() == old(self).drafts().remove(channel_id.0),
            final(self).recency() == recency_without(old(self).recency(), channel_id.0),
            r == (if old(self).drafts().contains_key(channel_id.0) {
                Some(old(self).drafts()[channel_id.0])
            } else {
                None
            }),
    {
        let k = channel_id.0;
        let ghost s0 = self.recent@;
        remove_id(&mut self.recent, k);
        let r = self.by_channel.remove(&k);
        proof {
            lemma_without(s0, k);
            lemma_filter_len_le(s0, k);
        }
        r
    }

    /// Discards a channel's draft.
    pub fn clear_draft(&mut self, channel_id: ChannelId)
        requires
            old(self).wf(),
        ensures
            final(self).wf(),
            final(self).drafts() == old(self).drafts().remove(channel_id.0),
            final(self).recency() == recency_without(old(self).recency(), channel_id.0),
    {
        let k = channel_id.0;
        let ghost s0 = self.recent@;
        proof {
            lemma_without(s0, k);
            lemma_filter_len_le(s0, k);
        }
        if self.by_channel.remove(&k).is_some() {
            remove_id(&mut self.recent, k);
        }
    }

    /// Discards every draft.
    pub fn clear_all(&mut self)
        ensures
            final(self).wf(),
            final(self).drafts() == Map::<i64, ComposeDraft>::empty(),
            final(self).recency() == Seq::<i64>::empty(),
    {
        self.by_channel.clear();
        self.recent.clear();
    }

    /// Number of channels holding a draft.
    pub fn len(&self) -> (r: usize)
        ensures
            r == self.drafts().len(),
    {
        self.by_channel.len()
    }

    pub fn is_empty(&self) -> (r: bool)
        ensures
            r == self.drafts().is_empty(),
    {
        self.by_channel.is_empty()
    }
}

proof fn lemma_filter_len_le(s: Seq<i64>, k: i64)
    ensures
        recency_without(s, k).len() <= s.len(),
{
    broadcast use vstd::seq_lib::group_filter_ensures;

}

proof fn lemma_filter_shorter(s: Seq<i64>, k: i64, i: int)
    requires
        0 <= i < s.len(),
        s[i] == k,
    ensures
        recency_without(s, k).len() < s.len(),
    decreases s.len(),
{
    broadcast use {Seq::lemma_filter_push, vstd::seq_lib::group_filter_ensures};

    let p = s.drop_last();
    assert(p.push(s.last()) =~= s);
    if i == s.len() - 1 {
        assert(recency_without(s, k) == recency_without(p, k));
    } else {
        assert(p[i] == k);
        lemma_filter_shorter(p, k, i);
    }
}


/// A non-empty draft written for a channel is the draft read back for it.
pub proof fn law_draft_round_trip(
    drafts: Map<i64, ComposeDraft>,
    recency: Seq<i64>,
    k: i64,
    d: ComposeDraft,
)
    requires
        store_inv(drafts, recency),
    ensures
        ({
            let after = drafts.insert(k, d).restrict(touched(recency, k).to_set());
            after.contains_key(k) && after[k] == d
        }),
{
    let t = recency_without(recency, k).push(k);
    assert(t[t.len() - 1] == k);
    if t.len() > MAX_DRAFT_CHANNELS {
        let u = t.skip(t.len() - MAX_DRAFT_CHANNELS);
        assert(u[u.len() - 1] == k);
        assert(u.contains(k));
    } else {
        assert(t.contains(k));
    }
}

/// Writing one channel's draft leaves the draft of every other channel that stays in the
/// store as it was.
pub proof fn law_other_drafts_untouched(
    drafts: Map<i64, ComposeDraft>,
    recency: Seq<i64>,
    k: i64,
    d: ComposeDraft,
    j: i64,
)
    requires
        store_inv(drafts, recency),
        j != k,
    ensures
        ({
            let after = drafts.insert(k, d).restrict(touched(recency, k).to_set());
            after.contains_key(j) ==> drafts.contains_key(j) && after[j] == drafts[j]
        }),
{
    let after = drafts.insert(k, d).restrict(touched(recency, k).to_set());
    if after.contains_key(j) {
        assert(drafts.insert(k, d).contains_key(j));
    }
}

/// A store at the cap that takes a draft for a new channel drops exactly its least recently
/// written channel.
pub proof fn law_evicts_least_recent(recency: Seq<i64>, k: i64)
    requires
        recency.len() == MAX_DRAFT_CHANNELS,
        !recency.contains(k),
    ensures
        touched(recency, k) == recency.drop_first().push(k),
{
    lemma_without(recency, k);
    assert(touched(recency, k) =~= recency.drop_first().push(k));
}

/// The store never holds more drafts than the cap.
pub proof fn law_cap(drafts: Map<i64, ComposeDraft>, recency: Seq<i64>, k: i64)
    requires
        store_inv(drafts, recency),
    ensures
        touched(recency, k).len() <= MAX_DRAFT_CHANNELS,
{
}

/// Every store reached from `ComposeStore::new` by any sequence of `set_draft`,
/// `take_draft`, `clear_draft` and `clear_all` is well-formed (each of them keeps `wf`), and a
/// well-formed store holds at most the cap of drafts, none of them empty, and is empty exactly
/// when it holds none.
pub proof fn law_store_bounds(store: &ComposeStore)
    requires
        store.wf(),
    ensures
        store.drafts().dom().finite(),
        store.drafts().len() <= MAX_DRAFT_CHANNELS,
        store.drafts().is_empty() == (store.drafts().len() == 0),
        forall|k: i64| #[trigger] store.drafts().contains_key(k) ==> !draft_is_empty(store.drafts()[k]),
{
    let d = store.drafts();
    let r = store.recency();
    assert(d.dom() =~= r.to_set());
    r.unique_seq_to_set();
    if d.len() == 0 {
        assert(d.dom() =~= Set::<i64>::empty());
        assert(d =~= Map::<i64, ComposeDraft>::empty());
    }
    if d.is_empty() {
        assert(d.dom() =~= Set::<i64>::empty());
    }
}

/// After a draft is taken or cleared, the channel has none.
pub proof fn law_taken_draft_is_gone(drafts: Map<i64, ComposeDraft>, k: i64)
    ensures
        !drafts.remove(k).contains_key(k),
{
}

} // verus!
