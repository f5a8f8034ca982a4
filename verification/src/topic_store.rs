use vstd::prelude::*;

use crate::ids::MessageId;
use crate::outgoing::{outgoing_reply, reply_sent, OutgoingReply, ReplyDraft};
use crate::text::{chars_of, i64_to_string, int_decimal, str_eq, string_from_chars, trim_chars, trim_seq};
use crate::topics::{
    clamp_timestamp, incremented_meta, max_i64, merged_meta, touched_meta,
    TopicMessageMeta, STREAM_MODE_CHANNEL, STREAM_MODE_THREAD,
};

verus! {

/// A topic (a discussion opened on a message) as the topic list shows it.
#[derive(Debug, Clone, Default, PartialEq, Eq)]
pub struct TopicDiscussion {
    pub id: String,
    pub content: String,
    pub last_message_timestamp: u32,
    pub last_sender_id: String,
    pub message_id: String,
}

/// What the topic composer is working on.
#[derive(Debug, Clone, Default)]
pub struct TopicCompose {
    pub origin_message_id: Option<MessageId>,
    pub parent_channel_id: Option<i64>,
    pub clan_id: Option<i64>,
    pub mode: i32,
    pub is_public: bool,
    pub active_topic_id: Option<i64>,
    pub submitting: bool,
    pub creating: bool,
    pub error: Option<String>,
}

/// The topics of the active clan with their reply counts, and the topic panel.
pub struct TopicsState {
    pub topics: Vec<TopicDiscussion>,
    /// One entry per topic id (`tp_id`).
    pub meta: Vec<TopicMessageMeta>,
    pub clan_id: Option<String>,
    pub loading: bool,
    pub fetch_generation: u64,
    /// The list of `clan_id` was fetched at least once.
    pub fetched: bool,
    pub panel_open: bool,
    pub init_topic_message_id: Option<MessageId>,
    pub reply_target: Option<ReplyDraft>,
    pub compose: TopicCompose,
}

// ---------------------------------------------------------------------------
// Finding topics and their meta
// ---------------------------------------------------------------------------

/// `i` is the last topic with id `id` (`-1` when there is none): the one the list finds.
pub open spec fn is_last_topic(ts: Seq<TopicDiscussion>, id: Seq<char>, i: int) -> bool {
    &&& -1 <= i < ts.len()
    &&& forall|j: int| i < j < ts.len() ==> (#[trigger] ts[j]).id@ != id
    &&& 0 <= i ==> ts[i].id@ == id
}

pub open spec fn topic_index(ts: Seq<TopicDiscussion>, id: Seq<char>) -> int {
    choose|i: int| is_last_topic(ts, id, i)
}

proof fn lemma_topic_index(ts: Seq<TopicDiscussion>, id: Seq<char>, i: int)
    requires
        is_last_topic(ts, id, i),
    ensures
        topic_index(ts, id) == i,
{
    let c = topic_index(ts, id);
    assert(is_last_topic(ts, id, c));
    if c < i {
        assert(ts[i].id@ != id);
    }
    if i < c {
        assert(ts[c].id@ != id);
    }
}

fn find_topic(ts: &Vec<TopicDiscussion>, id: &str) -> (r: Option<usize>)
    ensures
        match r {
            Some(i) => topic_index(ts@, id@) == i as int && is_last_topic(ts@, id@, i as int),
            None => topic_index(ts@, id@) == -1,
        },
{
    let mut k: usize = ts.len();
    while k > 0 && !str_eq(ts[k - 1].id.as_str(), id)
        invariant
            k <= ts@.len(),
            forall|j: int| k <= j < ts@.len() ==> (#[trigger] ts@[j]).id@ != id@,
        decreases k,
    {
        k -= 1;
    }
    proof {
        lemma_topic_index(ts@, id@, k - 1);
    }
    if k > 0 {
        Some(k - 1)
    } else {
        None
    }
}

/// `i` is the meta of topic `key` (`ms.len()` when there is none).
pub open spec fn is_meta_of(ms: Seq<TopicMessageMeta>, key: Seq<char>, i: int) -> bool {
    &&& 0 <= i <= ms.len()
    &&& forall|j: int| 0 <= j < i ==> (#[trigger] ms[j]).tp_id@ != key
    &&& i < ms.len() ==> ms[i].tp_id@ == key
}

pub open spec fn meta_index(ms: Seq<TopicMessageMeta>, key: Seq<char>) -> int {
    choose|i: int| is_meta_of(ms, key, i)
}

/// The meta of topic `key`, when there is one.
pub open spec fn meta_of(ms: Seq<TopicMessageMeta>, key: Seq<char>) -> Option<TopicMessageMeta> {
    let i = meta_index(ms, key);
    if i < ms.len() {
        Some(ms[i])
    } else {
        None
    }
}

proof fn lemma_meta_index(ms: Seq<TopicMessageMeta>, key: Seq<char>, i: int)
    requires
        is_meta_of(ms, key, i),
    ensures
        meta_index(ms, key) == i,
{
    let c = meta_index(ms, key);
    assert(is_meta_of(ms, key, c));
    if c < i {
        assert(ms[c].tp_id@ != key);
    }
    if i < c {
        assert(ms[i].tp_id@ != key);
    }
}

fn find_meta(ms: &Vec<TopicMessageMeta>, key: &str) -> (r: usize)
    ensures
        r as int == meta_index(ms@, key@),
        is_meta_of(ms@, key@, r as int),
{
    let mut i: usize = 0;
    while i < ms.len() && !str_eq(ms[i].tp_id.as_str(), key)
        invariant
            i <= ms@.len(),
            forall|j: int| 0 <= j < i ==> (#[trigger] ms@[j]).tp_id@ != key@,
        decreases ms@.len() - i,
    {
        i += 1;
    }
    proof {
        lemma_meta_index(ms@, key@, i as int);
    }
    i
}


proof fn lemma_meta_exists(ms: Seq<TopicMessageMeta>, key: Seq<char>)
    ensures
        is_meta_of(ms, key, meta_index(ms, key)),
    decreases ms.len(),
{
    if ms.len() == 0 {
        assert(is_meta_of(ms, key, 0));
    } else {
        let p = ms.drop_last();
        lemma_meta_exists(p, key);
        let i = meta_index(p, key);
        assert forall|j: int| 0 <= j < i implies (#[trigger] ms[j]).tp_id@ != key by {
            assert(ms[j] == p[j]);
        }
        if i < p.len() {
            assert(ms[i] == p[i]);
            assert(is_meta_of(ms, key, i));
        } else if ms.last().tp_id@ == key {
            assert(is_meta_of(ms, key, p.len() as int));
        } else {
            assert(is_meta_of(ms, key, ms.len() as int));
        }
    }
}

/// Putting the meta of `key` leaves it as the meta of `key`, and the metas of other topics
/// as they were.
proof fn lemma_put_meta(ms: Seq<TopicMessageMeta>, key: Seq<char>, m: TopicMessageMeta, k: Seq<char>)
    requires
        m.tp_id@ == key,
    ensures
        meta_of(put_meta(ms, key, m), key) == Some(m),
        k != key ==> meta_of(put_meta(ms, key, m), k) == meta_of(ms, k),
{
    lemma_meta_exists(ms, key);
    lemma_meta_exists(ms, k);
    let i = meta_index(ms, key);
    let pm = put_meta(ms, key, m);
    assert(is_meta_of(pm, key, i));
    lemma_meta_index(pm, key, i);
    if k != key {
        let j = meta_index(ms, k);
        if j < ms.len() {
            assert(j != i);
            assert(is_meta_of(pm, k, j));
            lemma_meta_index(pm, k, j);
        } else {
            assert(is_meta_of(pm, k, pm.len() as int));
            lemma_meta_index(pm, k, pm.len() as int);
        }
    }
}

/// The metas with `m` in place of the one of topic `key`, or added.
pub open spec fn put_meta(ms: Seq<TopicMessageMeta>, key: Seq<char>, m: TopicMessageMeta) -> Seq<TopicMessageMeta> {
    let i = meta_index(ms, key);
    if i < ms.len() {
        ms.update(i, m)
    } else {
        ms.push(m)
    }
}

/// The topics with the one listed for `key` (when there is one) at time `ts`.
pub open spec fn stamped(ts: Seq<TopicDiscussion>, key: Seq<char>, t: u32) -> Seq<TopicDiscussion> {
    let i = topic_index(ts, key);
    if 0 <= i {
        ts.update(i, TopicDiscussion { last_message_timestamp: t, ..ts[i] })
    } else {
        ts
    }
}

pub open spec fn clamp_spec(ts: i64) -> u32 {
    if ts < 0 {
        0
    } else if ts > u32::MAX {
        u32::MAX
    } else {
        ts as u32
    }
}

impl TopicsState {
    pub fn new() -> (r: Self)
        ensures
            r.topics@.len() == 0 && r.meta@.len() == 0,
            r.clan_id is None,
            !r.loading && !r.fetched && !r.panel_open,
            r.fetch_generation == 0,
            r.init_topic_message_id is None,
            r.reply_target is None,
            r.compose.origin_message_id is None,
            !r.compose.submitting,
            r.compose.parent_channel_id is None && r.compose.clan_id is None,
            r.compose.mode == 0 && !r.compose.is_public,
            r.compose.active_topic_id is None && !r.compose.creating && r.compose.error is None,
    {
        TopicsState {
            topics: Vec::new(),
            meta: Vec::new(),
            clan_id: None,
            loading: false,
            fetch_generation: 0,
            fetched: false,
            panel_open: false,
            init_topic_message_id: None,
            reply_target: None,
            compose: TopicCompose {
                origin_message_id: None,
                parent_channel_id: None,
                clan_id: None,
                mode: 0,
                is_public: false,
                active_topic_id: None,
                submitting: false,
                creating: false,
                error: None,
            },
        }
    }

    fn put_meta_exec(&mut self, key: &str, m: TopicMessageMeta)
        ensures
            final(self).meta@ == put_meta(old(self).meta@, key@, m),
            final(self).topics == old(self).topics,
            final(self).panel_open == old(self).panel_open,
            final(self).compose == old(self).compose,
    {
        let i = find_meta(&self.meta, key);
        if i < self.meta.len() {
            self.meta.set(i, m);
        } else {
            self.meta.push(m);
        }
    }

    fn stamp_topic(&mut self, key: &str, t: u32)
        ensures
            final(self).topics@ == stamped(old(self).topics@, key@, t),
            final(self).meta == old(self).meta,
            final(self).panel_open == old(self).panel_open,
            final(self).compose == old(self).compose,
    {
        match find_topic(&self.topics, key) {
            Some(i) => {
                let mut topic = self.topics.remove(i);
                topic.last_message_timestamp = t;
                let ghost tv = topic;
                self.topics.insert(i, topic);
                proof {
                    assert(self.topics@ =~= old(self).topics@.update(i as int, tv));
                }
            },
            None => {},
        }
    }

    /// The meta of a topic, when known.
    pub fn topic_meta_for_topic(&self, topic_id: i64) -> (r: Option<&TopicMessageMeta>)
        ensures
            match r {
                Some(m) => meta_of(self.meta@, int_decimal(topic_id as int)) == Some(*m),
                None => meta_of(self.meta@, int_decimal(topic_id as int)) is None,
            },
    {
        let key = i64_to_string(topic_id);
        let i = find_meta(&self.meta, key.as_str());
        if i < self.meta.len() {
            Some(&self.meta[i])
        } else {
            None
        }
    }

    /// The time of a topic's last reply, when known and positive.
    pub fn topic_last_reply_timestamp(&self, topic_id: i64) -> (r: Option<i64>)
        ensures
            r == match meta_of(self.meta@, int_decimal(topic_id as int)) {
                Some(m) => if m.lsnt > 0 {
                    Some(m.lsnt)
                } else {
                    None
                },
                None => None,
            },
    {
        match self.topic_meta_for_topic(topic_id) {
            Some(m) => if m.lsnt > 0 {
                Some(m.lsnt)
            } else {
                None
            },
            None => None,
        }
    }

    /// The reply count shown for a topic (`0` when unknown).
    pub fn topic_display_reply_count(&self, topic_id: i64) -> (r: i32)
        ensures
            r == match meta_of(self.meta@, int_decimal(topic_id as int)) {
                Some(m) => m.rpl,
                None => 0,
            },
    {
        match self.topic_meta_for_topic(topic_id) {
            Some(m) => m.rpl,
            None => 0,
        }
    }

    /// The server reported a topic's reply count and last reply time (see `merged_meta`);
    /// a positive time also stamps the listed topic (clamped to `u32`).
    pub fn upsert_topic_meta(&mut self, topic_id: String, rpl: i32, lsnt: i64)
        ensures
            meta_of(final(self).meta@, topic_id@) matches Some(m) && m.rpl == rpl && m.tp_id@ == topic_id@
                && m.lsnt == match meta_of(old(self).meta@, topic_id@) {
                Some(o) => max_i64(o.lsnt, lsnt),
                None => lsnt,
            },
            forall|k: Seq<char>| k != topic_id@ ==> meta_of(final(self).meta@, k) == meta_of(old(self).meta@, k),
            final(self).topics@ == if lsnt > 0 {
                stamped(old(self).topics@, topic_id@, clamp_spec(lsnt))
            } else {
                old(self).topics@
            },
            final(self).panel_open == old(self).panel_open,
    {
        let i = find_meta(&self.meta, topic_id.as_str());
        let merged = if i < self.meta.len() {
            merged_meta(Some(&self.meta[i]), &topic_id, rpl, lsnt)
        } else {
            merged_meta(None, &topic_id, rpl, lsnt)
        };
        let ghost mv = merged;
        self.put_meta_exec(topic_id.as_str(), merged);
        proof {
            assert forall|k: Seq<char>| k != topic_id@ implies meta_of(self.meta@, k) == meta_of(old(self).meta@, k) by {
                lemma_put_meta(old(self).meta@, topic_id@, mv, k);
            }
            lemma_put_meta(old(self).meta@, topic_id@, mv, topic_id@);
        }
        if lsnt > 0 {
            self.stamp_topic(topic_id.as_str(), clamp_timestamp(lsnt));
        }
    }

    /// A reply was sent in a topic at `ts` (seconds): unless the id is `0` or the time not
    /// positive, its last reply time moves forward (see `touched_meta`) and the listed topic
    /// is stamped.
    pub fn touch_topic_last_sent(&mut self, topic_id: i64, ts: i64)
        ensures
            (topic_id == 0 || ts <= 0) ==> final(self).meta == old(self).meta && final(self).topics
                == old(self).topics,
            !(topic_id == 0 || ts <= 0) ==> {
                let key = int_decimal(topic_id as int);
                &&& forall|k: Seq<char>| k != key ==> meta_of(final(self).meta@, k) == meta_of(old(self).meta@, k)
                &&& meta_of(final(self).meta@, key) matches Some(m) && m.lsnt == match meta_of(
                    old(self).meta@,
                    key,
                ) {
                    Some(o) => max_i64(o.lsnt, ts),
                    None => ts,
                } && m.rpl == match meta_of(old(self).meta@, key) {
                    Some(o) => o.rpl,
                    None => 0,
                }
                &&& final(self).topics@ == stamped(old(self).topics@, key, clamp_spec(ts))
            },
            final(self).panel_open == old(self).panel_open,
    {
        if topic_id == 0 || ts <= 0 {
            return;
        }
        let key = i64_to_string(topic_id);
        let i = find_meta(&self.meta, key.as_str());
        let m = if i < self.meta.len() {
            touched_meta(Some(&self.meta[i]), &key, ts)
        } else {
            touched_meta(None, &key, ts)
        };
        let ghost mv = m;
        proof {
            if i < self.meta@.len() {
                assert(self.meta@[i as int].tp_id@ == key@);
            }
        }
        self.put_meta_exec(key.as_str(), m);
        proof {
            assert forall|k: Seq<char>| k != key@ implies meta_of(self.meta@, k) == meta_of(old(self).meta@, k) by {
                lemma_put_meta(old(self).meta@, key@, mv, k);
            }
            lemma_put_meta(old(self).meta@, key@, mv, key@);
        }
        self.stamp_topic(key.as_str(), clamp_timestamp(ts));
    }

    /// A reply arrived in a topic at `ts`: unless the id is `0`, one more reply is counted
    /// (see `incremented_meta`); a positive time stamps the listed topic.
    pub fn increment_topic_reply_count(&mut self, topic_id: i64, ts: i64)
        ensures
            topic_id == 0 ==> final(self).meta == old(self).meta && final(self).topics == old(self).topics,
            topic_id != 0 ==> {
                let key = int_decimal(topic_id as int);
                &&& forall|k: Seq<char>| k != key ==> meta_of(final(self).meta@, k) == meta_of(old(self).meta@, k)
                &&& meta_of(final(self).meta@, key) matches Some(m) && m.rpl == match meta_of(
                    old(self).meta@,
                    key,
                ) {
                    Some(o) => if o.rpl == i32::MAX {
                        i32::MAX
                    } else {
                        (o.rpl + 1) as i32
                    },
                    None => 1,
                } && m.lsnt == match meta_of(old(self).meta@, key) {
                    Some(o) => if ts > 0 {
                        max_i64(o.lsnt, ts)
                    } else {
                        o.lsnt
                    },
                    None => ts,
                }
                &&& final(self).topics@ == if ts > 0 {
                    stamped(old(self).topics@, key, clamp_spec(ts))
                } else {
                    old(self).topics@
                }
            },
            final(self).panel_open == old(self).panel_open,
            final(self).compose == old(self).compose,
    {
        if topic_id == 0 {
            return;
        }
        let key = i64_to_string(topic_id);
        let i = find_meta(&self.meta, key.as_str());
        let m = if i < self.meta.len() {
            incremented_meta(Some(&self.meta[i]), &key, ts)
        } else {
            incremented_meta(None, &key, ts)
        };
        let ghost mv = m;
        proof {
            if i < self.meta@.len() {
                assert(self.meta@[i as int].tp_id@ == key@);
            }
        }
        self.put_meta_exec(key.as_str(), m);
        proof {
            assert forall|k: Seq<char>| k != key@ implies meta_of(self.meta@, k) == meta_of(old(self).meta@, k) by {
                lemma_put_meta(old(self).meta@, key@, mv, k);
            }
            lemma_put_meta(old(self).meta@, key@, mv, key@);
        }
        if ts > 0 {
            self.stamp_topic(key.as_str(), clamp_timestamp(ts));
        }
    }

    /// A reply of a topic was deleted: unless the id is `0`, a known count goes down by one,
    /// not below zero. Returns whether a meta changed.
    pub fn decrement_topic_reply_count(&mut self, topic_id: i64) -> (changed: bool)
        ensures
            changed == (topic_id != 0 && meta_of(old(self).meta@, int_decimal(topic_id as int)) is Some),
            !changed ==> final(self).meta == old(self).meta,
            changed ==> ({
                let key = int_decimal(topic_id as int);
                let i = meta_index(old(self).meta@, key);
                let o = old(self).meta@[i];
                final(self).meta@ == old(self).meta@.update(
                    i,
                    TopicMessageMeta { rpl: if o.rpl > 0 { (o.rpl - 1) as i32 } else { 0 }, ..o },
                )
            }),
            final(self).topics == old(self).topics,
    {
        if topic_id == 0 {
            return false;
        }
        let key = i64_to_string(topic_id);
        let i = find_meta(&self.meta, key.as_str());
        if i < self.meta.len() {
            let mut m = self.meta.remove(i);
            m.rpl = if m.rpl > 0 {
                m.rpl - 1
            } else {
                0
            };
            let ghost mv = m;
            self.meta.insert(i, m);
            proof {
                assert(self.meta@ =~= old(self).meta@.update(i as int, mv));
            }
            true
        } else {
            false
        }
    }
}

// ---------------------------------------------------------------------------
// The topic list
// ---------------------------------------------------------------------------

/// A field the server fills with `""` or `"0"` for none.
pub open spec fn is_set_id(s: Seq<char>) -> bool {
    s.len() > 0 && s != seq!['0']
}

fn is_set_id_exec(s: &String) -> (r: bool)
    ensures
        r == is_set_id(s@),
{
    proof {
        reveal_strlit("0");
        assert("0"@ =~= seq!['0']);
    }
    s.unicode_len() > 0 && !str_eq(s.as_str(), "0")
}

/// The listed topic after the same topic was pushed again: a non-empty content and a set
/// sender and origin message replace the known ones; the time always does.
pub open spec fn refreshed_topic(e: TopicDiscussion, t: TopicDiscussion, r: TopicDiscussion) -> bool {
    &&& r.id == e.id
    &&& r.content == (if t.content@.len() > 0 {
        t.content
    } else {
        e.content
    })
    &&& r.last_message_timestamp == t.last_message_timestamp
    &&& r.last_sender_id == (if is_set_id(t.last_sender_id@) {
        t.last_sender_id
    } else {
        e.last_sender_id
    })
    &&& r.message_id == (if is_set_id(t.message_id@) {
        t.message_id
    } else {
        e.message_id
    })
}

/// `x` placed after every topic at least as recent: one step of a stable sort, newest first.
pub open spec fn insert_topic(s: Seq<TopicDiscussion>, x: TopicDiscussion) -> Seq<TopicDiscussion>
    decreases s.len(),
{
    if s.len() == 0 {
        seq![x]
    } else if s.last().last_message_timestamp >= x.last_message_timestamp {
        s.push(x)
    } else {
        insert_topic(s.drop_last(), x).push(s.last())
    }
}

/// `s` stably sorted by last message time, newest first.
pub open spec fn by_recent(s: Seq<TopicDiscussion>) -> Seq<TopicDiscussion>
    decreases s.len(),
{
    if s.len() == 0 {
        s
    } else {
        insert_topic(by_recent(s.drop_last()), s.last())
    }
}

proof fn lemma_insert_topic_at(s: Seq<TopicDiscussion>, x: TopicDiscussion, j: int)
    requires
        0 <= j <= s.len(),
        forall|k: int| j <= k < s.len() ==> (#[trigger] s[k]).last_message_timestamp < x.last_message_timestamp,
        j > 0 ==> s[j - 1].last_message_timestamp >= x.last_message_timestamp,
    ensures
        insert_topic(s, x) == s.take(j) + seq![x] + s.skip(j),
    decreases s.len(),
{
    if s.len() == 0 {
        assert(s.take(j) + seq![x] + s.skip(j) =~= seq![x]);
    } else if j == s.len() {
        assert(s.take(j) + seq![x] + s.skip(j) =~= s.push(x));
    } else {
        let p = s.drop_last();
        assert(s[s.len() - 1] == s.last());
        lemma_insert_topic_at(p, x, j);
        assert(p.take(j) + seq![x] + p.skip(j) + seq![s.last()] =~= s.take(j) + seq![x] + s.skip(j));
    }
}

/// Sorts topics by last message time, newest first, keeping the order of equal times.
pub fn sort_by_recent(items: &mut Vec<TopicDiscussion>)
    ensures
        final(items)@ == by_recent(old(items)@),
{
    let ghost s = items@;
    let mut out: Vec<TopicDiscussion> = Vec::new();
    let n = items.len();
    proof {
        assert(s.subrange(0, 0) =~= Seq::<TopicDiscussion>::empty());
    }
    while items.len() > 0
        invariant
            n == s.len(),
            items@.len() <= n,
            items@ == s.subrange(n - items@.len(), n as int),
            out@ == by_recent(s.subrange(0, n - items@.len())),
        decreases items@.len(),
    {
        let ghost k = n - items@.len();
        let x = items.remove(0);
        proof {
            assert(x == s[k]);
            assert(items@ =~= s.subrange(k + 1, n as int));
            assert(s.subrange(0, k + 1).drop_last() =~= s.subrange(0, k));
        }
        let mut j = out.len();
        while j > 0 && out[j - 1].last_message_timestamp < x.last_message_timestamp
            invariant
                j <= out@.len(),
                forall|q: int| j <= q < out@.len() ==> (#[trigger] out@[q]).last_message_timestamp
                    < x.last_message_timestamp,
            decreases j,
        {
            j -= 1;
        }
        proof {
            lemma_insert_topic_at(out@, x, j as int);
        }
        let ghost prev = out@;
        out.insert(j, x);
        proof {
            assert(out@ =~= prev.take(j as int) + seq![x] + prev.skip(j as int));
        }
    }
    proof {
        assert(s.subrange(0, n as int) =~= s);
    }
    *items = out;
}

/// The topic of an origin message: that of the last listed topic opened on it, else the one
/// the loaded message names (`message_topic_id`).
pub open spec fn origin_topic_spec(ts: Seq<TopicDiscussion>, origin: Seq<char>, message_topic_id: Option<i64>) -> Option<
    Seq<char>,
> {
    let i = choose|i: int| is_first_origin(ts, origin, i);
    if i < ts.len() {
        Some(ts[i].id@)
    } else {
        match message_topic_id {
            Some(t) => Some(int_decimal(t as int)),
            None => None,
        }
    }
}

/// `i` is the first topic opened on message `origin` (`ts.len()` when there is none).
pub open spec fn is_first_origin(ts: Seq<TopicDiscussion>, origin: Seq<char>, i: int) -> bool {
    &&& 0 <= i <= ts.len()
    &&& forall|j: int| 0 <= j < i ==> (#[trigger] ts[j]).message_id@ != origin
    &&& i < ts.len() ==> ts[i].message_id@ == origin
}

/// How a submission of `content` (with attachments or not) changes the state `o` into `n`
/// and what it returns: nothing, unchanged, when the trimmed text is empty without
/// attachments, a submission is under way, or the composer has no origin; else the plan to
/// send, with the reply target used up.
pub open spec fn submit_outcome(
    o: TopicsState,
    n: TopicsState,
    r: Option<SubmitPlan>,
    content: Seq<char>,
    has_attachments: bool,
) -> bool {
    let c = o.compose;
    let blocked = (trim_seq(content).len() == 0 && !has_attachments) || c.submitting
        || c.parent_channel_id is None || c.clan_id is None || c.origin_message_id is None;
    &&& blocked ==> r is None && n == o
    &&& !blocked ==> (r matches Some(p) && {
        &&& p.parent_channel_id == c.parent_channel_id->0
        &&& p.clan_id == c.clan_id->0
        &&& p.origin_message_id == c.origin_message_id->0
        &&& p.mode == c.mode
        &&& p.is_public == c.is_public
        &&& p.existing_topic_id == c.active_topic_id
        &&& p.content@ == trim_seq(content)
        &&& p.reply is Some == o.reply_target is Some
        &&& o.reply_target matches Some(d) ==> (p.reply matches Some(x) && reply_sent(x, d))
        &&& n.compose.submitting
        &&& n.compose.creating == (c.active_topic_id is None)
        &&& n.compose.error is None
        &&& n.reply_target is None
        &&& n.compose.active_topic_id == c.active_topic_id
        &&& n.topics == o.topics && n.meta == o.meta && n.panel_open == o.panel_open
    })
}

/// What a reply submission sends: where, as which mode, into which topic (none: create one
/// first), the trimmed text and the reply reference.
#[derive(Debug, Clone)]
pub struct SubmitPlan {
    pub parent_channel_id: i64,
    pub clan_id: i64,
    pub origin_message_id: MessageId,
    pub mode: i32,
    pub is_public: bool,
    pub existing_topic_id: Option<i64>,
    pub content: String,
    pub reply: Option<OutgoingReply>,
}

impl TopicsState {
    /// A topic was pushed: the listed one with its id is refreshed (see `refreshed_topic`),
    /// or it is added.
    pub fn upsert_topic(&mut self, topic: TopicDiscussion)
        ensures
            ({
                let i = topic_index(old(self).topics@, topic.id@);
                &&& 0 <= i ==> final(self).topics@.len() == old(self).topics@.len() && refreshed_topic(
                    old(self).topics@[i],
                    topic,
                    final(self).topics@[i],
                ) && forall|j: int| 0 <= j < old(self).topics@.len() && j != i ==> #[trigger] final(self).topics@[j]
                    == old(self).topics@[j]
                &&& i < 0 ==> final(self).topics@ == old(self).topics@.push(topic)
            }),
            final(self).meta == old(self).meta,
    {
        match find_topic(&self.topics, topic.id.as_str()) {
            Some(i) => {
                let ghost before = self.topics@;
                let mut e = self.topics.remove(i);
                if topic.content.unicode_len() > 0 {
                    e.content = topic.content.clone();
                }
                e.last_message_timestamp = topic.last_message_timestamp;
                if is_set_id_exec(&topic.last_sender_id) {
                    e.last_sender_id = topic.last_sender_id.clone();
                }
                if is_set_id_exec(&topic.message_id) {
                    e.message_id = topic.message_id.clone();
                }
                let ghost ev = e;
                self.topics.insert(i, e);
                proof {
                    assert(self.topics@ =~= before.update(i as int, ev));
                }
            },
            None => {
                self.topics.push(topic);
            },
        }
    }

    /// The listed topic with id `id`.
    pub fn topic_by_id(&self, id: &str) -> (r: Option<&TopicDiscussion>)
        ensures
            ({
                let i = topic_index(self.topics@, id@);
                &&& r is Some == (0 <= i)
                &&& r matches Some(t) ==> *t == self.topics@[i]
            }),
    {
        match find_topic(&self.topics, id) {
            Some(i) => Some(&self.topics[i]),
            None => None,
        }
    }

    /// The topics of clan `clan_id`: the list when it is that clan's, else none.
    pub fn topics_for(&self, clan_id: &str) -> (r: &[TopicDiscussion])
        ensures
            r@ == (if self.clan_id matches Some(c) && c@ == clan_id@ {
                self.topics@
            } else {
                Seq::empty()
            }),
    {
        let same = match &self.clan_id {
            Some(c) => str_eq(c.as_str(), clan_id),
            None => false,
        };
        if same {
            self.topics.as_slice()
        } else {
            let empty: &[TopicDiscussion] = &[];
            proof {
                assert(empty@ =~= Seq::<TopicDiscussion>::empty());
            }
            empty
        }
    }

    /// The topics of clan `clan_id` are wanted: unless they are being fetched already, a
    /// fetch under a new generation begins (returned); another clan's list is dropped first.
    pub fn begin_fetch(&mut self, clan_id: &str) -> (r: Option<u64>)
        ensures
            ({
                let same = old(self).clan_id matches Some(c) && c@ == clan_id@;
                &&& (old(self).loading && same) ==> r is None && *final(self) == *old(self)
                &&& !(old(self).loading && same) ==> {
                    &&& r == Some(final(self).fetch_generation)
                    &&& final(self).fetch_generation == (if old(self).fetch_generation == u64::MAX {
                        0
                    } else {
                        (old(self).fetch_generation + 1) as u64
                    })
                    &&& final(self).loading
                    &&& final(self).clan_id matches Some(c) && c@ == clan_id@
                    &&& same ==> final(self).topics == old(self).topics && final(self).fetched == old(self).fetched
                    &&& !same ==> final(self).topics@.len() == 0 && !final(self).fetched
                    &&& final(self).meta == old(self).meta
                }
            }),
    {
        let same = match &self.clan_id {
            Some(c) => str_eq(c.as_str(), clan_id),
            None => false,
        };
        if self.loading && same {
            return None;
        }
        if !same {
            self.topics = Vec::new();
            self.clan_id = Some(crate::text::owned(clan_id));
            self.fetched = false;
        }
        self.loading = true;
        self.fetch_generation = self.fetch_generation.wrapping_add(1);
        Some(self.fetch_generation)
    }

    /// The topic list of fetch `generation` arrived (none on failure). A result of an older
    /// fetch is dropped (`false`). Otherwise loading ends, and a list that came replaces the
    /// topics, newest first, as the list of clan `clan_id`.
    pub fn apply_fetch_result(&mut self, clan_id: &str, generation: u64, result: Option<Vec<TopicDiscussion>>) -> (applied:
        bool)
        ensures
            applied == (old(self).fetch_generation == generation),
            !applied ==> *final(self) == *old(self),
            applied ==> !final(self).loading && final(self).fetch_generation == old(self).fetch_generation
                && final(self).meta == old(self).meta,
            applied && result is None ==> final(self).topics == old(self).topics && final(self).clan_id
                == old(self).clan_id && final(self).fetched == old(self).fetched,
            applied && result is Some ==> final(self).topics@ == by_recent(result->0@) && (final(self).clan_id matches Some(c) && c@ == clan_id@) && final(self).fetched,
    {
        if self.fetch_generation != generation {
            return false;
        }
        self.loading = false;
        match result {
            Some(mut topics) => {
                sort_by_recent(&mut topics);
                self.topics = topics;
                self.clan_id = Some(crate::text::owned(clan_id));
                self.fetched = true;
            },
            None => {},
        }
        true
    }

    /// The topic of an origin message (see `origin_topic_spec`); `message_topic_id` is the
    /// topic the loaded message names, when it is loaded.
    pub fn resolve_topic_id_for_origin(&self, origin_message_id: i64, message_topic_id: Option<i64>) -> (r:
        Option<String>)
        ensures
            match r {
                Some(t) => origin_topic_spec(self.topics@, int_decimal(origin_message_id as int), message_topic_id)
                    == Some(t@),
                None => origin_topic_spec(self.topics@, int_decimal(origin_message_id as int), message_topic_id)
                    is None,
            },
    {
        let key = i64_to_string(origin_message_id);
        let mut i: usize = 0;
        while i < self.topics.len() && !str_eq(self.topics[i].message_id.as_str(), key.as_str())
            invariant
                i <= self.topics@.len(),
                forall|j: int| 0 <= j < i ==> (#[trigger] self.topics@[j]).message_id@ != key@,
            decreases self.topics@.len() - i,
        {
            i += 1;
        }
        proof {
            let ts = self.topics@;
            assert(is_first_origin(ts, key@, i as int));
            let c = choose|c: int| is_first_origin(ts, key@, c);
            assert(is_first_origin(ts, key@, c));
            if c < i {
                assert(ts[c].message_id@ != key@);
            }
            if i < c {
                assert(ts[i as int].message_id@ != key@);
            }
        }
        if i < self.topics.len() {
            Some(self.topics[i].id.clone())
        } else {
            match message_topic_id {
                Some(t) => Some(i64_to_string(t)),
                None => None,
            }
        }
    }

    // -----------------------------------------------------------------------
    // The topic panel
    // -----------------------------------------------------------------------

    /// The panel opens for origin message `origin_id` of the active channel (none: nothing
    /// happens), reusing the topic the message already has (a `0` topic counts as none).
    /// Returns the topic whose messages are to be fetched, when there is one.
    pub fn start_create(
        &mut self,
        origin_id: MessageId,
        origin_topic_id: Option<i64>,
        parent_channel_id: Option<i64>,
        clan_id: i64,
        mode: i32,
        is_public: bool,
    ) -> (r: Option<i64>)
        ensures
            parent_channel_id is None ==> r is None && *final(self) == *old(self),
            parent_channel_id is Some ==> {
                let existing = match origin_topic_id {
                    Some(t) => if t != 0 {
                        Some(t)
                    } else {
                        None
                    },
                    None => None,
                };
                &&& r == existing
                &&& final(self).panel_open
                &&& final(self).init_topic_message_id == Some(origin_id)
                &&& final(self).compose.origin_message_id == Some(origin_id)
                &&& final(self).compose.parent_channel_id == parent_channel_id
                &&& final(self).compose.clan_id == Some(clan_id)
                &&& final(self).compose.mode == mode
                &&& final(self).compose.is_public == is_public
                &&& final(self).compose.active_topic_id == existing
                &&& !final(self).compose.submitting && !final(self).compose.creating
                &&& final(self).compose.error is None
                &&& final(self).topics == old(self).topics && final(self).meta == old(self).meta
            },
    {
        if parent_channel_id.is_none() {
            return None;
        }
        let existing = match origin_topic_id {
            Some(t) => if t != 0 {
                Some(t)
            } else {
                None
            },
            None => None,
        };
        self.init_topic_message_id = Some(origin_id);
        self.compose = TopicCompose {
            origin_message_id: Some(origin_id),
            parent_channel_id,
            clan_id: Some(clan_id),
            mode,
            is_public,
            active_topic_id: existing,
            submitting: false,
            creating: false,
            error: None,
        };
        self.panel_open = true;
        existing
    }

    /// The panel closes (when open or holding an origin): the composer, the first-message
    /// marker and the reply target are cleared. Returns whether it closed.
    pub fn close_panel_state(&mut self) -> (closed: bool)
        ensures
            closed == (old(self).panel_open || old(self).compose.origin_message_id is Some),
            !closed ==> *final(self) == *old(self),
            closed ==> {
                &&& !final(self).panel_open
                &&& final(self).compose.origin_message_id is None
                &&& final(self).compose.active_topic_id is None
                &&& !final(self).compose.submitting
                &&& final(self).init_topic_message_id is None
                &&& final(self).reply_target is None
                &&& final(self).topics == old(self).topics && final(self).meta == old(self).meta
                &&& final(self).clan_id == old(self).clan_id && final(self).loading == old(self).loading
                &&& final(self).fetched == old(self).fetched
                &&& final(self).fetch_generation == old(self).fetch_generation
            },
    {
        if !self.panel_open && self.compose.origin_message_id.is_none() {
            return false;
        }
        self.panel_open = false;
        self.compose = TopicCompose {
            origin_message_id: None,
            parent_channel_id: None,
            clan_id: None,
            mode: 0,
            is_public: false,
            active_topic_id: None,
            submitting: false,
            creating: false,
            error: None,
        };
        self.init_topic_message_id = None;
        self.reply_target = None;
        true
    }

    /// Whether deleting message `message_id` (of topic `message_topic_id`) closes the panel:
    /// it is open and the message is its origin or anchors its topic.
    pub fn should_close_on_message_deleted(&self, message_id: MessageId, message_topic_id: Option<i64>) -> (r: bool)
        ensures
            r == (self.panel_open && (self.compose.origin_message_id == Some(message_id) || (message_topic_id is Some
                && message_topic_id == self.compose.active_topic_id))),
    {
        let origin = match self.compose.origin_message_id {
            Some(o) => Some(o.0),
            None => None,
        };
        let r = crate::topics::should_close_on_message_deleted(
            self.panel_open,
            origin,
            self.compose.active_topic_id,
            message_id.0,
            message_topic_id,
        );
        proof {
            assert((origin == Some(message_id.0)) == (self.compose.origin_message_id == Some(message_id)));
        }
        r
    }

    pub fn is_init_topic_message(&self, message_id: MessageId) -> (r: bool)
        ensures
            r == (self.init_topic_message_id == Some(message_id)),
    {
        match self.init_topic_message_id {
            Some(m) => m.0 == message_id.0,
            None => false,
        }
    }

    pub fn clear_init_topic_message_if(&mut self, message_id: MessageId)
        ensures
            old(self).init_topic_message_id == Some(message_id) ==> final(self).init_topic_message_id is None,
            old(self).init_topic_message_id != Some(message_id) ==> final(self).init_topic_message_id
                == old(self).init_topic_message_id,
            final(self).topics == old(self).topics,
            final(self).panel_open == old(self).panel_open,
    {
        if self.is_init_topic_message(message_id) {
            self.init_topic_message_id = None;
        }
    }

    /// A reply is submitted: unless the trimmed text is empty without attachments, a
    /// submission is under way, or the composer has no origin, the composer starts
    /// submitting (creating the topic when it has none) and the plan to send is returned;
    /// the reply target goes with it.
    pub fn begin_submit(&mut self, content: &str, has_attachments: bool) -> (r: Option<SubmitPlan>)
        ensures
            submit_outcome(*old(self), *final(self), r, content@, has_attachments),
    {
        let trimmed = string_from_chars(&trim_chars(&chars_of(content)));
        if (trimmed.unicode_len() == 0 && !has_attachments) || self.compose.submitting {
            return None;
        }
        let (parent_channel_id, clan_id, origin) = match (
            self.compose.parent_channel_id,
            self.compose.clan_id,
            self.compose.origin_message_id,
        ) {
            (Some(p), Some(c), Some(o)) => (p, c, o),
            _ => {
                return None;
            },
        };
        let reply = match self.reply_target.take() {
            Some(d) => Some(outgoing_reply(d)),
            None => None,
        };
        self.compose.submitting = true;
        self.compose.creating = self.compose.active_topic_id.is_none();
        self.compose.error = None;
        Some(
            SubmitPlan {
                parent_channel_id,
                clan_id,
                origin_message_id: origin,
                mode: self.compose.mode,
                is_public: self.compose.is_public,
                existing_topic_id: self.compose.active_topic_id,
                content: trimmed,
                reply,
            },
        )
    }

    /// A reply made of one file already uploaded (at `url`) is submitted: nothing happens for
    /// an empty address; otherwise it starts as a reply without text (see `begin_submit`).
    pub fn begin_submit_url_attachment(&mut self, url: &str) -> (r: Option<SubmitPlan>)
        ensures
            url@.len() == 0 ==> r is None && *final(self) == *old(self),
            url@.len() > 0 ==> submit_outcome(*old(self), *final(self), r, ""@, true),
    {
        if url.unicode_len() == 0 {
            return None;
        }
        self.begin_submit("", true)
    }

    /// A submission failed (creating the topic, uploading or sending): it ends with the
    /// error shown.
    pub fn fail_submit(&mut self, error: String)
        ensures
            !final(self).compose.submitting,
            !final(self).compose.creating,
            final(self).compose.error == Some(error),
            final(self).compose.active_topic_id == old(self).compose.active_topic_id,
            final(self).topics == old(self).topics && final(self).meta == old(self).meta,
    {
        self.compose.submitting = false;
        self.compose.creating = false;
        self.compose.error = Some(error);
    }

    /// A reply was sent into topic `topic_id` at `reply_ts` (seconds): the submission ends,
    /// the topic becomes the panel's, and one more reply is counted (see
    /// `increment_topic_reply_count`). Returns whether the topic was created by this reply.
    pub fn finish_submit(&mut self, topic_id: i64, reply_ts: i64) -> (is_new_topic: bool)
        ensures
            is_new_topic == (old(self).compose.active_topic_id is None),
            !final(self).compose.submitting,
            !final(self).compose.creating,
            final(self).compose.active_topic_id == Some(topic_id),
            topic_id != 0 ==> ({
                let key = int_decimal(topic_id as int);
                meta_of(final(self).meta@, key) matches Some(m) && m.rpl == match meta_of(old(self).meta@, key) {
                    Some(o) => if o.rpl == i32::MAX {
                        i32::MAX
                    } else {
                        (o.rpl + 1) as i32
                    },
                    None => 1,
                }
            }),
    {
        let is_new_topic = self.compose.active_topic_id.is_none();
        self.compose.submitting = false;
        self.compose.creating = false;
        self.compose.active_topic_id = Some(topic_id);
        self.increment_topic_reply_count(topic_id, reply_ts);
        is_new_topic
    }

    /// Everything is forgotten (the session ended); the fetch generation moves on so a
    /// result under way is dropped. Returns whether the panel closed.
    pub fn reset(&mut self) -> (closed: bool)
        ensures
            final(self).topics@.len() == 0 && final(self).meta@.len() == 0,
            final(self).clan_id is None,
            !final(self).loading && !final(self).fetched && !final(self).panel_open,
            final(self).fetch_generation == (if old(self).fetch_generation == u64::MAX {
                0
            } else {
                (old(self).fetch_generation + 1) as u64
            }),
            final(self).init_topic_message_id is None,
    {
        self.topics = Vec::new();
        self.meta = Vec::new();
        self.clan_id = None;
        self.loading = false;
        self.fetch_generation = self.fetch_generation.wrapping_add(1);
        self.fetched = false;
        self.init_topic_message_id = None;
        self.close_panel_state()
    }
}

/// Whether a topic can be opened in the active conversation: not a direct conversation, a
/// channel or thread stream, in a clan (not `0`), on a channel the list knows
/// (`channel_type`) that is not an app, voice or stream channel, and the user may send
/// messages there.
pub fn can_create_topic(
    is_dm: bool,
    mode: i32,
    active: Option<(i64, i64)>,
    channel_type: Option<u32>,
    can_send: bool,
) -> (r: bool)
    ensures
        r == (!is_dm && (mode == STREAM_MODE_CHANNEL || mode == STREAM_MODE_THREAD) && (active matches Some((_,
            clan)) && clan != 0) && (channel_type matches Some(t) && t != 8 && t != 10 && t != 6) && can_send),
{
    if is_dm {
        return false;
    }
    if mode != STREAM_MODE_CHANNEL && mode != STREAM_MODE_THREAD {
        return false;
    }
    match active {
        Some((_, clan)) => if clan == 0 {
            return false;
        },
        None => {
            return false;
        },
    }
    match channel_type {
        Some(t) => if t == 8 || t == 10 || t == 6 {
            return false;
        },
        None => {
            return false;
        },
    }
    can_send
}

/// A pushed topic as the list holds it: its content is the message's, else the last
/// reply's, else empty; its time is the last reply's (`0` without one).
pub fn topic_from_event(
    id: i64,
    message_id: i64,
    message_content: Option<String>,
    last_content: Option<String>,
    last_timestamp: Option<u32>,
    last_sender_id: i64,
) -> (r: TopicDiscussion)
    ensures
        r.id@ == int_decimal(id as int),
        r.message_id@ == int_decimal(message_id as int),
        r.content@ == (match message_content {
            Some(c) => if c@.len() > 0 {
                c@
            } else {
                match last_content {
                    Some(l) => l@,
                    None => Seq::empty(),
                }
            },
            None => match last_content {
                Some(l) => l@,
                None => Seq::empty(),
            },
        }),
        r.last_message_timestamp == (match last_timestamp {
            Some(t) => t,
            None => 0,
        }),
        r.last_sender_id@ == int_decimal(last_sender_id as int),
{
    let content = match message_content {
        Some(c) => if c.unicode_len() > 0 {
            c
        } else {
            match last_content {
                Some(l) => l,
                None => String::new(),
            }
        },
        None => match last_content {
            Some(l) => l,
            None => String::new(),
        },
    };
    TopicDiscussion {
        id: i64_to_string(id),
        content,
        last_message_timestamp: match last_timestamp {
            Some(t) => t,
            None => 0,
        },
        last_sender_id: i64_to_string(last_sender_id),
        message_id: i64_to_string(message_id),
    }
}

} // verus!
