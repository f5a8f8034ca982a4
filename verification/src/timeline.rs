use vstd::prelude::*;

use crate::message::{is_user_timeline_code, MessageCode, MessageReference};
use crate::text::{chars_of, parse_i64, parse_i64_spec, starts_with, starts_with_exec, str_eq};

verus! {

/// How many messages a channel's buffer keeps.
pub const MAX_MESSAGES_PER_CHANNEL: usize = 100;

/// How many messages one page request asks for.
pub const MESSAGE_PAGE_LIMIT: u32 = 50;

/// Messages of one sender closer together than this (seconds) are shown as one group.
pub const COMBINE_TIME_WINDOW: i64 = 600;

/// A forwarded message more than this apart from the previous forwarded one gets its own
/// "forwarded" label.
pub const FORWARD_LABEL_WINDOW: i64 = 600000;

/// What the timeline logic reads of a message, with the rest of the message carried along.
pub struct TimelineMessage<P> {
    pub id: String,
    /// The numeric id messages are ordered by.
    pub seq: i64,
    pub content: String,
    pub sender_id: String,
    pub sender_user_id: Option<i64>,
    pub create_time: i64,
    pub code: MessageCode,
    pub is_forwarded: bool,
    pub combined_with_prev: bool,
    pub show_forwarded_label: bool,
    /// The messages this one replies to, shown above it.
    pub references: Vec<MessageReference>,
    pub payload: P,
}

impl<P> TimelineMessage<P> {
    /// A plain chat message: its user id is its sender id read as a number, where it is one;
    /// nothing is grouped or labelled yet.
    pub fn new(
        id: String,
        seq: i64,
        content: String,
        sender_id: String,
        create_time: i64,
        payload: P,
    ) -> (r: Self)
        ensures
            r.id == id,
            r.seq == seq,
            r.content == content,
            r.sender_id == sender_id,
            r.sender_user_id == parse_i64_spec(sender_id@),
            r.create_time == create_time,
            r.code == MessageCode::Chat,
            !r.is_forwarded,
            !r.combined_with_prev,
            !r.show_forwarded_label,
            r.references@.len() == 0,
            r.payload == payload,
    {
        let sender_user_id = parse_i64(sender_id.as_str());
        TimelineMessage {
            id,
            seq,
            content,
            sender_id,
            sender_user_id,
            create_time,
            code: MessageCode::Chat,
            is_forwarded: false,
            combined_with_prev: false,
            show_forwarded_label: false,
            references: Vec::new(),
            payload,
        }
    }

    /// The message with these references.
    pub fn with_references(self, references: Vec<MessageReference>) -> (r: Self)
        ensures
            r == (TimelineMessage { references, ..self }),
    {
        let mut m = self;
        m.references = references;
        m
    }
}

// ---------------------------------------------------------------------------
// Who sent a message, and grouping
// ---------------------------------------------------------------------------

/// The user behind a message: its user id when set and non-zero, else its sender id read as
/// a non-zero number.
pub open spec fn resolved_sender<P>(m: TimelineMessage<P>) -> Option<i64> {
    match m.sender_user_id {
        Some(u) if u != 0 => Some(u),
        _ => if m.sender_id@.len() == 0 || m.sender_id@ == seq!['0'] {
            None
        } else {
            match parse_i64_spec(m.sender_id@) {
                Some(v) => if v != 0 {
                    Some(v)
                } else {
                    None
                },
                None => None,
            }
        },
    }
}

pub open spec fn is_real_sender_id(s: Seq<char>) -> bool {
    s.len() > 0 && s != seq!['0']
}

/// Two messages come from the same sender: the same resolved user, or the same real sender
/// id.
pub open spec fn same_sender<P>(a: TimelineMessage<P>, b: TimelineMessage<P>) -> bool {
    ||| (resolved_sender(a) is Some && resolved_sender(a) == resolved_sender(b))
    ||| (is_real_sender_id(a.sender_id@) && is_real_sender_id(b.sender_id@) && a.sender_id@
        == b.sender_id@)
}

/// A message joins the previous one's group: a user message, sent (at a known time) by the
/// same sender less than the window after it.
pub open spec fn combined_spec<P>(prev: Option<TimelineMessage<P>>, m: TimelineMessage<P>) -> bool {
    if !is_user_timeline_code(m.code) {
        false
    } else {
        match prev {
            None => false,
            Some(p) => m.create_time != 0 && same_sender(p, m) && m.create_time - p.create_time
                < COMBINE_TIME_WINDOW,
        }
    }
}

/// A forwarded message shows the "forwarded" label unless it continues a run of forwards from
/// the same sender within the window.
pub open spec fn forwarded_label_spec<P>(prev: Option<TimelineMessage<P>>, m: TimelineMessage<P>) -> bool {
    if !m.is_forwarded {
        false
    } else {
        match prev {
            None => true,
            Some(p) => !p.is_forwarded || !same_sender(p, m) || (if m.create_time
                >= p.create_time {
                m.create_time - p.create_time
            } else {
                p.create_time - m.create_time
            }) > FORWARD_LABEL_WINDOW,
        }
    }
}

fn is_real_sender_id_exec(s: &String) -> (r: bool)
    ensures
        r == is_real_sender_id(s@),
{
    proof {
        reveal_strlit("0");
        assert("0"@ =~= seq!['0']);
    }
    !s.as_str().is_empty() && !str_eq(s.as_str(), "0")
}

fn resolved_sender_exec<P>(m: &TimelineMessage<P>) -> (r: Option<i64>)
    ensures
        r == resolved_sender(*m),
{
    match m.sender_user_id {
        Some(u) => {
            if u != 0 {
                return Some(u);
            }
        },
        None => {},
    }
    if !is_real_sender_id_exec(&m.sender_id) {
        return None;
    }
    match parse_i64(m.sender_id.as_str()) {
        Some(v) => if v != 0 {
            Some(v)
        } else {
            None
        },
        None => None,
    }
}

pub fn same_message_sender<P>(a: &TimelineMessage<P>, b: &TimelineMessage<P>) -> (r: bool)
    ensures
        r == same_sender(*a, *b),
{
    let ra = resolved_sender_exec(a);
    let rb = resolved_sender_exec(b);
    match (ra, rb) {
        (Some(x), Some(y)) => {
            if x == y {
                return true;
            }
        },
        _ => {},
    }
    is_real_sender_id_exec(&a.sender_id) && is_real_sender_id_exec(&b.sender_id)
        && a.sender_id == b.sender_id
}

fn is_user_timeline_exec(c: MessageCode) -> (r: bool)
    ensures
        r == is_user_timeline_code(c),
{
    c.is_user_timeline()
}

pub fn message_combined_with_prev<P>(prev: Option<&TimelineMessage<P>>, msg: &TimelineMessage<P>) -> (r:
    bool)
    ensures
        r == combined_spec(
            match prev {
                Some(p) => Some(*p),
                None => None,
            },
            *msg,
        ),
{
    if !is_user_timeline_exec(msg.code) {
        return false;
    }
    match prev {
        None => false,
        Some(p) => {
            if msg.create_time == 0 {
                return false;
            }
            let delta: i128 = msg.create_time as i128 - p.create_time as i128;
            same_message_sender(p, msg) && delta < COMBINE_TIME_WINDOW as i128
        },
    }
}

pub fn compute_show_forwarded_label<P>(prev: Option<&TimelineMessage<P>>, msg: &TimelineMessage<P>) -> (r:
    bool)
    ensures
        r == forwarded_label_spec(
            match prev {
                Some(p) => Some(*p),
                None => None,
            },
            *msg,
        ),
{
    if !msg.is_forwarded {
        return false;
    }
    match prev {
        None => true,
        Some(p) => {
            if !p.is_forwarded {
                return true;
            }
            let d: i128 = if msg.create_time >= p.create_time {
                msg.create_time as i128 - p.create_time as i128
            } else {
                p.create_time as i128 - msg.create_time as i128
            };
            !same_message_sender(p, msg) || d > FORWARD_LABEL_WINDOW as i128
        },
    }
}

/// The previous message of position `i`.
pub open spec fn prev_of<P>(s: Seq<TimelineMessage<P>>, i: int) -> Option<TimelineMessage<P>> {
    if i > 0 {
        Some(s[i - 1])
    } else {
        None
    }
}

/// The messages with their grouping flags recomputed from their neighbors.
pub open spec fn regrouped<P>(s: Seq<TimelineMessage<P>>) -> Seq<TimelineMessage<P>> {
    Seq::new(
        s.len(),
        |i: int|
            TimelineMessage {
                combined_with_prev: combined_spec(prev_of(s, i), s[i]),
                show_forwarded_label: forwarded_label_spec(prev_of(s, i), s[i]),
                ..s[i]
            },
    )
}

/// Recomputes, for every message, whether it joins the previous one's group and whether it
/// shows the forwarded label.
pub fn recompute_message_grouping<P>(messages: &mut Vec<TimelineMessage<P>>)
    ensures
        final(messages)@ == regrouped(old(messages)@),
{
    let ghost s = messages@;
    let mut i: usize = 0;
    while i < messages.len()
        invariant
            messages@.len() == s.len(),
            i <= s.len(),
            forall|j: int| 0 <= j < i ==> #[trigger] messages@[j] == regrouped(s)[j],
            forall|j: int| i <= j < s.len() ==> #[trigger] messages@[j] == s[j],
        decreases s.len() - i,
    {
        let combined;
        let label;
        if i == 0 {
            combined = message_combined_with_prev(None, &messages[i]);
            label = compute_show_forwarded_label(None, &messages[i]);
        } else {
            proof {
                assert(messages@[i - 1] == regrouped(s)[i - 1]);
            }
            combined = message_combined_with_prev(Some(&messages[i - 1]), &messages[i]);
            label = compute_show_forwarded_label(Some(&messages[i - 1]), &messages[i]);
            proof {
                // grouping reads only fields the flags do not touch
                let p = messages@[i - 1];
                let q = s[i - 1];
                assert(p.sender_id == q.sender_id && p.sender_user_id == q.sender_user_id);
                assert(resolved_sender(p) == resolved_sender(q));
                assert(same_sender(p, messages@[i as int]) == same_sender(q, s[i as int]));
            }
        }
        let ghost before = messages@;
        let mut m = messages.remove(i);
        m.combined_with_prev = combined;
        m.show_forwarded_label = label;
        messages.insert(i, m);
        proof {
            assert forall|j: int| 0 <= j < s.len() && j != i implies #[trigger] messages@[j]
                == before[j] by {}
        }
        i += 1;
    }
    proof {
        assert(messages@ =~= regrouped(s));
    }
}

// ---------------------------------------------------------------------------
// Ordering and the buffer cap
// ---------------------------------------------------------------------------

/// Messages order by id, except that the channel's first-message marker goes first.
pub open spec fn key_le<P>(a: TimelineMessage<P>, b: TimelineMessage<P>) -> bool {
    let ka = if a.code is Indicator {
        0int
    } else {
        1int
    };
    let kb = if b.code is Indicator {
        0int
    } else {
        1int
    };
    ka < kb || (ka == kb && a.seq <= b.seq)
}

/// `x` inserted into `s` after every message that does not sort after it, counting from the
/// back: one step of a stable sort.
pub open spec fn insert_sorted<P>(s: Seq<TimelineMessage<P>>, x: TimelineMessage<P>) -> Seq<
    TimelineMessage<P>,
>
    decreases s.len(),
{
    if s.len() == 0 {
        seq![x]
    } else if key_le(s.last(), x) {
        s.push(x)
    } else {
        insert_sorted(s.drop_last(), x).push(s.last())
    }
}

/// `s` stably sorted by message order.
pub open spec fn sorted_spec<P>(s: Seq<TimelineMessage<P>>) -> Seq<TimelineMessage<P>>
    decreases s.len(),
{
    if s.len() == 0 {
        s
    } else {
        insert_sorted(sorted_spec(s.drop_last()), s.last())
    }
}

fn key_le_exec<P>(a: &TimelineMessage<P>, b: &TimelineMessage<P>) -> (r: bool)
    ensures
        r == key_le(*a, *b),
{
    let ka: u8 = match a.code {
        MessageCode::Indicator => 0,
        _ => 1,
    };
    let kb: u8 = match b.code {
        MessageCode::Indicator => 0,
        _ => 1,
    };
    ka < kb || (ka == kb && a.seq <= b.seq)
}

proof fn lemma_insert_sorted_at<P>(s: Seq<TimelineMessage<P>>, x: TimelineMessage<P>, j: int)
    requires
        0 <= j <= s.len(),
        forall|k: int| j <= k < s.len() ==> !key_le(#[trigger] s[k], x),
        j > 0 ==> key_le(s[j - 1], x),
    ensures
        insert_sorted(s, x) == s.take(j) + seq![x] + s.skip(j),
    decreases s.len(),
{
    if s.len() == 0 {
        assert(s.take(j) + seq![x] + s.skip(j) =~= seq![x]);
    } else if j == s.len() {
        assert(s.take(j) + seq![x] + s.skip(j) =~= s.push(x));
    } else {
        let p = s.drop_last();
        assert(s[s.len() - 1] == s.last());
        lemma_insert_sorted_at(p, x, j);
        assert(p.take(j) + seq![x] + p.skip(j) + seq![s.last()] =~= s.take(j) + seq![x] + s.skip(
            j,
        ));
    }
}

/// Stably sorts messages (the first-message marker first, then by id).
pub fn sort_messages<P>(messages: &mut Vec<TimelineMessage<P>>)
    ensures
        final(messages)@ == sorted_spec(old(messages)@),
{
    let ghost s = messages@;
    let mut out: Vec<TimelineMessage<P>> = Vec::new();
    let n = messages.len();
    proof {
        assert(s.subrange(0, 0) =~= Seq::<TimelineMessage<P>>::empty());
    }
    while messages.len() > 0
        invariant
            n == s.len(),
            messages@.len() <= n,
            messages@ == s.subrange(n - messages@.len(), n as int),
            out@ == sorted_spec(s.subrange(0, n - messages@.len())),
        decreases messages@.len(),
    {
        let ghost k = n - messages@.len();
        let x = messages.remove(0);
        proof {
            assert(x == s[k]);
            assert(messages@ =~= s.subrange(k + 1, n as int));
            assert(s.subrange(0, k + 1).drop_last() =~= s.subrange(0, k));
        }
        let mut j = out.len();
        while j > 0 && !key_le_exec(&out[j - 1], &x)
            invariant
                j <= out@.len(),
                forall|q: int| j <= q < out@.len() ==> !key_le(#[trigger] out@[q], x),
            decreases j,
        {
            j -= 1;
        }
        proof {
            lemma_insert_sorted_at(out@, x, j as int);
        }
        let ghost prev = out@;
        out.insert(j, x);
        proof {
            assert(out@ =~= prev.take(j as int) + seq![x] + prev.skip(j as int));
        }
    }
    proof {
        assert(s.subrange(0, n as int) =~= s);
    }
    *messages = out;
}

/// The buffer cut to the cap by dropping its oldest (front) messages.
pub open spec fn trimmed_front<P>(s: Seq<TimelineMessage<P>>) -> Seq<TimelineMessage<P>> {
    if s.len() <= MAX_MESSAGES_PER_CHANNEL {
        s
    } else {
        s.skip(s.len() - MAX_MESSAGES_PER_CHANNEL)
    }
}

/// The buffer cut to the cap by dropping its newest (back) messages.
pub open spec fn trimmed_back<P>(s: Seq<TimelineMessage<P>>) -> Seq<TimelineMessage<P>> {
    if s.len() <= MAX_MESSAGES_PER_CHANNEL {
        s
    } else {
        s.take(MAX_MESSAGES_PER_CHANNEL as int)
    }
}

/// Caps the buffer by dropping its oldest messages; returns how many were dropped.
pub fn trim_messages<P>(messages: &mut Vec<TimelineMessage<P>>) -> (dropped: usize)
    ensures
        final(messages)@ == trimmed_front(old(messages)@),
        dropped == old(messages)@.len() - final(messages)@.len(),
{
    if messages.len() <= MAX_MESSAGES_PER_CHANNEL {
        return 0;
    }
    let drop = messages.len() - MAX_MESSAGES_PER_CHANNEL;
    let ghost s = messages@;
    let mut i: usize = 0;
    while i < drop
        invariant
            drop == s.len() - MAX_MESSAGES_PER_CHANNEL,
            i <= drop,
            messages@ == s.skip(i as int),
        decreases drop - i,
    {
        messages.remove(0);
        proof {
            assert(messages@ =~= s.skip(i + 1));
        }
        i += 1;
    }
    drop
}

/// Caps the buffer by dropping its newest messages; returns how many were dropped.
pub fn trim_messages_back<P>(messages: &mut Vec<TimelineMessage<P>>) -> (dropped: usize)
    ensures
        final(messages)@ == trimmed_back(old(messages)@),
        dropped == old(messages)@.len() - final(messages)@.len(),
{
    if messages.len() <= MAX_MESSAGES_PER_CHANNEL {
        return 0;
    }
    let drop = messages.len() - MAX_MESSAGES_PER_CHANNEL;
    messages.truncate(MAX_MESSAGES_PER_CHANNEL);
    drop
}

/// More history exists above the buffer unless its oldest message is the channel's
/// first-message marker; an empty buffer has nothing more.
pub open spec fn has_more_spec<P>(s: Seq<TimelineMessage<P>>) -> bool {
    s.len() > 0 && !(s[0].code is Indicator)
}

pub fn has_more_from_oldest<P>(messages: &Vec<TimelineMessage<P>>) -> (r: bool)
    ensures
        r == has_more_spec(messages@),
{
    if messages.len() == 0 {
        false
    } else {
        match messages[0].code {
            MessageCode::Indicator => false,
            _ => true,
        }
    }
}


// ---------------------------------------------------------------------------
// One channel's buffer
// ---------------------------------------------------------------------------

/// The loaded window of one channel.
pub struct ChannelMessages<P> {
    pub messages: Vec<TimelineMessage<P>>,
    /// More history exists above (older).
    pub has_more: bool,
    /// Newer messages exist below that are not loaded (after a jump into older history).
    pub has_more_bottom: bool,
}

/// How the visible window slid: rows added or removed at either edge.
#[derive(Debug, Clone, Copy, PartialEq, Eq, Structural)]
pub struct Shift {
    pub added_top: usize,
    pub removed_top: usize,
    pub added_bottom: usize,
    pub removed_bottom: usize,
}

pub open spec fn temp_prefix() -> Seq<char> {
    seq!['t', 'e', 'm', 'p', '-']
}

/// Optimistic rows carry a `temp-` id until the server confirms them.
pub open spec fn is_temp(id: Seq<char>) -> bool {
    starts_with(id, temp_prefix())
}

fn is_temp_exec(id: &String) -> (r: bool)
    ensures
        r == is_temp(id@),
{
    let p = chars_of("temp-");
    proof {
        reveal_strlit("temp-");
        assert(p@ =~= temp_prefix());
    }
    starts_with_exec(&chars_of(id.as_str()), &p)
}

/// Whether some message of `s` has id `id`.
pub open spec fn has_id<P>(s: Seq<TimelineMessage<P>>, id: Seq<char>) -> bool {
    exists|i: int| 0 <= i < s.len() && (#[trigger] s[i]).id@ == id
}

/// The messages of `fetched` not in `existing` (by id), in order.
pub open spec fn fresh_of<P>(existing: Seq<TimelineMessage<P>>, fetched: Seq<TimelineMessage<P>>) -> Seq<
    TimelineMessage<P>,
>
    decreases fetched.len(),
{
    if fetched.len() == 0 {
        Seq::empty()
    } else {
        let p = fresh_of(existing, fetched.drop_last());
        if has_id(existing, fetched.last().id@) {
            p
        } else {
            p.push(fetched.last())
        }
    }
}

fn has_id_exec<P>(s: &Vec<TimelineMessage<P>>, id: &String) -> (r: bool)
    ensures
        r == has_id(s@, id@),
{
    let mut i: usize = 0;
    while i < s.len()
        invariant
            i <= s@.len(),
            forall|j: int| 0 <= j < i ==> (#[trigger] s@[j]).id@ != id@,
        decreases s@.len() - i,
    {
        if s[i].id == *id {
            return true;
        }
        i += 1;
    }
    false
}

/// The fetched messages the buffer does not hold yet, in order.
fn keep_fresh<P>(existing: &Vec<TimelineMessage<P>>, fetched: Vec<TimelineMessage<P>>) -> (r: Vec<
    TimelineMessage<P>,
>)
    ensures
        r@ == fresh_of(existing@, fetched@),
{
    let ghost f = fetched@;
    let mut fetched = fetched;
    let mut out: Vec<TimelineMessage<P>> = Vec::new();
    let n = fetched.len();
    while fetched.len() > 0
        invariant
            n == f.len(),
            fetched@.len() <= n,
            fetched@ == f.subrange(n - fetched@.len(), n as int),
            out@ == fresh_of(existing@, f.subrange(0, n - fetched@.len())),
        decreases fetched@.len(),
    {
        let ghost k = n - fetched@.len();
        let m = fetched.remove(0);
        proof {
            assert(m == f[k]);
            assert(fetched@ =~= f.subrange(k + 1, n as int));
            assert(f.subrange(0, k + 1).drop_last() =~= f.subrange(0, k));
        }
        if !has_id_exec(existing, &m.id) {
            out.push(m);
        }
    }
    proof {
        assert(f.subrange(0, n as int) =~= f);
    }
    out
}

/// Appends `b` to `a`.
fn append_all<P>(a: &mut Vec<TimelineMessage<P>>, b: Vec<TimelineMessage<P>>)
    ensures
        final(a)@ == old(a)@ + b@,
{
    let ghost bv = b@;
    let mut b = b;
    let n = b.len();
    while b.len() > 0
        invariant
            n == bv.len(),
            b@.len() <= n,
            b@ == bv.subrange(n - b@.len(), n as int),
            a@ == old(a)@ + bv.subrange(0, n - b@.len()),
        decreases b@.len(),
    {
        let ghost k = n - b@.len();
        let x = b.remove(0);
        proof {
            assert(x == bv[k]);
            assert(b@ =~= bv.subrange(k + 1, n as int));
        }
        a.push(x);
        proof {
            assert(old(a)@ + bv.subrange(0, k + 1) =~= (old(a)@ + bv.subrange(0, k)).push(x));
        }
    }
    proof {
        assert(bv.subrange(0, n as int) =~= bv);
    }
}

/// The buffer after an older page arrived: the new messages go in front, the buffer is
/// sorted, cut to the cap from the newest end and regrouped.
pub open spec fn merged_older<P>(existing: Seq<TimelineMessage<P>>, older: Seq<TimelineMessage<P>>) -> Seq<
    TimelineMessage<P>,
> {
    regrouped(trimmed_back(sorted_spec(older + existing)))
}

/// The buffer after a newer page arrived: the new messages go at the end, the buffer is
/// sorted, cut to the cap from the oldest end and regrouped.
pub open spec fn merged_newer<P>(existing: Seq<TimelineMessage<P>>, newer: Seq<TimelineMessage<P>>) -> Seq<
    TimelineMessage<P>,
> {
    regrouped(trimmed_front(sorted_spec(existing + newer)))
}

impl<P> ChannelMessages<P> {
    /// The id to page older history from: the oldest loaded message, when more history exists
    /// and that message is confirmed.
    pub fn older_page_anchor(&self) -> (r: Option<String>)
        ensures
            r matches Some(id) ==> self.has_more && self.messages@.len() > 0 && id@
                == self.messages@[0].id@ && !is_temp(id@),
            r is None ==> !self.has_more || self.messages@.len() == 0 || is_temp(
                self.messages@[0].id@,
            ),
    {
        if !self.has_more || self.messages.len() == 0 {
            return None;
        }
        if is_temp_exec(&self.messages[0].id) {
            None
        } else {
            Some(self.messages[0].id.clone())
        }
    }

    /// The id to page newer messages from: the newest loaded message, when newer messages are
    /// missing and that message is confirmed.
    pub fn newer_page_anchor(&self) -> (r: Option<String>)
        ensures
            r matches Some(id) ==> self.has_more_bottom && self.messages@.len() > 0 && id@
                == self.messages@.last().id@ && !is_temp(id@),
            r is None ==> !self.has_more_bottom || self.messages@.len() == 0 || is_temp(
                self.messages@.last().id@,
            ),
    {
        if !self.has_more_bottom || self.messages.len() == 0 {
            return None;
        }
        let last = self.messages.len() - 1;
        if is_temp_exec(&self.messages[last].id) {
            None
        } else {
            Some(self.messages[last].id.clone())
        }
    }

    /// An older page arrived. Messages already loaded are skipped; with none left there is no
    /// more history (`None`). Otherwise they are merged in front (see `merged_older`), newer
    /// messages dropped past the cap become reloadable from below, and whether more history
    /// exists is read from the oldest message. Returns how many rows came in on top and how
    /// many left at the bottom.
    pub fn merge_older(&mut self, fetched: Vec<TimelineMessage<P>>) -> (r: Option<Shift>)
        ensures
            ({
                let older = fresh_of(old(self).messages@, fetched@);
                let merged = merged_older(old(self).messages@, older);
                let dropped = sorted_spec(older + old(self).messages@).len() - trimmed_back(
                    sorted_spec(older + old(self).messages@),
                ).len();
                if older.len() == 0 {
                    &&& r is None
                    &&& final(self).messages@ == old(self).messages@
                    &&& !final(self).has_more
                    &&& final(self).has_more_bottom == old(self).has_more_bottom
                } else {
                    &&& r == Some(
                        Shift {
                            added_top: older.len() as usize,
                            removed_top: 0,
                            added_bottom: 0,
                            removed_bottom: dropped as usize,
                        },
                    )
                    &&& final(self).messages@ == merged
                    &&& final(self).has_more == has_more_spec(merged)
                    &&& final(self).has_more_bottom == (old(self).has_more_bottom || dropped > 0)
                }
            }),
    {
        let mut older = keep_fresh(&self.messages, fetched);
        if older.len() == 0 {
            self.has_more = false;
            return None;
        }
        let prepended = older.len();
        let mut current: Vec<TimelineMessage<P>> = Vec::new();
        std::mem::swap(&mut current, &mut self.messages);
        append_all(&mut older, current);
        sort_messages(&mut older);
        proof {
            lemma_sorted_len(older@);
        }
        let dropped = trim_messages_back(&mut older);
        recompute_message_grouping(&mut older);
        self.messages = older;
        if dropped > 0 {
            self.has_more_bottom = true;
        }
        self.has_more = has_more_from_oldest(&self.messages);
        Some(Shift { added_top: prepended, removed_top: 0, added_bottom: 0, removed_bottom: dropped })
    }

    /// A newer page arrived (`fetched` as the server sent it). A page shorter than the page
    /// size means the newest message is loaded. Messages already loaded are skipped; with none
    /// left nothing else changes (`None`). Otherwise they are merged at the end (see
    /// `merged_newer`), and older messages dropped past the cap become reloadable from above.
    /// Returns how many rows came in at the bottom and how many left on top.
    pub fn merge_newer(&mut self, fetched: Vec<TimelineMessage<P>>) -> (r: Option<Shift>)
        ensures
            ({
                let newer = fresh_of(old(self).messages@, fetched@);
                let sorted = sorted_spec(old(self).messages@ + newer);
                let dropped = sorted.len() - trimmed_front(sorted).len();
                &&& final(self).has_more_bottom == (fetched@.len() >= MESSAGE_PAGE_LIMIT)
                &&& if newer.len() == 0 {
                    &&& r is None
                    &&& final(self).messages@ == old(self).messages@
                    &&& final(self).has_more == old(self).has_more
                } else {
                    &&& r == Some(
                        Shift {
                            added_top: 0,
                            removed_top: dropped as usize,
                            added_bottom: newer.len() as usize,
                            removed_bottom: 0,
                        },
                    )
                    &&& final(self).messages@ == merged_newer(old(self).messages@, newer)
                    &&& final(self).has_more == (old(self).has_more || dropped > 0)
                }
            }),
    {
        let fetched_count = fetched.len();
        let newer = keep_fresh(&self.messages, fetched);
        self.has_more_bottom = fetched_count >= MESSAGE_PAGE_LIMIT as usize;
        if newer.len() == 0 {
            return None;
        }
        let added = newer.len();
        append_all(&mut self.messages, newer);
        sort_messages(&mut self.messages);
        proof {
            lemma_sorted_len(self.messages@);
        }
        let dropped = trim_messages(&mut self.messages);
        if dropped > 0 {
            self.has_more = true;
        }
        recompute_message_grouping(&mut self.messages);
        Some(Shift { added_top: 0, removed_top: dropped, added_bottom: added, removed_bottom: 0 })
    }
}

proof fn lemma_insert_sorted_len<P>(s: Seq<TimelineMessage<P>>, x: TimelineMessage<P>)
    ensures
        insert_sorted(s, x).len() == s.len() + 1,
    decreases s.len(),
{
    if s.len() > 0 && !key_le(s.last(), x) {
        lemma_insert_sorted_len(s.drop_last(), x);
    }
}

proof fn lemma_sorted_len<P>(s: Seq<TimelineMessage<P>>)
    ensures
        sorted_spec(s).len() == s.len(),
    decreases s.len(),
{
    if s.len() > 0 {
        lemma_sorted_len(s.drop_last());
        lemma_insert_sorted_len(sorted_spec(s.drop_last()), s.last());
    }
}


// ---------------------------------------------------------------------------
// Jumping, sending and receiving
// ---------------------------------------------------------------------------

/// `i` is the first message of `s` with id `id` (`s.len()` when there is none).
pub open spec fn is_first_id<P>(s: Seq<TimelineMessage<P>>, id: Seq<char>, i: int) -> bool {
    &&& 0 <= i <= s.len()
    &&& forall|j: int| 0 <= j < i ==> (#[trigger] s[j]).id@ != id
    &&& i < s.len() ==> s[i].id@ == id
}

pub open spec fn first_id<P>(s: Seq<TimelineMessage<P>>, id: Seq<char>) -> int {
    choose|i: int| is_first_id(s, id, i)
}

fn find_id<P>(s: &Vec<TimelineMessage<P>>, id: &String) -> (r: usize)
    ensures
        r as int == first_id(s@, id@),
        is_first_id(s@, id@, r as int),
{
    let mut i: usize = 0;
    while i < s.len() && !(s[i].id == *id)
        invariant
            i <= s@.len(),
            forall|j: int| 0 <= j < i ==> (#[trigger] s@[j]).id@ != id@,
        decreases s@.len() - i,
    {
        i += 1;
    }
    proof {
        let c = first_id(s@, id@);
        assert(is_first_id(s@, id@, i as int));
        assert(is_first_id(s@, id@, c));
        if c < i {
            assert(s@[c].id@ != id@);
        }
        if i < c {
            assert(s@[i as int].id@ != id@);
        }
    }
    i
}

/// Where the cap window of a jump starts: centered on the target (the start when the target
/// is missing), kept inside the page.
pub open spec fn window_start(len: int, target: int) -> int {
    let half = (MAX_MESSAGES_PER_CHANNEL / 2) as int;
    let from = if target >= half {
        target - half
    } else {
        0
    };
    let last = len - MAX_MESSAGES_PER_CHANNEL;
    if from < last {
        from
    } else {
        last
    }
}

/// The page around a jump target, sorted and, when longer than the cap, cut to a cap-sized
/// window around the target.
pub open spec fn around_window<P>(page: Seq<TimelineMessage<P>>, target: Seq<char>) -> Seq<
    TimelineMessage<P>,
> {
    let s = sorted_spec(page);
    if s.len() > MAX_MESSAGES_PER_CHANNEL {
        let t = first_id(s, target);
        let pos = if t < s.len() {
            t
        } else {
            0
        };
        let start = window_start(s.len() as int, pos);
        s.subrange(start, start + MAX_MESSAGES_PER_CHANNEL)
    } else {
        s
    }
}

/// The buffer after one row was appended and the cap applied: the rows left at the top
/// (`None` when the buffer did not grow, a replacement rather than an append).
pub open spec fn appended_shift_spec(old_len: usize, new_len: usize) -> Option<Shift> {
    if new_len <= old_len {
        None
    } else {
        Some(
            Shift {
                added_top: 0,
                removed_top: (if old_len + 1 >= new_len {
                    old_len + 1 - new_len
                } else {
                    0
                }) as usize,
                added_bottom: 1,
                removed_bottom: 0,
            },
        )
    }
}

pub fn appended_shift(old_len: usize, new_len: usize) -> (r: Option<Shift>)
    ensures
        r == appended_shift_spec(old_len, new_len),
{
    if new_len <= old_len {
        return None;
    }
    let removed_top = if old_len + 1 >= new_len {
        old_len + 1 - new_len
    } else {
        0
    };
    Some(Shift { added_top: 0, removed_top, added_bottom: 1, removed_bottom: 0 })
}

/// The next count of quick successive older-page loads: up by one (at most 3) when the
/// previous load was less than 300 ms ago, else back to 0.
pub open spec fn next_consecutive_spec(rapid: bool, prev: u32) -> u32 {
    if rapid {
        if prev + 1 < 3 {
            (prev + 1) as u32
        } else {
            3
        }
    } else {
        0
    }
}

pub fn next_consecutive_loads(rapid: bool, prev: u32) -> (r: u32)
    ensures
        r == next_consecutive_spec(rapid, prev),
{
    if rapid {
        if prev < 2 {
            prev + 1
        } else {
            3
        }
    } else {
        0
    }
}

/// The wait before an older-page load, in milliseconds: a third of a second per quick
/// successive load.
pub fn load_more_backoff_ms(consecutive: u32) -> (ms: u64)
    ensures
        ms == consecutive * 333,
{
    consecutive as u64 * 333
}

/// `s` with message `m` added the way a received message is: appended when it sorts last
/// (then the cap applies and only its own grouping is computed), else by a full sort, cap and
/// regrouping.
pub open spec fn pushed_grouped<P>(s: Seq<TimelineMessage<P>>, m: TimelineMessage<P>) -> Seq<
    TimelineMessage<P>,
> {
    let in_order = s.len() == 0 || key_le(s.last(), m);
    if in_order {
        let t = trimmed_front(s.push(m));
        let last = t.len() - 1;
        t.update(
            last,
            TimelineMessage { combined_with_prev: combined_spec(prev_of(t, last), t[last]), ..t[last] },
        )
    } else {
        regrouped(trimmed_front(sorted_spec(s.push(m))))
    }
}

/// Adds a received message (see `pushed_grouped`).
pub fn push_message_grouped<P>(messages: &mut Vec<TimelineMessage<P>>, msg: TimelineMessage<P>)
    ensures
        final(messages)@ == pushed_grouped(old(messages)@, msg),
{
    let in_order = messages.len() == 0 || key_le_exec(&messages[messages.len() - 1], &msg);
    messages.push(msg);
    if in_order {
        trim_messages(messages);
        let last = messages.len() - 1;
        let combined = if last == 0 {
            message_combined_with_prev(None, &messages[last])
        } else {
            message_combined_with_prev(Some(&messages[last - 1]), &messages[last])
        };
        let ghost before = messages@;
        let mut m = messages.remove(last);
        m.combined_with_prev = combined;
        messages.insert(last, m);
        proof {
            assert(messages@ =~= before.update(
                last as int,
                TimelineMessage { combined_with_prev: combined, ..before[last as int] },
            ));
        }
    } else {
        sort_messages(messages);
        trim_messages(messages);
        recompute_message_grouping(messages);
    }
}

/// The buffer after an optimistic row for a message being sent: appended, capped, regrouped.
pub open spec fn with_optimistic<P>(s: Seq<TimelineMessage<P>>, m: TimelineMessage<P>) -> Seq<
    TimelineMessage<P>,
> {
    regrouped(trimmed_front(s.push(m)))
}

impl<P> ChannelMessages<P> {
    /// The page around a jump target arrived (see `around_window`). When the target is in the
    /// window it becomes the buffer, regrouped, with more history above unless it starts at
    /// the channel's first message, and newer messages below; otherwise nothing changes.
    /// Returns whether the target is in the window.
    pub fn apply_around(&mut self, page: Vec<TimelineMessage<P>>, target: &String) -> (found:
        bool)
        ensures
            ({
                let w = around_window(page@, target@);
                &&& found == has_id(w, target@)
                &&& found ==> final(self).messages@ == regrouped(w) && final(self).has_more
                    == has_more_spec(regrouped(w)) && final(self).has_more_bottom
                &&& !found ==> final(self).messages@ == old(self).messages@
                    && final(self).has_more == old(self).has_more
                    && final(self).has_more_bottom == old(self).has_more_bottom
            }),
    {
        let mut window = page;
        sort_messages(&mut window);
        proof {
            lemma_sorted_len(page@);
        }
        let ghost s = window@;
        if window.len() > MAX_MESSAGES_PER_CHANNEL {
            let t = find_id(&window, target);
            let pos = if t < window.len() {
                t
            } else {
                0
            };
            let half = MAX_MESSAGES_PER_CHANNEL / 2;
            let from = if pos >= half {
                pos - half
            } else {
                0
            };
            let last = window.len() - MAX_MESSAGES_PER_CHANNEL;
            let start = if from < last {
                from
            } else {
                last
            };
            let mut cut: Vec<TimelineMessage<P>> = Vec::new();
            let mut i: usize = 0;
            let end = start + MAX_MESSAGES_PER_CHANNEL;
            while window.len() > 0
                invariant
                    s.len() > MAX_MESSAGES_PER_CHANNEL,
                    s.len() <= usize::MAX,
                    start + MAX_MESSAGES_PER_CHANNEL <= s.len(),
                    end == start + MAX_MESSAGES_PER_CHANNEL,
                    i + window@.len() == s.len(),
                    window@ == s.subrange(i as int, s.len() as int),
                    cut@ == s.subrange(
                        if i < start {
                            start as int
                        } else if i < end {
                            start as int
                        } else {
                            start as int
                        },
                        if i < start {
                            start as int
                        } else if i < end {
                            i as int
                        } else {
                            end as int
                        },
                    ),
                decreases window@.len(),
            {
                let m = window.remove(0);
                proof {
                    assert(m == s[i as int]);
                    assert(window@ =~= s.subrange(i + 1, s.len() as int));
                }
                if i >= start && i < end {
                    cut.push(m);
                    proof {
                        assert(cut@ =~= s.subrange(start as int, i + 1));
                    }
                }
                i += 1;
            }
            window = cut;
        }
        let found = has_id_exec(&window, target);
        if !found {
            return false;
        }
        recompute_message_grouping(&mut window);
        self.has_more = has_more_from_oldest(&window);
        self.messages = window;
        self.has_more_bottom = true;
        true
    }

    /// Shows the message being sent at once (see `with_optimistic`). Returns the buffer length
    /// before, to work out the splice with `appended_shift`.
    pub fn append_optimistic(&mut self, msg: TimelineMessage<P>) -> (old_len: usize)
        ensures
            old_len == old(self).messages@.len(),
            final(self).messages@ == with_optimistic(old(self).messages@, msg),
            final(self).has_more == old(self).has_more,
            final(self).has_more_bottom == old(self).has_more_bottom,
    {
        let old_len = self.messages.len();
        self.messages.push(msg);
        trim_messages(&mut self.messages);
        recompute_message_grouping(&mut self.messages);
        old_len
    }

    /// The server confirmed a sent message: it takes the place of its optimistic row; when
    /// that row is gone and the message is not loaded otherwise, it is added (sorted, capped,
    /// regrouped). Returns whether it was added rather than swapped in.
    pub fn reconcile_temp(&mut self, temp_id: &String, confirmed: TimelineMessage<P>) -> (pushed:
        bool)
        ensures
            final(self).has_more == old(self).has_more,
            final(self).has_more_bottom == old(self).has_more_bottom,
            ({
                let s = old(self).messages@;
                let i = first_id(s, temp_id@);
                if i < s.len() {
                    &&& !pushed
                    &&& final(self).messages@ == s.update(i, confirmed)
                } else if !has_id(s, confirmed.id@) {
                    &&& pushed
                    &&& final(self).messages@ == regrouped(trimmed_front(sorted_spec(s.push(confirmed))))
                } else {
                    &&& !pushed
                    &&& final(self).messages@ == s
                }
            }),
    {
        let i = find_id(&self.messages, temp_id);
        if i < self.messages.len() {
            self.messages.set(i, confirmed);
            return false;
        }
        if has_id_exec(&self.messages, &confirmed.id) {
            return false;
        }
        self.messages.push(confirmed);
        sort_messages(&mut self.messages);
        trim_messages(&mut self.messages);
        recompute_message_grouping(&mut self.messages);
        true
    }

    /// Sending failed: the optimistic row leaves the buffer (which is regrouped). Returns
    /// whether it was there.
    pub fn remove_temp(&mut self, temp_id: &String) -> (removed: bool)
        ensures
            final(self).has_more == old(self).has_more,
            final(self).has_more_bottom == old(self).has_more_bottom,
            removed == has_id(old(self).messages@, temp_id@),
            removed ==> final(self).messages@ == regrouped(without_id(old(self).messages@, temp_id@)),
            !removed ==> final(self).messages@ == old(self).messages@,
    {
        let ghost s = self.messages@;
        let present = has_id_exec(&self.messages, temp_id);
        if !present {
            return false;
        }
        let mut kept: Vec<TimelineMessage<P>> = Vec::new();
        let mut current: Vec<TimelineMessage<P>> = Vec::new();
        std::mem::swap(&mut current, &mut self.messages);
        let n = current.len();
        while current.len() > 0
            invariant
                n == s.len(),
                current@.len() <= n,
                current@ == s.subrange(n - current@.len(), n as int),
                kept@ == without_id(s.subrange(0, n - current@.len()), temp_id@),
            decreases current@.len(),
        {
            let ghost k = n - current@.len();
            let m = current.remove(0);
            proof {
                assert(m == s[k]);
                assert(current@ =~= s.subrange(k + 1, n as int));
                assert(s.subrange(0, k + 1).drop_last() =~= s.subrange(0, k));
            }
            if !(m.id == *temp_id) {
                kept.push(m);
            }
        }
        proof {
            assert(s.subrange(0, n as int) =~= s);
        }
        recompute_message_grouping(&mut kept);
        self.messages = kept;
        true
    }
}

/// `s` without the messages with id `id`, in order.
pub open spec fn without_id<P>(s: Seq<TimelineMessage<P>>, id: Seq<char>) -> Seq<TimelineMessage<P>>
    decreases s.len(),
{
    if s.len() == 0 {
        Seq::empty()
    } else {
        let p = without_id(s.drop_last(), id);
        if s.last().id@ == id {
            p
        } else {
            p.push(s.last())
        }
    }
}


/// `i` is the first optimistic row that a received message confirms: a `temp-` row of the same
/// sender with the same text (`s.len()` when there is none).
pub open spec fn is_first_echo<P>(s: Seq<TimelineMessage<P>>, m: TimelineMessage<P>, i: int) -> bool {
    &&& 0 <= i <= s.len()
    &&& forall|j: int| 0 <= j < i ==> !echoes(#[trigger] s[j], m)
    &&& i < s.len() ==> echoes(s[i], m)
}

pub open spec fn echoes<P>(row: TimelineMessage<P>, m: TimelineMessage<P>) -> bool {
    is_temp(row.id@) && row.sender_id@ == m.sender_id@ && row.content@ == m.content@
}

impl<P> ChannelMessages<P> {
    /// A message arrived for this channel. One already loaded is ignored (`None`). One that
    /// confirms an optimistic row takes its place (then sort, cap, regroup; `Some(false)`);
    /// any other is added as received messages are (`Some(true)`, see `pushed_grouped`).
    pub fn receive(&mut self, msg: TimelineMessage<P>) -> (r: Option<bool>)
        ensures
            final(self).has_more == old(self).has_more,
            final(self).has_more_bottom == old(self).has_more_bottom,
            ({
                let s = old(self).messages@;
                let e = choose|i: int| is_first_echo(s, msg, i);
                if has_id(s, msg.id@) {
                    r is None && final(self).messages@ == s
                } else if e < s.len() {
                    r == Some(false) && final(self).messages@ == regrouped(
                        trimmed_front(sorted_spec(s.update(e, msg))),
                    )
                } else {
                    r == Some(true) && final(self).messages@ == pushed_grouped(s, msg)
                }
            }),
    {
        let ghost s = self.messages@;
        if has_id_exec(&self.messages, &msg.id) {
            return None;
        }
        let mut i: usize = 0;
        while i < self.messages.len() && !(is_temp_exec(&self.messages[i].id)
            && self.messages[i].sender_id == msg.sender_id && self.messages[i].content
            == msg.content)
            invariant
                self.messages@ == s,
                i <= s.len(),
                forall|j: int| 0 <= j < i ==> !echoes(#[trigger] s[j], msg),
            decreases s.len() - i,
        {
            i += 1;
        }
        proof {
            assert(is_first_echo(s, msg, i as int));
            let c = choose|q: int| is_first_echo(s, msg, q);
            assert(is_first_echo(s, msg, c));
            if c < i {
                assert(!echoes(s[c], msg));
            }
            if i < c {
                assert(!echoes(s[i as int], msg));
            }
        }
        if i < self.messages.len() {
            self.messages.set(i, msg);
            sort_messages(&mut self.messages);
            trim_messages(&mut self.messages);
            recompute_message_grouping(&mut self.messages);
            Some(false)
        } else {
            push_message_grouped(&mut self.messages, msg);
            Some(true)
        }
    }
}

// ---------------------------------------------------------------------------
// When to fetch
// ---------------------------------------------------------------------------

/// The paging state of the message view.
pub struct Paging {
    /// The first page of a channel is being fetched.
    pub loading: bool,
    /// An older or newer page (or a jump window) is being fetched.
    pub loading_more: bool,
    /// How many older pages were asked for in quick succession.
    pub consecutive_loads: u32,
}

/// What to do about a jump to a message.
#[derive(Debug, Clone, PartialEq, Eq)]
pub enum JumpPlan {
    /// The message is loaded: scroll to it.
    AlreadyLoaded,
    /// Nothing to do now (a fetch is in flight, or the id is not a number).
    Skip,
    /// Fetch the page around this message id.
    Fetch(i64),
}

impl Paging {
    pub fn new() -> (r: Self)
        ensures
            !r.loading && !r.loading_more && r.consecutive_loads == 0,
    {
        Paging { loading: false, loading_more: false, consecutive_loads: 0 }
    }

    /// The user reached the top: unless a fetch is in flight, ask for the page older than the
    /// buffer's oldest confirmed message, after a back-off that grows while loads come in
    /// quick succession (`rapid`). Returns the anchor id and the back-off in milliseconds.
    pub fn begin_older_load<P>(&mut self, channel: &ChannelMessages<P>, rapid: bool) -> (r: Option<
        (String, u64),
    >)
        ensures
            final(self).loading == old(self).loading,
            old(self).loading || old(self).loading_more ==> r is None && *final(self) == *old(
                self,
            ),
            !(old(self).loading || old(self).loading_more) ==> match r {
                Some((id, ms)) => {
                    &&& channel.has_more && channel.messages@.len() > 0
                    &&& id@ == channel.messages@[0].id@ && !is_temp(id@)
                    &&& final(self).loading_more
                    &&& final(self).consecutive_loads == next_consecutive_spec(
                        rapid,
                        old(self).consecutive_loads,
                    )
                    &&& ms == final(self).consecutive_loads * 333
                },
                None => {
                    &&& !channel.has_more || channel.messages@.len() == 0 || is_temp(
                        channel.messages@[0].id@,
                    )
                    &&& *final(self) == *old(self)
                },
            },
    {
        if self.loading_more || self.loading {
            return None;
        }
        let anchor = match channel.older_page_anchor() {
            Some(id) => id,
            None => {
                return None;
            },
        };
        self.consecutive_loads = next_consecutive_loads(rapid, self.consecutive_loads);
        let backoff = load_more_backoff_ms(self.consecutive_loads);
        self.loading_more = true;
        Some((anchor, backoff))
    }

    /// The user reached the bottom: unless a fetch is in flight, ask for the page newer than
    /// the buffer's newest confirmed message (only after a jump left newer messages out).
    pub fn begin_newer_load<P>(&mut self, channel: &ChannelMessages<P>) -> (r: Option<String>)
        ensures
            final(self).loading == old(self).loading,
            final(self).consecutive_loads == old(self).consecutive_loads,
            old(self).loading || old(self).loading_more ==> r is None && *final(self) == *old(
                self,
            ),
            !(old(self).loading || old(self).loading_more) ==> match r {
                Some(id) => {
                    &&& channel.has_more_bottom && channel.messages@.len() > 0
                    &&& id@ == channel.messages@.last().id@ && !is_temp(id@)
                    &&& final(self).loading_more
                },
                None => {
                    &&& !channel.has_more_bottom || channel.messages@.len() == 0 || is_temp(
                        channel.messages@.last().id@,
                    )
                    &&& *final(self) == *old(self)
                },
            },
    {
        if self.loading_more || self.loading {
            return None;
        }
        match channel.newer_page_anchor() {
            Some(id) => {
                self.loading_more = true;
                Some(id)
            },
            None => None,
        }
    }

    /// A jump to a message: a loaded message is scrolled to; otherwise, unless a fetch is in
    /// flight or the id is not a number, the page around it is fetched.
    pub fn begin_jump<P>(&mut self, channel: &ChannelMessages<P>, message_id: &String) -> (r:
        JumpPlan)
        ensures
            final(self).loading == old(self).loading,
            final(self).consecutive_loads == old(self).consecutive_loads,
            has_id(channel.messages@, message_id@) ==> r == JumpPlan::AlreadyLoaded && *final(self)
                == *old(self),
            !has_id(channel.messages@, message_id@) && (old(self).loading || old(self).loading_more
                || parse_i64_spec(message_id@) is None) ==> r == JumpPlan::Skip && *final(self)
                == *old(self),
            !has_id(channel.messages@, message_id@) && !(old(self).loading || old(self).loading_more)
                && parse_i64_spec(message_id@) is Some ==> r == JumpPlan::Fetch(
                parse_i64_spec(message_id@)->0,
            ) && final(self).loading_more,
    {
        if has_id_exec(&channel.messages, message_id) {
            return JumpPlan::AlreadyLoaded;
        }
        if self.loading_more || self.loading {
            return JumpPlan::Skip;
        }
        match parse_i64(message_id.as_str()) {
            Some(anchor) => {
                self.loading_more = true;
                JumpPlan::Fetch(anchor)
            },
            None => JumpPlan::Skip,
        }
    }
}


// ---------------------------------------------------------------------------
// Laws
// ---------------------------------------------------------------------------

/// Messages in buffer order: none sorts before the one in front of it.
pub open spec fn in_message_order<P>(s: Seq<TimelineMessage<P>>) -> bool {
    forall|i: int, j: int| 0 <= i < j < s.len() ==> key_le(#[trigger] s[i], #[trigger] s[j])
}

proof fn lemma_insert_sorted<P>(s: Seq<TimelineMessage<P>>, x: TimelineMessage<P>)
    requires
        in_message_order(s),
    ensures
        in_message_order(insert_sorted(s, x)),
        insert_sorted(s, x).to_multiset() == s.to_multiset().insert(x),
    decreases s.len(),
{
    broadcast use vstd::seq_lib::group_to_multiset_ensures;

    if s.len() == 0 {
        assert(seq![x] =~= Seq::<TimelineMessage<P>>::empty().push(x));
    } else if key_le(s.last(), x) {
        let t = s.push(x);
        assert forall|i: int, j: int| 0 <= i < j < t.len() implies key_le(
            #[trigger] t[i],
            #[trigger] t[j],
        ) by {
            if j == t.len() - 1 && i < s.len() - 1 {
                assert(key_le(s[i], s[s.len() - 1]));
            }
        }
    } else {
        let p = s.drop_last();
        assert(p.push(s.last()) =~= s);
        lemma_insert_sorted(p, x);
        let q = insert_sorted(p, x);
        let t = q.push(s.last());
        assert forall|i: int, j: int| 0 <= i < j < t.len() implies key_le(
            #[trigger] t[i],
            #[trigger] t[j],
        ) by {
            if j == t.len() - 1 {
                assert(q.to_multiset().count(t[i]) > 0);
                assert(q.contains(t[i]));
                if t[i] != x {
                    assert(p.to_multiset().count(t[i]) > 0);
                    assert(p.contains(t[i]));
                    let k = choose|k: int| 0 <= k < p.len() && p[k] == t[i];
                    assert(key_le(s[k], s[s.len() - 1]));
                }
            }
        }
    }
}

/// Sorting puts every message in order and keeps each message exactly once.
pub proof fn law_sorted_messages<P>(s: Seq<TimelineMessage<P>>)
    ensures
        in_message_order(sorted_spec(s)),
        sorted_spec(s).to_multiset() == s.to_multiset(),
    decreases s.len(),
{
    broadcast use vstd::seq_lib::group_to_multiset_ensures;

    if s.len() > 0 {
        let p = s.drop_last();
        assert(p.push(s.last()) =~= s);
        law_sorted_messages(p);
        lemma_insert_sorted(sorted_spec(p), s.last());
    }
}

/// A channel's buffer never holds more than the cap after an older or newer page is merged,
/// an optimistic row is appended, or a received message is added.
pub proof fn law_buffer_capped<P>(
    existing: Seq<TimelineMessage<P>>,
    page: Seq<TimelineMessage<P>>,
    m: TimelineMessage<P>,
)
    ensures
        merged_older(existing, page).len() <= MAX_MESSAGES_PER_CHANNEL,
        merged_newer(existing, page).len() <= MAX_MESSAGES_PER_CHANNEL,
        with_optimistic(existing, m).len() <= MAX_MESSAGES_PER_CHANNEL,
        pushed_grouped(existing, m).len() <= MAX_MESSAGES_PER_CHANNEL,
{
    lemma_sorted_len(page + existing);
    lemma_sorted_len(existing + page);
    lemma_sorted_len(existing.push(m));
}

/// Regrouping only recomputes the grouping flags: every message stays in place with its id,
/// order key and payload.
pub proof fn law_regroup_keeps_messages<P>(s: Seq<TimelineMessage<P>>, i: int)
    requires
        0 <= i < s.len(),
    ensures
        regrouped(s).len() == s.len(),
        regrouped(s)[i].id == s[i].id,
        regrouped(s)[i].seq == s[i].seq,
        regrouped(s)[i].payload == s[i].payload,
{
}

/// A fetched first page made ready to show: sorted, capped to the newest, regrouped.
pub fn prepare_messages<P>(msgs: Vec<TimelineMessage<P>>) -> (r: Vec<TimelineMessage<P>>)
    ensures
        r@ == regrouped(trimmed_front(sorted_spec(msgs@))),
{
    let mut messages = msgs;
    sort_messages(&mut messages);
    trim_messages(&mut messages);
    recompute_message_grouping(&mut messages);
    messages
}

impl<P> ChannelMessages<P> {
    /// A channel's buffer from its newest page: older history exists unless the oldest row
    /// is the channel's first message; nothing newer exists.
    pub fn from_first_page(messages: Vec<TimelineMessage<P>>) -> (r: Self)
        ensures
            r.messages@ == messages@,
            r.has_more == has_more_spec(messages@),
            !r.has_more_bottom,
    {
        let has_more = has_more_from_oldest(&messages);
        ChannelMessages { messages, has_more, has_more_bottom: false }
    }
}

/// Messages of two different users are never one group. When both carry a user id, the ids
/// are different and not `0`, and their sender ids differ too, the second message does not
/// join the first's group, whatever their times; so regrouping starts a new group there.
pub proof fn law_other_user_starts_a_group<P>(s: Seq<TimelineMessage<P>>, i: int, x: i64, y: i64)
    requires
        0 < i < s.len(),
        s[i - 1].sender_user_id == Some(x),
        s[i].sender_user_id == Some(y),
        x != 0 && y != 0 && x != y,
        s[i - 1].sender_id@ != s[i].sender_id@,
    ensures
        !combined_spec(Some(s[i - 1]), s[i]),
        !regrouped(s)[i].combined_with_prev,
{
}

/// The same holds for messages that carry no user id but numeric sender ids, as the server
/// sends them: different non-zero numbers written differently are different users.
pub proof fn law_other_numeric_sender_starts_a_group<P>(s: Seq<TimelineMessage<P>>, i: int, x: i64, y: i64)
    requires
        0 < i < s.len(),
        s[i - 1].sender_user_id is None,
        s[i].sender_user_id is None,
        parse_i64_spec(s[i - 1].sender_id@) == Some(x),
        parse_i64_spec(s[i].sender_id@) == Some(y),
        x != 0 && y != 0 && x != y,
        s[i - 1].sender_id@ != s[i].sender_id@,
    ensures
        !combined_spec(Some(s[i - 1]), s[i]),
        !regrouped(s)[i].combined_with_prev,
{
}

/// A message from the same user (same non-zero user id) that is a user message, has a known
/// time and comes less than the window after the previous one joins its group.
pub proof fn law_same_user_joins_the_group<P>(a: TimelineMessage<P>, b: TimelineMessage<P>, x: i64)
    requires
        a.sender_user_id == Some(x),
        b.sender_user_id == Some(x),
        x != 0,
        is_user_timeline_code(b.code),
        b.create_time != 0,
        b.create_time - a.create_time < COMBINE_TIME_WINDOW,
    ensures
        combined_spec(Some(a), b),
{
}

} // verus!

