use vstd::prelude::*;

use crate::message::{strip_marker, strip_marker_spec};
use crate::text::{chars_of, clone_opt_string, opt_view, owned, str_eq, string_from_chars};

verus! {

// ---------------------------------------------------------------------------
// Message content as the server sends it
// ---------------------------------------------------------------------------

/// A marked range of a message's text, in UTF-16 code units, with what it refers to.
#[derive(Debug, Clone, Default, PartialEq, Eq)]
pub struct ContentToken {
    pub s: Option<i64>,
    pub e: Option<i64>,
    pub user_id: Option<String>,
    pub username: Option<String>,
    pub role_id: Option<String>,
    pub channel_id: Option<String>,
    pub emojiid: Option<String>,
    pub url: Option<String>,
    pub kind: Option<String>,
}

pub struct ContentTokenView {
    pub s: Option<i64>,
    pub e: Option<i64>,
    pub user_id: Option<Seq<char>>,
    pub username: Option<Seq<char>>,
    pub role_id: Option<Seq<char>>,
    pub channel_id: Option<Seq<char>>,
    pub emojiid: Option<Seq<char>>,
    pub url: Option<Seq<char>>,
    pub kind: Option<Seq<char>>,
}

impl View for ContentToken {
    type V = ContentTokenView;

    open spec fn view(&self) -> ContentTokenView {
        ContentTokenView {
            s: self.s,
            e: self.e,
            user_id: opt_view(self.user_id),
            username: opt_view(self.username),
            role_id: opt_view(self.role_id),
            channel_id: opt_view(self.channel_id),
            emojiid: opt_view(self.emojiid),
            url: opt_view(self.url),
            kind: opt_view(self.kind),
        }
    }
}

/// A message's text with its marked ranges: mentions, hashtags, emojis, markdown and links.
#[derive(Debug, Clone, Default, PartialEq, Eq)]
pub struct MessageContent {
    pub t: String,
    pub mentions: Vec<ContentToken>,
    pub hg: Vec<ContentToken>,
    pub ej: Vec<ContentToken>,
    pub mk: Vec<ContentToken>,
    pub lk: Vec<ContentToken>,
}

/// A run of a message as the timeline renders it.
#[derive(Debug, Clone, PartialEq, Eq)]
pub enum MessageSpan {
    Text(String),
    Bold(String),
    Code(String),
    CodeBlock { language: Option<String>, text: String },
    Link { text: String, url: String },
    Mention { display: String, user_id: Option<String>, role_id: Option<String> },
    Hashtag { display: String, channel_id: Option<String> },
    Emoji { name: String, emoji_id: String },
}

pub enum SpanView {
    Text(Seq<char>),
    Bold(Seq<char>),
    Code(Seq<char>),
    CodeBlock { language: Option<Seq<char>>, text: Seq<char> },
    Link { text: Seq<char>, url: Seq<char> },
    Mention { display: Seq<char>, user_id: Option<Seq<char>>, role_id: Option<Seq<char>> },
    Hashtag { display: Seq<char>, channel_id: Option<Seq<char>> },
    Emoji { name: Seq<char>, emoji_id: Seq<char> },
}

impl View for MessageSpan {
    type V = SpanView;

    open spec fn view(&self) -> SpanView {
        match self {
            MessageSpan::Text(t) => SpanView::Text(t@),
            MessageSpan::Bold(t) => SpanView::Bold(t@),
            MessageSpan::Code(t) => SpanView::Code(t@),
            MessageSpan::CodeBlock { language, text } => SpanView::CodeBlock {
                language: opt_view(*language),
                text: text@,
            },
            MessageSpan::Link { text, url } => SpanView::Link { text: text@, url: url@ },
            MessageSpan::Mention { display, user_id, role_id } => SpanView::Mention {
                display: display@,
                user_id: opt_view(*user_id),
                role_id: opt_view(*role_id),
            },
            MessageSpan::Hashtag { display, channel_id } => SpanView::Hashtag {
                display: display@,
                channel_id: opt_view(*channel_id),
            },
            MessageSpan::Emoji { name, emoji_id } => SpanView::Emoji {
                name: name@,
                emoji_id: emoji_id@,
            },
        }
    }
}

pub open spec fn spans_view(v: Seq<MessageSpan>) -> Seq<SpanView> {
    v.map_values(|s: MessageSpan| s@)
}

// ---------------------------------------------------------------------------
// Text by UTF-16 offsets
// ---------------------------------------------------------------------------

/// Code units of `c` in UTF-16.
pub open spec fn utf16_width(c: char) -> int {
    if (c as u32) < 0x10000 {
        1
    } else {
        2
    }
}

/// Code units of `t` in UTF-16.
pub open spec fn utf16_len(t: Seq<char>) -> int
    decreases t.len(),
{
    if t.len() == 0 {
        0
    } else {
        utf16_len(t.drop_last()) + utf16_width(t.last())
    }
}

/// The text of the code units `[s, e)` of `t`, decoded with replacement: a character wholly
/// inside is kept, one cut by an end of the range (half of a surrogate pair) becomes U+FFFD.
pub open spec fn utf16_slice(t: Seq<char>, s: int, e: int) -> Seq<char>
    decreases t.len(),
{
    if t.len() == 0 {
        Seq::empty()
    } else {
        let p = utf16_slice(t.drop_last(), s, e);
        let a = utf16_len(t.drop_last());
        let b = a + utf16_width(t.last());
        let lo = if a < s {
            s
        } else {
            a
        };
        let hi = if b < e {
            b
        } else {
            e
        };
        if hi <= lo {
            p
        } else if lo == a && hi == b {
            p.push(t.last())
        } else {
            p.push('\u{FFFD}')
        }
    }
}

proof fn lemma_utf16_len_mono(t: Seq<char>, i: int)
    requires
        0 <= i <= t.len(),
    ensures
        0 <= utf16_len(t.take(i)) <= utf16_len(t),
    decreases t.len() - i,
{
    if i == t.len() {
        assert(t.take(i) =~= t);
        lemma_utf16_len_nonneg(t);
    } else {
        lemma_utf16_len_mono(t, i + 1);
        assert(t.take(i + 1).drop_last() =~= t.take(i));
        lemma_utf16_len_nonneg(t.take(i));
    }
}

proof fn lemma_utf16_len_nonneg(t: Seq<char>)
    ensures
        utf16_len(t) >= 0,
    decreases t.len(),
{
    if t.len() > 0 {
        lemma_utf16_len_nonneg(t.drop_last());
    }
}

fn utf16_width_exec(c: char) -> (w: i64)
    ensures
        w == utf16_width(c),
{
    if (c as u32) < 0x10000 {
        1
    } else {
        2
    }
}

/// The code units of `t` in UTF-16.
fn utf16_len_exec(t: &Vec<char>) -> (n: i64)
    requires
        utf16_len(t@) <= i64::MAX,
    ensures
        n == utf16_len(t@),
{
    let mut n: i64 = 0;
    let mut i: usize = 0;
    proof {
        assert(t@.take(0) =~= Seq::<char>::empty());
    }
    while i < t.len()
        invariant
            i <= t@.len(),
            utf16_len(t@) <= i64::MAX,
            n == utf16_len(t@.take(i as int)),
        decreases t@.len() - i,
    {
        proof {
            assert(t@.take(i + 1).drop_last() =~= t@.take(i as int));
            lemma_utf16_len_mono(t@, i + 1);
        }
        n = n + utf16_width_exec(t[i]);
        i += 1;
    }
    proof {
        assert(t@.take(t@.len() as int) =~= t@);
    }
    n
}

/// The text of the code units `[s, e)` of `t` (see `utf16_slice`).
fn utf16_slice_exec(t: &Vec<char>, s: i64, e: i64) -> (r: String)
    requires
        utf16_len(t@) <= i64::MAX,
    ensures
        r@ == utf16_slice(t@, s as int, e as int),
{
    let mut out: Vec<char> = Vec::new();
    let mut a: i64 = 0;
    let mut i: usize = 0;
    proof {
        assert(t@.take(0) =~= Seq::<char>::empty());
    }
    while i < t.len()
        invariant
            i <= t@.len(),
            utf16_len(t@) <= i64::MAX,
            a == utf16_len(t@.take(i as int)),
            out@ == utf16_slice(t@.take(i as int), s as int, e as int),
        decreases t@.len() - i,
    {
        proof {
            assert(t@.take(i + 1).drop_last() =~= t@.take(i as int));
            assert(t@.take(i + 1).last() == t@[i as int]);
            lemma_utf16_len_mono(t@, i + 1);
        }
        let c = t[i];
        let b = a + utf16_width_exec(c);
        let lo = if a < s {
            s
        } else {
            a
        };
        let hi = if b < e {
            b
        } else {
            e
        };
        if lo < hi {
            if lo == a && hi == b {
                out.push(c);
            } else {
                out.push('\u{FFFD}');
            }
        }
        a = b;
        i += 1;
    }
    proof {
        assert(t@.take(t@.len() as int) =~= t@);
    }
    string_from_chars(&out)
}

// ---------------------------------------------------------------------------
// What one marked range becomes
// ---------------------------------------------------------------------------

/// The list a marked range came from.
#[derive(Debug, Clone, Copy, PartialEq, Eq, Structural)]
pub enum TokenKind {
    Mention,
    Hashtag,
    Emoji,
    Markdown,
    Link,
}

/// A mention names a user when it carries a user id other than empty or `0`, or a user name.
pub open spec fn names_user(t: ContentTokenView) -> bool {
    (t.user_id matches Some(u) && u != "0"@ && u.len() > 0) || t.username is Some
}

pub open spec fn or_empty(o: Option<Seq<char>>) -> Seq<char> {
    match o {
        Some(v) => v,
        None => Seq::empty(),
    }
}

pub open spec fn link_url(t: ContentTokenView, inner: Seq<char>) -> Seq<char> {
    match t.url {
        Some(u) => u,
        None => inner,
    }
}

/// The run a marked range of text `inner` becomes (none for a link-preview marker).
pub open spec fn span_of(kind: TokenKind, t: ContentTokenView, inner: Seq<char>) -> Option<SpanView> {
    match kind {
        TokenKind::Mention => if names_user(t) {
            Some(SpanView::Mention { display: inner, user_id: t.user_id, role_id: None })
        } else if t.role_id matches Some(r) && r.len() > 0 {
            Some(SpanView::Mention { display: inner, user_id: None, role_id: t.role_id })
        } else {
            Some(SpanView::Text(inner))
        },
        TokenKind::Hashtag => Some(SpanView::Hashtag { display: inner, channel_id: t.channel_id }),
        TokenKind::Emoji => Some(SpanView::Emoji { name: inner, emoji_id: or_empty(t.emojiid) }),
        TokenKind::Link => Some(SpanView::Link { text: inner, url: link_url(t, inner) }),
        TokenKind::Markdown => {
            let ty = or_empty(t.kind);
            if ty == "b"@ {
                Some(SpanView::Bold(strip_marker_spec(inner, "**"@)))
            } else if ty == "c"@ || ty == "s"@ {
                Some(SpanView::Code(strip_marker_spec(inner, "`"@)))
            } else if ty == "t"@ || ty == "pre"@ {
                Some(SpanView::CodeBlock { language: None, text: strip_marker_spec(inner, "```"@) })
            } else if ty == "lk"@ || ty == "lk_yt"@ || ty == "lk_fb"@ || ty == "lk_tt"@ {
                Some(SpanView::Link { text: inner, url: link_url(t, inner) })
            } else if ty == "lk_ogp"@ {
                None
            } else {
                Some(SpanView::Text(inner))
            }
        },
    }
}

pub open spec fn opt_span_view(o: Option<MessageSpan>) -> Option<SpanView> {
    match o {
        Some(x) => Some(x@),
        None => None,
    }
}

fn or_empty_exec(o: &Option<String>) -> (r: String)
    ensures
        r@ == or_empty(opt_view(*o)),
{
    match o {
        Some(v) => v.clone(),
        None => String::new(),
    }
}

fn link_url_exec(t: &ContentToken, inner: &String) -> (r: String)
    ensures
        r@ == link_url(t@, inner@),
{
    match &t.url {
        Some(u) => u.clone(),
        None => inner.clone(),
    }
}

fn span_for(kind: TokenKind, t: &ContentToken, inner: String) -> (r: Option<MessageSpan>)
    ensures
        opt_span_view(r) == span_of(kind, t@, inner@),
{
    match kind {
        TokenKind::Mention => {
            let user = match &t.user_id {
                Some(u) => !str_eq(u.as_str(), "0") && !u.as_str().is_empty(),
                None => false,
            } || t.username.is_some();
            if user {
                Some(MessageSpan::Mention { display: inner, user_id: clone_opt_string(&t.user_id), role_id: None })
            } else {
                let role = match &t.role_id {
                    Some(r) => !r.as_str().is_empty(),
                    None => false,
                };
                if role {
                    Some(
                        MessageSpan::Mention {
                            display: inner,
                            user_id: None,
                            role_id: clone_opt_string(&t.role_id),
                        },
                    )
                } else {
                    Some(MessageSpan::Text(inner))
                }
            }
        },
        TokenKind::Hashtag => Some(
            MessageSpan::Hashtag { display: inner, channel_id: clone_opt_string(&t.channel_id) },
        ),
        TokenKind::Emoji => Some(MessageSpan::Emoji { name: inner, emoji_id: or_empty_exec(&t.emojiid) }),
        TokenKind::Link => {
            let url = link_url_exec(t, &inner);
            Some(MessageSpan::Link { text: inner, url })
        },
        TokenKind::Markdown => {
            let ty = or_empty_exec(&t.kind);
            let ty = ty.as_str();
            if str_eq(ty, "b") {
                Some(MessageSpan::Bold(strip_marker(inner.as_str(), "**")))
            } else if str_eq(ty, "c") || str_eq(ty, "s") {
                Some(MessageSpan::Code(strip_marker(inner.as_str(), "`")))
            } else if str_eq(ty, "t") || str_eq(ty, "pre") {
                Some(
                    MessageSpan::CodeBlock {
                        language: None,
                        text: strip_marker(inner.as_str(), "```"),
                    },
                )
            } else if str_eq(ty, "lk") || str_eq(ty, "lk_yt") || str_eq(ty, "lk_fb") || str_eq(
                ty,
                "lk_tt",
            ) {
                let url = link_url_exec(t, &inner);
                Some(MessageSpan::Link { text: inner, url })
            } else if str_eq(ty, "lk_ogp") {
                None
            } else {
                Some(MessageSpan::Text(inner))
            }
        },
    }
}

// ---------------------------------------------------------------------------
// Collecting and ordering the marked ranges
// ---------------------------------------------------------------------------

/// A marked range with its start and end (missing ones read as 0) and its list.
pub struct TaggedView {
    pub s: i64,
    pub e: i64,
    pub kind: TokenKind,
    pub tok: ContentTokenView,
}

pub open spec fn or_zero(o: Option<i64>) -> i64 {
    match o {
        Some(v) => v,
        None => 0,
    }
}

/// The non-empty ranges of one list, in order.
pub open spec fn tagged_list(list: Seq<ContentToken>, kind: TokenKind) -> Seq<TaggedView>
    decreases list.len(),
{
    if list.len() == 0 {
        Seq::empty()
    } else {
        let p = tagged_list(list.drop_last(), kind);
        let t = list.last()@;
        if or_zero(t.e) > or_zero(t.s) {
            p.push(TaggedView { s: or_zero(t.s), e: or_zero(t.e), kind, tok: t })
        } else {
            p
        }
    }
}

/// All non-empty ranges: mentions, hashtags, emojis, markdown, then links.
pub open spec fn all_tagged(c: MessageContent) -> Seq<TaggedView> {
    tagged_list(c.mentions@, TokenKind::Mention) + tagged_list(c.hg@, TokenKind::Hashtag)
        + tagged_list(c.ej@, TokenKind::Emoji) + tagged_list(c.mk@, TokenKind::Markdown)
        + tagged_list(c.lk@, TokenKind::Link)
}

/// `x` inserted into `s` after every range that does not start after it: one step of a
/// stable sort by start.
pub open spec fn insert_tagged(s: Seq<TaggedView>, x: TaggedView) -> Seq<TaggedView>
    decreases s.len(),
{
    if s.len() == 0 {
        seq![x]
    } else if s.last().s <= x.s {
        s.push(x)
    } else {
        insert_tagged(s.drop_last(), x).push(s.last())
    }
}

/// `s` stably sorted by start.
pub open spec fn sort_tagged(s: Seq<TaggedView>) -> Seq<TaggedView>
    decreases s.len(),
{
    if s.len() == 0 {
        s
    } else {
        insert_tagged(sort_tagged(s.drop_last()), s.last())
    }
}

/// A collected range: its start and end, its list, and its place in that list.
struct Tagged {
    s: i64,
    e: i64,
    kind: TokenKind,
    idx: usize,
}

spec fn list_of(c: MessageContent, kind: TokenKind) -> Seq<ContentToken> {
    match kind {
        TokenKind::Mention => c.mentions@,
        TokenKind::Hashtag => c.hg@,
        TokenKind::Emoji => c.ej@,
        TokenKind::Markdown => c.mk@,
        TokenKind::Link => c.lk@,
    }
}

spec fn tag_view(c: MessageContent, t: Tagged) -> TaggedView {
    TaggedView { s: t.s, e: t.e, kind: t.kind, tok: list_of(c, t.kind)[t.idx as int]@ }
}

spec fn tags_view(c: MessageContent, v: Seq<Tagged>) -> Seq<TaggedView> {
    v.map_values(|t: Tagged| tag_view(c, t))
}

spec fn tags_valid(c: MessageContent, v: Seq<Tagged>) -> bool {
    forall|i: int| 0 <= i < v.len() ==> (#[trigger] v[i]).idx < list_of(c, v[i].kind).len()
}

fn list_exec(c: &MessageContent, kind: TokenKind) -> (r: &Vec<ContentToken>)
    ensures
        r@ == list_of(*c, kind),
{
    match kind {
        TokenKind::Mention => &c.mentions,
        TokenKind::Hashtag => &c.hg,
        TokenKind::Emoji => &c.ej,
        TokenKind::Markdown => &c.mk,
        TokenKind::Link => &c.lk,
    }
}

fn collect_tagged(c: &MessageContent, kind: TokenKind, out: &mut Vec<Tagged>)
    requires
        tags_valid(*c, old(out)@),
    ensures
        tags_valid(*c, final(out)@),
        tags_view(*c, final(out)@) == tags_view(*c, old(out)@) + tagged_list(list_of(*c, kind), kind),
{
    let list = list_exec(c, kind);
    let ghost base = tags_view(*c, out@);
    let mut i: usize = 0;
    proof {
        assert(list@.take(0) =~= Seq::<ContentToken>::empty());
        assert(base + tagged_list(list@.take(0), kind) =~= base);
    }
    while i < list.len()
        invariant
            list@ == list_of(*c, kind),
            i <= list@.len(),
            tags_valid(*c, out@),
            tags_view(*c, out@) == base + tagged_list(list@.take(i as int), kind),
        decreases list@.len() - i,
    {
        proof {
            assert(list@.take(i + 1).drop_last() =~= list@.take(i as int));
            assert(list@.take(i + 1).last() == list@[i as int]);
        }
        let s = match list[i].s {
            Some(v) => v,
            None => 0,
        };
        let e = match list[i].e {
            Some(v) => v,
            None => 0,
        };
        if e > s {
            let ghost before = tags_view(*c, out@);
            let t = Tagged { s, e, kind, idx: i };
            out.push(t);
            proof {
                assert(tags_view(*c, out@) =~= before.push(tag_view(*c, t)));
            }
        }
        i += 1;
    }
    proof {
        assert(list@.take(list@.len() as int) =~= list@);
    }
}

proof fn lemma_insert_tagged_at(s: Seq<TaggedView>, x: TaggedView, j: int)
    requires
        0 <= j <= s.len(),
        forall|k: int| j <= k < s.len() ==> (#[trigger] s[k]).s > x.s,
        j > 0 ==> s[j - 1].s <= x.s,
    ensures
        insert_tagged(s, x) == s.take(j) + seq![x] + s.skip(j),
    decreases s.len(),
{
    if s.len() == 0 {
        assert(s.take(j) + seq![x] + s.skip(j) =~= seq![x]);
    } else if j == s.len() {
        assert(s.take(j) + seq![x] + s.skip(j) =~= s.push(x));
    } else {
        let p = s.drop_last();
        assert(s[s.len() - 1] == s.last());
        lemma_insert_tagged_at(p, x, j);
        assert(p.take(j) + seq![x] + p.skip(j) + seq![s.last()] =~= s.take(j) + seq![x] + s.skip(
            j,
        ));
    }
}

fn sort_by_start(c: &MessageContent, v: &mut Vec<Tagged>)
    requires
        tags_valid(*c, old(v)@),
    ensures
        tags_valid(*c, final(v)@),
        tags_view(*c, final(v)@) == sort_tagged(tags_view(*c, old(v)@)),
{
    let ghost s = tags_view(*c, v@);
    let mut out: Vec<Tagged> = Vec::new();
    let n = v.len();
    proof {
        assert(s.subrange(0, 0) =~= Seq::<TaggedView>::empty());
        assert(tags_view(*c, out@) =~= Seq::<TaggedView>::empty());
    }
    while v.len() > 0
        invariant
            n == s.len(),
            v@.len() <= n,
            tags_valid(*c, v@),
            tags_valid(*c, out@),
            tags_view(*c, v@) == s.subrange(n - v@.len(), n as int),
            tags_view(*c, out@) == sort_tagged(s.subrange(0, n - v@.len())),
        decreases v@.len(),
    {
        let ghost k = n - v@.len();
        let ghost before = v@;
        let x = v.remove(0);
        proof {
            assert(tags_view(*c, before)[0] == s.subrange(k, n as int)[0]);
            assert(tag_view(*c, x) == s[k]);
            assert(tags_view(*c, v@) =~= s.subrange(k + 1, n as int)) by {
                assert forall|q: int| 0 <= q < v@.len() implies tags_view(*c, v@)[q]
                    == s.subrange(k + 1, n as int)[q] by {
                    assert(v@[q] == before[q + 1]);
                    assert(tags_view(*c, before)[q + 1] == s.subrange(k, n as int)[q + 1]);
                }
            }
            assert forall|q: int| 0 <= q < v@.len() implies (#[trigger] v@[q]).idx < list_of(
                *c,
                v@[q].kind,
            ).len() by {
                assert(v@[q] == before[q + 1]);
            }
            assert(before[0] == x);
            assert(s.subrange(0, k + 1).drop_last() =~= s.subrange(0, k));
        }
        let ghost ov = tags_view(*c, out@);
        let mut j = out.len();
        while j > 0 && out[j - 1].s > x.s
            invariant
                ov == tags_view(*c, out@),
                j <= out@.len(),
                forall|q: int| j <= q < ov.len() ==> (#[trigger] ov[q]).s > x.s,
            decreases j,
        {
            proof {
                assert(ov[j - 1] == tag_view(*c, out@[j - 1]));
            }
            j -= 1;
        }
        proof {
            if j > 0 {
                assert(ov[j - 1] == tag_view(*c, out@[j - 1]));
            }
            lemma_insert_tagged_at(ov, tag_view(*c, x), j as int);
        }
        let ghost ob = out@;
        out.insert(j, x);
        proof {
            assert(tags_view(*c, out@) =~= ov.take(j as int) + seq![tag_view(*c, x)] + ov.skip(
                j as int,
            ));
            assert forall|q: int| 0 <= q < out@.len() implies (#[trigger] out@[q]).idx < list_of(
                *c,
                out@[q].kind,
            ).len() by {
                if q < j {
                    assert(out@[q] == ob[q]);
                } else if q > j {
                    assert(out@[q] == ob[q - 1]);
                }
            }
        }
    }
    proof {
        assert(s.subrange(0, n as int) =~= s);
    }
    *v = out;
}

// ---------------------------------------------------------------------------
// Cutting the text into runs
// ---------------------------------------------------------------------------

pub struct SpanState {
    pub spans: Seq<SpanView>,
    pub last: i64,
    pub prev_end: i64,
}

/// One range, in start order: one overlapping the range taken before is skipped; otherwise
/// the plain text before it (if any) and its run (if any) are added.
pub open spec fn step(st: SpanState, t: TaggedView, text: Seq<char>) -> SpanState {
    if t.s < st.prev_end {
        st
    } else {
        let with_gap = if st.last < t.s {
            st.spans.push(SpanView::Text(utf16_slice(text, st.last as int, t.s as int)))
        } else {
            st.spans
        };
        let inner = utf16_slice(text, t.s as int, t.e as int);
        let spans = match span_of(t.kind, t.tok, inner) {
            Some(x) => with_gap.push(x),
            None => with_gap,
        };
        SpanState { spans, last: t.e, prev_end: t.e }
    }
}

pub open spec fn fold_steps(toks: Seq<TaggedView>, text: Seq<char>) -> SpanState
    decreases toks.len(),
{
    if toks.len() == 0 {
        SpanState { spans: Seq::empty(), last: 0, prev_end: i64::MIN }
    } else {
        step(fold_steps(toks.drop_last(), text), toks.last(), text)
    }
}

/// The runs of a message: its text cut at its marked ranges (taken by start, skipping those
/// that overlap one taken before), with plain text between and after them; an empty text has
/// none.
pub open spec fn parse_spans_spec(c: MessageContent) -> Seq<SpanView> {
    let text = c.t@;
    if text.len() == 0 {
        Seq::empty()
    } else {
        let st = fold_steps(sort_tagged(all_tagged(c)), text);
        if st.last < utf16_len(text) {
            st.spans.push(SpanView::Text(utf16_slice(text, st.last as int, utf16_len(text))))
        } else {
            st.spans
        }
    }
}

/// Cuts a message into runs (see `parse_spans_spec`).
pub fn parse_spans(content: &MessageContent) -> (r: Vec<MessageSpan>)
    requires
        utf16_len(content.t@) <= i64::MAX,
    ensures
        spans_view(r@) == parse_spans_spec(*content),
{
    let text = chars_of(content.t.as_str());
    if text.len() == 0 {
        return Vec::new();
    }
    let total = utf16_len_exec(&text);
    let mut toks: Vec<Tagged> = Vec::new();
    collect_tagged(content, TokenKind::Mention, &mut toks);
    collect_tagged(content, TokenKind::Hashtag, &mut toks);
    collect_tagged(content, TokenKind::Emoji, &mut toks);
    collect_tagged(content, TokenKind::Markdown, &mut toks);
    collect_tagged(content, TokenKind::Link, &mut toks);
    proof {
        assert(tags_view(*content, toks@) =~= all_tagged(*content));
    }
    sort_by_start(content, &mut toks);
    let ghost tv = tags_view(*content, toks@);
    let mut spans: Vec<MessageSpan> = Vec::new();
    let mut last: i64 = 0;
    let mut prev_end: i64 = i64::MIN;
    let mut i: usize = 0;
    proof {
        assert(tv.take(0) =~= Seq::<TaggedView>::empty());
        assert(spans_view(spans@) =~= Seq::<SpanView>::empty());
    }
    while i < toks.len()
        invariant
            text@ == content.t@,
            utf16_len(text@) <= i64::MAX,
            tags_valid(*content, toks@),
            tv == tags_view(*content, toks@),
            i <= toks@.len(),
            ({
                let st = fold_steps(tv.take(i as int), text@);
                &&& spans_view(spans@) == st.spans
                &&& last == st.last
                &&& prev_end == st.prev_end
            }),
        decreases toks@.len() - i,
    {
        proof {
            assert(tv.take(i + 1).drop_last() =~= tv.take(i as int));
            assert(tv.take(i + 1).last() == tv[i as int]);
            assert(tv[i as int] == tag_view(*content, toks@[i as int]));
        }
        let s = toks[i].s;
        let e = toks[i].e;
        let kind = toks[i].kind;
        let idx = toks[i].idx;
        if s >= prev_end {
            if last < s {
                let gap = utf16_slice_exec(&text, last, s);
                let ghost before = spans_view(spans@);
                spans.push(MessageSpan::Text(gap));
                proof {
                    assert(spans_view(spans@) =~= before.push(
                        SpanView::Text(utf16_slice(text@, last as int, s as int)),
                    ));
                }
            }
            let inner = utf16_slice_exec(&text, s, e);
            let list = list_exec(content, kind);
            proof {
                assert(toks@[i as int].idx < list_of(*content, toks@[i as int].kind).len());
            }
            let made = span_for(kind, &list[idx], inner);
            match made {
                Some(x) => {
                    let ghost before = spans_view(spans@);
                    let ghost xv = x@;
                    spans.push(x);
                    proof {
                        assert(spans_view(spans@) =~= before.push(xv));
                    }
                },
                None => {},
            }
            prev_end = e;
            last = e;
        }
        i += 1;
    }
    proof {
        assert(tv.take(tv.len() as int) =~= tv);
    }
    if last < total {
        let tail = utf16_slice_exec(&text, last, total);
        let ghost before = spans_view(spans@);
        spans.push(MessageSpan::Text(tail));
        proof {
            assert(spans_view(spans@) =~= before.push(
                SpanView::Text(utf16_slice(text@, last as int, total as int)),
            ));
        }
    }
    spans
}

/// A link range becomes a link whose text is the covered text and whose target is the
/// token's address, or the covered text when the token has none; a markdown link range does
/// the same.
pub proof fn law_link_keeps_its_target(t: ContentTokenView, inner: Seq<char>)
    ensures
        span_of(TokenKind::Link, t, inner) == Some(
            SpanView::Link {
                text: inner,
                url: match t.url {
                    Some(u) => u,
                    None => inner,
                },
            },
        ),
        t.url is Some && t.kind == Some("lk"@) ==> span_of(TokenKind::Markdown, t, inner) == Some(
            SpanView::Link { text: inner, url: t.url->0 },
        ),
{
    reveal_strlit("lk");
    reveal_strlit("b");
    reveal_strlit("c");
    reveal_strlit("s");
    reveal_strlit("t");
    reveal_strlit("pre");
    if t.url is Some && t.kind == Some("lk"@) {
        let ty = or_empty(t.kind);
        assert(ty == "lk"@);
        assert(ty != "b"@);
        assert(ty != "c"@ && ty != "s"@);
        assert(ty != "t"@ && ty != "pre"@);
    }
}

/// A text with one link range `[s, e)` (and no other marked range) renders as the text before
/// it, the link (its covered text, pointing at the token's address), and the text after it.
pub proof fn law_single_link_renders(c: MessageContent, s: i64, e: i64, u: Seq<char>)
    requires
        c.t@.len() > 0,
        c.mentions@.len() == 0 && c.hg@.len() == 0 && c.ej@.len() == 0 && c.mk@.len() == 0,
        c.lk@.len() == 1,
        c.lk@[0].s == Some(s),
        c.lk@[0].e == Some(e),
        0 <= s < e,
        c.lk@[0]@.url == Some(u),
    ensures
        ({
            let text = c.t@;
            let n = utf16_len(text);
            let before = if 0 < s {
                seq![SpanView::Text(utf16_slice(text, 0, s as int))]
            } else {
                Seq::empty()
            };
            let after = if e < n {
                seq![SpanView::Text(utf16_slice(text, e as int, n))]
            } else {
                Seq::empty()
            };
            parse_spans_spec(c) == before + seq![SpanView::Link { text: utf16_slice(text, s as int, e as int), url: u }]
                + after
        }),
{
    let text = c.t@;
    let tok = c.lk@[0]@;
    let tv = TaggedView { s, e, kind: TokenKind::Link, tok };
    assert(c.lk@.drop_last() =~= Seq::<ContentToken>::empty());
    assert(c.lk@.last() == c.lk@[0]);
    assert(tagged_list(c.lk@.drop_last(), TokenKind::Link) =~= Seq::<TaggedView>::empty());
    assert(tagged_list(c.lk@, TokenKind::Link) =~= seq![tv]);
    assert(tagged_list(c.mentions@, TokenKind::Mention) =~= Seq::<TaggedView>::empty());
    assert(tagged_list(c.hg@, TokenKind::Hashtag) =~= Seq::<TaggedView>::empty());
    assert(tagged_list(c.ej@, TokenKind::Emoji) =~= Seq::<TaggedView>::empty());
    assert(tagged_list(c.mk@, TokenKind::Markdown) =~= Seq::<TaggedView>::empty());
    assert(all_tagged(c) =~= seq![tv]);
    assert(seq![tv].drop_last() =~= Seq::<TaggedView>::empty());
    assert(sort_tagged(Seq::<TaggedView>::empty()) =~= Seq::<TaggedView>::empty());
    assert(insert_tagged(Seq::<TaggedView>::empty(), tv) =~= seq![tv]);
    assert(seq![tv].last() == tv);
    assert(sort_tagged(seq![tv]) =~= seq![tv]);
    assert(fold_steps(seq![tv], text) == step(fold_steps(Seq::<TaggedView>::empty(), text), tv, text));
    law_link_keeps_its_target(tok, utf16_slice(text, s as int, e as int));
    let n = utf16_len(text);
    let before = if 0 < s {
        seq![SpanView::Text(utf16_slice(text, 0, s as int))]
    } else {
        Seq::<SpanView>::empty()
    };
    let after = if e < n {
        seq![SpanView::Text(utf16_slice(text, e as int, n))]
    } else {
        Seq::<SpanView>::empty()
    };
    let st = fold_steps(seq![tv], text);
    assert(st.spans =~= before + seq![SpanView::Link { text: utf16_slice(text, s as int, e as int), url: u }]);
    assert(st.last == e);
    assert(parse_spans_spec(c) =~= before + seq![SpanView::Link { text: utf16_slice(text, s as int, e as int), url: u }]
        + after);
}

} // verus!

