use vstd::prelude::*;

use std::path::PathBuf;

use crate::ids::{MessageId, UserId};
use crate::message::MessageReference;
use crate::text::{i64_to_string, int_decimal, parse_i64, parse_i64_spec};

verus! {

/// A mention typed in the composer, with its UTF-16 range in the text.
#[derive(Debug, Clone, Default, PartialEq, Eq)]
pub struct OutgoingMention {
    pub user_id: String,
    pub role_id: String,
    pub display: String,
    pub s: i32,
    pub e: i32,
}

/// A hashtag typed in the composer.
#[derive(Debug, Clone, Default, PartialEq, Eq)]
pub struct OutgoingHashtag {
    pub channel_id: String,
    pub s: i32,
    pub e: i32,
}

/// A custom emoji typed in the composer.
#[derive(Debug, Clone, Default, PartialEq, Eq)]
pub struct OutgoingEmoji {
    pub emoji_id: String,
    pub s: i32,
    pub e: i32,
}

/// A mention as the transport sends it.
#[derive(Debug, Clone, Default, PartialEq, Eq)]
pub struct TransportMention {
    pub user_id: String,
    pub role_id: String,
    pub username: String,
    pub s: i32,
    pub e: i32,
}

/// A hashtag as the transport sends it.
#[derive(Debug, Clone, Default, PartialEq, Eq)]
pub struct TransportHashtag {
    pub channel_id: String,
    pub s: i32,
    pub e: i32,
}

/// An emoji as the transport sends it.
#[derive(Debug, Clone, Default, PartialEq, Eq)]
pub struct TransportEmoji {
    pub emoji_id: String,
    pub s: i32,
    pub e: i32,
}

impl OutgoingMention {
    /// The transport form: the display text travels as the user name; ranges are kept.
    pub fn into_transport(self) -> (r: TransportMention)
        ensures
            r.user_id@ == self.user_id@,
            r.role_id@ == self.role_id@,
            r.username@ == self.display@,
            r.s == self.s,
            r.e == self.e,
    {
        TransportMention { user_id: self.user_id, role_id: self.role_id, username: self.display, s: self.s, e: self.e }
    }
}

impl OutgoingHashtag {
    pub fn into_transport(self) -> (r: TransportHashtag)
        ensures
            r.channel_id@ == self.channel_id@,
            r.s == self.s,
            r.e == self.e,
    {
        TransportHashtag { channel_id: self.channel_id, s: self.s, e: self.e }
    }
}

impl OutgoingEmoji {
    pub fn into_transport(self) -> (r: TransportEmoji)
        ensures
            r.emoji_id@ == self.emoji_id@,
            r.s == self.s,
            r.e == self.e,
    {
        TransportEmoji { emoji_id: self.emoji_id, s: self.s, e: self.e }
    }
}

/// The rich tokens of a message being sent.
#[derive(Debug, Clone, Default)]
pub struct OutgoingContent {
    pub mentions: Vec<OutgoingMention>,
    pub hashtags: Vec<OutgoingHashtag>,
    pub emojis: Vec<OutgoingEmoji>,
}

impl OutgoingContent {
    pub fn is_empty(&self) -> (r: bool)
        ensures
            r == (self.mentions@.len() == 0 && self.hashtags@.len() == 0 && self.emojis@.len() == 0),
    {
        self.mentions.len() == 0 && self.hashtags.len() == 0 && self.emojis.len() == 0
    }
}

/// The transport tokens of a message being sent, each list in the composer's order.
pub struct TransportContent {
    pub mentions: Vec<TransportMention>,
    pub hashtags: Vec<TransportHashtag>,
    pub emojis: Vec<TransportEmoji>,
}

pub open spec fn mention_sent(t: TransportMention, m: OutgoingMention) -> bool {
    t.user_id@ == m.user_id@ && t.role_id@ == m.role_id@ && t.username@ == m.display@ && t.s == m.s && t.e == m.e
}

pub open spec fn hashtag_sent(t: TransportHashtag, h: OutgoingHashtag) -> bool {
    t.channel_id@ == h.channel_id@ && t.s == h.s && t.e == h.e
}

pub open spec fn emoji_sent(t: TransportEmoji, e: OutgoingEmoji) -> bool {
    t.emoji_id@ == e.emoji_id@ && t.s == e.s && t.e == e.e
}

/// Every token of the composer in its transport form, in order.
pub fn content_into_transport(content: OutgoingContent) -> (r: TransportContent)
    ensures
        r.mentions@.len() == content.mentions@.len(),
        forall|i: int| 0 <= i < content.mentions@.len() ==> mention_sent(#[trigger] r.mentions@[i], content.mentions@[i]),
        r.hashtags@.len() == content.hashtags@.len(),
        forall|i: int| 0 <= i < content.hashtags@.len() ==> hashtag_sent(#[trigger] r.hashtags@[i], content.hashtags@[i]),
        r.emojis@.len() == content.emojis@.len(),
        forall|i: int| 0 <= i < content.emojis@.len() ==> emoji_sent(#[trigger] r.emojis@[i], content.emojis@[i]),
{
    let OutgoingContent { mentions, hashtags, emojis } = content;
    let mut tm: Vec<TransportMention> = Vec::new();
    let mut i: usize = 0;
    while i < mentions.len()
        invariant
            i <= mentions@.len(),
            tm@.len() == i,
            forall|j: int| 0 <= j < i ==> mention_sent(#[trigger] tm@[j], mentions@[j]),
        decreases mentions@.len() - i,
    {
        let m = &mentions[i];
        tm.push(
            TransportMention {
                user_id: m.user_id.clone(),
                role_id: m.role_id.clone(),
                username: m.display.clone(),
                s: m.s,
                e: m.e,
            },
        );
        i += 1;
    }
    let mut th: Vec<TransportHashtag> = Vec::new();
    let mut i: usize = 0;
    while i < hashtags.len()
        invariant
            i <= hashtags@.len(),
            th@.len() == i,
            forall|j: int| 0 <= j < i ==> hashtag_sent(#[trigger] th@[j], hashtags@[j]),
        decreases hashtags@.len() - i,
    {
        let h = &hashtags[i];
        th.push(TransportHashtag { channel_id: h.channel_id.clone(), s: h.s, e: h.e });
        i += 1;
    }
    let mut te: Vec<TransportEmoji> = Vec::new();
    let mut i: usize = 0;
    while i < emojis.len()
        invariant
            i <= emojis@.len(),
            te@.len() == i,
            forall|j: int| 0 <= j < i ==> emoji_sent(#[trigger] te@[j], emojis@[j]),
        decreases emojis@.len() - i,
    {
        let e = &emojis[i];
        te.push(TransportEmoji { emoji_id: e.emoji_id.clone(), s: e.s, e: e.e });
        i += 1;
    }
    TransportContent { mentions: tm, hashtags: th, emojis: te }
}

/// A file attached in the composer.
#[derive(Debug, Clone)]
pub struct OutgoingAttachment {
    pub path: PathBuf,
    pub filename: String,
    pub filetype: String,
}

/// The message being replied to, as the composer holds it.
#[derive(Debug, Clone)]
pub struct ReplyDraft {
    pub message_ref_id: String,
    pub sender_id: String,
    pub sender_name: String,
    pub sender_avatar: String,
    pub content_preview: String,
    pub has_attachment: bool,
}

/// A reply as the transport sends it.
#[derive(Debug, Clone, Default, PartialEq, Eq)]
pub struct OutgoingReply {
    pub message_ref_id: i64,
    pub content: String,
    pub has_attachment: bool,
    pub message_sender_id: i64,
    pub message_sender_username: String,
    pub message_sender_avatar: String,
    pub message_sender_clan_nick: String,
    pub message_sender_display_name: String,
}

/// An id as the transport reads it: the number it spells, else `0`.
pub open spec fn id_or_zero(s: Seq<char>) -> i64 {
    match parse_i64_spec(s) {
        Some(n) => n,
        None => 0,
    }
}

fn id_or_zero_exec(s: &str) -> (r: i64)
    ensures
        r == id_or_zero(s@),
{
    match parse_i64(s) {
        Some(n) => n,
        None => 0,
    }
}

/// The reply that goes with a message sent while `draft` is the reply target: ids that are
/// not numbers become `0`; the sender's name serves as user name and display name, and the
/// clan nick is empty.
pub fn outgoing_reply(draft: ReplyDraft) -> (r: OutgoingReply)
    ensures
        r.message_ref_id == id_or_zero(draft.message_ref_id@),
        r.content@ == draft.content_preview@,
        r.has_attachment == draft.has_attachment,
        r.message_sender_id == id_or_zero(draft.sender_id@),
        r.message_sender_username@ == draft.sender_name@,
        r.message_sender_avatar@ == draft.sender_avatar@,
        r.message_sender_clan_nick@.len() == 0,
        r.message_sender_display_name@ == draft.sender_name@,
{
    let message_ref_id = id_or_zero_exec(draft.message_ref_id.as_str());
    let message_sender_id = id_or_zero_exec(draft.sender_id.as_str());
    OutgoingReply {
        message_ref_id,
        content: draft.content_preview,
        has_attachment: draft.has_attachment,
        message_sender_id,
        message_sender_username: draft.sender_name.clone(),
        message_sender_avatar: draft.sender_avatar,
        message_sender_clan_nick: String::new(),
        message_sender_display_name: draft.sender_name,
    }
}

/// The reference shown above the optimistic copy of a reply.
pub fn draft_reference(draft: &ReplyDraft) -> (r: MessageReference)
    ensures
        r.message_ref_id == MessageId(id_or_zero(draft.message_ref_id@)),
        r.sender_id == UserId(id_or_zero(draft.sender_id@)),
        r.sender_name@ == draft.sender_name@,
        r.sender_avatar@ == draft.sender_avatar@,
        r.content@ == draft.content_preview@,
        r.has_attachment == draft.has_attachment,
{
    MessageReference {
        message_ref_id: MessageId(id_or_zero_exec(draft.message_ref_id.as_str())),
        sender_id: UserId(id_or_zero_exec(draft.sender_id.as_str())),
        sender_name: draft.sender_name.clone(),
        sender_avatar: draft.sender_avatar.clone(),
        content: draft.content_preview.clone(),
        has_attachment: draft.has_attachment,
    }
}

/// The id of a message until the server confirms it: `temp-` and the send time in seconds.
pub open spec fn temp_id_spec(now_secs: i64) -> Seq<char> {
    seq!['t', 'e', 'm', 'p', '-'] + int_decimal(now_secs as int)
}

pub fn temp_message_id(now_secs: i64) -> (r: String)
    ensures
        r@ == temp_id_spec(now_secs),
{
    let mut s = String::from_str("temp-");
    proof {
        reveal_strlit("temp-");
        assert("temp-"@ =~= seq!['t', 'e', 'm', 'p', '-']);
    }
    let n = i64_to_string(now_secs);
    s.append(n.as_str());
    s
}

/// How a message is sent.
#[derive(Debug, Clone, PartialEq, Eq)]
pub enum SendRoute {
    /// Files are read and uploaded with the text.
    WithAttachments,
    /// The text goes as a reply to the given message.
    Reply(OutgoingReply),
    /// The text goes as a plain message.
    Plain,
}

/// `o` is how the transport sends the reply drafted as `d` (see `outgoing_reply`).
pub open spec fn reply_sent(o: OutgoingReply, d: ReplyDraft) -> bool {
    &&& o.message_ref_id == id_or_zero(d.message_ref_id@)
    &&& o.content@ == d.content_preview@
    &&& o.has_attachment == d.has_attachment
    &&& o.message_sender_id == id_or_zero(d.sender_id@)
    &&& o.message_sender_username@ == d.sender_name@
    &&& o.message_sender_avatar@ == d.sender_avatar@
    &&& o.message_sender_clan_nick@.len() == 0
    &&& o.message_sender_display_name@ == d.sender_name@
}

/// The reference shown above an optimistic message replying to the draft `d` (see
/// `draft_reference`).
pub open spec fn reference_of(r: MessageReference, d: ReplyDraft) -> bool {
    &&& r.message_ref_id == MessageId(id_or_zero(d.message_ref_id@))
    &&& r.sender_id == UserId(id_or_zero(d.sender_id@))
    &&& r.sender_name@ == d.sender_name@
    &&& r.sender_avatar@ == d.sender_avatar@
    &&& r.content@ == d.content_preview@
    &&& r.has_attachment == d.has_attachment
}

/// Attachments take precedence over a reply; a message without either is plain.
pub fn send_route(has_attachments: bool, reply: Option<ReplyDraft>) -> (r: SendRoute)
    ensures
        has_attachments ==> r == SendRoute::WithAttachments,
        !has_attachments && reply is None ==> r == SendRoute::Plain,
        !has_attachments && reply is Some ==> (r matches SendRoute::Reply(o) && {
            let d = reply->0;
            &&& o.message_ref_id == id_or_zero(d.message_ref_id@)
            &&& o.content@ == d.content_preview@
            &&& o.has_attachment == d.has_attachment
            &&& o.message_sender_id == id_or_zero(d.sender_id@)
            &&& o.message_sender_username@ == d.sender_name@
            &&& o.message_sender_avatar@ == d.sender_avatar@
            &&& o.message_sender_clan_nick@.len() == 0
            &&& o.message_sender_display_name@ == d.sender_name@
        }),
{
    if has_attachments {
        return SendRoute::WithAttachments;
    }
    match reply {
        Some(d) => SendRoute::Reply(outgoing_reply(d)),
        None => SendRoute::Plain,
    }
}

/// The file type a sticker is sent with.
pub const STICKER_FILETYPE: &'static str = "sticker";

} // verus!
