use vstd::prelude::*;

use crate::ids::{MessageId, UserId};
use crate::text::{
    after_last, all_ascii, chars_eq, chars_of, contains_exec, contains_seq, ends_with, ends_with_exec,
    first_of, index_after_last, index_of_any, lower_chars, lower_seq, owned, push_all, push_str,
    starts_with, starts_with_exec, str_eq, string_from_chars, sub_chars,
};

verus! {

// ---------------------------------------------------------------------------
// Tenor links
// ---------------------------------------------------------------------------

pub open spec fn tenor_prefix() -> Seq<char> {
    "https://media.tenor.com/"@
}

/// The MP4 rendition of a Tenor GIF link
/// `https://media.tenor.com/<16-char media id>/<name>.gif`: the first 11 characters of the
/// media id followed by `AAAPo`, then `/<name>.mp4`.
pub open spec fn tenor_mp4_spec(url: Seq<char>) -> Option<Seq<char>> {
    let p = tenor_prefix();
    if !starts_with(url, p) {
        None
    } else {
        let rest = url.skip(p.len() as int);
        let k = first_of(rest, seq!['/']);
        if k == rest.len() {
            None
        } else {
            let media = rest.take(k);
            let file = rest.skip(k + 1);
            if !ends_with(file, ".gif"@) {
                None
            } else {
                let name = file.take(file.len() - 4);
                if media.len() != 16 || !all_ascii(media) || name.len() == 0 {
                    None
                } else {
                    Some(p + media.take(11) + "AAAPo/"@ + name + ".mp4"@)
                }
            }
        }
    }
}

fn all_ascii_exec(v: &Vec<char>) -> (r: bool)
    ensures
        r == all_ascii(v@),
{
    let mut i: usize = 0;
    while i < v.len()
        invariant
            i <= v@.len(),
            forall|j: int| 0 <= j < i ==> (#[trigger] v@[j] as u32) < 128,
        decreases v@.len() - i,
    {
        if (v[i] as u32) >= 128 {
            return false;
        }
        i += 1;
    }
    true
}

/// The MP4 rendition of a Tenor GIF link, or `None` when the link is not of that shape.
pub fn tenor_mp4_url(gif_url: &str) -> (r: Option<String>)
    ensures
        match r {
            Some(u) => tenor_mp4_spec(gif_url@) == Some(u@),
            None => tenor_mp4_spec(gif_url@) is None,
        },
{
    let u = chars_of(gif_url);
    let p = chars_of("https://media.tenor.com/");
    if !starts_with_exec(&u, &p) {
        return None;
    }
    let rest = sub_chars(&u, p.len(), u.len());
    let slash = vec!['/'];
    proof {
        assert(slash@ =~= seq!['/']);
        assert(rest@ =~= u@.skip(p@.len() as int));
    }
    let k = index_of_any(&rest, &slash);
    if k == rest.len() {
        return None;
    }
    let media = sub_chars(&rest, 0, k);
    let file = sub_chars(&rest, k + 1, rest.len());
    let gif = chars_of(".gif");
    proof {
        assert(media@ =~= rest@.take(k as int));
        assert(file@ =~= rest@.skip(k + 1));
        reveal_strlit(".gif");
    }
    if !ends_with_exec(&file, &gif) {
        return None;
    }
    let name = sub_chars(&file, 0, file.len() - 4);
    proof {
        assert(name@ =~= file@.take(file@.len() - 4));
    }
    if media.len() != 16 || !all_ascii_exec(&media) || name.len() == 0 {
        return None;
    }
    let mut out = p;
    let content = sub_chars(&media, 0, 11);
    push_all(&mut out, &content);
    push_str(&mut out, "AAAPo/");
    push_all(&mut out, &name);
    push_str(&mut out, ".mp4");
    proof {
        assert(content@ =~= media@.take(11));
    }
    Some(string_from_chars(&out))
}

// ---------------------------------------------------------------------------
// Message codes
// ---------------------------------------------------------------------------

/// The kind of a channel message, from its wire number.
#[derive(Debug, Clone, Copy, PartialEq, Eq, Structural)]
pub enum MessageCode {
    Chat,
    ChatUpdate,
    ChatRemove,
    Typing,
    Indicator,
    Welcome,
    CreateThread,
    CreatePin,
    MessageBuzz,
    Topic,
    AuditLog,
    SendToken,
    Ephemeral,
    UpcomingEvent,
    UpdateEphemeralMsg,
    DeleteEphemeralMsg,
    ShareContact,
    Location,
    Poll,
    Unknown(i32),
}

pub open spec fn message_code_of(raw: i32) -> MessageCode {
    if raw == 0 {
        MessageCode::Chat
    } else if raw == 1 {
        MessageCode::ChatUpdate
    } else if raw == 2 {
        MessageCode::ChatRemove
    } else if raw == 3 {
        MessageCode::Typing
    } else if raw == 4 {
        MessageCode::Indicator
    } else if raw == 5 {
        MessageCode::Welcome
    } else if raw == 6 {
        MessageCode::CreateThread
    } else if raw == 7 {
        MessageCode::CreatePin
    } else if raw == 8 {
        MessageCode::MessageBuzz
    } else if raw == 9 {
        MessageCode::Topic
    } else if raw == 10 {
        MessageCode::AuditLog
    } else if raw == 11 {
        MessageCode::SendToken
    } else if raw == 12 {
        MessageCode::Ephemeral
    } else if raw == 13 {
        MessageCode::UpcomingEvent
    } else if raw == 14 {
        MessageCode::UpdateEphemeralMsg
    } else if raw == 15 {
        MessageCode::DeleteEphemeralMsg
    } else if raw == 16 {
        MessageCode::ShareContact
    } else if raw == 17 {
        MessageCode::Location
    } else if raw == 18 {
        MessageCode::Poll
    } else {
        MessageCode::Unknown(raw)
    }
}

/// Codes shown as system notices rather than as a user's message.
pub open spec fn is_system_code(c: MessageCode) -> bool {
    c is Welcome || c is UpcomingEvent || c is CreateThread || c is CreatePin || c is AuditLog
}

/// Codes that belong on a channel's timeline as a user's message.
pub open spec fn is_user_timeline_code(c: MessageCode) -> bool {
    !(c is Indicator || c is Typing || c is ChatUpdate || c is ChatRemove
        || c is UpdateEphemeralMsg || c is DeleteEphemeralMsg) && !is_system_code(c)
}

impl MessageCode {
    pub fn from_raw(raw: i32) -> (r: Self)
        ensures
            r == message_code_of(raw),
    {
        match raw {
            0 => MessageCode::Chat,
            1 => MessageCode::ChatUpdate,
            2 => MessageCode::ChatRemove,
            3 => MessageCode::Typing,
            4 => MessageCode::Indicator,
            5 => MessageCode::Welcome,
            6 => MessageCode::CreateThread,
            7 => MessageCode::CreatePin,
            8 => MessageCode::MessageBuzz,
            9 => MessageCode::Topic,
            10 => MessageCode::AuditLog,
            11 => MessageCode::SendToken,
            12 => MessageCode::Ephemeral,
            13 => MessageCode::UpcomingEvent,
            14 => MessageCode::UpdateEphemeralMsg,
            15 => MessageCode::DeleteEphemeralMsg,
            16 => MessageCode::ShareContact,
            17 => MessageCode::Location,
            18 => MessageCode::Poll,
            other => MessageCode::Unknown(other),
        }
    }

    pub fn is_system(self) -> (r: bool)
        ensures
            r == is_system_code(self),
    {
        match self {
            MessageCode::Welcome | MessageCode::UpcomingEvent | MessageCode::CreateThread
            | MessageCode::CreatePin | MessageCode::AuditLog => true,
            _ => false,
        }
    }

    pub fn is_user_timeline(self) -> (r: bool)
        ensures
            r == is_user_timeline_code(self),
    {
        let transient = match self {
            MessageCode::Indicator | MessageCode::Typing | MessageCode::ChatUpdate
            | MessageCode::ChatRemove | MessageCode::UpdateEphemeralMsg
            | MessageCode::DeleteEphemeralMsg => true,
            _ => false,
        };
        !transient && !self.is_system()
    }
}

/// A reply/reference shown above a message ("replying to …").
#[derive(Debug, Clone, Default)]
pub struct MessageReference {
    pub message_ref_id: MessageId,
    pub sender_id: UserId,
    pub sender_name: String,
    pub sender_avatar: String,
    pub content: String,
    pub has_attachment: bool,
}

/// Whom a mention in a message points at.
#[derive(Debug, Clone, Default, PartialEq, Eq)]
pub struct MentionTarget {
    pub user_id: Option<String>,
    pub role_id: Option<String>,
}

// ---------------------------------------------------------------------------
// Reactions
// ---------------------------------------------------------------------------

/// How many times one user reacted with one emoji.
#[derive(Debug, Clone, Default, PartialEq, Eq)]
pub struct ReactionSender {
    pub sender_id: String,
    pub count: u32,
}

impl View for ReactionSender {
    type V = (Seq<char>, u32);

    open spec fn view(&self) -> (Seq<char>, u32) {
        (self.sender_id@, self.count)
    }
}

/// The key reactions are grouped by: the emoji id when there is one (and it is not `0`),
/// else the emoji short name.
pub open spec fn reaction_key_spec(emoji_id: Seq<char>, emoji: Seq<char>) -> Seq<char> {
    if emoji_id.len() > 0 && emoji_id != seq!['0'] {
        emoji_id
    } else {
        emoji
    }
}

pub fn reaction_key<'a>(emoji_id: &'a str, emoji: &'a str) -> (r: &'a str)
    ensures
        r@ == reaction_key_spec(emoji_id@, emoji@),
{
    proof {
        reveal_strlit("0");
        assert("0"@ =~= seq!['0']);
    }
    if !emoji_id.is_empty() && !str_eq(emoji_id, "0") {
        emoji_id
    } else {
        emoji
    }
}

pub open spec fn senders_view(v: Seq<ReactionSender>) -> Seq<(Seq<char>, u32)> {
    v.map_values(|s: ReactionSender| s@)
}

/// `i` is the index of the first sender `id` in `s`, or `s.len()` when there is none.
pub open spec fn is_first_sender(s: Seq<(Seq<char>, u32)>, id: Seq<char>, i: int) -> bool {
    &&& 0 <= i <= s.len()
    &&& forall|j: int| 0 <= j < i ==> (#[trigger] s[j]).0 != id
    &&& i < s.len() ==> s[i].0 == id
}

pub open spec fn first_sender(s: Seq<(Seq<char>, u32)>, id: Seq<char>) -> int {
    choose|i: int| is_first_sender(s, id, i)
}

pub proof fn lemma_first_sender(s: Seq<(Seq<char>, u32)>, id: Seq<char>, i: int)
    requires
        is_first_sender(s, id, i),
    ensures
        first_sender(s, id) == i,
{
    let f = first_sender(s, id);
    assert(is_first_sender(s, id, f));
    if f < i {
        assert(s[f].0 != id);
    }
    if i < f {
        assert(s[i].0 != id);
    }
}

/// The senders after `id` reacted `count` more times (or, with `set`, exactly `count` times):
/// the first entry of `id` changes, or a new entry goes at the end.
pub open spec fn upsert_sender_spec(
    s: Seq<(Seq<char>, u32)>,
    id: Seq<char>,
    count: u32,
    set: bool,
) -> Seq<(Seq<char>, u32)> {
    let i = first_sender(s, id);
    if i < s.len() {
        s.update(i, (id, if set { count } else { s[i].1.saturating_add(count) }))
    } else {
        s.push((id, count))
    }
}

pub fn upsert_sender(senders: &mut Vec<ReactionSender>, sender_id: &str, count: u32, set: bool)
    ensures
        senders_view(final(senders)@) == upsert_sender_spec(
            senders_view(old(senders)@),
            sender_id@,
            count,
            set,
        ),
{
    let ghost sv = senders_view(senders@);
    let id = owned(sender_id);
    let mut i: usize = 0;
    while i < senders.len() && !(senders[i].sender_id == id)
        invariant
            sv == senders_view(senders@),
            id@ == sender_id@,
            i <= senders@.len(),
            forall|j: int| 0 <= j < i ==> (#[trigger] sv[j]).0 != sender_id@,
        decreases senders@.len() - i,
    {
        proof {
            assert(sv[i as int] == senders@[i as int]@);
        }
        i += 1;
    }
    proof {
        if i < senders@.len() {
            assert(sv[i as int] == senders@[i as int]@);
        }
        lemma_first_sender(sv, sender_id@, i as int);
    }
    if i < senders.len() {
        let old_count = senders[i].count;
        let new_count = if set {
            count
        } else {
            old_count.saturating_add(count)
        };
        let entry = ReactionSender { sender_id: id, count: new_count };
        senders.set(i, entry);
        proof {
            assert(senders_view(senders@) =~= sv.update(
                i as int,
                (sender_id@, new_count),
            ));
        }
    } else {
        senders.push(ReactionSender { sender_id: id, count });
        proof {
            assert(senders_view(senders@) =~= sv.push((sender_id@, count)));
        }
    }
}

// ---------------------------------------------------------------------------
// Markdown markers
// ---------------------------------------------------------------------------

/// `s` without `marker` around it when it both starts and ends with it (the two may not
/// overlap), else `s` unchanged.
pub open spec fn strip_marker_spec(s: Seq<char>, marker: Seq<char>) -> Seq<char> {
    if starts_with(s, marker) && ends_with(s.skip(marker.len() as int), marker) {
        s.subrange(marker.len() as int, s.len() - marker.len())
    } else {
        s
    }
}

pub fn strip_marker(s: &str, marker: &str) -> (r: String)
    ensures
        r@ == strip_marker_spec(s@, marker@),
{
    let v = chars_of(s);
    let m = chars_of(marker);
    if starts_with_exec(&v, &m) {
        let rest = sub_chars(&v, m.len(), v.len());
        proof {
            assert(rest@ =~= v@.skip(m@.len() as int));
        }
        if ends_with_exec(&rest, &m) {
            let inner = sub_chars(&rest, 0, rest.len() - m.len());
            proof {
                assert(inner@ =~= v@.subrange(m@.len() as int, v@.len() - m@.len()));
            }
            return string_from_chars(&inner);
        }
    }
    owned(s)
}

// ---------------------------------------------------------------------------
// Attachments
// ---------------------------------------------------------------------------

/// A file attached to a message, as the timeline reads it.
#[derive(Debug, Clone, Default)]
pub struct MessageAttachment {
    pub url: String,
    pub filename: String,
    pub filetype: String,
    pub width: u32,
    pub height: u32,
    pub thumbnail: String,
    pub duration: i32,
}

/// The extension of a link: what follows the last `.` of the part before any `?` or `#`
/// (all of that part when it has no `.`).
pub open spec fn url_extension(url: Seq<char>) -> Seq<char> {
    let p = url.take(first_of(url, seq!['?', '#']));
    p.skip(after_last(p, '.'))
}

pub open spec fn image_extension(ext: Seq<char>) -> bool {
    ext == "png"@ || ext == "jpg"@ || ext == "jpeg"@ || ext == "gif"@ || ext == "webp"@ || ext == "bmp"@
        || ext == "svg"@ || ext == "avif"@
}

/// An image: its type is `image/…`, or its link ends in an image extension (any case).
pub open spec fn is_image_spec(filetype: Seq<char>, url: Seq<char>) -> bool {
    starts_with(filetype, "image/"@) || image_extension(lower_seq(url_extension(url)))
}

/// A video: an MP4 or QuickTime type not served by Tenor, or any `video…` type but the DLNA
/// transport stream.
pub open spec fn is_video_spec(filetype: Seq<char>, url: Seq<char>) -> bool {
    ((contains_seq(filetype, "video/mp4"@) || contains_seq(filetype, "video/quicktime"@)) && !contains_seq(
        url,
        "tenor.com"@,
    )) || (starts_with(filetype, "video"@) && !ends_with(filetype, "vnd.dlna.mpeg-tts"@))
}

/// Types the viewer cannot play or show.
pub open spec fn is_unsupported_spec(filetype: Seq<char>) -> bool {
    filetype == "video/x-ms-wmv"@ || filetype == "video/wmv"@ || filetype == "video/avi"@ || filetype
        == "video/flv"@ || filetype == "video/mkv"@ || filetype == "video/rmvb"@ || filetype == "audio/wma"@
        || filetype == "audio/ra"@ || filetype == "audio/atrac"@ || filetype == "image/tiff"@ || filetype
        == "image/bmp"@ || filetype == "image/psd"@
}

fn eq_lit(v: &Vec<char>, lit: &str) -> (r: bool)
    ensures
        r == (v@ == lit@),
{
    let l = chars_of(lit);
    chars_eq(v, &l)
}

impl MessageAttachment {
    pub fn is_image(&self) -> (r: bool)
        ensures
            r == is_image_spec(self.filetype@, self.url@),
    {
        let ft = chars_of(self.filetype.as_str());
        if starts_with_exec(&ft, &chars_of("image/")) {
            return true;
        }
        let u = chars_of(self.url.as_str());
        let stops = vec!['?', '#'];
        proof {
            assert(stops@ =~= seq!['?', '#']);
        }
        let e = index_of_any(&u, &stops);
        let p = sub_chars(&u, 0, e);
        proof {
            assert(p@ =~= u@.take(e as int));
        }
        let b = index_after_last(&p, '.');
        let ext = lower_chars(&sub_chars(&p, b, p.len()));
        proof {
            assert(p@.subrange(b as int, p@.len() as int) =~= p@.skip(b as int));
        }
        eq_lit(&ext, "png") || eq_lit(&ext, "jpg") || eq_lit(&ext, "jpeg") || eq_lit(&ext, "gif")
            || eq_lit(&ext, "webp") || eq_lit(&ext, "bmp") || eq_lit(&ext, "svg") || eq_lit(&ext, "avif")
    }

    pub fn is_video(&self) -> (r: bool)
        ensures
            r == is_video_spec(self.filetype@, self.url@),
    {
        let ft = chars_of(self.filetype.as_str());
        let u = chars_of(self.url.as_str());
        ((contains_exec(&ft, &chars_of("video/mp4")) || contains_exec(&ft, &chars_of("video/quicktime")))
            && !contains_exec(&u, &chars_of("tenor.com"))) || (starts_with_exec(&ft, &chars_of("video"))
            && !ends_with_exec(&ft, &chars_of("vnd.dlna.mpeg-tts")))
    }

    pub fn is_unsupported_media(&self) -> (r: bool)
        ensures
            r == is_unsupported_spec(self.filetype@),
    {
        let ft = chars_of(self.filetype.as_str());
        eq_lit(&ft, "video/x-ms-wmv") || eq_lit(&ft, "video/wmv") || eq_lit(&ft, "video/avi") || eq_lit(
            &ft,
            "video/flv",
        ) || eq_lit(&ft, "video/mkv") || eq_lit(&ft, "video/rmvb") || eq_lit(&ft, "audio/wma") || eq_lit(
            &ft,
            "audio/ra",
        ) || eq_lit(&ft, "audio/atrac") || eq_lit(&ft, "image/tiff") || eq_lit(&ft, "image/bmp") || eq_lit(
            &ft,
            "image/psd",
        )
    }
}

// ---------------------------------------------------------------------------
// Polls
// ---------------------------------------------------------------------------

/// A poll has expired once its (positive) end time is before `now_secs`.
pub fn poll_is_expired(expire_at: Option<i64>, now_secs: i64) -> (r: bool)
    ensures
        r == (expire_at matches Some(exp) && exp > 0 && exp < now_secs),
{
    match expire_at {
        Some(exp) => exp > 0 && exp < now_secs,
        None => false,
    }
}

// ---------------------------------------------------------------------------
// References
// ---------------------------------------------------------------------------

/// A reference as the server sends it with a message.
#[derive(Debug, Clone, Default, PartialEq, Eq)]
pub struct ApiMessageRef {
    pub message_ref_id: i64,
    pub message_sender_id: i64,
    pub message_sender_username: String,
    pub message_sender_avatar: String,
    pub message_sender_clan_nick: String,
    pub message_sender_display_name: String,
    pub content: String,
    pub has_attachment: bool,
}

/// The name shown for the sender of a referenced message: its clan nick, else its display
/// name, else its user name.
pub open spec fn reference_name(clan_nick: Seq<char>, display: Seq<char>, username: Seq<char>) -> Seq<char> {
    if clan_nick.len() > 0 {
        clan_nick
    } else if display.len() > 0 {
        display
    } else {
        username
    }
}

/// The reference shown above a reply. `content_text` is the text of the referenced content
/// when it reads as message content (else the raw content is shown); `sender_avatar` is the
/// sender's avatar as it is to be shown.
pub fn message_reference_from_api(r: &ApiMessageRef, content_text: Option<String>, sender_avatar: String) -> (m:
    MessageReference)
    ensures
        m.message_ref_id == MessageId(r.message_ref_id),
        m.sender_id == UserId(r.message_sender_id),
        m.sender_name@ == reference_name(
            r.message_sender_clan_nick@,
            r.message_sender_display_name@,
            r.message_sender_username@,
        ),
        m.content@ == match content_text {
            Some(t) => t@,
            None => r.content@,
        },
        m.sender_avatar@ == sender_avatar@,
        m.has_attachment == r.has_attachment,
{
    let sender_name = if r.message_sender_clan_nick.unicode_len() > 0 {
        r.message_sender_clan_nick.clone()
    } else if r.message_sender_display_name.unicode_len() > 0 {
        r.message_sender_display_name.clone()
    } else {
        r.message_sender_username.clone()
    };
    let content = match content_text {
        Some(t) => t,
        None => r.content.clone(),
    };
    MessageReference {
        message_ref_id: MessageId(r.message_ref_id),
        sender_id: UserId(r.message_sender_id),
        sender_name,
        sender_avatar,
        content,
        has_attachment: r.has_attachment,
    }
}

} // verus!
