use vstd::prelude::*;

use crate::ids::{ChannelId, ClanId, MessageId, UserId};
use crate::text::{
    after_last, chars_eq, chars_of, contains_exec, contains_seq, index_after_last, lower_chars,
    lower_seq, owned, starts_with, starts_with_exec, str_eq, string_from_chars, sub_chars,
    trim_chars, trim_seq, upper_chars, upper_seq, utf8_len_exceeds,
};

verus! {

/// A file type lists as a document unless it is blank-free media: a sticker, an image or video
/// MIME type, or anything mentioning `mp4` or `mov` (compared in lower case, after trimming).
/// A blank file type counts as a document.
pub open spec fn is_document_spec(filetype: Seq<char>) -> bool {
    let t = trim_seq(filetype);
    if t.len() == 0 {
        true
    } else {
        let l = lower_seq(t);
        !(l == "sticker"@ || starts_with(l, "image/"@) || starts_with(l, "video/"@)
            || contains_seq(l, "mp4"@) || contains_seq(l, "mov"@))
    }
}

pub fn is_document(filetype: &str) -> (r: bool)
    ensures
        r == is_document_spec(filetype@),
{
    let ft = trim_chars(&chars_of(filetype));
    if ft.len() == 0 {
        return true;
    }
    let lower = lower_chars(&ft);
    if chars_eq(&lower, &chars_of("sticker")) {
        return false;
    }
    if starts_with_exec(&lower, &chars_of("image/")) || starts_with_exec(
        &lower,
        &chars_of("video/"),
    ) {
        return false;
    }
    if contains_exec(&lower, &chars_of("mp4")) || contains_exec(&lower, &chars_of("mov")) {
        return false;
    }
    true
}

/// What the files store tells its observers.
#[derive(Debug, Clone, Copy)]
pub enum FilesEvent {
    Changed(ChannelId),
}

/// How many documents one page request asks for.
pub const FILES_PAGE_SIZE: i32 = 100;

/// The file type the document list asks the server for.
pub const FILES_FILE_TYPE: &'static str = "FILE";

/// A file attached in a channel, as the server lists it.
#[derive(Debug, Clone, Default, PartialEq, Eq)]
pub struct ChannelAttachmentDesc {
    pub id: i64,
    pub message_id: i64,
    pub uploader: i64,
    pub url: String,
    pub filename: String,
    pub filetype: String,
    pub create_time_seconds: u32,
}

/// A document of a channel, as the files panel lists it.
#[derive(Debug)]
pub struct ChannelDocument {
    pub id: i64,
    pub channel_id: ChannelId,
    pub clan_id: ClanId,
    pub message_id: MessageId,
    pub uploader_id: UserId,
    pub url: String,
    pub filename: String,
    pub filetype: String,
    pub create_time_seconds: u32,
    pub uploader_name: String,
}

impl Clone for ChannelDocument {
    fn clone(&self) -> (r: Self)
        ensures
            r == *self,
    {
        ChannelDocument {
            id: self.id,
            channel_id: self.channel_id,
            clan_id: self.clan_id,
            message_id: self.message_id,
            uploader_id: self.uploader_id,
            url: self.url.clone(),
            filename: self.filename.clone(),
            filetype: self.filetype.clone(),
            create_time_seconds: self.create_time_seconds,
            uploader_name: self.uploader_name.clone(),
        }
    }
}

/// A blank name or type reads as `File`.
pub open spec fn or_file(s: Seq<char>) -> Seq<char> {
    if s.len() == 0 {
        "File"@
    } else {
        s
    }
}

fn or_file_exec(s: String) -> (r: String)
    ensures
        r@ == or_file(s@),
{
    if s.as_str().is_empty() {
        owned("File")
    } else {
        s
    }
}

impl ChannelDocument {
    /// The document for a listed attachment of a channel of a clan; its uploader is not
    /// named yet.
    pub fn from_api(api: ChannelAttachmentDesc, channel_id: ChannelId, clan_id: ClanId) -> (r:
        Self)
        ensures
            r.id == api.id,
            r.channel_id == channel_id,
            r.clan_id == clan_id,
            r.message_id == MessageId(api.message_id),
            r.uploader_id == UserId(api.uploader),
            r.url@ == api.url@,
            r.filename@ == or_file(api.filename@),
            r.filetype@ == or_file(api.filetype@),
            r.create_time_seconds == api.create_time_seconds,
            r.uploader_name@.len() == 0,
    {
        let filename = or_file_exec(api.filename);
        let filetype = or_file_exec(api.filetype);
        ChannelDocument {
            id: api.id,
            channel_id,
            clan_id,
            message_id: MessageId(api.message_id),
            uploader_id: UserId(api.uploader),
            url: api.url,
            filename,
            filetype,
            create_time_seconds: api.create_time_seconds,
            uploader_name: String::new(),
        }
    }

    /// The upload of this file failed.
    pub fn is_failed(&self) -> (r: bool)
        ensures
            r == (self.filename@ == "failAttachment"@),
    {
        str_eq(self.filename.as_str(), "failAttachment")
    }
}

// ---------------------------------------------------------------------------
// Ordering and de-duplicating documents
// ---------------------------------------------------------------------------

/// `a` is listed after `b`: newest first, then the larger id first.
pub open spec fn listed_after(a: ChannelDocument, b: ChannelDocument) -> bool {
    a.create_time_seconds < b.create_time_seconds || (a.create_time_seconds
        == b.create_time_seconds && a.id < b.id)
}

/// `x` inserted into `s` after every document not listed after it: one step of a stable sort.
pub open spec fn insert_doc(s: Seq<ChannelDocument>, x: ChannelDocument) -> Seq<ChannelDocument>
    decreases s.len(),
{
    if s.len() == 0 {
        seq![x]
    } else if !listed_after(s.last(), x) {
        s.push(x)
    } else {
        insert_doc(s.drop_last(), x).push(s.last())
    }
}

/// `s` stably sorted newest first, ties by larger id first.
pub open spec fn sorted_desc(s: Seq<ChannelDocument>) -> Seq<ChannelDocument>
    decreases s.len(),
{
    if s.len() == 0 {
        s
    } else {
        insert_doc(sorted_desc(s.drop_last()), s.last())
    }
}

proof fn lemma_insert_doc_at(s: Seq<ChannelDocument>, x: ChannelDocument, j: int)
    requires
        0 <= j <= s.len(),
        forall|k: int| j <= k < s.len() ==> listed_after(#[trigger] s[k], x),
        j > 0 ==> !listed_after(s[j - 1], x),
    ensures
        insert_doc(s, x) == s.take(j) + seq![x] + s.skip(j),
    decreases s.len(),
{
    if s.len() == 0 {
        assert(s.take(j) + seq![x] + s.skip(j) =~= seq![x]);
    } else if j == s.len() {
        assert(s.take(j) + seq![x] + s.skip(j) =~= s.push(x));
    } else {
        let p = s.drop_last();
        assert(s[s.len() - 1] == s.last());
        lemma_insert_doc_at(p, x, j);
        assert(p.take(j) + seq![x] + p.skip(j) + seq![s.last()] =~= s.take(j) + seq![x] + s.skip(
            j,
        ));
    }
}

/// Sorts documents newest first, ties by larger id first (stably).
pub fn sort_desc_in_place(items: &mut Vec<ChannelDocument>)
    ensures
        final(items)@ == sorted_desc(old(items)@),
{
    let ghost s = items@;
    let mut out: Vec<ChannelDocument> = Vec::new();
    let n = items.len();
    proof {
        assert(s.subrange(0, 0) =~= Seq::<ChannelDocument>::empty());
    }
    while items.len() > 0
        invariant
            n == s.len(),
            items@.len() <= n,
            items@ == s.subrange(n - items@.len(), n as int),
            out@ == sorted_desc(s.subrange(0, n - items@.len())),
        decreases items@.len(),
    {
        let ghost k = n - items@.len();
        let x = items.remove(0);
        proof {
            assert(x == s[k]);
            assert(items@ =~= s.subrange(k + 1, n as int));
            assert(s.subrange(0, k + 1).drop_last() =~= s.subrange(0, k));
        }
        let mut j = out.len();
        while j > 0 && (out[j - 1].create_time_seconds < x.create_time_seconds || (out[j
            - 1].create_time_seconds == x.create_time_seconds && out[j - 1].id < x.id))
            invariant
                j <= out@.len(),
                forall|q: int| j <= q < out@.len() ==> listed_after(#[trigger] out@[q], x),
            decreases j,
        {
            j -= 1;
        }
        proof {
            lemma_insert_doc_at(out@, x, j as int);
        }
        let ghost prev = out@;
        out.insert(j, x);
        proof {
            assert(out@ =~= prev.take(j as int) + seq![x] + prev.skip(j as int));
        }
    }
    proof {
        assert(s.subrange(0, n as int) =~= s);
    }
    *items = out;
}

pub open spec fn has_doc_id(s: Seq<ChannelDocument>, id: i64) -> bool {
    exists|i: int| 0 <= i < s.len() && (#[trigger] s[i]).id == id
}

/// `s` with only the first document of each id, in order.
pub open spec fn deduped(s: Seq<ChannelDocument>) -> Seq<ChannelDocument>
    decreases s.len(),
{
    if s.len() == 0 {
        s
    } else {
        let p = deduped(s.drop_last());
        if has_doc_id(s.drop_last(), s.last().id) {
            p
        } else {
            p.push(s.last())
        }
    }
}

fn has_doc_id_before(docs: &Vec<ChannelDocument>, end: usize, id: i64) -> (r: bool)
    requires
        end <= docs@.len(),
    ensures
        r == has_doc_id(docs@.subrange(0, end as int), id),
{
    let ghost p = docs@.subrange(0, end as int);
    let mut i: usize = 0;
    while i < end
        invariant
            end <= docs@.len(),
            p == docs@.subrange(0, end as int),
            i <= end,
            forall|j: int| 0 <= j < i ==> docs@[j].id != id,
        decreases end - i,
    {
        if docs[i].id == id {
            proof {
                assert(p[i as int].id == id);
            }
            return true;
        }
        i += 1;
    }
    proof {
        if has_doc_id(p, id) {
            let w = choose|w: int| 0 <= w < p.len() && (#[trigger] p[w]).id == id;
            assert(docs@[w].id == id);
        }
    }
    false
}

/// Keeps the first document of each id (see `deduped`).
pub fn dedupe_by_id(docs: Vec<ChannelDocument>) -> (r: Vec<ChannelDocument>)
    ensures
        r@ == deduped(docs@),
{
    let ghost s = docs@;
    let mut out: Vec<ChannelDocument> = Vec::new();
    let mut i: usize = 0;
    proof {
        assert(s.subrange(0, 0) =~= Seq::<ChannelDocument>::empty());
    }
    while i < docs.len()
        invariant
            s == docs@,
            i <= s.len(),
            out@ == deduped(s.subrange(0, i as int)),
        decreases s.len() - i,
    {
        proof {
            assert(s.subrange(0, i + 1).drop_last() =~= s.subrange(0, i as int));
            assert(s.subrange(0, i + 1).last() == s[i as int]);
        }
        if !has_doc_id_before(&docs, i, docs[i].id) {
            out.push(docs[i].clone());
        }
        i += 1;
    }
    proof {
        assert(s.subrange(0, s.len() as int) =~= s);
    }
    out
}

// ---------------------------------------------------------------------------
// The short type label
// ---------------------------------------------------------------------------

/// The label of a well-known (lower-case) MIME type or extension.
pub open spec fn known_label(l: Seq<char>) -> Option<Seq<char>> {
    if l == "application/pdf"@ {
        Some("PDF"@)
    } else if l == "text/csv"@ || l == "application/csv"@ {
        Some("CSV"@)
    } else if l == "text/plain"@ {
        Some("TXT"@)
    } else if l == "text/markdown"@ {
        Some("MD"@)
    } else if l == "application/json"@ {
        Some("JSON"@)
    } else if l == "application/zip"@ || l == "application/x-zip-compressed"@ {
        Some("ZIP"@)
    } else if l == "application/vnd.rar"@ || l == "application/x-rar-compressed"@ {
        Some("RAR"@)
    } else if l == "application/x-7z-compressed"@ {
        Some("7Z"@)
    } else if l == "application/msword"@
        || l == "application/vnd.openxmlformats-officedocument.wordprocessingml.document"@
        || l == "docx"@ {
        Some("DOC"@)
    } else if l == "application/vnd.ms-excel"@
        || l == "application/vnd.openxmlformats-officedocument.spreadsheetml.sheet"@
        || l == "xlsx"@ {
        Some("XLS"@)
    } else if l == "application/vnd.ms-powerpoint"@
        || l == "application/vnd.openxmlformats-officedocument.presentationml.presentation"@
        || l == "pptx"@ {
        Some("PPT"@)
    } else {
        None
    }
}

/// The short label of a file type (trimmed): `FILE` for a blank type, `file` in any case, or
/// an Android package; the label of a well-known type; else the part after the last `/`, in
/// upper case, when it is 1 to 8 bytes long; else `FILE`.
pub open spec fn short_label(filetype: Seq<char>) -> Seq<char> {
    let ft = trim_seq(filetype);
    let l = lower_seq(ft);
    if ft.len() == 0 || l == "file"@ || ft == "application/vnd.android.package-archive"@ {
        "FILE"@
    } else {
        match known_label(l) {
            Some(x) => x,
            None => {
                let ext = l.skip(after_last(l, '/'));
                if ext.len() > 0 && vstd::utf8::encode_utf8(ext).len() <= 8 {
                    upper_seq(ext)
                } else {
                    "FILE"@
                }
            },
        }
    }
}

fn is_lit(v: &Vec<char>, lit: &str) -> (r: bool)
    ensures
        r == (v@ == lit@),
{
    chars_eq(v, &chars_of(lit))
}

fn known_label_exec(l: &Vec<char>) -> (r: Option<String>)
    ensures
        match (r, known_label(l@)) {
            (Some(a), Some(b)) => a@ == b,
            (None, None) => true,
            _ => false,
        },
{
    if is_lit(l, "application/pdf") {
        Some(owned("PDF"))
    } else if is_lit(l, "text/csv") || is_lit(l, "application/csv") {
        Some(owned("CSV"))
    } else if is_lit(l, "text/plain") {
        Some(owned("TXT"))
    } else if is_lit(l, "text/markdown") {
        Some(owned("MD"))
    } else if is_lit(l, "application/json") {
        Some(owned("JSON"))
    } else if is_lit(l, "application/zip") || is_lit(l, "application/x-zip-compressed") {
        Some(owned("ZIP"))
    } else if is_lit(l, "application/vnd.rar") || is_lit(l, "application/x-rar-compressed") {
        Some(owned("RAR"))
    } else if is_lit(l, "application/x-7z-compressed") {
        Some(owned("7Z"))
    } else if is_lit(l, "application/msword") || is_lit(
        l,
        "application/vnd.openxmlformats-officedocument.wordprocessingml.document",
    ) || is_lit(l, "docx") {
        Some(owned("DOC"))
    } else if is_lit(l, "application/vnd.ms-excel") || is_lit(
        l,
        "application/vnd.openxmlformats-officedocument.spreadsheetml.sheet",
    ) || is_lit(l, "xlsx") {
        Some(owned("XLS"))
    } else if is_lit(l, "application/vnd.ms-powerpoint") || is_lit(
        l,
        "application/vnd.openxmlformats-officedocument.presentationml.presentation",
    ) || is_lit(l, "pptx") {
        Some(owned("PPT"))
    } else {
        None
    }
}

/// The short label of a file type (see `short_label`).
pub fn short_file_type_label(filetype: &str) -> (r: String)
    ensures
        r@ == short_label(filetype@),
{
    let ft = trim_chars(&chars_of(filetype));
    let l = lower_chars(&ft);
    if ft.len() == 0 || is_lit(&l, "file") || is_lit(&ft, "application/vnd.android.package-archive") {
        return owned("FILE");
    }
    match known_label_exec(&l) {
        Some(x) => x,
        None => {
            let b = index_after_last(&l, '/');
            let ext = sub_chars(&l, b, l.len());
            proof {
                assert(ext@ =~= l@.skip(b as int));
            }
            if ext.len() > 0 && !utf8_len_exceeds(&ext, 8) {
                string_from_chars(&upper_chars(&ext))
            } else {
                owned("FILE")
            }
        },
    }
}

/// `d` is the document that attachment `a` of a channel of a clan becomes (see `from_api`).
pub open spec fn listed_as(d: ChannelDocument, a: ChannelAttachmentDesc, channel_id: ChannelId, clan_id: ClanId) -> bool {
    &&& d.id == a.id
    &&& d.channel_id == channel_id
    &&& d.clan_id == clan_id
    &&& d.message_id == MessageId(a.message_id)
    &&& d.uploader_id == UserId(a.uploader)
    &&& d.url@ == a.url@
    &&& d.filename@ == or_file(a.filename@)
    &&& d.filetype@ == or_file(a.filetype@)
    &&& d.create_time_seconds == a.create_time_seconds
    &&& d.uploader_name@.len() == 0
}

/// The documents panel of a channel from its listed attachments: the documents among them
/// (see `is_document_spec`), newest first (see `sorted_desc`), each id once (see `deduped`).
pub fn documents_from_api(list: Vec<ChannelAttachmentDesc>, channel_id: ChannelId, clan_id: ClanId) -> (r: Vec<
    ChannelDocument,
>)
    ensures
        exists|mid: Seq<ChannelDocument>| #![trigger sorted_desc(mid)] {
            let f = list@.filter(|a: ChannelAttachmentDesc| is_document_spec(a.filetype@));
            &&& mid.len() == f.len()
            &&& forall|i: int| 0 <= i < f.len() ==> listed_as(#[trigger] mid[i], f[i], channel_id, clan_id)
            &&& r@ == deduped(sorted_desc(mid))
        },
{
    let ghost s = list@;
    let ghost f = s.filter(|a: ChannelAttachmentDesc| is_document_spec(a.filetype@));
    let n = list.len();
    let mut list = list;
    let mut docs: Vec<ChannelDocument> = Vec::new();
    proof {
        assert(s.take(0) =~= Seq::<ChannelAttachmentDesc>::empty());
        assert(s.skip(0) =~= s);
    }
    while list.len() > 0
        invariant
            n == s.len(),
            list@.len() <= n,
            list@ == s.skip(n - list@.len()),
            ({
                let g = s.take(n - list@.len()).filter(|a: ChannelAttachmentDesc| is_document_spec(a.filetype@));
                &&& docs@.len() == g.len()
                &&& forall|i: int| 0 <= i < g.len() ==> listed_as(#[trigger] docs@[i], g[i], channel_id, clan_id)
            }),
        decreases list@.len(),
    {
        let ghost k = n - list@.len();
        let a = list.remove(0);
        proof {
            reveal_with_fuel(Seq::filter, 1);
            assert(a == s[k]);
            assert(list@ =~= s.skip(k + 1));
            assert(s.take(k + 1).drop_last() =~= s.take(k));
            assert(s.take(k + 1).last() == s[k]);
        }
        if is_document(a.filetype.as_str()) {
            let ghost av = a;
            let d = ChannelDocument::from_api(a, channel_id, clan_id);
            docs.push(d);
            proof {
                assert(listed_as(d, av, channel_id, clan_id));
            }
        }
    }
    proof {
        assert(s.take(n as int) =~= s);
    }
    let ghost mid = docs@;
    sort_desc_in_place(&mut docs);
    let r = dedupe_by_id(docs);
    proof {
        assert(mid.len() == f.len());
        assert(r@ == deduped(sorted_desc(mid)));
    }
    r
}

/// The uploader shown for a document: the resolved name, else `Unknown`.
pub open spec fn uploader_label_spec(name: Seq<char>) -> Seq<char> {
    if name.len() == 0 {
        "Unknown"@
    } else {
        name
    }
}

pub fn uploader_label(name: String) -> (r: String)
    ensures
        r@ == uploader_label_spec(name@),
{
    if name.as_str().is_empty() {
        owned("Unknown")
    } else {
        name
    }
}

/// What the files panel knows of one channel.
pub struct FilesChannel {
    pub documents: Vec<ChannelDocument>,
    pub is_loading: bool,
    pub fetch_error: bool,
    /// A list was fetched at least once.
    pub fetched: bool,
}

impl FilesChannel {
    pub fn new() -> (r: Self)
        ensures
            r.documents@.len() == 0,
            !r.is_loading && !r.fetch_error && !r.fetched,
    {
        FilesChannel { documents: Vec::new(), is_loading: false, fetch_error: false, fetched: false }
    }

    /// The panel is opened: unless a fetch is under way, the list is fetched when it is
    /// empty, the last fetch failed, or it is not `fresh` (fetched within the cache time).
    pub fn needs_fetch(&self, fresh: bool) -> (r: bool)
        ensures
            r == (!self.is_loading && (self.documents@.len() == 0 || !(self.fetched && fresh) || self.fetch_error)),
    {
        !self.is_loading && (self.documents.len() == 0 || !(self.fetched && fresh) || self.fetch_error)
    }

    /// A fetch begins.
    pub fn begin_fetch(&mut self)
        ensures
            final(self).is_loading,
            !final(self).fetch_error,
            final(self).documents@ == old(self).documents@,
            final(self).fetched == old(self).fetched,
    {
        self.is_loading = true;
        self.fetch_error = false;
    }

    /// A fetch ended: the documents it brought replace the list; a failure keeps the list
    /// and is remembered.
    pub fn finish_fetch(&mut self, result: Option<Vec<ChannelDocument>>)
        ensures
            !final(self).is_loading,
            match result {
                Some(d) => final(self).documents@ == d@ && final(self).fetched && !final(self).fetch_error,
                None => final(self).documents@ == old(self).documents@ && final(self).fetch_error
                    && final(self).fetched == old(self).fetched,
            },
    {
        self.is_loading = false;
        match result {
            Some(d) => {
                self.documents = d;
                self.fetched = true;
                self.fetch_error = false;
            },
            None => {
                self.fetch_error = true;
            },
        }
    }
}

} // verus!
