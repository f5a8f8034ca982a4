use vstd::prelude::*;

use crate::text::{
    chars_eq, chars_of, is_white_space, is_white_space_char, starts_with, starts_with_exec,
    string_from_chars, sub_chars, trim_chars, trim_seq,
};

verus! {

/// The key of the video frames of a stream.
pub const STREAM_FRAME_KEY: u64 = 1;

/// What a stream session reports to the viewer.
#[derive(Debug, Clone)]
pub enum StreamEvent {
    Live,
    NoBroadcast,
    RemoteAudio(bool),
    PlaybackBlocked,
    Error(String),
    Disconnected,
}

// ---------------------------------------------------------------------------
// Reconnecting
// ---------------------------------------------------------------------------

/// The wait before reconnect attempt `attempt`, in milliseconds: one second doubled per
/// attempt (at most four times), capped at fifteen seconds.
pub open spec fn reconnect_delay_spec(attempt: u32) -> u64 {
    if attempt == 0 {
        1000
    } else if attempt == 1 {
        2000
    } else if attempt == 2 {
        4000
    } else if attempt == 3 {
        8000
    } else {
        15000
    }
}

pub fn reconnect_delay(attempt: u32) -> (ms: u64)
    ensures
        ms == reconnect_delay_spec(attempt),
{
    let capped: u32 = if attempt < 4 {
        attempt
    } else {
        4
    };
    let mut factor: u64 = 1;
    let mut i: u32 = 0;
    while i < capped
        invariant
            i <= capped <= 4,
            factor == (if i == 0 {
                1u64
            } else if i == 1 {
                2u64
            } else if i == 2 {
                4u64
            } else if i == 3 {
                8u64
            } else {
                16u64
            }),
        decreases capped - i,
    {
        factor = factor * 2;
        i += 1;
    }
    let ms = 1000 * factor;
    if ms < 15000 {
        ms
    } else {
        15000
    }
}

// ---------------------------------------------------------------------------
// SDP media sections
// ---------------------------------------------------------------------------

/// One `m=` section of an SDP: its media kind, its `a=mid:` and its direction line.
#[derive(Debug, PartialEq, Eq)]
pub struct MediaSection {
    pub kind: String,
    pub mid: String,
    pub direction: Option<String>,
}

pub struct SectionView {
    pub kind: Seq<char>,
    pub mid: Seq<char>,
    pub direction: Option<Seq<char>>,
}

impl View for MediaSection {
    type V = SectionView;

    open spec fn view(&self) -> SectionView {
        SectionView {
            kind: self.kind@,
            mid: self.mid@,
            direction: match self.direction {
                Some(d) => Some(d@),
                None => None,
            },
        }
    }
}

pub open spec fn sections_view(v: Seq<MediaSection>) -> Seq<SectionView> {
    v.map_values(|m: MediaSection| m@)
}

/// Scanning `s` character by character: the lines ended so far and the line in progress.
pub open spec fn scan_lines(s: Seq<char>) -> (Seq<Seq<char>>, Seq<char>)
    decreases s.len(),
{
    if s.len() == 0 {
        (Seq::empty(), Seq::empty())
    } else {
        let (done, cur) = scan_lines(s.drop_last());
        if s.last() == '\n' {
            (done.push(cur), Seq::empty())
        } else {
            (done, cur.push(s.last()))
        }
    }
}

/// The lines of `s` (`str::lines`): split at `\n`, with no empty line after a final `\n`.
pub open spec fn lines_spec(s: Seq<char>) -> Seq<Seq<char>> {
    let (done, cur) = scan_lines(s);
    if cur.len() > 0 {
        done.push(cur)
    } else {
        done
    }
}

/// `s` without its trailing carriage returns.
pub open spec fn trim_cr(s: Seq<char>) -> Seq<char>
    decreases s.len(),
{
    if s.len() > 0 && s.last() == '\r' {
        trim_cr(s.drop_last())
    } else {
        s
    }
}

/// The first whitespace-separated word of `s` (empty when there is none).
pub open spec fn first_word(s: Seq<char>) -> Seq<char>
    decreases s.len(),
{
    if s.len() == 0 {
        Seq::empty()
    } else if is_white_space(s[0]) {
        first_word(s.drop_first())
    } else {
        word_prefix(s)
    }
}

/// The longest prefix of `s` without white space.
pub open spec fn word_prefix(s: Seq<char>) -> Seq<char>
    decreases s.len(),
{
    if s.len() == 0 || is_white_space(s[0]) {
        Seq::empty()
    } else {
        seq![s[0]] + word_prefix(s.drop_first())
    }
}

pub open spec fn is_direction_line(l: Seq<char>) -> bool {
    l == "a=sendrecv"@ || l == "a=sendonly"@ || l == "a=recvonly"@ || l == "a=inactive"@
}

/// One line read: `m=` opens a section (closing the open one), `a=mid:` and a direction line
/// fill in the open section.
pub open spec fn section_step(
    state: (Seq<SectionView>, Option<SectionView>),
    line: Seq<char>,
) -> (Seq<SectionView>, Option<SectionView>) {
    let (done, cur) = state;
    if starts_with(line, "m="@) {
        let done2 = match cur {
            Some(c) => done.push(c),
            None => done,
        };
        (
            done2,
            Some(
                SectionView { kind: first_word(line.skip(2)), mid: Seq::empty(), direction: None },
            ),
        )
    } else if starts_with(line, "a=mid:"@) {
        match cur {
            Some(c) => (done, Some(SectionView { mid: line.skip(6), ..c })),
            None => (done, None),
        }
    } else if is_direction_line(line) {
        match cur {
            Some(c) => (done, Some(SectionView { direction: Some(line), ..c })),
            None => (done, None),
        }
    } else {
        (done, cur)
    }
}

pub open spec fn fold_sections(lines: Seq<Seq<char>>) -> (Seq<SectionView>, Option<SectionView>)
    decreases lines.len(),
{
    if lines.len() == 0 {
        (Seq::empty(), None)
    } else {
        section_step(fold_sections(lines.drop_last()), trim_cr(lines.last()))
    }
}

/// The media sections of an SDP, in order.
pub open spec fn media_sections_spec(sdp: Seq<char>) -> Seq<SectionView> {
    let (done, cur) = fold_sections(lines_spec(sdp));
    match cur {
        Some(c) => done.push(c),
        None => done,
    }
}

fn split_lines(s: &Vec<char>) -> (r: Vec<Vec<char>>)
    ensures
        r@.map_values(|l: Vec<char>| l@) == lines_spec(s@),
{
    let mut done: Vec<Vec<char>> = Vec::new();
    let mut cur: Vec<char> = Vec::new();
    let mut i: usize = 0;
    while i < s.len()
        invariant
            i <= s@.len(),
            (done@.map_values(|l: Vec<char>| l@), cur@) == scan_lines(s@.subrange(0, i as int)),
        decreases s@.len() - i,
    {
        proof {
            assert(s@.subrange(0, i + 1).drop_last() =~= s@.subrange(0, i as int));
        }
        let c = s[i];
        if c == '\n' {
            let ghost before = done@.map_values(|l: Vec<char>| l@);
            let ghost cv = cur@;
            done.push(cur);
            cur = Vec::new();
            proof {
                assert(done@.map_values(|l: Vec<char>| l@) =~= before.push(cv));
            }
        } else {
            cur.push(c);
        }
        i += 1;
    }
    proof {
        assert(s@.subrange(0, s@.len() as int) =~= s@);
    }
    if cur.len() > 0 {
        let ghost before = done@.map_values(|l: Vec<char>| l@);
        let ghost cv = cur@;
        done.push(cur);
        proof {
            assert(done@.map_values(|l: Vec<char>| l@) =~= before.push(cv));
        }
    }
    done
}

fn trim_cr_exec(v: &Vec<char>) -> (r: Vec<char>)
    ensures
        r@ == trim_cr(v@),
{
    let mut b: usize = v.len();
    proof {
        assert(v@.subrange(0, v@.len() as int) =~= v@);
    }
    while b > 0 && v[b - 1] == '\r'
        invariant
            b <= v@.len(),
            trim_cr(v@) == trim_cr(v@.subrange(0, b as int)),
        decreases b,
    {
        proof {
            assert(v@.subrange(0, b as int).drop_last() =~= v@.subrange(0, b - 1));
        }
        b -= 1;
    }
    sub_chars(v, 0, b)
}

proof fn lemma_word_prefix(s: Seq<char>, e: int)
    requires
        0 <= e <= s.len(),
        forall|j: int| 0 <= j < e ==> !is_white_space(#[trigger] s[j]),
        e < s.len() ==> is_white_space(s[e]),
    ensures
        word_prefix(s) == s.take(e),
    decreases s.len(),
{
    if s.len() > 0 && !is_white_space(s[0]) {
        let t = s.drop_first();
        assert forall|j: int| 0 <= j < e - 1 implies !is_white_space(#[trigger] t[j]) by {
            assert(t[j] == s[j + 1]);
        }
        lemma_word_prefix(t, e - 1);
        assert(seq![s[0]] + t.take(e - 1) =~= s.take(e));
    } else {
        assert(s.take(e) =~= Seq::<char>::empty());
    }
}

proof fn lemma_first_word(s: Seq<char>, a: int)
    requires
        0 <= a <= s.len(),
        forall|j: int| 0 <= j < a ==> is_white_space(#[trigger] s[j]),
        a < s.len() ==> !is_white_space(s[a]),
    ensures
        first_word(s) == (if a == s.len() {
            Seq::<char>::empty()
        } else {
            word_prefix(s.skip(a))
        }),
    decreases a,
{
    if a > 0 {
        let t = s.drop_first();
        assert forall|j: int| 0 <= j < a - 1 implies is_white_space(#[trigger] t[j]) by {
            assert(t[j] == s[j + 1]);
        }
        lemma_first_word(t, a - 1);
        assert(t.skip(a - 1) =~= s.skip(a));
    } else {
        assert(s.skip(0) =~= s);
    }
}

fn first_word_exec(v: &Vec<char>) -> (r: Vec<char>)
    ensures
        r@ == first_word(v@),
{
    let mut a: usize = 0;
    while a < v.len() && is_white_space_char(v[a])
        invariant
            a <= v@.len(),
            forall|j: int| 0 <= j < a ==> is_white_space(#[trigger] v@[j]),
        decreases v@.len() - a,
    {
        a += 1;
    }
    proof {
        lemma_first_word(v@, a as int);
    }
    if a == v.len() {
        return Vec::new();
    }
    let mut e: usize = a;
    while e < v.len() && !is_white_space_char(v[e])
        invariant
            a <= e <= v@.len(),
            forall|j: int| a <= j < e ==> !is_white_space(#[trigger] v@[j]),
        decreases v@.len() - e,
    {
        e += 1;
    }
    let w = sub_chars(v, a, e);
    proof {
        let t = v@.skip(a as int);
        assert forall|j: int| 0 <= j < e - a implies !is_white_space(#[trigger] t[j]) by {
            assert(t[j] == v@[j + a]);
        }
        if e < v@.len() {
            assert(t[e - a] == v@[e as int]);
        }
        lemma_word_prefix(t, e - a);
        assert(w@ =~= t.take(e - a));
    }
    w
}

fn is_direction_line_exec(l: &Vec<char>) -> (r: bool)
    ensures
        r == is_direction_line(l@),
{
    chars_eq(l, &chars_of("a=sendrecv")) || chars_eq(l, &chars_of("a=sendonly")) || chars_eq(
        l,
        &chars_of("a=recvonly"),
    ) || chars_eq(l, &chars_of("a=inactive"))
}

/// The media sections of an SDP (see `media_sections_spec`).
pub fn media_sections(sdp: &str) -> (r: Vec<MediaSection>)
    ensures
        sections_view(r@) == media_sections_spec(sdp@),
{
    let lines = split_lines(&chars_of(sdp));
    let ghost ls = lines@.map_values(|l: Vec<char>| l@);
    let mut done: Vec<MediaSection> = Vec::new();
    let mut cur: Option<MediaSection> = None;
    let m_prefix = chars_of("m=");
    let mid_prefix = chars_of("a=mid:");
    proof {
        reveal_strlit("m=");
        reveal_strlit("a=mid:");
    }
    let mut i: usize = 0;
    while i < lines.len()
        invariant
            ls == lines@.map_values(|l: Vec<char>| l@),
            m_prefix@ == "m="@,
            mid_prefix@ == "a=mid:"@,
            m_prefix@.len() == 2,
            mid_prefix@.len() == 6,
            i <= lines@.len(),
            (sections_view(done@), match cur {
                Some(c) => Some(c@),
                None => None,
            }) == fold_sections(ls.subrange(0, i as int)),
        decreases lines@.len() - i,
    {
        proof {
            assert(ls.subrange(0, i + 1).drop_last() =~= ls.subrange(0, i as int));
            assert(ls.subrange(0, i + 1).last() == lines@[i as int]@);
        }
        let line = trim_cr_exec(&lines[i]);
        if starts_with_exec(&line, &m_prefix) {
            match cur {
                Some(c) => {
                    let ghost before = sections_view(done@);
                    let ghost cv = c@;
                    done.push(c);
                    proof {
                        assert(sections_view(done@) =~= before.push(cv));
                    }
                },
                None => {},
            }
            let media = sub_chars(&line, 2, line.len());
            proof {
                assert(media@ =~= line@.skip(2));
            }
            let kind = string_from_chars(&first_word_exec(&media));
            cur = Some(MediaSection { kind, mid: String::new(), direction: None });
        } else if starts_with_exec(&line, &mid_prefix) {
            match cur {
                Some(c) => {
                    let mid = sub_chars(&line, 6, line.len());
                    proof {
                        assert(mid@ =~= line@.skip(6));
                    }
                    cur = Some(
                        MediaSection {
                            kind: c.kind,
                            mid: string_from_chars(&mid),
                            direction: c.direction,
                        },
                    );
                },
                None => {},
            }
        } else if is_direction_line_exec(&line) {
            match cur {
                Some(c) => {
                    cur = Some(
                        MediaSection {
                            kind: c.kind,
                            mid: c.mid,
                            direction: Some(string_from_chars(&line)),
                        },
                    );
                },
                None => {},
            }
        }
        i += 1;
    }
    proof {
        assert(ls.subrange(0, ls.len() as int) =~= ls);
    }
    match cur {
        Some(c) => {
            let ghost before = sections_view(done@);
            let ghost cv = c@;
            done.push(c);
            proof {
                assert(sections_view(done@) =~= before.push(cv));
            }
        },
        None => {},
    }
    done
}

// ---------------------------------------------------------------------------
// Checking the SFU's answer
// ---------------------------------------------------------------------------

/// Why an SFU answer does not fit the offer.
#[derive(Debug, Clone, Copy, PartialEq, Eq, Structural)]
pub enum SdpLayoutError {
    /// The answer has another number of media sections.
    SectionCountChanged,
    /// A section lacks a mid, or its kind or mid differs from the offer's.
    OrderOrMidChanged,
    /// The answer made a video section active.
    VideoActivated,
    /// The answer would send audio.
    AudioSenderActivated,
}

impl SdpLayoutError {
    pub fn message(&self) -> (r: &'static str)
        ensures
            r@ == (match self {
                SdpLayoutError::SectionCountChanged => "SFU answer changed m-line count"@,
                SdpLayoutError::OrderOrMidChanged => "SFU answer changed m-line order or mid"@,
                SdpLayoutError::VideoActivated => "SFU answer activated a video m-line"@,
                SdpLayoutError::AudioSenderActivated => "SFU answer activated an audio sender"@,
            }),
    {
        match self {
            SdpLayoutError::SectionCountChanged => "SFU answer changed m-line count",
            SdpLayoutError::OrderOrMidChanged => "SFU answer changed m-line order or mid",
            SdpLayoutError::VideoActivated => "SFU answer activated a video m-line",
            SdpLayoutError::AudioSenderActivated => "SFU answer activated an audio sender",
        }
    }
}

/// What is wrong with one answered section, given the offered one.
pub open spec fn section_error(offered: SectionView, actual: SectionView) -> Option<SdpLayoutError> {
    if offered.mid.len() == 0 || actual.mid.len() == 0 || offered.kind != actual.kind
        || offered.mid != actual.mid {
        Some(SdpLayoutError::OrderOrMidChanged)
    } else if offered.kind == "video"@ && actual.direction != Some("a=inactive"@) {
        Some(SdpLayoutError::VideoActivated)
    } else if offered.kind == "audio"@ && actual.direction != Some("a=recvonly"@)
        && actual.direction != Some("a=inactive"@) {
        Some(SdpLayoutError::AudioSenderActivated)
    } else {
        None
    }
}

/// `i` is the first section whose answer does not fit.
pub open spec fn is_first_bad(offer: Seq<SectionView>, answer: Seq<SectionView>, i: int) -> bool {
    &&& 0 <= i < offer.len()
    &&& section_error(offer[i], answer[i]) is Some
    &&& forall|j: int| 0 <= j < i ==> section_error(#[trigger] offer[j], answer[j]) is None
}

/// The verdict on an answer: the section count must match, then the first section that does
/// not fit decides the error.
pub open spec fn layout_error(offer: Seq<SectionView>, answer: Seq<SectionView>) -> Option<
    SdpLayoutError,
> {
    if offer.len() != answer.len() {
        Some(SdpLayoutError::SectionCountChanged)
    } else if exists|i: int| is_first_bad(offer, answer, i) {
        let i = choose|i: int| is_first_bad(offer, answer, i);
        section_error(offer[i], answer[i])
    } else {
        None
    }
}

fn opt_is(d: &Option<String>, lit: &str) -> (r: bool)
    ensures
        r == (match d {
            Some(s) => Some(s@),
            None => None,
        } == Some(lit@)),
{
    match d {
        Some(s) => chars_eq(&chars_of(s.as_str()), &chars_of(lit)),
        None => false,
    }
}

fn check_section(offered: &MediaSection, actual: &MediaSection) -> (r: Option<SdpLayoutError>)
    ensures
        r == section_error(offered@, actual@),
{
    let ok = chars_of(offered.kind.as_str());
    let ak = chars_of(actual.kind.as_str());
    let om = chars_of(offered.mid.as_str());
    let am = chars_of(actual.mid.as_str());
    if om.len() == 0 || am.len() == 0 || !chars_eq(&ok, &ak) || !chars_eq(&om, &am) {
        return Some(SdpLayoutError::OrderOrMidChanged);
    }
    if chars_eq(&ok, &chars_of("video")) && !opt_is(&actual.direction, "a=inactive") {
        return Some(SdpLayoutError::VideoActivated);
    }
    if chars_eq(&ok, &chars_of("audio")) && !opt_is(&actual.direction, "a=recvonly") && !opt_is(
        &actual.direction,
        "a=inactive",
    ) {
        return Some(SdpLayoutError::AudioSenderActivated);
    }
    None
}

/// Checks that the SFU's answer keeps the offer's media sections, in order and with the same
/// mids, and only receives: video sections inactive, audio sections receive-only or inactive.
pub fn validate_full_sdp_layout(offer_sdp: &str, answer_sdp: &str) -> (r: Result<
    (),
    SdpLayoutError,
>)
    ensures
        r == (match layout_error(media_sections_spec(offer_sdp@), media_sections_spec(answer_sdp@)) {
            Some(e) => Err(e),
            None => Ok(()),
        }),
{
    let offer = media_sections(offer_sdp);
    let answer = media_sections(answer_sdp);
    let ghost ov = sections_view(offer@);
    let ghost av = sections_view(answer@);
    if offer.len() != answer.len() {
        return Err(SdpLayoutError::SectionCountChanged);
    }
    let mut i: usize = 0;
    while i < offer.len()
        invariant
            ov == sections_view(offer@),
            av == sections_view(answer@),
            ov == media_sections_spec(offer_sdp@),
            av == media_sections_spec(answer_sdp@),
            offer@.len() == answer@.len(),
            i <= offer@.len(),
            forall|j: int| 0 <= j < i ==> section_error(#[trigger] ov[j], av[j]) is None,
        decreases offer@.len() - i,
    {
        let e = check_section(&offer[i], &answer[i]);
        proof {
            assert(ov[i as int] == offer@[i as int]@);
            assert(av[i as int] == answer@[i as int]@);
        }
        match e {
            Some(err) => {
                proof {
                    assert(is_first_bad(ov, av, i as int));
                    let c = choose|k: int| is_first_bad(ov, av, k);
                    assert(is_first_bad(ov, av, c));
                    if c < i {
                        assert(section_error(ov[c], av[c]) is None);
                    }
                    if i < c {
                        assert(section_error(ov[i as int], av[i as int]) is None);
                    }
                    assert(c == i);
                    assert(layout_error(ov, av) == Some(err));
                }
                return Err(err);
            },
            None => {},
        }
        i += 1;
    }
    proof {
        assert forall|k: int| !is_first_bad(ov, av, k) by {}
    }
    Ok(())
}

#[verifier::external_type_specification]
#[verifier::external_body]
pub struct ExUrl(url::Url);

#[verifier::external_type_specification]
#[verifier::external_body]
pub struct ExUrlParseError(url::ParseError);

/// Whether `url` reads the text as an absolute URL.
pub uninterp spec fn url_parses(s: Seq<char>) -> bool;

/// The text of the URL read from `s` once the pair `name`=`value` is added, form-encoded,
/// after the query it already has.
pub uninterp spec fn url_with_pair(s: Seq<char>, name: Seq<char>, value: Seq<char>) -> Seq<char>;

/// `url::Url::parse` of `s`, then `query_pairs_mut().append_pair(name, value)`, then
/// `as_str`. Claimed: it succeeds exactly when `url_parses` holds of `s`, and gives the text
/// `url_with_pair` names, which depends on the three texts alone.
#[verifier::external_body]
fn parse_url_with_pair(s: &str, name: &str, value: &str) -> (r: Result<String, url::ParseError>)
    ensures
        r is Ok == url_parses(s@),
        r matches Ok(t) ==> t@ == url_with_pair(s@, name@, value@),
{
    match url::Url::parse(s) {
        Ok(mut u) => {
            u.query_pairs_mut().append_pair(name, value);
            Ok(u.as_str().to_string())
        },
        Err(e) => Err(e),
    }
}

/// A websocket address, as its text.
#[derive(Debug, Clone, PartialEq, Eq)]
pub struct WsUrl {
    pub text: String,
}

impl WsUrl {
    pub fn as_str(&self) -> (r: &str)
        ensures
            r@ == self.text@,
    {
        self.text.as_str()
    }
}

/// The address of the media server's websocket: `base` without surrounding blanks, with the
/// access token added to its query; an error when that is not an absolute URL.
pub fn build_ws_url(base: &str, token: &str) -> (r: Result<WsUrl, url::ParseError>)
    ensures
        r is Ok == url_parses(trim_seq(base@)),
        r matches Ok(u) ==> u.text@ == url_with_pair(trim_seq(base@), "access_token"@, token@),
{
    let trimmed = string_from_chars(&trim_chars(&chars_of(base)));
    match parse_url_with_pair(trimmed.as_str(), "access_token", token) {
        Ok(t) => Ok(WsUrl { text: t }),
        Err(e) => Err(e),
    }
}

} // verus!
