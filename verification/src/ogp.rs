use vstd::prelude::*;

use crate::text::{
    chars_eq, chars_of, ends_with, ends_with_exec, find_exec, first_of, index_after_last,
    index_of_any, is_ascii_alphanumeric, is_first_occurrence, is_white_space, is_white_space_char, lower_chars,
    lower_seq, occurs_at, starts_with, starts_with_exec, string_from_chars, sub_chars, trim_chars,
    trim_seq, utf8_len_exceeds, after_last,
};

verus! {

// ---------------------------------------------------------------------------
// Invite links
// ---------------------------------------------------------------------------

pub open spec fn invite_needle() -> Seq<char> {
    seq!['/', 'i', 'n', 'v', 'i', 't', 'e', '/']
}

/// `/invite/` (in any letter case) starts at index `i` of `s`.
pub open spec fn invite_at(s: Seq<char>, i: int) -> bool {
    0 <= i && i + 8 <= s.len() && lower_seq(s.subrange(i, i + 8)) == invite_needle()
}

pub open spec fn is_first_invite(s: Seq<char>, i: int) -> bool {
    invite_at(s, i) && forall|j: int| 0 <= j < i ==> !invite_at(s, j)
}

/// A character an invite id may hold.
pub open spec fn is_id_char(c: char) -> bool {
    is_ascii_alphanumeric(c) || c == '_' || c == '-'
}

/// `e` is the length of the longest prefix of `s` made of id characters.
pub open spec fn is_id_end(s: Seq<char>, e: int) -> bool {
    &&& 0 <= e <= s.len()
    &&& forall|j: int| 0 <= j < e ==> is_id_char(#[trigger] s[j])
    &&& e < s.len() ==> !is_id_char(s[e])
}

pub open spec fn id_end(s: Seq<char>) -> int {
    choose|e: int| is_id_end(s, e)
}

/// The id that follows the first `/invite/` of a link, when there is a non-empty one.
pub open spec fn invite_id_spec(url: Seq<char>) -> Option<Seq<char>> {
    if exists|i: int| is_first_invite(url, i) {
        let i = choose|i: int| is_first_invite(url, i);
        let rest = url.skip(i + 8);
        let id = rest.take(id_end(rest));
        if id.len() > 0 {
            Some(id)
        } else {
            None
        }
    } else {
        None
    }
}

proof fn lemma_first_invite_unique(s: Seq<char>, a: int, b: int)
    requires
        is_first_invite(s, a),
        is_first_invite(s, b),
    ensures
        a == b,
{
}

proof fn lemma_id_end_unique(s: Seq<char>, a: int, b: int)
    requires
        is_id_end(s, a),
        is_id_end(s, b),
    ensures
        a == b,
{
    if a < b {
        assert(is_id_char(s[a]));
    }
    if b < a {
        assert(is_id_char(s[b]));
    }
}

fn is_id_char_exec(c: char) -> (r: bool)
    ensures
        r == is_id_char(c),
{
    ('0' <= c && c <= '9') || ('A' <= c && c <= 'Z') || ('a' <= c && c <= 'z') || c == '_' || c
        == '-'
}

fn invite_at_exec(s: &Vec<char>, i: usize) -> (r: bool)
    ensures
        r == invite_at(s@, i as int),
{
    if i > s.len() || s.len() - i < 8 {
        return false;
    }
    let window = lower_chars(&sub_chars(s, i, i + 8));
    let needle = chars_of("/invite/");
    proof {
        reveal_strlit("/invite/");
        assert(needle@ =~= invite_needle());
    }
    chars_eq(&window, &needle)
}

/// The invite id in an invite link: what follows the first `/invite/` (any letter case), up to
/// the first character that is not a letter, digit, `_` or `-`; `None` when that is empty or the
/// link has no `/invite/`.
pub fn invite_id_from_url(url: &str) -> (r: Option<String>)
    ensures
        match r {
            Some(id) => invite_id_spec(url@) == Some(id@),
            None => invite_id_spec(url@) is None,
        },
{
    let s = chars_of(url);
    let mut i: usize = 0;
    let mut found = false;
    while i < s.len() && !found
        invariant
            i <= s@.len(),
            forall|j: int| 0 <= j < i ==> !invite_at(s@, j),
            found ==> invite_at(s@, i as int),
        decreases s@.len() - i + (if found { 0int } else { 1int }),
    {
        if invite_at_exec(&s, i) {
            found = true;
        } else {
            i += 1;
        }
    }
    if !found {
        proof {
            assert forall|j: int| !is_first_invite(s@, j) by {
                if is_first_invite(s@, j) {
                    assert(j < i);
                }
            }
        }
        return None;
    }
    proof {
        assert(is_first_invite(s@, i as int));
        let c = choose|k: int| is_first_invite(s@, k);
        lemma_first_invite_unique(s@, c, i as int);
    }
    let rest = sub_chars(&s, i + 8, s.len());
    let mut e: usize = 0;
    while e < rest.len() && is_id_char_exec(rest[e])
        invariant
            e <= rest@.len(),
            forall|j: int| 0 <= j < e ==> is_id_char(#[trigger] rest@[j]),
        decreases rest@.len() - e,
    {
        e += 1;
    }
    proof {
        assert(rest@ =~= s@.skip(i + 8));
        assert(is_id_end(rest@, e as int));
        lemma_id_end_unique(rest@, e as int, id_end(rest@));
    }
    if e == 0 {
        return None;
    }
    let id = sub_chars(&rest, 0, e);
    proof {
        assert(id@ =~= rest@.take(e as int));
    }
    Some(string_from_chars(&id))
}

// ---------------------------------------------------------------------------
// Links in message text
// ---------------------------------------------------------------------------

pub open spec fn http_prefix() -> Seq<char> {
    seq!['h', 't', 't', 'p', ':', '/', '/']
}

pub open spec fn https_prefix() -> Seq<char> {
    seq!['h', 't', 't', 'p', 's', ':', '/', '/']
}

/// An `http://` or `https://` link starts at index `i` of `s`.
pub open spec fn scheme_at(s: Seq<char>, i: int) -> bool {
    occurs_at(s, http_prefix(), i) || occurs_at(s, https_prefix(), i)
}

pub open spec fn is_first_scheme(s: Seq<char>, p: int) -> bool {
    scheme_at(s, p) && forall|j: int| 0 <= j < p ==> !scheme_at(s, j)
}

/// Where the first `http://` or `https://` of `s` starts.
pub open spec fn next_scheme_spec(s: Seq<char>) -> Option<int> {
    if exists|p: int| is_first_scheme(s, p) {
        Some(choose|p: int| is_first_scheme(s, p))
    } else {
        None
    }
}

/// A character that ends a link: white space or one of `<>"|` and the backtick.
pub open spec fn is_url_stop(c: char) -> bool {
    is_white_space(c) || c == '<' || c == '>' || c == '"' || c == '|' || c == '`'
}

pub open spec fn is_url_end(s: Seq<char>, e: int) -> bool {
    &&& 0 <= e <= s.len()
    &&& forall|j: int| 0 <= j < e ==> !is_url_stop(#[trigger] s[j])
    &&& e < s.len() ==> is_url_stop(s[e])
}

/// Index of the first character of `s` that ends a link (`s.len()` if none does).
pub open spec fn url_end(s: Seq<char>) -> int {
    choose|e: int| is_url_end(s, e)
}

/// Punctuation that is dropped from the end of a link.
pub open spec fn is_trailing_punct(c: char) -> bool {
    c == '.' || c == ',' || c == ';' || c == ':' || c == '!' || c == '?' || c == ')' || c == ']'
        || c == '}' || c == '\'' || c == '"'
}

pub open spec fn trim_trailing_punct(s: Seq<char>) -> Seq<char>
    decreases s.len(),
{
    if s.len() > 0 && is_trailing_punct(s.last()) {
        trim_trailing_punct(s.drop_last())
    } else {
        s
    }
}

/// The links of `rest`, in order: each starts at an `http://` or `https://`, runs to the first
/// white space or `<>"|` or backtick, loses its trailing punctuation, and is kept when it is
/// longer than `https://` in bytes; the search goes on after the link (at least one character
/// further).
pub open spec fn extract_urls_spec(rest: Seq<char>) -> Seq<Seq<char>>
    decreases rest.len(),
{
    if exists|p: int| is_first_scheme(rest, p) {
        let pos = choose|p: int| is_first_scheme(rest, p);
        let from = rest.skip(pos);
        let end = url_end(from);
        let token = trim_trailing_punct(from.take(end));
        let head = if vstd::utf8::encode_utf8(token).len() > 8 {
            seq![token]
        } else {
            Seq::empty()
        };
        let advance = pos + if end > 1 {
            end
        } else {
            1
        };
        if advance >= rest.len() {
            head
        } else {
            head + extract_urls_spec(rest.skip(advance))
        }
    } else {
        Seq::empty()
    }
}

proof fn lemma_first_scheme_unique(s: Seq<char>, a: int, b: int)
    requires
        is_first_scheme(s, a),
        is_first_scheme(s, b),
    ensures
        a == b,
{
}

proof fn lemma_url_end_unique(s: Seq<char>, a: int, b: int)
    requires
        is_url_end(s, a),
        is_url_end(s, b),
    ensures
        a == b,
{
    if a < b {
        assert(!is_url_stop(s[a]));
    }
    if b < a {
        assert(!is_url_stop(s[b]));
    }
}

/// Where the first `http://` or `https://` of `text` starts.
fn next_scheme(text: &Vec<char>) -> (r: Option<usize>)
    ensures
        match r {
            Some(p) => next_scheme_spec(text@) == Some(p as int),
            None => next_scheme_spec(text@) is None,
        },
{
    let http = chars_of("http://");
    let https = chars_of("https://");
    proof {
        reveal_strlit("http://");
        reveal_strlit("https://");
        assert(http@ =~= http_prefix());
        assert(https@ =~= https_prefix());
    }
    let r = match (find_exec(text, &http), find_exec(text, &https)) {
        (Some(a), Some(b)) => Some(if a < b {
            a
        } else {
            b
        }),
        (Some(a), None) => Some(a),
        (None, Some(b)) => Some(b),
        (None, None) => None,
    };
    proof {
        match r {
            Some(p) => {
                assert(is_first_scheme(text@, p as int));
                lemma_first_scheme_unique(
                    text@,
                    p as int,
                    choose|q: int| is_first_scheme(text@, q),
                );
            },
            None => {
                assert forall|q: int| !is_first_scheme(text@, q) by {}
            },
        }
    }
    r
}

fn is_url_stop_exec(c: char) -> (r: bool)
    ensures
        r == is_url_stop(c),
{
    is_white_space_char(c) || c == '<' || c == '>' || c == '"' || c == '|' || c == '`'
}

fn url_end_exec(s: &Vec<char>) -> (e: usize)
    ensures
        e as int == url_end(s@),
        is_url_end(s@, e as int),
{
    let mut e: usize = 0;
    while e < s.len() && !is_url_stop_exec(s[e])
        invariant
            e <= s@.len(),
            forall|j: int| 0 <= j < e ==> !is_url_stop(#[trigger] s@[j]),
        decreases s@.len() - e,
    {
        e += 1;
    }
    proof {
        assert(is_url_end(s@, e as int));
        lemma_url_end_unique(s@, e as int, url_end(s@));
    }
    e
}

fn is_trailing_punct_exec(c: char) -> (r: bool)
    ensures
        r == is_trailing_punct(c),
{
    c == '.' || c == ',' || c == ';' || c == ':' || c == '!' || c == '?' || c == ')' || c == ']'
        || c == '}' || c == '\'' || c == '"'
}

fn trim_trailing_punct_exec(v: &Vec<char>) -> (r: Vec<char>)
    ensures
        r@ == trim_trailing_punct(v@),
{
    let mut b: usize = v.len();
    proof {
        assert(v@.subrange(0, v@.len() as int) =~= v@);
    }
    while b > 0 && is_trailing_punct_exec(v[b - 1])
        invariant
            b <= v@.len(),
            trim_trailing_punct(v@) == trim_trailing_punct(v@.subrange(0, b as int)),
        decreases b,
    {
        proof {
            assert(v@.subrange(0, b as int).drop_last() =~= v@.subrange(0, b - 1));
        }
        b -= 1;
    }
    sub_chars(v, 0, b)
}

pub open spec fn strings_view(v: Seq<String>) -> Seq<Seq<char>> {
    v.map_values(|s: String| s@)
}

/// The links of a message text, in order (see `extract_urls_spec`).
pub fn extract_urls(text: &str) -> (r: Vec<String>)
    ensures
        strings_view(r@) == extract_urls_spec(text@),
{
    let t = chars_of(text);
    let mut urls: Vec<String> = Vec::new();
    let mut base: usize = 0;
    let mut done = false;
    proof {
        assert(t@.skip(0) =~= t@);
        assert(strings_view(urls@) =~= Seq::<Seq<char>>::empty());
    }
    while !done
        invariant
            base <= t@.len(),
            !done ==> extract_urls_spec(t@) == strings_view(urls@) + extract_urls_spec(
                t@.skip(base as int),
            ),
            done ==> extract_urls_spec(t@) == strings_view(urls@),
        decreases t@.len() - base + (if done { 0int } else { 1int }),
    {
        let rest = sub_chars(&t, base, t.len());
        proof {
            assert(rest@ =~= t@.skip(base as int));
        }
        match next_scheme(&rest) {
            None => {
                proof {
                    assert(extract_urls_spec(rest@) =~= Seq::<Seq<char>>::empty());
                    assert(strings_view(urls@) + Seq::<Seq<char>>::empty() =~= strings_view(
                        urls@,
                    ));
                }
                done = true;
            },
            Some(pos) => {
                proof {
                    assert(is_first_scheme(rest@, pos as int));
                }
                let from = sub_chars(&rest, pos, rest.len());
                let end = url_end_exec(&from);
                let token = trim_trailing_punct_exec(&sub_chars(&from, 0, end));
                let keep = utf8_len_exceeds(&token, 8);
                let ghost before = strings_view(urls@);
                let ghost head: Seq<Seq<char>> = if keep {
                    seq![token@]
                } else {
                    Seq::empty()
                };
                proof {
                    assert(from@ =~= rest@.skip(pos as int));
                    assert(from@.subrange(0, end as int) =~= from@.take(end as int));
                }
                if keep {
                    let tok = string_from_chars(&token);
                    urls.push(tok);
                    proof {
                        assert(strings_view(urls@) =~= before + head);
                    }
                } else {
                    proof {
                        assert(before + head =~= before);
                    }
                }
                let step = if end > 1 {
                    end
                } else {
                    1
                };
                let advance = pos + step;
                if advance >= rest.len() {
                    proof {
                        assert(extract_urls_spec(rest@) == head);
                    }
                    done = true;
                } else {
                    proof {
                        assert(extract_urls_spec(rest@) == head + extract_urls_spec(
                            rest@.skip(advance as int),
                        ));
                        assert(rest@.skip(advance as int) =~= t@.skip(base + advance));
                        assert(before + (head + extract_urls_spec(rest@.skip(advance as int)))
                            =~= (before + head) + extract_urls_spec(rest@.skip(advance as int)));
                    }
                    base = base + advance;
                }
            },
        }
    }
    urls
}

// ---------------------------------------------------------------------------
// Which links get a preview
// ---------------------------------------------------------------------------

pub open spec fn authority_stops() -> Seq<char> {
    seq!['/', '?', '#']
}

/// The lowercased host of a link: after the first `://`, up to the first `/`, `?` or `#`,
/// after the last `@`, before the first `:`; `None` when that is empty or there is no `://`.
pub open spec fn host_of_spec(url: Seq<char>) -> Option<Seq<char>> {
    let sep = seq![':', '/', '/'];
    if exists|i: int| is_first_occurrence(url, sep, i) {
        let i = choose|i: int| is_first_occurrence(url, sep, i);
        let after = url.skip(i + 3);
        let authority = after.take(first_of(after, authority_stops()));
        let tail = authority.skip(after_last(authority, '@'));
        let host = tail.take(first_of(tail, seq![':']));
        if host.len() == 0 {
            None
        } else {
            Some(lower_seq(host))
        }
    } else {
        None
    }
}

/// `host` is `domain` or one of its subdomains.
pub open spec fn host_matches_spec(host: Seq<char>, domain: Seq<char>) -> bool {
    host == domain || ends_with(host, seq!['.'] + domain)
}

/// Video and social hosts whose links get no preview.
pub open spec fn is_excluded_host(host: Seq<char>) -> bool {
    ||| host_matches_spec(host, "youtube.com"@)
    ||| host_matches_spec(host, "youtu.be"@)
    ||| host_matches_spec(host, "facebook.com"@)
    ||| host_matches_spec(host, "fb.watch"@)
    ||| host_matches_spec(host, "fb.com"@)
    ||| host_matches_spec(host, "tiktok.com"@)
}

pub open spec fn www_prefix() -> Seq<char> {
    seq!['w', 'w', 'w', '.']
}

/// `s` without its leading `www.` prefixes (`trim_start_matches("www.")`).
pub open spec fn strip_www(s: Seq<char>) -> Seq<char>
    decreases s.len(),
{
    if starts_with(s, www_prefix()) {
        strip_www(s.skip(4))
    } else {
        s
    }
}

/// The internal domain as links are compared with it: trimmed, without `www.`, lowercased.
pub open spec fn normalize_domain(d: Seq<char>) -> Seq<char> {
    lower_seq(strip_www(trim_seq(d)))
}

/// A link gets a preview when it has a host that is neither excluded nor the internal
/// domain (or a subdomain of it).
pub open spec fn previewable(url: Seq<char>, internal: Option<Seq<char>>) -> bool {
    match host_of_spec(url) {
        None => false,
        Some(h) => !is_excluded_host(h) && match internal {
            None => true,
            Some(d) => {
                let n = normalize_domain(d);
                !(n.len() > 0 && host_matches_spec(h, n))
            },
        },
    }
}

pub open spec fn is_first_previewable(
    urls: Seq<Seq<char>>,
    internal: Option<Seq<char>>,
    i: int,
) -> bool {
    &&& 0 <= i < urls.len()
    &&& previewable(urls[i], internal)
    &&& forall|j: int| 0 <= j < i ==> !previewable(#[trigger] urls[j], internal)
}

/// The first link of `text` that gets a preview.
pub open spec fn first_previewable_spec(text: Seq<char>, internal: Option<Seq<char>>) -> Option<
    Seq<char>,
> {
    let urls = extract_urls_spec(text);
    if exists|i: int| is_first_previewable(urls, internal, i) {
        Some(urls[choose|i: int| is_first_previewable(urls, internal, i)])
    } else {
        None
    }
}

pub open spec fn opt_str_view(o: Option<&str>) -> Option<Seq<char>> {
    match o {
        Some(s) => Some(s@),
        None => None,
    }
}

proof fn lemma_first_occurrence_unique(s: Seq<char>, p: Seq<char>, a: int, b: int)
    requires
        is_first_occurrence(s, p, a),
        is_first_occurrence(s, p, b),
    ensures
        a == b,
{
}

/// The lowercased host of a link (see `host_of_spec`).
fn host_of(url: &str) -> (r: Option<String>)
    ensures
        match r {
            Some(h) => host_of_spec(url@) == Some(h@),
            None => host_of_spec(url@) is None,
        },
{
    let u = chars_of(url);
    let sep = chars_of("://");
    proof {
        reveal_strlit("://");
        assert(sep@ =~= seq![':', '/', '/']);
    }
    let i = match find_exec(&u, &sep) {
        Some(i) => i,
        None => {
            proof {
                assert forall|k: int| !is_first_occurrence(u@, seq![':', '/', '/'], k) by {}
            }
            return None;
        },
    };
    proof {
        lemma_first_occurrence_unique(
            u@,
            sep@,
            i as int,
            choose|k: int| is_first_occurrence(u@, seq![':', '/', '/'], k),
        );
    }
    let n = u.len();
    proof {
        assert(occurs_at(u@, sep@, i as int));
        assert(i + 3 <= n);
    }
    let after = sub_chars(&u, i + 3, n);
    let stops = vec!['/', '?', '#'];
    proof {
        assert(stops@ =~= authority_stops());
        assert(after@ =~= u@.skip(i + 3));
    }
    let a_end = index_of_any(&after, &stops);
    let authority = sub_chars(&after, 0, a_end);
    let at = index_after_last(&authority, '@');
    let tail = sub_chars(&authority, at, authority.len());
    let colon = vec![':'];
    proof {
        assert(colon@ =~= seq![':']);
    }
    let h_end = index_of_any(&tail, &colon);
    let host = sub_chars(&tail, 0, h_end);
    proof {
        assert(authority@ =~= after@.take(a_end as int));
        assert(tail@ =~= authority@.skip(at as int));
        assert(host@ =~= tail@.take(h_end as int));
    }
    if host.len() == 0 {
        return None;
    }
    Some(string_from_chars(&lower_chars(&host)))
}

/// Whether `host` is `domain` or one of its subdomains.
fn host_matches(host: &str, domain: &str) -> (r: bool)
    ensures
        r == host_matches_spec(host@, domain@),
{
    let h = chars_of(host);
    let d = chars_of(domain);
    if chars_eq(&h, &d) {
        return true;
    }
    let mut dotted: Vec<char> = vec!['.'];
    let mut i: usize = 0;
    while i < d.len()
        invariant
            i <= d@.len(),
            dotted@ == seq!['.'] + d@.subrange(0, i as int),
        decreases d@.len() - i,
    {
        proof {
            assert(seq!['.'] + d@.subrange(0, i + 1) =~= (seq!['.'] + d@.subrange(0, i as int)).push(
                d@[i as int],
            ));
        }
        dotted.push(d[i]);
        i += 1;
    }
    proof {
        assert(d@.subrange(0, d@.len() as int) =~= d@);
    }
    ends_with_exec(&h, &dotted)
}

fn is_excluded_host_exec(host: &str) -> (r: bool)
    ensures
        r == is_excluded_host(host@),
{
    host_matches(host, "youtube.com") || host_matches(host, "youtu.be") || host_matches(
        host,
        "facebook.com",
    ) || host_matches(host, "fb.watch") || host_matches(host, "fb.com") || host_matches(
        host,
        "tiktok.com",
    )
}

fn strip_www_exec(v: &Vec<char>) -> (r: Vec<char>)
    ensures
        r@ == strip_www(v@),
{
    let www = chars_of("www.");
    proof {
        reveal_strlit("www.");
        assert(www@ =~= www_prefix());
    }
    let mut a: usize = 0;
    proof {
        assert(v@.skip(0) =~= v@);
    }
    while v.len() >= 4 && a <= v.len() - 4 && starts_with_exec(&sub_chars(v, a, v.len()), &www)
        invariant
            a <= v@.len(),
            www@ == www_prefix(),
            strip_www(v@) == strip_www(v@.skip(a as int)),
        decreases v@.len() - a,
    {
        proof {
            assert(v@.skip(a as int).skip(4) =~= v@.skip(a + 4));
        }
        a += 4;
    }
    let r = sub_chars(v, a, v.len());
    proof {
        assert(r@ =~= v@.skip(a as int));
        if a + 4 > v@.len() {
            assert(!starts_with(r@, www_prefix()));
        }
    }
    r
}

/// Whether a link gets a preview (see `previewable`).
fn is_previewable(url: &str, internal_domain: Option<&str>) -> (r: bool)
    ensures
        r == previewable(url@, opt_str_view(internal_domain)),
{
    let host = match host_of(url) {
        Some(h) => h,
        None => return false,
    };
    if is_excluded_host_exec(host.as_str()) {
        return false;
    }
    if let Some(internal) = internal_domain {
        let n = lower_chars(&strip_www_exec(&trim_chars(&chars_of(internal))));
        let ns = string_from_chars(&n);
        if n.len() > 0 && host_matches(host.as_str(), ns.as_str()) {
            return false;
        }
    }
    true
}

/// The first link in `text` eligible for a link preview: an `http`/`https` link that is not on
/// a video or social host and not on the internal domain.
pub fn first_previewable_url(text: &str, internal_domain: Option<&str>) -> (r: Option<String>)
    ensures
        match r {
            Some(u) => first_previewable_spec(text@, opt_str_view(internal_domain)) == Some(u@),
            None => first_previewable_spec(text@, opt_str_view(internal_domain)) is None,
        },
{
    let urls = extract_urls(text);
    let ghost sv = strings_view(urls@);
    let ghost internal = opt_str_view(internal_domain);
    let mut i: usize = 0;
    while i < urls.len()
        invariant
            sv == strings_view(urls@),
            sv == extract_urls_spec(text@),
            internal == opt_str_view(internal_domain),
            i <= urls@.len(),
            forall|j: int| 0 <= j < i ==> !previewable(#[trigger] sv[j], internal),
        decreases urls@.len() - i,
    {
        if is_previewable(urls[i].as_str(), internal_domain) {
            proof {
                assert(sv[i as int] == urls@[i as int]@);
                assert(is_first_previewable(sv, internal, i as int));
                let c = choose|k: int| is_first_previewable(sv, internal, k);
                if c < i {
                    assert(!previewable(sv[c], internal));
                }
                if i < c {
                    assert(!previewable(sv[i as int], internal));
                }
            }
            return Some(urls[i].clone());
        }
        proof {
            assert(sv[i as int] == urls@[i as int]@);
        }
        i += 1;
    }
    proof {
        assert forall|k: int| !is_first_previewable(sv, internal, k) by {}
    }
    None
}

/// `c` is one of `. , ; : ! ? ) ] } ' "`.
pub open spec fn is_closing_punctuation(c: char) -> bool {
    c == '.' || c == ',' || c == ';' || c == ':' || c == '!' || c == '?' || c == ')' || c == ']'
        || c == '}' || c == '\'' || c == '"'
}

proof fn lemma_trimmed_end(s: Seq<char>)
    ensures
        trim_trailing_punct(s).len() == 0 || !is_trailing_punct(trim_trailing_punct(s).last()),
    decreases s.len(),
{
    if s.len() > 0 && is_trailing_punct(s.last()) {
        lemma_trimmed_end(s.drop_last());
    }
}

/// No link taken from a message's text ends with punctuation: every extracted link is
/// non-empty and its last character is none of `. , ; : ! ? ) ] } ' "`.
pub proof fn law_links_lose_trailing_punctuation(text: Seq<char>)
    ensures
        forall|i: int|
            0 <= i < extract_urls_spec(text).len() ==> {
                let u = #[trigger] extract_urls_spec(text)[i];
                u.len() > 0 && !is_closing_punctuation(u.last())
            },
    decreases text.len(),
{
    if exists|p: int| is_first_scheme(text, p) {
        let pos = choose|p: int| is_first_scheme(text, p);
        let from = text.skip(pos);
        let end = url_end(from);
        let token = trim_trailing_punct(from.take(end));
        lemma_trimmed_end(from.take(end));
        if token.len() == 0 {
            assert(vstd::utf8::encode_utf8(token).len() == 0);
        }
        let head = if vstd::utf8::encode_utf8(token).len() > 8 {
            seq![token]
        } else {
            Seq::empty()
        };
        let advance = pos + if end > 1 {
            end
        } else {
            1
        };
        if advance < text.len() {
            law_links_lose_trailing_punctuation(text.skip(advance));
            let rest = extract_urls_spec(text.skip(advance));
            assert(extract_urls_spec(text) == head + rest);
            assert forall|i: int| 0 <= i < extract_urls_spec(text).len() implies {
                let u = #[trigger] extract_urls_spec(text)[i];
                u.len() > 0 && !is_closing_punctuation(u.last())
            } by {
                if i >= head.len() {
                    assert(extract_urls_spec(text)[i] == rest[i - head.len()]);
                }
            }
        } else {
            assert(extract_urls_spec(text) == head);
        }
    }
}

/// The link chosen for a preview ends with no punctuation either.
pub proof fn law_preview_link_loses_trailing_punctuation(text: Seq<char>, internal: Option<Seq<char>>)
    ensures
        first_previewable_spec(text, internal) matches Some(u) ==> u.len() > 0 && !is_closing_punctuation(
            u.last(),
        ),
{
    law_links_lose_trailing_punctuation(text);
    let urls = extract_urls_spec(text);
    if exists|i: int| is_first_previewable(urls, internal, i) {
        let i = choose|i: int| is_first_previewable(urls, internal, i);
        assert(0 <= i < urls.len());
        let u = urls[i];
    }
}

} // verus!

