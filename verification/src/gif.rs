use vstd::prelude::*;

use crate::text::{chars_of, push_all, push_str, string_from_chars, sub_chars, trim_chars, trim_seq};

verus! {

/// How many GIFs one request asks for.
pub const GIF_LIMIT: u32 = 30;

/// What the GIF store tells its observers.
#[derive(Debug, Clone)]
pub enum GifEvent {
    Changed,
}

// ---------------------------------------------------------------------------
// Query encoding
// ---------------------------------------------------------------------------

/// Bytes that go into a query unescaped: letters, digits and `-_.~`.
pub open spec fn is_unreserved(b: u8) -> bool {
    (65 <= b <= 90) || (97 <= b <= 122) || (48 <= b <= 57) || b == 45 || b == 95 || b == 46
        || b == 126
}

/// The upper-case hexadecimal digit of `n` (below 16).
pub open spec fn hex_upper(n: u8) -> char {
    if n < 10 {
        ((48 + n) as u8) as char
    } else {
        ((55 + n) as u8) as char
    }
}

pub open spec fn encode_byte(b: u8) -> Seq<char> {
    if is_unreserved(b) {
        seq![b as char]
    } else {
        seq!['%', hex_upper(b / 16), hex_upper(b % 16)]
    }
}

/// Percent-encoding of a byte string, byte by byte.
pub open spec fn encode_bytes(bs: Seq<u8>) -> Seq<char>
    decreases bs.len(),
{
    if bs.len() == 0 {
        Seq::empty()
    } else {
        encode_bytes(bs.drop_last()) + encode_byte(bs.last())
    }
}

fn hex_upper_exec(n: u8) -> (c: char)
    requires
        n < 16,
    ensures
        c == hex_upper(n),
{
    if n < 10 {
        (48 + n) as char
    } else {
        (55 + n) as char
    }
}

/// Percent-encodes the UTF-8 bytes of a search query.
pub fn encode_query(query: &str) -> (r: String)
    ensures
        r@ == encode_bytes(vstd::utf8::encode_utf8(query@)),
{
    let bytes = query.as_bytes();
    let ghost bs = vstd::utf8::encode_utf8(query@);
    let mut out: Vec<char> = Vec::new();
    let mut i: usize = 0;
    while i < bytes.len()
        invariant
            bytes@ == bs,
            i <= bs.len(),
            out@ == encode_bytes(bs.subrange(0, i as int)),
        decreases bs.len() - i,
    {
        let b = bytes[i];
        proof {
            assert(bs.subrange(0, i + 1).drop_last() =~= bs.subrange(0, i as int));
        }
        if (65 <= b && b <= 90) || (97 <= b && b <= 122) || (48 <= b && b <= 57) || b == 45 || b
            == 95 || b == 46 || b == 126 {
            out.push(b as char);
        } else {
            out.push('%');
            out.push(hex_upper_exec(b / 16));
            out.push(hex_upper_exec(b % 16));
        }
        proof {
            assert(out@ =~= encode_bytes(bs.subrange(0, i + 1)));
        }
        i += 1;
    }
    proof {
        assert(bs.subrange(0, bs.len() as int) =~= bs);
    }
    string_from_chars(&out)
}

// ---------------------------------------------------------------------------
// Endpoints
// ---------------------------------------------------------------------------

/// `s` without its trailing `/` characters.
pub open spec fn trim_end_slashes(s: Seq<char>) -> Seq<char>
    decreases s.len(),
{
    if s.len() > 0 && s.last() == '/' {
        trim_end_slashes(s.drop_last())
    } else {
        s
    }
}

/// Where the GIF service lives and the key it expects.
pub struct KlipyConfig {
    pub key: String,
    pub base_url: String,
}

pub open spec fn endpoint_spec(base_url: Seq<char>, key: Seq<char>, path: Seq<char>) -> Seq<char> {
    trim_end_slashes(base_url) + "/"@ + key + "/gifs/"@ + path
}

impl KlipyConfig {
    /// `<base url without trailing slashes>/<key>/gifs/<path>`.
    pub fn endpoint(&self, path: &str) -> (r: String)
        ensures
            r@ == endpoint_spec(self.base_url@, self.key@, path@),
    {
        let base = chars_of(self.base_url.as_str());
        let mut b: usize = base.len();
        proof {
            assert(base@.subrange(0, base@.len() as int) =~= base@);
        }
        while b > 0 && base[b - 1] == '/'
            invariant
                b <= base@.len(),
                trim_end_slashes(base@) == trim_end_slashes(base@.subrange(0, b as int)),
            decreases b,
        {
            proof {
                assert(base@.subrange(0, b as int).drop_last() =~= base@.subrange(0, b - 1));
            }
            b -= 1;
        }
        let mut out = sub_chars(&base, 0, b);
        push_str(&mut out, "/");
        push_str(&mut out, self.key.as_str());
        push_str(&mut out, "/gifs/");
        push_str(&mut out, path);
        string_from_chars(&out)
    }

    pub fn categories_url(&self) -> (r: String)
        ensures
            r@ == endpoint_spec(self.base_url@, self.key@, "categories"@),
    {
        self.endpoint("categories")
    }

    /// The trending GIFs, first page.
    pub fn featured_url(&self) -> (r: String)
        ensures
            r@ == endpoint_spec(self.base_url@, self.key@, "trending"@)
                + "?page=1&per_page=30&format_filter=gif"@,
    {
        let mut out = chars_of(self.endpoint("trending").as_str());
        push_str(&mut out, "?page=1&per_page=30&format_filter=gif");
        string_from_chars(&out)
    }

    /// GIFs matching a query, first page.
    pub fn search_url(&self, query: &str) -> (r: String)
        ensures
            r@ == endpoint_spec(self.base_url@, self.key@, "search"@) + "?page=1&per_page=30&q="@
                + encode_bytes(vstd::utf8::encode_utf8(query@)) + "&format_filter=gif"@,
    {
        let mut out = chars_of(self.endpoint("search").as_str());
        push_str(&mut out, "?page=1&per_page=30&q=");
        push_str(&mut out, encode_query(query).as_str());
        push_str(&mut out, "&format_filter=gif");
        string_from_chars(&out)
    }
}

// ---------------------------------------------------------------------------
// Picking the rendition to send
// ---------------------------------------------------------------------------

/// One GIF file of a rendition.
#[derive(Debug, Clone, Default)]
pub struct KlipyMedia {
    pub url: String,
    pub width: u32,
    pub height: u32,
}

/// One rendition (size) of a GIF item.
#[derive(Debug, Clone, Default)]
pub struct KlipyVariant {
    pub gif: Option<KlipyMedia>,
}

/// The renditions of a GIF item, smallest first.
#[derive(Debug, Clone, Default)]
pub struct KlipyFile {
    pub xs: Option<KlipyVariant>,
    pub sm: Option<KlipyVariant>,
    pub md: Option<KlipyVariant>,
    pub hd: Option<KlipyVariant>,
}

/// The GIF of a rendition, when it has one with a non-empty link.
pub open spec fn gif_media_spec(variant: Option<KlipyVariant>) -> Option<KlipyMedia> {
    match variant {
        Some(v) => match v.gif {
            Some(m) => if m.url@.len() > 0 {
                Some(m)
            } else {
                None
            },
            None => None,
        },
        None => None,
    }
}

/// The smallest rendition that has a usable GIF.
pub open spec fn shareable_spec(f: KlipyFile) -> Option<KlipyMedia> {
    if gif_media_spec(f.xs) is Some {
        gif_media_spec(f.xs)
    } else if gif_media_spec(f.sm) is Some {
        gif_media_spec(f.sm)
    } else if gif_media_spec(f.md) is Some {
        gif_media_spec(f.md)
    } else {
        gif_media_spec(f.hd)
    }
}

impl KlipyFile {
    pub fn gif_media(variant: Option<&KlipyVariant>) -> (r: Option<&KlipyMedia>)
        ensures
            match variant {
                Some(v) => r == (match gif_media_spec(Some(*v)) {
                    Some(m) => Some(&m),
                    None => None::<&KlipyMedia>,
                }),
                None => r is None,
            },
    {
        match variant {
            Some(v) => match &v.gif {
                Some(m) => if !m.url.as_str().is_empty() {
                    Some(m)
                } else {
                    None
                },
                None => None,
            },
            None => None,
        }
    }

    pub fn shareable(&self) -> (r: Option<&KlipyMedia>)
        ensures
            r == (match shareable_spec(*self) {
                Some(m) => Some(&m),
                None => None::<&KlipyMedia>,
            }),
    {
        match Self::gif_media(self.xs.as_ref()) {
            Some(m) => Some(m),
            None => match Self::gif_media(self.sm.as_ref()) {
                Some(m) => Some(m),
                None => match Self::gif_media(self.md.as_ref()) {
                    Some(m) => Some(m),
                    None => Self::gif_media(self.hd.as_ref()),
                },
            },
        }
    }
}

// ---------------------------------------------------------------------------
// Categories and GIFs from a response
// ---------------------------------------------------------------------------

/// A GIF category of the picker.
#[derive(Debug, Clone)]
pub struct GifCategory {
    pub name: String,
    pub searchterm: String,
    pub image: String,
}

/// A GIF of the picker: the link sent and previewed, with its size.
#[derive(Debug, Clone)]
pub struct Gif {
    pub url: String,
    pub preview_url: String,
    pub width: u32,
    pub height: u32,
}

/// A category as the GIF service lists it.
#[derive(Debug, Clone, Default)]
pub struct KlipyCategory {
    pub category: String,
    pub query: String,
    pub preview_url: String,
}

/// A GIF item as the GIF service lists it.
#[derive(Debug, Clone, Default)]
pub struct KlipyGif {
    pub file: KlipyFile,
}

/// A listed category is kept unless both its name and query are empty; it is searched by its
/// query, else by its name.
pub fn category_from_klipy(category: KlipyCategory) -> (r: Option<GifCategory>)
    ensures
        match r {
            Some(c) => {
                &&& category.category@.len() > 0 || category.query@.len() > 0
                &&& c.name@ == category.category@
                &&& c.searchterm@ == (if category.query@.len() == 0 {
                    category.category@
                } else {
                    category.query@
                })
                &&& c.image@ == category.preview_url@
            },
            None => category.category@.len() == 0 && category.query@.len() == 0,
        },
{
    if category.category.as_str().is_empty() && category.query.as_str().is_empty() {
        return None;
    }
    let searchterm = if category.query.as_str().is_empty() {
        category.category.clone()
    } else {
        category.query
    };
    Some(GifCategory { name: category.category, searchterm, image: category.preview_url })
}

/// A listed item is kept when some rendition has a usable GIF: the smallest such one is both
/// sent and previewed, at its own size.
pub fn gif_from_klipy(gif: KlipyGif) -> (r: Option<Gif>)
    ensures
        match (r, shareable_spec(gif.file)) {
            (Some(g), Some(m)) => g.url@ == m.url@ && g.preview_url@ == m.url@ && g.width
                == m.width && g.height == m.height,
            (None, None) => true,
            _ => false,
        },
{
    match gif.file.shareable() {
        Some(still) => Some(
            Gif {
                url: still.url.clone(),
                preview_url: still.url.clone(),
                width: still.width,
                height: still.height,
            },
        ),
        None => None,
    }
}

/// The GIFs of the listed items that have one, in order.
pub open spec fn kept_gifs(items: Seq<KlipyGif>) -> Seq<KlipyMedia>
    decreases items.len(),
{
    if items.len() == 0 {
        Seq::empty()
    } else {
        let p = kept_gifs(items.drop_last());
        match shareable_spec(items.last().file) {
            Some(m) => p.push(m),
            None => p,
        }
    }
}

/// The picker's GIFs for a listed page (see `gif_from_klipy`), in order.
pub fn gifs_from_klipy(items: Vec<KlipyGif>) -> (r: Vec<Gif>)
    ensures
        r@.len() == kept_gifs(items@).len(),
        forall|i: int| 0 <= i < r@.len() ==> {
            let m = #[trigger] kept_gifs(items@)[i];
            &&& r@[i].url@ == m.url@
            &&& r@[i].preview_url@ == m.url@
            &&& r@[i].width == m.width
            &&& r@[i].height == m.height
        },
{
    let ghost s = items@;
    let mut out: Vec<Gif> = Vec::new();
    let mut items = items;
    let mut rest: Vec<KlipyGif> = Vec::new();
    while items.len() > 0
        invariant
            items@ + rest@.reverse() == s,
        decreases items@.len(),
    {
        let x = items.pop().unwrap();
        rest.push(x);
        proof {
            assert(items@ + rest@.reverse() =~= s);
        }
    }
    proof {
        assert(rest@.reverse() =~= s);
    }
    let n = rest.len();
    while rest.len() > 0
        invariant
            n == s.len(),
            rest@.len() <= n,
            rest@.reverse() == s.subrange(n - rest@.len(), n as int),
            out@.len() == kept_gifs(s.subrange(0, n - rest@.len())).len(),
            forall|i: int| 0 <= i < out@.len() ==> {
                let m = #[trigger] kept_gifs(s.subrange(0, n - rest@.len()))[i];
                &&& out@[i].url@ == m.url@
                &&& out@[i].preview_url@ == m.url@
                &&& out@[i].width == m.width
                &&& out@[i].height == m.height
            },
        decreases rest@.len(),
    {
        let ghost k = n - rest@.len();
        let ghost before = rest@;
        let x = rest.pop().unwrap();
        proof {
            assert(before.reverse()[0] == x);
            assert(x == s[k]);
            assert(rest@.reverse() =~= s.subrange(k + 1, n as int)) by {
                assert forall|q: int| 0 <= q < rest@.len() implies rest@.reverse()[q] == s.subrange(
                    k + 1,
                    n as int,
                )[q] by {
                    assert(rest@.reverse()[q] == before.reverse()[q + 1]);
                }
            }
            assert(s.subrange(0, k + 1).drop_last() =~= s.subrange(0, k));
            assert(s.subrange(0, k + 1).last() == x);
        }
        let ghost kb = kept_gifs(s.subrange(0, k));
        match gif_from_klipy(x) {
            Some(g) => {
                out.push(g);
            },
            None => {},
        }
    }
    proof {
        assert(s.subrange(0, n as int) =~= s);
    }
    out
}

/// The listed categories that are kept, in order.
pub open spec fn kept_categories(items: Seq<KlipyCategory>) -> Seq<KlipyCategory>
    decreases items.len(),
{
    if items.len() == 0 {
        Seq::empty()
    } else {
        let p = kept_categories(items.drop_last());
        let c = items.last();
        if c.category@.len() > 0 || c.query@.len() > 0 {
            p.push(c)
        } else {
            p
        }
    }
}

/// The picker category for a kept listed category.
pub open spec fn picker_category(c: KlipyCategory, g: GifCategory) -> bool {
    &&& g.name@ == c.category@
    &&& g.searchterm@ == (if c.query@.len() == 0 {
        c.category@
    } else {
        c.query@
    })
    &&& g.image@ == c.preview_url@
}

/// The picker's categories for a listed page (see `category_from_klipy`), in order.
pub fn categories_from_klipy(items: Vec<KlipyCategory>) -> (r: Vec<GifCategory>)
    ensures
        r@.len() == kept_categories(items@).len(),
        forall|i: int| 0 <= i < r@.len() ==> picker_category(
            #[trigger] kept_categories(items@)[i],
            r@[i],
        ),
{
    let ghost s = items@;
    let mut out: Vec<GifCategory> = Vec::new();
    let mut items = items;
    let mut rest: Vec<KlipyCategory> = Vec::new();
    while items.len() > 0
        invariant
            items@ + rest@.reverse() == s,
        decreases items@.len(),
    {
        let x = items.pop().unwrap();
        rest.push(x);
        proof {
            assert(items@ + rest@.reverse() =~= s);
        }
    }
    proof {
        assert(rest@.reverse() =~= s);
    }
    let n = rest.len();
    while rest.len() > 0
        invariant
            n == s.len(),
            rest@.len() <= n,
            rest@.reverse() == s.subrange(n - rest@.len(), n as int),
            out@.len() == kept_categories(s.subrange(0, n - rest@.len())).len(),
            forall|i: int| 0 <= i < out@.len() ==> picker_category(
                #[trigger] kept_categories(s.subrange(0, n - rest@.len()))[i],
                out@[i],
            ),
        decreases rest@.len(),
    {
        let ghost k = n - rest@.len();
        let ghost before = rest@;
        let x = rest.pop().unwrap();
        proof {
            assert(before.reverse()[0] == x);
            assert(x == s[k]);
            assert(rest@.reverse() =~= s.subrange(k + 1, n as int)) by {
                assert forall|q: int| 0 <= q < rest@.len() implies rest@.reverse()[q] == s.subrange(
                    k + 1,
                    n as int,
                )[q] by {
                    assert(rest@.reverse()[q] == before.reverse()[q + 1]);
                }
            }
            assert(s.subrange(0, k + 1).drop_last() =~= s.subrange(0, k));
            assert(s.subrange(0, k + 1).last() == x);
        }
        let ghost kb = kept_categories(s.subrange(0, k));
        let ghost xv = x;
        match category_from_klipy(x) {
            Some(c) => {
                out.push(c);
                proof {
                    assert(kept_categories(s.subrange(0, k + 1)) == kb.push(xv));
                }
            },
            None => {},
        }
    }
    proof {
        assert(s.subrange(0, n as int) =~= s);
    }
    out
}

/// What the GIF picker holds: the categories and trending GIFs once loaded, the results of
/// the latest search, and which fetches are under way. Each search gets a new generation; a
/// result of an older one is dropped.
pub struct GifState {
    pub categories: Vec<GifCategory>,
    pub featured: Vec<Gif>,
    pub search_results: Vec<Gif>,
    pub loaded: bool,
    pub loading: bool,
    pub searching: bool,
    pub search_generation: u64,
    pub config: KlipyConfig,
}

/// What a search asks for.
pub enum SearchStart {
    /// The query is blank: the results were cleared (`changed` when there were some).
    Cleared { changed: bool },
    /// Fetch `url`; its result belongs to search `generation`.
    Fetch { generation: u64, url: String },
}

pub open spec fn next_search_generation(g: u64) -> u64 {
    if g == u64::MAX {
        0
    } else {
        (g + 1) as u64
    }
}

impl GifState {
    pub fn new(config: KlipyConfig) -> (r: Self)
        ensures
            r.categories@.len() == 0 && r.featured@.len() == 0 && r.search_results@.len() == 0,
            !r.loaded && !r.loading && !r.searching,
            r.search_generation == 0,
            r.config == config,
    {
        GifState {
            categories: Vec::new(),
            featured: Vec::new(),
            search_results: Vec::new(),
            loaded: false,
            loading: false,
            searching: false,
            search_generation: 0,
            config,
        }
    }

    /// The picker opens: unless the lists are loaded or being loaded, the categories and
    /// trending GIFs are fetched from the returned URLs.
    pub fn ensure_loaded(&mut self) -> (r: Option<(String, String)>)
        ensures
            (old(self).loaded || old(self).loading) ==> r is None && final(self).loading == old(self).loading,
            !(old(self).loaded || old(self).loading) ==> (r matches Some((c, f)) && {
                &&& c@ == endpoint_spec(old(self).config.base_url@, old(self).config.key@, "categories"@)
                &&& f@ == endpoint_spec(old(self).config.base_url@, old(self).config.key@, "trending"@)
                    + "?page=1&per_page=30&format_filter=gif"@
                &&& final(self).loading
            }),
            final(self).loaded == old(self).loaded,
            final(self).config == old(self).config,
            final(self).search_generation == old(self).search_generation,
    {
        if self.loaded || self.loading {
            return None;
        }
        self.loading = true;
        Some((self.config.categories_url(), self.config.featured_url()))
    }

    /// The lists arrived: each one that came replaces the old one; the picker counts as
    /// loaded when it has categories or trending GIFs.
    pub fn finish_base(&mut self, categories: Option<Vec<GifCategory>>, featured: Option<Vec<Gif>>)
        ensures
            !final(self).loading,
            final(self).categories@ == match categories {
                Some(c) => c@,
                None => old(self).categories@,
            },
            final(self).featured@ == match featured {
                Some(f) => f@,
                None => old(self).featured@,
            },
            final(self).loaded == (final(self).categories@.len() > 0 || final(self).featured@.len() > 0),
            final(self).search_generation == old(self).search_generation,
            final(self).config == old(self).config,
    {
        self.loading = false;
        match categories {
            Some(c) => {
                self.categories = c;
            },
            None => {},
        }
        match featured {
            Some(f) => {
                self.featured = f;
            },
            None => {},
        }
        self.loaded = self.categories.len() > 0 || self.featured.len() > 0;
    }

    /// A search for `query` begins a new generation. A blank query (after trimming) clears
    /// the results; otherwise the trimmed query is searched.
    pub fn start_search(&mut self, query: &str) -> (r: SearchStart)
        ensures
            final(self).search_generation == next_search_generation(old(self).search_generation),
            final(self).config == old(self).config,
            trim_seq(query@).len() == 0 ==> {
                &&& r matches SearchStart::Cleared { changed }
                &&& changed == (old(self).search_results@.len() > 0)
                &&& final(self).search_results@.len() == 0
                &&& !final(self).searching
            },
            trim_seq(query@).len() > 0 ==> {
                &&& r matches SearchStart::Fetch { generation, url }
                &&& generation == final(self).search_generation
                &&& url@ == endpoint_spec(old(self).config.base_url@, old(self).config.key@, "search"@)
                    + "?page=1&per_page=30&q="@ + encode_bytes(vstd::utf8::encode_utf8(trim_seq(query@)))
                    + "&format_filter=gif"@
                &&& final(self).searching
                &&& final(self).search_results@ == old(self).search_results@
            },
    {
        let trimmed = string_from_chars(&trim_chars(&chars_of(query)));
        self.search_generation = self.search_generation.wrapping_add(1);
        if trimmed.unicode_len() == 0 {
            self.searching = false;
            let changed = self.search_results.len() > 0;
            if changed {
                self.search_results = Vec::new();
            }
            return SearchStart::Cleared { changed };
        }
        self.searching = true;
        let url = self.config.search_url(trimmed.as_str());
        SearchStart::Fetch { generation: self.search_generation, url }
    }

    /// Whether search `generation` is still the latest one.
    pub fn is_current_search(&self, generation: u64) -> (r: bool)
        ensures
            r == (self.search_generation == generation),
    {
        self.search_generation == generation
    }

    /// The results of search `generation` arrived (none on failure): unless a newer search
    /// began, they replace the results (a failure clears them). Returns whether they did.
    pub fn finish_search(&mut self, generation: u64, results: Option<Vec<Gif>>) -> (applied: bool)
        ensures
            applied == (old(self).search_generation == generation),
            !applied ==> final(self).search_results@ == old(self).search_results@ && final(self).searching
                == old(self).searching,
            applied ==> !final(self).searching && final(self).search_results@ == match results {
                Some(g) => g@,
                None => Seq::empty(),
            },
            final(self).search_generation == old(self).search_generation,
            final(self).config == old(self).config,
    {
        if self.search_generation != generation {
            return false;
        }
        self.searching = false;
        match results {
            Some(g) => {
                self.search_results = g;
            },
            None => {
                self.search_results = Vec::new();
            },
        }
        true
    }
}

} // verus!
