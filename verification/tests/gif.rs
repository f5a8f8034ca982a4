use mezon_store::gif::{
    KlipyCategory, KlipyConfig, KlipyFile, KlipyGif, KlipyMedia, KlipyVariant, categories_from_klipy, category_from_klipy, encode_query, gif_from_klipy, gifs_from_klipy,
};

fn config() -> KlipyConfig {
    KlipyConfig {
        key: "KEY".into(),
        base_url: "https://api.klipy.com/api/v1".into(),
    }
}

#[test]
fn builds_klipy_urls_with_expected_params() {
    let config = config();
    assert_eq!(
        config.categories_url(),
        "https://api.klipy.com/api/v1/KEY/gifs/categories"
    );
    assert_eq!(
        config.featured_url(),
        "https://api.klipy.com/api/v1/KEY/gifs/trending?page=1&per_page=30&format_filter=gif"
    );
    assert_eq!(
        config.search_url("happy cat"),
        "https://api.klipy.com/api/v1/KEY/gifs/search?page=1&per_page=30&q=happy%20cat&format_filter=gif"
    );
}

#[test]
fn trailing_slash_in_base_url_does_not_double_up() {
    let config = KlipyConfig {
        key: "KEY".into(),
        base_url: "https://api.klipy.com/api/v1/".into(),
    };
    assert_eq!(
        config.categories_url(),
        "https://api.klipy.com/api/v1/KEY/gifs/categories"
    );
}

#[test]
fn encodes_reserved_query_characters() {
    assert_eq!(encode_query("a b&c"), "a%20b%26c");
    assert_eq!(encode_query("plain-text_1.0~"), "plain-text_1.0~");
}

#[test]
fn encodes_each_utf8_byte() {
    assert_eq!(encode_query("é"), "%C3%A9");
    assert_eq!(encode_query("/?"), "%2F%3F");
}

fn media(url: &str, w: u32) -> Option<KlipyVariant> {
    Some(KlipyVariant {
        gif: Some(KlipyMedia { url: url.into(), width: w, height: 1 }),
    })
}

#[test]
fn shareable_takes_the_smallest_usable_rendition() {
    let file = KlipyFile {
        xs: media("", 1),
        sm: None,
        md: media("https://g/md.gif", 500),
        hd: media("https://g/hd.gif", 900),
    };
    let m = file.shareable().expect("a rendition");
    assert_eq!(m.url, "https://g/md.gif");
    assert_eq!(m.width, 500);
    let none = KlipyFile { xs: None, sm: Some(KlipyVariant { gif: None }), md: None, hd: None };
    assert!(none.shareable().is_none());
}

fn variant(url: &str, width: u32, height: u32) -> Option<KlipyVariant> {
    Some(KlipyVariant {
        gif: Some(KlipyMedia {
            url: url.into(),
            width,
            height,
        }),
    })
}

#[test]
fn sends_xs_gif_with_its_real_dimensions_like_react() {
    let items = vec![KlipyGif {
        file: KlipyFile {
            xs: variant("https://static.klipy.com/a-xs.gif", 213, 90),
            md: variant("https://static.klipy.com/a-md.gif", 500, 280),
            ..KlipyFile::default()
        },
    }];
    let gifs = gifs_from_klipy(items);
    assert_eq!(gifs.len(), 1);
    assert_eq!(gifs[0].url, "https://static.klipy.com/a-xs.gif");
    assert_eq!(gifs[0].preview_url, "https://static.klipy.com/a-xs.gif");
    assert_eq!((gifs[0].width, gifs[0].height), (213, 90));
}

#[test]
fn falls_back_upward_when_xs_missing_and_skips_items_without_a_gif() {
    let items = vec![
        KlipyGif {
            file: KlipyFile {
                sm: variant("https://static.klipy.com/b-sm.gif", 300, 200),
                ..KlipyFile::default()
            },
        },
        KlipyGif {
            file: KlipyFile {
                xs: variant("", 0, 0),
                ..KlipyFile::default()
            },
        },
        KlipyGif {
            file: KlipyFile::default(),
        },
    ];
    let gifs = gifs_from_klipy(items);
    assert_eq!(gifs.len(), 1);
    assert_eq!(gifs[0].url, "https://static.klipy.com/b-sm.gif");
    assert_eq!((gifs[0].width, gifs[0].height), (300, 200));
}

#[test]
fn parses_categories_and_skips_empty() {
    let items = vec![
        KlipyCategory {
            category: "hello".into(),
            query: "hello".into(),
            preview_url: "https://static.klipy.com/hello.gif".into(),
        },
        KlipyCategory {
            category: String::new(),
            query: String::new(),
            preview_url: String::new(),
        },
    ];
    let categories = categories_from_klipy(items);
    assert_eq!(categories.len(), 1);
    assert_eq!(categories[0].name, "hello");
    assert_eq!(categories[0].searchterm, "hello");
    assert_eq!(categories[0].image, "https://static.klipy.com/hello.gif");
}

#[test]
fn category_without_query_is_searched_by_name() {
    let c = category_from_klipy(KlipyCategory {
        category: "cats".into(),
        query: String::new(),
        preview_url: String::new(),
    })
    .unwrap();
    assert_eq!(c.searchterm, "cats");
    assert!(gif_from_klipy(KlipyGif::default()).is_none());
}
