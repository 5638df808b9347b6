//! The field extractors one by one: links, images, favicon, language,
//! meta nodes, titles, dates, videos and the text heuristics.

use extrablatt::chars::string_from_chars;
use extrablatt::date::{extract_from_str, ArticleDate, DateSource, SimpleDate};
use extrablatt::is_punctuation;
use extrablatt::lang::Language;
use extrablatt::meta::{meta_data, meta_language};
use extrablatt::parse::read_document;
use extrablatt::score::ArticleTextNodeExtractor;
use extrablatt::text::{is_code_like_line, is_low_content_line, is_noise_text};
use extrablatt::title::{postprocess_title, title};
use extrablatt::urls::{all_urls, favicon, image_urls, meta_img_url, meta_thumbnail_url, resolve_url};
use extrablatt::video::{videos, VideoProvider};

fn chars(s: &str) -> Vec<char> {
    s.chars().collect()
}

fn s(v: &[char]) -> String {
    v.iter().collect()
}

#[test]
fn all_urls_unique_in_first_seen_order() {
    let html = "<html><body>\
                <a href=\" https://a/1 \">one</a>\
                <a href=\"https://a/2\">two</a>\
                <a href=\"https://a/1\">one again</a>\
                </body></html>";
    let dom = read_document(html).unwrap();
    let urls = all_urls(&dom);
    assert_eq!(urls, vec!["https://a/1".to_string(), "https://a/2".to_string()]);
}

#[test]
fn relative_references_resolve_against_base() {
    let b = resolve_url(None, "https://x/dir/page").unwrap();
    let joined = resolve_url(Some(&b), "../img.png").unwrap();
    assert_eq!(joined.as_str(), "https://x/img.png");
    assert_eq!(b.path(), "/dir/page");
}

#[test]
fn favicon_resolved_against_base() {
    let html = "<html><head><link rel=\"icon\" href=\"/fav.ico\"></head><body></body></html>";
    let dom = read_document(html).unwrap();
    let b = resolve_url(None, "https://x/a/b").unwrap();
    let f = favicon(&dom, &b).unwrap();
    assert_eq!(f.as_str(), "https://x/fav.ico");
}

#[test]
fn top_image_prefers_open_graph() {
    let html = "<html><head>\
                <meta property=\"og:image\" content=\"/og.png\">\
                <link rel=\"image_src\" href=\"/link.png\">\
                </head><body></body></html>";
    let dom = read_document(html).unwrap();
    let b = resolve_url(None, "https://x/").unwrap();
    assert_eq!(meta_img_url(&dom, Some(&b)).unwrap().as_str(), "https://x/og.png");
}

#[test]
fn thumbnail_from_meta_names() {
    let html = "<html><head><meta name=\"thumbnailUrl\" content=\"/t.png\"></head>\
                <body></body></html>";
    let dom = read_document(html).unwrap();
    let b = resolve_url(None, "https://x/").unwrap();
    assert_eq!(meta_thumbnail_url(&dom, Some(&b)).unwrap().as_str(), "https://x/t.png");
}

#[test]
fn language_from_html_attribute() {
    let html = "<html lang=\"en-US\"><body></body></html>";
    let dom = read_document(html).unwrap();
    assert_eq!(meta_language(&dom), Some(Language::English));

    let html = "<html lang=\"zz\"><body></body></html>";
    let dom = read_document(html).unwrap();
    assert!(matches!(meta_language(&dom), Some(Language::Unknown(_))));

    let html = "<html><head><meta http-equiv=\"Content-Language\" content=\"de\"></head>\
                <body></body></html>";
    let dom = read_document(html).unwrap();
    assert_eq!(meta_language(&dom), Some(Language::German));
}

#[test]
fn meta_nodes_need_key_and_value() {
    let html = "<html><head>\
                <meta name=\"a\" content=\"1\">\
                <meta property=\"b\" value=\"2\">\
                <meta name=\"no-value\">\
                <meta content=\"no-key\">\
                </head><body></body></html>";
    let dom = read_document(html).unwrap();
    let metas = meta_data(&dom);
    assert_eq!(metas.len(), 2);
    let key = metas[0].key(&dom).unwrap();
    assert_eq!(s(&key), "a");
    let value = metas[1].value(&dom).unwrap();
    assert_eq!(s(&value), "2");
}

#[test]
fn long_h1_wins_without_meta() {
    let html = "<html><head><title>Site</title></head>\
                <body><h1>  A   very    long headline here  </h1></body></html>";
    let dom = read_document(html).unwrap();
    let t = title(&dom).unwrap();
    assert_eq!(s(&t), "A very long headline here");
}

#[test]
fn title_postprocessing_strips_markup_and_byline() {
    let out = postprocess_title(&chars("By <b>Some</b> Headline &raquo; x &#65533;"));
    assert_eq!(s(&out), "Some Headline \u{bb} x");
    // a stray bracket pair spans a tag for the stripper
    let out = postprocess_title(&chars("a < b > c"));
    assert_eq!(s(&out), "a  c");
    let out = postprocess_title(&chars("left < right"));
    assert_eq!(s(&out), "left  right");
    // trailing name punctuation is trimmed
    let out = postprocess_title(&chars("A Headline, continued ..."));
    assert_eq!(s(&out), "A Headline, continued");
}

#[test]
fn date_patterns_in_paths() {
    let d = extract_from_str(&chars("/2025/11/15/slug/")).unwrap();
    assert_eq!(
        d,
        ArticleDate {
            date: SimpleDate { year: 2025, month: 11, day: 15 },
            source: DateSource::UrlPath
        }
    );
    let d = extract_from_str(&chars("/story-2024-02-29-leap/")).unwrap();
    assert_eq!(d.date, SimpleDate { year: 2024, month: 2, day: 29 });
    assert!(extract_from_str(&chars("/2025/13/15/")).is_none());
    assert!(extract_from_str(&chars("/2023/02/29/")).is_none());
    assert!(extract_from_str(&chars("/v12025/11/15/")).is_none());
}

#[test]
fn video_providers_inferred_from_source() {
    let html = "<html><body><article>\
                <iframe src=\"https://www.youtube.com/embed/abc\"></iframe>\
                <video src=\"https://vimeo.com/v/9\"></video>\
                <object><embed src=\"https://old.example/flash\"></object>\
                </article></body></html>";
    let dom = read_document(html).unwrap();
    let vids = videos(&dom, None);
    assert_eq!(vids.len(), 2);
    assert_eq!(vids[0].provider, VideoProvider::Youtube);
    assert_eq!(vids[1].provider, VideoProvider::Vimeo);
}

#[test]
fn words_split_on_space_and_punctuation() {
    let ws = ArticleTextNodeExtractor::words("hello, world! it's-fine");
    assert_eq!(
        ws,
        vec!["hello".to_string(), "world".to_string(), "it".to_string(), "s".to_string(),
            "fine".to_string()]
    );
    assert!(is_punctuation(','));
    assert!(!is_punctuation('a'));
}

#[test]
fn noise_and_code_heuristics() {
    assert!(is_noise_text(&chars("https://cdn.example/some/stylesheet/path")));
    assert!(is_noise_text(&chars("stylesheet main.css bundled")));
    assert!(is_noise_text(&chars("Some-Very.Long-Css-Class-Token")));
    assert!(!is_noise_text(&chars("a short note")));
    assert!(!is_noise_text(&chars(
        "A perfectly ordinary sentence about the news of the day."
    )));

    assert!(is_code_like_line(&chars("x=1;y=2;")));
    assert!(is_code_like_line(&chars("foo().bar")));
    assert!(is_code_like_line(&chars("src=\"cover.png\"")));
    assert!(!is_code_like_line(&chars("A plain line of readable prose with words.")));

    assert!(is_low_content_line(&chars("1234 !!! ???")));
    assert!(!is_low_content_line(&chars("mostly letters here")));
}

#[test]
fn strings_round_trip_through_chars() {
    let v = chars("round trip \u{a0} text");
    assert_eq!(string_from_chars(&v), "round trip \u{a0} text");
}

#[test]
fn document_images_read_src_and_data_src() {
    let html = "<html><body>\
                <img src=\" /a.png \">\
                <img data-src=\"b.png\">\
                <img>\
                </body></html>";
    let dom = read_document(html).unwrap();
    let b = resolve_url(None, "https://x/").unwrap();
    let urls: Vec<String> = image_urls(&dom, Some(&b)).iter().map(|u| u.as_str().to_string()).collect();
    assert_eq!(urls, vec!["https://x/a.png".to_string(), "https://x/b.png".to_string()]);
}
