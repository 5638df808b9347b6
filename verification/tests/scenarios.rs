//! End-to-end extraction fixtures: one small HTML document each, with the
//! exact expected field values.

use extrablatt::article::{extract, extract_checked, CompletenessPolicy, ExtrablattError};
use extrablatt::date::{ArticleDate, DateSource, SimpleDate};
use extrablatt::parse::read_document;
use extrablatt::urls::{resolve_url, AbsUrl};

fn base(u: &str) -> AbsUrl {
    resolve_url(None, u).unwrap()
}

const BODY_SENTENCE: &str =
    "the cat and the dog and the fox and the hen ran far away today because it was time for all of us";

#[test]
fn minimal_article() {
    let html = format!(
        "<html><head><title>Hello | Site</title></head><body><article><p>{}</p></article></body></html>",
        BODY_SENTENCE
    );
    let b = base("https://x/a");
    let dom = read_document(&html).unwrap();
    let article = extract(&dom, Some(&b), None);
    assert_eq!(article.title.as_deref(), Some("Hello"));
    assert_eq!(article.text.as_deref(), Some(BODY_SENTENCE));
    assert_eq!(article.language, None);
    assert_eq!(article.canonical, None);
    assert_eq!(article.url.as_deref(), Some("https://x/a"));
}

#[test]
fn og_title_beats_short_h1() {
    let html = "<html><head><meta property=\"og:title\" content=\"A Proper Title\"></head>\
                <body><h1>Foo</h1></body></html>";
    let dom = read_document(html).unwrap();
    let article = extract(&dom, None, None);
    assert_eq!(article.title.as_deref(), Some("A Proper Title"));
}

#[test]
fn author_dedup() {
    let html = "<html><head><meta name=\"author\" content=\"By Jane Doe, JANE DOE, Reuters\">\
                </head><body></body></html>";
    let dom = read_document(html).unwrap();
    let article = extract(&dom, None, None);
    assert_eq!(article.authors, vec!["Jane Doe".to_string()]);
}

#[test]
fn promotional_footer_dropped() {
    let html = format!(
        "<html><body><article><p>{}</p>\
         <p><a rel=\"nofollow\" href=\"https://ads.example/promo\">Sponsor</a></p>\
         </article></body></html>",
        BODY_SENTENCE
    );
    let dom = read_document(&html).unwrap();
    let article = extract(&dom, None, None);
    let text = article.text.unwrap();
    assert_eq!(text, BODY_SENTENCE);
    assert!(!text.contains("Sponsor"));
}

#[test]
fn canonical_falls_back_to_og_url() {
    let html = "<html><head><meta property=\"og:url\" content=\"https://x/final\"></head>\
                <body></body></html>";
    let dom = read_document(html).unwrap();
    let article = extract(&dom, None, None);
    assert_eq!(article.canonical.as_deref(), Some("https://x/final"));
}

#[test]
fn canonical_link_preferred_over_og_url() {
    let html = "<html><head>\
                <link rel=\"canonical\" href=\"https://x/canon\">\
                <meta property=\"og:url\" content=\"https://x/final\">\
                </head><body></body></html>";
    let dom = read_document(html).unwrap();
    let article = extract(&dom, None, None);
    assert_eq!(article.canonical.as_deref(), Some("https://x/canon"));
}

#[test]
fn date_from_url_path() {
    let html = "<html><body><p>nothing dated here</p></body></html>";
    let b = base("https://host/2025/11/15/slug/");
    let dom = read_document(html).unwrap();
    let article = extract(&dom, Some(&b), None);
    assert_eq!(
        article.publishing_date,
        Some(ArticleDate {
            date: SimpleDate { year: 2025, month: 11, day: 15 },
            source: DateSource::UrlPath,
        })
    );
}

#[test]
fn date_from_meta_beats_url() {
    let html = "<html><head>\
                <meta property=\"article:published_time\" content=\"2024-02-29T10:00:00Z\">\
                </head><body></body></html>";
    let b = base("https://host/2025/11/15/slug/");
    let dom = read_document(html).unwrap();
    let article = extract(&dom, Some(&b), None);
    assert_eq!(
        article.publishing_date,
        Some(ArticleDate {
            date: SimpleDate { year: 2024, month: 2, day: 29 },
            source: DateSource::Meta,
        })
    );
}

#[test]
fn incomplete_article_error_carries_partial() {
    let html = "<html><body></body></html>";
    let dom = read_document(html).unwrap();
    let policy = CompletenessPolicy { require_title: true, require_text: false, require_date: false };
    match extract_checked(&dom, None, None, &policy) {
        Err(ExtrablattError::IncompleteArticle { article }) => {
            assert_eq!(article.title, None);
        }
        other => panic!("expected an incomplete-article error, got {:?}", other.is_ok()),
    }
}

#[test]
fn opaque_base_url_rejected() {
    let html = "<html><body></body></html>";
    let dom = read_document(html).unwrap();
    let b = base("data:text/plain,hello");
    let policy = CompletenessPolicy::default();
    match extract_checked(&dom, Some(&b), None, &policy) {
        Err(ExtrablattError::BaseUrlInvalid { url }) => {
            assert_eq!(url, "data:text/plain,hello");
        }
        _ => panic!("expected a base-url error"),
    }
}

#[test]
fn date_policy_without_url_fails() {
    let html = "<html><body></body></html>";
    let dom = read_document(html).unwrap();
    let policy = CompletenessPolicy { require_title: false, require_text: false, require_date: true };
    match extract_checked(&dom, None, None, &policy) {
        Err(ExtrablattError::UrlNotInitialized) => {}
        _ => panic!("expected a missing-url error"),
    }
}
