//! The whole pipeline behind one call, and the article-node collections.

use extrablatt::article::{extract, extract_from_html, CompletenessPolicy};
use extrablatt::lang::Language;
use extrablatt::parse::read_document;
use extrablatt::score::article_node;
use extrablatt::urls::resolve_url;

const BODY_SENTENCE: &str =
    "the cat and the dog and the fox and the hen ran far away today because it was time for all of us";

#[test]
fn html_to_article_in_one_call() {
    let html = format!(
        "<html lang=\"en\"><head><title>Big Important News | Daily</title></head>\
         <body><article><p>{}</p></article></body></html>",
        BODY_SENTENCE
    );
    let b = resolve_url(None, "https://daily.example/a").unwrap();
    let policy = CompletenessPolicy { require_title: true, require_text: true, require_date: false };
    let article = match extract_from_html(&html, Some(&b), None, &policy) {
        Ok(a) => a,
        Err(_) => panic!("expected a complete article"),
    };
    assert_eq!(article.title.as_deref(), Some("Big Important News"));
    assert_eq!(article.text.as_deref(), Some(BODY_SENTENCE));
    assert_eq!(article.language, Some(Language::English));
}

#[test]
fn article_images_resolved_and_filtered() {
    let html = format!(
        "<html><body><article itemprop=\"articleBody\"><p>{}</p>\
         <img src=\"/pic.png\">\
         <img data-src=\"other.png\">\
         <img src=\"\">\
         <figure><img src=\"/caption.png\"></figure>\
         </article></body></html>",
        BODY_SENTENCE
    );
    let dom = read_document(&html).unwrap();
    let b = resolve_url(None, "https://x/dir/").unwrap();
    let article = extract(&dom, Some(&b), None);
    assert_eq!(
        article.images,
        vec!["https://x/pic.png".to_string(), "https://x/dir/other.png".to_string()]
    );
}

#[test]
fn article_references_deduplicated_and_absolute() {
    let html = format!(
        "<html><body><article itemprop=\"articleBody\"><p>{}</p>\
         <a href=\"https://r/1\">one</a>\
         <a href=\"https://r/1\">one again</a>\
         <a href=\"relative/skipped\">rel</a>\
         <a href=\"https://r/2\">two</a>\
         </article></body></html>",
        BODY_SENTENCE
    );
    let dom = read_document(&html).unwrap();
    let article = extract(&dom, None, None);
    assert_eq!(article.references, vec!["https://r/1".to_string(), "https://r/2".to_string()]);
}

#[test]
fn selector_fast_path_beats_scoring() {
    // the marked node is chosen even though another subtree has far more
    // prose
    let html = format!(
        "<html><body>\
         <section><p>{}</p><p>{}</p></section>\
         <div data-testid=\"article-body\"><p>{}</p></div>\
         </body></html>",
        BODY_SENTENCE, BODY_SENTENCE, BODY_SENTENCE
    );
    let dom = read_document(&html).unwrap();
    let node = article_node(&dom, &Language::English).unwrap();
    let text: String = node.clean_text(&dom).iter().collect();
    assert_eq!(text, BODY_SENTENCE);
}
