//! The text-cleaning pipeline and hand-built documents.

use extrablatt::article::extract;
use extrablatt::dom::{Dom, DomNode, NodeData};
use extrablatt::lang::Language;
use extrablatt::parse::read_document;
use extrablatt::score::article_node;
use extrablatt::text::post_process_text;

fn chars(s: &str) -> Vec<char> {
    s.chars().collect()
}

fn s(v: &[char]) -> String {
    v.iter().collect()
}

fn elem(parent: Option<usize>, tag: &str, attrs: &[(&str, &str)]) -> DomNode {
    DomNode {
        parent,
        data: NodeData::Element {
            tag: chars(tag),
            attrs: attrs.iter().map(|(k, v)| (chars(k), chars(v))).collect(),
        },
    }
}

fn text(parent: Option<usize>, t: &str) -> DomNode {
    DomNode { parent, data: NodeData::Text(chars(t)) }
}

#[test]
fn post_processing_drops_blank_code_and_symbol_lines() {
    let input = "A good line of text\n\nx=1;y=2;\n$$$ %% !!\nanother fine line of prose\u{a0}here";
    let out = post_process_text(&chars(input));
    assert_eq!(s(&out), "A good line of text\nanother fine line of prose here");
}

#[test]
fn no_break_spaces_become_spaces() {
    let out = post_process_text(&chars("alpha\u{a0}beta"));
    assert_eq!(s(&out), "alpha beta");
}

#[test]
fn dom_rejects_forward_parent_links() {
    let nodes = vec![
        DomNode { parent: Some(1), data: NodeData::Other },
        DomNode { parent: None, data: NodeData::Other },
    ];
    assert!(Dom::new(nodes).is_none());
}

#[test]
fn hand_built_document_extracts_like_parsed_one() {
    // html > body > article > p > text
    let long = "the cat and the dog and the fox and the hen ran far away today because it was time";
    let nodes = vec![
        elem(None, "html", &[]),
        elem(Some(0), "body", &[]),
        elem(Some(1), "article", &[]),
        elem(Some(2), "p", &[]),
        text(Some(3), long),
    ];
    let dom = Dom::new(nodes).unwrap();
    let node = article_node(&dom, &Language::English).unwrap();
    let cleaned = node.clean_text(&dom);
    assert_eq!(s(&cleaned), long);
}

#[test]
fn noise_subtrees_are_pruned_from_text() {
    let long = "the cat and the dog and the fox and the hen ran far away today because it was time";
    let html = format!(
        "<html><body><article><p>{}</p>\
         <div class=\"sidebar-widget\"><p>{}</p></div>\
         </article></body></html>",
        long, long
    );
    let dom = read_document(&html).unwrap();
    let article = extract(&dom, None, None);
    assert_eq!(article.text.as_deref(), Some(long));
}

#[test]
fn keywords_and_description() {
    let html = "<html><head>\
                <meta name=\"keywords\" content=\" alpha , beta,, gamma \">\
                <meta name=\"description\" content=\"a summary\">\
                </head><body></body></html>";
    let dom = read_document(html).unwrap();
    let article = extract(&dom, None, None);
    assert_eq!(
        article.meta_keywords,
        vec!["alpha".to_string(), "beta".to_string(), "gamma".to_string()]
    );
    assert_eq!(article.meta_description.as_deref(), Some("a summary"));
}

#[test]
fn extraction_is_repeatable() {
    let long = "the cat and the dog and the fox and the hen ran far away today because it was time";
    let html = format!(
        "<html lang=\"en\"><head><title>T | U</title></head>\
         <body><article><p>{}</p></article></body></html>",
        long
    );
    let d1 = read_document(&html).unwrap();
    let d2 = read_document(&html).unwrap();
    let a1 = extract(&d1, None, None);
    let a2 = extract(&d2, None, None);
    assert_eq!(a1.title, a2.title);
    assert_eq!(a1.text, a2.text);
    assert_eq!(a1.authors, a2.authors);
    assert_eq!(a1.all_urls, a2.all_urls);
    assert_eq!(a1.publishing_date, a2.publishing_date);
}
