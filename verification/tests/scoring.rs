//! Body-node selection: the fast paths, the filters and the exact scores.

use extrablatt::article::extract;
use extrablatt::dom::{Dom, DomNode, NodeData};
use extrablatt::lang::Language;
use extrablatt::parse::read_document;
use extrablatt::score::article_node;
use extrablatt::text::Confidence;

const BODY_SENTENCE: &str =
    "the cat and the dog and the fox and the hen ran far away today because it was time for all of us";

#[test]
fn no_body_yields_no_text() {
    let nodes = vec![DomNode { parent: None, data: NodeData::Text("just text".chars().collect()) }];
    let dom = Dom::new(nodes).unwrap();
    assert!(article_node(&dom, &Language::English).is_none());
    let article = extract(&dom, None, None);
    assert_eq!(article.text, None);
}

#[test]
fn itemprop_article_body_wins_with_high_confidence() {
    // two selector matches, so the unique-selector path does not fire and
    // the scorer's fast path hands out its own confidence
    let html = format!(
        "<html><body><div id=\"content\">filler</div>\
         <div itemprop=\"articleBody\"><p>{}</p></div></body></html>",
        BODY_SENTENCE
    );
    let dom = read_document(&html).unwrap();
    let node = article_node(&dom, &Language::English).unwrap();
    assert_eq!(node.confidence, Confidence { num: 95, den: 100 });
    assert!(node.confidence.at_least_hundredths(95));
    let article = extract(&dom, None, None);
    assert_eq!(article.text.as_deref(), Some(BODY_SENTENCE));
}

#[test]
fn unique_selector_match_is_certain() {
    let html = format!(
        "<html><body><div itemprop=\"articleBody\"><p>{}</p></div></body></html>",
        BODY_SENTENCE
    );
    let dom = read_document(&html).unwrap();
    let node = article_node(&dom, &Language::English).unwrap();
    assert_eq!(node.confidence, Confidence { num: 1, den: 1 });
}

#[test]
fn exact_score_of_single_paragraph() {
    // candidates: the <article> (stopwords 7, tag bonus 10, word count 22)
    // and the <p> (stopwords 7, no bonus); the parent <body> collects
    // 17 + floor(2 * 17 / 5)... the sums decide the selection and the
    // confidence is best sum over ten times the survivor count
    let html = format!("<html><body><article><p>{}</p></article></body></html>", BODY_SENTENCE);
    let dom = read_document(&html).unwrap();
    let node = article_node(&dom, &Language::English).unwrap();
    let sentence: Vec<char> = BODY_SENTENCE.chars().collect();
    let stats = Language::English.stopword_count(&sentence).unwrap();
    let upscore_article = stats.stopword_count as u64 + 10 + stats.word_count as u64 / 100;
    let upscore_p = stats.stopword_count as u64 + stats.word_count as u64 / 100;
    let body_sum = upscore_article + 2 * upscore_p / 5;
    let article_sum = upscore_p + 2 * upscore_article / 5;
    let best = if body_sum >= article_sum { body_sum } else { article_sum };
    assert_eq!(node.confidence, Confidence { num: best.min(20), den: 20 });
}

#[test]
fn link_heavy_candidate_never_selected() {
    // the second paragraph has the higher stopword count but sits entirely
    // inside a link, so only the first drives the selection
    let linked = "the and the and the and the and the and the and the and the and the and the and";
    let html = format!(
        "<html><body><section><article><p>{}</p></article></section>\
         <section><div class=\"story-part\"><p><a href=\"https://e/x\">{} {}</a></p></div></section>\
         </body></html>",
        BODY_SENTENCE, linked, linked
    );
    let dom = read_document(&html).unwrap();
    let article = extract(&dom, None, None);
    let text = article.text.unwrap();
    assert_eq!(text, BODY_SENTENCE);
}

#[test]
fn short_candidates_never_reach_scoring() {
    let html = "<html><body><article><p>the cat and the dog sat</p></article></body></html>";
    let dom = read_document(html).unwrap();
    let survivors = dom.survivors(&Language::English);
    assert!(survivors.is_empty());
}

#[test]
fn language_without_stopwords_scores_nothing() {
    let html = format!("<html><body><article><p>{}</p></article></body></html>", BODY_SENTENCE);
    let dom = read_document(&html).unwrap();
    let survivors = dom.survivors(&Language::Russian);
    assert!(survivors.is_empty());
    // the scorer still selects a node, at zero confidence
    let node = article_node(&dom, &Language::Russian).unwrap();
    assert_eq!(node.confidence, Confidence { num: 0, den: 1 });
}

#[test]
fn word_statistics_are_exact() {
    let text: Vec<char> = "the cat and the dog".chars().collect();
    let stats = Language::English.stopword_count(&text).unwrap();
    assert_eq!(stats.word_count, 5);
    assert_eq!(stats.stopword_count, 3);
    assert_eq!(stats.word_char_sum, 15);
    assert!(Language::Russian.stopword_count(&text).is_none());
}

#[test]
fn confidence_threshold_comparison() {
    let c = Confidence { num: 19, den: 20 };
    assert!(c.at_least_hundredths(95));
    assert!(!c.at_least_hundredths(96));
    let zero = Confidence { num: 0, den: 1 };
    assert!(zero.at_least_hundredths(0));
    assert!(!zero.at_least_hundredths(1));
}

#[test]
fn long_candidate_lists_still_select_the_body() {
    // more than fifteen survivors drives the positional boost of the tail
    let mut paras = String::new();
    for _ in 0..18 {
        paras.push_str(&format!("<p>{}</p>", BODY_SENTENCE));
    }
    let html = format!("<html><body><article>{}</article></body></html>", paras);
    let dom = read_document(&html).unwrap();
    assert!(dom.survivors(&Language::English).len() > 15);
    let article = extract(&dom, None, None);
    let mut expected = String::new();
    for k in 0..18 {
        if k > 0 {
            expected.push(' ');
        }
        expected.push_str(BODY_SENTENCE);
    }
    assert_eq!(article.text.as_deref(), Some(expected.as_str()));
}

#[test]
fn div_candidates_by_any_id_keyword() {
    for id in ["my-post", "entry-9", "paragraph-block"] {
        let html = format!(
            "<html><body><div id=\"{}\">{}</div></body></html>",
            id, BODY_SENTENCE
        );
        let dom = read_document(&html).unwrap();
        assert!(!dom.survivors(&Language::English).is_empty());
    }
    let html = format!("<html><body><div id=\"plain\">{}</div></body></html>", BODY_SENTENCE);
    let dom = read_document(&html).unwrap();
    assert!(dom.survivors(&Language::English).is_empty());
}
