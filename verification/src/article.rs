//! Assembling the extracted article: every field extractor run over one
//! document with an optional base URL, the completeness check, and the
//! errors the engine can surface.

use vstd::prelude::*;

use crate::chars::{spec_trim, string_from_chars, trim};
use crate::date::{spec_publishing_date, ArticleDate};
use crate::dom::{Dom, DomView};
use crate::lang::Language;
use crate::meta::spec_meta_content;
use crate::parse::{parsed_nodes, read_document};
use crate::score::{article_node, spec_article_node};
use crate::split::{spec_split_keep, split_keep};
use crate::text::{spec_extract_clean_text, spec_post_process_text};
use crate::title::spec_title;
use crate::urls::{
    base_view, spec_all_urls, spec_canonical_link, spec_meta_img_url, spec_meta_thumbnail_url,
    spec_references, AbsUrl, article_images_upto, favicon_from, url_cannot_be_base,
};
use crate::video::{spec_video_nodes, VideoNode};

verus! {

/// An extracted article.
pub struct Article {
    /// The base URL the article was extracted for.
    pub url: Option<String>,
    /// The title.
    pub title: Option<String>,
    /// The authors, deduplicated and sorted by lowercase form.
    pub authors: Vec<String>,
    /// The publishing date.
    pub publishing_date: Option<ArticleDate>,
    /// The cleaned body text; absent when no body node exists.
    pub text: Option<String>,
    /// The document language.
    pub language: Option<Language>,
    /// The top image the site states.
    pub top_img: Option<String>,
    /// The thumbnail.
    pub thumbnail: Option<String>,
    /// The favicon, resolved against the base URL.
    pub favicon: Option<String>,
    /// Images under the article node.
    pub images: Vec<String>,
    /// Video nodes under the article node.
    pub videos: Vec<VideoNode>,
    /// The canonical URL.
    pub canonical: Option<String>,
    /// Distinct links under the article node.
    pub references: Vec<String>,
    /// The comma-separated meta keywords.
    pub meta_keywords: Vec<String>,
    /// The meta description.
    pub meta_description: Option<String>,
    /// Every distinct trimmed link of the document, first-seen order.
    pub all_urls: Vec<String>,
}

/// All different error kinds this engine surfaces.
pub enum ExtrablattError {
    /// The HTML could not be read into a document.
    ReadDocumentError,
    /// An extractor needed a URL but none was given.
    UrlNotInitialized,
    /// The supplied URL cannot serve as a base.
    BaseUrlInvalid {
        /// The offending URL.
        url: String,
    },
    /// The article misses fields the policy requires; carries the partial
    /// article.
    IncompleteArticle {
        /// The found article and its content.
        article: Box<Article>,
    },
}

/// Which fields an article must have to count as complete.
pub struct CompletenessPolicy {
    pub require_title: bool,
    pub require_text: bool,
    pub require_date: bool,
}

impl Default for CompletenessPolicy {
    /// The default policy requires nothing.
    fn default() -> (r: CompletenessPolicy)
        ensures
            !r.require_title && !r.require_text && !r.require_date,
    {
        CompletenessPolicy { require_title: false, require_text: false, require_date: false }
    }
}

/// The ghost view of an optional string field.
pub open spec fn opt_view(o: Option<String>) -> Option<Seq<char>> {
    match o {
        Some(s) => Some(s@),
        None => None,
    }
}

/// The keywords a comma-separated meta content yields: trimmed non-empty
/// pieces, in order.
pub open spec fn keywords_of_upto(pieces: Seq<Seq<char>>, k: int) -> Seq<Seq<char>>
    decreases k,
{
    if k <= 0 {
        Seq::empty()
    } else {
        keywords_of_upto(pieces, k - 1) + if spec_trim(pieces[k - 1]).len() > 0 {
            seq![spec_trim(pieces[k - 1])]
        } else {
            Seq::empty()
        }
    }
}

/// The meta keywords of the document: the `keywords` meta content split
/// on commas, trimmed, empty pieces dropped.
pub open spec fn spec_meta_keywords(d: DomView) -> Seq<Seq<char>> {
    match spec_meta_content(d, "name"@, "keywords"@) {
        Some(c) => {
            let pieces = spec_split_keep(c, ","@);
            keywords_of_upto(pieces, pieces.len() as int)
        },
        None => Seq::empty(),
    }
}

/// Extract the meta keywords.
pub fn meta_keywords(dom: &Dom) -> (r: Vec<String>)
    ensures
        r@.map_values(|s: String| s@) == spec_meta_keywords(dom@),
{
    match dom.meta_content("name", "keywords") {
        Some(c) => {
            proof {
                reveal_strlit(",");
            }
            let comma = crate::chars::chars_of(",");
            let pieces = split_keep(c.as_slice(), comma.as_slice());
            let ghost pv = spec_split_keep(c@, ","@);
            let mut out: Vec<String> = Vec::new();
            let mut k: usize = 0;
            while k < pieces.len()
                invariant
                    k <= pieces@.len(),
                    pieces.deep_view() == pv,
                    pieces@.len() == pv.len(),
                    out@.map_values(|s: String| s@) == keywords_of_upto(pv, k as int),
                decreases pieces.len() - k,
            {
                proof {
                    assert(pieces.deep_view()[k as int] == pieces@[k as int]@);
                }
                let t = trim(pieces[k].as_slice());
                if t.len() > 0 {
                    let ghost old_o = out@.map_values(|s: String| s@);
                    let s = string_from_chars(t.as_slice());
                    out.push(s);
                    proof {
                        assert(out@.map_values(|s: String| s@) =~~= old_o.push(
                            spec_trim(pv[k as int]),
                        ));
                        assert(old_o + seq![spec_trim(pv[k as int])] =~~= old_o.push(
                            spec_trim(pv[k as int]),
                        ));
                    }
                } else {
                    proof {
                        assert(out@.map_values(|s: String| s@) + Seq::<Seq<char>>::empty()
                            =~~= out@.map_values(|s: String| s@));
                    }
                }
                k = k + 1;
            }
            out
        },
        None => Vec::new(),
    }
}

/// The language the scorer uses: the caller's hint, or the default.
pub open spec fn scoring_lang(hint: Option<Language>) -> Language {
    match hint {
        Some(l) => l,
        None => Language::English,
    }
}

/// What every field of an extracted article holds, as one predicate over
/// the ghost document.
pub open spec fn article_matches(
    a: Article,
    d: DomView,
    base: Option<Seq<char>>,
    lang: Language,
) -> bool {
    &&& opt_view(a.url) == base
    &&& opt_view(a.title) == spec_title(d)
    &&& a.authors@.map_values(|s: String| s@) == crate::authors::spec_authors(d)
    &&& a.publishing_date == spec_publishing_date(d, base)
    &&& match spec_article_node(d, lang) {
        Some(sel) => opt_view(a.text) == Some(
            spec_post_process_text(spec_extract_clean_text(d, sel.0)),
        ) && a.images@.map_values(|s: String| s@) == article_images_upto(
            d,
            sel.0,
            base,
            d.len() as int,
        ) && a.references@.map_values(|s: String| s@) == spec_references(d, sel.0)
            && a.videos@.map_values(|v: VideoNode| v.node as int) == spec_video_nodes(d, sel.0)
            && (forall|k: int|
            0 <= k < a.videos@.len() ==> crate::video::video_node_for(
                d,
                #[trigger] a.videos@[k],
                a.videos@[k].node as int,
            )),
        None => a.text is None && a.images@.len() == 0 && a.references@.len() == 0
            && a.videos@.len() == 0,
    }
    &&& match a.language {
        Some(l) => crate::meta::spec_meta_language(d) == Some(l@),
        None => crate::meta::spec_meta_language(d) is None,
    }
    &&& opt_view(a.top_img) == spec_meta_img_url(d, base)
    &&& opt_view(a.thumbnail) == spec_meta_thumbnail_url(d, base)
    &&& opt_view(a.favicon) == (match base {
        Some(b) => favicon_from(d, b, 0),
        None => None,
    })
    &&& opt_view(a.canonical) == spec_canonical_link(d)
    &&& a.meta_keywords@.map_values(|s: String| s@) == spec_meta_keywords(d)
    &&& opt_view(a.meta_description) == spec_meta_content(d, "name"@, "description"@)
    &&& a.all_urls@.map_values(|s: String| s@) == spec_all_urls(d)
}

fn abs_url_texts(v: &Vec<AbsUrl>) -> (r: Vec<String>)
    ensures
        r@.map_values(|s: String| s@) == v@.map_values(|u: AbsUrl| u@),
{
    let mut r: Vec<String> = Vec::new();
    let mut k: usize = 0;
    while k < v.len()
        invariant
            k <= v@.len(),
            r@.map_values(|s: String| s@) == v@.map_values(|u: AbsUrl| u@).subrange(
                0,
                k as int,
            ),
        decreases v.len() - k,
    {
        let ghost old_r = r@.map_values(|s: String| s@);
        let cs = crate::chars::chars_of(v[k].as_str());
        let s = string_from_chars(cs.as_slice());
        r.push(s);
        proof {
            assert(r@.map_values(|s: String| s@) =~~= old_r.push(v@[k as int]@));
            assert(old_r.push(v@[k as int]@) =~~= v@.map_values(
                |u: AbsUrl| u@,
            ).subrange(0, k + 1 as int));
        }
        k = k + 1;
    }
    proof {
        let m = v@.map_values(|u: AbsUrl| u@);
        assert(m.subrange(0, m.len() as int) =~= m);
    }
    r
}

/// Extracts an article from a parsed document: every field extractor is
/// run over the document against the optional base URL; the scorer uses
/// the caller's language hint or the default.
pub fn extract(dom: &Dom, base: Option<&AbsUrl>, lang_hint: Option<Language>) -> (a: Article)
    ensures
        article_matches(a, dom@, base_view(base), scoring_lang(lang_hint)),
{
    let lang: Language = match lang_hint {
        Some(l) => l,
        None => Language::default(),
    };
    proof {
        assert(lang == scoring_lang(lang_hint));
    }
    let url: Option<String> = match &base {
        Some(b) => {
            let cs = crate::chars::chars_of(b.as_str());
            Some(string_from_chars(cs.as_slice()))
        },
        None => None,
    };
    let title: Option<String> = match crate::title::title(dom) {
        Some(t) => Some(string_from_chars(t.as_slice())),
        None => None,
    };
    let authors = dom.authors();
    let publishing_date = crate::date::publishing_date(dom, base);
    let node = article_node(dom, &lang);
    let (text, images, references, videos): (
        Option<String>,
        Vec<String>,
        Vec<String>,
        Vec<VideoNode>,
    ) = match &node {
        Some(sel) => {
            let t = sel.clean_text(dom);
            let imgs = sel.images(dom, base);
            let refs = sel.references(dom);
            let vids = sel.videos(dom);
            (
                Some(string_from_chars(t.as_slice())),
                abs_url_texts(&imgs),
                abs_url_texts(&refs),
                vids,
            )
        },
        None => (None, Vec::new(), Vec::new(), Vec::new()),
    };
    let language = crate::meta::meta_language(dom);
    let top_img: Option<String> = match crate::urls::meta_img_url(dom, base) {
        Some(u) => {
            let cs = crate::chars::chars_of(u.as_str());
            Some(string_from_chars(cs.as_slice()))
        },
        None => None,
    };
    let thumbnail: Option<String> = match crate::urls::meta_thumbnail_url(dom, base) {
        Some(u) => {
            let cs = crate::chars::chars_of(u.as_str());
            Some(string_from_chars(cs.as_slice()))
        },
        None => None,
    };
    let favicon: Option<String> = match &base {
        Some(b) => match crate::urls::favicon(dom, b) {
            Some(u) => {
                let cs = crate::chars::chars_of(u.as_str());
                Some(string_from_chars(cs.as_slice()))
            },
            None => None,
        },
        None => None,
    };
    let canonical: Option<String> = match crate::urls::canonical_link(dom) {
        Some(u) => {
            let cs = crate::chars::chars_of(u.as_str());
            Some(string_from_chars(cs.as_slice()))
        },
        None => None,
    };
    let meta_keywords = meta_keywords(dom);
    let meta_description: Option<String> = match dom.meta_content("name", "description") {
        Some(c) => Some(string_from_chars(c.as_slice())),
        None => None,
    };
    let all_urls = crate::urls::all_urls(dom);
    Article {
        url,
        title,
        authors,
        publishing_date,
        text,
        language,
        top_img,
        thumbnail,
        favicon,
        images,
        videos,
        canonical,
        references,
        meta_keywords,
        meta_description,
        all_urls,
    }
}

/// Whether the article misses a field the policy requires.
pub open spec fn spec_incomplete(a: Article, policy: CompletenessPolicy) -> bool {
    (policy.require_title && a.title is None) || (policy.require_text && a.text is None) || (
    policy.require_date && a.publishing_date is None)
}

/// Extracts an article and holds it to the base URL and completeness
/// policy: a base that cannot serve as one is rejected; a policy that
/// requires a date on a document without one needs a URL for the path
/// fallback; an article missing required fields is handed back inside the
/// error.
pub fn extract_checked(
    dom: &Dom,
    base: Option<&AbsUrl>,
    lang_hint: Option<Language>,
    policy: &CompletenessPolicy,
) -> (r: Result<Article, ExtrablattError>)
    ensures
        match r {
            Ok(a) => article_matches(a, dom@, base_view(base), scoring_lang(lang_hint))
                && !spec_incomplete(a, *policy) && (base_view(base) matches Some(b)
                ==> !url_cannot_be_base(b)),
            Err(e) => match e {
                ExtrablattError::BaseUrlInvalid { url } => base_view(base) == Some(url@)
                    && url_cannot_be_base(url@),
                ExtrablattError::UrlNotInitialized => base is None && policy.require_date
                    && crate::date::spec_date_from_doc(dom@) is None,
                ExtrablattError::IncompleteArticle { article } => article_matches(
                    *article,
                    dom@,
                    base_view(base),
                    scoring_lang(lang_hint),
                ) && spec_incomplete(*article, *policy),
                _ => false,
            },
        },
{
    match &base {
        Some(b) => {
            if b.cannot_be_a_base() {
                let cs = crate::chars::chars_of(b.as_str());
                return Err(
                    ExtrablattError::BaseUrlInvalid { url: string_from_chars(cs.as_slice()) },
                );
            }
        },
        None => {},
    }
    if policy.require_date {
        match crate::date::extract_from_doc(dom) {
            Some(_) => {},
            None => {
                match &base {
                    Some(_) => {},
                    None => {
                        return Err(ExtrablattError::UrlNotInitialized);
                    },
                }
            },
        }
    }
    let article = extract(dom, base, lang_hint);
    let incomplete = (policy.require_title && article.title.is_none()) || (policy.require_text
        && article.text.is_none()) || (policy.require_date && article.publishing_date.is_none());
    if incomplete {
        Err(ExtrablattError::IncompleteArticle { article: Box::new(article) })
    } else {
        Ok(article)
    }
}

/// Reads the HTML and extracts an article from it: the engine's whole
/// pipeline behind one call.
pub fn extract_from_html(
    html: &str,
    base: Option<&AbsUrl>,
    lang_hint: Option<Language>,
    policy: &CompletenessPolicy,
) -> (r: Result<Article, ExtrablattError>)
    ensures
        match r {
            Ok(a) => crate::dom::spec_wf(parsed_nodes(html@)) && article_matches(
                a,
                parsed_nodes(html@),
                base_view(base),
                scoring_lang(lang_hint),
            ) && !spec_incomplete(a, *policy),
            Err(e) => match e {
                ExtrablattError::ReadDocumentError => !crate::dom::spec_wf(parsed_nodes(html@)),
                ExtrablattError::BaseUrlInvalid { url } => base_view(base) == Some(url@)
                    && url_cannot_be_base(url@),
                ExtrablattError::UrlNotInitialized => base is None && policy.require_date
                    && crate::date::spec_date_from_doc(parsed_nodes(html@)) is None,
                ExtrablattError::IncompleteArticle { article } => article_matches(
                    *article,
                    parsed_nodes(html@),
                    base_view(base),
                    scoring_lang(lang_hint),
                ) && spec_incomplete(*article, *policy),
            },
        },
{
    match read_document(html) {
        Some(dom) => extract_checked(&dom, base, lang_hint, policy),
        None => Err(ExtrablattError::ReadDocumentError),
    }
}

} // verus!
