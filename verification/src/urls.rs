//! URLs: parsing and resolution through the `url` crate behind named
//! results, and the link, image, favicon, canonical and thumbnail
//! extractors.

use vstd::prelude::*;

use crate::chars::{clone_chars, slice_eq, spec_trim, string_from_chars, trim};
use crate::dom::{attr_of, is_anc, tag_is, Dom, DomView};
use crate::meta::spec_meta_content;
use crate::noise::spec_is_noise_node;
use crate::text::ArticleTextNode;

verus! {

#[verifier::external_type_specification]
#[verifier::external_body]
pub struct ExUrl(url::Url);

/// What resolving `rel` against the (serialized) base yields: the
/// serialization of the resolved URL, or nothing when parsing fails. A
/// function of the two texts alone.
pub uninterp spec fn url_resolve(base: Option<Seq<char>>, rel: Seq<char>) -> Option<Seq<char>>;

/// The path component of a parsed URL's serialization.
pub uninterp spec fn url_path_of(u: Seq<char>) -> Seq<char>;

/// Whether a parsed URL cannot serve as a base.
pub uninterp spec fn url_cannot_be_base(u: Seq<char>) -> bool;

/// A parsed absolute URL, carrying its serialization. The fields stay
/// private: only the trusted constructor below builds a value, so `text`
/// is always the serialization of `url`, and the ghost view below is that
/// serialization.
pub struct AbsUrl {
    url: url::Url,
    text: String,
}

impl View for AbsUrl {
    type V = Seq<char>;

    closed spec fn view(&self) -> Seq<char> {
        self.text@
    }
}

impl AbsUrl {
    /// The serialization of the URL.
    pub fn as_str(&self) -> (r: &str)
        ensures
            r@ == self@,
    {
        self.text.as_str()
    }
}

/// The serialized base, at the ghost level.
pub open spec fn base_view(base: Option<&AbsUrl>) -> Option<Seq<char>> {
    match base {
        Some(b) => Some(b@),
        None => None,
    }
}

/// Relies on `url::ParseOptions::parse` (through `Url::options`): parses
/// `s`, resolving it against the base when one is given, exactly as
/// `Url::parse` and `Url::join` do; the result is a function of the two
/// texts alone.
#[verifier::external_body]
pub fn resolve_url(base: Option<&AbsUrl>, s: &str) -> (r: Option<AbsUrl>)
    ensures
        match r {
            Some(u) => url_resolve(base_view(base), s@) == Some(u@),
            None => url_resolve(base_view(base), s@) is None,
        },
{
    let b = match &base {
        Some(u) => Some(&u.url),
        None => None,
    };
    match url::Url::options().base_url(b).parse(s) {
        Ok(u) => {
            let text = u.as_str().to_string();
            Some(AbsUrl { url: u, text })
        },
        Err(_) => None,
    }
}

impl AbsUrl {
    /// Relies on `url::Url::path`: the path component, a function of the
    /// URL alone.
    #[verifier::external_body]
    pub fn path(&self) -> (r: String)
        ensures
            r@ == url_path_of(self@),
    {
        self.url.path().to_string()
    }

    /// Relies on `url::Url::cannot_be_a_base`: whether the URL can serve
    /// as a base, a function of the URL alone.
    #[verifier::external_body]
    pub fn cannot_be_a_base(&self) -> (r: bool)
        ensures
            r == url_cannot_be_base(self@),
    {
        self.url.cannot_be_a_base()
    }
}

/// A serialization some resolution produced: what it means for a stored
/// URL field to be absolute.
pub open spec fn resolved_url(s: Seq<char>) -> bool {
    exists|base: Option<Seq<char>>, rel: Seq<char>| url_resolve(base, rel) == Some(s)
}

/// Resolves a char-slice URL reference against an optional base.
pub fn resolve_chars(base: Option<&AbsUrl>, s: &[char]) -> (r: Option<AbsUrl>)
    ensures
        match r {
            Some(u) => url_resolve(base_view(base), s@) == Some(u@) && resolved_url(u@),
            None => url_resolve(base_view(base), s@) is None,
        },
{
    let owned = string_from_chars(s);
    let r = resolve_url(base, owned.as_str());
    proof {
        match &r {
            Some(u) => {
                assert(url_resolve(base_view(base), s@) == Some(u@));
            },
            None => {},
        }
    }
    r
}

/// The trimmed `href` values of every `<a>` of the document, among nodes
/// `< j`.
pub open spec fn hrefs_upto(d: DomView, j: int) -> Seq<Seq<char>>
    decreases j,
{
    if j <= 0 {
        Seq::empty()
    } else {
        hrefs_upto(d, j - 1) + if tag_is(d, j - 1, "a"@) && attr_of(d, j - 1, "href"@) is Some {
            seq![spec_trim(attr_of(d, j - 1, "href"@)->0)]
        } else {
            Seq::empty()
        }
    }
}

/// First-seen deduplication by exact value.
pub open spec fn dedup_exact(s: Seq<Seq<char>>, k: int) -> Seq<Seq<char>>
    decreases k,
{
    if k <= 0 {
        Seq::empty()
    } else {
        let prev = dedup_exact(s, k - 1);
        if prev.contains(s[k - 1]) {
            prev
        } else {
            prev + seq![s[k - 1]]
        }
    }
}

/// The distinct trimmed `href` values of every `<a>`, in first-seen
/// order.
pub open spec fn spec_all_urls(d: DomView) -> Seq<Seq<char>> {
    let hs = hrefs_upto(d, d.len() as int);
    dedup_exact(hs, hs.len() as int)
}

/// Extract the trimmed `href` of every `<a>` tag of the document,
/// deduplicated preserving first-seen order.
pub fn all_urls(dom: &Dom) -> (r: Vec<String>)
    ensures
        r@.map_values(|s: String| s@) == spec_all_urls(dom@),
{
    let n = dom.len();
    let mut hrefs: Vec<Vec<char>> = Vec::new();
    let mut j: usize = 0;
    while j < n
        invariant
            j <= n,
            n == dom@.len(),
            hrefs.deep_view() == hrefs_upto(dom@, j as int),
        decreases n - j,
    {
        let mut pushed = false;
        if dom.tag_is(j, "a") {
            match dom.attr(j, "href") {
                Some(h) => {
                    let t = trim(h.as_slice());
                    let ghost old_h = hrefs.deep_view();
                    hrefs.push(t);
                    pushed = true;
                    proof {
                        assert(hrefs.deep_view() =~~= old_h.push(
                            spec_trim(attr_of(dom@, j as int, "href"@)->0),
                        ));
                        assert(old_h + seq![spec_trim(attr_of(dom@, j as int, "href"@)->0)]
                            =~~= old_h.push(spec_trim(attr_of(dom@, j as int, "href"@)->0)));
                    }
                },
                None => {},
            }
        }
        proof {
            if !pushed {
                assert(hrefs.deep_view() + Seq::<Seq<char>>::empty() =~~= hrefs.deep_view());
            }
        }
        j = j + 1;
    }
    let ghost hv = hrefs_upto(dom@, dom@.len() as int);
    let mut out: Vec<String> = Vec::new();
    let mut seen: Vec<Vec<char>> = Vec::new();
    let mut k: usize = 0;
    while k < hrefs.len()
        invariant
            k <= hrefs@.len(),
            hrefs.deep_view() == hv,
            hrefs@.len() == hv.len(),
            seen.deep_view() == dedup_exact(hv, k as int),
            out@.map_values(|s: String| s@) == dedup_exact(hv, k as int),
        decreases hrefs.len() - k,
    {
        proof {
            assert(hrefs.deep_view()[k as int] == hrefs@[k as int]@);
        }
        let h = &hrefs[k];
        let mut dup = false;
        let mut x: usize = 0;
        while x < seen.len()
            invariant
                x <= seen@.len(),
                h@ == hv[k as int],
                seen.deep_view() == dedup_exact(hv, k as int),
                seen@.len() == seen.deep_view().len(),
                dup == exists|y: int|
                    0 <= y < x && #[trigger] seen.deep_view()[y] == hv[k as int],
            decreases seen.len() - x,
        {
            proof {
                assert(seen.deep_view()[x as int] == seen@[x as int]@);
            }
            if !dup && slice_eq(seen[x].as_slice(), h.as_slice()) {
                dup = true;
            }
            x = x + 1;
        }
        proof {
            assert(dup == dedup_exact(hv, k as int).contains(hv[k as int]));
        }
        if !dup {
            let ghost old_s = seen.deep_view();
            let ghost old_o = out@.map_values(|s: String| s@);
            let copied = clone_chars(h.as_slice());
            let s = string_from_chars(copied.as_slice());
            seen.push(copied);
            out.push(s);
            proof {
                assert(seen.deep_view() =~~= old_s.push(hv[k as int]));
                assert(old_s + seq![hv[k as int]] =~~= old_s.push(hv[k as int]));
                assert(out@.map_values(|s: String| s@) =~~= old_o.push(hv[k as int]));
            }
        }
        k = k + 1;
    }
    out
}

/// The serialized resolutions of the `src` (else `data-src`) of every
/// `<img>` against the base, among nodes `< j`, trimmed, parse failures
/// dropped.
pub open spec fn image_urls_upto(d: DomView, base: Option<Seq<char>>, j: int) -> Seq<Seq<char>>
    decreases j,
{
    if j <= 0 {
        Seq::empty()
    } else {
        image_urls_upto(d, base, j - 1) + {
            let src = article_img_src(d, j - 1);
            if tag_is(d, j - 1, "img"@) && src is Some && url_resolve(
                base,
                spec_trim(src->0),
            ) is Some {
                seq![url_resolve(base, spec_trim(src->0))->0]
            } else {
                Seq::empty()
            }
        }
    }
}

/// Extract the image sources of the document: the `src` or `data-src` of
/// every `<img>`, resolved against the base.
pub fn image_urls(dom: &Dom, base: Option<&AbsUrl>) -> (r: Vec<AbsUrl>)
    ensures
        r@.map_values(|u: AbsUrl| u@) == image_urls_upto(
            dom@,
            base_view(base),
            dom@.len() as int,
        ),
{
    let n = dom.len();
    let mut out: Vec<AbsUrl> = Vec::new();
    let mut j: usize = 0;
    while j < n
        invariant
            j <= n,
            n == dom@.len(),
            out@.map_values(|u: AbsUrl| u@) == image_urls_upto(
                dom@,
                base_view(base),
                j as int,
            ),
        decreases n - j,
    {
        let mut pushed = false;
        if dom.tag_is(j, "img") {
            let src = match dom.attr(j, "src") {
                Some(s) => Some(s),
                None => dom.attr(j, "data-src"),
            };
            match src {
                Some(h) => {
                    let t = trim(h.as_slice());
                    match resolve_chars(base, t.as_slice()) {
                        Some(u) => {
                            let ghost old_o = out@.map_values(|u: AbsUrl| u@);
                            let ghost ut = u@;
                            out.push(u);
                            pushed = true;
                            proof {
                                assert(out@.map_values(|u: AbsUrl| u@) =~~= old_o.push(ut));
                                assert(old_o + seq![ut] =~~= old_o.push(ut));
                            }
                        },
                        None => {},
                    }
                },
                None => {},
            }
        }
        proof {
            if !pushed {
                assert(out@.map_values(|u: AbsUrl| u@) + Seq::<Seq<char>>::empty()
                    =~~= out@.map_values(|u: AbsUrl| u@));
            }
        }
        j = j + 1;
    }
    out
}

/// The first `<base href>` that parses, scanning from `j`.
pub open spec fn base_url_from(d: DomView, j: int) -> Option<Seq<char>>
    decreases d.len() - j,
{
    if j < 0 || j >= d.len() {
        None
    } else if tag_is(d, j, "base"@) && attr_of(d, j, "href"@) is Some && url_resolve(
        None,
        attr_of(d, j, "href"@)->0,
    ) is Some {
        url_resolve(None, attr_of(d, j, "href"@)->0)
    } else {
        base_url_from(d, j + 1)
    }
}

/// Finds the href in the `<base>` tag, parsed as a URL.
pub fn base_url(dom: &Dom) -> (r: Option<AbsUrl>)
    ensures
        r is Some <==> base_url_from(dom@, 0) is Some,
        r matches Some(u) ==> base_url_from(dom@, 0) == Some(u@),
{
    let n = dom.len();
    let mut j: usize = 0;
    while j < n
        invariant
            j <= n,
            n == dom@.len(),
            base_url_from(dom@, 0) == base_url_from(dom@, j as int),
        decreases n - j,
    {
        if dom.tag_is(j, "base") {
            match dom.attr(j, "href") {
                Some(h) => {
                    match resolve_chars(None, h.as_slice()) {
                        Some(u) => {
                            return Some(u);
                        },
                        None => {},
                    }
                },
                None => {},
            }
        }
        j = j + 1;
    }
    None
}

/// The first `<link rel="canonical" href>` value, scanning from `j`.
pub open spec fn canonical_href_from(d: DomView, j: int) -> Option<Seq<char>>
    decreases d.len() - j,
{
    if j < 0 || j >= d.len() {
        None
    } else if tag_is(d, j, "link"@) && attr_of(d, j, "rel"@) == Some("canonical"@) && attr_of(
        d,
        j,
        "href"@,
    ) is Some {
        attr_of(d, j, "href"@)
    } else {
        canonical_href_from(d, j + 1)
    }
}

/// The article's canonical URL: the first `rel="canonical"` link's href
/// parsed as a URL, else the `og:url` meta content parsed as a URL.
pub open spec fn spec_canonical_link(d: DomView) -> Option<Seq<char>> {
    match canonical_href_from(d, 0) {
        Some(h) => url_resolve(None, h),
        None => match spec_meta_content(d, "property"@, "og:url"@) {
            Some(c) => url_resolve(None, c),
            None => None,
        },
    }
}

/// Return the article's canonical URL: the `rel=canonical` link first,
/// else the `og:url` meta tag.
pub fn canonical_link(dom: &Dom) -> (r: Option<AbsUrl>)
    ensures
        r is Some <==> spec_canonical_link(dom@) is Some,
        r matches Some(u) ==> spec_canonical_link(dom@) == Some(u@),
{
    let n = dom.len();
    let mut j: usize = 0;
    while j < n
        invariant
            j <= n,
            n == dom@.len(),
            canonical_href_from(dom@, 0) == canonical_href_from(dom@, j as int),
        decreases n - j,
    {
        if dom.tag_is(j, "link") && dom.attr_is(j, "rel", "canonical") {
            match dom.attr(j, "href") {
                Some(h) => {
                    return resolve_chars(None, h.as_slice());
                },
                None => {},
            }
        }
        j = j + 1;
    }
    match dom.meta_content("property", "og:url") {
        Some(c) => resolve_chars(None, c.as_slice()),
        None => None,
    }
}

/// The first `<link rel="icon" href>` that resolves against the base,
/// scanning from `j`.
pub open spec fn favicon_from(d: DomView, base: Seq<char>, j: int) -> Option<Seq<char>>
    decreases d.len() - j,
{
    if j < 0 || j >= d.len() {
        None
    } else if tag_is(d, j, "link"@) && attr_of(d, j, "rel"@) == Some("icon"@) && attr_of(
        d,
        j,
        "href"@,
    ) is Some && url_resolve(Some(base), attr_of(d, j, "href"@)->0) is Some {
        url_resolve(Some(base), attr_of(d, j, "href"@)->0)
    } else {
        favicon_from(d, base, j + 1)
    }
}

/// The favicon: the first `rel="icon"` link resolved against the base.
pub fn favicon(dom: &Dom, base: &AbsUrl) -> (r: Option<AbsUrl>)
    ensures
        r is Some <==> favicon_from(dom@, base@, 0) is Some,
        r matches Some(u) ==> favicon_from(dom@, base@, 0) == Some(u@),
{
    let n = dom.len();
    let mut j: usize = 0;
    while j < n
        invariant
            j <= n,
            n == dom@.len(),
            favicon_from(dom@, base@, 0) == favicon_from(dom@, base@, j as int),
        decreases n - j,
    {
        if dom.tag_is(j, "link") && dom.attr_is(j, "rel", "icon") {
            match dom.attr(j, "href") {
                Some(h) => {
                    match resolve_chars(Some(base), h.as_slice()) {
                        Some(u) => {
                            return Some(u);
                        },
                        None => {},
                    }
                },
                None => {},
            }
        }
        j = j + 1;
    }
    None
}

/// The first link whose `rel` is `img_src`, `image_src` or `icon` and
/// whose href resolves, scanning from `j`.
pub open spec fn img_link_from(d: DomView, base: Option<Seq<char>>, j: int) -> Option<Seq<char>>
    decreases d.len() - j,
{
    if j < 0 || j >= d.len() {
        None
    } else if tag_is(d, j, "link"@) && (attr_of(d, j, "rel"@) == Some("img_src"@) || attr_of(
        d,
        j,
        "rel"@,
    ) == Some("image_src"@) || attr_of(d, j, "rel"@) == Some("icon"@)) && attr_of(
        d,
        j,
        "href"@,
    ) is Some && url_resolve(base, attr_of(d, j, "href"@)->0) is Some {
        url_resolve(base, attr_of(d, j, "href"@)->0)
    } else {
        img_link_from(d, base, j + 1)
    }
}

/// The top image as the site states it: the `og:image` meta resolved
/// against the base, else the first image link.
pub open spec fn spec_meta_img_url(d: DomView, base: Option<Seq<char>>) -> Option<Seq<char>> {
    let og = match spec_meta_content(d, "property"@, "og:image"@) {
        Some(c) => url_resolve(base, c),
        None => None,
    };
    match og {
        Some(u) => Some(u),
        None => img_link_from(d, base, 0),
    }
}

/// Extract the top image as specified by the website.
pub fn meta_img_url(dom: &Dom, base: Option<&AbsUrl>) -> (r: Option<AbsUrl>)
    ensures
        r is Some <==> spec_meta_img_url(dom@, base_view(base)) is Some,
        r matches Some(u) ==> spec_meta_img_url(dom@, base_view(base)) == Some(u@),
{
    match dom.meta_content("property", "og:image") {
        Some(c) => {
            match resolve_chars(base, c.as_slice()) {
                Some(u) => {
                    return Some(u);
                },
                None => {},
            }
        },
        None => {},
    }
    let n = dom.len();
    let mut j: usize = 0;
    while j < n
        invariant
            j <= n,
            n == dom@.len(),
            img_link_from(dom@, base_view(base), 0) == img_link_from(
                dom@,
                base_view(base),
                j as int,
            ),
            match spec_meta_content(dom@, "property"@, "og:image"@) {
                Some(c) => url_resolve(base_view(base), c) is None,
                None => true,
            },
        decreases n - j,
    {
        if dom.tag_is(j, "link") && (dom.attr_is(j, "rel", "img_src") || dom.attr_is(
            j,
            "rel",
            "image_src",
        ) || dom.attr_is(j, "rel", "icon")) {
            match dom.attr(j, "href") {
                Some(h) => {
                    match resolve_chars(base, h.as_slice()) {
                        Some(u) => {
                            return Some(u);
                        },
                        None => {},
                    }
                },
                None => {},
            }
        }
        j = j + 1;
    }
    None
}

/// The thumbnail: the first of the `thumbnail` and `thumbnailUrl` meta
/// names whose content resolves against the base.
pub open spec fn spec_meta_thumbnail_url(d: DomView, base: Option<Seq<char>>) -> Option<
    Seq<char>,
> {
    let first = match spec_meta_content(d, "name"@, "thumbnail"@) {
        Some(c) => url_resolve(base, c),
        None => None,
    };
    match first {
        Some(u) => Some(u),
        None => match spec_meta_content(d, "name"@, "thumbnailUrl"@) {
            Some(c) => url_resolve(base, c),
            None => None,
        },
    }
}

/// Extract the thumbnail for the article.
pub fn meta_thumbnail_url(dom: &Dom, base: Option<&AbsUrl>) -> (r: Option<AbsUrl>)
    ensures
        r is Some <==> spec_meta_thumbnail_url(dom@, base_view(base)) is Some,
        r matches Some(u) ==> spec_meta_thumbnail_url(dom@, base_view(base)) == Some(u@),
{
    match dom.meta_content("name", "thumbnail") {
        Some(c) => {
            match resolve_chars(base, c.as_slice()) {
                Some(u) => {
                    return Some(u);
                },
                None => {},
            }
        },
        None => {},
    }
    match dom.meta_content("name", "thumbnailUrl") {
        Some(c) => resolve_chars(base, c.as_slice()),
        None => None,
    }
}

/// The resolvable image sources under the article node: `src` or
/// `data-src` of each non-noise `<img>` descendant, trimmed, non-empty,
/// resolved against the base; among nodes `< j`.
pub open spec fn article_images_upto(d: DomView, i: int, base: Option<Seq<char>>, j: int) -> Seq<
    Seq<char>,
>
    decreases j,
{
    if j <= 0 {
        Seq::empty()
    } else {
        article_images_upto(d, i, base, j - 1) + {
            let src = article_img_src(d, j - 1);
            if is_anc(d, i, j - 1) && tag_is(d, j - 1, "img"@) && !spec_is_noise_node(d, j - 1)
                && src is Some && spec_trim(src->0).len() > 0 && url_resolve(
                base,
                spec_trim(src->0),
            ) is Some {
                seq![url_resolve(base, spec_trim(src->0))->0]
            } else {
                Seq::empty()
            }
        }
    }
}

/// The `src` attribute of an image, or its `data-src`.
pub open spec fn article_img_src(d: DomView, j: int) -> Option<Seq<char>> {
    match attr_of(d, j, "src"@) {
        Some(s) => Some(s),
        None => attr_of(d, j, "data-src"@),
    }
}

/// The links under the article node after noise filtering: trimmed
/// non-empty `href` values of `<a>` descendants, deduplicated first-seen,
/// among nodes `< j`.
pub open spec fn article_hrefs_upto(d: DomView, i: int, j: int) -> Seq<Seq<char>>
    decreases j,
{
    if j <= 0 {
        Seq::empty()
    } else {
        article_hrefs_upto(d, i, j - 1) + if is_anc(d, i, j - 1) && tag_is(d, j - 1, "a"@)
            && !spec_is_noise_node(d, j - 1) && attr_of(d, j - 1, "href"@) is Some && spec_trim(
            attr_of(d, j - 1, "href"@)->0,
        ).len() > 0 {
            seq![spec_trim(attr_of(d, j - 1, "href"@)->0)]
        } else {
            Seq::empty()
        }
    }
}

/// The parseable references among a deduplicated href list, left to
/// right.
pub open spec fn parsed_refs(hs: Seq<Seq<char>>, k: int) -> Seq<Seq<char>>
    decreases k,
{
    if k <= 0 {
        Seq::empty()
    } else {
        parsed_refs(hs, k - 1) + if url_resolve(None, hs[k - 1]) is Some {
            seq![url_resolve(None, hs[k - 1])->0]
        } else {
            Seq::empty()
        }
    }
}

/// The references of the article node: distinct cleaned hrefs under it,
/// parsed as URLs.
pub open spec fn spec_references(d: DomView, i: int) -> Seq<Seq<char>> {
    let hs = article_hrefs_upto(d, i, d.len() as int);
    let ded = dedup_exact(hs, hs.len() as int);
    parsed_refs(ded, ded.len() as int)
}

impl ArticleTextNode {
    /// Extract all of the images of the article node.
    pub fn images(&self, dom: &Dom, base: Option<&AbsUrl>) -> (r: Vec<AbsUrl>)
        requires
            self.node < dom@.len(),
        ensures
            r@.map_values(|u: AbsUrl| u@) == article_images_upto(
                dom@,
                self.node as int,
                base_view(base),
                dom@.len() as int,
            ),
    {
        let i = self.node;
        let n = dom.len();
        let mut out: Vec<AbsUrl> = Vec::new();
        let mut j: usize = 0;
        while j < n
            invariant
                j <= n,
                n == dom@.len(),
                i < dom@.len(),
                i == self.node,
                out@.map_values(|u: AbsUrl| u@) == article_images_upto(
                    dom@,
                    i as int,
                    base_view(base),
                    j as int,
                ),
            decreases n - j,
        {
            let mut pushed = false;
            if dom.tag_is(j, "img") && dom.has_ancestor(i, j) && !dom.is_noise_node(j) {
                let src = match dom.attr(j, "src") {
                    Some(s) => Some(s),
                    None => dom.attr(j, "data-src"),
                };
                match src {
                    Some(s) => {
                        let t = trim(s.as_slice());
                        if t.len() > 0 {
                            match resolve_chars(base, t.as_slice()) {
                                Some(u) => {
                                    let ghost old_o = out@.map_values(|u: AbsUrl| u@);
                                    let ghost ut = u@;
                                    out.push(u);
                                    pushed = true;
                                    proof {
                                        assert(out@.map_values(|u: AbsUrl| u@)
                                            =~~= old_o.push(ut));
                                        assert(old_o + seq![ut] =~~= old_o.push(ut));
                                    }
                                },
                                None => {},
                            }
                        }
                    },
                    None => {},
                }
            }
            proof {
                if !pushed {
                    assert(out@.map_values(|u: AbsUrl| u@) + Seq::<Seq<char>>::empty()
                        =~~= out@.map_values(|u: AbsUrl| u@));
                }
            }
            j = j + 1;
        }
        out
    }

    /// Extract all the distinct links under the article node.
    pub fn references(&self, dom: &Dom) -> (r: Vec<AbsUrl>)
        requires
            self.node < dom@.len(),
        ensures
            r@.map_values(|u: AbsUrl| u@) == spec_references(dom@, self.node as int),
    {
        let i = self.node;
        let n = dom.len();
        let mut hrefs: Vec<Vec<char>> = Vec::new();
        let mut j: usize = 0;
        while j < n
            invariant
                j <= n,
                n == dom@.len(),
                i < dom@.len(),
                i == self.node,
                hrefs.deep_view() == article_hrefs_upto(dom@, i as int, j as int),
            decreases n - j,
        {
            let mut pushed = false;
            if dom.tag_is(j, "a") && dom.has_ancestor(i, j) && !dom.is_noise_node(j) {
                match dom.attr(j, "href") {
                    Some(h) => {
                        let t = trim(h.as_slice());
                        if t.len() > 0 {
                            let ghost old_h = hrefs.deep_view();
                            let ghost tv = t@;
                            hrefs.push(t);
                            pushed = true;
                            proof {
                                assert(hrefs.deep_view() =~~= old_h.push(tv));
                                assert(old_h + seq![tv] =~~= old_h.push(tv));
                            }
                        }
                    },
                    None => {},
                }
            }
            proof {
                if !pushed {
                    assert(hrefs.deep_view() + Seq::<Seq<char>>::empty() =~~= hrefs.deep_view());
                }
            }
            j = j + 1;
        }
        let ghost hv = article_hrefs_upto(dom@, i as int, dom@.len() as int);
        // first-seen deduplication
        let mut ded: Vec<Vec<char>> = Vec::new();
        let mut k: usize = 0;
        while k < hrefs.len()
            invariant
                k <= hrefs@.len(),
                hrefs.deep_view() == hv,
                hrefs@.len() == hv.len(),
                ded.deep_view() == dedup_exact(hv, k as int),
            decreases hrefs.len() - k,
        {
            proof {
                assert(hrefs.deep_view()[k as int] == hrefs@[k as int]@);
            }
            let h = &hrefs[k];
            let mut dup = false;
            let mut x: usize = 0;
            while x < ded.len()
                invariant
                    x <= ded@.len(),
                    h@ == hv[k as int],
                    ded.deep_view() == dedup_exact(hv, k as int),
                    ded@.len() == ded.deep_view().len(),
                    dup == exists|y: int|
                        0 <= y < x && #[trigger] ded.deep_view()[y] == hv[k as int],
                decreases ded.len() - x,
            {
                proof {
                    assert(ded.deep_view()[x as int] == ded@[x as int]@);
                }
                if !dup && slice_eq(ded[x].as_slice(), h.as_slice()) {
                    dup = true;
                }
                x = x + 1;
            }
            proof {
                assert(dup == dedup_exact(hv, k as int).contains(hv[k as int]));
            }
            if !dup {
                let ghost old_d = ded.deep_view();
                let copied = clone_chars(h.as_slice());
                ded.push(copied);
                proof {
                    assert(ded.deep_view() =~~= old_d.push(hv[k as int]));
                    assert(old_d + seq![hv[k as int]] =~~= old_d.push(hv[k as int]));
                }
            }
            k = k + 1;
        }
        // parse each distinct href
        let ghost dv = dedup_exact(hv, hv.len() as int);
        let mut out: Vec<AbsUrl> = Vec::new();
        let mut k2: usize = 0;
        while k2 < ded.len()
            invariant
                k2 <= ded@.len(),
                ded.deep_view() == dv,
                ded@.len() == dv.len(),
                out@.map_values(|u: AbsUrl| u@) == parsed_refs(dv, k2 as int),
            decreases ded.len() - k2,
        {
            proof {
                assert(ded.deep_view()[k2 as int] == ded@[k2 as int]@);
            }
            match resolve_chars(None, ded[k2].as_slice()) {
                Some(u) => {
                    let ghost old_o = out@.map_values(|u: AbsUrl| u@);
                    let ghost ut = u@;
                    out.push(u);
                    proof {
                        assert(out@.map_values(|u: AbsUrl| u@) =~~= old_o.push(ut));
                        assert(old_o + seq![ut] =~~= old_o.push(ut));
                    }
                },
                None => {
                    proof {
                        assert(out@.map_values(|u: AbsUrl| u@) + Seq::<Seq<char>>::empty()
                            =~~= out@.map_values(|u: AbsUrl| u@));
                    }
                },
            }
            k2 = k2 + 1;
        }
        out
    }
}

} // verus!
