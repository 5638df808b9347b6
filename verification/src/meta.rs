//! `<meta>` handling: looking up meta content under `<head>`, the meta node
//! listing, and the document language.

use vstd::prelude::*;

use crate::chars::{spec_trim, trim};
use crate::dom::{attr_is, attr_of, is_anc, tag_is, Dom, DomView};
use crate::lang::{spec_probe, LangView, Language};

verus! {

/// Whether node `j` is a `<meta>` under `<head>` carrying `aname = aval`
/// and a non-blank `content`.
pub open spec fn meta_match(d: DomView, j: int, aname: Seq<char>, aval: Seq<char>) -> bool {
    &&& tag_is(d, j, "meta"@)
    &&& exists|h: int| tag_is(d, h, "head"@) && is_anc(d, h, j)
    &&& attr_is(d, j, aname, aval)
    &&& attr_of(d, j, "content"@) matches Some(c) && spec_trim(c).len() > 0
}

/// The first matching meta node's trimmed content, scanning from `j`.
pub open spec fn meta_content_from(d: DomView, j: int, aname: Seq<char>, aval: Seq<char>) -> Option<
    Seq<char>,
>
    decreases d.len() - j,
{
    if j < 0 || j >= d.len() {
        None
    } else if meta_match(d, j, aname, aval) {
        match attr_of(d, j, "content"@) {
            Some(c) => Some(spec_trim(c)),
            None => None,
        }
    } else {
        meta_content_from(d, j + 1, aname, aval)
    }
}

/// The trimmed content of the first `<meta>` under `<head>` whose
/// attribute `aname` equals `aval` and whose content is not blank.
pub open spec fn spec_meta_content(d: DomView, aname: Seq<char>, aval: Seq<char>) -> Option<
    Seq<char>,
> {
    meta_content_from(d, 0, aname, aval)
}

impl Dom {
    /// Whether node `j` has a `<head>` ancestor.
    pub fn under_head(&self, j: usize) -> (r: bool)
        requires
            j < self@.len(),
        ensures
            r == exists|h: int| tag_is(self@, h, "head"@) && is_anc(self@, h, j as int),
    {
        let n = self.len();
        let mut h: usize = 0;
        let mut found = false;
        while h < n
            invariant
                h <= n,
                n == self@.len(),
                j < self@.len(),
                found == exists|x: int|
                    0 <= x < h && tag_is(self@, x, "head"@) && is_anc(self@, x, j as int),
            decreases n - h,
        {
            if !found && self.tag_is(h, "head") && self.has_ancestor(h, j) {
                found = true;
            }
            h = h + 1;
        }
        found
    }

    /// The trimmed content of the first matching `<meta>` under `<head>`.
    pub fn meta_content(&self, aname: &str, aval: &str) -> (r: Option<Vec<char>>)
        ensures
            r is Some <==> spec_meta_content(self@, aname@, aval@) is Some,
            r matches Some(c) ==> spec_meta_content(self@, aname@, aval@) == Some(c@),
    {
        let n = self.len();
        let mut j: usize = 0;
        while j < n
            invariant
                j <= n,
                n == self@.len(),
                spec_meta_content(self@, aname@, aval@) == meta_content_from(
                    self@,
                    j as int,
                    aname@,
                    aval@,
                ),
            decreases n - j,
        {
            if self.tag_is(j, "meta") && self.attr_is(j, aname, aval) && self.under_head(j) {
                match self.attr(j, "content") {
                    Some(c) => {
                        let t = trim(c.as_slice());
                        if t.len() > 0 {
                            proof {
                                assert(meta_match(self@, j as int, aname@, aval@));
                            }
                            return Some(t);
                        }
                    },
                    None => {},
                }
            }
            proof {
                assert(!meta_match(self@, j as int, aname@, aval@));
            }
            j = j + 1;
        }
        None
    }
}

/// A `<meta>` node of the document.
pub struct MetaNode {
    /// The node index.
    pub node: usize,
}

impl MetaNode {
    /// The value of an attribute of the meta node.
    pub fn attr(&self, dom: &Dom, name: &str) -> (r: Option<Vec<char>>)
        requires
            self.node < dom@.len(),
        ensures
            r is Some <==> attr_of(dom@, self.node as int, name@) is Some,
            r matches Some(v) ==> attr_of(dom@, self.node as int, name@) == Some(v@),
    {
        dom.attr(self.node, name)
    }

    /// Value of the `name` attribute in the node.
    pub fn name_attr(&self, dom: &Dom) -> (r: Option<Vec<char>>)
        requires
            self.node < dom@.len(),
        ensures
            r is Some <==> attr_of(dom@, self.node as int, "name"@) is Some,
            r matches Some(v) ==> attr_of(dom@, self.node as int, "name"@) == Some(v@),
    {
        self.attr(dom, "name")
    }

    /// Value of the `property` attribute in the node.
    pub fn property_attr(&self, dom: &Dom) -> (r: Option<Vec<char>>)
        requires
            self.node < dom@.len(),
        ensures
            r is Some <==> attr_of(dom@, self.node as int, "property"@) is Some,
            r matches Some(v) ==> attr_of(dom@, self.node as int, "property"@) == Some(v@),
    {
        self.attr(dom, "property")
    }

    /// Value of the `content` attribute in the node.
    pub fn content_attr(&self, dom: &Dom) -> (r: Option<Vec<char>>)
        requires
            self.node < dom@.len(),
        ensures
            r is Some <==> attr_of(dom@, self.node as int, "content"@) is Some,
            r matches Some(v) ==> attr_of(dom@, self.node as int, "content"@) == Some(v@),
    {
        self.attr(dom, "content")
    }

    /// Value of the `value` attribute in the node.
    pub fn value_attr(&self, dom: &Dom) -> (r: Option<Vec<char>>)
        requires
            self.node < dom@.len(),
        ensures
            r is Some <==> attr_of(dom@, self.node as int, "value"@) is Some,
            r matches Some(v) ==> attr_of(dom@, self.node as int, "value"@) == Some(v@),
    {
        self.attr(dom, "value")
    }

    /// The key of the meta node: its `property` attribute, else `name`.
    pub fn key(&self, dom: &Dom) -> (r: Option<Vec<char>>)
        requires
            self.node < dom@.len(),
        ensures
            r is Some <==> spec_meta_key(dom@, self.node as int) is Some,
            r matches Some(v) ==> spec_meta_key(dom@, self.node as int) == Some(v@),
    {
        match self.property_attr(dom) {
            Some(p) => Some(p),
            None => self.name_attr(dom),
        }
    }

    /// The value of the meta node: its `content` attribute, else `value`.
    pub fn value(&self, dom: &Dom) -> (r: Option<Vec<char>>)
        requires
            self.node < dom@.len(),
        ensures
            r is Some <==> spec_meta_value(dom@, self.node as int) is Some,
            r matches Some(v) ==> spec_meta_value(dom@, self.node as int) == Some(v@),
    {
        match self.content_attr(dom) {
            Some(c) => Some(c),
            None => self.value_attr(dom),
        }
    }

    /// Whether the node has both a key and a value.
    pub fn is_key_value(&self, dom: &Dom) -> (r: bool)
        requires
            self.node < dom@.len(),
        ensures
            r == (spec_meta_key(dom@, self.node as int) is Some && spec_meta_value(
                dom@,
                self.node as int,
            ) is Some),
    {
        self.key(dom).is_some() && self.value(dom).is_some()
    }
}

pub open spec fn spec_meta_key(d: DomView, j: int) -> Option<Seq<char>> {
    match attr_of(d, j, "property"@) {
        Some(p) => Some(p),
        None => attr_of(d, j, "name"@),
    }
}

pub open spec fn spec_meta_value(d: DomView, j: int) -> Option<Seq<char>> {
    match attr_of(d, j, "content"@) {
        Some(c) => Some(c),
        None => attr_of(d, j, "value"@),
    }
}

/// Whether node `j` belongs in the meta listing: a `<meta>` under
/// `<head>` with both key and value.
pub open spec fn spec_meta_listed(d: DomView, j: int) -> bool {
    tag_is(d, j, "meta"@) && (exists|h: int| tag_is(d, h, "head"@) && is_anc(d, h, j))
        && spec_meta_key(d, j) is Some && spec_meta_value(d, j) is Some
}

pub open spec fn meta_nodes_upto(d: DomView, j: int) -> Seq<int>
    decreases j,
{
    if j <= 0 {
        Seq::empty()
    } else {
        meta_nodes_upto(d, j - 1) + if spec_meta_listed(d, j - 1) {
            seq![j - 1]
        } else {
            Seq::empty()
        }
    }
}

/// Finds all key-value `<meta>` nodes under `<head>`, in document order.
pub fn meta_data(dom: &Dom) -> (r: Vec<MetaNode>)
    ensures
        r@.map_values(|m: MetaNode| m.node as int) == meta_nodes_upto(dom@, dom@.len() as int),
{
    let n = dom.len();
    let mut r: Vec<MetaNode> = Vec::new();
    let mut j: usize = 0;
    while j < n
        invariant
            j <= n,
            n == dom@.len(),
            r@.map_values(|m: MetaNode| m.node as int) == meta_nodes_upto(dom@, j as int),
        decreases n - j,
    {
        let ghost old_r = r@.map_values(|m: MetaNode| m.node as int);
        let m = MetaNode { node: j };
        if dom.tag_is(j, "meta") && dom.under_head(j) && m.is_key_value(dom) {
            r.push(m);
            proof {
                assert(spec_meta_listed(dom@, j as int));
                assert(r@.map_values(|m: MetaNode| m.node as int) =~= old_r + seq![j as int]);
            }
        } else {
            proof {
                assert(!spec_meta_listed(dom@, j as int));
                assert(old_r + Seq::<int>::empty() =~= old_r);
            }
        }
        j = j + 1;
    }
    r
}

/// The first `<html>` element, scanning from `j`.
pub open spec fn first_html_from(d: DomView, j: int) -> Option<int>
    decreases d.len() - j,
{
    if j < 0 || j >= d.len() {
        None
    } else if tag_is(d, j, "html"@) {
        Some(j)
    } else {
        first_html_from(d, j + 1)
    }
}

/// The document language: the `<html lang>` attribute first, then the
/// `Content-Language` meta, then the `lang` meta; an unparseable tag is
/// remembered and returned only if nothing better appears.
pub open spec fn spec_meta_language(d: DomView) -> Option<LangView> {
    let from_html: Option<Result<LangView, LangView>> = match first_html_from(d, 0) {
        Some(h) => match attr_of(d, h, "lang"@) {
            Some(raw) => Some(spec_probe(raw)),
            None => None,
        },
        None => None,
    };
    match from_html {
        Some(Ok(l)) => Some(l),
        _ => {
            let unk0: Option<LangView> = match from_html {
                Some(Err(u)) => Some(u),
                _ => None,
            };
            let from_equiv: Option<Result<LangView, LangView>> = match spec_meta_content(
                d,
                "http-equiv"@,
                "Content-Language"@,
            ) {
                Some(c) => Some(spec_probe(c)),
                None => None,
            };
            match from_equiv {
                Some(Ok(l)) => Some(l),
                _ => {
                    let unk1: Option<LangView> = match from_equiv {
                        Some(Err(u)) => Some(u),
                        _ => unk0,
                    };
                    let from_name: Option<Result<LangView, LangView>> = match spec_meta_content(
                        d,
                        "name"@,
                        "lang"@,
                    ) {
                        Some(c) => Some(spec_probe(c)),
                        None => None,
                    };
                    match from_name {
                        Some(Ok(l)) => Some(l),
                        _ => match from_name {
                            Some(Err(u)) => Some(u),
                            _ => unk1,
                        },
                    }
                },
            }
        },
    }
}

/// Extract the content language from the `<html lang>` attribute or the
/// language meta tags.
pub fn meta_language(dom: &Dom) -> (r: Option<Language>)
    ensures
        r is Some <==> spec_meta_language(dom@) is Some,
        r matches Some(lang) ==> spec_meta_language(dom@) == Some(lang@),
{
    let ghost fh: Option<Result<LangView, LangView>> = match first_html_from(dom@, 0) {
        Some(h) => match attr_of(dom@, h, "lang"@) {
            Some(raw) => Some(spec_probe(raw)),
            None => None,
        },
        None => None,
    };
    let mut unknown: Option<Language> = None;
    let n = dom.len();
    let mut j: usize = 0;
    let mut html: Option<usize> = None;
    while j < n
        invariant
            j <= n,
            n == dom@.len(),
            match html {
                Some(h) => first_html_from(dom@, 0) == Some(h as int) && h < dom@.len(),
                None => first_html_from(dom@, 0) == first_html_from(dom@, j as int),
            },
        decreases n - j,
    {
        if html.is_none() && dom.tag_is(j, "html") {
            proof {
                assert(first_html_from(dom@, j as int) == Some(j as int));
            }
            html = Some(j);
        }
        j = j + 1;
    }
    match html {
        Some(h) => {
            match dom.attr(h, "lang") {
                Some(raw) => {
                    match Language::parse_tag(raw.as_slice()) {
                        Ok(lang) => {
                            proof {
                                assert(fh == Some(Ok::<LangView, LangView>(lang@)));
                            }
                            return Some(lang);
                        },
                        Err(u) => {
                            proof {
                                assert(fh == Some(Err::<LangView, LangView>(u@)));
                            }
                            unknown = Some(u);
                        },
                    }
                },
                None => {
                    proof {
                        assert(fh is None);
                    }
                },
            }
        },
        None => {
            proof {
                assert(first_html_from(dom@, dom@.len() as int) is None);
                assert(fh is None);
            }
        },
    }
    proof {
        assert(!(fh matches Some(Ok(_))));
        assert(match unknown {
            Some(u) => (match fh {
                Some(Err(x)) => Some(x),
                _ => None,
            }) == Some(u@),
            None => (match fh {
                Some(Err(x)) => Some::<LangView>(x),
                _ => None,
            }) is None,
        });
    }
    let ghost fe: Option<Result<LangView, LangView>> = match spec_meta_content(
        dom@,
        "http-equiv"@,
        "Content-Language"@,
    ) {
        Some(c) => Some(spec_probe(c)),
        None => None,
    };
    match dom.meta_content("http-equiv", "Content-Language") {
        Some(c) => {
            match Language::parse_tag(c.as_slice()) {
                Ok(lang) => {
                    proof {
                        assert(fe == Some(Ok::<LangView, LangView>(lang@)));
                    }
                    return Some(lang);
                },
                Err(u) => {
                    proof {
                        assert(fe == Some(Err::<LangView, LangView>(u@)));
                    }
                    unknown = Some(u);
                },
            }
        },
        None => {
            proof {
                assert(fe is None);
            }
        },
    }
    let ghost fnm: Option<Result<LangView, LangView>> = match spec_meta_content(
        dom@,
        "name"@,
        "lang"@,
    ) {
        Some(c) => Some(spec_probe(c)),
        None => None,
    };
    match dom.meta_content("name", "lang") {
        Some(c) => {
            match Language::parse_tag(c.as_slice()) {
                Ok(lang) => {
                    proof {
                        assert(fnm == Some(Ok::<LangView, LangView>(lang@)));
                    }
                    return Some(lang);
                },
                Err(u) => {
                    proof {
                        assert(fnm == Some(Err::<LangView, LangView>(u@)));
                    }
                    unknown = Some(u);
                },
            }
        },
        None => {
            proof {
                assert(fnm is None);
            }
        },
    }
    unknown
}

/// Extract a given meta content from the document.
pub fn meta_content(dom: &Dom, aname: &str, aval: &str) -> (r: Option<Vec<char>>)
    ensures
        r is Some <==> spec_meta_content(dom@, aname@, aval@) is Some,
        r matches Some(c) ==> spec_meta_content(dom@, aname@, aval@) == Some(c@),
{
    dom.meta_content(aname, aval)
}


} // verus!
