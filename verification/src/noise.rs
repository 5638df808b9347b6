//! The noise classifier: decides whether a node, or any ancestor of it, is
//! structurally non-content, and which nodes qualify as body-text
//! candidates.

use vstd::prelude::*;

use crate::chars::{contains_str, seq_contains};
use crate::dom::{anc_or_self, attr_is, attr_of, is_anc, tag_is, Dom, DomView};
use crate::split::{spec_words, split_words, Sep};
use crate::unicode::{lower_chars, lower_of};

verus! {

/// Class substrings that mark footer, sidebar and recommendation areas.
pub open spec fn noise_class_value(c: Seq<char>) -> bool {
    seq_contains(lower_of(c), "articlebottom"@) || seq_contains(lower_of(c), "article-bottom"@)
        || seq_contains(lower_of(c), "footer"@) || seq_contains(lower_of(c), "sidebar"@)
        || seq_contains(lower_of(c), "widget"@) || seq_contains(lower_of(c), "related-"@)
        || seq_contains(lower_of(c), "recommendation"@)
}

fn noise_class_value_exec(c: &[char]) -> (r: bool)
    ensures
        r == noise_class_value(c@),
{
    let lowered = lower_chars(c);
    let l = lowered.as_slice();
    contains_str(l, "articlebottom") || contains_str(l, "article-bottom") || contains_str(
        l,
        "footer",
    ) || contains_str(l, "sidebar") || contains_str(l, "widget") || contains_str(l, "related-")
        || contains_str(l, "recommendation")
}

/// The tags that are never content, checked on a node and on each of its
/// ancestors alike.
pub open spec fn noise_tag(d: DomView, i: int) -> bool {
    tag_is(d, i, "script"@) || tag_is(d, i, "style"@) || tag_is(d, i, "link"@) || tag_is(
        d,
        i,
        "meta"@,
    ) || tag_is(d, i, "noscript"@) || tag_is(d, i, "figcaption"@) || tag_is(d, i, "figure"@)
}

/// Attribute marks shared by the self and ancestor checks: image captions,
/// ad containers, and noisy class values.
pub open spec fn noise_marks(d: DomView, i: int) -> bool {
    attr_of(d, i, "data-image-caption"@) is Some || attr_of(d, i, "data-creative"@) is Some
        || (attr_of(d, i, "class"@) matches Some(c) && noise_class_value(c))
}

/// A hidden or off-screen `<img>`.
pub open spec fn noise_hidden_img(d: DomView, i: int) -> bool {
    tag_is(d, i, "img"@) && (attr_of(d, i, "style"@) matches Some(style) && (seq_contains(
        style,
        "display: none"@,
    ) || seq_contains(style, "visibility: hidden"@) || (seq_contains(style, "position: absolute"@)
        && seq_contains(style, "left: -9999px"@))))
}

/// The checks made on the node itself.
pub open spec fn noise_self(d: DomView, i: int) -> bool {
    noise_tag(d, i) || noise_marks(d, i) || noise_hidden_img(d, i)
}

/// The checks made on each ancestor.
pub open spec fn noise_anc(d: DomView, i: int) -> bool {
    noise_tag(d, i) || noise_marks(d, i)
}

/// Whether the node, or any ancestor of it, is structurally non-content.
pub open spec fn spec_is_noise_node(d: DomView, i: int) -> bool {
    noise_self(d, i) || exists|a: int| is_anc(d, a, i) && noise_anc(d, a)
}

impl Dom {
    fn noise_marks_exec(&self, i: usize) -> (r: bool)
        requires
            i < self@.len(),
        ensures
            r == noise_marks(self@, i as int),
    {
        if self.has_attr(i, "data-image-caption") {
            return true;
        }
        if self.has_attr(i, "data-creative") {
            return true;
        }
        match self.attr(i, "class") {
            Some(c) => noise_class_value_exec(c.as_slice()),
            None => false,
        }
    }

    fn noise_self_exec(&self, i: usize) -> (r: bool)
        requires
            i < self@.len(),
        ensures
            r == noise_self(self@, i as int),
    {
        if self.tag_is(i, "script") || self.tag_is(i, "style") || self.tag_is(i, "link")
            || self.tag_is(i, "meta") || self.tag_is(i, "noscript") || self.tag_is(i, "figcaption")
            || self.tag_is(i, "figure") {
            return true;
        }
        if self.noise_marks_exec(i) {
            return true;
        }
        if self.tag_is(i, "img") {
            match self.attr(i, "style") {
                Some(style) => {
                    let s = style.as_slice();
                    contains_str(s, "display: none") || contains_str(s, "visibility: hidden") || (
                    contains_str(s, "position: absolute") && contains_str(s, "left: -9999px"))
                },
                None => false,
            }
        } else {
            false
        }
    }

    fn noise_anc_exec(&self, i: usize) -> (r: bool)
        requires
            i < self@.len(),
        ensures
            r == noise_anc(self@, i as int),
    {
        if self.tag_is(i, "script") || self.tag_is(i, "style") || self.tag_is(i, "link")
            || self.tag_is(i, "meta") || self.tag_is(i, "noscript") || self.tag_is(
            i,
            "figcaption",
        ) || self.tag_is(i, "figure") {
            return true;
        }
        self.noise_marks_exec(i)
    }

    /// Whether the node or any of its ancestors is structurally
    /// non-content.
    pub fn is_noise_node(&self, i: usize) -> (r: bool)
        requires
            i < self@.len(),
        ensures
            r == spec_is_noise_node(self@, i as int),
    {
        if self.noise_self_exec(i) {
            return true;
        }
        let mut cur: usize = i;
        loop
            invariant
                cur < self@.len(),
                !noise_self(self@, i as int),
                (exists|a: int| is_anc(self@, a, i as int) && noise_anc(self@, a)) == (exists|
                    a: int,
                | is_anc(self@, a, cur as int) && noise_anc(self@, a)),
            decreases cur,
        {
            match self.parent_of(cur) {
                Some(p) => {
                    proof {
                        assert(forall|a: int|
                            is_anc(self@, a, cur as int) <==> (a == p as int || is_anc(
                                self@,
                                a,
                                p as int,
                            )));
                    }
                    if self.noise_anc_exec(p) {
                        proof {
                            assert(is_anc(self@, p as int, cur as int) && noise_anc(
                                self@,
                                p as int,
                            ));
                        }
                        return true;
                    }
                    cur = p;
                },
                None => {
                    proof {
                        assert(forall|a: int| !is_anc(self@, a, cur as int));
                    }
                    return false;
                },
            }
        }
    }
}

/// Whether the class attribute of node `i` holds `tok` as a
/// whitespace-separated token, the way a CSS class matches.
pub open spec fn has_class_token(d: DomView, i: int, tok: Seq<char>) -> bool {
    attr_of(d, i, "class"@) matches Some(c) && spec_words(c, Sep::Space).contains(tok)
}

impl Dom {
    /// Whether node `i`'s class attribute holds `tok` as a token.
    pub fn class_token(&self, i: usize, tok: &str) -> (r: bool)
        requires
            i < self@.len(),
        ensures
            r == has_class_token(self@, i as int, tok@),
    {
        match self.attr(i, "class") {
            Some(c) => {
                let toks = split_words(c.as_slice(), Sep::Space);
                let ghost wsv = spec_words(c@, Sep::Space);
                let mut k: usize = 0;
                while k < toks.len()
                    invariant
                        k <= toks@.len(),
                        i < self@.len(),
                        attr_of(self@, i as int, "class"@) == Some(c@),
                        wsv == spec_words(c@, Sep::Space),
                        toks.deep_view() == wsv,
                        toks@.len() == wsv.len(),
                        forall|j: int| 0 <= j < k ==> wsv[j] != tok@,
                    decreases toks.len() - k,
                {
                    proof {
                        assert(toks.deep_view()[k as int] == toks@[k as int]@);
                    }
                    if crate::chars::eq_str(toks[k].as_slice(), tok) {
                        proof {
                            assert(wsv[k as int] == tok@);
                        }
                        return true;
                    }
                    k = k + 1;
                }
                proof {
                    if wsv.contains(tok@) {
                        let j = choose|j: int| 0 <= j < wsv.len() && wsv[j] == tok@;
                        assert(wsv[j] != tok@);
                    }
                }
                false
            },
            None => false,
        }
    }
}

/// The secondary negative selector of the text-node enumerator: tags and
/// class tokens that mark navigation, ads and captions.
pub open spec fn spec_is_bad(d: DomView, i: int) -> bool {
    tag_is(d, i, "figure"@) || tag_is(d, i, "figcaption"@) || tag_is(d, i, "media"@) || tag_is(
        d,
        i,
        "aside"@,
    ) || tag_is(d, i, "nav"@) || tag_is(d, i, "footer"@) || tag_is(d, i, "header"@) || tag_is(
        d,
        i,
        "script"@,
    ) || tag_is(d, i, "style"@) || tag_is(d, i, "link"@) || tag_is(d, i, "meta"@) || tag_is(
        d,
        i,
        "noscript"@,
    ) || has_class_token(d, i, "advertisement"@) || has_class_token(d, i, "ad"@)
        || has_class_token(d, i, "sidebar"@) || has_class_token(d, i, "navigation"@)
        || has_class_token(d, i, "comments"@) || has_class_token(d, i, "caption"@)
}

/// The attribute pairs that mark non-content sections; values match
/// exactly.
pub open spec fn spec_non_content_attr(d: DomView, i: int) -> bool {
    attr_is(d, i, "class"@, "sidebar"@) || attr_is(d, i, "class"@, "navigation"@) || attr_is(
        d,
        i,
        "class"@,
        "nav"@,
    ) || attr_is(d, i, "class"@, "menu"@) || attr_is(d, i, "class"@, "footer"@) || attr_is(
        d,
        i,
        "class"@,
        "header"@,
    ) || attr_is(d, i, "class"@, "advertisement"@) || attr_is(d, i, "class"@, "ad"@) || attr_is(
        d,
        i,
        "class"@,
        "comments"@,
    ) || attr_is(d, i, "class"@, "widget"@) || attr_is(d, i, "data-image-caption"@, ""@) || attr_is(
        d,
        i,
        "role"@,
        "navigation"@,
    ) || attr_is(d, i, "role"@, "complementary"@) || attr_is(d, i, "data-role"@, "sidebar"@)
}

/// Whether node `i` is a body-text candidate by tag: `p`, `pre`, `td`,
/// `article`, or a `div` whose class or id names article content.
pub open spec fn spec_is_text_node(d: DomView, i: int) -> bool {
    tag_is(d, i, "p"@) || tag_is(d, i, "pre"@) || tag_is(d, i, "td"@) || tag_is(d, i, "article"@)
        || (tag_is(d, i, "div"@) && ((attr_of(d, i, "class"@) matches Some(c) && (seq_contains(
        c,
        "article"@,
    ) || seq_contains(c, "story"@) || seq_contains(c, "paragraph"@) || seq_contains(c, "content"@)
        || seq_contains(c, "post"@) || seq_contains(c, "entry"@))) || (attr_of(d, i, "id"@) matches
        Some(id) && (seq_contains(id, "article"@) || seq_contains(id, "story"@) || seq_contains(
        id,
        "paragraph"@,
    ) || seq_contains(id, "content"@) || seq_contains(id, "post"@) || seq_contains(
        id,
        "entry"@,
    )))))
}

/// One node of the enumerator's output: a candidate whose whole ancestor
/// chain is clean.
pub open spec fn spec_enumerated(d: DomView, i: int) -> bool {
    spec_is_text_node(d, i) && forall|a: int|
        anc_or_self(d, a, i) ==> !(spec_is_bad(d, a) || spec_non_content_attr(d, a)
            || spec_is_noise_node(d, a))
}

pub open spec fn candidates_upto(d: DomView, j: int) -> Seq<int>
    decreases j,
{
    if j <= 0 {
        Seq::empty()
    } else {
        candidates_upto(d, j - 1) + if spec_enumerated(d, j - 1) {
            seq![j - 1]
        } else {
            Seq::empty()
        }
    }
}

/// The candidates of the document, in document order.
pub open spec fn spec_candidates(d: DomView) -> Seq<int> {
    candidates_upto(d, d.len() as int)
}

impl Dom {
    fn is_bad_exec(&self, i: usize) -> (r: bool)
        requires
            i < self@.len(),
        ensures
            r == spec_is_bad(self@, i as int),
    {
        self.tag_is(i, "figure") || self.tag_is(i, "figcaption") || self.tag_is(i, "media")
            || self.tag_is(i, "aside") || self.tag_is(i, "nav") || self.tag_is(i, "footer")
            || self.tag_is(i, "header") || self.tag_is(i, "script") || self.tag_is(i, "style")
            || self.tag_is(i, "link") || self.tag_is(i, "meta") || self.tag_is(i, "noscript")
            || self.class_token(i, "advertisement") || self.class_token(i, "ad")
            || self.class_token(i, "sidebar") || self.class_token(i, "navigation")
            || self.class_token(i, "comments") || self.class_token(i, "caption")
    }

    fn non_content_attr_exec(&self, i: usize) -> (r: bool)
        requires
            i < self@.len(),
        ensures
            r == spec_non_content_attr(self@, i as int),
    {
        self.attr_is(i, "class", "sidebar") || self.attr_is(i, "class", "navigation")
            || self.attr_is(i, "class", "nav") || self.attr_is(i, "class", "menu") || self.attr_is(
            i,
            "class",
            "footer",
        ) || self.attr_is(i, "class", "header") || self.attr_is(i, "class", "advertisement")
            || self.attr_is(i, "class", "ad") || self.attr_is(i, "class", "comments")
            || self.attr_is(i, "class", "widget") || self.attr_is(i, "data-image-caption", "")
            || self.attr_is(i, "role", "navigation") || self.attr_is(i, "role", "complementary")
            || self.attr_is(i, "data-role", "sidebar")
    }

    fn is_text_node_exec(&self, i: usize) -> (r: bool)
        requires
            i < self@.len(),
        ensures
            r == spec_is_text_node(self@, i as int),
    {
        if self.tag_is(i, "p") || self.tag_is(i, "pre") || self.tag_is(i, "td") || self.tag_is(
            i,
            "article",
        ) {
            return true;
        }
        if !self.tag_is(i, "div") {
            return false;
        }
        let by_class = match self.attr(i, "class") {
            Some(c) => {
                let s = c.as_slice();
                contains_str(s, "article") || contains_str(s, "story") || contains_str(
                    s,
                    "paragraph",
                ) || contains_str(s, "content") || contains_str(s, "post") || contains_str(
                    s,
                    "entry",
                )
            },
            None => false,
        };
        if by_class {
            return true;
        }
        match self.attr(i, "id") {
            Some(id) => {
                let s = id.as_slice();
                contains_str(s, "article") || contains_str(s, "story") || contains_str(
                    s,
                    "paragraph",
                ) || contains_str(s, "content") || contains_str(s, "post") || contains_str(
                    s,
                    "entry",
                )
            },
            None => false,
        }
    }

    /// Whether the node or one of its ancestors trips any of the
    /// enumerator's rejection checks.
    fn chain_rejected(&self, i: usize) -> (r: bool)
        requires
            i < self@.len(),
        ensures
            r == exists|a: int|
                anc_or_self(self@, a, i as int) && (spec_is_bad(self@, a) || spec_non_content_attr(
                    self@,
                    a,
                ) || spec_is_noise_node(self@, a)),
    {
        let mut cur: usize = i;
        loop
            invariant
                cur < self@.len(),
                (exists|a: int|
                    anc_or_self(self@, a, i as int) && (spec_is_bad(self@, a)
                        || spec_non_content_attr(self@, a) || spec_is_noise_node(self@, a))) == (
                exists|a: int|
                    anc_or_self(self@, a, cur as int) && (spec_is_bad(self@, a)
                        || spec_non_content_attr(self@, a) || spec_is_noise_node(self@, a))),
            decreases cur,
        {
            if self.is_bad_exec(cur) || self.non_content_attr_exec(cur) || self.is_noise_node(cur) {
                proof {
                    assert(anc_or_self(self@, cur as int, cur as int));
                }
                return true;
            }
            match self.parent_of(cur) {
                Some(p) => {
                    proof {
                        assert(forall|a: int|
                            anc_or_self(self@, a, cur as int) && a != cur ==> anc_or_self(
                                self@,
                                a,
                                p as int,
                            ));
                        assert(forall|a: int|
                            anc_or_self(self@, a, p as int) ==> anc_or_self(
                                self@,
                                a,
                                cur as int,
                            ));
                    }
                    cur = p;
                },
                None => {
                    proof {
                        assert(forall|a: int| !is_anc(self@, a, cur as int));
                    }
                    return false;
                },
            }
        }
    }

    /// The body-text candidates of the document, in document order:
    /// candidate tags whose whole ancestor chain is free of noise,
    /// negative selectors and non-content attributes.
    pub fn candidates(&self) -> (r: Vec<usize>)
        ensures
            r@.map_values(|u: usize| u as int) == spec_candidates(self@),
    {
        let mut r: Vec<usize> = Vec::new();
        let n = self.len();
        let mut j: usize = 0;
        while j < n
            invariant
                j <= n,
                n == self@.len(),
                r@.map_values(|u: usize| u as int) == candidates_upto(self@, j as int),
            decreases n - j,
        {
            let ghost old_r = r@.map_values(|u: usize| u as int);
            if self.is_text_node_exec(j) && !self.chain_rejected(j) {
                r.push(j);
                proof {
                    assert(spec_enumerated(self@, j as int));
                    assert(r@.map_values(|u: usize| u as int) =~= old_r + seq![j as int]);
                }
            } else {
                proof {
                    assert(!spec_enumerated(self@, j as int));
                    assert(old_r + Seq::<int>::empty() =~= old_r);
                }
            }
            j = j + 1;
        }
        r
    }
}

} // verus!
