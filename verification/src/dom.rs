//! The document model: an immutable forest of nodes held in document order,
//! each node carrying a parent link and either an element (tag and
//! attributes), a text run, or other content. Every query the extractors
//! make — tags, attributes, ancestors, siblings, concatenated text — is
//! specified here over the ghost view of the tree.

use vstd::prelude::*;

use crate::chars::{chars_of, eq_str, lower_ascii_vec, slice_eq, spec_lower_ascii_seq};

verus! {

/// The content of one node.
pub enum NodeData {
    /// An HTML element with its tag and its attributes in document order.
    Element { tag: Vec<char>, attrs: Vec<(Vec<char>, Vec<char>)> },
    /// A text run.
    Text(Vec<char>),
    /// Anything else the parser produced, such as a comment.
    Other,
}

/// One node of the document: its parent (an earlier node), and its content.
pub struct DomNode {
    pub parent: Option<usize>,
    pub data: NodeData,
}

/// The ghost content of a node.
pub enum SpecData {
    Element { tag: Seq<char>, attrs: Seq<(Seq<char>, Seq<char>)> },
    Text(Seq<char>),
    Other,
}

/// The ghost form of a node.
pub struct SpecNode {
    pub parent: Option<int>,
    pub data: SpecData,
}

/// The ghost form of a whole document: its nodes in document order.
pub type DomView = Seq<SpecNode>;

impl View for NodeData {
    type V = SpecData;

    open spec fn view(&self) -> SpecData {
        match self {
            NodeData::Element { tag, attrs } => SpecData::Element {
                tag: tag@,
                attrs: attrs@.map_values(|kv: (Vec<char>, Vec<char>)| (kv.0@, kv.1@)),
            },
            NodeData::Text(t) => SpecData::Text(t@),
            NodeData::Other => SpecData::Other,
        }
    }
}

impl View for DomNode {
    type V = SpecNode;

    open spec fn view(&self) -> SpecNode {
        SpecNode {
            parent: match self.parent {
                Some(p) => Some(p as int),
                None => None,
            },
            data: self.data@,
        }
    }
}

/// Parents always precede their children in document order.
pub open spec fn spec_wf(d: DomView) -> bool {
    forall|i: int|
        0 <= i < d.len() ==> match #[trigger] d[i].parent {
            Some(p) => 0 <= p < i,
            None => true,
        }
}

/// Whether node `a` is a strict ancestor of node `i`.
pub open spec fn is_anc(d: DomView, a: int, i: int) -> bool
    decreases i,
{
    0 <= i < d.len() && match d[i].parent {
        Some(p) => 0 <= p < i && (p == a || is_anc(d, a, p)),
        None => false,
    }
}

/// Whether node `a` is `i` itself or a strict ancestor of it.
pub open spec fn anc_or_self(d: DomView, a: int, i: int) -> bool {
    a == i || is_anc(d, a, i)
}

pub open spec fn is_elem(d: DomView, i: int) -> bool {
    0 <= i < d.len() && d[i].data is Element
}

pub open spec fn tag_of(d: DomView, i: int) -> Seq<char> {
    match d[i].data {
        SpecData::Element { tag, .. } => tag,
        _ => Seq::empty(),
    }
}

pub open spec fn tag_is(d: DomView, i: int, t: Seq<char>) -> bool {
    is_elem(d, i) && tag_of(d, i) == t
}

pub open spec fn is_text(d: DomView, i: int) -> bool {
    0 <= i < d.len() && d[i].data is Text
}

pub open spec fn text_data(d: DomView, i: int) -> Seq<char> {
    match d[i].data {
        SpecData::Text(t) => t,
        _ => Seq::empty(),
    }
}

/// First attribute entry whose name matches `name_lower` after ASCII
/// lowering of the attribute name.
pub open spec fn attr_lookup(attrs: Seq<(Seq<char>, Seq<char>)>, name_lower: Seq<char>) -> Option<
    Seq<char>,
>
    decreases attrs.len(),
{
    if attrs.len() == 0 {
        None
    } else if spec_lower_ascii_seq(attrs[0].0) == name_lower {
        Some(attrs[0].1)
    } else {
        attr_lookup(attrs.drop_first(), name_lower)
    }
}

/// The value of attribute `name` of node `i`; attribute names match
/// case-insensitively (ASCII), first entry wins.
pub open spec fn attr_of(d: DomView, i: int, name: Seq<char>) -> Option<Seq<char>> {
    if is_elem(d, i) {
        match d[i].data {
            SpecData::Element { attrs, .. } => attr_lookup(attrs, spec_lower_ascii_seq(name)),
            _ => None,
        }
    } else {
        None
    }
}

/// Whether node `i` carries attribute `name` with exactly the value `v`.
pub open spec fn attr_is(d: DomView, i: int, name: Seq<char>, v: Seq<char>) -> bool {
    attr_of(d, i, name) == Some(v)
}

/// The text contributed by nodes `< j` of the subtree rooted at `i`:
/// the concatenation, in document order, of every text run whose node is
/// `i` itself or a descendant of it.
pub open spec fn text_upto(d: DomView, i: int, j: int) -> Seq<char>
    decreases j,
{
    if j <= 0 {
        Seq::empty()
    } else {
        text_upto(d, i, j - 1) + (if anc_or_self(d, i, j - 1) && is_text(d, j - 1) {
            text_data(d, j - 1)
        } else {
            Seq::empty()
        })
    }
}

/// The concatenated text of the subtree rooted at `i`.
pub open spec fn spec_text_of(d: DomView, i: int) -> Seq<char> {
    text_upto(d, i, d.len() as int)
}

/// The nearest preceding node with the same parent, if any.
pub open spec fn prev_sibling(d: DomView, i: int) -> Option<int> {
    if 0 <= i < d.len() {
        prev_sibling_scan(d, d[i].parent, i)
    } else {
        None
    }
}

pub open spec fn prev_sibling_scan(d: DomView, par: Option<int>, j: int) -> Option<int>
    decreases j,
{
    if j <= 0 {
        None
    } else if d[j - 1].parent == par {
        Some(j - 1)
    } else {
        prev_sibling_scan(d, par, j - 1)
    }
}

/// The nearest following node with the same parent, if any.
pub open spec fn next_sibling(d: DomView, i: int) -> Option<int> {
    if 0 <= i < d.len() {
        next_sibling_scan(d, d[i].parent, i + 1, d.len() as int)
    } else {
        None
    }
}

pub open spec fn next_sibling_scan(d: DomView, par: Option<int>, j: int, end: int) -> Option<int>
    decreases end - j,
{
    if j < 0 || j >= end || j >= d.len() {
        None
    } else if d[j].parent == par {
        Some(j)
    } else {
        next_sibling_scan(d, par, j + 1, end)
    }
}

/// The first child of `i` that is a text run, and its content.
pub open spec fn first_child_text(d: DomView, i: int) -> Option<Seq<char>> {
    first_child_text_scan(d, i, i + 1)
}

pub open spec fn first_child_text_scan(d: DomView, i: int, j: int) -> Option<Seq<char>>
    decreases d.len() - j,
{
    if j < 0 || j >= d.len() {
        None
    } else if d[j].parent == Some(i) {
        if d[j].data is Text {
            Some(text_data(d, j))
        } else {
            first_child_text_scan(d, i, j + 1)
        }
    } else {
        first_child_text_scan(d, i, j + 1)
    }
}

/// A parsed document: nodes in document order, parents before children.
pub struct Dom {
    nodes: Vec<DomNode>,
}

impl View for Dom {
    type V = DomView;

    closed spec fn view(&self) -> DomView {
        self.nodes@.map_values(|n: DomNode| n@)
    }
}

impl Dom {
    #[verifier::type_invariant]
    pub open spec fn inv(self) -> bool {
        spec_wf(self@)
    }

    /// Builds a document from nodes; `None` when a parent link does not
    /// point to an earlier node.
    pub fn new(nodes: Vec<DomNode>) -> (r: Option<Dom>)
        ensures
            r is Some <==> spec_wf(nodes@.map_values(|n: DomNode| n@)),
            r matches Some(dom) ==> dom@ == nodes@.map_values(|n: DomNode| n@),
    {
        let ghost view = nodes@.map_values(|n: DomNode| n@);
        let mut i: usize = 0;
        while i < nodes.len()
            invariant
                i <= nodes@.len(),
                view == nodes@.map_values(|n: DomNode| n@),
                forall|k: int|
                    0 <= k < i ==> match #[trigger] view[k].parent {
                        Some(p) => 0 <= p < k,
                        None => true,
                    },
            decreases nodes.len() - i,
        {
            match nodes[i].parent {
                Some(p) => {
                    if p >= i {
                        proof {
                            assert(view[i as int].parent == Some(p as int));
                            assert(!spec_wf(view));
                        }
                        return None;
                    }
                },
                None => {},
            }
            proof {
                assert(view[i as int].parent == match nodes@[i as int].parent {
                    Some(p) => Some(p as int),
                    None => None,
                });
            }
            i = i + 1;
        }
        Some(Dom { nodes })
    }

    /// The number of nodes.
    pub fn len(&self) -> (r: usize)
        ensures
            r == self@.len(),
    {
        self.nodes.len()
    }

    pub fn parent_of(&self, i: usize) -> (r: Option<usize>)
        requires
            i < self@.len(),
        ensures
            match r {
                Some(p) => self@[i as int].parent == Some(p as int) && p < i,
                None => self@[i as int].parent is None,
            },
    {
        proof {
            use_type_invariant(self);
            assert(self@[i as int] == self.nodes@[i as int]@);
        }
        self.nodes[i].parent
    }

    /// Whether node `i` is an element with exactly the tag `t`.
    pub fn tag_is(&self, i: usize, t: &str) -> (r: bool)
        requires
            i < self@.len(),
        ensures
            r == tag_is(self@, i as int, t@),
    {
        proof {
            assert(self@[i as int] == self.nodes@[i as int]@);
        }
        match &self.nodes[i].data {
            NodeData::Element { tag, .. } => eq_str(tag.as_slice(), t),
            _ => false,
        }
    }

    /// Whether node `i` is an element.
    pub fn is_elem(&self, i: usize) -> (r: bool)
        requires
            i < self@.len(),
        ensures
            r == is_elem(self@, i as int),
    {
        proof {
            assert(self@[i as int] == self.nodes@[i as int]@);
        }
        match &self.nodes[i].data {
            NodeData::Element { .. } => true,
            _ => false,
        }
    }

    /// The tag of element `i`, or empty for non-elements.
    pub fn tag(&self, i: usize) -> (r: Vec<char>)
        requires
            i < self@.len(),
        ensures
            r@ == tag_of(self@, i as int) || (!is_elem(self@, i as int) && r@.len() == 0),
            is_elem(self@, i as int) ==> r@ == tag_of(self@, i as int),
    {
        proof {
            assert(self@[i as int] == self.nodes@[i as int]@);
        }
        match &self.nodes[i].data {
            NodeData::Element { tag, .. } => {
                let mut r: Vec<char> = Vec::new();
                let mut k: usize = 0;
                while k < tag.len()
                    invariant
                        k <= tag@.len(),
                        r@ == tag@.subrange(0, k as int),
                    decreases tag.len() - k,
                {
                    r.push(tag[k]);
                    proof {
                        assert(tag@.subrange(0, k + 1 as int) =~= tag@.subrange(0, k as int).push(
                            tag@[k as int],
                        ));
                    }
                    k = k + 1;
                }
                proof {
                    assert(tag@.subrange(0, tag@.len() as int) =~= tag@);
                }
                r
            },
            _ => Vec::new(),
        }
    }

    /// Whether node `i` is a text run; hands back its content.
    pub fn as_text(&self, i: usize) -> (r: Option<Vec<char>>)
        requires
            i < self@.len(),
        ensures
            r is Some <==> is_text(self@, i as int),
            r matches Some(t) ==> t@ == text_data(self@, i as int),
    {
        proof {
            assert(self@[i as int] == self.nodes@[i as int]@);
        }
        match &self.nodes[i].data {
            NodeData::Text(t) => {
                let mut r: Vec<char> = Vec::new();
                let mut k: usize = 0;
                while k < t.len()
                    invariant
                        k <= t@.len(),
                        r@ == t@.subrange(0, k as int),
                    decreases t.len() - k,
                {
                    r.push(t[k]);
                    proof {
                        assert(t@.subrange(0, k + 1 as int) =~= t@.subrange(0, k as int).push(
                            t@[k as int],
                        ));
                    }
                    k = k + 1;
                }
                proof {
                    assert(t@.subrange(0, t@.len() as int) =~= t@);
                }
                Some(r)
            },
            _ => None,
        }
    }

    /// The value of attribute `name` of node `i`, first match on the
    /// ASCII-lowered attribute name.
    pub fn attr(&self, i: usize, name: &str) -> (r: Option<Vec<char>>)
        requires
            i < self@.len(),
        ensures
            r is Some <==> attr_of(self@, i as int, name@) is Some,
            r matches Some(v) ==> attr_of(self@, i as int, name@) == Some(v@),
    {
        proof {
            assert(self@[i as int] == self.nodes@[i as int]@);
        }
        let name_chars = chars_of(name);
        let name_lower = lower_ascii_vec(name_chars.as_slice());
        match &self.nodes[i].data {
            NodeData::Element { tag, attrs } => {
                let ghost sattrs = attrs@.map_values(
                    |kv: (Vec<char>, Vec<char>)| (kv.0@, kv.1@),
                );
                proof {
                    assert(sattrs.subrange(0, sattrs.len() as int) =~= sattrs);
                    assert(self@[i as int].data == SpecData::Element { tag: tag@, attrs: sattrs });
                    assert(attr_of(self@, i as int, name@) == attr_lookup(
                        sattrs,
                        spec_lower_ascii_seq(name@),
                    ));
                }
                let mut k: usize = 0;
                while k < attrs.len()
                    invariant
                        k <= attrs@.len(),
                        sattrs == attrs@.map_values(|kv: (Vec<char>, Vec<char>)| (kv.0@, kv.1@)),
                        name_lower@ == spec_lower_ascii_seq(name@),
                        attr_of(self@, i as int, name@) == attr_lookup(sattrs, name_lower@),
                        attr_lookup(sattrs, name_lower@) == attr_lookup(
                            sattrs.subrange(k as int, sattrs.len() as int),
                            name_lower@,
                        ),
                    decreases attrs.len() - k,
                {
    proof {
                        let rest = sattrs.subrange(k as int, sattrs.len() as int);
                        assert(rest[0] == sattrs[k as int]);
                        assert(sattrs[k as int] == (attrs@[k as int].0@, attrs@[k as int].1@));
                        assert(rest.drop_first() =~= sattrs.subrange(
                            k + 1 as int,
                            sattrs.len() as int,
                        ));
                    }
                    let key_lower = lower_ascii_vec(attrs[k].0.as_slice());
                    if slice_eq(key_lower.as_slice(), name_lower.as_slice()) {
                        proof {
                            let rest = sattrs.subrange(k as int, sattrs.len() as int);
                            assert(spec_lower_ascii_seq(rest[0].0) == name_lower@);
                            assert(attr_lookup(rest, name_lower@) == Some(rest[0].1));
                            assert(attr_of(self@, i as int, name@) == Some(
                                attrs@[k as int].1@,
                            ));
                        }
                        let v = &attrs[k].1;
                        let mut r: Vec<char> = Vec::new();
                        let mut m: usize = 0;
                        while m < v.len()
                            invariant
                                m <= v@.len(),
                                r@ == v@.subrange(0, m as int),
                            decreases v.len() - m,
                        {
                            r.push(v[m]);
                            proof {
                                assert(v@.subrange(0, m + 1 as int) =~= v@.subrange(
                                    0,
                                    m as int,
                                ).push(v@[m as int]));
                            }
                            m = m + 1;
                        }
                        proof {
                            assert(v@.subrange(0, v@.len() as int) =~= v@);
                        }
                        return Some(r);
                    }
                    k = k + 1;
                }
                proof {
                    assert(sattrs.subrange(sattrs.len() as int, sattrs.len() as int)
                        =~= Seq::<(Seq<char>, Seq<char>)>::empty());
                }
                None
            },
            _ => None,
        }
    }

    /// Whether node `i` carries attribute `name` at all.
    pub fn has_attr(&self, i: usize, name: &str) -> (r: bool)
        requires
            i < self@.len(),
        ensures
            r == (attr_of(self@, i as int, name@) is Some),
    {
        self.attr(i, name).is_some()
    }

    /// Whether node `i` carries attribute `name` with exactly the value `v`.
    pub fn attr_is(&self, i: usize, name: &str, v: &str) -> (r: bool)
        requires
            i < self@.len(),
        ensures
            r == attr_is(self@, i as int, name@, v@),
    {
        match self.attr(i, name) {
            Some(val) => eq_str(val.as_slice(), v),
            None => false,
        }
    }

    /// Whether node `a` is a strict ancestor of node `i`.
    pub fn has_ancestor(&self, a: usize, i: usize) -> (r: bool)
        requires
            i < self@.len(),
        ensures
            r == is_anc(self@, a as int, i as int),
    {
        proof {
            use_type_invariant(self);
        }
        let mut cur: usize = i;
        loop
            invariant
                cur < self@.len(),
                spec_wf(self@),
                is_anc(self@, a as int, i as int) == is_anc(self@, a as int, cur as int),
            decreases cur,
        {
            match self.parent_of(cur) {
                Some(p) => {
                    if p == a {
                        return true;
                    }
                    cur = p;
                },
                None => {
                    return false;
                },
            }
        }
    }

    /// Whether node `a` is node `i` or a strict ancestor of it.
    pub fn anc_or_self(&self, a: usize, i: usize) -> (r: bool)
        requires
            i < self@.len(),
        ensures
            r == anc_or_self(self@, a as int, i as int),
    {
        a == i || self.has_ancestor(a, i)
    }

    /// The concatenated text of the subtree rooted at `i`, in document
    /// order.
    pub fn text_of(&self, i: usize) -> (r: Vec<char>)
        requires
            i < self@.len(),
        ensures
            r@ == spec_text_of(self@, i as int),
    {
        let mut r: Vec<char> = Vec::new();
        let n = self.len();
        let mut j: usize = 0;
        while j < n
            invariant
                j <= n,
                n == self@.len(),
                i < self@.len(),
                r@ == text_upto(self@, i as int, j as int),
            decreases n - j,
        {
            if self.anc_or_self(i, j) {
                match self.as_text(j) {
                    Some(t) => {
                        let mut m: usize = 0;
                        let ghost base = r@;
                        while m < t.len()
                            invariant
                                m <= t@.len(),
                                r@ == base + t@.subrange(0, m as int),
                            decreases t.len() - m,
                        {
                            r.push(t[m]);
                            proof {
                                assert(t@.subrange(0, m + 1 as int) =~= t@.subrange(
                                    0,
                                    m as int,
                                ).push(t@[m as int]));
                                assert(base + t@.subrange(0, m + 1 as int) =~= (base + t@.subrange(
                                    0,
                                    m as int,
                                )).push(t@[m as int]));
                            }
                            m = m + 1;
                        }
                        proof {
                            assert(t@.subrange(0, t@.len() as int) =~= t@);
                        }
                    },
                    None => {},
                }
            }
            j = j + 1;
        }
        r
    }

    /// The nearest preceding sibling of `i`, if any.
    pub fn prev_sib(&self, i: usize) -> (r: Option<usize>)
        requires
            i < self@.len(),
        ensures
            match r {
                Some(p) => prev_sibling(self@, i as int) == Some(p as int) && p < i,
                None => prev_sibling(self@, i as int) is None,
            },
    {
        if i == 0 {
            return None;
        }
        let ghost par = self@[i as int].parent;
        let mut j: usize = i;
        while j > 0
            invariant
                j <= i < self@.len(),
                prev_sibling(self@, i as int) == prev_sibling_scan(
                    self@,
                    self@[i as int].parent,
                    j as int,
                ),
            decreases j,
        {
            let same = match (self.parent_of(j - 1), self.parent_of(i)) {
                (Some(a), Some(b)) => a == b,
                (None, None) => true,
                _ => false,
            };
            if same {
                return Some(j - 1);
            }
            j = j - 1;
        }
        None
    }

    /// The nearest following sibling of `i`, if any.
    pub fn next_sib(&self, i: usize) -> (r: Option<usize>)
        requires
            i < self@.len(),
        ensures
            match r {
                Some(p) => next_sibling(self@, i as int) == Some(p as int) && i < p
                    < self@.len(),
                None => next_sibling(self@, i as int) is None,
            },
    {
        let n = self.len();
        let mut j: usize = i + 1;
        while j < n
            invariant
                i < j <= n,
                n == self@.len(),
                next_sibling(self@, i as int) == next_sibling_scan(
                    self@,
                    self@[i as int].parent,
                    j as int,
                    self@.len() as int,
                ),
            decreases n - j,
        {
            let same = match (self.parent_of(j), self.parent_of(i)) {
                (Some(a), Some(b)) => a == b,
                (None, None) => true,
                _ => false,
            };
            if same {
                return Some(j);
            }
            j = j + 1;
        }
        None
    }

    /// The content of the first text-run child of `i`, if any.
    pub fn first_child_text(&self, i: usize) -> (r: Option<Vec<char>>)
        requires
            i < self@.len(),
        ensures
            r is Some <==> first_child_text(self@, i as int) is Some,
            r matches Some(t) ==> first_child_text(self@, i as int) == Some(t@),
    {
        let n = self.len();
        let mut j: usize = i + 1;
        while j < n
            invariant
                i < j <= n || j == i + 1,
                n == self@.len(),
                i < self@.len(),
                first_child_text(self@, i as int) == first_child_text_scan(
                    self@,
                    i as int,
                    j as int,
                ),
            decreases n - j,
        {
            let is_child = match self.parent_of(j) {
                Some(p) => p == i,
                None => false,
            };
            if is_child {
                match self.as_text(j) {
                    Some(t) => {
                        return Some(t);
                    },
                    None => {},
                }
            }
            j = j + 1;
        }
        None
    }
}

/// The attribute entries of node `i`, or empty for non-elements.
pub open spec fn attr_entries(d: DomView, i: int) -> Seq<(Seq<char>, Seq<char>)> {
    match d[i].data {
        SpecData::Element { attrs, .. } => attrs,
        _ => Seq::empty(),
    }
}

impl Dom {
    /// A copy of the attribute entries of node `i`, in document order.
    pub fn attrs_list(&self, i: usize) -> (r: Vec<(Vec<char>, Vec<char>)>)
        requires
            i < self@.len(),
        ensures
            is_elem(self@, i as int) ==> r@.map_values(
                |kv: (Vec<char>, Vec<char>)| (kv.0@, kv.1@),
            ) == attr_entries(self@, i as int),
            !is_elem(self@, i as int) ==> r@.len() == 0,
    {
        proof {
            assert(self@[i as int] == self.nodes@[i as int]@);
        }
        match &self.nodes[i].data {
            NodeData::Element { tag, attrs } => {
                let ghost sattrs = attrs@.map_values(
                    |kv: (Vec<char>, Vec<char>)| (kv.0@, kv.1@),
                );
                proof {
                    assert(self@[i as int].data == SpecData::Element { tag: tag@, attrs: sattrs });
                }
                let mut r: Vec<(Vec<char>, Vec<char>)> = Vec::new();
                let mut k: usize = 0;
                while k < attrs.len()
                    invariant
                        k <= attrs@.len(),
                        sattrs == attrs@.map_values(|kv: (Vec<char>, Vec<char>)| (kv.0@, kv.1@)),
                        r@.map_values(|kv: (Vec<char>, Vec<char>)| (kv.0@, kv.1@))
                            == sattrs.subrange(0, k as int),
                    decreases attrs.len() - k,
                {
                    proof {
                        assert(sattrs[k as int] == (attrs@[k as int].0@, attrs@[k as int].1@));
                    }
                    let key = crate::chars::clone_chars(attrs[k].0.as_slice());
                    let val = crate::chars::clone_chars(attrs[k].1.as_slice());
                    let ghost old_m = r@.map_values(|kv: (Vec<char>, Vec<char>)| (kv.0@, kv.1@));
                    r.push((key, val));
                    proof {
                        assert(r@.map_values(|kv: (Vec<char>, Vec<char>)| (kv.0@, kv.1@))
                            =~~= old_m.push((key@, val@)));
                        assert(old_m.push((key@, val@)) =~~= sattrs.subrange(0, k + 1 as int));
                    }
                    k = k + 1;
                }
                proof {
                    assert(sattrs.subrange(0, sattrs.len() as int) =~= sattrs);
                }
                r
            },
            _ => Vec::new(),
        }
    }
}

} // verus!
