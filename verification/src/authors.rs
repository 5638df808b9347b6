//! The author extractor: finds byline-bearing elements, parses bylines
//! into names, cleans them, and returns the case-insensitively deduplicated
//! list sorted by lowercase form.

use vstd::prelude::*;

use crate::chars::{
    clone_chars, contains_char, lex_le, lex_le_exec, seq_contains, slice_eq, spec_is_digit,
    spec_is_space, spec_trim, string_from_chars, trim, contains_str, eq_str, is_space, is_digit,
};
use crate::dom::{
    anc_or_self, attr_entries, attr_of, is_anc, is_elem, is_text, tag_is, tag_of, text_data, Dom,
    DomView,
};
use crate::noise::{has_class_token, spec_is_noise_node};
use crate::split::{spec_replace, spec_strip_tags, spec_words, split_words, strip_tags, Sep};
use crate::text::spec_is_noise_text;
use crate::unicode::{lower_chars, lower_of};

verus! {

/// Whether the text holds an ASCII digit.
pub open spec fn spec_contains_digits(s: Seq<char>) -> bool {
    exists|i: int| 0 <= i < s.len() && spec_is_digit(s[i])
}

/// Whether the text holds an ASCII digit.
pub fn contains_digits(s: &[char]) -> (r: bool)
    ensures
        r == spec_contains_digits(s@),
{
    let mut i: usize = 0;
    while i < s.len()
        invariant
            i <= s@.len(),
            forall|k: int| 0 <= k < i ==> !spec_is_digit(s@[k]),
        decreases s.len() - i,
    {
        if is_digit(s[i]) {
            return true;
        }
        i = i + 1;
    }
    false
}

/// A plausible person name: two to four words, no digits, no angle
/// brackets.
pub open spec fn spec_is_valid_name(s: Seq<char>) -> bool {
    let wc = spec_words(s, Sep::Space).len();
    1 < wc < 5 && !spec_contains_digits(s) && !s.contains('<') && !s.contains('>')
}

/// Whether the text is a plausible person name.
pub fn is_valid_name(s: &[char]) -> (r: bool)
    ensures
        r == spec_is_valid_name(s@),
{
    let wc = crate::split::count_words(s, Sep::Space);
    wc > 1 && wc < 5 && !contains_digits(s) && !contains_char(s, '<') && !contains_char(s, '>')
}

/// The stop words stripped from author names, in the order they are
/// applied.
pub open spec fn replace_stops(s: Seq<char>) -> Seq<char> {
    spec_replace(
        spec_replace(
            spec_replace(
                spec_replace(
                    spec_replace(
                        spec_replace(
                            spec_replace(
                                spec_replace(
                                    spec_replace(
                                        spec_replace(
                                            spec_replace(
                                                spec_replace(s, "By"@, ""@),
                                                "Reuters"@,
                                                ""@,
                                            ),
                                            "IANS"@,
                                            ""@,
                                        ),
                                        "AP"@,
                                        ""@,
                                    ),
                                    "AFP"@,
                                    ""@,
                                ),
                                "PTI"@,
                                ""@,
                            ),
                            "ANI"@,
                            ""@,
                        ),
                        "DPA"@,
                        ""@,
                    ),
                    "Senior Reporter"@,
                    ""@,
                ),
                "Reporter"@,
                ""@,
            ),
            "Writer"@,
            ""@,
        ),
        "Opinion Writer"@,
        ""@,
    )
}

/// A punctuation or whitespace char trimmed from the ends of names.
pub open spec fn name_trim_char(c: char) -> bool {
    c == '.' || c == ',' || c == '-' || c == '/' || spec_is_space(c)
}

pub open spec fn name_trim_start(s: Seq<char>) -> Seq<char>
    decreases s.len(),
{
    if s.len() > 0 && name_trim_char(s[0]) {
        name_trim_start(s.drop_first())
    } else {
        s
    }
}

pub open spec fn name_trim_end(s: Seq<char>) -> Seq<char>
    decreases s.len(),
{
    if s.len() > 0 && name_trim_char(s[s.len() - 1]) {
        name_trim_end(s.drop_last())
    } else {
        s
    }
}

pub open spec fn name_trim(s: Seq<char>) -> Seq<char> {
    name_trim_end(name_trim_start(s))
}

proof fn lemma_name_trim_start_subrange(s: Seq<char>, i: int)
    requires
        0 <= i <= s.len(),
        forall|k: int| 0 <= k < i ==> name_trim_char(s[k]),
    ensures
        name_trim_start(s) == name_trim_start(s.subrange(i, s.len() as int)),
    decreases i,
{
    if i == 0 {
        assert(s.subrange(0, s.len() as int) =~= s);
    }
    if i > 0 {
        assert(name_trim_char(s[0]));
        assert(s.drop_first() =~= s.subrange(1, s.len() as int));
        lemma_name_trim_start_subrange(s.subrange(1, s.len() as int), i - 1);
        assert(s.subrange(1, s.len() as int).subrange(i - 1, s.len() - 1) =~= s.subrange(
            i,
            s.len() as int,
        ));
    }
}

proof fn lemma_name_trim_end_subrange(s: Seq<char>, j: int)
    requires
        0 <= j <= s.len(),
        forall|k: int| j <= k < s.len() ==> name_trim_char(s[k]),
    ensures
        name_trim_end(s) == name_trim_end(s.subrange(0, j)),
    decreases s.len() - j,
{
    if j == s.len() {
        assert(s.subrange(0, s.len() as int) =~= s);
    }
    if j < s.len() {
        assert(name_trim_char(s[s.len() - 1]));
        assert(s.drop_last() =~= s.subrange(0, s.len() - 1));
        lemma_name_trim_end_subrange(s.subrange(0, s.len() - 1), j);
        assert(s.subrange(0, s.len() - 1).subrange(0, j) =~= s.subrange(0, j));
    }
}

/// Trims name punctuation and whitespace from both ends.
pub fn name_trim_exec(s: &[char]) -> (r: Vec<char>)
    ensures
        r@ == name_trim(s@),
{
    let mut i: usize = 0;
    while i < s.len() && (s[i] == '.' || s[i] == ',' || s[i] == '-' || s[i] == '/' || is_space(
        s[i],
    ))
        invariant
            i <= s@.len(),
            forall|k: int| 0 <= k < i ==> name_trim_char(s@[k]),
        decreases s.len() - i,
    {
        i = i + 1;
    }
    let mut j: usize = s.len();
    while j > i && (s[j - 1] == '.' || s[j - 1] == ',' || s[j - 1] == '-' || s[j - 1] == '/'
        || is_space(s[j - 1]))
        invariant
            i <= j <= s@.len(),
            forall|k: int| 0 <= k < i ==> name_trim_char(s@[k]),
            forall|k: int| j <= k < s@.len() ==> name_trim_char(s@[k]),
        decreases j,
    {
        j = j - 1;
    }
    let mut r: Vec<char> = Vec::new();
    let mut k: usize = i;
    while k < j
        invariant
            i <= k <= j <= s@.len(),
            r@ == s@.subrange(i as int, k as int),
        decreases j - k,
    {
        r.push(s[k]);
        proof {
            assert(s@.subrange(i as int, k + 1 as int) =~= s@.subrange(i as int, k as int).push(
                s@[k as int],
            ));
        }
        k = k + 1;
    }
    proof {
        lemma_name_trim_start_subrange(s@, i as int);
        let t = s@.subrange(i as int, s@.len() as int);
        if i < s@.len() {
            assert(!name_trim_char(t[0]));
            assert(name_trim_start(t) == t);
        } else {
            assert(t =~= Seq::<char>::empty());
        }
        lemma_name_trim_end_subrange(t, j - i);
        assert(t.subrange(0, j - i) =~= s@.subrange(i as int, j as int));
        let u = s@.subrange(i as int, j as int);
        if i < j {
            assert(u[u.len() - 1] == s@[j - 1]);
            assert(!name_trim_char(u[u.len() - 1]));
            assert(name_trim_end(u) == u);
        } else {
            assert(u =~= Seq::<char>::empty());
        }
    }
    r
}

/// Trims name punctuation and whitespace from the end alone.
pub fn name_trim_end_exec(s: &[char]) -> (r: Vec<char>)
    ensures
        r@ == name_trim_end(s@),
{
    let mut j: usize = s.len();
    while j > 0 && (s[j - 1] == '.' || s[j - 1] == ',' || s[j - 1] == '-' || s[j - 1] == '/'
        || is_space(s[j - 1]))
        invariant
            j <= s@.len(),
            forall|k: int| j <= k < s@.len() ==> name_trim_char(s@[k]),
        decreases j,
    {
        j = j - 1;
    }
    let mut r: Vec<char> = Vec::new();
    let mut k: usize = 0;
    while k < j
        invariant
            k <= j <= s@.len(),
            r@ == s@.subrange(0, k as int),
        decreases j - k,
    {
        r.push(s[k]);
        proof {
            assert(s@.subrange(0, k + 1 as int) =~= s@.subrange(0, k as int).push(s@[k as int]));
        }
        k = k + 1;
    }
    proof {
        lemma_name_trim_end_subrange(s@, j as int);
        let u = s@.subrange(0, j as int);
        if j > 0 {
            assert(u[u.len() - 1] == s@[j - 1]);
            assert(!name_trim_char(u[u.len() - 1]));
            assert(name_trim_end(u) == u);
        } else {
            assert(u =~= Seq::<char>::empty());
        }
    }
    r
}

/// Cleans one author name: trims it, strips the stop words and any HTML
/// tags, and trims name punctuation.
pub open spec fn spec_clean_author(s: Seq<char>) -> Seq<char> {
    name_trim(spec_strip_tags(replace_stops(spec_trim(s))))
}

/// Cleans one author name.
pub fn clean_author(s: &[char]) -> (r: Vec<char>)
    ensures
        r@ == spec_clean_author(s@),
{
    let t = trim(s);
    let mut v = crate::split::replace_str(t.as_slice(), "By", "");
    v = crate::split::replace_str(v.as_slice(), "Reuters", "");
    v = crate::split::replace_str(v.as_slice(), "IANS", "");
    v = crate::split::replace_str(v.as_slice(), "AP", "");
    v = crate::split::replace_str(v.as_slice(), "AFP", "");
    v = crate::split::replace_str(v.as_slice(), "PTI", "");
    v = crate::split::replace_str(v.as_slice(), "ANI", "");
    v = crate::split::replace_str(v.as_slice(), "DPA", "");
    v = crate::split::replace_str(v.as_slice(), "Senior Reporter", "");
    v = crate::split::replace_str(v.as_slice(), "Reporter", "");
    v = crate::split::replace_str(v.as_slice(), "Writer", "");
    v = crate::split::replace_str(v.as_slice(), "Opinion Writer", "");
    let stripped = strip_tags(v.as_slice());
    name_trim_exec(stripped.as_slice())
}

/// Byline whitespace normalisation: line breaks, tabs and no-break spaces
/// become plain spaces.
pub open spec fn map_byline_ws(s: Seq<char>) -> Seq<char> {
    s.map_values(
        |c: char|
            if c == '\n' || c == '\t' || c == '\r' || c == '\u{a0}' {
                ' '
            } else {
                c
            },
    )
}

fn map_byline_ws_exec(s: &[char]) -> (r: Vec<char>)
    ensures
        r@ == map_byline_ws(s@),
{
    let mut r: Vec<char> = Vec::new();
    let mut i: usize = 0;
    while i < s.len()
        invariant
            i <= s@.len(),
            r@ == map_byline_ws(s@.subrange(0, i as int)),
        decreases s.len() - i,
    {
        let c = s[i];
        let m = if c == '\n' || c == '\t' || c == '\r' || c == '\u{a0}' {
            ' '
        } else {
            c
        };
        r.push(m);
        proof {
            assert(map_byline_ws(s@.subrange(0, i + 1 as int)) =~= map_byline_ws(
                s@.subrange(0, i as int),
            ).push(
                if s@[i as int] == '\n' || s@[i as int] == '\t' || s@[i as int] == '\r'
                    || s@[i as int] == '\u{a0}' {
                    ' '
                } else {
                    s@[i as int]
                },
            ));
        }
        i = i + 1;
    }
    proof {
        assert(s@.subrange(0, s@.len() as int) =~= s@);
    }
    r
}

/// When a token has more than two words, only the first two are kept.
pub open spec fn spec_first_two(t: Seq<char>) -> Seq<char> {
    let ws = spec_words(t, Sep::Space);
    if ws.len() > 2 {
        ws[0] + " "@ + ws[1]
    } else {
        t
    }
}

/// The cleaned names parsed out of one byline token list, up to `k`: each
/// token is cleaned first, must then be a plausible name, and is cut to
/// its first two words when longer.
pub open spec fn byline_names_upto(toks: Seq<Seq<char>>, k: int) -> Seq<Seq<char>>
    decreases k,
{
    if k <= 0 {
        Seq::empty()
    } else {
        byline_names_upto(toks, k - 1) + {
            let a = spec_clean_author(spec_trim(toks[k - 1]));
            if spec_is_valid_name(a) {
                seq![spec_first_two(a)]
            } else {
                Seq::empty()
            }
        }
    }
}

/// The cleaned author names parsed out of a byline.
pub open spec fn spec_parse_byline(s: Seq<char>) -> Seq<Seq<char>> {
    let toks = spec_words(map_byline_ws(s), Sep::Byline);
    byline_names_upto(toks, toks.len() as int)
}

/// Splits a byline on its separators, cleans each token, and keeps the
/// plausible names, cut to their first two words.
pub fn parse_byline(s: &[char]) -> (r: Vec<Vec<char>>)
    ensures
        r.deep_view() == spec_parse_byline(s@),
{
    let mapped = map_byline_ws_exec(s);
    let toks = split_words(mapped.as_slice(), Sep::Byline);
    let ghost tv = spec_words(map_byline_ws(s@), Sep::Byline);
    let mut r: Vec<Vec<char>> = Vec::new();
    let mut k: usize = 0;
    while k < toks.len()
        invariant
            k <= toks@.len(),
            toks.deep_view() == tv,
            toks@.len() == tv.len(),
            r.deep_view() == byline_names_upto(tv, k as int),
        decreases toks.len() - k,
    {
        proof {
            assert(toks.deep_view()[k as int] == toks@[k as int]@);
        }
        let tt = trim(toks[k].as_slice());
        let a = clean_author(tt.as_slice());
        proof {
            crate::chars::lemma_trim_idempotent(toks@[k as int]@);
            assert(a@ == spec_clean_author(spec_trim(tv[k as int])));
        }
        if is_valid_name(a.as_slice()) {
            let ws = split_words(a.as_slice(), Sep::Space);
            let name: Vec<char> = if ws.len() > 2 {
                let mut n = clone_chars(ws[0].as_slice());
                n.push(' ');
                let mut m: usize = 0;
                let w1 = &ws[1];
                let ghost base = n@;
                while m < w1.len()
                    invariant
                        m <= w1@.len(),
                        n@ == base + w1@.subrange(0, m as int),
                    decreases w1.len() - m,
                {
                    n.push(w1[m]);
                    proof {
                        assert(w1@.subrange(0, m + 1 as int) =~= w1@.subrange(0, m as int).push(
                            w1@[m as int],
                        ));
                        assert(base + w1@.subrange(0, m + 1 as int) =~= (base + w1@.subrange(
                            0,
                            m as int,
                        )).push(w1@[m as int]));
                    }
                    m = m + 1;
                }
                proof {
                    assert(ws.deep_view()[0] == ws@[0]@);
                    assert(ws.deep_view()[1] == ws@[1]@);
                    assert(w1@.subrange(0, w1@.len() as int) =~= w1@);
                    assert(n@ =~= spec_words(a@, Sep::Space)[0] + " "@ + spec_words(
                        a@,
                        Sep::Space,
                    )[1]) by {
                        reveal_strlit(" ");
                        assert(ws@[0]@.push(' ') =~= ws@[0]@ + " "@);
                    }
                }
                n
            } else {
                clone_chars(a.as_slice())
            };
            proof {
                assert(name@ == spec_first_two(spec_clean_author(spec_trim(tv[k as int]))));
            }
            let ghost old_r = r.deep_view();
            r.push(name);
            proof {
                assert(r.deep_view() =~~= old_r.push(
                    spec_first_two(spec_clean_author(spec_trim(tv[k as int]))),
                ));
                assert(old_r + seq![
                    spec_first_two(spec_clean_author(spec_trim(tv[k as int]))),
                ] =~~= old_r.push(spec_first_two(spec_clean_author(spec_trim(tv[k as int])))));
            }
        } else {
            proof {
                assert(!spec_is_valid_name(spec_clean_author(spec_trim(tv[k as int]))));
                assert(r.deep_view() + Seq::<Seq<char>>::empty() =~~= r.deep_view());
            }
        }
        k = k + 1;
    }
    proof {
        assert(byline_names_upto(tv, tv.len() as int) == r.deep_view());
    }
    r
}

/// A node hidden from byline text: one of the screen-reader classes.
pub open spec fn author_hidden(d: DomView, a: int) -> bool {
    has_class_token(d, a, "hidden"@) || has_class_token(d, a, "sr-only"@) || has_class_token(
        d,
        a,
        "visually-hidden"@,
    )
}

/// Whether the path from descendant `j` up to (but not including) node `i`
/// passes a hidden or noise node.
pub open spec fn author_path_bad(d: DomView, i: int, j: int) -> bool {
    exists|a: int|
        anc_or_self(d, a, j) && (a == j || is_anc(d, i, a)) && (author_hidden(d, a)
            || spec_is_noise_node(d, a))
}

/// Whether text run `j` under node `i` contributes to the author text.
pub open spec fn author_included(d: DomView, i: int, j: int) -> bool {
    is_anc(d, i, j) && is_text(d, j) && !author_path_bad(d, i, j) && !spec_is_noise_text(
        spec_trim(text_data(d, j)),
    )
}

/// The author text gathered from nodes `< j`: each kept text run followed
/// by a single space.
pub open spec fn author_concat_upto(d: DomView, i: int, j: int) -> Seq<char>
    decreases j,
{
    if j <= 0 {
        Seq::empty()
    } else {
        author_concat_upto(d, i, j - 1) + if author_included(d, i, j - 1) {
            text_data(d, j - 1) + " "@
        } else {
            Seq::empty()
        }
    }
}

/// The cleaned text of a byline element: its `content` attribute for a
/// `<meta>`, else the trimmed concatenation of its visible text runs.
pub open spec fn spec_author_text(d: DomView, i: int) -> Seq<char> {
    if tag_is(d, i, "meta"@) {
        match attr_of(d, i, "content"@) {
            Some(c) => c,
            None => Seq::empty(),
        }
    } else {
        spec_trim(author_concat_upto(d, i, d.len() as int))
    }
}

impl Dom {
    fn author_path_bad_exec(&self, i: usize, j: usize) -> (r: bool)
        requires
            i < self@.len(),
            j < self@.len(),
        ensures
            r == author_path_bad(self@, i as int, j as int),
    {
        let n = self.len();
        let mut a: usize = 0;
        while a < n
            invariant
                a <= n,
                n == self@.len(),
                i < self@.len(),
                j < self@.len(),
                forall|x: int|
                    0 <= x < a ==> !(anc_or_self(self@, x, j as int) && (x == j as int || is_anc(
                        self@,
                        i as int,
                        x,
                    )) && (author_hidden(self@, x) || spec_is_noise_node(self@, x))),
            decreases n - a,
        {
            if self.anc_or_self(a, j) && (a == j || self.has_ancestor(i, a)) {
                let hidden = self.class_token(a, "hidden") || self.class_token(a, "sr-only")
                    || self.class_token(a, "visually-hidden");
                if hidden || self.is_noise_node(a) {
                    proof {
                        assert(anc_or_self(self@, a as int, j as int) && (a as int == j as int
                            || is_anc(self@, i as int, a as int)) && (author_hidden(
                            self@,
                            a as int,
                        ) || spec_is_noise_node(self@, a as int)));
                    }
                    return true;
                }
            }
            a = a + 1;
        }
        proof {
            assert forall|x: int|
                !(anc_or_self(self@, x, j as int) && (x == j as int || is_anc(self@, i as int, x))
                    && (author_hidden(self@, x) || spec_is_noise_node(self@, x))) by {
                if 0 <= x < self@.len() {
                } else {
                    assert(!(x == j as int));
                    assert(!is_anc(self@, i as int, x));
                }
            }
        }
        false
    }

    /// The cleaned byline text of node `i`: the `content` attribute for a
    /// `<meta>`, else the visible descendant text runs joined by spaces.
    pub fn author_text(&self, i: usize) -> (r: Vec<char>)
        requires
            i < self@.len(),
        ensures
            r@ == spec_author_text(self@, i as int),
    {
        if self.tag_is(i, "meta") {
            return match self.attr(i, "content") {
                Some(c) => c,
                None => Vec::new(),
            };
        }
        let n = self.len();
        let mut acc: Vec<char> = Vec::new();
        let mut j: usize = 0;
        while j < n
            invariant
                j <= n,
                n == self@.len(),
                i < self@.len(),
                acc@ == author_concat_upto(self@, i as int, j as int),
            decreases n - j,
        {
            let mut keep = false;
            if self.has_ancestor(i, j) {
                match self.as_text(j) {
                    Some(t) => {
                        if !self.author_path_bad_exec(i, j) && !crate::text::is_noise_text(
                            t.as_slice(),
                        ) {
                            keep = true;
                            let ghost base = acc@;
                            let mut m: usize = 0;
                            while m < t.len()
                                invariant
                                    m <= t@.len(),
                                    acc@ == base + t@.subrange(0, m as int),
                                decreases t.len() - m,
                            {
                                acc.push(t[m]);
                                proof {
                                    assert(t@.subrange(0, m + 1 as int) =~= t@.subrange(
                                        0,
                                        m as int,
                                    ).push(t@[m as int]));
                                    assert(base + t@.subrange(0, m + 1 as int) =~= (base
                                        + t@.subrange(0, m as int)).push(t@[m as int]));
                                }
                                m = m + 1;
                            }
                            acc.push(' ');
                            proof {
                                assert(t@.subrange(0, t@.len() as int) =~= t@);
                                assert(author_included(self@, i as int, j as int));
                                assert(acc@ =~= base + (text_data(self@, j as int) + " "@)) by {
                                    reveal_strlit(" ");
                                    assert((base + t@).push(' ') =~= base + (t@ + " "@));
                                }
                            }
                        }
                    },
                    None => {},
                }
            }
            proof {
                if !keep {
                    assert(!author_included(self@, i as int, j as int));
                    assert(acc@ + Seq::<char>::empty() =~= acc@);
                }
            }
            j = j + 1;
        }
        trim(acc.as_slice())
    }
}

/// The byline attribute names.
pub open spec fn is_author_attr_name(a: Seq<char>) -> bool {
    a == "name"@ || a == "rel"@ || a == "itemprop"@ || a == "class"@ || a == "id"@ || a
        == "property"@
}

/// The byline attribute values, matched as substrings of the lowered
/// attribute value.
pub open spec fn author_val_match(v: Seq<char>) -> bool {
    seq_contains(v, "author"@) || seq_contains(v, "byline"@) || seq_contains(v, "dc.creator"@)
        || seq_contains(v, "byl"@) || seq_contains(v, "article:author"@) || seq_contains(
        v,
        "article:author_name"@,
    ) || seq_contains(v, "story-byline"@) || seq_contains(v, "article-author"@) || seq_contains(
        v,
        "parsely-author"@,
    ) || seq_contains(v, "sailthru.author"@) || seq_contains(v, "citation_author"@)
}

/// Whether some attribute of node `j` marks it as byline-bearing.
pub open spec fn node_author_match(d: DomView, j: int) -> bool {
    exists|k: int|
        0 <= k < attr_entries(d, j).len() && is_author_attr_name(
            lower_of(#[trigger] attr_entries(d, j)[k].0),
        ) && author_val_match(lower_of(attr_entries(d, j)[k].1))
}

/// Whether node `j` is scanned for authors: an element other than script,
/// style or time, with a byline attribute.
pub open spec fn author_node_eligible(d: DomView, j: int) -> bool {
    &&& is_elem(d, j)
    &&& lower_of(tag_of(d, j)) != "script"@
    &&& lower_of(tag_of(d, j)) != "style"@
    &&& lower_of(tag_of(d, j)) != "time"@
    &&& node_author_match(d, j)
}

/// The byline content of node `j`: the meta `content` attribute, else the
/// element's cleaned author text.
pub open spec fn author_content(d: DomView, j: int) -> Seq<char> {
    if lower_of(tag_of(d, j)) == "meta"@ {
        match attr_of(d, j, "content"@) {
            Some(c) => c,
            None => Seq::empty(),
        }
    } else {
        spec_author_text(d, j)
    }
}

/// Drops empty names.
pub open spec fn keep_nonempty(s: Seq<Seq<char>>) -> Seq<Seq<char>>
    decreases s.len(),
{
    if s.len() == 0 {
        Seq::empty()
    } else {
        keep_nonempty(s.drop_last()) + if s.last().len() > 0 {
            seq![s.last()]
        } else {
            Seq::empty()
        }
    }
}

/// The raw author names gathered from nodes `< j`.
pub open spec fn raw_authors_upto(d: DomView, j: int) -> Seq<Seq<char>>
    decreases j,
{
    if j <= 0 {
        Seq::empty()
    } else {
        raw_authors_upto(d, j - 1) + if author_node_eligible(d, j - 1) {
            keep_nonempty(spec_parse_byline(author_content(d, j - 1)))
        } else {
            Seq::empty()
        }
    }
}

/// Case-insensitive first-seen deduplication with a final cleaning and
/// validity pass, over the first `k` raw names.
pub open spec fn dedup_authors_upto(raw: Seq<Seq<char>>, k: int) -> Seq<Seq<char>>
    decreases k,
{
    if k <= 0 {
        Seq::empty()
    } else {
        let prev = dedup_authors_upto(raw, k - 1);
        let a = spec_clean_author(raw[k - 1]);
        if spec_is_valid_name(a) && a.len() > 0 && !(exists|i: int|
            0 <= i < prev.len() && lower_of(#[trigger] prev[i]) == lower_of(a)) {
            prev + seq![a]
        } else {
            prev
        }
    }
}

/// Inserts a name into a list sorted ascending by lowercase form.
pub open spec fn insert_by_lower(x: Seq<char>, s: Seq<Seq<char>>) -> Seq<Seq<char>>
    decreases s.len(),
{
    if s.len() == 0 {
        seq![x]
    } else if lex_le(lower_of(x), lower_of(s[0])) {
        seq![x] + s
    } else {
        seq![s[0]] + insert_by_lower(x, s.drop_first())
    }
}

/// Insertion sort by lowercase form over the first `k` names.
pub open spec fn sort_authors_upto(s: Seq<Seq<char>>, k: int) -> Seq<Seq<char>>
    decreases k,
{
    if k <= 0 {
        Seq::empty()
    } else {
        insert_by_lower(s[k - 1], sort_authors_upto(s, k - 1))
    }
}

/// The extracted author list: the cleaned byline names of the document,
/// case-insensitively deduplicated keeping the first form seen, sorted
/// ascending by lowercase form.
pub open spec fn spec_authors(d: DomView) -> Seq<Seq<char>> {
    let raw = raw_authors_upto(d, d.len() as int);
    let ded = dedup_authors_upto(raw, raw.len() as int);
    sort_authors_upto(ded, ded.len() as int)
}

impl Dom {
    fn author_node_eligible_exec(&self, j: usize) -> (r: bool)
        requires
            j < self@.len(),
        ensures
            r == author_node_eligible(self@, j as int),
    {
        if !self.is_elem(j) {
            return false;
        }
        let tag = self.tag(j);
        proof {
            assert(tag@ =~= tag_of(self@, j as int));
        }
        let tl = lower_chars(tag.as_slice());
        if eq_str(tl.as_slice(), "script") || eq_str(tl.as_slice(), "style") || eq_str(
            tl.as_slice(),
            "time",
        ) {
            return false;
        }
        let attrs = self.attrs_list(j);
        let ghost sattrs = attr_entries(self@, j as int);
        let mut k: usize = 0;
        while k < attrs.len()
            invariant
                k <= attrs@.len(),
                j < self@.len(),
                is_elem(self@, j as int),
                lower_of(tag_of(self@, j as int)) != "script"@,
                lower_of(tag_of(self@, j as int)) != "style"@,
                lower_of(tag_of(self@, j as int)) != "time"@,
                attrs@.map_values(|kv: (Vec<char>, Vec<char>)| (kv.0@, kv.1@)) == sattrs,
                attrs@.len() == sattrs.len(),
                sattrs == attr_entries(self@, j as int),
                forall|x: int|
                    0 <= x < k ==> !(is_author_attr_name(lower_of(#[trigger] sattrs[x].0))
                        && author_val_match(lower_of(sattrs[x].1))),
            decreases attrs.len() - k,
        {
            proof {
                assert(sattrs[k as int] == (attrs@[k as int].0@, attrs@[k as int].1@));
            }
            let an = lower_chars(attrs[k].0.as_slice());
            let a = an.as_slice();
            if eq_str(a, "name") || eq_str(a, "rel") || eq_str(a, "itemprop") || eq_str(a, "class")
                || eq_str(a, "id") || eq_str(a, "property") {
                let av = lower_chars(attrs[k].1.as_slice());
                let v = av.as_slice();
                if contains_str(v, "author") || contains_str(v, "byline") || contains_str(
                    v,
                    "dc.creator",
                ) || contains_str(v, "byl") || contains_str(v, "article:author") || contains_str(
                    v,
                    "article:author_name",
                ) || contains_str(v, "story-byline") || contains_str(v, "article-author")
                    || contains_str(v, "parsely-author") || contains_str(v, "sailthru.author")
                    || contains_str(v, "citation_author") {
                    proof {
                        assert(is_author_attr_name(lower_of(attr_entries(self@, j as int)[
                            k as int].0)));
                        assert(author_val_match(lower_of(attr_entries(self@, j as int)[
                            k as int].1)));
                        assert(node_author_match(self@, j as int));
                    }
                    return true;
                }
            }
            k = k + 1;
        }
        proof {
            assert(!node_author_match(self@, j as int));
        }
        false
    }

    fn author_content_exec(&self, j: usize) -> (r: Vec<char>)
        requires
            j < self@.len(),
        ensures
            r@ == author_content(self@, j as int),
    {
        let tag = self.tag(j);
        proof {
            assert(tag@ =~= tag_of(self@, j as int));
        }
        let tl = lower_chars(tag.as_slice());
        if eq_str(tl.as_slice(), "meta") {
            match self.attr(j, "content") {
                Some(c) => c,
                None => Vec::new(),
            }
        } else {
            self.author_text(j)
        }
    }

    /// Extract all the listed authors for the article: cleaned byline
    /// names, deduplicated case-insensitively and sorted by lowercase
    /// form.
    pub fn authors(&self) -> (r: Vec<String>)
        ensures
            r@.map_values(|s: String| s@) == spec_authors(self@),
    {
        let n = self.len();
        let mut raw: Vec<Vec<char>> = Vec::new();
        let mut j: usize = 0;
        while j < n
            invariant
                j <= n,
                n == self@.len(),
                raw.deep_view() == raw_authors_upto(self@, j as int),
            decreases n - j,
        {
            if self.author_node_eligible_exec(j) {
                let content = self.author_content_exec(j);
                let names = parse_byline(content.as_slice());
                let ghost pv = spec_parse_byline(author_content(self@, j as int));
                let mut m: usize = 0;
                while m < names.len()
                    invariant
                        m <= names@.len(),
                        names.deep_view() == pv,
                        names@.len() == pv.len(),
                        raw.deep_view() == raw_authors_upto(self@, j as int) + keep_nonempty(
                            pv.subrange(0, m as int),
                        ),
                    decreases names.len() - m,
                {
                    proof {
                        assert(names.deep_view()[m as int] == names@[m as int]@);
                        let pre = pv.subrange(0, m + 1 as int);
                        assert(pre.drop_last() =~= pv.subrange(0, m as int));
                        assert(pre.last() == pv[m as int]);
                    }
                    if names[m].len() > 0 {
                        let ghost old_r = raw.deep_view();
                        let nm = clone_chars(names[m].as_slice());
                        raw.push(nm);
                        proof {
                            assert(raw.deep_view() =~~= old_r.push(pv[m as int]));
                            assert(raw_authors_upto(self@, j as int) + (keep_nonempty(
                                pv.subrange(0, m as int),
                            ) + seq![pv[m as int]]) =~~= old_r.push(pv[m as int]));
                        }
                    } else {
                        proof {
                            assert(keep_nonempty(pv.subrange(0, m + 1 as int)) =~~= keep_nonempty(
                                pv.subrange(0, m as int),
                            ));
                        }
                    }
                    m = m + 1;
                }
                proof {
                    assert(pv.subrange(0, pv.len() as int) =~= pv);
                    assert(raw.deep_view() =~~= raw_authors_upto(self@, j + 1 as int));
                }
            } else {
                proof {
                    assert(raw.deep_view() + Seq::<Seq<char>>::empty() =~~= raw.deep_view());
                }
            }
            j = j + 1;
        }
        // case-insensitive first-seen deduplication with final cleaning
        let ghost rawv = raw_authors_upto(self@, self@.len() as int);
        let mut ded: Vec<Vec<char>> = Vec::new();
        let mut keys: Vec<Vec<char>> = Vec::new();
        let mut k: usize = 0;
        while k < raw.len()
            invariant
                k <= raw@.len(),
                raw.deep_view() == rawv,
                raw@.len() == rawv.len(),
                ded.deep_view() == dedup_authors_upto(rawv, k as int),
                keys@.len() == ded@.len(),
                forall|x: int|
                    0 <= x < keys@.len() ==> #[trigger] keys@[x]@ == lower_of(ded.deep_view()[x]),
            decreases raw.len() - k,
        {
            proof {
                assert(raw.deep_view()[k as int] == raw@[k as int]@);
            }
            let a = clean_author(raw[k].as_slice());
            if is_valid_name(a.as_slice()) && a.len() > 0 {
                let key = lower_chars(a.as_slice());
                let mut seen = false;
                let mut x: usize = 0;
                while x < keys.len()
                    invariant
                        x <= keys@.len(),
                        keys@.len() == ded@.len(),
                        forall|y: int|
                            0 <= y < keys@.len() ==> #[trigger] keys@[y]@ == lower_of(
                                ded.deep_view()[y],
                            ),
                        seen == exists|y: int|
                            0 <= y < x && lower_of(#[trigger] ded.deep_view()[y]) == key@,
                    decreases keys.len() - x,
                {
                    if !seen && slice_eq(keys[x].as_slice(), key.as_slice()) {
                        proof {
                            assert(lower_of(ded.deep_view()[x as int]) == key@);
                        }
                        seen = true;
                    }
                    x = x + 1;
                }
                if !seen {
                    let ghost old_d = ded.deep_view();
                    ded.push(a);
                    keys.push(key);
                    proof {
                        assert(ded.deep_view() =~~= old_d.push(
                            spec_clean_author(rawv[k as int]),
                        ));
                        assert(old_d + seq![spec_clean_author(rawv[k as int])] =~~= old_d.push(
                            spec_clean_author(rawv[k as int]),
                        ));
                    }
                }
            }
            k = k + 1;
        }
        // insertion sort ascending by lowercase form
        let ghost dedv = dedup_authors_upto(rawv, rawv.len() as int);
        let mut sorted: Vec<Vec<char>> = Vec::new();
        let mut k2: usize = 0;
        while k2 < ded.len()
            invariant
                k2 <= ded@.len(),
                ded.deep_view() == dedv,
                ded@.len() == dedv.len(),
                sorted.deep_view() == sort_authors_upto(dedv, k2 as int),
            decreases ded.len() - k2,
        {
            proof {
                assert(ded.deep_view()[k2 as int] == ded@[k2 as int]@);
            }
            let x = clone_chars(ded[k2].as_slice());
            let key = lower_chars(x.as_slice());
            let mut pos: usize = 0;
            let ghost sv = sorted.deep_view();
            loop
                invariant
                    pos <= sorted@.len(),
                    sorted.deep_view() == sv,
                    sorted@.len() == sv.len(),
                    key@ == lower_of(x@),
                    forall|y: int|
                        0 <= y < pos ==> !lex_le(lower_of(x@), lower_of(#[trigger] sv[y])),
                ensures
                    pos <= sv.len(),
                    forall|y: int|
                        0 <= y < pos ==> !lex_le(lower_of(x@), lower_of(#[trigger] sv[y])),
                    pos < sv.len() ==> lex_le(lower_of(x@), lower_of(sv[pos as int])),
                decreases sv.len() - pos,
            {
                if pos >= sorted.len() {
                    break;
                }
                proof {
                    assert(sorted.deep_view()[pos as int] == sorted@[pos as int]@);
                }
                let keyed = lower_chars(sorted[pos].as_slice());
                if lex_le_exec(key.as_slice(), keyed.as_slice()) {
                    break;
                }
                pos = pos + 1;
            }
            proof {
                lemma_insert_at(x@, sv, pos as int);
            }
            sorted.insert(pos, x);
            proof {
                assert(sorted.deep_view() =~~= sv.subrange(0, pos as int) + seq![
                    dedv[k2 as int],
                ] + sv.subrange(pos as int, sv.len() as int));
            }
            k2 = k2 + 1;
        }
        // hand the names out as strings
        let ghost finalv = sort_authors_upto(dedv, dedv.len() as int);
        let mut out: Vec<String> = Vec::new();
        let mut k3: usize = 0;
        while k3 < sorted.len()
            invariant
                k3 <= sorted@.len(),
                sorted.deep_view() == finalv,
                sorted@.len() == finalv.len(),
                out@.map_values(|s: String| s@) == finalv.subrange(0, k3 as int),
            decreases sorted.len() - k3,
        {
            proof {
                assert(sorted.deep_view()[k3 as int] == sorted@[k3 as int]@);
            }
            let ghost old_o = out@.map_values(|s: String| s@);
            let s = string_from_chars(sorted[k3].as_slice());
            out.push(s);
            proof {
                assert(out@.map_values(|s: String| s@) =~~= old_o.push(finalv[k3 as int]));
                assert(old_o.push(finalv[k3 as int]) =~~= finalv.subrange(0, k3 + 1 as int));
            }
            k3 = k3 + 1;
        }
        proof {
            assert(finalv.subrange(0, finalv.len() as int) =~= finalv);
        }
        out
    }
}

/// Inserting at the first position whose key is not below `x`'s key is
/// what the recursive insertion does.
proof fn lemma_insert_at(x: Seq<char>, s: Seq<Seq<char>>, pos: int)
    requires
        0 <= pos <= s.len(),
        forall|y: int| 0 <= y < pos ==> !lex_le(lower_of(x), lower_of(#[trigger] s[y])),
        pos < s.len() ==> lex_le(lower_of(x), lower_of(s[pos])),
    ensures
        insert_by_lower(x, s) == s.subrange(0, pos) + seq![x] + s.subrange(pos, s.len() as int),
    decreases s.len(),
{
    if s.len() == 0 {
        assert(insert_by_lower(x, s) =~= s.subrange(0, 0) + seq![x] + s.subrange(0, 0));
    } else if lex_le(lower_of(x), lower_of(s[0])) {
        assert(pos == 0);
        assert(insert_by_lower(x, s) =~= s.subrange(0, 0) + seq![x] + s.subrange(
            0,
            s.len() as int,
        ));
    } else {
        assert(pos >= 1);
        lemma_insert_at(x, s.drop_first(), pos - 1);
        assert(s.drop_first().subrange(0, pos - 1) =~= s.subrange(1, pos));
        assert(s.drop_first().subrange(pos - 1, s.drop_first().len() as int) =~= s.subrange(
            pos,
            s.len() as int,
        ));
        assert(insert_by_lower(x, s) =~= seq![s[0]] + (s.subrange(1, pos) + seq![x] + s.subrange(
            pos,
            s.len() as int,
        )));
        assert(seq![s[0]] + (s.subrange(1, pos) + seq![x] + s.subrange(pos, s.len() as int))
            =~= s.subrange(0, pos) + seq![x] + s.subrange(pos, s.len() as int));
    }
}


/// Extract all the listed authors for the article.
pub fn authors(dom: &Dom) -> (r: Vec<String>)
    ensures
        r@.map_values(|s: String| s@) == spec_authors(dom@),
{
    dom.authors()
}


/// The cleaned byline text of an element.
pub fn author_text(dom: &Dom, node: usize) -> (r: Vec<char>)
    requires
        node < dom@.len(),
    ensures
        r@ == spec_author_text(dom@, node as int),
{
    dom.author_text(node)
}


} // verus!
