//! The article text pipeline: noise-text and code-like heuristics, the
//! promotional-footer filter, and the extraction of cleaned body text from
//! the selected article node.

use vstd::prelude::*;

use crate::chars::{
    byte_len, chars_of, contains_char, contains_str, seq_contains, spec_byte_len, spec_is_space,
    spec_trim, starts_with_str, seq_starts_with, trim,
};
use crate::dom::{attr_of, is_anc, tag_is, Dom, DomView, spec_text_of};
use crate::noise::spec_is_noise_node;
use crate::split::{spec_join, spec_replace, spec_words, join_parts, replace_str, split_words, Sep};
use crate::unicode::{
    char_is_alphabetic, char_is_alphanumeric, char_is_uppercase, is_alnum, is_alpha, is_upper,
};

verus! {

/// How many chars of `s` are alphabetic.
pub open spec fn count_alpha(s: Seq<char>) -> int
    decreases s.len(),
{
    if s.len() == 0 {
        0
    } else {
        count_alpha(s.drop_last()) + if is_alpha(s.last()) {
            1int
        } else {
            0int
        }
    }
}

/// How many chars of `s` are whitespace.
pub open spec fn count_space(s: Seq<char>) -> int
    decreases s.len(),
{
    if s.len() == 0 {
        0
    } else {
        count_space(s.drop_last()) + if spec_is_space(s.last()) {
            1int
        } else {
            0int
        }
    }
}

/// How many chars of `s` are neither alphanumeric nor whitespace.
pub open spec fn count_special(s: Seq<char>) -> int
    decreases s.len(),
{
    if s.len() == 0 {
        0
    } else {
        count_special(s.drop_last()) + if !is_alnum(s.last()) && !spec_is_space(s.last()) {
            1int
        } else {
            0int
        }
    }
}

fn count_alpha_exec(s: &[char]) -> (r: usize)
    ensures
        r == count_alpha(s@),
{
    let mut r: usize = 0;
    let mut i: usize = 0;
    while i < s.len()
        invariant
            i <= s@.len(),
            r <= i,
            r == count_alpha(s@.subrange(0, i as int)),
        decreases s.len() - i,
    {
        proof {
            let pre = s@.subrange(0, i + 1 as int);
            assert(pre.drop_last() =~= s@.subrange(0, i as int));
            assert(pre.last() == s@[i as int]);
        }
        if char_is_alphabetic(s[i]) {
            r = r + 1;
        }
        i = i + 1;
    }
    proof {
        assert(s@.subrange(0, s@.len() as int) =~= s@);
    }
    r
}

fn count_space_exec(s: &[char]) -> (r: usize)
    ensures
        r == count_space(s@),
{
    let mut r: usize = 0;
    let mut i: usize = 0;
    while i < s.len()
        invariant
            i <= s@.len(),
            r <= i,
            r == count_space(s@.subrange(0, i as int)),
        decreases s.len() - i,
    {
        proof {
            let pre = s@.subrange(0, i + 1 as int);
            assert(pre.drop_last() =~= s@.subrange(0, i as int));
            assert(pre.last() == s@[i as int]);
        }
        if crate::chars::is_space(s[i]) {
            r = r + 1;
        }
        i = i + 1;
    }
    proof {
        assert(s@.subrange(0, s@.len() as int) =~= s@);
    }
    r
}

fn count_special_exec(s: &[char]) -> (r: usize)
    ensures
        r == count_special(s@),
{
    let mut r: usize = 0;
    let mut i: usize = 0;
    while i < s.len()
        invariant
            i <= s@.len(),
            r <= i,
            r == count_special(s@.subrange(0, i as int)),
        decreases s.len() - i,
    {
        proof {
            let pre = s@.subrange(0, i + 1 as int);
            assert(pre.drop_last() =~= s@.subrange(0, i as int));
            assert(pre.last() == s@[i as int]);
        }
        if !char_is_alphanumeric(s[i]) && !crate::chars::is_space(s[i]) {
            r = r + 1;
        }
        i = i + 1;
    }
    proof {
        assert(s@.subrange(0, s@.len() as int) =~= s@);
    }
    r
}

/// Whether any char of `s` is uppercase.
pub open spec fn any_upper(s: Seq<char>) -> bool {
    exists|i: int| 0 <= i < s.len() && is_upper(s[i])
}

fn any_upper_exec(s: &[char]) -> (r: bool)
    ensures
        r == any_upper(s@),
{
    let mut i: usize = 0;
    while i < s.len()
        invariant
            i <= s@.len(),
            forall|k: int| 0 <= k < i ==> !is_upper(s@[k]),
        decreases s.len() - i,
    {
        if char_is_uppercase(s[i]) {
            return true;
        }
        i = i + 1;
    }
    false
}

/// Whether an (already trimmed) text looks like stylesheet, script or
/// tracking noise rather than prose.
pub open spec fn spec_is_noise_text(s: Seq<char>) -> bool {
    if spec_byte_len(s) < 10 {
        false
    } else {
        (seq_contains(s, "stylesheet"@) && seq_contains(s, ".css"@)) || (seq_contains(s, "rel=\""@)
            && seq_contains(s, "href=\""@)) || seq_contains(s, "<script"@) || seq_contains(
            s,
            "<style"@,
        ) || seq_contains(s, "<link"@) || seq_contains(s, "<meta"@) || (seq_contains(
            s,
            "position: absolute"@,
        ) && seq_contains(s, "left: -9999px"@)) || seq_starts_with(s, "http://"@) || seq_starts_with(
            s,
            "https://"@,
        ) || seq_contains(s, "/dist/"@) || seq_contains(s, "/assets/"@) || (s.contains('-')
            && s.contains('.') && any_upper(s) && spec_words(s, Sep::Space).len() == 1
            && spec_byte_len(s) > 20)
    }
}

/// Whether the text, once trimmed, looks like noise.
pub fn is_noise_text(t: &[char]) -> (r: bool)
    ensures
        r == spec_is_noise_text(spec_trim(t@)),
{
    let st = trim(t);
    let s = st.as_slice();
    if byte_len(s) < 10 {
        return false;
    }
    if contains_str(s, "stylesheet") && contains_str(s, ".css") {
        return true;
    }
    if contains_str(s, "rel=\"") && contains_str(s, "href=\"") {
        return true;
    }
    if contains_str(s, "<script") || contains_str(s, "<style") || contains_str(s, "<link")
        || contains_str(s, "<meta") {
        return true;
    }
    if contains_str(s, "position: absolute") && contains_str(s, "left: -9999px") {
        return true;
    }
    if starts_with_str(s, "http://") || starts_with_str(s, "https://") {
        return true;
    }
    if contains_str(s, "/dist/") || contains_str(s, "/assets/") {
        return true;
    }
    if contains_char(s, '-') && contains_char(s, '.') && any_upper_exec(s) {
        let wc = crate::split::count_words(s, Sep::Space);
        if wc == 1 && byte_len(s) > 20 {
            return true;
        }
    }
    false
}

/// Whether a trimmed line reads like code rather than prose: many special
/// chars with few words, or specific code shapes.
pub open spec fn spec_is_code_like_line(l: Seq<char>) -> bool {
    (spec_words(l, Sep::Space).len() > 0 && 10 * count_special(l) > 3 * spec_byte_len(l)
        && spec_words(l, Sep::Space).len() < 5) || (l.contains(';') && l.contains('=')
        && !l.contains(' ')) || (seq_contains(l, "()"@) && l.contains('.')) || seq_starts_with(
        l,
        "src="@,
    ) || seq_starts_with(l, "alt="@) || seq_starts_with(l, "class="@) || seq_starts_with(
        l,
        "height="@,
    )
}

/// Whether the line, once trimmed, reads like code.
pub fn is_code_like_line(t: &[char]) -> (r: bool)
    ensures
        r == spec_is_code_like_line(spec_trim(t@)),
{
    let lt = trim(t);
    let l = lt.as_slice();
    let wc = crate::split::count_words(l, Sep::Space);
    if wc > 0 {
        let special = count_special_exec(l);
        let blen = byte_len(l);
        if 10 * (special as u128) > 3 * blen && wc < 5 {
            return true;
        }
    }
    (contains_char(l, ';') && contains_char(l, '=') && !contains_char(l, ' ')) || (contains_str(
        l,
        "()",
    ) && contains_char(l, '.')) || starts_with_str(l, "src=") || starts_with_str(l, "alt=")
        || starts_with_str(l, "class=") || starts_with_str(l, "height=")
}

/// Whether a line has too few letters to be content: under 30 percent
/// alphabetic chars, or no chars at all.
pub open spec fn spec_is_low_content_line(l: Seq<char>) -> bool {
    if l.len() == 0 {
        true
    } else {
        10 * count_alpha(l) < 3 * l.len()
    }
}

pub fn is_low_content_line(l: &[char]) -> (r: bool)
    ensures
        r == spec_is_low_content_line(l@),
{
    let total = l.len();
    if total == 0 {
        return true;
    }
    let alpha = count_alpha_exec(l);
    10 * (alpha as u128) < 3 * (total as u128)
}

/// Whether a trimmed text looks like meaningful prose: free of script,
/// style and markup shapes, with sensible letter and space ratios.
pub open spec fn spec_is_likely_content_text(s: Seq<char>) -> bool {
    if spec_byte_len(s) < 10 {
        false
    } else if seq_contains(s, "function("@) || seq_contains(s, "=>"@) || seq_contains(s, "const "@)
        || seq_contains(s, "let "@) || seq_contains(s, "var "@) || seq_contains(s, "getCookie"@)
        || seq_contains(s, "navigator."@) || seq_contains(s, "XMLHttpRequest"@) {
        false
    } else if seq_starts_with(s, "http://"@) || seq_starts_with(s, "https://"@) || seq_contains(
        s,
        "/dist/"@,
    ) || seq_contains(s, "/assets/"@) || seq_contains(s, ".css"@) || seq_contains(s, ".js"@) {
        false
    } else if (seq_contains(s, "class="@) && s.contains('"')) || (seq_contains(s, "src="@)
        && s.contains('"')) || (seq_contains(s, "alt="@) && s.contains('"')) || (seq_contains(
        s,
        "height="@,
    ) && s.contains('"')) {
        false
    } else if seq_contains(s, "webvisor:"@) || seq_contains(s, "clickmap:"@) || seq_contains(
        s,
        "trackLinks:"@,
    ) || seq_contains(s, "analytics."@) {
        false
    } else if s.len() == 0 {
        false
    } else {
        5 * count_alpha(s) > 2 * s.len() && 20 * count_space(s) > s.len() && 20 * count_alpha(s)
            < 19 * s.len()
    }
}

/// Whether the text, once trimmed, looks like meaningful prose.
pub fn is_likely_content_text(t: &[char]) -> (r: bool)
    ensures
        r == spec_is_likely_content_text(spec_trim(t@)),
{
    let st = trim(t);
    let s = st.as_slice();
    if byte_len(s) < 10 {
        return false;
    }
    if contains_str(s, "function(") || contains_str(s, "=>") || contains_str(s, "const ")
        || contains_str(s, "let ") || contains_str(s, "var ") || contains_str(s, "getCookie")
        || contains_str(s, "navigator.") || contains_str(s, "XMLHttpRequest") {
        return false;
    }
    if starts_with_str(s, "http://") || starts_with_str(s, "https://") || contains_str(s, "/dist/")
        || contains_str(s, "/assets/") || contains_str(s, ".css") || contains_str(s, ".js") {
        return false;
    }
    if (contains_str(s, "class=") && contains_char(s, '"')) || (contains_str(s, "src=")
        && contains_char(s, '"')) || (contains_str(s, "alt=") && contains_char(s, '"')) || (
    contains_str(s, "height=") && contains_char(s, '"')) {
        return false;
    }
    if contains_str(s, "webvisor:") || contains_str(s, "clickmap:") || contains_str(
        s,
        "trackLinks:",
    ) || contains_str(s, "analytics.") {
        return false;
    }
    if s.len() == 0 {
        return false;
    }
    let alpha = count_alpha_exec(s);
    let space = count_space_exec(s);
    let total = s.len();
    5 * (alpha as u128) > 2 * (total as u128) && 20 * (space as u128) > (total as u128) && 20 * (
    alpha as u128) < 19 * (total as u128)
}

/// Whether a line, once trimmed, contains HTML tags or CSS and JS shapes.
pub open spec fn spec_is_noise_line(l: Seq<char>) -> bool {
    (l.contains('<') && l.contains('>')) || (l.contains('{') && l.contains('}')) || (l.contains(';')
        && l.contains(':') && !seq_contains(l, "://"@)) || seq_starts_with(l, "//"@)
        || seq_starts_with(l, "/*"@)
}

pub fn is_noise_line(t: &[char]) -> (r: bool)
    ensures
        r == spec_is_noise_line(spec_trim(t@)),
{
    let lt = trim(t);
    let l = lt.as_slice();
    (contains_char(l, '<') && contains_char(l, '>')) || (contains_char(l, '{') && contains_char(
        l,
        '}',
    )) || (contains_char(l, ';') && contains_char(l, ':') && !contains_str(l, "://"))
        || starts_with_str(l, "//") || starts_with_str(l, "/*")
}

/// Whether node `j` likely carries code: an inline event handler that looks
/// like script, or a parent `<script>`/`<style>`.
pub open spec fn spec_is_likely_code_node(d: DomView, j: int) -> bool {
    (spec_code_handler(first_handler(d, j))) || (0 <= j < d.len() && (d[j].parent matches Some(p)
        && (tag_is(d, p, "script"@) || tag_is(d, p, "style"@))))
}

/// The first of the `onclick`, `onload`, `onsubmit` attributes present.
pub open spec fn first_handler(d: DomView, j: int) -> Option<Seq<char>> {
    if attr_of(d, j, "onclick"@) is Some {
        attr_of(d, j, "onclick"@)
    } else if attr_of(d, j, "onload"@) is Some {
        attr_of(d, j, "onload"@)
    } else {
        attr_of(d, j, "onsubmit"@)
    }
}

pub open spec fn spec_code_handler(h: Option<Seq<char>>) -> bool {
    h matches Some(a) && (seq_contains(a, "function"@) || a.contains('('))
}

impl Dom {
    /// Whether node `j` likely carries code rather than content.
    pub fn is_likely_code_node(&self, j: usize) -> (r: bool)
        requires
            j < self@.len(),
        ensures
            r == spec_is_likely_code_node(self@, j as int),
    {
        let handler = match self.attr(j, "onclick") {
            Some(a) => Some(a),
            None => match self.attr(j, "onload") {
                Some(a) => Some(a),
                None => self.attr(j, "onsubmit"),
            },
        };
        let by_handler = match handler {
            Some(a) => contains_str(a.as_slice(), "function") || contains_char(a.as_slice(), '('),
            None => false,
        };
        if by_handler {
            return true;
        }
        match self.parent_of(j) {
            Some(p) => self.tag_is(p, "script") || self.tag_is(p, "style"),
            None => false,
        }
    }

    /// Whether paragraph `j` is a promotional footer: it has links, and
    /// every one of them carries `rel` containing `nofollow`.
    pub fn is_promotional_footer(&self, j: usize) -> (r: bool)
        requires
            j < self@.len(),
        ensures
            r == spec_is_promotional_footer(self@, j as int),
    {
        let n = self.len();
        let mut k: usize = 0;
        let mut has_link = false;
        while k < n
            invariant
                k <= n,
                n == self@.len(),
                j < self@.len(),
                has_link == exists|x: int|
                    0 <= x < k && is_anc(self@, j as int, x) && tag_is(self@, x, "a"@),
                forall|x: int|
                    0 <= x < k && is_anc(self@, j as int, x) && tag_is(self@, x, "a"@)
                        ==> spec_nofollow_link(self@, x),
            decreases n - k,
        {
            if self.tag_is(k, "a") && self.has_ancestor(j, k) {
                let nf = match self.attr(k, "rel") {
                    Some(rel) => contains_str(rel.as_slice(), "nofollow"),
                    None => false,
                };
                if !nf {
                    proof {
                        assert(!spec_nofollow_link(self@, k as int));
                    }
                    return false;
                }
                has_link = true;
            }
            k = k + 1;
        }
        has_link
    }
}

/// A link whose `rel` attribute contains `nofollow`.
pub open spec fn spec_nofollow_link(d: DomView, x: int) -> bool {
    attr_of(d, x, "rel"@) matches Some(rel) && seq_contains(rel, "nofollow"@)
}

/// A paragraph whose links exist and all carry `rel` containing
/// `nofollow`.
pub open spec fn spec_is_promotional_footer(d: DomView, j: int) -> bool {
    (exists|x: int| is_anc(d, j, x) && tag_is(d, x, "a"@)) && (forall|x: int|
        is_anc(d, j, x) && tag_is(d, x, "a"@) ==> spec_nofollow_link(d, x))
}

/// Whether descendant paragraph `j` of node `i` contributes its text to
/// the article body.
pub open spec fn spec_para_kept(d: DomView, i: int, j: int) -> bool {
    is_anc(d, i, j) && tag_is(d, j, "p"@) && !spec_is_noise_node(d, j)
        && !spec_is_promotional_footer(d, j) && spec_trim(spec_text_of(d, j)).len() > 0
        && !spec_is_noise_text(spec_trim(spec_text_of(d, j)))
}

/// The trimmed texts of the kept paragraphs among nodes `< j`.
pub open spec fn clean_parts_upto(d: DomView, i: int, j: int) -> Seq<Seq<char>>
    decreases j,
{
    if j <= 0 {
        Seq::empty()
    } else {
        clean_parts_upto(d, i, j - 1) + if spec_para_kept(d, i, j - 1) {
            seq![spec_trim(spec_text_of(d, j - 1))]
        } else {
            Seq::empty()
        }
    }
}

/// The raw article text: the kept paragraph texts joined by single spaces.
pub open spec fn spec_extract_clean_text(d: DomView, i: int) -> Seq<char> {
    spec_join(clean_parts_upto(d, i, d.len() as int), " "@)
}

/// The lines kept by post-processing: trimmed, non-empty, not code-like,
/// not low on letters.
pub open spec fn kept_lines(ls: Seq<Seq<char>>) -> Seq<Seq<char>>
    decreases ls.len(),
{
    if ls.len() == 0 {
        Seq::empty()
    } else {
        kept_lines(ls.drop_last()) + if line_kept(ls.last()) {
            seq![spec_trim(ls.last())]
        } else {
            Seq::empty()
        }
    }
}

pub open spec fn line_kept(l: Seq<char>) -> bool {
    spec_trim(l).len() > 0 && !spec_is_code_like_line(spec_trim(l))
        && !spec_is_low_content_line(spec_trim(l))
}

/// Post-processing: no-break spaces become spaces, and blank, code-like
/// and low-letter lines are dropped.
pub open spec fn spec_post_process_text(t: Seq<char>) -> Seq<char> {
    spec_join(kept_lines(spec_words(spec_replace(t, "\u{a0}"@, " "@), Sep::Newline)), "\n"@)
}

/// Replaces no-break spaces, splits into lines, drops blank, code-like and
/// low-letter lines, joins the rest with newlines.
pub fn post_process_text(t: &[char]) -> (r: Vec<char>)
    ensures
        r@ == spec_post_process_text(t@),
{
    let replaced = replace_str(t, "\u{a0}", " ");
    let lines = split_words(replaced.as_slice(), Sep::Newline);
    let ghost lsv = spec_words(spec_replace(t@, "\u{a0}"@, " "@), Sep::Newline);
    let mut kept: Vec<Vec<char>> = Vec::new();
    let mut i: usize = 0;
    while i < lines.len()
        invariant
            i <= lines@.len(),
            lines.deep_view() == lsv,
            lines@.len() == lsv.len(),
            kept.deep_view() == kept_lines(lsv.subrange(0, i as int)),
        decreases lines.len() - i,
    {
        proof {
            assert(lines.deep_view()[i as int] == lines@[i as int]@);
            let pre = lsv.subrange(0, i + 1 as int);
            assert(pre.drop_last() =~= lsv.subrange(0, i as int));
            assert(pre.last() == lsv[i as int]);
        }
        let line = &lines[i];
        let trimmed = trim(line.as_slice());
        if trimmed.len() > 0 && !is_code_like_line(trimmed.as_slice()) && !is_low_content_line(
            trimmed.as_slice(),
        ) {
            proof {
                crate::chars::lemma_trim_idempotent(line@);
                assert(line_kept(lsv[i as int]));
            }
            let ghost old_kept = kept.deep_view();
            kept.push(trimmed);
            proof {
                assert(kept.deep_view() =~~= old_kept.push(spec_trim(lsv[i as int])));
                assert(old_kept + seq![spec_trim(lsv[i as int])] =~~= old_kept.push(
                    spec_trim(lsv[i as int]),
                ));
            }
        } else {
            proof {
                crate::chars::lemma_trim_idempotent(line@);
                assert(!line_kept(lsv[i as int]));
                assert(kept.deep_view() + Seq::<Seq<char>>::empty() =~~= kept.deep_view());
            }
        }
        i = i + 1;
    }
    proof {
        assert(lsv.subrange(0, lsv.len() as int) =~= lsv);
    }
    let sep = chars_of("\n");
    join_parts(&kept, sep.as_slice())
}

/// Whether text run `j` under node `i` is kept by the fallback content
/// scan.
pub open spec fn content_kept(d: DomView, i: int, j: int) -> bool {
    is_anc(d, i, j) && crate::dom::is_text(d, j) && !spec_is_noise_node(d, j)
        && !spec_is_likely_code_node(d, j) && spec_trim(crate::dom::text_data(d, j)).len() > 0
        && spec_byte_len(spec_trim(crate::dom::text_data(d, j))) >= 10
        && spec_is_likely_content_text(spec_trim(crate::dom::text_data(d, j)))
}

pub open spec fn content_parts_upto(d: DomView, i: int, j: int) -> Seq<Seq<char>>
    decreases j,
{
    if j <= 0 {
        Seq::empty()
    } else {
        content_parts_upto(d, i, j - 1) + if content_kept(d, i, j - 1) {
            seq![spec_trim(crate::dom::text_data(d, j - 1))]
        } else {
            Seq::empty()
        }
    }
}

/// The fallback content text: kept text runs joined by blank lines.
pub open spec fn spec_extract_content_text(d: DomView, i: int) -> Seq<char> {
    spec_join(content_parts_upto(d, i, d.len() as int), "\n\n"@)
}

/// A selected article body node with its confidence.
pub struct ArticleTextNode {
    /// The index of the body node in its document.
    pub node: usize,
    /// How certain the selection is.
    pub confidence: Confidence,
}

/// A confidence in the unit interval, held as the exact fraction
/// `num / den`.
#[derive(Clone, Copy, Debug, PartialEq, Eq, Structural)]
pub struct Confidence {
    pub num: u64,
    pub den: u64,
}

impl Confidence {
    /// A well-formed confidence: a fraction of at most one.
    pub open spec fn wf(self) -> bool {
        1 <= self.den && self.num <= self.den
    }

    /// The fraction `num / den`, clamped into the unit interval.
    pub fn new(num: u64, den: u64) -> (r: Confidence)
        requires
            den >= 1,
        ensures
            r.wf(),
            r.den == den,
            r.num == if num <= den {
                num
            } else {
                den
            },
    {
        if num <= den {
            Confidence { num, den }
        } else {
            Confidence { num: den, den }
        }
    }

    /// Whether the confidence is at least `h` hundredths.
    pub fn at_least_hundredths(&self, h: u64) -> (r: bool)
        requires
            h <= 100,
            self.wf(),
        ensures
            r == (100 * self.num >= h * self.den),
    {
        proof {
            assert((h as u128) * (self.den as u128) <= 100 * 0xffff_ffff_ffff_ffffu128)
                by (nonlinear_arith)
                requires
                    h <= 100,
                    self.den <= 0xffff_ffff_ffff_ffffu64,
            ;
        }
        let lhs: u128 = 100 * (self.num as u128);
        let rhs: u128 = (h as u128) * (self.den as u128);
        lhs >= rhs
    }
}

impl ArticleTextNode {
    /// A body node found by an exact selector: full confidence.
    pub fn new(node: usize) -> (r: ArticleTextNode)
        ensures
            r.node == node,
            r.confidence == (Confidence { num: 1, den: 1 }),
            r.confidence.wf(),
    {
        ArticleTextNode { node, confidence: Confidence { num: 1, den: 1 } }
    }

    /// A body node with the given confidence.
    pub fn with_confidence(node: usize, confidence: Confidence) -> (r: ArticleTextNode)
        requires
            confidence.wf(),
        ensures
            r.node == node,
            r.confidence == confidence,
    {
        ArticleTextNode { node, confidence }
    }

    /// The confidence that this node really holds the article body.
    pub fn confidence_score(&self) -> (r: Confidence)
        ensures
            r == self.confidence,
    {
        self.confidence
    }

    /// The raw article text of this node: the kept paragraph texts joined
    /// by single spaces.
    pub fn extract_clean_text(&self, dom: &Dom) -> (r: Vec<char>)
        requires
            self.node < dom@.len(),
        ensures
            r@ == spec_extract_clean_text(dom@, self.node as int),
    {
        let i = self.node;
        let n = dom.len();
        let mut parts: Vec<Vec<char>> = Vec::new();
        let mut j: usize = 0;
        while j < n
            invariant
                j <= n,
                n == dom@.len(),
                i < dom@.len(),
                parts.deep_view() == clean_parts_upto(dom@, i as int, j as int),
            decreases n - j,
        {
            proof {
                let pre = clean_parts_upto(dom@, i as int, j + 1 as int);
                assert(pre == clean_parts_upto(dom@, i as int, j as int) + if spec_para_kept(
                    dom@,
                    i as int,
                    j as int,
                ) {
                    seq![spec_trim(spec_text_of(dom@, j as int))]
                } else {
                    Seq::<Seq<char>>::empty()
                });
            }
            if dom.tag_is(j, "p") && dom.has_ancestor(i, j) && !dom.is_noise_node(j)
                && !dom.is_promotional_footer(j) {
                let text = dom.text_of(j);
                let trimmed = trim(text.as_slice());
                if trimmed.len() > 0 && !is_noise_text(text.as_slice()) {
                    let ghost old_parts = parts.deep_view();
                    parts.push(trimmed);
                    proof {
                        assert(spec_para_kept(dom@, i as int, j as int));
                        assert(parts.deep_view() =~~= old_parts.push(
                            spec_trim(spec_text_of(dom@, j as int)),
                        ));
                        assert(old_parts + seq![spec_trim(spec_text_of(dom@, j as int))]
                            =~~= old_parts.push(spec_trim(spec_text_of(dom@, j as int))));
                    }
                } else {
                    proof {
                        assert(!spec_para_kept(dom@, i as int, j as int));
                        assert(parts.deep_view() + Seq::<Seq<char>>::empty()
                            =~~= parts.deep_view());
                    }
                }
            } else {
                proof {
                    assert(!spec_para_kept(dom@, i as int, j as int));
                    assert(parts.deep_view() + Seq::<Seq<char>>::empty() =~~= parts.deep_view());
                }
            }
            j = j + 1;
        }
        let sep = chars_of(" ");
        join_parts(&parts, sep.as_slice())
    }

    /// The cleaned article body text.
    pub fn clean_text(&self, dom: &Dom) -> (r: Vec<char>)
        requires
            self.node < dom@.len(),
        ensures
            r@ == spec_post_process_text(spec_extract_clean_text(dom@, self.node as int)),
    {
        let raw = self.extract_clean_text(dom);
        post_process_text(raw.as_slice())
    }

    /// The fallback content scan over every descendant text run. Paragraph
    /// elements never carry text directly, so this reduces to the
    /// descendant scan with the content-likelihood filters.
    pub fn extract_content_text(&self, dom: &Dom) -> (r: Vec<char>)
        requires
            self.node < dom@.len(),
        ensures
            r@ == spec_extract_content_text(dom@, self.node as int),
    {
        let i = self.node;
        let n = dom.len();
        let mut parts: Vec<Vec<char>> = Vec::new();
        let mut j: usize = 0;
        while j < n
            invariant
                j <= n,
                n == dom@.len(),
                i < dom@.len(),
                parts.deep_view() == content_parts_upto(dom@, i as int, j as int),
            decreases n - j,
        {
            proof {
                let pre = content_parts_upto(dom@, i as int, j + 1 as int);
                assert(pre == content_parts_upto(dom@, i as int, j as int) + if content_kept(
                    dom@,
                    i as int,
                    j as int,
                ) {
                    seq![spec_trim(crate::dom::text_data(dom@, j as int))]
                } else {
                    Seq::<Seq<char>>::empty()
                });
            }
            let mut kept = false;
            if dom.has_ancestor(i, j) && !dom.is_noise_node(j) && !dom.is_likely_code_node(j) {
                match dom.as_text(j) {
                    Some(t) => {
                        let trimmed = trim(t.as_slice());
                        if trimmed.len() > 0 && byte_len(trimmed.as_slice()) >= 10
                            && is_likely_content_text(trimmed.as_slice()) {
                            proof {
                                crate::chars::lemma_trim_idempotent(t@);
                            }
                            let ghost old_parts = parts.deep_view();
                            parts.push(trimmed);
                            kept = true;
                            proof {
                                assert(content_kept(dom@, i as int, j as int));
                                assert(parts.deep_view() =~~= old_parts.push(
                                    spec_trim(crate::dom::text_data(dom@, j as int)),
                                ));
                                assert(old_parts + seq![
                                    spec_trim(crate::dom::text_data(dom@, j as int)),
                                ] =~~= old_parts.push(
                                    spec_trim(crate::dom::text_data(dom@, j as int)),
                                ));
                            }
                        } else {
                            proof {
                                crate::chars::lemma_trim_idempotent(t@);
                            }
                        }
                    },
                    None => {},
                }
            }
            proof {
                if !kept {
                    assert(!content_kept(dom@, i as int, j as int));
                    assert(parts.deep_view() + Seq::<Seq<char>>::empty() =~~= parts.deep_view());
                }
            }
            j = j + 1;
        }
        let sep = chars_of("\n\n");
        join_parts(&parts, sep.as_slice())
    }
}


} // verus!
