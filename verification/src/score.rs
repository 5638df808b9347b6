//! The body-node scorer: filters candidates by length, noise and link
//! density, scores the survivors with stopword counts and structural
//! bonuses, propagates scores to parents and grandparents, and selects the
//! best node with a confidence.
//!
//! All arithmetic is exact integer and rational arithmetic; running score
//! components saturate at large machine limits that no real document
//! reaches, and the saturation is part of the stated contracts.

use vstd::prelude::*;

use crate::chars::{byte_len, spec_byte_len, spec_trim, trim};
use crate::dom::{
    attr_of, is_anc, next_sibling, prev_sibling, tag_is, first_child_text, Dom, DomView,
    spec_text_of,
};
use crate::lang::{count_stopwords, spec_has_stopwords, Language, WordsStats};
use crate::noise::spec_candidates;
use crate::split::{spec_words, Sep};
use crate::text::{spec_is_noise_text, ArticleTextNode, Confidence};

verus! {

/// Candidates whose text is shorter than this many bytes never reach
/// scoring.
pub const MIN_TEXT_LENGTH: u64 = 50;

/// A candidate needs at least this many stopwords to survive.
pub const MINIMUM_STOPWORD_COUNT: u64 = 5;

/// How many sibling paragraphs the boost check walks in each direction.
pub const MAX_STEPSAWAY_FROM_NODE: u64 = 3;

/// Running score components saturate here; no real document reaches it.
pub const SCORE_CAP: u64 = 1_000_000_000_000;

/// The summed char length of the text of every `<a>` descendant of `i`
/// among nodes `< j`.
pub open spec fn link_chars_upto(d: DomView, i: int, j: int) -> int
    decreases j,
{
    if j <= 0 {
        0
    } else {
        link_chars_upto(d, i, j - 1) + if is_anc(d, i, j - 1) && tag_is(d, j - 1, "a"@) {
            spec_text_of(d, j - 1).len() as int
        } else {
            0
        }
    }
}

pub open spec fn spec_link_chars(d: DomView, i: int) -> int {
    link_chars_upto(d, i, d.len() as int)
}

/// How many `<a>` descendants node `i` has, among nodes `< j`.
pub open spec fn link_count_upto(d: DomView, i: int, j: int) -> int
    decreases j,
{
    if j <= 0 {
        0
    } else {
        link_count_upto(d, i, j - 1) + if is_anc(d, i, j - 1) && tag_is(d, j - 1, "a"@) {
            1int
        } else {
            0
        }
    }
}

pub open spec fn spec_link_count(d: DomView, i: int) -> int {
    link_count_upto(d, i, d.len() as int)
}

/// Link density at most one half: the node has text, and the chars inside
/// anchors make up at most half of it. Empty text counts as full density.
pub open spec fn spec_link_density_ok(d: DomView, i: int) -> bool {
    spec_text_of(d, i).len() > 0 && 2 * spec_link_chars(d, i) <= spec_text_of(d, i).len()
}

impl Dom {
    /// The summed text length of the anchor descendants of `i`, saturating
    /// at the accumulator limit.
    fn link_chars(&self, i: usize) -> (r: u128)
        requires
            i < self@.len(),
        ensures
            r == spec_link_chars(self@, i as int) || (r == u128::MAX && spec_link_chars(
                self@,
                i as int,
            ) >= u128::MAX),
    {
        let n = self.len();
        let mut r: u128 = 0;
        let mut j: usize = 0;
        while j < n
            invariant
                j <= n,
                n == self@.len(),
                i < self@.len(),
                r == link_chars_upto(self@, i as int, j as int) || (r == u128::MAX
                    && link_chars_upto(self@, i as int, j as int) >= u128::MAX),
            decreases n - j,
        {
            if self.tag_is(j, "a") && self.has_ancestor(i, j) {
                let t = self.text_of(j);
                let l = t.len() as u128;
                if r >= u128::MAX - l {
                    r = u128::MAX;
                } else {
                    r = r + l;
                }
            }
            j = j + 1;
        }
        r
    }

    /// How many anchor descendants `i` has, saturating.
    fn link_count(&self, i: usize) -> (r: u64)
        requires
            i < self@.len(),
        ensures
            r == spec_link_count(self@, i as int) || (r == u64::MAX && spec_link_count(
                self@,
                i as int,
            ) >= u64::MAX),
    {
        let n = self.len();
        let mut r: u64 = 0;
        let mut j: usize = 0;
        while j < n
            invariant
                j <= n,
                n == self@.len(),
                i < self@.len(),
                r == link_count_upto(self@, i as int, j as int) || (r == u64::MAX
                    && link_count_upto(self@, i as int, j as int) >= u64::MAX),
            decreases n - j,
        {
            if self.tag_is(j, "a") && self.has_ancestor(i, j) {
                if r < u64::MAX {
                    r = r + 1;
                }
            }
            j = j + 1;
        }
        r
    }

    /// Whether the link density of node `i` is at most one half.
    pub fn link_density_ok(&self, i: usize) -> (r: bool)
        requires
            i < self@.len(),
        ensures
            r == spec_link_density_ok(self@, i as int),
    {
        let t = self.text_of(i);
        let total = t.len() as u128;
        if total == 0 {
            return false;
        }
        let link = self.link_chars(i);
        link <= total / 2
    }

    /// Whether node `i` has an element descendant with tag `t`.
    pub fn has_descendant_tag(&self, i: usize, t: &str) -> (r: bool)
        requires
            i < self@.len(),
        ensures
            r == exists|j: int| is_anc(self@, i as int, j) && tag_is(self@, j, t@),
    {
        let n = self.len();
        let mut j: usize = 0;
        while j < n
            invariant
                j <= n,
                n == self@.len(),
                i < self@.len(),
                forall|k: int| 0 <= k < j ==> !(is_anc(self@, i as int, k) && tag_is(self@, k, t@)),
            decreases n - j,
        {
            if self.tag_is(j, t) && self.has_ancestor(i, j) {
                return true;
            }
            j = j + 1;
        }
        proof {
            assert forall|k: int| !(is_anc(self@, i as int, k) && tag_is(self@, k, t@)) by {
                if 0 <= k < self@.len() {
                } else {
                    assert(!is_anc(self@, i as int, k));
                }
            }
        }
        false
    }
}

/// The number of stopwords in the text of node `i`.
pub open spec fn spec_stop_count(d: DomView, i: int) -> int {
    count_stopwords(spec_words(spec_text_of(d, i), Sep::SpaceOrPunct))
}

/// A candidate survives when its text is long enough, not blank, not
/// noise, has link density at most one half, the language has a stopword
/// table, and the text holds at least the minimum number of stopwords.
pub open spec fn spec_survivor(d: DomView, lang: Language, i: int) -> bool {
    &&& spec_byte_len(spec_text_of(d, i)) >= MIN_TEXT_LENGTH
    &&& spec_trim(spec_text_of(d, i)).len() > 0
    &&& !spec_is_noise_text(spec_trim(spec_text_of(d, i)))
    &&& spec_link_density_ok(d, i)
    &&& spec_has_stopwords(lang)
    &&& spec_stop_count(d, i) >= MINIMUM_STOPWORD_COUNT
}

/// The surviving candidates, in document order.
pub open spec fn filter_survivors(d: DomView, lang: Language, cs: Seq<int>) -> Seq<int>
    decreases cs.len(),
{
    if cs.len() == 0 {
        Seq::empty()
    } else {
        filter_survivors(d, lang, cs.drop_last()) + if spec_survivor(d, lang, cs.last()) {
            seq![cs.last()]
        } else {
            Seq::empty()
        }
    }
}

pub open spec fn spec_survivors(d: DomView, lang: Language) -> Seq<int> {
    filter_survivors(d, lang, spec_candidates(d))
}

/// Every filtered survivor satisfies the survivor predicate.
pub proof fn lemma_survivor_elems(d: DomView, lang: Language, cs: Seq<int>)
    ensures
        forall|x: int|
            0 <= x < filter_survivors(d, lang, cs).len() ==> spec_survivor(
                d,
                lang,
                #[trigger] filter_survivors(d, lang, cs)[x],
            ),
    decreases cs.len(),
{
    if cs.len() > 0 {
        lemma_survivor_elems(d, lang, cs.drop_last());
        let f = filter_survivors(d, lang, cs);
        let prev = filter_survivors(d, lang, cs.drop_last());
        assert forall|x: int| 0 <= x < f.len() implies spec_survivor(d, lang, #[trigger] f[x]) by {
            if x < prev.len() {
                assert(f[x] == prev[x]);
            } else {
                assert(spec_survivor(d, lang, cs.last()));
                assert(f[x] == cs.last());
            }
        }
    }
}

impl Dom {
    /// Whether candidate `i` survives the scoring filters.
    pub fn survivor(&self, lang: &Language, i: usize) -> (r: bool)
        requires
            i < self@.len(),
        ensures
            r == spec_survivor(self@, *lang, i as int),
    {
        let t = self.text_of(i);
        if byte_len(t.as_slice()) < MIN_TEXT_LENGTH as u128 {
            return false;
        }
        let trimmed = trim(t.as_slice());
        if trimmed.len() == 0 {
            return false;
        }
        if crate::text::is_noise_text(t.as_slice()) {
            return false;
        }
        if !self.link_density_ok(i) {
            return false;
        }
        match lang.stopword_count(t.as_slice()) {
            Some(st) => st.stopword_count as u64 >= MINIMUM_STOPWORD_COUNT,
            None => false,
        }
    }

    /// The surviving candidates of the document, in document order.
    pub fn survivors(&self, lang: &Language) -> (r: Vec<usize>)
        ensures
            r@.map_values(|u: usize| u as int) == spec_survivors(self@, *lang),
            forall|k: int| 0 <= k < r@.len() ==> r@[k] < self@.len(),
    {
        let cands = self.candidates();
        let ghost csv = spec_candidates(self@);
        let mut r: Vec<usize> = Vec::new();
        let mut k: usize = 0;
        proof {
            lemma_candidates_in_range(self@, self@.len() as int);
            assert(csv.subrange(0, 0) =~= Seq::<int>::empty());
        }
        while k < cands.len()
            invariant
                k <= cands@.len(),
                cands@.map_values(|u: usize| u as int) == csv,
                cands@.len() == csv.len(),
                forall|x: int| 0 <= x < csv.len() ==> 0 <= #[trigger] csv[x] < self@.len(),
                r@.map_values(|u: usize| u as int) == filter_survivors(
                    self@,
                    *lang,
                    csv.subrange(0, k as int),
                ),
                forall|x: int| 0 <= x < r@.len() ==> r@[x] < self@.len(),
            decreases cands.len() - k,
        {
            proof {
                assert(cands@.map_values(|u: usize| u as int)[k as int] == csv[k as int]);
                let pre = csv.subrange(0, k + 1 as int);
                assert(pre.drop_last() =~= csv.subrange(0, k as int));
                assert(pre.last() == csv[k as int]);
            }
            let c = cands[k];
            let ghost old_r = r@.map_values(|u: usize| u as int);
            if self.survivor(lang, c) {
                r.push(c);
                proof {
                    assert(r@.map_values(|u: usize| u as int) =~= old_r + seq![c as int]);
                }
            } else {
                proof {
                    assert(old_r + Seq::<int>::empty() =~= old_r);
                }
            }
            k = k + 1;
        }
        proof {
            assert(csv.subrange(0, csv.len() as int) =~= csv);
        }
        r
    }
}

/// Every enumerated candidate index lies inside the document.
pub proof fn lemma_candidates_in_range(d: DomView, j: int)
    requires
        j <= d.len(),
    ensures
        forall|x: int|
            0 <= x < crate::noise::candidates_upto(d, j).len() ==> 0
                <= #[trigger] crate::noise::candidates_upto(d, j)[x] < d.len(),
    decreases j,
{
    if j > 0 {
        lemma_candidates_in_range(d, j - 1);
        let cs = crate::noise::candidates_upto(d, j);
        let prev = crate::noise::candidates_upto(d, j - 1);
        assert forall|x: int| 0 <= x < cs.len() implies 0 <= #[trigger] cs[x] < d.len() by {
            if x < prev.len() {
                assert(cs[x] == prev[x]);
            } else {
                assert(crate::noise::spec_enumerated(d, j - 1));
                assert(crate::dom::is_elem(d, j - 1));
                assert(cs[x] == j - 1);
            }
        }
    }
}

/// The structural bonus of a candidate: `itemprop`, `itemtype`, `role`,
/// then the tag itself, first match wins.
pub open spec fn spec_semantic_bonus(d: DomView, i: int) -> int {
    let by_itemprop: Option<int> = match attr_of(d, i, "itemprop"@) {
        Some(v) => Some(
            if v == "articleBody"@ {
                100int
            } else if v == "articleText"@ {
                40int
            } else {
                0int
            },
        ),
        None => None,
    };
    let sb1: int = match by_itemprop {
        Some(b) => b,
        None => 0,
    };
    let sb2: int = if sb1 == 0 {
        match attr_of(d, i, "itemtype"@) {
            Some(v) => if crate::chars::seq_contains(v, "schema.org/Article"@)
                || crate::chars::seq_contains(v, "schema.org/NewsArticle"@) {
                30
            } else if crate::chars::seq_contains(v, "schema.org/BlogPosting"@) {
                20
            } else {
                0
            },
            None => 0,
        }
    } else {
        sb1
    };
    let sb3: int = if sb2 == 0 {
        if attr_of(d, i, "role"@) == Some("article"@) {
            if tag_is(d, i, "article"@) {
                25
            } else {
                15
            }
        } else {
            0
        }
    } else {
        sb2
    };
    if sb3 == 0 {
        if tag_is(d, i, "article"@) {
            10
        } else if tag_is(d, i, "main"@) {
            8
        } else if tag_is(d, i, "section"@) {
            5
        } else if tag_is(d, i, "div"@) {
            3
        } else {
            0
        }
    } else {
        sb3
    }
}

impl Dom {
    fn semantic_bonus(&self, i: usize) -> (r: u64)
        requires
            i < self@.len(),
        ensures
            r == spec_semantic_bonus(self@, i as int),
            r <= 100,
    {
        let mut sb: u64 = 0;
        match self.attr(i, "itemprop") {
            Some(v) => {
                if crate::chars::eq_str(v.as_slice(), "articleBody") {
                    sb = 100;
                } else if crate::chars::eq_str(v.as_slice(), "articleText") {
                    sb = 40;
                }
            },
            None => {},
        }
        if sb == 0 {
            match self.attr(i, "itemtype") {
                Some(v) => {
                    let s = v.as_slice();
                    if crate::chars::contains_str(s, "schema.org/Article")
                        || crate::chars::contains_str(s, "schema.org/NewsArticle") {
                        sb = 30;
                    } else if crate::chars::contains_str(s, "schema.org/BlogPosting") {
                        sb = 20;
                    }
                },
                None => {},
            }
        }
        if sb == 0 {
            if self.attr_is(i, "role", "article") {
                if self.tag_is(i, "article") {
                    sb = 25;
                } else {
                    sb = 15;
                }
            }
        }
        if sb == 0 {
            if self.tag_is(i, "article") {
                sb = 10;
            } else if self.tag_is(i, "main") {
                sb = 8;
            } else if self.tag_is(i, "section") {
                sb = 5;
            } else if self.tag_is(i, "div") {
                sb = 3;
            }
        }
        sb
    }
}

/// The formatting bonus of a candidate in half-units: `<strong>` adds two,
/// `<em>` one and a half, `<b>` one, `<i>` a half; each link past five
/// costs a half. Clamped at the score cap in magnitude.
pub open spec fn spec_fmt_halves(d: DomView, i: int) -> int {
    let pos: int = (if exists|j: int| is_anc(d, i, j) && tag_is(d, j, "strong"@) {
        4int
    } else {
        0int
    }) + (if exists|j: int| is_anc(d, i, j) && tag_is(d, j, "em"@) {
        3int
    } else {
        0int
    }) + (if exists|j: int| is_anc(d, i, j) && tag_is(d, j, "b"@) {
        2int
    } else {
        0int
    }) + (if exists|j: int| is_anc(d, i, j) && tag_is(d, j, "i"@) {
        1int
    } else {
        0int
    });
    let lc = spec_link_count(d, i);
    let raw = pos - (if lc > 5 {
        lc - 5
    } else {
        0
    });
    if raw < -(SCORE_CAP as int) {
        -(SCORE_CAP as int)
    } else {
        raw
    }
}

impl Dom {
    fn fmt_halves(&self, i: usize) -> (r: i64)
        requires
            i < self@.len(),
        ensures
            r == spec_fmt_halves(self@, i as int),
            -(SCORE_CAP as int) <= r <= 10,
    {
        let mut pos: i64 = 0;
        if self.has_descendant_tag(i, "strong") {
            pos = pos + 4;
        }
        if self.has_descendant_tag(i, "em") {
            pos = pos + 3;
        }
        if self.has_descendant_tag(i, "b") {
            pos = pos + 2;
        }
        if self.has_descendant_tag(i, "i") {
            pos = pos + 1;
        }
        let lc = self.link_count(i);
        let penalty: u64 = if lc > 5 {
            lc - 5
        } else {
            0
        };
        let raw: i128 = (pos as i128) - (penalty as i128);
        proof {
            if spec_link_count(self@, i as int) > 5 && lc == u64::MAX {
                assert(spec_fmt_halves(self@, i as int) == -(SCORE_CAP as int));
            }
        }
        if raw < -(SCORE_CAP as i128) {
            -(SCORE_CAP as i64)
        } else {
            raw as i64
        }
    }
}

/// A quality paragraph: link density at most one half, and a first text
/// child with more than the minimum stopwords and at least ten words.
pub open spec fn spec_quality_paragraph(d: DomView, lang: Language, s: int) -> bool {
    &&& spec_link_density_ok(d, s)
    &&& spec_has_stopwords(lang)
    &&& first_child_text(d, s) matches Some(txt) && count_stopwords(
        spec_words(txt, Sep::SpaceOrPunct),
    ) > MINIMUM_STOPWORD_COUNT && spec_words(txt, Sep::SpaceOrPunct).len() >= 10
}

impl Dom {
    /// Whether paragraph `s` qualifies for the sibling boost.
    pub fn is_quality_paragraph(&self, lang: &Language, s: usize) -> (r: bool)
        requires
            s < self@.len(),
        ensures
            r == spec_quality_paragraph(self@, *lang, s as int),
    {
        if !self.link_density_ok(s) {
            return false;
        }
        match self.first_child_text(s) {
            Some(txt) => match lang.stopword_count(txt.as_slice()) {
                Some(st) => st.stopword_count as u64 > MINIMUM_STOPWORD_COUNT && st.word_count
                    >= 10,
                None => false,
            },
            None => false,
        }
    }
}

/// The boost walk over adjacent `<p>` siblings in one direction, up to
/// `remaining` steps.
pub open spec fn walk_quality(d: DomView, lang: Language, i: int, remaining: int, forward: bool)
    -> bool
    decreases remaining,
{
    if remaining <= 0 {
        false
    } else {
        let sib = if forward {
            next_sibling(d, i)
        } else {
            prev_sibling(d, i)
        };
        match sib {
            Some(s) => tag_is(d, s, "p"@) && (spec_quality_paragraph(d, lang, s) || walk_quality(
                d,
                lang,
                s,
                remaining - 1,
                forward,
            )),
            None => false,
        }
    }
}

/// Whether a candidate is boostable: a quality paragraph stands within
/// three adjacent `<p>` siblings before or after it.
pub open spec fn spec_is_boostable(d: DomView, lang: Language, i: int) -> bool {
    walk_quality(d, lang, i, MAX_STEPSAWAY_FROM_NODE as int, false) || walk_quality(
        d,
        lang,
        i,
        MAX_STEPSAWAY_FROM_NODE as int,
        true,
    )
}

impl Dom {
    fn walk_quality_exec(&self, lang: &Language, i: usize, forward: bool) -> (r: bool)
        requires
            i < self@.len(),
        ensures
            r == walk_quality(self@, *lang, i as int, MAX_STEPSAWAY_FROM_NODE as int, forward),
    {
        let mut cur: usize = i;
        let mut remaining: u64 = MAX_STEPSAWAY_FROM_NODE;
        let mut result = false;
        loop
            invariant
                cur < self@.len(),
                remaining <= MAX_STEPSAWAY_FROM_NODE,
                !result,
                walk_quality(self@, *lang, i as int, MAX_STEPSAWAY_FROM_NODE as int, forward)
                    == walk_quality(self@, *lang, cur as int, remaining as int, forward),
            decreases remaining,
        {
            if remaining == 0 {
                return false;
            }
            let sib = if forward {
                self.next_sib(cur)
            } else {
                self.prev_sib(cur)
            };
            match sib {
                Some(s) => {
                    if !self.tag_is(s, "p") {
                        return false;
                    }
                    if self.is_quality_paragraph(lang, s) {
                        return true;
                    }
                    cur = s;
                    remaining = remaining - 1;
                },
                None => {
                    return false;
                },
            }
        }
    }

    /// Whether a candidate earns the sibling boost.
    pub fn is_boostable(&self, lang: &Language, i: usize) -> (r: bool)
        requires
            i < self@.len(),
        ensures
            r == spec_is_boostable(self@, *lang, i as int),
    {
        self.walk_quality_exec(lang, i, false) || self.walk_quality_exec(lang, i, true)
    }
}

/// Saturating addition at the accumulator limit.
pub open spec fn cap_add64(a: int, b: int) -> int {
    if a + b > u64::MAX {
        u64::MAX as int
    } else {
        a + b
    }
}

/// How many of the survivors before position `k` are boostable.
pub open spec fn boost_count_before(d: DomView, lang: Language, sv: Seq<int>, k: int) -> int
    decreases k,
{
    if k <= 0 {
        0
    } else {
        boost_count_before(d, lang, sv, k - 1) + if spec_is_boostable(d, lang, sv[k - 1]) {
            1int
        } else {
            0int
        }
    }
}

/// The boost of the survivor at position `k`, as the exact fraction
/// `.0 / .1`. Position boosts for the tail of a long candidate list
/// override the sibling boost; a boost past forty in magnitude clamps to
/// five.
pub open spec fn spec_boost(d: DomView, lang: Language, sv: Seq<int>, k: int) -> (int, int) {
    let n = sv.len() as int;
    let maxq = if n > 4 {
        n
    } else {
        4
    };
    if n > 15 && 4 * (n - k) <= maxq {
        let bq = maxq - 4 * (n - k);
        if bq * bq > 640 {
            (5int, 1int)
        } else {
            (0 - bq * bq, 16int)
        }
    } else if spec_is_boostable(d, lang, sv[k]) {
        (50int, boost_count_before(d, lang, sv, k) + 1)
    } else {
        (0int, 1int)
    }
}

proof fn lemma_mul_bound(a: int, b: int, amax: int, bmax: int)
    requires
        0 <= a <= amax,
        0 <= b <= bmax,
    ensures
        a * b <= amax * bmax,
{
    assert(a * b <= amax * bmax) by (nonlinear_arith)
        requires
            0 <= a <= amax,
            0 <= b <= bmax,
    ;
}

proof fn lemma_mul_abs_bound(a: int, b: int, amax: int, bmax: int)
    requires
        -amax <= a <= amax,
        0 <= b <= bmax,
        0 <= amax,
    ensures
        -(amax * bmax) <= a * b <= amax * bmax,
{
    assert(-(amax * bmax) <= a * b <= amax * bmax) by (nonlinear_arith)
        requires
            -amax <= a <= amax,
            0 <= b <= bmax,
            0 <= amax,
    ;
}

proof fn lemma_bq_sq(bq: int)
    requires
        bq >= 0,
    ensures
        (bq * bq > 640) == (bq >= 26),
{
    if bq >= 26 {
        assert(bq * bq >= 26 * 26) by (nonlinear_arith)
            requires
                bq >= 26,
        ;
    } else {
        assert(bq * bq <= 25 * 25) by (nonlinear_arith)
            requires
                0 <= bq <= 25,
        ;
    }
}

/// The length bonus in hundredths: the word count, capped at five hundred.
pub open spec fn spec_len_bonus(d: DomView, i: int) -> int {
    let wc = spec_words(spec_text_of(d, i), Sep::SpaceOrPunct).len() as int;
    if wc > 500 {
        500
    } else {
        wc
    }
}

/// The base score, capped: stopword count plus structural bonus.
pub open spec fn spec_base_score(d: DomView, i: int) -> int {
    let b = spec_stop_count(d, i) + spec_semantic_bonus(d, i);
    if b > SCORE_CAP {
        SCORE_CAP as int
    } else {
        b
    }
}

/// The integer score a survivor hands to its parent: the floor of base
/// score plus boost plus formatting and length bonuses, never negative,
/// capped at the accumulator limit.
pub open spec fn spec_upscore(d: DomView, lang: Language, sv: Seq<int>, k: int) -> int {
    let base = spec_base_score(d, sv[k]);
    let bn = spec_boost(d, lang, sv, k).0;
    let bd = spec_boost(d, lang, sv, k).1;
    let fmt = spec_fmt_halves(d, sv[k]);
    let lb = spec_len_bonus(d, sv[k]);
    let den = bd * 100;
    let num = base * den + bn * 100 + fmt * 50 * bd + lb * bd;
    if num <= 0 {
        0
    } else if num / den > u64::MAX {
        u64::MAX as int
    } else {
        num / den
    }
}

pub open spec fn zero_seq(n: int) -> Seq<int> {
    Seq::new(if n < 0 {
        0nat
    } else {
        n as nat
    }, |i: int| 0int)
}

/// One survivor's contribution: its parent receives the whole score and
/// one contributor; the grandparent receives forty percent, rounded down.
pub open spec fn apply_sums(d: DomView, s: Seq<int>, cand: int, up: int) -> Seq<int> {
    if 0 <= cand < d.len() && (d[cand].parent matches Some(p) && 0 <= p < s.len()) {
        let p = d[cand].parent->0;
        let s1 = s.update(p, cap_add64(s[p], up));
        if d[p].parent matches Some(g) && 0 <= g < s1.len() {
            let g = d[p].parent->0;
            s1.update(g, cap_add64(s1[g], (2 * up) / 5))
        } else {
            s1
        }
    } else {
        s
    }
}

pub open spec fn apply_counts(d: DomView, c: Seq<int>, cand: int) -> Seq<int> {
    if 0 <= cand < d.len() && (d[cand].parent matches Some(p) && 0 <= p < c.len()) {
        let p = d[cand].parent->0;
        let c1 = c.update(p, cap_add64(c[p], 1));
        if d[p].parent matches Some(g) && 0 <= g < c1.len() {
            let g = d[p].parent->0;
            c1.update(g, cap_add64(c1[g], 1))
        } else {
            c1
        }
    } else {
        c
    }
}

/// The score accumulator after the first `k` survivors.
pub open spec fn sums_after(d: DomView, lang: Language, sv: Seq<int>, k: int) -> Seq<int>
    decreases k,
{
    if k <= 0 {
        zero_seq(d.len() as int)
    } else {
        apply_sums(d, sums_after(d, lang, sv, k - 1), sv[k - 1], spec_upscore(d, lang, sv, k - 1))
    }
}

/// The contributor counts after the first `k` survivors.
pub open spec fn counts_after(d: DomView, lang: Language, sv: Seq<int>, k: int) -> Seq<int>
    decreases k,
{
    if k <= 0 {
        zero_seq(d.len() as int)
    } else {
        apply_counts(d, counts_after(d, lang, sv, k - 1), sv[k - 1])
    }
}

/// The best accumulator entry among nodes `< j`: the smallest index with
/// a contributor and the maximal sum.
pub open spec fn best_entry(sums: Seq<int>, counts: Seq<int>, j: int) -> Option<(int, int)>
    decreases j,
{
    if j <= 0 {
        None
    } else {
        let prev = best_entry(sums, counts, j - 1);
        if 0 <= j - 1 < counts.len() && j - 1 < sums.len() && counts[j - 1] > 0 && (prev is None
            || sums[j - 1] > (prev->0).1) {
            Some((j - 1, sums[j - 1]))
        } else {
            prev
        }
    }
}

/// The selected node index and its score: the best accumulator entry, or
/// the first node with score zero when nothing scored.
pub open spec fn spec_best(d: DomView, lang: Language) -> (int, int) {
    let sv = spec_survivors(d, lang);
    match best_entry(
        sums_after(d, lang, sv, sv.len() as int),
        counts_after(d, lang, sv, sv.len() as int),
        d.len() as int,
    ) {
        Some(e) => e,
        None => (0int, 0int),
    }
}

/// Normalised confidence: the score over ten times the survivor count,
/// clamped into the unit interval; zero when nothing survived.
pub open spec fn spec_confidence(score: int, n: int) -> Confidence {
    if n <= 0 {
        Confidence { num: 0, den: 1 }
    } else {
        let nc = if n > SCORE_CAP {
            SCORE_CAP as int
        } else {
            n
        };
        let den = 10 * nc;
        let num = if score > den {
            den
        } else {
            score
        };
        Confidence { num: num as u64, den: den as u64 }
    }
}

pub open spec fn spec_has_body(d: DomView) -> bool {
    exists|b: int| tag_is(d, b, "body"@)
}

/// The first node carrying `itemprop="articleBody"`, scanning from `j`.
pub open spec fn first_itemprop_from(d: DomView, j: int) -> Option<int>
    decreases d.len() - j,
{
    if j < 0 || j >= d.len() {
        None
    } else if attr_of(d, j, "itemprop"@) == Some("articleBody"@) {
        Some(j)
    } else {
        first_itemprop_from(d, j + 1)
    }
}

/// What the scorer selects: `None` only when the document has no
/// `<body>`; a node marked `itemprop="articleBody"` at confidence
/// ninety-five hundredths; else the best-scoring accumulator entry.
pub open spec fn spec_calculate_best_node(d: DomView, lang: Language) -> Option<(int, Confidence)> {
    if !spec_has_body(d) {
        None
    } else {
        match first_itemprop_from(d, 0) {
            Some(i) => Some((i, Confidence { num: 95, den: 100 })),
            None => {
                let sv = spec_survivors(d, lang);
                Some((spec_best(d, lang).0, spec_confidence(spec_best(d, lang).1, sv.len() as int)))
            },
        }
    }
}

impl Dom {
    /// Whether the document has a `<body>` element.
    pub fn has_body(&self) -> (r: bool)
        ensures
            r == spec_has_body(self@),
    {
        let n = self.len();
        let mut j: usize = 0;
        while j < n
            invariant
                j <= n,
                n == self@.len(),
                forall|k: int| 0 <= k < j ==> !tag_is(self@, k, "body"@),
            decreases n - j,
        {
            if self.tag_is(j, "body") {
                return true;
            }
            j = j + 1;
        }
        proof {
            assert forall|b: int| !tag_is(self@, b, "body"@) by {
                if 0 <= b < self@.len() {
                } else {
                    assert(!crate::dom::is_elem(self@, b));
                }
            }
        }
        false
    }

    fn first_itemprop_body(&self) -> (r: Option<usize>)
        ensures
            match r {
                Some(i) => first_itemprop_from(self@, 0) == Some(i as int) && i < self@.len(),
                None => first_itemprop_from(self@, 0) is None,
            },
    {
        let n = self.len();
        let mut j: usize = 0;
        while j < n
            invariant
                j <= n,
                n == self@.len(),
                first_itemprop_from(self@, 0) == first_itemprop_from(self@, j as int),
            decreases n - j,
        {
            if self.attr_is(j, "itemprop", "articleBody") {
                return Some(j);
            }
            j = j + 1;
        }
        None
    }
}

/// The body-text scoring engine.
pub struct ArticleTextNodeExtractor;

impl ArticleTextNodeExtractor {
    /// Whether node `i` matches any of the explicit article-body attribute
    /// selectors.
    pub fn article_body_predicate(dom: &Dom, i: usize) -> (r: bool)
        requires
            i < dom@.len(),
        ensures
            r == spec_body_attr_match(dom@, i as int),
    {
        dom.attr_is(i, "itemprop", "articleBody") || dom.attr_is(i, "data-testid", "article-body")
            || dom.attr_is(i, "name", "articleBody") || dom.attr_is(i, "class", "content")
            || dom.attr_is(i, "class", "article-content") || dom.attr_is(i, "class", "post-content")
            || dom.attr_is(i, "class", "entry-content") || dom.attr_is(i, "class", "main-content")
            || dom.attr_is(i, "id", "content") || dom.attr_is(i, "id", "article-content")
            || dom.attr_is(i, "id", "main-content") || dom.attr_is(i, "role", "article")
            || dom.attr_is(i, "data-role", "content")
    }

    /// The words of the text: maximal runs free of whitespace and word
    /// punctuation.
    pub fn words(txt: &str) -> (r: Vec<String>)
        ensures
            r@.map_values(|s: String| s@) == spec_words(txt@, Sep::SpaceOrPunct),
    {
        let cs = crate::chars::chars_of(txt);
        let parts = crate::split::split_words(cs.as_slice(), Sep::SpaceOrPunct);
        let ghost psv = spec_words(txt@, Sep::SpaceOrPunct);
        let mut r: Vec<String> = Vec::new();
        let mut i: usize = 0;
        while i < parts.len()
            invariant
                i <= parts@.len(),
                parts.deep_view() == psv,
                parts@.len() == psv.len(),
                r@.map_values(|s: String| s@) == psv.subrange(0, i as int),
            decreases parts.len() - i,
        {
            proof {
                assert(parts.deep_view()[i as int] == parts@[i as int]@);
            }
            let ghost old_map = r@.map_values(|s: String| s@);
            let w = crate::chars::string_from_chars(parts[i].as_slice());
            proof {
                assert(w@ == psv[i as int]);
            }
            r.push(w);
            proof {
                assert(r@.map_values(|s: String| s@) =~= old_map.push(w@));
                assert(old_map.push(psv[i as int]) =~= psv.subrange(0, i + 1 as int));
            }
            i = i + 1;
        }
        proof {
            assert(psv.subrange(0, psv.len() as int) =~= psv);
        }
        r
    }

    /// Selects the article body node by scoring, or by the
    /// `itemprop="articleBody"` fast path. `None` only when the document
    /// has no `<body>`.
    #[verifier::rlimit(100)]
    pub fn calculate_best_node(dom: &Dom, lang: &Language) -> (r: Option<ArticleTextNode>)
        ensures
            r is Some <==> spec_calculate_best_node(dom@, *lang) is Some,
            r matches Some(a) ==> spec_calculate_best_node(dom@, *lang) == Some(
                (a.node as int, a.confidence),
            ) && a.node < dom@.len() && a.confidence.wf(),
    {
        if !dom.has_body() {
            return None;
        }
        match dom.first_itemprop_body() {
            Some(i) => {
                return Some(ArticleTextNode::with_confidence(i, Confidence { num: 95, den: 100 }));
            },
            None => {},
        }
        let sv = dom.survivors(lang);
        let ghost svv = spec_survivors(dom@, *lang);
        proof {
            lemma_survivor_elems(dom@, *lang, spec_candidates(dom@));
        }
        let n = dom.len();
        let nsv = sv.len();
        let mut sums: Vec<u64> = Vec::new();
        let mut counts: Vec<u64> = Vec::new();
        let mut z: usize = 0;
        while z < n
            invariant
                z <= n,
                n == dom@.len(),
                sums@.len() == z,
                counts@.len() == z,
                forall|x: int| 0 <= x < z ==> sums@[x] == 0 && counts@[x] == 0,
            decreases n - z,
        {
            sums.push(0);
            counts.push(0);
            z = z + 1;
        }
        proof {
            assert(sums@.map_values(|u: u64| u as int) =~= zero_seq(dom@.len() as int));
            assert(counts@.map_values(|u: u64| u as int) =~= zero_seq(dom@.len() as int));
        }
        let mut bc: u64 = 0;
        let mut k: usize = 0;
        while k < nsv
            invariant
                k <= nsv,
                nsv == sv@.len(),
                n == dom@.len(),
                sv@.map_values(|u: usize| u as int) == svv,
                svv == spec_survivors(dom@, *lang),
                sv@.len() == svv.len(),
                forall|x: int| 0 <= x < sv@.len() ==> sv@[x] < dom@.len(),
                forall|x: int|
                    0 <= x < svv.len() ==> spec_survivor(dom@, *lang, #[trigger] svv[x]),
                bc == boost_count_before(dom@, *lang, svv, k as int),
                bc <= k,
                sums@.len() == dom@.len(),
                counts@.len() == dom@.len(),
                sums@.map_values(|u: u64| u as int) == sums_after(dom@, *lang, svv, k as int),
                counts@.map_values(|u: u64| u as int) == counts_after(dom@, *lang, svv, k as int),
            decreases nsv - k,
        {
            proof {
                assert(sv@.map_values(|u: usize| u as int)[k as int] == svv[k as int]);
            }
            let c = sv[k];
            let boostable = dom.is_boostable(lang, c);
            // boost fraction (bn, bd)
            let mut bn: i128 = 0;
            let mut bd: u128 = 1;
            let in_bottom = nsv > 15 && 4 * ((nsv - k) as u128) <= (if nsv > 4 {
                nsv as u128
            } else {
                4u128
            });
            if in_bottom {
                let maxq: u128 = if nsv > 4 {
                    nsv as u128
                } else {
                    4
                };
                let bq: u128 = maxq - 4 * ((nsv - k) as u128);
                proof {
                    lemma_bq_sq(bq as int);
                }
                if bq >= 26 {
                    bn = 5;
                    bd = 1;
                } else {
                    bn = -((bq * bq) as i128);
                    bd = 16;
                }
            } else if boostable {
                bn = 50;
                bd = (bc as u128) + 1;
            }
            if boostable {
                bc = bc + 1;
            }
            proof {
                assert(boost_count_before(dom@, *lang, svv, k + 1 as int) == boost_count_before(
                    dom@,
                    *lang,
                    svv,
                    k as int,
                ) + if spec_is_boostable(dom@, *lang, svv[k as int]) {
                    1int
                } else {
                    0int
                });
                assert((bn as int, bd as int) == spec_boost(dom@, *lang, svv, k as int));
            }
            // base score, formatting and length bonuses
            let t = dom.text_of(c);
            let st = match lang.stopword_count(t.as_slice()) {
                Some(st) => st,
                None => WordsStats { word_count: 0, stopword_count: 0, word_char_sum: 0 },
            };
            proof {
                assert(spec_has_stopwords(*lang)) by {
                    assert(spec_survivor(dom@, *lang, svv[k as int]));
                }
            }
            let sb = dom.semantic_bonus(c);
            let base128: u128 = (st.stopword_count as u128) + (sb as u128);
            let base: u64 = if base128 > SCORE_CAP as u128 {
                SCORE_CAP
            } else {
                base128 as u64
            };
            let fmt = dom.fmt_halves(c);
            let lb: u64 = if st.word_count > 500 {
                500
            } else {
                st.word_count as u64
            };
            // upscore = floor(base + bn/bd + fmt/2 + lb/100), clamped at zero
            let den: i128 = (bd as i128) * 100;
            proof {
                let two64: int = 0x1_0000_0000_0000_0000;
                assert(1 <= bd as int <= two64);
                assert(100 <= den as int <= 100 * two64);
                lemma_mul_bound(base as int, den as int, SCORE_CAP as int, 100 * two64);
                lemma_mul_bound(base as int, den as int, SCORE_CAP as int, 100 * two64);
                lemma_mul_abs_bound(fmt as int * 50, bd as int, 50 * SCORE_CAP as int, two64);
                lemma_mul_bound(lb as int, bd as int, 500, two64);
                assert(-640 <= bn as int <= 50);
            }
            let num: i128 = (base as i128) * den + bn * 100 + (fmt as i128) * 50 * (bd as i128) + (
            lb as i128) * (bd as i128);
            let up: u64 = if num <= 0 {
                0
            } else {
                let q = num / den;
                if q > u64::MAX as i128 {
                    u64::MAX
                } else {
                    q as u64
                }
            };
            proof {
                assert(up == spec_upscore(dom@, *lang, svv, k as int));
            }
            // propagate to parent and grandparent
            let ghost old_sums = sums@.map_values(|u: u64| u as int);
            let ghost old_counts = counts@.map_values(|u: u64| u as int);
            match dom.parent_of(c) {
                Some(p) => {
                    let s0 = sums[p];
                    let new_s = if s0 >= u64::MAX - up {
                        u64::MAX
                    } else {
                        s0 + up
                    };
                    sums.set(p, new_s);
                    let c0 = counts[p];
                    let new_c = if c0 == u64::MAX {
                        u64::MAX
                    } else {
                        c0 + 1
                    };
                    counts.set(p, new_c);
                    proof {
                        assert(sums@.map_values(|u: u64| u as int) =~= old_sums.update(
                            p as int,
                            cap_add64(old_sums[p as int], up as int),
                        ));
                        assert(counts@.map_values(|u: u64| u as int) =~= old_counts.update(
                            p as int,
                            cap_add64(old_counts[p as int], 1),
                        ));
                    }
                    let ghost mid_sums = sums@.map_values(|u: u64| u as int);
                    let ghost mid_counts = counts@.map_values(|u: u64| u as int);
                    match dom.parent_of(p) {
                        Some(g) => {
                            let share: u64 = ((2 * (up as u128)) / 5) as u64;
                            let s1 = sums[g];
                            let new_s1 = if s1 >= u64::MAX - share {
                                u64::MAX
                            } else {
                                s1 + share
                            };
                            sums.set(g, new_s1);
                            let c1 = counts[g];
                            let new_c1 = if c1 == u64::MAX {
                                u64::MAX
                            } else {
                                c1 + 1
                            };
                            counts.set(g, new_c1);
                            proof {
                                assert(share == (2 * (up as int)) / 5);
                                assert(sums@.map_values(|u: u64| u as int) =~= mid_sums.update(
                                    g as int,
                                    cap_add64(mid_sums[g as int], (2 * (up as int)) / 5),
                                ));
                                assert(counts@.map_values(|u: u64| u as int) =~= mid_counts.update(
                                    g as int,
                                    cap_add64(mid_counts[g as int], 1),
                                ));
                                assert(sums@.map_values(|u: u64| u as int) == apply_sums(
                                    dom@,
                                    old_sums,
                                    c as int,
                                    up as int,
                                ));
                                assert(counts@.map_values(|u: u64| u as int) == apply_counts(
                                    dom@,
                                    old_counts,
                                    c as int,
                                ));
                            }
                        },
                        None => {
                            proof {
                                assert(sums@.map_values(|u: u64| u as int) == apply_sums(
                                    dom@,
                                    old_sums,
                                    c as int,
                                    up as int,
                                ));
                                assert(counts@.map_values(|u: u64| u as int) == apply_counts(
                                    dom@,
                                    old_counts,
                                    c as int,
                                ));
                            }
                        },
                    }
                },
                None => {
                    proof {
                        assert(sums@.map_values(|u: u64| u as int) == apply_sums(
                            dom@,
                            old_sums,
                            c as int,
                            up as int,
                        ));
                        assert(counts@.map_values(|u: u64| u as int) == apply_counts(
                            dom@,
                            old_counts,
                            c as int,
                        ));
                    }
                },
            }
            k = k + 1;
        }
        // select the best entry: smallest index with a contributor and the
        // maximal sum
        let mut best: Option<(usize, u64)> = None;
        let mut j: usize = 0;
        while j < n
            invariant
                j <= n,
                n == dom@.len(),
                sums@.len() == dom@.len(),
                counts@.len() == dom@.len(),
                sums@.map_values(|u: u64| u as int) == sums_after(
                    dom@,
                    *lang,
                    svv,
                    svv.len() as int,
                ),
                counts@.map_values(|u: u64| u as int) == counts_after(
                    dom@,
                    *lang,
                    svv,
                    svv.len() as int,
                ),
                svv == spec_survivors(dom@, *lang),
                match best {
                    Some(e) => best_entry(
                        sums@.map_values(|u: u64| u as int),
                        counts@.map_values(|u: u64| u as int),
                        j as int,
                    ) == Some((e.0 as int, e.1 as int)) && e.0 < dom@.len(),
                    None => best_entry(
                        sums@.map_values(|u: u64| u as int),
                        counts@.map_values(|u: u64| u as int),
                        j as int,
                    ) is None,
                },
            decreases n - j,
        {
            let take = counts[j] > 0 && (match best {
                Some(e) => sums[j] > e.1,
                None => true,
            });
            if take {
                best = Some((j, sums[j]));
            }
            j = j + 1;
        }
        let (bi, bs): (usize, u64) = match best {
            Some(e) => e,
            None => (0, 0),
        };
        proof {
            assert(spec_best(dom@, *lang) == (bi as int, bs as int));
        }
        // confidence
        let conf: Confidence = if nsv == 0 {
            Confidence { num: 0, den: 1 }
        } else {
            let nc: u64 = if (nsv as u128) > SCORE_CAP as u128 {
                SCORE_CAP
            } else {
                nsv as u64
            };
            let den: u64 = 10 * nc;
            let num: u64 = if bs > den {
                den
            } else {
                bs
            };
            Confidence { num, den }
        };
        proof {
            assert(conf == spec_confidence(bs as int, svv.len() as int));
        }
        Some(ArticleTextNode::with_confidence(bi, conf))
    }
}

/// Whether node `i` matches any explicit article-body selector.
pub open spec fn spec_body_attr_match(d: DomView, i: int) -> bool {
    attr_of(d, i, "itemprop"@) == Some("articleBody"@) || attr_of(d, i, "data-testid"@) == Some(
        "article-body"@,
    ) || attr_of(d, i, "name"@) == Some("articleBody"@) || attr_of(d, i, "class"@) == Some(
        "content"@,
    ) || attr_of(d, i, "class"@) == Some("article-content"@) || attr_of(d, i, "class"@) == Some(
        "post-content"@,
    ) || attr_of(d, i, "class"@) == Some("entry-content"@) || attr_of(d, i, "class"@) == Some(
        "main-content"@,
    ) || attr_of(d, i, "id"@) == Some("content"@) || attr_of(d, i, "id"@) == Some(
        "article-content"@,
    ) || attr_of(d, i, "id"@) == Some("main-content"@) || attr_of(d, i, "role"@) == Some(
        "article"@,
    ) || attr_of(d, i, "data-role"@) == Some("content"@)
}

/// A selector match that stands under the `<body>` element.
pub open spec fn spec_body_match_under_body(d: DomView, i: int) -> bool {
    spec_body_attr_match(d, i) && exists|b: int| tag_is(d, b, "body"@) && is_anc(d, b, i)
}

/// How many nodes `< j` match a selector under the body.
pub open spec fn body_matches_upto(d: DomView, j: int) -> int
    decreases j,
{
    if j <= 0 {
        0
    } else {
        body_matches_upto(d, j - 1) + if spec_body_match_under_body(d, j - 1) {
            1int
        } else {
            0int
        }
    }
}

/// The first selector match under the body, scanning from `j`.
pub open spec fn first_body_match_from(d: DomView, j: int) -> Option<int>
    decreases d.len() - j,
{
    if j < 0 || j >= d.len() {
        None
    } else if spec_body_match_under_body(d, j) {
        Some(j)
    } else {
        first_body_match_from(d, j + 1)
    }
}

/// What the article-node detector selects: the unique attribute-selector
/// match under the body at full confidence, else the scorer's choice.
pub open spec fn spec_article_node(d: DomView, lang: Language) -> Option<(int, Confidence)> {
    if body_matches_upto(d, d.len() as int) == 1 {
        match first_body_match_from(d, 0) {
            Some(i) => Some((i, Confidence { num: 1, den: 1 })),
            None => spec_calculate_best_node(d, lang),
        }
    } else {
        spec_calculate_best_node(d, lang)
    }
}

/// Detects the node that contains the article's text: a unique explicit
/// article-body selector match under `<body>` wins outright; otherwise the
/// body-text scorer decides. `None` only when the document has no
/// `<body>`.
pub fn article_node(dom: &Dom, lang: &Language) -> (r: Option<ArticleTextNode>)
    ensures
        r is Some <==> spec_article_node(dom@, *lang) is Some,
        r matches Some(a) ==> spec_article_node(dom@, *lang) == Some(
            (a.node as int, a.confidence),
        ) && a.node < dom@.len() && a.confidence.wf(),
{
    let n = dom.len();
    let mut count: u64 = 0;
    let mut first: Option<usize> = None;
    let mut j: usize = 0;
    while j < n
        invariant
            j <= n,
            n == dom@.len(),
            count <= j,
            count == body_matches_upto(dom@, j as int),
            match first {
                Some(i) => first_body_match_from(dom@, 0) == Some(i as int) && i < dom@.len(),
                None => first_body_match_from(dom@, 0) == first_body_match_from(dom@, j as int)
                    && count == 0,
            },
        decreases n - j,
    {
        let is_match = ArticleTextNodeExtractor::article_body_predicate(dom, j) && {
            // under <body>: some ancestor is a body element
            let mut under = false;
            let mut b: usize = 0;
            while b < n
                invariant
                    b <= n,
                    n == dom@.len(),
                    j < dom@.len(),
                    under == exists|x: int|
                        0 <= x < b && tag_is(dom@, x, "body"@) && is_anc(dom@, x, j as int),
                decreases n - b,
            {
                if !under && dom.tag_is(b, "body") && dom.has_ancestor(b, j) {
                    under = true;
                }
                b = b + 1;
            }
            under
        };
        proof {
            if is_match {
                assert(spec_body_match_under_body(dom@, j as int));
            } else {
                assert(!spec_body_match_under_body(dom@, j as int));
            }
        }
        if is_match {
            count = count + 1;
            match first {
                Some(_) => {},
                None => {
                    first = Some(j);
                },
            }
        }
        j = j + 1;
    }
    if count == 1 {
        match first {
            Some(i) => {
                return Some(ArticleTextNode::new(i));
            },
            None => {},
        }
    }
    ArticleTextNodeExtractor::calculate_best_node(dom, lang)
}


} // verus!
