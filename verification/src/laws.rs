//! The engine's general guarantees, stated and proved once over the ghost
//! document: what holds of every extraction, not of one example.

use vstd::prelude::*;

use crate::article::{article_matches, opt_view, Article};
use crate::chars::{lex_le, seq_starts_with, spec_byte_len, spec_trim};
use crate::dom::{attr_of, is_anc, tag_is, DomView, spec_text_of};
use crate::lang::Language;
use crate::noise::spec_candidates;
use crate::score::{
    body_matches_upto, first_itemprop_from, lemma_survivor_elems, spec_boost,
    spec_calculate_best_node, spec_article_node, spec_has_body, spec_link_density_ok,
    spec_survivors, MIN_TEXT_LENGTH,
};
use crate::text::Confidence;
use crate::unicode::lower_of;

verus! {

/// A candidate whose link density exceeds one half never survives to
/// scoring.
pub proof fn lemma_high_link_density_never_scored(d: DomView, lang: Language, k: int)
    requires
        0 <= k < spec_survivors(d, lang).len(),
    ensures
        spec_link_density_ok(d, spec_survivors(d, lang)[k]),
{
    lemma_survivor_elems(d, lang, spec_candidates(d));
}

/// A candidate whose text is shorter than the minimum never survives to
/// scoring.
pub proof fn lemma_short_text_never_scored(d: DomView, lang: Language, k: int)
    requires
        0 <= k < spec_survivors(d, lang).len(),
    ensures
        spec_byte_len(spec_text_of(d, spec_survivors(d, lang)[k])) >= MIN_TEXT_LENGTH,
{
    lemma_survivor_elems(d, lang, spec_candidates(d));
}

/// With more than fifteen survivors, a survivor in the last quarter of
/// the list receives a non-positive boost unless it is clamped to five.
pub proof fn lemma_tail_boost_non_positive(d: DomView, lang: Language, sv: Seq<int>, k: int)
    requires
        sv.len() > 15,
        0 <= k < sv.len(),
        4 * (sv.len() - k) <= if sv.len() > 4 {
            sv.len() as int
        } else {
            4
        },
    ensures
        spec_boost(d, lang, sv, k).0 <= 0 || spec_boost(d, lang, sv, k) == (5int, 1int),
{
}

/// A document without a `<body>` yields no article node, and so no body
/// text.
pub proof fn lemma_no_body_no_text(a: Article, d: DomView, base: Option<Seq<char>>, lang: Language)
    requires
        article_matches(a, d, base, lang),
        !spec_has_body(d),
    ensures
        a.text is None,
{
    lemma_no_body_matches(d, d.len() as int);
    assert(spec_calculate_best_node(d, lang) is None);
    assert(spec_article_node(d, lang) is None);
}

proof fn lemma_no_body_matches(d: DomView, j: int)
    requires
        !spec_has_body(d),
    ensures
        body_matches_upto(d, j) == 0,
    decreases j,
{
    if j > 0 {
        lemma_no_body_matches(d, j - 1);
        if crate::score::spec_body_match_under_body(d, j - 1) {
            let b = choose|b: int| tag_is(d, b, "body"@) && is_anc(d, b, j - 1);
            assert(tag_is(d, b, "body"@));
        }
    }
}

/// A document with a `<body>` and a node marked `itemprop="articleBody"`
/// always yields an article node, at confidence at least ninety-five
/// hundredths; unless a unique explicit selector match decided first, the
/// selection is exactly the first such marked node at exactly
/// ninety-five hundredths.
pub proof fn lemma_itemprop_body_selected(d: DomView, lang: Language, w: int)
    requires
        spec_has_body(d),
        attr_of(d, w, "itemprop"@) == Some("articleBody"@),
        0 <= w < d.len(),
    ensures
        spec_article_node(d, lang) is Some,
        100 * (spec_article_node(d, lang)->0).1.num >= 95 * (spec_article_node(d, lang)->0).1.den,
        body_matches_upto(d, d.len() as int) == 1 || (Some((spec_article_node(d, lang)->0).0)
            == first_itemprop_from(d, 0) && (spec_article_node(d, lang)->0).1 == (Confidence {
            num: 95,
            den: 100,
        })),
{
    lemma_first_itemprop_finds(d, 0, w);
    match spec_article_node(d, lang) {
        Some(sel) => {
            if body_matches_upto(d, d.len() as int) == 1 && crate::score::first_body_match_from(
                d,
                0,
            ) is Some {
                assert(sel.1 == (Confidence { num: 1, den: 1 }));
            } else {
                assert(sel.1 == (Confidence { num: 95, den: 100 }));
                assert(Some(sel.0) == first_itemprop_from(d, 0));
            }
        },
        None => {
            assert(false);
        },
    }
}

proof fn lemma_first_itemprop_finds(d: DomView, j: int, w: int)
    requires
        0 <= j <= w < d.len(),
        attr_of(d, w, "itemprop"@) == Some("articleBody"@),
    ensures
        first_itemprop_from(d, j) is Some,
    decreases d.len() - j,
{
    if !(attr_of(d, j, "itemprop"@) == Some("articleBody"@)) {
        assert(j != w);
        lemma_first_itemprop_finds(d, j + 1, w);
    }
}

/// Every present title is free of angle brackets, of a leading `By `,
/// and of trailing name punctuation.
pub proof fn lemma_title_clean(d: DomView)
    ensures
        crate::title::spec_title(d) matches Some(t) ==> !t.contains('<') && !t.contains('>')
            && !seq_starts_with(t, "By "@) && (t.len() > 0 ==> !crate::authors::name_trim_char(
            t.last(),
        )),
{
    match crate::title::spec_title(d) {
        Some(t) => {
            lemma_postprocess_clean_any(d, t);
        },
        None => {},
    }
}

proof fn lemma_postprocess_clean_any(d: DomView, t: Seq<char>)
    requires
        crate::title::spec_title(d) == Some(t),
    ensures
        !t.contains('<') && !t.contains('>') && !seq_starts_with(t, "By "@),
        t.len() > 0 ==> !crate::authors::name_trim_char(t.last()),
{
    // every branch of the title extractor post-processes its candidate
    match crate::title::first_meta_title(d) {
        Some(m) => {
            lemma_postprocess_title_clean(m);
        },
        None => {
            let h1 = match crate::title::spec_h1_longest(d) {
                Some(h) => h,
                None => Seq::<char>::empty(),
            };
            if crate::split::spec_words(h1, crate::split::Sep::Space).len() > 2 {
                lemma_postprocess_title_clean(
                    crate::split::spec_join(
                        crate::split::spec_words(h1, crate::split::Sep::Space),
                        " "@,
                    ),
                );
            } else {
                let tt = match crate::title::spec_title_tag(d) {
                    Some(x) => x,
                    None => Seq::<char>::empty(),
                };
                let cand0: Seq<char> = if h1.len() > 0 && h1 == tt {
                    h1
                } else {
                    Seq::empty()
                };
                let cand1: Seq<char> = if cand0.len() == 0 && tt.len() > 0 {
                    crate::title::spec_delim_candidate(tt, crate::title::alnum_lower(h1))
                } else {
                    cand0
                };
                let cand: Seq<char> = if h1.len() > 0 && crate::title::alnum_lower(h1)
                    == crate::title::alnum_lower(cand1) {
                    h1
                } else {
                    cand1
                };
                if cand.len() > 0 {
                    lemma_postprocess_title_clean(cand);
                }
            }
        },
    }
}

/// The title post-processing leaves no angle bracket, no leading `By `
/// and no trailing name punctuation.
pub proof fn lemma_postprocess_title_clean(s: Seq<char>)
    ensures
        !crate::title::spec_postprocess_title(s).contains('<'),
        !crate::title::spec_postprocess_title(s).contains('>'),
        !seq_starts_with(crate::title::spec_postprocess_title(s), "By "@),
        crate::title::spec_postprocess_title(s).len() > 0
            ==> !crate::authors::name_trim_char(crate::title::spec_postprocess_title(s).last()),
{
    let a = crate::split::spec_replace(
        crate::split::spec_replace(s, "&#65533;"@, ""@),
        "&raquo;"@,
        "\u{bb}"@,
    );
    let b = crate::split::spec_strip_tags(a);
    let c = crate::title::remove_angle(b);
    let e = spec_trim(c);
    lemma_remove_angle_clean(b);
    crate::chars::lemma_trim_chars(c, '<');
    crate::chars::lemma_trim_chars(c, '>');
    lemma_strip_by_no_char(e, '<');
    lemma_strip_by_no_char(e, '>');
    lemma_strip_by_no_prefix(e);
    let f = crate::title::strip_by(e);
    lemma_name_trim_end_props(f);
    let t = crate::authors::name_trim_end(f);
    assert(!t.contains('<')) by {
        if t.contains('<') {
            let i = choose|i: int| 0 <= i < t.len() && t[i] == '<';
            assert(f[i] == '<');
        }
    }
    assert(!t.contains('>')) by {
        if t.contains('>') {
            let i = choose|i: int| 0 <= i < t.len() && t[i] == '>';
            assert(f[i] == '>');
        }
    }
    assert(!seq_starts_with(t, "By "@)) by {
        reveal_strlit("By ");
        if seq_starts_with(t, "By "@) {
            assert(t.subrange(0, 3) =~= f.subrange(0, 3));
            assert(seq_starts_with(f, "By "@));
        }
    }
}

proof fn lemma_name_trim_end_props(s: Seq<char>)
    ensures
        crate::authors::name_trim_end(s).len() <= s.len(),
        forall|i: int|
            0 <= i < crate::authors::name_trim_end(s).len()
                ==> #[trigger] crate::authors::name_trim_end(s)[i] == s[i],
        crate::authors::name_trim_end(s).len() > 0 ==> !crate::authors::name_trim_char(
            crate::authors::name_trim_end(s).last(),
        ),
    decreases s.len(),
{
    if s.len() > 0 && crate::authors::name_trim_char(s[s.len() - 1]) {
        lemma_name_trim_end_props(s.drop_last());
        assert(crate::authors::name_trim_end(s) == crate::authors::name_trim_end(s.drop_last()));
        assert forall|i: int|
            0 <= i < crate::authors::name_trim_end(s).len() implies #[trigger] crate::authors::name_trim_end(
            s,
        )[i] == s[i] by {
            assert(crate::authors::name_trim_end(s.drop_last())[i] == s.drop_last()[i]);
            assert(s.drop_last()[i] == s[i]);
        }
    } else {
        assert(crate::authors::name_trim_end(s) == s);
    }
}

proof fn lemma_remove_angle_clean(s: Seq<char>)
    ensures
        !crate::title::remove_angle(s).contains('<'),
        !crate::title::remove_angle(s).contains('>'),
    decreases s.len(),
{
    if s.len() > 0 {
        lemma_remove_angle_clean(s.drop_first());
        let r = crate::title::remove_angle(s);
        let rest = crate::title::remove_angle(s.drop_first());
        assert forall|c: char| (c == '<' || c == '>') implies !r.contains(c) by {
            if r.contains(c) {
                let i = choose|i: int| 0 <= i < r.len() && r[i] == c;
                if s[0] == '<' || s[0] == '>' {
                    assert(r == rest);
                    assert(rest.contains(c));
                } else {
                    if i == 0 {
                        assert(s[0] == c);
                    } else {
                        assert(rest[i - 1] == c);
                        assert(rest.contains(c));
                    }
                }
            }
        }
    }
}

proof fn lemma_subrange_no_char(s: Seq<char>, c: char, i: int, j: int)
    requires
        !s.contains(c),
        0 <= i <= j <= s.len(),
    ensures
        !s.subrange(i, j).contains(c),
{
    if s.subrange(i, j).contains(c) {
        let k = choose|k: int| 0 <= k < j - i && s.subrange(i, j)[k] == c;
        assert(s[i + k] == c);
    }
}

proof fn lemma_trim_start_no_char(s: Seq<char>, c: char)
    requires
        !s.contains(c),
    ensures
        !crate::chars::spec_trim_start(s).contains(c),
    decreases s.len(),
{
    if s.len() > 0 && crate::chars::spec_is_space(s[0]) {
        assert(!s.drop_first().contains(c)) by {
            if s.drop_first().contains(c) {
                let k = choose|k: int| 0 <= k < s.len() - 1 && s.drop_first()[k] == c;
                assert(s[k + 1] == c);
            }
        }
        lemma_trim_start_no_char(s.drop_first(), c);
    }
}

proof fn lemma_strip_by_no_char(s: Seq<char>, c: char)
    requires
        !s.contains(c),
    ensures
        !crate::title::strip_by(s).contains(c),
    decreases s.len(),
{
    if seq_starts_with(s, "By "@) {
        reveal_strlit("By ");
        let rest = s.subrange(3, s.len() as int);
        lemma_subrange_no_char(s, c, 3, s.len() as int);
        lemma_trim_start_no_char(rest, c);
        crate::chars::lemma_trim_start_le(rest);
        lemma_strip_by_no_char(crate::chars::spec_trim_start(rest), c);
    }
}

proof fn lemma_strip_by_no_prefix(s: Seq<char>)
    ensures
        !seq_starts_with(crate::title::strip_by(s), "By "@),
    decreases s.len(),
{
    if seq_starts_with(s, "By "@) {
        reveal_strlit("By ");
        let rest = s.subrange(3, s.len() as int);
        crate::chars::lemma_trim_start_le(rest);
        lemma_strip_by_no_prefix(crate::chars::spec_trim_start(rest));
    }
}

/// Ascending by lowercase form.
pub open spec fn sorted_by_lower(s: Seq<Seq<char>>) -> bool {
    forall|i: int, j: int|
        0 <= i < j < s.len() ==> lex_le(lower_of(#[trigger] s[i]), lower_of(#[trigger] s[j]))
}

/// Pairwise distinct lowercase forms.
pub open spec fn unique_by_lower(s: Seq<Seq<char>>) -> bool {
    forall|i: int, j: int|
        0 <= i < j < s.len() ==> lower_of(#[trigger] s[i]) != lower_of(#[trigger] s[j])
}

proof fn lemma_insert_contains(x: Seq<char>, s: Seq<Seq<char>>, y: Seq<char>)
    ensures
        crate::authors::insert_by_lower(x, s).contains(y) <==> (y == x || s.contains(y)),
    decreases s.len(),
{
    let ins = crate::authors::insert_by_lower(x, s);
    if s.len() == 0 {
        assert(ins =~= seq![x]);
        if ins.contains(y) {
            let i = choose|i: int| 0 <= i < ins.len() && ins[i] == y;
            assert(y == x);
        }
        if y == x {
            assert(ins[0] == y);
        }
    } else if lex_le(lower_of(x), lower_of(s[0])) {
        assert(ins =~= seq![x] + s);
        if ins.contains(y) {
            let i = choose|i: int| 0 <= i < ins.len() && ins[i] == y;
            if i > 0 {
                assert(s[i - 1] == y);
            }
        }
        if y == x {
            assert(ins[0] == y);
        }
        if s.contains(y) {
            let i = choose|i: int| 0 <= i < s.len() && s[i] == y;
            assert(ins[i + 1] == y);
        }
    } else {
        lemma_insert_contains(x, s.drop_first(), y);
        let sub = crate::authors::insert_by_lower(x, s.drop_first());
        assert(ins =~= seq![s[0]] + sub);
        if ins.contains(y) {
            let i = choose|i: int| 0 <= i < ins.len() && ins[i] == y;
            if i == 0 {
                assert(s[0] == y);
            } else {
                assert(sub[i - 1] == y);
                assert(sub.contains(y));
                if y != x {
                    assert(s.drop_first().contains(y));
                    let k = choose|k: int| 0 <= k < s.drop_first().len() && s.drop_first()[k]
                        == y;
                    assert(s[k + 1] == y);
                }
            }
        }
        if y == x {
            assert(sub.contains(y));
            let i = choose|i: int| 0 <= i < sub.len() && sub[i] == y;
            assert(ins[i + 1] == y);
        }
        if s.contains(y) {
            let i = choose|i: int| 0 <= i < s.len() && s[i] == y;
            if i == 0 {
                assert(ins[0] == y);
            } else {
                assert(s.drop_first()[i - 1] == y);
                assert(s.drop_first().contains(y));
                assert(sub.contains(y));
                let k = choose|k: int| 0 <= k < sub.len() && sub[k] == y;
                assert(ins[k + 1] == y);
            }
        }
    }
}

proof fn lemma_insert_sorted(x: Seq<char>, s: Seq<Seq<char>>)
    requires
        sorted_by_lower(s),
    ensures
        sorted_by_lower(crate::authors::insert_by_lower(x, s)),
    decreases s.len(),
{
    let ins = crate::authors::insert_by_lower(x, s);
    if s.len() == 0 {
    } else if lex_le(lower_of(x), lower_of(s[0])) {
        assert(ins =~= seq![x] + s);
        assert forall|i: int, j: int| 0 <= i < j < ins.len() implies lex_le(
            lower_of(#[trigger] ins[i]),
            lower_of(#[trigger] ins[j]),
        ) by {
            if i == 0 {
                assert(ins[j] == s[j - 1]);
                if j == 1 {
                } else {
                    assert(lex_le(lower_of(s[0]), lower_of(s[j - 1])));
                    crate::chars::lemma_lex_le_trans(
                        lower_of(x),
                        lower_of(s[0]),
                        lower_of(s[j - 1]),
                    );
                }
            } else {
                assert(ins[i] == s[i - 1]);
                assert(ins[j] == s[j - 1]);
            }
        }
    } else {
        assert(forall|i: int, j: int|
            0 <= i < j < s.drop_first().len() ==> lex_le(
                lower_of(#[trigger] s.drop_first()[i]),
                lower_of(#[trigger] s.drop_first()[j]),
            )) by {
            assert(forall|i: int|
                0 <= i < s.drop_first().len() ==> #[trigger] s.drop_first()[i] == s[i + 1]);
        }
        lemma_insert_sorted(x, s.drop_first());
        let sub = crate::authors::insert_by_lower(x, s.drop_first());
        assert(ins =~= seq![s[0]] + sub);
        crate::chars::lemma_lex_le_total(lower_of(x), lower_of(s[0]));
        assert forall|i: int, j: int| 0 <= i < j < ins.len() implies lex_le(
            lower_of(#[trigger] ins[i]),
            lower_of(#[trigger] ins[j]),
        ) by {
            if i == 0 {
                assert(ins[j] == sub[j - 1]);
                lemma_insert_contains(x, s.drop_first(), sub[j - 1]);
                if sub[j - 1] == x {
                    assert(lex_le(lower_of(s[0]), lower_of(x)));
                } else {
                    assert(s.drop_first().contains(sub[j - 1]));
                    let k = choose|k: int|
                        0 <= k < s.drop_first().len() && s.drop_first()[k] == sub[j - 1];
                    assert(s[k + 1] == sub[j - 1]);
                    assert(lex_le(lower_of(s[0]), lower_of(s[k + 1])));
                }
            } else {
                assert(ins[i] == sub[i - 1]);
                assert(ins[j] == sub[j - 1]);
            }
        }
    }
}

proof fn lemma_insert_unique(x: Seq<char>, s: Seq<Seq<char>>)
    requires
        unique_by_lower(s),
        forall|i: int| 0 <= i < s.len() ==> lower_of(#[trigger] s[i]) != lower_of(x),
    ensures
        unique_by_lower(crate::authors::insert_by_lower(x, s)),
    decreases s.len(),
{
    let ins = crate::authors::insert_by_lower(x, s);
    if s.len() == 0 {
    } else if lex_le(lower_of(x), lower_of(s[0])) {
        assert(ins =~= seq![x] + s);
        assert forall|i: int, j: int| 0 <= i < j < ins.len() implies lower_of(
            #[trigger] ins[i],
        ) != lower_of(#[trigger] ins[j]) by {
            if i == 0 {
                assert(ins[j] == s[j - 1]);
            } else {
                assert(ins[i] == s[i - 1]);
                assert(ins[j] == s[j - 1]);
            }
        }
    } else {
        assert(forall|i: int|
            0 <= i < s.drop_first().len() ==> #[trigger] s.drop_first()[i] == s[i + 1]);
        lemma_insert_unique(x, s.drop_first());
        let sub = crate::authors::insert_by_lower(x, s.drop_first());
        assert(ins =~= seq![s[0]] + sub);
        assert forall|i: int, j: int| 0 <= i < j < ins.len() implies lower_of(
            #[trigger] ins[i],
        ) != lower_of(#[trigger] ins[j]) by {
            if i == 0 {
                assert(ins[j] == sub[j - 1]);
                lemma_insert_contains(x, s.drop_first(), sub[j - 1]);
                if sub[j - 1] == x {
                } else {
                    assert(s.drop_first().contains(sub[j - 1]));
                    let k = choose|k: int|
                        0 <= k < s.drop_first().len() && s.drop_first()[k] == sub[j - 1];
                    assert(s[k + 1] == sub[j - 1]);
                }
            } else {
                assert(ins[i] == sub[i - 1]);
                assert(ins[j] == sub[j - 1]);
            }
        }
    }
}

proof fn lemma_sort_contains(s: Seq<Seq<char>>, k: int, y: Seq<char>)
    requires
        0 <= k <= s.len(),
    ensures
        crate::authors::sort_authors_upto(s, k).contains(y) <==> exists|i: int|
            0 <= i < k && s[i] == y,
    decreases k,
{
    if k > 0 {
        lemma_sort_contains(s, k - 1, y);
        lemma_insert_contains(s[k - 1], crate::authors::sort_authors_upto(s, k - 1), y);
        if y == s[k - 1] {
            assert(0 <= k - 1 < k && s[k - 1] == y);
        }
    } else {
        if crate::authors::sort_authors_upto(s, k).contains(y) {
            let i = choose|i: int|
                0 <= i < crate::authors::sort_authors_upto(s, k).len()
                    && crate::authors::sort_authors_upto(s, k)[i] == y;
        }
    }
}

/// The deduplicated author list has pairwise distinct lowercase keys.
proof fn lemma_dedup_authors_unique(raw: Seq<Seq<char>>, k: int)
    ensures
        unique_by_lower(crate::authors::dedup_authors_upto(raw, k)),
    decreases k,
{
    if k > 0 {
        lemma_dedup_authors_unique(raw, k - 1);
        let prev = crate::authors::dedup_authors_upto(raw, k - 1);
        let cur = crate::authors::dedup_authors_upto(raw, k);
        if cur.len() > prev.len() {
            let a = crate::authors::spec_clean_author(raw[k - 1]);
            assert(cur =~= prev + seq![a]);
            assert forall|i: int, j: int| 0 <= i < j < cur.len() implies lower_of(
                #[trigger] cur[i],
            ) != lower_of(#[trigger] cur[j]) by {
                if j < prev.len() {
                    assert(cur[i] == prev[i] && cur[j] == prev[j]);
                } else {
                    assert(cur[i] == prev[i] && cur[j] == a);
                }
            }
        }
    }
}

/// The extracted author list is sorted ascending by lowercase form and
/// case-insensitively unique.
pub proof fn lemma_authors_sorted_unique(d: DomView)
    ensures
        sorted_by_lower(crate::authors::spec_authors(d)),
        unique_by_lower(crate::authors::spec_authors(d)),
{
    let raw = crate::authors::raw_authors_upto(d, d.len() as int);
    let ded = crate::authors::dedup_authors_upto(raw, raw.len() as int);
    lemma_dedup_authors_unique(raw, raw.len() as int);
    lemma_sort_all(ded, ded.len() as int);
}

proof fn lemma_sort_all(ded: Seq<Seq<char>>, k: int)
    requires
        0 <= k <= ded.len(),
        unique_by_lower(ded),
    ensures
        sorted_by_lower(crate::authors::sort_authors_upto(ded, k)),
        unique_by_lower(crate::authors::sort_authors_upto(ded, k)),
    decreases k,
{
    if k > 0 {
        lemma_sort_all(ded, k - 1);
        let prev = crate::authors::sort_authors_upto(ded, k - 1);
        let x = ded[k - 1];
        assert forall|i: int| 0 <= i < prev.len() implies lower_of(#[trigger] prev[i])
            != lower_of(x) by {
            lemma_sort_contains(ded, k - 1, prev[i]);
            assert(prev.contains(prev[i]));
            let w = choose|w: int| 0 <= w < k - 1 && ded[w] == prev[i];
            assert(lower_of(ded[w]) != lower_of(ded[k - 1]));
        }
        lemma_insert_sorted(x, prev);
        lemma_insert_unique(x, prev);
    }
}

/// Whether `a` appears inside `b` in order.
pub open spec fn is_subseq(a: Seq<Seq<char>>, b: Seq<Seq<char>>) -> bool
    decreases a.len() + b.len(),
{
    if a.len() == 0 {
        true
    } else if b.len() == 0 {
        false
    } else if a[0] == b[0] {
        is_subseq(a.drop_first(), b.drop_first())
    } else {
        is_subseq(a, b.drop_first())
    }
}

proof fn lemma_subseq_push_b(a: Seq<Seq<char>>, b: Seq<Seq<char>>, z: Seq<char>)
    requires
        is_subseq(a, b),
    ensures
        is_subseq(a, b.push(z)),
    decreases a.len() + b.len(),
{
    if a.len() == 0 {
    } else if b.len() == 0 {
    } else if a[0] == b[0] {
        lemma_subseq_push_b(a.drop_first(), b.drop_first(), z);
        assert(b.push(z).drop_first() =~= b.drop_first().push(z));
        assert(b.push(z)[0] == b[0]);
    } else {
        lemma_subseq_push_b(a, b.drop_first(), z);
        assert(b.push(z).drop_first() =~= b.drop_first().push(z));
        assert(b.push(z)[0] == b[0]);
    }
}

proof fn lemma_subseq_push_both(a: Seq<Seq<char>>, b: Seq<Seq<char>>, z: Seq<char>)
    requires
        is_subseq(a, b),
    ensures
        is_subseq(a.push(z), b.push(z)),
    decreases a.len() + b.len(),
{
    if a.len() == 0 {
        assert(a =~= Seq::<Seq<char>>::empty());
        lemma_subseq_single(z, b);
        assert(a.push(z) =~= Seq::<Seq<char>>::empty().push(z));
    } else if b.len() == 0 {
    } else if a[0] == b[0] {
        lemma_subseq_push_both(a.drop_first(), b.drop_first(), z);
        assert(a.push(z).drop_first() =~= a.drop_first().push(z));
        assert(b.push(z).drop_first() =~= b.drop_first().push(z));
        assert(a.push(z)[0] == a[0]);
        assert(b.push(z)[0] == b[0]);
        assert(is_subseq(a.push(z), b.push(z)));
    } else {
        lemma_subseq_push_both(a, b.drop_first(), z);
        assert(b.push(z).drop_first() =~= b.drop_first().push(z));
        assert(a.push(z)[0] == a[0]);
        assert(b.push(z)[0] == b[0]);
        assert(is_subseq(a.push(z), b.push(z)));
    }
}

proof fn lemma_subseq_single(z: Seq<char>, b: Seq<Seq<char>>)
    ensures
        is_subseq(Seq::<Seq<char>>::empty().push(z), b.push(z)),
    decreases b.len(),
{
    let a = Seq::<Seq<char>>::empty().push(z);
    let bb = b.push(z);
    assert(a.len() == 1);
    assert(a[0] == z);
    if b.len() == 0 {
        assert(bb[0] == z);
        assert(a.drop_first() =~= Seq::<Seq<char>>::empty());
        assert(bb.drop_first() =~= Seq::<Seq<char>>::empty());
        assert(is_subseq(a.drop_first(), bb.drop_first()));
        assert(is_subseq(a, bb));
    } else {
        assert(bb[0] == b[0]);
        if z == b[0] {
            assert(a.drop_first() =~= Seq::<Seq<char>>::empty());
            assert(is_subseq(a.drop_first(), bb.drop_first()));
            assert(is_subseq(a, bb));
        } else {
            lemma_subseq_single(z, b.drop_first());
            assert(bb.drop_first() =~= b.drop_first().push(z));
            assert(is_subseq(a, bb.drop_first()));
            assert(is_subseq(a, bb));
        }
    }
}

proof fn lemma_dedup_exact_unique(s: Seq<Seq<char>>, k: int)
    ensures
        forall|i: int, j: int|
            0 <= i < j < crate::urls::dedup_exact(s, k).len() ==> #[trigger] crate::urls::dedup_exact(
                s,
                k,
            )[i] != #[trigger] crate::urls::dedup_exact(s, k)[j],
    decreases k,
{
    if k > 0 {
        lemma_dedup_exact_unique(s, k - 1);
        let prev = crate::urls::dedup_exact(s, k - 1);
        let cur = crate::urls::dedup_exact(s, k);
        if cur.len() > prev.len() {
            assert(cur =~= prev + seq![s[k - 1]]);
            assert forall|i: int, j: int| 0 <= i < j < cur.len() implies #[trigger] cur[i]
                != #[trigger] cur[j] by {
                if j < prev.len() {
                    assert(cur[i] == prev[i] && cur[j] == prev[j]);
                } else {
                    assert(cur[i] == prev[i] && cur[j] == s[k - 1]);
                    if cur[i] == cur[j] {
                        assert(prev.contains(s[k - 1]));
                    }
                }
            }
        }
    }
}

proof fn lemma_dedup_exact_subseq(s: Seq<Seq<char>>, k: int)
    requires
        0 <= k <= s.len(),
    ensures
        is_subseq(crate::urls::dedup_exact(s, k), s.subrange(0, k)),
    decreases k,
{
    if k == 0 {
        assert(s.subrange(0, 0) =~= Seq::<Seq<char>>::empty());
    } else {
        lemma_dedup_exact_subseq(s, k - 1);
        let prev = crate::urls::dedup_exact(s, k - 1);
        let cur = crate::urls::dedup_exact(s, k);
        assert(s.subrange(0, k) =~= s.subrange(0, k - 1).push(s[k - 1]));
        if cur.len() > prev.len() {
            assert(cur =~= prev.push(s[k - 1]));
            lemma_subseq_push_both(prev, s.subrange(0, k - 1), s[k - 1]);
        } else {
            lemma_subseq_push_b(prev, s.subrange(0, k - 1), s[k - 1]);
        }
    }
}

/// The link list keeps first-seen order and is unique by exact trimmed
/// href: it is a duplicate-free subsequence of the hrefs in document
/// order.
pub proof fn lemma_all_urls_order(d: DomView)
    ensures
        forall|i: int, j: int|
            0 <= i < j < crate::urls::spec_all_urls(d).len()
                ==> #[trigger] crate::urls::spec_all_urls(d)[i]
                != #[trigger] crate::urls::spec_all_urls(d)[j],
        is_subseq(
            crate::urls::spec_all_urls(d),
            crate::urls::hrefs_upto(d, d.len() as int),
        ),
{
    let hs = crate::urls::hrefs_upto(d, d.len() as int);
    lemma_dedup_exact_unique(hs, hs.len() as int);
    lemma_dedup_exact_subseq(hs, hs.len() as int);
    assert(hs.subrange(0, hs.len() as int) =~= hs);
}


proof fn lemma_img_link_resolved(d: DomView, base: Option<Seq<char>>, j: int, u: Seq<char>)
    requires
        crate::urls::img_link_from(d, base, j) == Some(u),
    ensures
        crate::urls::resolved_url(u),
    decreases d.len() - j,
{
    if 0 <= j < d.len() {
        if tag_is(d, j, "link"@) && (attr_of(d, j, "rel"@) == Some("img_src"@) || attr_of(
            d,
            j,
            "rel"@,
        ) == Some("image_src"@) || attr_of(d, j, "rel"@) == Some("icon"@)) && attr_of(
            d,
            j,
            "href"@,
        ) is Some && crate::urls::url_resolve(base, attr_of(d, j, "href"@)->0) is Some {
            assert(crate::urls::url_resolve(base, attr_of(d, j, "href"@)->0) == Some(u));
        } else {
            lemma_img_link_resolved(d, base, j + 1, u);
        }
    }
}

proof fn lemma_favicon_resolved(d: DomView, b: Seq<char>, j: int, u: Seq<char>)
    requires
        crate::urls::favicon_from(d, b, j) == Some(u),
    ensures
        crate::urls::resolved_url(u),
    decreases d.len() - j,
{
    if 0 <= j < d.len() {
        if tag_is(d, j, "link"@) && attr_of(d, j, "rel"@) == Some("icon"@) && attr_of(
            d,
            j,
            "href"@,
        ) is Some && crate::urls::url_resolve(Some(b), attr_of(d, j, "href"@)->0) is Some {
            assert(crate::urls::url_resolve(Some(b), attr_of(d, j, "href"@)->0) == Some(u));
        } else {
            lemma_favicon_resolved(d, b, j + 1, u);
        }
    }
}

proof fn lemma_images_resolved(d: DomView, i: int, base: Option<Seq<char>>, j: int)
    ensures
        forall|k: int|
            0 <= k < crate::urls::article_images_upto(d, i, base, j).len()
                ==> crate::urls::resolved_url(
                #[trigger] crate::urls::article_images_upto(d, i, base, j)[k],
            ),
    decreases j,
{
    if j > 0 {
        lemma_images_resolved(d, i, base, j - 1);
        let prev = crate::urls::article_images_upto(d, i, base, j - 1);
        let cur = crate::urls::article_images_upto(d, i, base, j);
        assert forall|k: int| 0 <= k < cur.len() implies crate::urls::resolved_url(
            #[trigger] cur[k],
        ) by {
            if k < prev.len() {
                assert(cur[k] == prev[k]);
            } else {
                let src = crate::urls::article_img_src(d, j - 1);
                assert(crate::urls::url_resolve(base, spec_trim(src->0)) == Some(cur[k]));
            }
        }
    }
}

proof fn lemma_refs_resolved(hs: Seq<Seq<char>>, k: int)
    ensures
        forall|x: int|
            0 <= x < crate::urls::parsed_refs(hs, k).len() ==> crate::urls::resolved_url(
                #[trigger] crate::urls::parsed_refs(hs, k)[x],
            ),
    decreases k,
{
    if k > 0 {
        lemma_refs_resolved(hs, k - 1);
        let prev = crate::urls::parsed_refs(hs, k - 1);
        let cur = crate::urls::parsed_refs(hs, k);
        assert forall|x: int| 0 <= x < cur.len() implies crate::urls::resolved_url(
            #[trigger] cur[x],
        ) by {
            if x < prev.len() {
                assert(cur[x] == prev[x]);
            } else {
                assert(crate::urls::url_resolve(None, hs[k - 1]) == Some(cur[x]));
            }
        }
    }
}

/// Every URL field of an extracted article is either absent or a
/// serialization the URL parser produced, that is, an absolute URL.
pub proof fn lemma_url_fields_absolute(
    a: Article,
    d: DomView,
    base: Option<Seq<char>>,
    lang: Language,
)
    requires
        article_matches(a, d, base, lang),
    ensures
        a.top_img matches Some(u) ==> crate::urls::resolved_url(u@),
        a.thumbnail matches Some(u) ==> crate::urls::resolved_url(u@),
        a.favicon matches Some(u) ==> crate::urls::resolved_url(u@),
        a.canonical matches Some(u) ==> crate::urls::resolved_url(u@),
        forall|k: int|
            0 <= k < a.images@.len() ==> crate::urls::resolved_url(#[trigger] a.images@[k]@),
        forall|k: int|
            0 <= k < a.references@.len() ==> crate::urls::resolved_url(
                #[trigger] a.references@[k]@,
            ),
{
    match a.top_img {
        Some(u) => {
            match crate::meta::spec_meta_content(d, "property"@, "og:image"@) {
                Some(c) => {
                    if crate::urls::url_resolve(base, c) is Some {
                        assert(crate::urls::url_resolve(base, c) == Some(u@));
                    } else {
                        lemma_img_link_resolved(d, base, 0, u@);
                    }
                },
                None => {
                    lemma_img_link_resolved(d, base, 0, u@);
                },
            }
        },
        None => {},
    }
    match a.thumbnail {
        Some(u) => {
            match crate::meta::spec_meta_content(d, "name"@, "thumbnail"@) {
                Some(c) => {
                    if crate::urls::url_resolve(base, c) is Some {
                        assert(crate::urls::url_resolve(base, c) == Some(u@));
                    } else {
                        match crate::meta::spec_meta_content(d, "name"@, "thumbnailUrl"@) {
                            Some(c2) => {
                                assert(crate::urls::url_resolve(base, c2) == Some(u@));
                            },
                            None => {},
                        }
                    }
                },
                None => {
                    match crate::meta::spec_meta_content(d, "name"@, "thumbnailUrl"@) {
                        Some(c2) => {
                            assert(crate::urls::url_resolve(base, c2) == Some(u@));
                        },
                        None => {},
                    }
                },
            }
        },
        None => {},
    }
    match a.favicon {
        Some(u) => {
            match base {
                Some(b) => {
                    lemma_favicon_resolved(d, b, 0, u@);
                },
                None => {},
            }
        },
        None => {},
    }
    match a.canonical {
        Some(u) => {
            match crate::urls::canonical_href_from(d, 0) {
                Some(h) => {
                    assert(crate::urls::url_resolve(None, h) == Some(u@));
                },
                None => {
                    match crate::meta::spec_meta_content(d, "property"@, "og:url"@) {
                        Some(c) => {
                            assert(crate::urls::url_resolve(None, c) == Some(u@));
                        },
                        None => {},
                    }
                },
            }
        },
        None => {},
    }
    match crate::score::spec_article_node(d, lang) {
        Some(sel) => {
            lemma_images_resolved(d, sel.0, base, d.len() as int);
            let imgs = crate::urls::article_images_upto(d, sel.0, base, d.len() as int);
            assert forall|k: int| 0 <= k < a.images@.len() implies crate::urls::resolved_url(
                #[trigger] a.images@[k]@,
            ) by {
                assert(a.images@.map_values(|s: String| s@)[k] == a.images@[k]@);
                assert(imgs[k] == a.images@[k]@);
            }
            let hs = crate::urls::article_hrefs_upto(d, sel.0, d.len() as int);
            let ded = crate::urls::dedup_exact(hs, hs.len() as int);
            lemma_refs_resolved(ded, ded.len() as int);
            let refs = crate::urls::parsed_refs(ded, ded.len() as int);
            assert forall|k: int| 0 <= k < a.references@.len() implies crate::urls::resolved_url(
                #[trigger] a.references@[k]@,
            ) by {
                assert(a.references@.map_values(|s: String| s@)[k] == a.references@[k]@);
                assert(refs[k] == a.references@[k]@);
            }
        },
        None => {
            assert(a.images@.len() == 0 && a.references@.len() == 0) by {
                assert(a.images@.map_values(|s: String| s@).len() == a.images@.len());
                assert(a.references@.map_values(|s: String| s@).len() == a.references@.len());
            }
        },
    }
}

/// What two articles extracted from equal documents share: every field's
/// ghost view.
pub open spec fn articles_agree(a1: Article, a2: Article) -> bool {
    &&& opt_view(a1.url) == opt_view(a2.url)
    &&& opt_view(a1.title) == opt_view(a2.title)
    &&& a1.authors@.map_values(|s: String| s@) == a2.authors@.map_values(|s: String| s@)
    &&& a1.publishing_date == a2.publishing_date
    &&& opt_view(a1.text) == opt_view(a2.text)
    &&& (match (a1.language, a2.language) {
        (Some(l1), Some(l2)) => l1@ == l2@,
        (None, None) => true,
        _ => false,
    })
    &&& opt_view(a1.top_img) == opt_view(a2.top_img)
    &&& opt_view(a1.thumbnail) == opt_view(a2.thumbnail)
    &&& opt_view(a1.favicon) == opt_view(a2.favicon)
    &&& a1.images@.map_values(|s: String| s@) == a2.images@.map_values(|s: String| s@)
    &&& a1.videos@.len() == a2.videos@.len()
    &&& (forall|k: int|
        0 <= k < a1.videos@.len() ==> #[trigger] a1.videos@[k].view_pair()
            == a2.videos@[k].view_pair() && a1.videos@[k].provider == a2.videos@[k].provider)
    &&& opt_view(a1.canonical) == opt_view(a2.canonical)
    &&& a1.references@.map_values(|s: String| s@) == a2.references@.map_values(|s: String| s@)
    &&& a1.meta_keywords@.map_values(|s: String| s@) == a2.meta_keywords@.map_values(
        |s: String| s@,
    )
    &&& opt_view(a1.meta_description) == opt_view(a2.meta_description)
    &&& a1.all_urls@.map_values(|s: String| s@) == a2.all_urls@.map_values(|s: String| s@)
}

/// Extraction is deterministic: two extractions over equal documents with
/// the same base and language agree on every field.
pub proof fn lemma_extract_deterministic(
    a1: Article,
    a2: Article,
    d: DomView,
    base: Option<Seq<char>>,
    lang: Language,
)
    requires
        article_matches(a1, d, base, lang),
        article_matches(a2, d, base, lang),
    ensures
        articles_agree(a1, a2),
{
    match crate::score::spec_article_node(d, lang) {
        Some(sel) => {
            let n1 = a1.videos@.map_values(|v: crate::video::VideoNode| v.node as int);
            let n2 = a2.videos@.map_values(|v: crate::video::VideoNode| v.node as int);
            assert(n1 == n2);
            assert(a1.videos@.len() == a2.videos@.len());
            assert forall|k: int|
                0 <= k < a1.videos@.len() implies #[trigger] a1.videos@[k].view_pair()
                == a2.videos@[k].view_pair() && a1.videos@[k].provider
                == a2.videos@[k].provider by {
                assert(n1[k] == n2[k]);
                assert(a1.videos@[k].node as int == a2.videos@[k].node as int);
                assert(crate::video::video_node_for(d, a1.videos@[k], a1.videos@[k].node as int));
                assert(crate::video::video_node_for(d, a2.videos@[k], a2.videos@[k].node as int));
            }
        },
        None => {
            assert(a1.videos@.len() == 0 && a2.videos@.len() == 0) by {
                assert(a1.videos@.map_values(|v: crate::video::VideoNode| v.node as int).len()
                    == a1.videos@.len());
                assert(a2.videos@.map_values(|v: crate::video::VideoNode| v.node as int).len()
                    == a2.videos@.len());
            }
        },
    }
    assert(opt_view(a1.url) == opt_view(a2.url));
    assert(opt_view(a1.title) == opt_view(a2.title));
    assert(a1.authors@.map_values(|s: String| s@) == a2.authors@.map_values(|s: String| s@));
    assert(a1.publishing_date == a2.publishing_date);
    assert(opt_view(a1.text) == opt_view(a2.text));
    assert(match (a1.language, a2.language) {
        (Some(l1), Some(l2)) => l1@ == l2@,
        (None, None) => true,
        _ => false,
    });
    assert(opt_view(a1.top_img) == opt_view(a2.top_img));
    assert(opt_view(a1.thumbnail) == opt_view(a2.thumbnail));
    assert(opt_view(a1.favicon) == opt_view(a2.favicon));
    assert(a1.images@.map_values(|s: String| s@) == a2.images@.map_values(|s: String| s@));
    assert(opt_view(a1.canonical) == opt_view(a2.canonical));
    assert(a1.references@.map_values(|s: String| s@) == a2.references@.map_values(
        |s: String| s@,
    ));
    assert(a1.meta_keywords@.map_values(|s: String| s@) == a2.meta_keywords@.map_values(
        |s: String| s@,
    ));
    assert(opt_view(a1.meta_description) == opt_view(a2.meta_description));
    assert(a1.all_urls@.map_values(|s: String| s@) == a2.all_urls@.map_values(|s: String| s@));
}


proof fn lemma_concat_contains(a: Seq<char>, b: Seq<char>, c: char)
    ensures
        (a + b).contains(c) <==> a.contains(c) || b.contains(c),
{
    if (a + b).contains(c) {
        let i = choose|i: int| 0 <= i < (a + b).len() && (a + b)[i] == c;
        if i < a.len() {
            assert(a[i] == c);
        } else {
            assert(b[i - a.len()] == c);
        }
    }
    if a.contains(c) {
        let i = choose|i: int| 0 <= i < a.len() && a[i] == c;
        assert((a + b)[i] == c);
    }
    if b.contains(c) {
        let i = choose|i: int| 0 <= i < b.len() && b[i] == c;
        assert((a + b)[a.len() + i] == c);
    }
}

proof fn lemma_replace_nbsp_clean(s: Seq<char>)
    ensures
        !crate::split::spec_replace(s, "\u{a0}"@, " "@).contains('\u{a0}'),
    decreases s.len(),
{
    reveal_strlit("\u{a0}");
    reveal_strlit(" ");
    let pat = "\u{a0}"@;
    let rep = " "@;
    let r = crate::split::spec_replace(s, pat, rep);
    if s.len() == 0 {
    } else if crate::chars::match_at(s, pat, 0) {
        lemma_replace_nbsp_clean(s.subrange(pat.len() as int, s.len() as int));
        lemma_concat_contains(
            rep,
            crate::split::spec_replace(s.subrange(pat.len() as int, s.len() as int), pat, rep),
            '\u{a0}',
        );
        assert(!rep.contains('\u{a0}')) by {
            if rep.contains('\u{a0}') {
                let i = choose|i: int| 0 <= i < rep.len() && rep[i] == '\u{a0}';
            }
        }
    } else {
        lemma_replace_nbsp_clean(s.subrange(1, s.len() as int));
        lemma_concat_contains(
            seq![s[0]],
            crate::split::spec_replace(s.subrange(1, s.len() as int), pat, rep),
            '\u{a0}',
        );
        assert(s[0] != '\u{a0}') by {
            if s[0] == '\u{a0}' {
                assert(s.subrange(0, 1) =~= pat);
                assert(crate::chars::match_at(s, pat, 0));
            }
        }
        assert(!seq![s[0]].contains('\u{a0}')) by {
            if seq![s[0]].contains('\u{a0}') {
                let i = choose|i: int| 0 <= i < 1 && seq![s[0]][i] == '\u{a0}';
            }
        }
    }
}

proof fn lemma_words_pieces_clean(s: Seq<char>, sep: crate::split::Sep, i: int, c: char)
    requires
        !s.contains(c),
        0 <= i <= s.len(),
    ensures
        forall|k: int|
            0 <= k < crate::split::words_from(s, sep, i).len() ==> (#[trigger] crate::split::words_from(
                s,
                sep,
                i,
            )[k]).len() > 0,
        forall|k: int|
            0 <= k < crate::split::words_from(s, sep, i).len() ==> !(#[trigger] crate::split::words_from(
                s,
                sep,
                i,
            )[k]).contains(c),
        forall|k: int, x: int|
            0 <= k < crate::split::words_from(s, sep, i).len() && 0 <= x
                < crate::split::words_from(s, sep, i)[k].len() ==> !crate::split::sep_match(
                sep,
                #[trigger] crate::split::words_from(s, sep, i)[k][x],
            ),
    decreases s.len() - i,
{
    if i < s.len() {
        if crate::split::sep_match(sep, s[i]) {
            lemma_words_pieces_clean(s, sep, i + 1, c);
            let ws = crate::split::words_from(s, sep, i);
            let rest = crate::split::words_from(s, sep, i + 1);
            assert(ws == rest);
            assert(forall|k: int| 0 <= k < ws.len() ==> #[trigger] ws[k] == rest[k]);
        } else {
            crate::split::lemma_word_end_range(s, sep, i);
            let we = crate::split::word_end(s, sep, i);
            assert(we != i) by {
                if we == i {
                    assert(crate::split::sep_match(sep, s[i]));
                }
            }
            assert(i < we <= s.len());
            lemma_words_pieces_clean(s, sep, we, c);
            let piece = s.subrange(i, we);
            let ws = crate::split::words_from(s, sep, i);
            let rest = crate::split::words_from(s, sep, we);
            assert(ws =~= seq![piece] + rest);
            assert(!piece.contains(c)) by {
                if piece.contains(c) {
                    let x = choose|x: int| 0 <= x < piece.len() && piece[x] == c;
                    assert(s[i + x] == c);
                }
            }
            assert(forall|k: int| 0 <= k < rest.len() ==> ws[k + 1] == rest[k]);
            assert(ws[0] == piece);
            assert forall|k: int| 0 <= k < ws.len() implies (#[trigger] ws[k]).len() > 0 by {
                if k > 0 {
                    assert(ws[k] == rest[k - 1]);
                }
            }
            assert forall|k: int| 0 <= k < ws.len() implies !(#[trigger] ws[k]).contains(c) by {
                if k > 0 {
                    assert(ws[k] == rest[k - 1]);
                }
            }
            assert forall|k: int, x: int|
                0 <= k < ws.len() && 0 <= x < ws[k].len() implies !crate::split::sep_match(
                sep,
                #[trigger] ws[k][x],
            ) by {
                if k == 0 {
                    assert(piece[x] == s[i + x]);
                } else {
                    assert(ws[k] == rest[k - 1]);
                    assert(rest[k - 1][x] == ws[k][x]);
                }
            }
        }
    }
}

proof fn lemma_kept_lines_clean(ls: Seq<Seq<char>>, c: char)
    requires
        forall|i: int| 0 <= i < ls.len() ==> !(#[trigger] ls[i]).contains(c),
    ensures
        forall|k: int|
            0 <= k < crate::text::kept_lines(ls).len() ==> {
                let l = #[trigger] crate::text::kept_lines(ls)[k];
                l.len() > 0 && !crate::text::spec_is_code_like_line(l)
                    && !crate::text::spec_is_low_content_line(l) && !l.contains(c)
            },
    decreases ls.len(),
{
    if ls.len() > 0 {
        assert(forall|i: int|
            0 <= i < ls.drop_last().len() ==> !(#[trigger] ls.drop_last()[i]).contains(c)) by {
            assert(forall|i: int|
                0 <= i < ls.drop_last().len() ==> #[trigger] ls.drop_last()[i] == ls[i]);
        }
        lemma_kept_lines_clean(ls.drop_last(), c);
        let cur = crate::text::kept_lines(ls);
        let prev = crate::text::kept_lines(ls.drop_last());
        if crate::text::line_kept(ls.last()) {
            assert(cur =~= prev + seq![spec_trim(ls.last())]);
            crate::chars::lemma_trim_chars(ls.last(), c);
            assert forall|k: int| 0 <= k < cur.len() implies {
                let l = #[trigger] cur[k];
                l.len() > 0 && !crate::text::spec_is_code_like_line(l)
                    && !crate::text::spec_is_low_content_line(l) && !l.contains(c)
            } by {
                if k < prev.len() {
                    assert(cur[k] == prev[k]);
                } else {
                    assert(cur[k] == spec_trim(ls.last()));
                    crate::chars::lemma_trim_idempotent(ls.last());
                }
            }
        } else {
            assert(cur =~= prev);
        }
    }
}

proof fn lemma_join_clean(parts: Seq<Seq<char>>, sep: Seq<char>, c: char)
    requires
        forall|i: int| 0 <= i < parts.len() ==> !(#[trigger] parts[i]).contains(c),
        !sep.contains(c),
    ensures
        !crate::split::spec_join(parts, sep).contains(c),
    decreases parts.len(),
{
    if parts.len() == 0 {
        if crate::split::spec_join(parts, sep).contains(c) {
            let i = choose|i: int|
                0 <= i < crate::split::spec_join(parts, sep).len() && crate::split::spec_join(
                    parts,
                    sep,
                )[i] == c;
        }
    } else if parts.len() == 1 {
    } else {
        assert(forall|i: int|
            0 <= i < parts.drop_last().len() ==> !(#[trigger] parts.drop_last()[i]).contains(c))
            by {
            assert(forall|i: int|
                0 <= i < parts.drop_last().len() ==> #[trigger] parts.drop_last()[i] == parts[i]);
        }
        lemma_join_clean(parts.drop_last(), sep, c);
        lemma_concat_contains(crate::split::spec_join(parts.drop_last(), sep), sep, c);
        lemma_concat_contains(
            crate::split::spec_join(parts.drop_last(), sep) + sep,
            parts.last(),
            c,
        );
    }
}

/// The lines of a cleaned body text: what post-processing keeps.
pub open spec fn text_lines(t: Seq<char>) -> Seq<Seq<char>> {
    crate::text::kept_lines(
        crate::split::spec_words(
            crate::split::spec_replace(t, "\u{a0}"@, " "@),
            crate::split::Sep::Newline,
        ),
    )
}

/// A cleaned body text holds no no-break space, and it is exactly its
/// lines joined by newlines, where every line is non-blank, free of
/// newlines, not code-like, and not low on letters.
pub proof fn lemma_text_clean(t: Seq<char>)
    ensures
        !crate::text::spec_post_process_text(t).contains('\u{a0}'),
        crate::text::spec_post_process_text(t) == crate::split::spec_join(text_lines(t), "\n"@),
        forall|k: int|
            0 <= k < text_lines(t).len() ==> {
                let l = #[trigger] text_lines(t)[k];
                l.len() > 0 && !crate::text::spec_is_code_like_line(l)
                    && !crate::text::spec_is_low_content_line(l) && !l.contains('\n')
                    && !l.contains('\u{a0}')
            },
{
    let replaced = crate::split::spec_replace(t, "\u{a0}"@, " "@);
    let ls = crate::split::spec_words(replaced, crate::split::Sep::Newline);
    lemma_replace_nbsp_clean(t);
    lemma_words_pieces_clean(replaced, crate::split::Sep::Newline, 0, '\u{a0}');
    assert(forall|i: int| 0 <= i < ls.len() ==> !(#[trigger] ls[i]).contains('\u{a0}'));
    assert(forall|i: int| 0 <= i < ls.len() ==> !(#[trigger] ls[i]).contains('\n')) by {
        assert forall|i: int| 0 <= i < ls.len() implies !(#[trigger] ls[i]).contains('\n') by {
            if ls[i].contains('\n') {
                let x = choose|x: int| 0 <= x < ls[i].len() && ls[i][x] == '\n';
                assert(crate::split::sep_match(crate::split::Sep::Newline, ls[i][x]));
            }
        }
    }
    lemma_kept_lines_clean(ls, '\u{a0}');
    lemma_kept_lines_clean(ls, '\n');
    let kept = crate::text::kept_lines(ls);
    assert(!"\n"@.contains('\u{a0}')) by {
        reveal_strlit("\n");
        if "\n"@.contains('\u{a0}') {
            let i = choose|i: int| 0 <= i < "\n"@.len() && "\n"@[i] == '\u{a0}';
        }
    }
    lemma_join_clean(kept, "\n"@, '\u{a0}');
}


} // verus!
