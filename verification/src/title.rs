//! The title extractor: meta keys first, then a long `<h1>`, then
//! heuristics over the `<h1>` and `<title>` texts with delimiter splitting.

use vstd::prelude::*;

use crate::chars::{
    byte_len, chars_of, contains_str, seq_contains, seq_starts_with, slice_eq, spec_byte_len,
    spec_trim, spec_trim_start, starts_with_str, suffix_of, trim, trim_start_vec,
};
use crate::dom::{tag_is, Dom, DomView, spec_text_of};
use crate::meta::spec_meta_content;
use crate::split::{
    spec_join, spec_replace, spec_split_keep, spec_words, join_parts, replace_str, split_keep,
    split_words, Sep,
};
use crate::unicode::{char_is_alphanumeric, is_alnum, lower_chars, lower_of};

verus! {

/// The chars of `s` that are alphanumeric, in order.
pub open spec fn filter_alnum(s: Seq<char>) -> Seq<char>
    decreases s.len(),
{
    if s.len() == 0 {
        Seq::empty()
    } else {
        (if is_alnum(s[0]) {
            seq![s[0]]
        } else {
            Seq::empty()
        }) + filter_alnum(s.drop_first())
    }
}

/// The comparison form used by the title heuristics: alphanumeric chars
/// only, lowered.
pub open spec fn alnum_lower(s: Seq<char>) -> Seq<char> {
    lower_of(filter_alnum(s))
}

fn filter_alnum_exec(s: &[char]) -> (r: Vec<char>)
    ensures
        r@ == filter_alnum(s@),
{
    let mut r: Vec<char> = Vec::new();
    let mut i: usize = 0;
    proof {
        assert(s@.subrange(0, s@.len() as int) =~= s@);
    }
    while i < s.len()
        invariant
            i <= s@.len(),
            filter_alnum(s@) == r@ + filter_alnum(s@.subrange(i as int, s@.len() as int)),
        decreases s.len() - i,
    {
        proof {
            let suffix = s@.subrange(i as int, s@.len() as int);
            assert(suffix[0] == s@[i as int]);
            assert(suffix.drop_first() =~= s@.subrange(i + 1, s@.len() as int));
            if is_alnum(s@[i as int]) {
                assert(r@ + (seq![s@[i as int]] + filter_alnum(s@.subrange(i + 1, s@.len() as int)))
                    =~= r@.push(s@[i as int]) + filter_alnum(s@.subrange(i + 1, s@.len() as int)));
            } else {
                assert(r@ + (Seq::<char>::empty() + filter_alnum(
                    s@.subrange(i + 1, s@.len() as int),
                )) =~= r@ + filter_alnum(s@.subrange(i + 1, s@.len() as int)));
            }
        }
        if char_is_alphanumeric(s[i]) {
            r.push(s[i]);
        }
        i = i + 1;
    }
    proof {
        assert(s@.subrange(s@.len() as int, s@.len() as int) =~= Seq::<char>::empty());
        assert(r@ + Seq::<char>::empty() =~= r@);
    }
    r
}

fn alnum_lower_exec(s: &[char]) -> (r: Vec<char>)
    ensures
        r@ == alnum_lower(s@),
{
    let f = filter_alnum_exec(s);
    lower_chars(f.as_slice())
}

/// The chars of `s` other than `<` and `>`.
pub open spec fn remove_angle(s: Seq<char>) -> Seq<char>
    decreases s.len(),
{
    if s.len() == 0 {
        Seq::empty()
    } else {
        (if s[0] == '<' || s[0] == '>' {
            Seq::<char>::empty()
        } else {
            seq![s[0]]
        }) + remove_angle(s.drop_first())
    }
}

fn remove_angle_exec(s: &[char]) -> (r: Vec<char>)
    ensures
        r@ == remove_angle(s@),
{
    let mut r: Vec<char> = Vec::new();
    let mut i: usize = 0;
    proof {
        assert(s@.subrange(0, s@.len() as int) =~= s@);
    }
    while i < s.len()
        invariant
            i <= s@.len(),
            remove_angle(s@) == r@ + remove_angle(s@.subrange(i as int, s@.len() as int)),
        decreases s.len() - i,
    {
        proof {
            let suffix = s@.subrange(i as int, s@.len() as int);
            assert(suffix[0] == s@[i as int]);
            assert(suffix.drop_first() =~= s@.subrange(i + 1, s@.len() as int));
            if !(s@[i as int] == '<' || s@[i as int] == '>') {
                assert(r@ + (seq![s@[i as int]] + remove_angle(s@.subrange(i + 1, s@.len() as int)))
                    =~= r@.push(s@[i as int]) + remove_angle(s@.subrange(i + 1, s@.len() as int)));
            } else {
                assert(r@ + (Seq::<char>::empty() + remove_angle(
                    s@.subrange(i + 1, s@.len() as int),
                )) =~= r@ + remove_angle(s@.subrange(i + 1, s@.len() as int)));
            }
        }
        if !(s[i] == '<' || s[i] == '>') {
            r.push(s[i]);
        }
        i = i + 1;
    }
    proof {
        assert(s@.subrange(s@.len() as int, s@.len() as int) =~= Seq::<char>::empty());
        assert(r@ + Seq::<char>::empty() =~= r@);
    }
    r
}

/// Repeatedly removes a leading `By ` and the whitespace after it.
pub open spec fn strip_by(s: Seq<char>) -> Seq<char>
    decreases s.len(),
    via strip_by_dec
{
    if seq_starts_with(s, "By "@) {
        strip_by(spec_trim_start(s.subrange(3, s.len() as int)))
    } else {
        s
    }
}

#[via_fn]
proof fn strip_by_dec(s: Seq<char>) {
    if seq_starts_with(s, "By "@) {
        reveal_strlit("By ");
        crate::chars::lemma_trim_start_le(s.subrange(3, s.len() as int));
    }
}

fn strip_by_exec(s: Vec<char>) -> (r: Vec<char>)
    ensures
        r@ == strip_by(s@),
{
    let mut v = s;
    loop
        invariant
            strip_by(s@) == strip_by(v@),
        decreases v@.len(),
    {
        if starts_with_str(v.as_slice(), "By ") {
            proof {
                reveal_strlit("By ");
                crate::chars::lemma_trim_start_le(v@.subrange(3, v@.len() as int));
            }
            v = trim_start_vec(suffix_of(v.as_slice(), 3).as_slice());
        } else {
            return v;
        }
    }
}

/// Title post-processing: entity replacements, tag stripping, removal of
/// stray angle brackets, trimming, removal of any leading `By `, and
/// removal of trailing name punctuation.
pub open spec fn spec_postprocess_title(s: Seq<char>) -> Seq<char> {
    crate::authors::name_trim_end(
        strip_by(
            spec_trim(
                remove_angle(
                    crate::split::spec_strip_tags(
                        spec_replace(spec_replace(s, "&#65533;"@, ""@), "&raquo;"@, "\u{bb}"@),
                    ),
                ),
            ),
        ),
    )
}

/// Cleans a candidate title: entity replacements, removal of markup and
/// angle brackets, trimming, removal of a leading `By ` and of trailing
/// name punctuation.
pub fn postprocess_title(s: &[char]) -> (r: Vec<char>)
    ensures
        r@ == spec_postprocess_title(s@),
{
    let a = replace_str(s, "&#65533;", "");
    let b = replace_str(a.as_slice(), "&raquo;", "\u{bb}");
    let c = crate::split::strip_tags(b.as_slice());
    let d = remove_angle_exec(c.as_slice());
    let e = trim(d.as_slice());
    let f = strip_by_exec(e);
    crate::authors::name_trim_end_exec(f.as_slice())
}

/// The meta title for one key: the `property` form first, then `name`.
pub open spec fn meta_title_for_key(d: DomView, key: Seq<char>) -> Option<Seq<char>> {
    match spec_meta_content(d, "property"@, key) {
        Some(t) => Some(t),
        None => spec_meta_content(d, "name"@, key),
    }
}

/// The first meta title over the eight keys, in their fixed order.
pub open spec fn first_meta_title(d: DomView) -> Option<Seq<char>> {
    match meta_title_for_key(d, "dc.title"@) {
        Some(t) => Some(t),
        None => match meta_title_for_key(d, "og:title"@) {
            Some(t) => Some(t),
            None => match meta_title_for_key(d, "headline"@) {
                Some(t) => Some(t),
                None => match meta_title_for_key(d, "articletitle"@) {
                    Some(t) => Some(t),
                    None => match meta_title_for_key(d, "article-title"@) {
                        Some(t) => Some(t),
                        None => match meta_title_for_key(d, "parsely-title"@) {
                            Some(t) => Some(t),
                            None => match meta_title_for_key(d, "title"@) {
                                Some(t) => Some(t),
                                None => meta_title_for_key(d, "twitter:title"@),
                            },
                        },
                    },
                },
            },
        },
    }
}

impl Dom {
    fn meta_title_key(&self, key: &str) -> (r: Option<Vec<char>>)
        ensures
            r is Some <==> meta_title_for_key(self@, key@) is Some,
            r matches Some(t) ==> meta_title_for_key(self@, key@) == Some(t@),
    {
        match self.meta_content("property", key) {
            Some(t) => Some(t),
            None => self.meta_content("name", key),
        }
    }

    fn first_meta_title_exec(&self) -> (r: Option<Vec<char>>)
        ensures
            r is Some <==> first_meta_title(self@) is Some,
            r matches Some(t) ==> first_meta_title(self@) == Some(t@),
    {
        match self.meta_title_key("dc.title") {
            Some(t) => Some(t),
            None => match self.meta_title_key("og:title") {
                Some(t) => Some(t),
                None => match self.meta_title_key("headline") {
                    Some(t) => Some(t),
                    None => match self.meta_title_key("articletitle") {
                        Some(t) => Some(t),
                        None => match self.meta_title_key("article-title") {
                            Some(t) => Some(t),
                            None => match self.meta_title_key("parsely-title") {
                                Some(t) => Some(t),
                                None => match self.meta_title_key("title") {
                                    Some(t) => Some(t),
                                    None => self.meta_title_key("twitter:title"),
                                },
                            },
                        },
                    },
                },
            },
        }
    }
}

/// The longest trimmed `<h1>` text among nodes `< j`; byte lengths break
/// ties towards the later heading.
pub open spec fn h1_upto(d: DomView, j: int) -> Option<Seq<char>>
    decreases j,
{
    if j <= 0 {
        None
    } else if tag_is(d, j - 1, "h1"@) {
        let t = spec_trim(spec_text_of(d, j - 1));
        match h1_upto(d, j - 1) {
            Some(b) => if spec_byte_len(t) >= spec_byte_len(b) {
                Some(t)
            } else {
                Some(b)
            },
            None => Some(t),
        }
    } else {
        h1_upto(d, j - 1)
    }
}

pub open spec fn spec_h1_longest(d: DomView) -> Option<Seq<char>> {
    h1_upto(d, d.len() as int)
}

/// The first `<title>` element's trimmed text, scanning from `j`.
pub open spec fn title_tag_from(d: DomView, j: int) -> Option<Seq<char>>
    decreases d.len() - j,
{
    if j < 0 || j >= d.len() {
        None
    } else if tag_is(d, j, "title"@) {
        Some(spec_trim(spec_text_of(d, j)))
    } else {
        title_tag_from(d, j + 1)
    }
}

pub open spec fn spec_title_tag(d: DomView) -> Option<Seq<char>> {
    title_tag_from(d, 0)
}

impl Dom {
    fn h1_longest(&self) -> (r: Option<Vec<char>>)
        ensures
            r is Some <==> spec_h1_longest(self@) is Some,
            r matches Some(t) ==> spec_h1_longest(self@) == Some(t@),
    {
        let n = self.len();
        let mut best: Option<Vec<char>> = None;
        let mut j: usize = 0;
        while j < n
            invariant
                j <= n,
                n == self@.len(),
                match best {
                    Some(b) => h1_upto(self@, j as int) == Some(b@),
                    None => h1_upto(self@, j as int) is None,
                },
            decreases n - j,
        {
            if self.tag_is(j, "h1") {
                let raw = self.text_of(j);
                let t = trim(raw.as_slice());
                let replace = match &best {
                    Some(b) => byte_len(t.as_slice()) >= byte_len(b.as_slice()),
                    None => true,
                };
                if replace {
                    best = Some(t);
                }
            }
            j = j + 1;
        }
        best
    }

    fn title_tag_text(&self) -> (r: Option<Vec<char>>)
        ensures
            r is Some <==> spec_title_tag(self@) is Some,
            r matches Some(t) ==> spec_title_tag(self@) == Some(t@),
    {
        let n = self.len();
        let mut j: usize = 0;
        while j < n
            invariant
                j <= n,
                n == self@.len(),
                spec_title_tag(self@) == title_tag_from(self@, j as int),
            decreases n - j,
        {
            if self.tag_is(j, "title") {
                let raw = self.text_of(j);
                return Some(trim(raw.as_slice()));
            }
            j = j + 1;
        }
        None
    }
}

/// The piece index the delimiter split selects: the first piece whose
/// comparison form contains the `<h1>` hint, else the first longest piece.
pub open spec fn pick_piece(pieces: Seq<Seq<char>>, hint: Seq<char>, k: int, blen: int, bidx: int)
    -> int
    decreases pieces.len() - k,
{
    if k < 0 || k >= pieces.len() {
        bidx
    } else if hint.len() > 0 && seq_contains(alnum_lower(spec_trim(pieces[k])), hint) {
        k
    } else if spec_byte_len(spec_trim(pieces[k])) > blen {
        pick_piece(pieces, hint, k + 1, spec_byte_len(spec_trim(pieces[k])), k)
    } else {
        pick_piece(pieces, hint, k + 1, blen, bidx)
    }
}

/// The candidate the delimiter stage yields for one delimiter.
pub open spec fn split_candidate(tt: Seq<char>, delim: Seq<char>, hint: Seq<char>) -> Seq<char> {
    let pieces = spec_split_keep(tt, delim);
    let idx = pick_piece(pieces, hint, 0, 0, 0);
    if 0 <= idx < pieces.len() {
        spec_trim(pieces[idx])
    } else {
        Seq::empty()
    }
}

/// The delimiter stage: the first delimiter present in the `<title>` text
/// selects a piece; with no delimiter the whole text stands.
pub open spec fn spec_delim_candidate(tt: Seq<char>, hint: Seq<char>) -> Seq<char> {
    if seq_contains(tt, "|"@) {
        split_candidate(tt, "|"@, hint)
    } else if seq_contains(tt, "-"@) {
        split_candidate(tt, "-"@, hint)
    } else if seq_contains(tt, "_"@) {
        split_candidate(tt, "_"@, hint)
    } else if seq_contains(tt, "/"@) {
        split_candidate(tt, "/"@, hint)
    } else if seq_contains(tt, " \u{bb} "@) {
        split_candidate(tt, " \u{bb} "@, hint)
    } else {
        tt
    }
}

fn split_candidate_exec(tt: &[char], delim: &str, hint: &[char]) -> (r: Vec<char>)
    requires
        delim@.len() > 0,
    ensures
        r@ == split_candidate(tt@, delim@, hint@),
{
    let dchars = chars_of(delim);
    let pieces = split_keep(tt, dchars.as_slice());
    let ghost pv = spec_split_keep(tt@, delim@);
    let mut bidx: usize = 0;
    let mut blen: u128 = 0;
    let mut k: usize = 0;
    let mut found = false;
    while k < pieces.len() && !found
        invariant
            k <= pieces@.len(),
            pieces.deep_view() == pv,
            pieces@.len() == pv.len(),
            bidx < pv.len() || pv.len() == 0,
            !found ==> pick_piece(pv, hint@, 0, 0, 0) == pick_piece(
                pv,
                hint@,
                k as int,
                blen as int,
                bidx as int,
            ),
            found ==> pick_piece(pv, hint@, 0, 0, 0) == bidx as int && bidx < pv.len(),
        decreases pieces.len() - k + (if found {
            0int
        } else {
            1int
        }),
    {
        proof {
            assert(pieces.deep_view()[k as int] == pieces@[k as int]@);
        }
        let t = trim(pieces[k].as_slice());
        if hint.len() > 0 {
            let form = alnum_lower_exec(t.as_slice());
            proof {
                crate::chars::lemma_trim_idempotent(pieces@[k as int]@);
            }
            if crate::chars::contains_seq(form.as_slice(), hint) {
                bidx = k;
                found = true;
            }
        }
        if !found {
            proof {
                crate::chars::lemma_trim_idempotent(pieces@[k as int]@);
            }
            let l = byte_len(t.as_slice());
            if l > blen {
                blen = l;
                bidx = k;
            }
            k = k + 1;
        }
    }
    let chosen = &pieces[bidx];
    proof {
        assert(pieces.deep_view()[bidx as int] == pieces@[bidx as int]@);
        if !found {
            assert(pick_piece(pv, hint@, pv.len() as int, blen as int, bidx as int)
                == bidx as int);
        }
    }
    trim(chosen.as_slice())
}

/// The extracted title: the first meta title; else a trimmed `<h1>` of
/// more than two words with its whitespace collapsed; else a candidate
/// from comparing the `<h1>` and `<title>` texts and splitting the title
/// on its first delimiter; post-processed.
pub open spec fn spec_title(d: DomView) -> Option<Seq<char>> {
    match first_meta_title(d) {
        Some(t) => Some(spec_postprocess_title(t)),
        None => {
            let h1 = match spec_h1_longest(d) {
                Some(h) => h,
                None => Seq::empty(),
            };
            if spec_words(h1, Sep::Space).len() > 2 {
                Some(spec_postprocess_title(spec_join(spec_words(h1, Sep::Space), " "@)))
            } else {
                let tt = match spec_title_tag(d) {
                    Some(t) => t,
                    None => Seq::empty(),
                };
                let cand0: Seq<char> = if h1.len() > 0 && h1 == tt {
                    h1
                } else {
                    Seq::empty()
                };
                let cand1: Seq<char> = if cand0.len() == 0 && tt.len() > 0 {
                    spec_delim_candidate(tt, alnum_lower(h1))
                } else {
                    cand0
                };
                let cand: Seq<char> = if h1.len() > 0 && alnum_lower(h1) == alnum_lower(cand1) {
                    h1
                } else {
                    cand1
                };
                if cand.len() > 0 {
                    Some(spec_postprocess_title(cand))
                } else {
                    None
                }
            }
        },
    }
}

/// Extracts the article title.
pub fn title(dom: &Dom) -> (r: Option<Vec<char>>)
    ensures
        r is Some <==> spec_title(dom@) is Some,
        r matches Some(t) ==> spec_title(dom@) == Some(t@),
{
    match dom.first_meta_title_exec() {
        Some(t) => {
            return Some(postprocess_title(t.as_slice()));
        },
        None => {},
    }
    let h1: Vec<char> = match dom.h1_longest() {
        Some(h) => h,
        None => Vec::new(),
    };
    let h1_words = split_words(h1.as_slice(), Sep::Space);
    if h1_words.len() > 2 {
        let sep = chars_of(" ");
        let joined = join_parts(&h1_words, sep.as_slice());
        return Some(postprocess_title(joined.as_slice()));
    }
    let tt: Vec<char> = match dom.title_tag_text() {
        Some(t) => t,
        None => Vec::new(),
    };
    let mut cand: Vec<char> = Vec::new();
    if h1.len() > 0 && slice_eq(h1.as_slice(), tt.as_slice()) {
        cand = h1.clone();
    }
    if cand.len() == 0 && tt.len() > 0 {
        proof {
            reveal_strlit("|");
            reveal_strlit("-");
            reveal_strlit("_");
            reveal_strlit("/");
            reveal_strlit(" \u{bb} ");
        }
        let hint = alnum_lower_exec(h1.as_slice());
        if contains_str(tt.as_slice(), "|") {
            cand = split_candidate_exec(tt.as_slice(), "|", hint.as_slice());
        } else if contains_str(tt.as_slice(), "-") {
            cand = split_candidate_exec(tt.as_slice(), "-", hint.as_slice());
        } else if contains_str(tt.as_slice(), "_") {
            cand = split_candidate_exec(tt.as_slice(), "_", hint.as_slice());
        } else if contains_str(tt.as_slice(), "/") {
            cand = split_candidate_exec(tt.as_slice(), "/", hint.as_slice());
        } else if contains_str(tt.as_slice(), " \u{bb} ") {
            cand = split_candidate_exec(tt.as_slice(), " \u{bb} ", hint.as_slice());
        } else {
            cand = tt.clone();
        }
    }
    if h1.len() > 0 {
        let fa = alnum_lower_exec(h1.as_slice());
        let fc = alnum_lower_exec(cand.as_slice());
        if slice_eq(fa.as_slice(), fc.as_slice()) {
            cand = h1.clone();
        }
    }
    if cand.len() > 0 {
        Some(postprocess_title(cand.as_slice()))
    } else {
        None
    }
}

} // verus!
