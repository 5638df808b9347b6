//! Splitting text into words, lines and byline tokens, joining parts back
//! together, replacing substrings, and stripping embedded HTML tags.

use vstd::prelude::*;

use crate::chars::{chars_of, is_space, match_at, matches_at, seq_contains, spec_is_space};
use crate::{is_punctuation, spec_is_punctuation};

verus! {

/// The separator classes on which the extractors split text.
#[derive(Clone, Copy, PartialEq, Eq, Structural)]
pub enum Sep {
    /// Whitespace only, as `str::split_whitespace`.
    Space,
    /// Whitespace or word punctuation: the split that produces words for
    /// stopword analysis.
    SpaceOrPunct,
    /// Line breaks.
    Newline,
    /// The byline separators `·`, `,`, `|`, `/` and no-break space.
    Byline,
}

pub open spec fn sep_match(sep: Sep, c: char) -> bool {
    match sep {
        Sep::Space => spec_is_space(c),
        Sep::SpaceOrPunct => spec_is_space(c) || spec_is_punctuation(c),
        Sep::Newline => c == '\n',
        Sep::Byline => c == '\u{b7}' || c == ',' || c == '|' || c == '/' || c == '\u{a0}',
    }
}

pub fn sep_match_exec(sep: Sep, c: char) -> (r: bool)
    ensures
        r == sep_match(sep, c),
{
    match sep {
        Sep::Space => is_space(c),
        Sep::SpaceOrPunct => is_space(c) || is_punctuation(c),
        Sep::Newline => c == '\n',
        Sep::Byline => c == '\u{b7}' || c == ',' || c == '|' || c == '/' || c == '\u{a0}',
    }
}

/// The end of the word starting at `i`: the first position at or after `i`
/// holding a separator, or the end of the text.
pub open spec fn word_end(s: Seq<char>, sep: Sep, i: int) -> int
    decreases s.len() - i,
{
    if i < 0 {
        0
    } else if i >= s.len() || sep_match(sep, s[i]) {
        i
    } else {
        word_end(s, sep, i + 1)
    }
}

pub proof fn lemma_word_end_range(s: Seq<char>, sep: Sep, i: int)
    requires
        0 <= i <= s.len(),
    ensures
        i <= word_end(s, sep, i) <= s.len(),
        forall|k: int| i <= k < word_end(s, sep, i) ==> !sep_match(sep, s[k]),
        word_end(s, sep, i) < s.len() ==> sep_match(sep, s[word_end(s, sep, i)]),
    decreases s.len() - i,
{
    if i < s.len() && !sep_match(sep, s[i]) {
        lemma_word_end_range(s, sep, i + 1);
    }
}

/// The non-empty tokens of `s` from position `i` on, split on `sep`.
pub open spec fn words_from(s: Seq<char>, sep: Sep, i: int) -> Seq<Seq<char>>
    decreases s.len() - i,
{
    if i < 0 || i >= s.len() {
        Seq::empty()
    } else if sep_match(sep, s[i]) {
        words_from(s, sep, i + 1)
    } else {
        let we0 = word_end(s, sep, i);
        let we = if i < we0 <= s.len() {
            we0
        } else {
            i + 1
        };
        seq![s.subrange(i, we)] + words_from(s, sep, we)
    }
}

/// The words of `s`: non-empty maximal runs without a separator.
pub open spec fn spec_words(s: Seq<char>, sep: Sep) -> Seq<Seq<char>> {
    words_from(s, sep, 0)
}

proof fn lemma_words_from_decreases(s: Seq<char>, sep: Sep, i: int)
    requires
        0 <= i < s.len(),
        !sep_match(sep, s[i]),
    ensures
        word_end(s, sep, i) > i,
{
    lemma_word_end_range(s, sep, i);
    assert(word_end(s, sep, i) != i);
}

/// Splits `s` on `sep`, discarding empty tokens.
pub fn split_words(s: &[char], sep: Sep) -> (r: Vec<Vec<char>>)
    ensures
        r.deep_view() == spec_words(s@, sep),
{
    let mut r: Vec<Vec<char>> = Vec::new();
    let mut i: usize = 0;
    while i < s.len()
        invariant
            i <= s@.len(),
            spec_words(s@, sep) == r.deep_view() + words_from(s@, sep, i as int),
        decreases s.len() - i,
    {
        if sep_match_exec(sep, s[i]) {
            i = i + 1;
        } else {
            proof {
                lemma_word_end_range(s@, sep, i as int);
            }
            let mut j: usize = i;
            let mut w: Vec<char> = Vec::new();
            while j < s.len() && !sep_match_exec(sep, s[j])
                invariant
                    i <= j <= s@.len(),
                    w@ == s@.subrange(i as int, j as int),
                    forall|k: int| i <= k < j ==> !sep_match(sep, s@[k]),
                decreases s.len() - j,
            {
                w.push(s[j]);
                proof {
                    assert(s@.subrange(i as int, j + 1 as int) =~= s@.subrange(
                        i as int,
                        j as int,
                    ).push(s@[j as int]));
                }
                j = j + 1;
            }
            proof {
                assert(j > i) by {
                    if j == i {
                        assert(sep_match(sep, s@[i as int]) || i >= s@.len());
                    }
                }
                assert(word_end(s@, sep, i as int) == j as int) by {
                    lemma_word_end_range(s@, sep, i as int);
                    let we = word_end(s@, sep, i as int);
                    if we < j {
                        assert(!sep_match(sep, s@[we]));
                    }
                    if we > j {
                        assert(j < s@.len() && sep_match(sep, s@[j as int]));
                        assert(!sep_match(sep, s@[j as int]));
                    }
                }
                assert(words_from(s@, sep, i as int) == seq![s@.subrange(i as int, j as int)]
                    + words_from(s@, sep, j as int));
            }
            let ghost old_r = r.deep_view();
            let ghost piece = s@.subrange(i as int, j as int);
            r.push(w);
            proof {
                assert(r.deep_view() =~~= old_r.push(piece));
                assert(old_r + (seq![piece] + words_from(s@, sep, j as int)) =~~= old_r.push(piece)
                    + words_from(s@, sep, j as int));
            }
            i = j;
        }
    }
    proof {
        assert(r.deep_view() + words_from(s@, sep, i as int) =~~= r.deep_view());
    }
    r
}

/// The number of words of `s`.
pub fn count_words(s: &[char], sep: Sep) -> (r: usize)
    ensures
        r == spec_words(s@, sep).len(),
{
    let mut count: usize = 0;
    let mut i: usize = 0;
    while i < s.len()
        invariant
            i <= s@.len(),
            count <= i,
            spec_words(s@, sep).len() == count + words_from(s@, sep, i as int).len(),
        decreases s.len() - i,
    {
        if sep_match_exec(sep, s[i]) {
            i = i + 1;
        } else {
            proof {
                lemma_word_end_range(s@, sep, i as int);
            }
            let mut j: usize = i;
            while j < s.len() && !sep_match_exec(sep, s[j])
                invariant
                    i <= j <= s@.len(),
                    forall|k: int| i <= k < j ==> !sep_match(sep, s@[k]),
                decreases s.len() - j,
            {
                j = j + 1;
            }
            proof {
                assert(j > i) by {
                    if j == i {
                        assert(sep_match(sep, s@[i as int]) || i >= s@.len());
                    }
                }
                assert(word_end(s@, sep, i as int) == j as int) by {
                    lemma_word_end_range(s@, sep, i as int);
                    let we = word_end(s@, sep, i as int);
                    if we < j {
                        assert(!sep_match(sep, s@[we]));
                    }
                    if we > j {
                        assert(!sep_match(sep, s@[j as int]));
                    }
                }
                assert(words_from(s@, sep, i as int) == seq![s@.subrange(i as int, j as int)]
                    + words_from(s@, sep, j as int));
            }
            count = count + 1;
            i = j;
        }
    }
    count
}

/// `parts` joined by `sep`.
pub open spec fn spec_join(parts: Seq<Seq<char>>, sep: Seq<char>) -> Seq<char>
    decreases parts.len(),
{
    if parts.len() == 0 {
        Seq::empty()
    } else if parts.len() == 1 {
        parts[0]
    } else {
        spec_join(parts.drop_last(), sep) + sep + parts.last()
    }
}

/// Joins `parts` with the separator `sep`.
pub fn join_parts(parts: &Vec<Vec<char>>, sep: &[char]) -> (r: Vec<char>)
    ensures
        r@ == spec_join(parts.deep_view(), sep@),
{
    let mut r: Vec<char> = Vec::new();
    let mut i: usize = 0;
    while i < parts.len()
        invariant
            i <= parts@.len(),
            parts.deep_view().len() == parts@.len(),
            r@ == spec_join(parts.deep_view().subrange(0, i as int), sep@),
        decreases parts.len() - i,
    {
        if i > 0 {
            let mut k: usize = 0;
            while k < sep.len()
                invariant
                    k <= sep@.len(),
                    r@ == spec_join(parts.deep_view().subrange(0, i as int), sep@) + sep@.subrange(
                        0,
                        k as int,
                    ),
                decreases sep.len() - k,
            {
                r.push(sep[k]);
                proof {
                    assert(sep@.subrange(0, k + 1 as int) =~= sep@.subrange(0, k as int).push(
                        sep@[k as int],
                    ));
                    assert(spec_join(parts.deep_view().subrange(0, i as int), sep@)
                        + sep@.subrange(0, k + 1 as int) =~= (spec_join(
                        parts.deep_view().subrange(0, i as int),
                        sep@,
                    ) + sep@.subrange(0, k as int)).push(sep@[k as int]));
                }
                k = k + 1;
            }
            proof {
                assert(sep@.subrange(0, sep@.len() as int) =~= sep@);
            }
        }
        let part = &parts[i];
        let mut k: usize = 0;
        let ghost base = r@;
        while k < part.len()
            invariant
                k <= part@.len(),
                r@ == base + part@.subrange(0, k as int),
            decreases part.len() - k,
        {
            r.push(part[k]);
            proof {
                assert(part@.subrange(0, k + 1 as int) =~= part@.subrange(0, k as int).push(
                    part@[k as int],
                ));
                assert(base + part@.subrange(0, k + 1 as int) =~= (base + part@.subrange(
                    0,
                    k as int,
                )).push(part@[k as int]));
            }
            k = k + 1;
        }
        proof {
            assert(part@.subrange(0, part@.len() as int) =~= part@);
            assert(parts.deep_view()[i as int] == parts@[i as int]@);
            let pv = parts.deep_view().subrange(0, i + 1 as int);
            assert(pv.drop_last() =~= parts.deep_view().subrange(0, i as int));
            assert(pv.last() == parts.deep_view()[i as int]);
            if i > 0 {
                assert(r@ =~= spec_join(pv.drop_last(), sep@) + sep@ + pv.last());
            } else {
                assert(r@ =~= pv.last());
                assert(pv.len() == 1);
            }
        }
        i = i + 1;
    }
    proof {
        assert(parts.deep_view().subrange(0, parts.deep_view().len() as int) =~= parts.deep_view());
    }
    r
}

/// `s` with every occurrence of `pat` replaced by `rep`, scanning left to
/// right without overlap, as `str::replace`. The empty pattern replaces
/// nothing.
pub open spec fn spec_replace(s: Seq<char>, pat: Seq<char>, rep: Seq<char>) -> Seq<char>
    decreases s.len(),
{
    if pat.len() == 0 || s.len() == 0 {
        s
    } else if match_at(s, pat, 0) {
        rep + spec_replace(s.subrange(pat.len() as int, s.len() as int), pat, rep)
    } else {
        seq![s[0]] + spec_replace(s.subrange(1, s.len() as int), pat, rep)
    }
}

/// Replaces every occurrence of `pat` in `s` by `rep`.
pub fn replace(s: &[char], pat: &[char], rep: &[char]) -> (r: Vec<char>)
    ensures
        r@ == spec_replace(s@, pat@, rep@),
{
    if pat.len() == 0 {
        let mut r: Vec<char> = Vec::new();
        let mut i: usize = 0;
        while i < s.len()
            invariant
                i <= s@.len(),
                r@ == s@.subrange(0, i as int),
            decreases s.len() - i,
        {
            r.push(s[i]);
            proof {
                assert(s@.subrange(0, i + 1 as int) =~= s@.subrange(0, i as int).push(
                    s@[i as int],
                ));
            }
            i = i + 1;
        }
        proof {
            assert(s@.subrange(0, s@.len() as int) =~= s@);
        }
        return r;
    }
    let mut r: Vec<char> = Vec::new();
    let mut i: usize = 0;
    proof {
        assert(s@.subrange(0, s@.len() as int) =~= s@);
        assert(Seq::<char>::empty() + spec_replace(s@, pat@, rep@) =~= spec_replace(
            s@,
            pat@,
            rep@,
        ));
    }
    while i < s.len()
        invariant
            i <= s@.len(),
            pat@.len() > 0,
            spec_replace(s@, pat@, rep@) == r@ + spec_replace(
                s@.subrange(i as int, s@.len() as int),
                pat@,
                rep@,
            ),
        decreases s.len() - i,
    {
        let ghost suffix = s@.subrange(i as int, s@.len() as int);
        if matches_at(s, pat, i) {
            proof {
                assert(match_at(suffix, pat@, 0)) by {
                    assert(suffix.subrange(0, pat@.len() as int) =~= s@.subrange(
                        i as int,
                        i + pat@.len(),
                    ));
                }
                assert(suffix.subrange(pat@.len() as int, suffix.len() as int) =~= s@.subrange(
                    i + pat@.len(),
                    s@.len() as int,
                ));
            }
            let mut k: usize = 0;
            let ghost base = r@;
            while k < rep.len()
                invariant
                    k <= rep@.len(),
                    r@ == base + rep@.subrange(0, k as int),
                decreases rep.len() - k,
            {
                r.push(rep[k]);
                proof {
                    assert(rep@.subrange(0, k + 1 as int) =~= rep@.subrange(0, k as int).push(
                        rep@[k as int],
                    ));
                    assert(base + rep@.subrange(0, k + 1 as int) =~= (base + rep@.subrange(
                        0,
                        k as int,
                    )).push(rep@[k as int]));
                }
                k = k + 1;
            }
            proof {
                assert(rep@.subrange(0, rep@.len() as int) =~= rep@);
                assert(base + rep@ + spec_replace(
                    s@.subrange(i + pat@.len(), s@.len() as int),
                    pat@,
                    rep@,
                ) =~= r@ + spec_replace(s@.subrange(i + pat@.len(), s@.len() as int), pat@, rep@));
            }
            i = i + pat.len();
        } else {
            proof {
                assert(!match_at(suffix, pat@, 0)) by {
                    if match_at(suffix, pat@, 0) {
                        assert(suffix.subrange(0, pat@.len() as int) =~= s@.subrange(
                            i as int,
                            i + pat@.len(),
                        ));
                    }
                }
                assert(suffix[0] == s@[i as int]);
                assert(suffix.subrange(1, suffix.len() as int) =~= s@.subrange(
                    i + 1,
                    s@.len() as int,
                ));
                assert(r@ + (seq![s@[i as int]] + spec_replace(
                    s@.subrange(i + 1, s@.len() as int),
                    pat@,
                    rep@,
                )) =~= r@.push(s@[i as int]) + spec_replace(
                    s@.subrange(i + 1, s@.len() as int),
                    pat@,
                    rep@,
                ));
            }
            r.push(s[i]);
            i = i + 1;
        }
    }
    proof {
        assert(s@.subrange(s@.len() as int, s@.len() as int) =~= Seq::<char>::empty());
        assert(spec_replace(Seq::<char>::empty(), pat@, rep@) =~= Seq::<char>::empty());
        assert(r@ + Seq::<char>::empty() =~= r@);
    }
    r
}

/// Replaces every occurrence of the chars of `pat` (given as a string) by
/// the chars of `rep`.
pub fn replace_str(s: &[char], pat: &str, rep: &str) -> (r: Vec<char>)
    ensures
        r@ == spec_replace(s@, pat@, rep@),
{
    let p = chars_of(pat);
    let q = chars_of(rep);
    replace(s, p.as_slice(), q.as_slice())
}

/// The first position at or after `i` holding `'>'`, or the length of `s`.
pub open spec fn first_gt(s: Seq<char>, i: int) -> int
    decreases s.len() - i,
{
    if i < 0 || i >= s.len() {
        s.len() as int
    } else if s[i] == '>' {
        i
    } else {
        first_gt(s, i + 1)
    }
}

proof fn lemma_first_gt(s: Seq<char>, i: int)
    requires
        0 <= i <= s.len(),
    ensures
        i <= first_gt(s, i) <= s.len(),
        forall|k: int| i <= k < first_gt(s, i) ==> s[k] != '>',
        first_gt(s, i) < s.len() ==> s[first_gt(s, i)] == '>',
    decreases s.len() - i,
{
    if i < s.len() && s[i] != '>' {
        lemma_first_gt(s, i + 1);
    }
}

/// `s` with every complete HTML tag (a `<`, at least one char other than
/// `>`, then `>`) removed, as the author-name cleaning does.
pub open spec fn spec_strip_tags(s: Seq<char>) -> Seq<char>
    decreases s.len(),
{
    if s.len() == 0 {
        Seq::empty()
    } else if s[0] == '<' && 2 <= first_gt(s, 1) < s.len() {
        spec_strip_tags(s.subrange(first_gt(s, 1) + 1, s.len() as int))
    } else {
        seq![s[0]] + spec_strip_tags(s.subrange(1, s.len() as int))
    }
}

/// Removes every complete HTML tag from `s`.
pub fn strip_tags(s: &[char]) -> (r: Vec<char>)
    ensures
        r@ == spec_strip_tags(s@),
{
    let mut r: Vec<char> = Vec::new();
    let mut i: usize = 0;
    proof {
        assert(s@.subrange(0, s@.len() as int) =~= s@);
        assert(Seq::<char>::empty() + spec_strip_tags(s@) =~= spec_strip_tags(s@));
    }
    while i < s.len()
        invariant
            i <= s@.len(),
            spec_strip_tags(s@) == r@ + spec_strip_tags(s@.subrange(i as int, s@.len() as int)),
        decreases s.len() - i,
    {
        let ghost suffix = s@.subrange(i as int, s@.len() as int);
        if s[i] == '<' {
            let mut j: usize = i + 1;
            while j < s.len() && s[j] != '>'
                invariant
                    i + 1 <= j <= s@.len(),
                    forall|k: int| i + 1 <= k < j ==> s@[k] != '>',
                decreases s.len() - j,
            {
                j = j + 1;
            }
            proof {
                assert(first_gt(suffix, 1) == j - i) by {
                    lemma_first_gt(suffix, 1);
                    let fg = first_gt(suffix, 1);
                    assert(forall|k: int|
                        1 <= k < suffix.len() ==> suffix[k] == s@[i + k]);
                    if fg < j - i {
                        assert(suffix[fg] == '>');
                        assert(s@[i + fg] != '>');
                    }
                    if fg > j - i {
                        if j < s@.len() {
                            assert(suffix[j - i] == s@[j as int]);
                            assert(suffix[j - i] != '>');
                        }
                    }
                }
            }
            if j < s.len() && j > i + 1 {
                proof {
                    assert(suffix[0] == '<');
                    assert(2 <= first_gt(suffix, 1) < suffix.len());
                    assert(suffix.subrange(first_gt(suffix, 1) + 1, suffix.len() as int)
                        =~= s@.subrange(j + 1, s@.len() as int));
                }
                i = j + 1;
            } else {
                proof {
                    assert(!(suffix[0] == '<' && 2 <= first_gt(suffix, 1) < suffix.len()));
                    assert(suffix[0] == s@[i as int]);
                    assert(suffix.subrange(1, suffix.len() as int) =~= s@.subrange(
                        i + 1,
                        s@.len() as int,
                    ));
                    assert(r@ + (seq![s@[i as int]] + spec_strip_tags(
                        s@.subrange(i + 1, s@.len() as int),
                    )) =~= r@.push(s@[i as int]) + spec_strip_tags(
                        s@.subrange(i + 1, s@.len() as int),
                    ));
                }
                r.push(s[i]);
                i = i + 1;
            }
        } else {
            proof {
                assert(suffix[0] == s@[i as int]);
                assert(suffix.subrange(1, suffix.len() as int) =~= s@.subrange(
                    i + 1,
                    s@.len() as int,
                ));
                assert(r@ + (seq![s@[i as int]] + spec_strip_tags(
                    s@.subrange(i + 1, s@.len() as int),
                )) =~= r@.push(s@[i as int]) + spec_strip_tags(
                    s@.subrange(i + 1, s@.len() as int),
                ));
            }
            r.push(s[i]);
            i = i + 1;
        }
    }
    proof {
        assert(s@.subrange(s@.len() as int, s@.len() as int) =~= Seq::<char>::empty());
        assert(r@ + Seq::<char>::empty() =~= r@);
    }
    r
}

/// The pieces of `s` split on the non-empty delimiter `d`, empty pieces
/// kept, as `str::split` with a `&str` pattern.
pub open spec fn spec_split_keep(s: Seq<char>, d: Seq<char>) -> Seq<Seq<char>>
    decreases s.len(),
{
    if d.len() == 0 {
        seq![s]
    } else if !seq_contains(s, d) {
        seq![s]
    } else {
        let i0 = first_match(s, d, 0);
        let i = if 0 <= i0 && i0 + d.len() <= s.len() {
            i0
        } else {
            0
        };
        seq![s.subrange(0, i)] + spec_split_keep(s.subrange(i + d.len(), s.len() as int), d)
    }
}

/// The first position at or after `from` where `d` matches, or the length
/// of `s` if none.
pub open spec fn first_match(s: Seq<char>, d: Seq<char>, from: int) -> int
    decreases s.len() - from,
{
    if from < 0 || from > s.len() {
        s.len() as int
    } else if match_at(s, d, from) {
        from
    } else if from == s.len() {
        s.len() as int
    } else {
        first_match(s, d, from + 1)
    }
}

pub proof fn lemma_first_match(s: Seq<char>, d: Seq<char>, from: int)
    requires
        0 <= from <= s.len(),
    ensures
        from <= first_match(s, d, from) <= s.len(),
        forall|k: int| from <= k < first_match(s, d, from) ==> !match_at(s, d, k),
        (exists|k: int| from <= k && match_at(s, d, k)) ==> match_at(s, d, first_match(s, d, from)),
    decreases s.len() - from,
{
    if from < s.len() && !match_at(s, d, from) {
        lemma_first_match(s, d, from + 1);
        if exists|k: int| from <= k && match_at(s, d, k) {
            let w = choose|k: int| from <= k && match_at(s, d, k);
            assert(w != from);
            assert(from + 1 <= w && match_at(s, d, w));
        }
    }
}

pub proof fn lemma_split_keep_first(s: Seq<char>, d: Seq<char>)
    requires
        d.len() > 0,
        seq_contains(s, d),
    ensures
        0 <= first_match(s, d, 0),
        match_at(s, d, first_match(s, d, 0)),
        first_match(s, d, 0) + d.len() <= s.len(),
{
    let w = choose|i: int| match_at(s, d, i);
    lemma_first_match(s, d, 0);
    assert(0 <= w && match_at(s, d, w));
}

proof fn lemma_match_at_shift(s: Seq<char>, d: Seq<char>, pos: int, j: int)
    requires
        0 <= pos <= s.len(),
        0 <= j,
    ensures
        match_at(s.subrange(pos, s.len() as int), d, j) == match_at(s, d, pos + j),
{
    let suffix = s.subrange(pos, s.len() as int);
    if j + d.len() <= suffix.len() {
        assert(suffix.subrange(j, j + d.len() as int) =~= s.subrange(pos + j, pos + j
            + d.len() as int));
    }
}

/// Splits `s` on the delimiter `d`, keeping empty pieces.
pub fn split_keep(s: &[char], d: &[char]) -> (r: Vec<Vec<char>>)
    requires
        d@.len() > 0,
    ensures
        r.deep_view() == spec_split_keep(s@, d@),
        r@.len() > 0,
{
    let mut r: Vec<Vec<char>> = Vec::new();
    let mut pos: usize = 0;
    proof {
        assert(s@.subrange(0, s@.len() as int) =~= s@);
        assert(r.deep_view() + spec_split_keep(s@, d@) =~~= spec_split_keep(s@, d@));
    }
    loop
        invariant
            pos <= s@.len(),
            d@.len() > 0,
            spec_split_keep(s@, d@) =~~= r.deep_view() + spec_split_keep(
                s@.subrange(pos as int, s@.len() as int),
                d@,
            ),
        decreases s@.len() - pos + 1,
    {
        let ghost suffix = s@.subrange(pos as int, s@.len() as int);
        let mut m: usize = pos;
        let mut found = false;
        while m < s.len() && !found
            invariant
                pos <= m <= s@.len(),
                forall|k: int| pos <= k < m ==> !match_at(s@, d@, k),
                found ==> match_at(s@, d@, m as int),
                !found || m < s@.len(),
            decreases s@.len() - m + (if found {
                0int
            } else {
                1int
            }),
        {
            if matches_at(s, d, m) {
                found = true;
            } else {
                m = m + 1;
            }
        }
        if !found {
            // no further delimiter: the rest is the last piece
            let mut w: Vec<char> = Vec::new();
            let mut k: usize = pos;
            while k < s.len()
                invariant
                    pos <= k <= s@.len(),
                    w@ == s@.subrange(pos as int, k as int),
                decreases s.len() - k,
            {
                w.push(s[k]);
                proof {
                    assert(s@.subrange(pos as int, k + 1 as int) =~= s@.subrange(
                        pos as int,
                        k as int,
                    ).push(s@[k as int]));
                }
                k = k + 1;
            }
            proof {
                assert(!seq_contains(suffix, d@)) by {
                    if seq_contains(suffix, d@) {
                        let j = choose|j: int| match_at(suffix, d@, j);
                        lemma_match_at_shift(s@, d@, pos as int, j);
                        assert(match_at(s@, d@, pos + j));
                        assert(pos + j < s@.len());
                    }
                }
                assert(spec_split_keep(suffix, d@) == seq![suffix]);
                assert(w@ == suffix);
            }
            let ghost old_r = r.deep_view();
            r.push(w);
            proof {
                assert(r.deep_view() =~~= old_r.push(suffix));
                assert(old_r + seq![suffix] =~~= old_r.push(suffix));
            }
            return r;
        }
        // a delimiter match at m: the piece before it, then continue after
        let mut w: Vec<char> = Vec::new();
        let mut k: usize = pos;
        while k < m
            invariant
                pos <= k <= m <= s@.len(),
                w@ == s@.subrange(pos as int, k as int),
            decreases m - k,
        {
            w.push(s[k]);
            proof {
                assert(s@.subrange(pos as int, k + 1 as int) =~= s@.subrange(
                    pos as int,
                    k as int,
                ).push(s@[k as int]));
            }
            k = k + 1;
        }
        proof {
            let fm = m - pos;
            lemma_match_at_shift(s@, d@, pos as int, fm);
            assert(match_at(suffix, d@, fm));
            assert(seq_contains(suffix, d@));
            assert(first_match(suffix, d@, 0) == fm) by {
                lemma_first_match(suffix, d@, 0);
                let f = first_match(suffix, d@, 0);
                assert(match_at(suffix, d@, f));
                if f < fm {
                    lemma_match_at_shift(s@, d@, pos as int, f);
                    assert(match_at(s@, d@, pos + f));
                    assert(!match_at(s@, d@, pos + f));
                }
            }
            assert(spec_split_keep(suffix, d@) == seq![suffix.subrange(0, fm)] + spec_split_keep(
                suffix.subrange(fm + d@.len(), suffix.len() as int),
                d@,
            ));
            assert(suffix.subrange(0, fm) =~= s@.subrange(pos as int, m as int));
            assert(suffix.subrange(fm + d@.len(), suffix.len() as int) =~= s@.subrange(
                m + d@.len(),
                s@.len() as int,
            ));
        }
        let ghost old_r = r.deep_view();
        let ghost piece = s@.subrange(pos as int, m as int);
        r.push(w);
        proof {
            assert(r.deep_view() =~~= old_r.push(piece));
            assert(old_r + (seq![piece] + spec_split_keep(
                s@.subrange(m + d@.len(), s@.len() as int),
                d@,
            )) =~~= old_r.push(piece) + spec_split_keep(
                s@.subrange(m + d@.len(), s@.len() as int),
                d@,
            ));
        }
        pos = m + d.len();
    }
}

} // verus!
