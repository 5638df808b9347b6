//! Languages, the stopword table, and the per-text word statistics that
//! drive body-node scoring.

use vstd::prelude::*;

use crate::chars::{eq_str, spec_trim, trim};
use crate::split::{spec_words, split_words, Sep};
use crate::unicode::{lower_chars, lower_of};

verus! {

/// A content language. Tags that do not parse into a known language are
/// remembered with their raw value.
#[derive(Clone, Debug, PartialEq)]
pub enum Language {
    English,
    Russian,
    German,
    French,
    Spanish,
    /// An unrecognised language tag, carrying the raw trimmed value.
    Unknown(Vec<char>),
}

impl Default for Language {
    /// The default language is English.
    fn default() -> (r: Language)
        ensures
            r is English,
    {
        Language::English
    }
}

/// The ghost form of a language.
pub enum LangView {
    English,
    Russian,
    German,
    French,
    Spanish,
    Unknown(Seq<char>),
}

impl View for Language {
    type V = LangView;

    open spec fn view(&self) -> LangView {
        match self {
            Language::English => LangView::English,
            Language::Russian => LangView::Russian,
            Language::German => LangView::German,
            Language::French => LangView::French,
            Language::Spanish => LangView::Spanish,
            Language::Unknown(raw) => LangView::Unknown(raw@),
        }
    }
}

/// The primary subtag: everything before the first `-` or `_`.
pub open spec fn primary_subtag(s: Seq<char>) -> Seq<char>
    decreases s.len(),
{
    if s.len() == 0 {
        s
    } else if s[0] == '-' || s[0] == '_' {
        Seq::empty()
    } else {
        seq![s[0]] + primary_subtag(s.drop_first())
    }
}

/// Which language a lowered primary subtag names.
pub open spec fn spec_language_of(sub: Seq<char>) -> Option<LangView> {
    if sub == "en"@ || sub == "english"@ {
        Some(LangView::English)
    } else if sub == "ru"@ || sub == "russian"@ {
        Some(LangView::Russian)
    } else if sub == "de"@ || sub == "german"@ {
        Some(LangView::German)
    } else if sub == "fr"@ || sub == "french"@ {
        Some(LangView::French)
    } else if sub == "es"@ || sub == "spanish"@ {
        Some(LangView::Spanish)
    } else {
        None
    }
}

/// The result of one language probe, at the ghost level: `Ok` when the
/// tag parses, `Err` remembering the trimmed unknown tag.
pub open spec fn spec_probe(raw: Seq<char>) -> Result<LangView, LangView> {
    match spec_language_of(lower_of(primary_subtag(spec_trim(raw)))) {
        Some(lang) => Ok(lang),
        None => Err(LangView::Unknown(spec_trim(raw))),
    }
}

impl Language {
    /// Parses a language tag such as `en` or `en-US`. `Err` carries the
    /// unknown language remembering the trimmed raw tag.
    pub fn parse_tag(raw: &[char]) -> (r: Result<Language, Language>)
        ensures
            match r {
                Ok(lang) => spec_probe(raw@) == Ok::<LangView, LangView>(lang@),
                Err(lang) => spec_probe(raw@) == Err::<LangView, LangView>(lang@),
            },
    {
        let trimmed = trim(raw);
        let mut sub: Vec<char> = Vec::new();
        let mut i: usize = 0;
        while i < trimmed.len() && trimmed[i] != '-' && trimmed[i] != '_'
            invariant
                i <= trimmed@.len(),
                sub@ == trimmed@.subrange(0, i as int),
                forall|k: int| 0 <= k < i ==> trimmed@[k] != '-' && trimmed@[k] != '_',
            decreases trimmed.len() - i,
        {
            sub.push(trimmed[i]);
            proof {
                assert(trimmed@.subrange(0, i + 1 as int) =~= trimmed@.subrange(0, i as int).push(
                    trimmed@[i as int],
                ));
            }
            i = i + 1;
        }
        proof {
            lemma_primary_subtag_prefix(trimmed@, i as int);
        }
        let lowered = lower_chars(sub.as_slice());
        let s = lowered.as_slice();
        let r = if eq_str(s, "en") || eq_str(s, "english") {
            Ok(Language::English)
        } else if eq_str(s, "ru") || eq_str(s, "russian") {
            Ok(Language::Russian)
        } else if eq_str(s, "de") || eq_str(s, "german") {
            Ok(Language::German)
        } else if eq_str(s, "fr") || eq_str(s, "french") {
            Ok(Language::French)
        } else if eq_str(s, "es") || eq_str(s, "spanish") {
            Ok(Language::Spanish)
        } else {
            Err(Language::Unknown(trimmed))
        };
        r
    }

    /// Whether this language carries a stopword table.
    pub fn has_stopwords(&self) -> (r: bool)
        ensures
            r == spec_has_stopwords(*self),
    {
        match self {
            Language::English => true,
            _ => false,
        }
    }

    /// Word statistics for a text in this language: word count, stopword
    /// count and total word length. `None` when the language has no
    /// stopword table.
    pub fn stopword_count(&self, text: &[char]) -> (r: Option<WordsStats>)
        ensures
            r is Some <==> spec_has_stopwords(*self),
            r matches Some(st) ==> st.word_count == spec_words(text@, Sep::SpaceOrPunct).len()
                && st.stopword_count == count_stopwords(spec_words(text@, Sep::SpaceOrPunct)) && (
            st.word_char_sum == sum_lens(spec_words(text@, Sep::SpaceOrPunct)) || (st.word_char_sum
                == usize::MAX && sum_lens(spec_words(text@, Sep::SpaceOrPunct)) >= usize::MAX)),
    {
        if !self.has_stopwords() {
            return None;
        }
        let ws = split_words(text, Sep::SpaceOrPunct);
        let ghost wsv = spec_words(text@, Sep::SpaceOrPunct);
        let mut stop: usize = 0;
        let mut sum: usize = 0;
        let mut i: usize = 0;
        proof {
            assert(wsv.subrange(0, 0) =~= Seq::<Seq<char>>::empty());
        }
        while i < ws.len()
            invariant
                i <= ws@.len(),
                ws.deep_view() == wsv,
                ws@.len() == wsv.len(),
                stop <= i,
                stop == count_stopwords(wsv.subrange(0, i as int)),
                sum == sum_lens(wsv.subrange(0, i as int)) || (sum == usize::MAX && sum_lens(
                    wsv.subrange(0, i as int),
                ) >= usize::MAX),
            decreases ws.len() - i,
        {
            proof {
                assert(ws.deep_view()[i as int] == ws@[i as int]@);
                assert(wsv.subrange(0, i + 1 as int).drop_last() =~= wsv.subrange(0, i as int));
                assert(wsv.subrange(0, i + 1 as int).last() == wsv[i as int]);
            }
            let w = &ws[i];
            let lowered = lower_chars(w.as_slice());
            if is_english_stopword(lowered.as_slice()) {
                stop = stop + 1;
            }
            let l = w.len();
            if sum >= usize::MAX - l {
                sum = usize::MAX;
            } else {
                sum = sum + l;
            }
            i = i + 1;
        }
        proof {
            assert(wsv.subrange(0, wsv.len() as int) =~= wsv);
        }
        Some(WordsStats { word_count: ws.len(), stopword_count: stop, word_char_sum: sum })
    }
}

proof fn lemma_primary_subtag_prefix(s: Seq<char>, i: int)
    requires
        0 <= i <= s.len(),
        forall|k: int| 0 <= k < i ==> s[k] != '-' && s[k] != '_',
        i == s.len() || s[i] == '-' || s[i] == '_',
    ensures
        primary_subtag(s) == s.subrange(0, i),
    decreases s.len(),
{
    if s.len() == 0 {
        assert(s.subrange(0, 0) =~= s);
    } else if s[0] == '-' || s[0] == '_' {
        assert(i == 0);
        assert(s.subrange(0, 0) =~= Seq::<char>::empty());
    } else {
        assert(i >= 1);
        lemma_primary_subtag_prefix(s.drop_first(), i - 1);
        assert(s.drop_first().subrange(0, i - 1) =~= s.subrange(1, i));
        assert(seq![s[0]] + s.subrange(1, i) =~= s.subrange(0, i));
    }
}

pub open spec fn spec_has_stopwords(lang: Language) -> bool {
    lang is English
}

/// Statistics about the words of a text.
#[derive(Clone, Copy, Debug, PartialEq, Eq, Structural)]
pub struct WordsStats {
    /// How many words the text has.
    pub word_count: usize,
    /// How many of them are stopwords.
    pub stopword_count: usize,
    /// The summed length of all words in chars; the average word length is
    /// this divided by the word count.
    pub word_char_sum: usize,
}

/// The number of stopwords among the words, matched case-insensitively.
pub open spec fn count_stopwords(ws: Seq<Seq<char>>) -> int
    decreases ws.len(),
{
    if ws.len() == 0 {
        0
    } else {
        count_stopwords(ws.drop_last()) + if spec_is_english_stopword(lower_of(ws.last())) {
            1int
        } else {
            0int
        }
    }
}

/// The summed char length of the words.
pub open spec fn sum_lens(ws: Seq<Seq<char>>) -> int
    decreases ws.len(),
{
    if ws.len() == 0 {
        0
    } else {
        sum_lens(ws.drop_last()) + ws.last().len()
    }
}

/// The English stopword table.
pub open spec fn spec_is_english_stopword(w: Seq<char>) -> bool {
    w == "a"@ || w == "about"@ || w == "after"@ || w == "all"@ || w == "also"@ || w == "an"@ || w
        == "and"@ || w == "any"@ || w == "are"@ || w == "as"@ || w == "at"@ || w == "be"@ || w
        == "because"@ || w == "been"@ || w == "but"@ || w == "by"@ || w == "can"@ || w == "could"@
        || w == "did"@ || w == "do"@ || w == "does"@ || w == "for"@ || w == "from"@ || w == "had"@
        || w == "has"@ || w == "have"@ || w == "he"@ || w == "her"@ || w == "here"@ || w == "him"@
        || w == "his"@ || w == "how"@ || w == "i"@ || w == "if"@ || w == "in"@ || w == "into"@ || w
        == "is"@ || w == "it"@ || w == "its"@ || w == "just"@ || w == "like"@ || w == "more"@ || w
        == "most"@ || w == "my"@ || w == "no"@ || w == "not"@ || w == "now"@ || w == "of"@ || w
        == "on"@ || w == "one"@ || w == "only"@ || w == "or"@ || w == "other"@ || w == "our"@ || w
        == "out"@ || w == "over"@ || w == "she"@ || w == "so"@ || w == "some"@ || w == "such"@ || w
        == "than"@ || w == "that"@ || w == "the"@ || w == "their"@ || w == "them"@ || w == "then"@
        || w == "there"@ || w == "these"@ || w == "they"@ || w == "this"@ || w == "to"@ || w
        == "too"@ || w == "under"@ || w == "up"@ || w == "very"@ || w == "was"@ || w == "we"@ || w
        == "were"@ || w == "what"@ || w == "when"@ || w == "where"@ || w == "which"@ || w
        == "while"@ || w == "who"@ || w == "why"@ || w == "will"@ || w == "with"@ || w == "would"@
        || w == "you"@ || w == "your"@
}

/// Whether the (already lowered) word is in the English stopword table.
pub fn is_english_stopword(w: &[char]) -> (r: bool)
    ensures
        r == spec_is_english_stopword(w@),
{
    eq_str(w, "a") || eq_str(w, "about") || eq_str(w, "after") || eq_str(w, "all") || eq_str(
        w,
        "also",
    ) || eq_str(w, "an") || eq_str(w, "and") || eq_str(w, "any") || eq_str(w, "are") || eq_str(
        w,
        "as",
    ) || eq_str(w, "at") || eq_str(w, "be") || eq_str(w, "because") || eq_str(w, "been") || eq_str(
        w,
        "but",
    ) || eq_str(w, "by") || eq_str(w, "can") || eq_str(w, "could") || eq_str(w, "did") || eq_str(
        w,
        "do",
    ) || eq_str(w, "does") || eq_str(w, "for") || eq_str(w, "from") || eq_str(w, "had") || eq_str(
        w,
        "has",
    ) || eq_str(w, "have") || eq_str(w, "he") || eq_str(w, "her") || eq_str(w, "here") || eq_str(
        w,
        "him",
    ) || eq_str(w, "his") || eq_str(w, "how") || eq_str(w, "i") || eq_str(w, "if") || eq_str(
        w,
        "in",
    ) || eq_str(w, "into") || eq_str(w, "is") || eq_str(w, "it") || eq_str(w, "its") || eq_str(
        w,
        "just",
    ) || eq_str(w, "like") || eq_str(w, "more") || eq_str(w, "most") || eq_str(w, "my") || eq_str(
        w,
        "no",
    ) || eq_str(w, "not") || eq_str(w, "now") || eq_str(w, "of") || eq_str(w, "on") || eq_str(
        w,
        "one",
    ) || eq_str(w, "only") || eq_str(w, "or") || eq_str(w, "other") || eq_str(w, "our") || eq_str(
        w,
        "out",
    ) || eq_str(w, "over") || eq_str(w, "she") || eq_str(w, "so") || eq_str(w, "some") || eq_str(
        w,
        "such",
    ) || eq_str(w, "than") || eq_str(w, "that") || eq_str(w, "the") || eq_str(w, "their") || eq_str(
        w,
        "them",
    ) || eq_str(w, "then") || eq_str(w, "there") || eq_str(w, "these") || eq_str(w, "they")
        || eq_str(w, "this") || eq_str(w, "to") || eq_str(w, "too") || eq_str(w, "under") || eq_str(
        w,
        "up",
    ) || eq_str(w, "very") || eq_str(w, "was") || eq_str(w, "we") || eq_str(w, "were") || eq_str(
        w,
        "what",
    ) || eq_str(w, "when") || eq_str(w, "where") || eq_str(w, "which") || eq_str(w, "while")
        || eq_str(w, "who") || eq_str(w, "why") || eq_str(w, "will") || eq_str(w, "with") || eq_str(
        w,
        "would",
    ) || eq_str(w, "you") || eq_str(w, "your")
}

} // verus!
