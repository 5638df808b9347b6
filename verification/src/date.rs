//! Publishing dates: ISO date parsing from meta tags, structured-data
//! scripts, `<time>` elements, and the URL path fallback.

use vstd::prelude::*;

use crate::chars::{spec_is_digit, spec_trim, trim, is_digit};
use crate::dom::{attr_is, attr_of, tag_is, Dom, DomView, spec_text_of};
use crate::meta::spec_meta_content;
use crate::urls::AbsUrl;

verus! {

/// A calendar date.
#[derive(Clone, Copy, Debug, PartialEq, Eq, Structural)]
pub struct SimpleDate {
    pub year: u32,
    pub month: u8,
    pub day: u8,
}

/// Where a publishing date was found.
#[derive(Clone, Copy, Debug, PartialEq, Eq, Structural)]
pub enum DateSource {
    /// A date-bearing `<meta>` tag.
    Meta,
    /// A structured-data script.
    JsonLd,
    /// The URL path.
    UrlPath,
    /// A `<time>` element.
    TimeElement,
}

/// A publishing date and where it came from.
#[derive(Clone, Copy, Debug, PartialEq, Eq, Structural)]
pub struct ArticleDate {
    pub date: SimpleDate,
    pub source: DateSource,
}

/// Whether a year is a leap year.
pub open spec fn spec_is_leap(y: int) -> bool {
    (y % 4 == 0 && y % 100 != 0) || y % 400 == 0
}

/// The number of days in a month.
pub open spec fn spec_days_in_month(y: int, m: int) -> int {
    if m == 2 {
        if spec_is_leap(y) {
            29
        } else {
            28
        }
    } else if m == 4 || m == 6 || m == 9 || m == 11 {
        30
    } else {
        31
    }
}

/// A valid calendar date.
pub open spec fn spec_valid_date(y: int, m: int, day: int) -> bool {
    1 <= m <= 12 && 1 <= day <= spec_days_in_month(y, m)
}

/// The numeric value of an ASCII digit.
pub open spec fn digit_val(c: char) -> int {
    c as u32 - '0' as u32
}

/// Whether positions `i .. i+4`, `i+5 .. i+7` and `i+8 .. i+10` of `s`
/// hold an ISO date `yyyy-mm-dd`.
pub open spec fn iso_at(s: Seq<char>, i: int) -> bool {
    &&& 0 <= i && i + 10 <= s.len()
    &&& spec_is_digit(s[i]) && spec_is_digit(s[i + 1]) && spec_is_digit(s[i + 2])
        && spec_is_digit(s[i + 3])
    &&& s[i + 4] == '-'
    &&& spec_is_digit(s[i + 5]) && spec_is_digit(s[i + 6])
    &&& s[i + 7] == '-'
    &&& spec_is_digit(s[i + 8]) && spec_is_digit(s[i + 9])
}

/// The date an ISO prefix at `i` denotes.
pub open spec fn iso_date_at(s: Seq<char>, i: int) -> SimpleDate {
    SimpleDate {
        year: (1000 * digit_val(s[i]) + 100 * digit_val(s[i + 1]) + 10 * digit_val(s[i + 2])
            + digit_val(s[i + 3])) as u32,
        month: (10 * digit_val(s[i + 5]) + digit_val(s[i + 6])) as u8,
        day: (10 * digit_val(s[i + 8]) + digit_val(s[i + 9])) as u8,
    }
}

/// A trimmed text starts with a valid ISO date.
pub open spec fn spec_iso_prefix(s: Seq<char>) -> Option<SimpleDate> {
    let t = spec_trim(s);
    if iso_at(t, 0) && spec_valid_date(
        iso_date_at(t, 0).year as int,
        iso_date_at(t, 0).month as int,
        iso_date_at(t, 0).day as int,
    ) {
        Some(iso_date_at(t, 0))
    } else {
        None
    }
}

fn digit_of(c: char) -> (r: u32)
    requires
        spec_is_digit(c),
    ensures
        r == digit_val(c),
        r <= 9,
{
    c as u32 - '0' as u32
}

/// Parses a leading `yyyy-mm-dd` from the trimmed text, requiring a valid
/// calendar date.
pub fn parse_iso_prefix(s: &[char]) -> (r: Option<SimpleDate>)
    ensures
        r == spec_iso_prefix(s@),
{
    let t = trim(s);
    let v = t.as_slice();
    if v.len() < 10 {
        return None;
    }
    if !(is_digit(v[0]) && is_digit(v[1]) && is_digit(v[2]) && is_digit(v[3]) && v[4] == '-'
        && is_digit(v[5]) && is_digit(v[6]) && v[7] == '-' && is_digit(v[8]) && is_digit(v[9])) {
        return None;
    }
    let year = 1000 * digit_of(v[0]) + 100 * digit_of(v[1]) + 10 * digit_of(v[2]) + digit_of(v[3]);
    let month = (10 * digit_of(v[5]) + digit_of(v[6])) as u8;
    let day = (10 * digit_of(v[8]) + digit_of(v[9])) as u8;
    if valid_date(year, month, day) {
        Some(SimpleDate { year, month, day })
    } else {
        None
    }
}

fn valid_date(y: u32, m: u8, d: u8) -> (r: bool)
    ensures
        r == spec_valid_date(y as int, m as int, d as int),
{
    if m < 1 || m > 12 {
        return false;
    }
    let dim: u8 = if m == 2 {
        if (y % 4 == 0 && y % 100 != 0) || y % 400 == 0 {
            29
        } else {
            28
        }
    } else if m == 4 || m == 6 || m == 9 || m == 11 {
        30
    } else {
        31
    };
    1 <= d && d <= dim
}

/// The first date-bearing meta key whose content starts with a valid ISO
/// date.
pub open spec fn spec_meta_date(d: DomView) -> Option<SimpleDate> {
    let keys = meta_date_probe(d, "article:published_time"@);
    match keys {
        Some(x) => Some(x),
        None => match meta_date_probe(d, "datePublished"@) {
            Some(x) => Some(x),
            None => match meta_date_probe(d, "pubdate"@) {
                Some(x) => Some(x),
                None => match meta_date_probe(d, "publishdate"@) {
                    Some(x) => Some(x),
                    None => match meta_date_probe(d, "date"@) {
                        Some(x) => Some(x),
                        None => match meta_date_probe(d, "parsely-pub-date"@) {
                            Some(x) => Some(x),
                            None => meta_date_probe(d, "dc.date"@),
                        },
                    },
                },
            },
        },
    }
}

/// One meta date probe: the key as `property` first, then as `name`.
pub open spec fn meta_date_probe(d: DomView, key: Seq<char>) -> Option<SimpleDate> {
    let c = match spec_meta_content(d, "property"@, key) {
        Some(x) => Some(x),
        None => spec_meta_content(d, "name"@, key),
    };
    match c {
        Some(x) => spec_iso_prefix(x),
        None => None,
    }
}

impl Dom {
    fn meta_date_probe_exec(&self, key: &str) -> (r: Option<SimpleDate>)
        ensures
            r == meta_date_probe(self@, key@),
    {
        let c = match self.meta_content("property", key) {
            Some(x) => Some(x),
            None => self.meta_content("name", key),
        };
        match c {
            Some(x) => parse_iso_prefix(x.as_slice()),
            None => None,
        }
    }
}

/// The first valid ISO date anywhere in `s`, scanning from `i`.
pub open spec fn first_iso_from(s: Seq<char>, i: int) -> Option<SimpleDate>
    decreases s.len() - i,
{
    if i < 0 || i >= s.len() {
        None
    } else if iso_at(s, i) && spec_valid_date(
        iso_date_at(s, i).year as int,
        iso_date_at(s, i).month as int,
        iso_date_at(s, i).day as int,
    ) {
        Some(iso_date_at(s, i))
    } else {
        first_iso_from(s, i + 1)
    }
}

/// Finds the first valid ISO date substring.
pub fn find_iso(s: &[char]) -> (r: Option<SimpleDate>)
    ensures
        r == first_iso_from(s@, 0),
{
    let mut i: usize = 0;
    while i < s.len()
        invariant
            i <= s@.len(),
            first_iso_from(s@, 0) == first_iso_from(s@, i as int),
        decreases s.len() - i,
    {
        if s.len() - i >= 10 {
            let v = s;
            if is_digit(v[i]) && is_digit(v[i + 1]) && is_digit(v[i + 2]) && is_digit(v[i + 3])
                && v[i + 4] == '-' && is_digit(v[i + 5]) && is_digit(v[i + 6]) && v[i + 7] == '-'
                && is_digit(v[i + 8]) && is_digit(v[i + 9]) {
                let year = 1000 * digit_of(v[i]) + 100 * digit_of(v[i + 1]) + 10 * digit_of(
                    v[i + 2],
                ) + digit_of(v[i + 3]);
                let month = (10 * digit_of(v[i + 5]) + digit_of(v[i + 6])) as u8;
                let day = (10 * digit_of(v[i + 8]) + digit_of(v[i + 9])) as u8;
                if valid_date(year, month, day) {
                    return Some(SimpleDate { year, month, day });
                }
            }
        }
        proof {
            assert(!(iso_at(s@, i as int) && spec_valid_date(
                iso_date_at(s@, i as int).year as int,
                iso_date_at(s@, i as int).month as int,
                iso_date_at(s@, i as int).day as int,
            )));
        }
        i = i + 1;
    }
    None
}

/// The first structured-data script that names a published date and holds
/// a valid ISO date, scanning from `j`.
pub open spec fn jsonld_date_from(d: DomView, j: int) -> Option<SimpleDate>
    decreases d.len() - j,
{
    if j < 0 || j >= d.len() {
        None
    } else if tag_is(d, j, "script"@) && attr_is(d, j, "type"@, "application/ld+json"@)
        && crate::chars::seq_contains(spec_text_of(d, j), "datePublished"@) && first_iso_from(
        spec_text_of(d, j),
        0,
    ) is Some {
        first_iso_from(spec_text_of(d, j), 0)
    } else {
        jsonld_date_from(d, j + 1)
    }
}

/// The first `<time datetime>` that starts with a valid ISO date,
/// scanning from `j`.
pub open spec fn time_date_from(d: DomView, j: int) -> Option<SimpleDate>
    decreases d.len() - j,
{
    if j < 0 || j >= d.len() {
        None
    } else if tag_is(d, j, "time"@) && attr_of(d, j, "datetime"@) is Some && spec_iso_prefix(
        attr_of(d, j, "datetime"@)->0,
    ) is Some {
        spec_iso_prefix(attr_of(d, j, "datetime"@)->0)
    } else {
        time_date_from(d, j + 1)
    }
}

/// What the document yields: meta tags first, then structured data, then
/// `<time>` elements, each tagged with its source.
pub open spec fn spec_date_from_doc(d: DomView) -> Option<ArticleDate> {
    match spec_meta_date(d) {
        Some(x) => Some(ArticleDate { date: x, source: DateSource::Meta }),
        None => match jsonld_date_from(d, 0) {
            Some(x) => Some(ArticleDate { date: x, source: DateSource::JsonLd }),
            None => match time_date_from(d, 0) {
                Some(x) => Some(ArticleDate { date: x, source: DateSource::TimeElement }),
                None => None,
            },
        },
    }
}

/// Extracts a publishing date from the document.
pub fn extract_from_doc(dom: &Dom) -> (r: Option<ArticleDate>)
    ensures
        r == spec_date_from_doc(dom@),
{
    let meta = match dom.meta_date_probe_exec("article:published_time") {
        Some(x) => Some(x),
        None => match dom.meta_date_probe_exec("datePublished") {
            Some(x) => Some(x),
            None => match dom.meta_date_probe_exec("pubdate") {
                Some(x) => Some(x),
                None => match dom.meta_date_probe_exec("publishdate") {
                    Some(x) => Some(x),
                    None => match dom.meta_date_probe_exec("date") {
                        Some(x) => Some(x),
                        None => match dom.meta_date_probe_exec("parsely-pub-date") {
                            Some(x) => Some(x),
                            None => dom.meta_date_probe_exec("dc.date"),
                        },
                    },
                },
            },
        },
    };
    match meta {
        Some(x) => {
            return Some(ArticleDate { date: x, source: DateSource::Meta });
        },
        None => {},
    }
    let n = dom.len();
    let mut j: usize = 0;
    while j < n
        invariant
            j <= n,
            n == dom@.len(),
            spec_meta_date(dom@) is None,
            jsonld_date_from(dom@, 0) == jsonld_date_from(dom@, j as int),
        decreases n - j,
    {
        if dom.tag_is(j, "script") && dom.attr_is(j, "type", "application/ld+json") {
            let t = dom.text_of(j);
            if crate::chars::contains_str(t.as_slice(), "datePublished") {
                match find_iso(t.as_slice()) {
                    Some(x) => {
                        return Some(ArticleDate { date: x, source: DateSource::JsonLd });
                    },
                    None => {},
                }
            }
        }
        j = j + 1;
    }
    let mut j2: usize = 0;
    while j2 < n
        invariant
            j2 <= n,
            n == dom@.len(),
            spec_meta_date(dom@) is None,
            jsonld_date_from(dom@, 0) is None,
            time_date_from(dom@, 0) == time_date_from(dom@, j2 as int),
        decreases n - j2,
    {
        if dom.tag_is(j2, "time") {
            match dom.attr(j2, "datetime") {
                Some(dt) => {
                    match parse_iso_prefix(dt.as_slice()) {
                        Some(x) => {
                            return Some(ArticleDate { date: x, source: DateSource::TimeElement });
                        },
                        None => {},
                    }
                },
                None => {},
            }
        }
        j2 = j2 + 1;
    }
    None
}

/// The first date pattern in a path: four digits, a separator `/` or
/// `-`, two digits, the same class of separator, two digits, forming a
/// valid date; scanning from `i`.
pub open spec fn path_date_at(s: Seq<char>, i: int) -> bool {
    &&& 0 <= i && i + 10 <= s.len()
    &&& spec_is_digit(s[i]) && spec_is_digit(s[i + 1]) && spec_is_digit(s[i + 2])
        && spec_is_digit(s[i + 3])
    &&& (s[i + 4] == '/' || s[i + 4] == '-')
    &&& spec_is_digit(s[i + 5]) && spec_is_digit(s[i + 6])
    &&& (s[i + 7] == '/' || s[i + 7] == '-')
    &&& spec_is_digit(s[i + 8]) && spec_is_digit(s[i + 9])
    &&& (i == 0 || !spec_is_digit(s[i - 1]))
    &&& (i + 10 == s.len() || !spec_is_digit(s[i + 10]))
}

pub open spec fn path_date_from(s: Seq<char>, i: int) -> Option<SimpleDate>
    decreases s.len() - i,
{
    if i < 0 || i >= s.len() {
        None
    } else if path_date_at(s, i) && spec_valid_date(
        iso_date_at(s, i).year as int,
        iso_date_at(s, i).month as int,
        iso_date_at(s, i).day as int,
    ) {
        Some(iso_date_at(s, i))
    } else {
        path_date_from(s, i + 1)
    }
}

/// Extracts a publishing date from a URL path such as `/2025/11/15/slug`.
pub fn extract_from_str(s: &[char]) -> (r: Option<ArticleDate>)
    ensures
        match r {
            Some(ad) => path_date_from(s@, 0) == Some(ad.date) && ad.source
                == DateSource::UrlPath,
            None => path_date_from(s@, 0) is None,
        },
{
    let mut i: usize = 0;
    while i < s.len()
        invariant
            i <= s@.len(),
            path_date_from(s@, 0) == path_date_from(s@, i as int),
        decreases s.len() - i,
    {
        let mut ok = false;
        if s.len() - i >= 10 {
            if is_digit(s[i]) && is_digit(s[i + 1]) && is_digit(s[i + 2]) && is_digit(s[i + 3])
                && (s[i + 4] == '/' || s[i + 4] == '-') && is_digit(s[i + 5]) && is_digit(s[i + 6])
                && (s[i + 7] == '/' || s[i + 7] == '-') && is_digit(s[i + 8]) && is_digit(s[i + 9])
                && (i == 0 || !is_digit(s[i - 1])) && (i + 10 == s.len() || !is_digit(s[i + 10])) {
                ok = true;
                let year = 1000 * digit_of(s[i]) + 100 * digit_of(s[i + 1]) + 10 * digit_of(
                    s[i + 2],
                ) + digit_of(s[i + 3]);
                let month = (10 * digit_of(s[i + 5]) + digit_of(s[i + 6])) as u8;
                let day = (10 * digit_of(s[i + 8]) + digit_of(s[i + 9])) as u8;
                if valid_date(year, month, day) {
                    proof {
                        assert(path_date_at(s@, i as int));
                        assert(SimpleDate { year, month, day } == iso_date_at(s@, i as int));
                        assert(path_date_from(s@, i as int) == Some(iso_date_at(s@, i as int)));
                    }
                    return Some(
                        ArticleDate {
                            date: SimpleDate { year, month, day },
                            source: DateSource::UrlPath,
                        },
                    );
                }
            }
        }
        proof {
            assert(!(path_date_at(s@, i as int) && spec_valid_date(
                iso_date_at(s@, i as int).year as int,
                iso_date_at(s@, i as int).month as int,
                iso_date_at(s@, i as int).day as int,
            )));
        }
        i = i + 1;
    }
    None
}

/// What the date extractor yields for a document with an optional base
/// URL: the document first, then the URL path.
pub open spec fn spec_publishing_date(d: DomView, base: Option<Seq<char>>) -> Option<ArticleDate> {
    match spec_date_from_doc(d) {
        Some(x) => Some(x),
        None => match base {
            Some(b) => match path_date_from(crate::urls::url_path_of(b), 0) {
                Some(x) => Some(ArticleDate { date: x, source: DateSource::UrlPath }),
                None => None,
            },
            None => None,
        },
    }
}

/// Extract a publishing date from the document or the base URL path.
pub fn publishing_date(dom: &Dom, base: Option<&AbsUrl>) -> (r: Option<ArticleDate>)
    ensures
        r == spec_publishing_date(dom@, crate::urls::base_view(base)),
{
    match extract_from_doc(dom) {
        Some(x) => {
            return Some(x);
        },
        None => {},
    }
    match base {
        Some(b) => {
            let p = b.path();
            let chars = crate::chars::chars_of(p.as_str());
            extract_from_str(chars.as_slice())
        },
        None => None,
    }
}

} // verus!
