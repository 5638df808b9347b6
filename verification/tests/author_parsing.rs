//! Byline parsing and the author name pattern.

use extrablatt::authors::{contains_digits, is_valid_name, parse_byline};

fn chars(s: &str) -> Vec<char> {
    s.chars().collect()
}

fn s(v: &[char]) -> String {
    v.iter().collect()
}

#[test]
fn author_regex() {
    let re = regex::Regex::new(
        r"(?mi)(By)?\s*((<|(&lt;))a([^>]*)(>|(&gt;)))?(?P<name>[a-z ,.'-]+)((<|(&lt;))\\/a(>|(&gt;)))?",
    )
    .unwrap();

    let m = re
        .captures("By &lt;a href=&quot;/profiles/meg-wagner&quot;&gt;Joseph Kelley&lt;/a&gt;")
        .unwrap()
        .name("name")
        .unwrap();
    assert_eq!(m.as_str(), "Joseph Kelley");

    let m = re
        .captures("By <a href=&quot;/profiles/meg-wagner&quot;>Joseph Kelley</a>")
        .unwrap()
        .name("name")
        .unwrap();
    assert_eq!(m.as_str(), "Joseph Kelley");

    let m = re.captures("Joseph Kelley").unwrap().name("name").unwrap();
    assert_eq!(m.as_str(), "Joseph Kelley");

    let m = re.captures("By Joseph Kelley").unwrap().name("name").unwrap();
    assert_eq!(m.as_str(), "Joseph Kelley");

    let m = re.captures("J\'oseph-Kelley").unwrap().name("name").unwrap();
    assert_eq!(m.as_str(), "J\'oseph-Kelley");
}

#[test]
fn byline_splits_and_cleans() {
    let names = parse_byline(&chars("By Jane Doe, JANE DOE, Reuters"));
    let got: Vec<String> = names.iter().map(|n| s(n)).collect();
    assert_eq!(got, vec!["Jane Doe".to_string(), "JANE DOE".to_string()]);
}

#[test]
fn byline_keeps_first_two_words() {
    let names = parse_byline(&chars("Jane Doe Senior Correspondent Here"));
    // five words fail the name check; four words are cut to two
    assert!(names.is_empty());
    let names = parse_byline(&chars("Jane Doe Extra Word"));
    let got: Vec<String> = names.iter().map(|n| s(n)).collect();
    assert_eq!(got, vec!["Jane Doe".to_string()]);
}

#[test]
fn valid_names_need_two_to_four_clean_words() {
    assert!(is_valid_name(&chars("Jane Doe")));
    assert!(is_valid_name(&chars("Jane van der Doe")));
    assert!(!is_valid_name(&chars("Jane")));
    assert!(!is_valid_name(&chars("a b c d e")));
    assert!(!is_valid_name(&chars("Jane Doe 2")));
    assert!(!is_valid_name(&chars("Jane <b>Doe")));
}

#[test]
fn digit_detection() {
    assert!(contains_digits(&chars("agent 007")));
    assert!(!contains_digits(&chars("agent")));
}
