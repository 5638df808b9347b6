//! Article extraction engine: selects the main body node of a parsed HTML
//! document by heuristic scoring and derives metadata (title, authors, date,
//! language, URLs) from the same tree.

pub mod chars;
pub mod split;
pub mod unicode;
pub mod dom;
pub mod parse;
pub mod lang;
pub mod noise;
pub mod text;
pub mod score;
pub mod meta;
pub mod title;
pub mod authors;
pub mod urls;
pub mod date;
pub mod video;
pub mod article;
pub mod laws;

use vstd::prelude::*;

verus! {

/// Whether the char is one of the byline / word punctuation characters
/// `,."'!?&-/:;()#$%*+<=>@[\]^_`{|}~`.
pub open spec fn spec_is_punctuation(c: char) -> bool {
    c == ',' || c == '.' || c == '"' || c == '\'' || c == '!' || c == '?' || c == '&' || c == '-'
        || c == '/' || c == ':' || c == ';' || c == '(' || c == ')' || c == '#' || c == '$'
        || c == '%' || c == '*' || c == '+' || c == '<' || c == '=' || c == '>' || c == '@'
        || c == '[' || c == '\\' || c == ']' || c == '^' || c == '_' || c == '`' || c == '{'
        || c == '|' || c == '}' || c == '~'
}

/// Whether the char is a punctuation.
pub fn is_punctuation(c: char) -> (r: bool)
    ensures
        r == spec_is_punctuation(c),
{
    c == ',' || c == '.' || c == '"' || c == '\'' || c == '!' || c == '?' || c == '&' || c == '-'
        || c == '/' || c == ':' || c == ';' || c == '(' || c == ')' || c == '#' || c == '$'
        || c == '%' || c == '*' || c == '+' || c == '<' || c == '=' || c == '>' || c == '@'
        || c == '[' || c == '\\' || c == ']' || c == '^' || c == '_' || c == '`' || c == '{'
        || c == '|' || c == '}' || c == '~'
}

} // verus!
