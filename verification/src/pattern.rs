//! Regular expressions: what the expression compiler and the search say of a
//! pattern, and the class of word characters.

use crate::text::{is_digit, push_char};
use vstd::prelude::*;

verus! {

/// Whether `regex::Regex::new` accepts `pattern`: it is a regular expression
/// and its compiled form stays within the size limit the compiler has by
/// default.
pub uninterp spec fn regex_compiles(pattern: Seq<char>) -> bool;

/// Whether the regular expression `pattern` matches somewhere in `haystack`,
/// as `regex::Regex::is_match` finds it for the expression that
/// `regex::Regex::new` compiles from `pattern`. Says nothing of a pattern
/// that does not compile.
pub uninterp spec fn regex_is_match(pattern: Seq<char>, haystack: Seq<char>) -> bool;

/// Compiles `pattern` with `regex::Regex::new` and searches `haystack` with
/// `regex::Regex::is_match`.
///
/// Trusted: whether the pattern compiles and, where it does, what the search
/// answers are functions of the pattern and the haystack alone. Nothing is
/// claimed of which patterns compile nor of what they match.
#[verifier::external_body]
pub(crate) fn regex_search(pattern: &str, haystack: &str) -> (found: Option<bool>)
    ensures
        found == (if regex_compiles(pattern@) {
            Some(regex_is_match(pattern@, haystack@))
        } else {
            None::<bool>
        }),
{
    match regex::Regex::new(pattern) {
        Ok(expression) => Some(expression.is_match(haystack)),
        Err(_) => None,
    }
}

/// The pattern that matches a text of exactly one word character.
pub open spec fn word_class() -> Seq<char> {
    "^\\w$"@
}

/// Whether `c` is an ASCII letter, an ASCII digit or the underscore.
pub open spec fn is_ascii_word_char(c: char) -> bool {
    ('a' <= c && c <= 'z') || ('A' <= c && c <= 'Z') || is_digit(c) || c == '_'
}

/// The characters a symbol or an interval is written in. Of the ASCII
/// characters these are the letters, the digits and the underscore; beyond
/// ASCII they are the characters that the word class of the expression
/// compiler matches.
pub open spec fn is_word_char(c: char) -> bool {
    if c as u32 <= 0x7f {
        is_ascii_word_char(c)
    } else {
        regex_compiles(word_class()) && regex_is_match(word_class(), seq![c])
    }
}

/// Executable form of [`is_word_char`].
pub fn char_is_word(c: char) -> (r: bool)
    ensures
        r == is_word_char(c),
{
    if c as u32 <= 0x7f {
        ('a' <= c && c <= 'z') || ('A' <= c && c <= 'Z') || ('0' <= c && c <= '9') || c == '_'
    } else {
        let mut text = String::new();
        push_char(&mut text, c);
        assert(text@ =~= seq![c]);
        match regex_search("^\\w$", text.as_str()) {
            Some(hit) => hit,
            None => false,
        }
    }
}

} // verus!
