//! Calls into the crates that this library builds on, and into parts of the
//! standard library without a specification. Verus takes the contracts in
//! this file on trust: each says what is relied on, and nothing here is
//! proved.

use vstd::prelude::*;

verus! {

/// The capture groups of the first match of the regular expression `pattern`
/// in `text`, as `regex::Regex::captures` finds it: one entry for each group
/// of the expression, group 0 being the whole match, and `None` for a group
/// that took no part in the match. `None` where nothing matches, and where
/// `pattern` is not a valid expression.
pub uninterp spec fn first_match(pattern: Seq<char>, text: Seq<char>) -> Option<
    Seq<Option<Seq<char>>>,
>;

/// The capture groups of each of the successive non-overlapping matches of
/// the regular expression `pattern` in `text`, in the order in which
/// `regex::Regex::captures_iter` yields them. Empty where nothing matches,
/// and where `pattern` is not a valid expression.
pub uninterp spec fn all_matches(pattern: Seq<char>, text: Seq<char>) -> Seq<
    Seq<Option<Seq<char>>>,
>;

/// The lower case of a string, as `str::to_lowercase` gives it.
pub uninterp spec fn lowercase(s: Seq<char>) -> Seq<char>;

/// The characters with a meaning of their own in a regular expression.
pub open spec fn is_meta_character(c: char) -> bool {
    ||| c == '\\'
    ||| c == '.'
    ||| c == '+'
    ||| c == '*'
    ||| c == '?'
    ||| c == '('
    ||| c == ')'
    ||| c == '|'
    ||| c == '['
    ||| c == ']'
    ||| c == '{'
    ||| c == '}'
    ||| c == '^'
    ||| c == '$'
    ||| c == '#'
    ||| c == '&'
    ||| c == '-'
    ||| c == '~'
}

/// `s` with a backslash put before each meta character.
pub open spec fn escaped(s: Seq<char>) -> Seq<char>
    decreases s.len(),
{
    if s.len() == 0 {
        Seq::empty()
    } else if is_meta_character(s.last()) {
        escaped(s.drop_last()).push('\\').push(s.last())
    } else {
        escaped(s.drop_last()).push(s.last())
    }
}

/// Compiles `pattern` with `regex::Regex::new` and searches `text` with
/// `regex::Regex::captures`. The contract names the result `first_match`: it
/// claims only that the groups found depend on the two strings alone.
#[verifier::external_body]
pub(crate) fn regex_captures(pattern: &str, text: &str) -> (groups: Option<Vec<Option<String>>>)
    ensures
        groups.deep_view() == first_match(pattern@, text@),
{
    let expression = regex::Regex::new(pattern).ok()?;
    let captures = expression.captures(text)?;
    Some(captures.iter().map(|group| group.map(|m| m.as_str().to_owned())).collect())
}

/// Compiles `pattern` with `regex::Regex::new` and searches `text` with
/// `regex::Regex::captures_iter`. The contract names the result
/// `all_matches`: it claims only that the groups found depend on the two
/// strings alone.
#[verifier::external_body]
pub(crate) fn regex_captures_iter(pattern: &str, text: &str) -> (found: Vec<Vec<Option<String>>>)
    ensures
        found.deep_view() == all_matches(pattern@, text@),
{
    match regex::Regex::new(pattern) {
        Ok(expression) => expression.captures_iter(text).map(
            |captures| captures.iter().map(|group| group.map(|m| m.as_str().to_owned())).collect(),
        ).collect(),
        Err(_) => Vec::new(),
    }
}

/// Calls `regex::escape`, which puts a backslash before each meta character
/// of `text` and leaves the other characters as they are.
#[verifier::external_body]
pub(crate) fn regex_escape(text: &str) -> (quoted: String)
    ensures
        quoted@ == escaped(text@),
{
    regex::escape(text)
}

/// Compiles `pattern` with `glob::Pattern::new` and matches `path` against it
/// with `glob::Pattern::matches`; an invalid pattern matches nothing. What
/// matches depends on the path separators of the platform, so nothing is
/// claimed of the result.
#[verifier::external_body]
pub(crate) fn glob_matches(pattern: &str, path: &str) -> (matched: bool) {
    match glob::Pattern::new(pattern) {
        Ok(compiled) => compiled.matches(path),
        Err(_) => false,
    }
}

/// Calls `str::to_lowercase`. The contract names the result `lowercase`.
#[verifier::external_body]
pub(crate) fn to_lowercase(s: &str) -> (lower: String)
    ensures
        lower@ == lowercase(s@),
{
    s.to_lowercase()
}

/// Draws a random identifier with `uuid::Uuid::new_v4` and writes it out as
/// text. Nothing is claimed of the result.
#[verifier::external_body]
pub(crate) fn random_id() -> (id: String) {
    uuid::Uuid::new_v4().to_string()
}

} // verus!
