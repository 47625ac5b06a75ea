//! Regular expressions and glob patterns. Both are matched by outside
//! crates; this module gives their results names, so that the rest of the
//! library can say exactly what it does with them.

use vstd::prelude::*;

verus! {

/// Whether `regex::Regex::new` accepts the pattern.
pub uninterp spec fn regex_compiles(pattern: Seq<char>) -> bool;

/// What `regex::Regex::is_match` returns for the compiled pattern and the
/// text.
pub uninterp spec fn regex_is_match(pattern: Seq<char>, text: Seq<char>) -> bool;

/// The matched stretches that `regex::Regex::find_iter` yields for the
/// compiled pattern in the text, first to last.
pub uninterp spec fn regex_matches(pattern: Seq<char>, text: Seq<char>) -> Seq<Seq<char>>;

/// What `regex::Regex::replace` returns: the text with its first match
/// replaced by the expanded replacement.
pub uninterp spec fn regex_replace(
    pattern: Seq<char>,
    text: Seq<char>,
    replacement: Seq<char>,
) -> Seq<char>;

/// What `regex::Regex::replace_all` returns: the text with every match
/// replaced by the expanded replacement.
pub uninterp spec fn regex_replace_all(
    pattern: Seq<char>,
    text: Seq<char>,
    replacement: Seq<char>,
) -> Seq<char>;

/// Whether `glob::Pattern::new` accepts the pattern.
pub uninterp spec fn glob_compiles(pattern: Seq<char>) -> bool;

/// What `glob::Pattern::matches_path` returns for the compiled pattern and
/// the path.
pub uninterp spec fn glob_accepts(pattern: Seq<char>, path: Seq<char>) -> bool;

/// What `glob::Pattern::matches_path_with` returns for the compiled pattern
/// and the path where it is asked to tell upper from lower case, to let
/// only a literal `/` match a `/`, and to treat a leading dot like any
/// other character: so a pattern finds a path when a directory is listed.
pub uninterp spec fn glob_lists(pattern: Seq<char>, path: Seq<char>) -> bool;

/// Calls `regex::Regex::new`, and says only whether it accepted the
/// pattern.
#[verifier::external_body]
pub(crate) fn is_regular_expression(pattern: &str) -> (r: bool)
    ensures
        r == regex_compiles(pattern@),
{
    ::regex::Regex::new(pattern).is_ok()
}

/// Compiles the pattern with `regex::Regex::new` and calls
/// `regex::Regex::is_match` on the text; `None` where the pattern does not
/// compile.
#[verifier::external_body]
pub(crate) fn is_match(pattern: &str, text: &str) -> (r: Option<bool>)
    ensures
        r == if regex_compiles(pattern@) {
            Some(regex_is_match(pattern@, text@))
        } else {
            None
        },
{
    match ::regex::Regex::new(pattern) {
        Ok(compiled) => Some(compiled.is_match(text)),
        Err(_) => None,
    }
}

/// Compiles the pattern with `regex::Regex::new` and collects what
/// `regex::Regex::find_iter` yields on the text; `None` where the pattern
/// does not compile.
#[verifier::external_body]
pub(crate) fn find_all(pattern: &str, text: &str) -> (r: Option<Vec<String>>)
    ensures
        r.deep_view() == if regex_compiles(pattern@) {
            Some(regex_matches(pattern@, text@))
        } else {
            None
        },
{
    match ::regex::Regex::new(pattern) {
        Ok(compiled) => Some(compiled.find_iter(text).map(|m| m.as_str().to_string()).collect()),
        Err(_) => None,
    }
}

/// Compiles the pattern with `regex::Regex::new` and calls
/// `regex::Regex::replace`; `None` where the pattern does not compile.
#[verifier::external_body]
pub(crate) fn replace(pattern: &str, text: &str, replacement: &str) -> (r: Option<String>)
    ensures
        r.deep_view() == if regex_compiles(pattern@) {
            Some(regex_replace(pattern@, text@, replacement@))
        } else {
            None
        },
{
    match ::regex::Regex::new(pattern) {
        Ok(compiled) => Some(compiled.replace(text, replacement).into_owned()),
        Err(_) => None,
    }
}

/// Compiles the pattern with `regex::Regex::new` and calls
/// `regex::Regex::replace_all`; `None` where the pattern does not compile.
#[verifier::external_body]
pub(crate) fn replace_all(pattern: &str, text: &str, replacement: &str) -> (r: Option<String>)
    ensures
        r.deep_view() == if regex_compiles(pattern@) {
            Some(regex_replace_all(pattern@, text@, replacement@))
        } else {
            None
        },
{
    match ::regex::Regex::new(pattern) {
        Ok(compiled) => Some(compiled.replace_all(text, replacement).into_owned()),
        Err(_) => None,
    }
}

/// Calls `glob::Pattern::new`, and says only whether it accepted the
/// pattern.
#[verifier::external_body]
pub(crate) fn is_glob(pattern: &str) -> (r: bool)
    ensures
        r == glob_compiles(pattern@),
{
    ::glob::Pattern::new(pattern).is_ok()
}

/// Compiles the pattern with `glob::Pattern::new` and calls
/// `glob::Pattern::matches_path` on the path; `None` where the pattern does
/// not compile.
#[verifier::external_body]
pub(crate) fn glob_match(pattern: &str, path: &str) -> (r: Option<bool>)
    ensures
        r == if glob_compiles(pattern@) {
            Some(glob_accepts(pattern@, path@))
        } else {
            None
        },
{
    match ::glob::Pattern::new(pattern) {
        Ok(compiled) => Some(compiled.matches_path(std::path::Path::new(path))),
        Err(_) => None,
    }
}

/// Compiles the pattern with `glob::Pattern::new` and calls
/// `glob::Pattern::matches_path_with` on the path, with the options that
/// tell upper from lower case, let only a literal `/` match a `/`, and
/// treat a leading dot like any other character; `None` where the pattern
/// does not compile.
#[verifier::external_body]
pub(crate) fn glob_list(pattern: &str, path: &str) -> (r: Option<bool>)
    ensures
        r == if glob_compiles(pattern@) {
            Some(glob_lists(pattern@, path@))
        } else {
            None
        },
{
    let options = ::glob::MatchOptions {
        case_sensitive: true,
        require_literal_separator: true,
        require_literal_leading_dot: false,
    };
    match ::glob::Pattern::new(pattern) {
        Ok(compiled) => Some(compiled.matches_path_with(std::path::Path::new(path), options)),
        Err(_) => None,
    }
}

} // verus!
