//! Regular-expression matching, delegated to the `regex` crate.
//!
//! What a match or a replacement yields takes pages to state (Unicode classes,
//! leftmost-first semantics), so each result is named here as a function of the
//! pattern and the text, and the library's own contracts speak of those names.

use vstd::prelude::*;

use crate::text::strings_view;

verus! {

/// What `Regex::new(pattern)` then `replace_all(text, replacement)` yields; `None` when
/// the pattern does not compile.
pub uninterp spec fn regex_replace_all_result(pattern: Seq<char>, text: Seq<char>, replacement: Seq<char>) -> Option<Seq<char>>;

/// What `Regex::new(pattern)` then `replace(text, replacement)` (first match only) yields;
/// `None` when the pattern does not compile.
pub uninterp spec fn regex_replace_first_result(pattern: Seq<char>, text: Seq<char>, replacement: Seq<char>) -> Option<Seq<char>>;

/// Whether `Regex::new(pattern)` matches somewhere in `text`; `None` when the pattern does
/// not compile.
pub uninterp spec fn regex_is_match_result(pattern: Seq<char>, text: Seq<char>) -> Option<bool>;

/// The texts of the successive non-overlapping matches of `pattern` in `text`
/// (`Regex::find_iter`), in order; `None` when the pattern does not compile.
pub uninterp spec fn regex_matches_result(pattern: Seq<char>, text: Seq<char>) -> Option<Seq<Seq<char>>>;

/// The pieces of `text` between those matches (`Regex::split`), in order; `None` when the
/// pattern does not compile.
pub uninterp spec fn regex_split_result(pattern: Seq<char>, text: Seq<char>) -> Option<Seq<Seq<char>>>;

/// Calls `regex::Regex::new` and `Regex::replace_all`.
#[verifier::external_body]
pub fn regex_replace_all(pattern: &str, text: &str, replacement: &str) -> (r: Option<String>)
    ensures
        match r {
            Some(s) => regex_replace_all_result(pattern@, text@, replacement@) == Some(s@),
            None => regex_replace_all_result(pattern@, text@, replacement@) is None,
        },
{
    match regex::Regex::new(pattern) {
        Ok(re) => Some(re.replace_all(text, replacement).into_owned()),
        Err(_) => None,
    }
}

/// Calls `regex::Regex::new` and `Regex::replace` (first match only). For the two anchored
/// DOI patterns replaced by nothing, what that gives is stated: the pattern compiles, and the
/// resolver URL, or the `doi:` label with the whitespace after it (`\s` is Unicode
/// `White_Space`), that the text starts with is removed, letters matched case-insensitively
/// by simple case folding.
#[verifier::external_body]
pub fn regex_replace_first(pattern: &str, text: &str, replacement: &str) -> (r: Option<String>)
    ensures
        match r {
            Some(s) => regex_replace_first_result(pattern@, text@, replacement@) == Some(s@),
            None => regex_replace_first_result(pattern@, text@, replacement@) is None,
        },
        replacement@.len() == 0 && pattern@ == crate::import_normalization::doi_url_pattern() ==> (r is Some
            && r->Some_0@ == crate::import_normalization::doi_url_stripped(text@)),
        replacement@.len() == 0 && pattern@ == crate::import_normalization::doi_label_pattern() ==> (r is Some
            && r->Some_0@ == crate::import_normalization::doi_label_stripped(text@)),
{
    match regex::Regex::new(pattern) {
        Ok(re) => Some(re.replace(text, replacement).into_owned()),
        Err(_) => None,
    }
}

/// Calls `regex::Regex::new` and `Regex::is_match`.
#[verifier::external_body]
pub fn regex_is_match(pattern: &str, text: &str) -> (r: Option<bool>)
    ensures
        r == regex_is_match_result(pattern@, text@),
{
    match regex::Regex::new(pattern) {
        Ok(re) => Some(re.is_match(text)),
        Err(_) => None,
    }
}

/// Calls `regex::Regex::new` and `Regex::find_iter`, keeping each match's text. Each match
/// is text the pattern matches, so for the BibTeX entry-start pattern (`@` as a literal, not
/// under a repetition) every match holds an `@`.
#[verifier::external_body]
pub fn regex_matches(pattern: &str, text: &str) -> (r: Option<Vec<String>>)
    ensures
        match r {
            Some(v) => regex_matches_result(pattern@, text@) == Some(strings_view(v@)),
            None => regex_matches_result(pattern@, text@) is None,
        },
        pattern@ == crate::import_normalization::bibtex_entry_pattern() ==> (r matches Some(v) ==> forall|i: int|
            0 <= i < v@.len() ==> (#[trigger] v@[i])@.contains('@')),
{
    match regex::Regex::new(pattern) {
        Ok(re) => Some(re.find_iter(text).map(|m| m.as_str().to_string()).collect()),
        Err(_) => None,
    }
}

/// Calls `regex::Regex::new` and `Regex::split`.
#[verifier::external_body]
pub fn regex_split(pattern: &str, text: &str) -> (r: Option<Vec<String>>)
    ensures
        match r {
            Some(v) => regex_split_result(pattern@, text@) == Some(strings_view(v@)),
            None => regex_split_result(pattern@, text@) is None,
        },
{
    match regex::Regex::new(pattern) {
        Ok(re) => Some(re.split(text).map(|p| p.to_string()).collect()),
        Err(_) => None,
    }
}


/// The text of capture group `group` of the first match of `pattern` in `text`
/// (`Regex::captures`): `None` when the pattern does not compile, `Some(None)` when nothing
/// matches or the group took no part in the match.
pub uninterp spec fn regex_capture_result(pattern: Seq<char>, text: Seq<char>, group: nat) -> Option<Option<Seq<char>>>;

/// Calls `regex::Regex::new`, `Regex::captures` and `Captures::get`.
#[verifier::external_body]
pub fn regex_capture(pattern: &str, text: &str, group: usize) -> (r: Option<Option<String>>)
    ensures
        match r {
            Some(Some(g)) => regex_capture_result(pattern@, text@, group as nat) == Some(Some(g@)),
            Some(None) => regex_capture_result(pattern@, text@, group as nat) == Some(None::<Seq<char>>),
            None => regex_capture_result(pattern@, text@, group as nat) is None,
        },
{
    match regex::Regex::new(pattern) {
        Ok(re) => Some(re.captures(text).and_then(|c| c.get(group)).map(|m| m.as_str().to_string())),
        Err(_) => None,
    }
}

} // verus!
