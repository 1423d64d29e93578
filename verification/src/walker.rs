//! The decisions of the walk over the tree of processes.
//!
//! The walk itself reads directories and files and is not part of this library. For
//! each entry that it finds it asks here what to do: to go down into the entry, to merge
//! the entry as an accounting file, or to pass it over.

use vstd::prelude::*;
use regex::Regex;
use crate::accounting::FileKind;
use crate::error::Error;
use crate::number::all_digits;
use crate::text::same_text;

verus! {

/// Whether `regex::Regex::new` accepts `pattern`.
pub uninterp spec fn regex_compiles(pattern: Seq<char>) -> bool;

/// Whether the regex that `regex::Regex::new` makes of `pattern` has a match somewhere
/// in `haystack`, as `regex::Regex::is_match` tells it.
pub uninterp spec fn regex_matches(pattern: Seq<char>, haystack: Seq<char>) -> bool;

/// The pattern of the names of process directories: decimal digits and nothing else.
pub open spec fn digits_pattern() -> Seq<char> {
    "^[0-9]*$"@
}

/// Compiles `pattern` with `regex::Regex::new` and asks `regex::Regex::is_match` whether
/// it has a match in `haystack`; `None` where the pattern is not accepted. The contract
/// claims that both answers depend on the two texts alone: whether the pattern is
/// accepted, and whether there is a match. Of one pattern it claims more, by the syntax
/// that the crate documents (`^` the beginning of the haystack, `[0-9]` any ASCII digit,
/// `x*` zero or more of `x`, `$` the end of the haystack): where `^[0-9]*$` is accepted,
/// it has a match in the haystacks that are made of ASCII digits alone, and in no other.
/// It claims nothing of which patterns are accepted.
#[verifier::external_body]
fn regex_is_match(pattern: &str, haystack: &str) -> (r: Option<bool>)
    ensures
        r is Some == regex_compiles(pattern@),
        r matches Some(found) ==> found == regex_matches(pattern@, haystack@),
        r matches Some(found) ==> pattern@ == digits_pattern() ==> found == all_digits(haystack@),
{
    match Regex::new(pattern) {
        Ok(regex) => Some(regex.is_match(haystack)),
        Err(_) => None,
    }
}

/// What the walk does with an entry of a directory.
#[derive(Clone, Copy, Debug, PartialEq, Eq, Structural)]
pub enum EntryAction {
    /// The entry is a directory to walk in its turn.
    Descend,
    /// The entry is an accounting file of the given kind, to be read and merged.
    Merge(FileKind),
    /// The entry is passed over.
    Skip,
}

/// What the walk does with the entry `name`, given whether the name is made of digits
/// alone, whether the entry is a directory or a file, and whether it stands in the root
/// of the walk. A directory named in digits is walked. Of the files, `stat` and `status`
/// are merged, but not in the root of the walk. Everything else is passed over.
pub open spec fn action_for(
    digits: bool,
    name: Seq<char>,
    is_dir: bool,
    is_file: bool,
    at_root: bool,
) -> EntryAction {
    if is_dir && digits {
        EntryAction::Descend
    } else if is_file && name == "stat"@ && !at_root {
        EntryAction::Merge(FileKind::CpuStat)
    } else if is_file && name == "status"@ && !at_root {
        EntryAction::Merge(FileKind::MemStatus)
    } else {
        EntryAction::Skip
    }
}

/// What the walk does with the entry `name`: `action_for`, with the pattern asked
/// whether the name of a directory is made of digits alone. There is no answer where
/// the entry is a directory and the pattern is not accepted.
pub open spec fn classified(name: Seq<char>, is_dir: bool, is_file: bool, at_root: bool) -> Result<
    EntryAction,
    Error,
> {
    if is_dir && !regex_compiles(digits_pattern()) {
        Err(Error::PatternRejected)
    } else {
        Ok(action_for(is_dir && all_digits(name), name, is_dir, is_file, at_root))
    }
}

/// Whether `pattern` has a match in `text`; an error where the pattern is not accepted.
/// The pattern of digits has a match in the texts that are made of ASCII digits alone.
pub fn matches_pattern(pattern: &str, text: &str) -> (r: Result<bool, Error>)
    ensures
        match r {
            Ok(found) => regex_compiles(pattern@) && found == regex_matches(pattern@, text@),
            Err(e) => e == Error::PatternRejected && !regex_compiles(pattern@),
        },
        r matches Ok(found) ==> pattern@ == digits_pattern() ==> found == all_digits(text@),
{
    match regex_is_match(pattern, text) {
        Some(found) => Ok(found),
        None => Err(Error::PatternRejected),
    }
}

/// Whether `name` is the name of a process directory: made of ASCII digits alone.
pub fn is_process_dir_name(name: &str) -> (r: Result<bool, Error>)
    ensures
        match r {
            Ok(digits) => regex_compiles(digits_pattern()) && digits == all_digits(name@),
            Err(e) => e == Error::PatternRejected && !regex_compiles(digits_pattern()),
        },
{
    matches_pattern("^[0-9]*$", name)
}

/// What the walk does with the entry `name`, given whether its name is made of digits
/// alone.
pub fn entry_action(digits: bool, name: &str, is_dir: bool, is_file: bool, at_root: bool) -> (a:
    EntryAction)
    ensures
        a == action_for(digits, name@, is_dir, is_file, at_root),
{
    if is_dir && digits {
        EntryAction::Descend
    } else if is_file && !at_root && same_text(name, "stat") {
        EntryAction::Merge(FileKind::CpuStat)
    } else if is_file && !at_root && same_text(name, "status") {
        EntryAction::Merge(FileKind::MemStatus)
    } else {
        EntryAction::Skip
    }
}

/// What the walk does with the entry `name`.
pub fn classify_entry(name: &str, is_dir: bool, is_file: bool, at_root: bool) -> (r: Result<
    EntryAction,
    Error,
>)
    ensures
        r == classified(name@, is_dir, is_file, at_root),
{
    let digits = if is_dir {
        is_process_dir_name(name)?
    } else {
        false
    };
    Ok(entry_action(digits, name, is_dir, is_file, at_root))
}

} // verus!
