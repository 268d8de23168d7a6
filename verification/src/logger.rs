//! What a logger backend decides for each record: where an output writes to, and
//! which targets it takes.

use vstd::prelude::*;

verus! {

/// Name of the standard output.
pub const LOGGER_STDOUT_NAME: &'static str = "stdout";

/// Error occuring when initializing a logger backend.
#[derive(Clone, Copy, Debug, PartialEq, Eq, Structural)]
#[non_exhaustive]
pub enum Error {
    /// Creating output file failed.
    CreatingFileFailed,
    /// Initializing the logger backend failed.
    InitializationFailed,
}

impl Error {
    /// The error in words.
    pub fn message(&self) -> (text: String)
        ensures
            text@ == match self {
                Error::CreatingFileFailed => "Creating output file failed."@,
                Error::InitializationFailed => "Initializing the logger backend failed."@,
            },
    {
        match self {
            Error::CreatingFileFailed => "Creating output file failed.".to_string(),
            Error::InitializationFailed => "Initializing the logger backend failed.".to_string(),
        }
    }
}

/// Where an output of the logger writes to.
#[derive(Clone, Copy, Debug, PartialEq, Eq, Structural)]
pub enum Sink {
    /// The standard output.
    Stdout,
    /// The file that has the name of the output.
    File,
}

/// The lowercase equivalent of a text, as `str::to_lowercase` gives it.
pub uninterp spec fn lowercase(text: Seq<char>) -> Seq<char>;

/// Whether `part` occurs in `text`, at some place, as it is.
pub open spec fn has_part(text: Seq<char>, part: Seq<char>) -> bool {
    exists|i: int|
        0 <= i && i + part.len() <= text.len() && #[trigger] text.subrange(i, i + part.len())
            == part
}

/// Whether one of `parts` occurs in `text`.
pub open spec fn has_any_part(text: Seq<char>, parts: Seq<String>) -> bool {
    exists|k: int| 0 <= k < parts.len() && has_part(text, (#[trigger] parts[k])@)
}

/// Whether an output with the filters `filters` and the exclusions `exclusions`
/// takes the records of `target`: the target in lowercase holds one of the
/// filters, if there are any, and none of the exclusions.
pub open spec fn takes_target(
    target: Seq<char>,
    filters: Seq<String>,
    exclusions: Seq<String>,
) -> bool {
    &&& filters.len() == 0 || has_any_part(lowercase(target), filters)
    &&& !has_any_part(lowercase(target), exclusions)
}

/// Compares two texts with `str::eq`: whether they hold the same characters.
#[verifier::external_body]
fn same_text(a: &str, b: &str) -> (same: bool)
    ensures
        same == (a@ == b@),
{
    a == b
}

/// The text in lowercase, by `str::to_lowercase`.
#[verifier::external_body]
fn to_lowercase(text: &str) -> (lower: String)
    ensures
        lower@ == lowercase(text@),
{
    text.to_lowercase()
}

/// Whether `part` occurs in `text`, by `str::contains`.
#[verifier::external_body]
fn contains(text: &str, part: &str) -> (found: bool)
    ensures
        found == has_part(text@, part@),
{
    text.contains(part)
}

/// Where the output named `name` writes to: the one named
/// [`LOGGER_STDOUT_NAME`] to the standard output, every other to a file.
pub fn sink_of(name: &str) -> (sink: Sink)
    ensures
        sink == if name@ == LOGGER_STDOUT_NAME@ {
            Sink::Stdout
        } else {
            Sink::File
        },
{
    if same_text(name, LOGGER_STDOUT_NAME) {
        Sink::Stdout
    } else {
        Sink::File
    }
}

/// Whether one of `parts` occurs in `text`.
pub fn contains_any(text: &str, parts: &Vec<String>) -> (found: bool)
    ensures
        found == has_any_part(text@, parts@),
{
    let mut k: usize = 0;
    while k < parts.len()
        invariant
            k <= parts@.len(),
            forall|j: int| 0 <= j < k ==> !has_part(text@, (#[trigger] parts@[j])@),
        decreases parts@.len() - k,
    {
        if contains(text, parts[k].as_str()) {
            return true;
        }
        k += 1;
    }
    false
}

/// Whether an output with the filters `target_filters` and the exclusions
/// `target_exclusions` takes the records of `target`.
pub fn accepts_target(
    target: &str,
    target_filters: &Vec<String>,
    target_exclusions: &Vec<String>,
) -> (taken: bool)
    ensures
        taken == takes_target(target@, target_filters@, target_exclusions@),
{
    let lower = to_lowercase(target);
    if !target_filters.is_empty() && !contains_any(lower.as_str(), target_filters) {
        return false;
    }
    if !target_exclusions.is_empty() && contains_any(lower.as_str(), target_exclusions) {
        return false;
    }
    true
}

} // verus!
