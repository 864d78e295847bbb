//! Splitting a command line into words, by the `shellwords` crate.

use crate::text;
use vstd::prelude::*;
#[allow(unused_imports)]
use vstd::string::*;

verus! {

/// The error of `shellwords::split`.
#[verifier::external_type_specification]
#[verifier::external_body]
pub struct ExMismatchedQuotes(shellwords::MismatchedQuotes);

/// The words of a command line as `shellwords::split` finds them, or `None`
/// where a quote has no match.
pub uninterp spec fn shell_words(line: Seq<char>) -> Option<Seq<Seq<char>>>;

/// `shellwords::split` splits a command line into words as a shell does, with
/// its rules for quotes and backslashes, and fails on a quote that has no
/// match. Which words it finds is a function of the line alone.
#[verifier::external_body]
pub(crate) fn split_words(line: &str) -> (res: Result<Vec<String>, shellwords::MismatchedQuotes>)
    ensures
        match res {
            Ok(words) => shell_words(line@) == Some(text::texts(words@)),
            Err(_) => shell_words(line@) is None,
        },
{
    shellwords::split(line)
}

} // verus!
