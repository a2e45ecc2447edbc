//! Types of the standard library and of other crates that the library hands
//! on without looking inside them.

use vstd::prelude::*;

verus! {

/// `std::io::Error`, the error of reading and writing on disk.
#[verifier::external_type_specification]
#[verifier::external_body]
pub struct ExIoError(std::io::Error);

/// `walkdir::Error`, the error of walking a directory tree.
#[verifier::external_type_specification]
#[verifier::external_body]
pub struct ExWalkdirError(walkdir::Error);

/// `file_matcher::OneEntry`, which describes the one file or folder that a
/// search of a directory is to find.
#[verifier::external_type_specification]
#[verifier::external_body]
pub struct ExOneEntry(file_matcher::OneEntry);

/// `Clone::clone` of `file_matcher::OneEntry`. Nothing is claimed of the
/// copy.
pub assume_specification[ <file_matcher::OneEntry as Clone>::clone ](
    entry: &file_matcher::OneEntry,
) -> (copy: file_matcher::OneEntry)
;

/// `file_matcher::FileMatcherError`, the error of such a search.
#[verifier::external_type_specification]
#[verifier::external_body]
pub struct ExFileMatcherError(file_matcher::FileMatcherError);

/// `tokio::task::JoinError`, the error of a task that did not run to its
/// end.
#[verifier::external_type_specification]
#[verifier::external_body]
pub struct ExJoinError(tokio::task::JoinError);

/// `new_string_template::error::TemplateError`, the error of rendering a
/// template that names a value it was not given.
#[verifier::external_type_specification]
#[verifier::external_body]
pub struct ExTemplateError(new_string_template::error::TemplateError);

} // verus!
