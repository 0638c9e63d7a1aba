//! File-kind tests used by the conditional command. What they report
//! depends on the file system of the moment, so nothing more is promised
//! of them.

use vstd::prelude::*;

verus! {

/// Relies on std::path::Path::is_file: whether the path names an existing
/// regular file right now.
#[verifier::external_body]
pub fn is_file(name: &String) -> (r: bool) {
    std::path::Path::new(name.as_str()).is_file()
}

/// Relies on std::path::Path::is_dir: whether the path names an existing
/// directory right now.
#[verifier::external_body]
pub fn is_dir(name: &String) -> (r: bool) {
    std::path::Path::new(name.as_str()).is_dir()
}

} // verus!
