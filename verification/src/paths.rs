//! What the library takes from `std::path`.
//!
//! Which part of a path is its last component depends on the platform's
//! rules for separators, `.` and `..`. The library leaves that to `std` and
//! speaks of the results by name.

use vstd::prelude::*;

verus! {

/// The last component of a path, as `std::path::Path::file_name` gives it on
/// the platform the crate is built for; none for a path that ends in `..` or
/// has no component at all.
pub uninterp spec fn path_file_name(path: Seq<char>) -> Option<Seq<char>>;

/// The path that `std::path::Path::with_file_name` makes of `path` and
/// `name`, on the platform the crate is built for: `path` with its last
/// component replaced by `name`.
pub uninterp spec fn path_with_file_name(path: Seq<char>, name: Seq<char>) -> Seq<char>;

/// Calls `std::path::Path::file_name`. The contract gives the result its
/// name and claims nothing else of it. A component of a path that is a
/// string is a string itself, so nothing is lost in the conversion.
#[verifier::external_body]
pub(crate) fn file_name_of(path: &str) -> (name: Option<String>)
    ensures
        match name {
            Some(n) => path_file_name(path@) == Some(n@),
            None => path_file_name(path@) is None,
        },
{
    match std::path::Path::new(path).file_name() {
        Some(name) => Some(name.to_string_lossy().into_owned()),
        None => None,
    }
}

/// Calls `std::path::Path::with_file_name`. The contract gives the result
/// its name and claims nothing else of it. A path made of two strings is a
/// string itself, so nothing is lost in the conversion.
#[verifier::external_body]
pub(crate) fn with_file_name(path: &str, name: &str) -> (out: String)
    ensures
        out@ == path_with_file_name(path@, name@),
{
    std::path::Path::new(path).with_file_name(name).to_string_lossy().into_owned()
}

} // verus!
