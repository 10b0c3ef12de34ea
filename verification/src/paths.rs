//! Path text operations of `std::path`, over paths held as UTF-8 strings.

use std::path::Path;

use vstd::prelude::*;

verus! {

/// The parent of a path, as `Path::parent` gives it.
pub uninterp spec fn parent_path_of(p: Seq<char>) -> Option<Seq<char>>;

/// The final component of a path, as `Path::file_name` gives it.
pub uninterp spec fn file_name_of(p: Seq<char>) -> Option<Seq<char>>;

/// A path with another appended, as `Path::join` gives it.
pub uninterp spec fn joined_path(base: Seq<char>, name: Seq<char>) -> Seq<char>;

/// `Path::parent`: the path without its final component; `None` for a
/// root or an empty path. The parent of a UTF-8 path is a prefix of it, so
/// it converts to a string unchanged.
#[verifier::external_body]
pub(crate) fn path_parent(p: &str) -> (r: Option<String>)
    ensures
        match r {
            Some(s) => parent_path_of(p@) == Some(s@),
            None => parent_path_of(p@) is None,
        },
{
    Path::new(p).parent().map(|q| q.to_string_lossy().into_owned())
}

/// `Path::file_name`: the final component of the path, if it is a normal
/// file or directory name; `None` when the path ends in `..` or is a root.
#[verifier::external_body]
pub(crate) fn path_file_name(p: &str) -> (r: Option<String>)
    ensures
        match r {
            Some(s) => file_name_of(p@) == Some(s@),
            None => file_name_of(p@) is None,
        },
{
    Path::new(p).file_name().map(|q| q.to_string_lossy().into_owned())
}

/// `Path::join`: `name` appended to `base` with a separator (or `name`
/// alone when it is absolute).
#[verifier::external_body]
pub(crate) fn path_join(base: &str, name: &str) -> (r: String)
    ensures
        r@ == joined_path(base@, name@),
{
    Path::new(base).join(name).to_string_lossy().into_owned()
}

} // verus!
