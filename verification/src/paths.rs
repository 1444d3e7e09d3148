//! Path manipulation through `std::path`, on paths given as text.

use vstd::prelude::*;

use crate::text::last_index;

verus! {

/// `Path::file_name` of a path, as text: its last normal component. A path
/// given as `&str` always has a UTF-8 file name when it has one.
pub uninterp spec fn path_file_name(path: Seq<char>) -> Option<Seq<char>>;

/// The last normal component of a path (`Path::file_name`); the result is
/// named by `path_file_name` and depends on the path alone.
#[verifier::external_body]
pub(crate) fn file_name(path: &str) -> (r: Option<String>)
    ensures
        match r {
            Some(n) => path_file_name(path@) == Some(n@),
            None => path_file_name(path@) is None,
        },
{
    std::path::Path::new(path).file_name().and_then(|n| n.to_str()).map(|n| n.to_string())
}

/// `Path::join` of two paths given as text.
pub uninterp spec fn path_joined(base: Seq<char>, part: Seq<char>) -> Seq<char>;

/// `base` joined with `part` (`Path::join`); the result is named by
/// `path_joined` and depends on the two paths alone.
#[verifier::external_body]
pub(crate) fn join(base: &str, part: &str) -> (r: String)
    ensures
        r@ == path_joined(base@, part@),
{
    std::path::Path::new(base).join(part).to_string_lossy().into_owned()
}

/// `Path::with_file_name` of two paths given as text.
pub uninterp spec fn path_with_file_name(path: Seq<char>, name: Seq<char>) -> Seq<char>;

/// `path` with its file name replaced by `name` (`Path::with_file_name`);
/// the result is named by `path_with_file_name` and depends on the two
/// arguments alone.
#[verifier::external_body]
pub(crate) fn with_file_name(path: &str, name: &str) -> (r: String)
    ensures
        r@ == path_with_file_name(path@, name@),
{
    std::path::Path::new(path).with_file_name(name).to_string_lossy().into_owned()
}

/// `Path::extension` of a path, as text, by the rules its documentation
/// gives: none without a file name, none when the file name holds no `.` or
/// begins with its only `.`, and otherwise what follows the file name's last
/// `.`.
pub open spec fn path_extension(path: Seq<char>) -> Option<Seq<char>> {
    match path_file_name(path) {
        None => None,
        Some(name) => match last_index(name, '.') {
            Some(i) => if i > 0 {
                Some(name.skip(i + 1))
            } else {
                None
            },
            None => None,
        },
    }
}

/// The extension of a path's file name (`Path::extension`), as
/// `path_extension` states it. An extension is part of the file name, the
/// last component, so it holds no `/`.
#[verifier::external_body]
pub(crate) fn extension(path: &str) -> (r: Option<String>)
    ensures
        match r {
            Some(e) => path_extension(path@) == Some(e@) && !e@.contains('/'),
            None => path_extension(path@) is None,
        },
{
    std::path::Path::new(path).extension().and_then(|e| e.to_str()).map(|e| e.to_string())
}

/// `Path::with_extension` of a path and an extension, as text.
pub uninterp spec fn path_with_extension(path: Seq<char>, ext: Seq<char>) -> Seq<char>;

/// `path` with its extension replaced by `ext` (`Path::with_extension`); the
/// result is named by `path_with_extension` and depends on the two
/// arguments alone. `Path::with_extension` panics on an extension holding a
/// path separator, so `ext` holds no `/`.
#[verifier::external_body]
pub(crate) fn with_extension(path: &str, ext: &str) -> (r: String)
    requires
        !ext@.contains('/'),
    ensures
        r@ == path_with_extension(path@, ext@),
{
    std::path::Path::new(path).with_extension(ext).to_string_lossy().into_owned()
}

} // verus!
