//! Location of the live cache that the daemon publishes.

use vstd::prelude::*;

use crate::paths::{file_name, path_file_name, path_with_file_name, with_file_name};
use crate::text::concat3;

verus! {

pub const DEFAULT_CACHE_PATH: &'static str = "/run/simaai-sentinel/cache.json";

pub const DEFAULT_CACHE_DIR: &'static str = "/run/simaai-sentinel";

pub fn default_cache_path() -> (r: &'static str)
    ensures
        r@ == "/run/simaai-sentinel/cache.json"@,
{
    DEFAULT_CACHE_PATH
}

/// The hidden sibling a new cache is written to before it replaces `path`:
/// `.<file name>.tmp`, with `cache.json` standing in for a missing name.
pub open spec fn tmp_path_of(path: Seq<char>) -> Seq<char> {
    let name = match path_file_name(path) {
        Some(n) => n,
        None => "cache.json"@,
    };
    path_with_file_name(path, "."@ + name + ".tmp"@)
}

pub fn tmp_path(path: &str) -> (r: String)
    ensures
        r@ == tmp_path_of(path@),
{
    let name = match file_name(path) {
        Some(n) => n,
        None => String::from_str("cache.json"),
    };
    let hidden = concat3(".", name.as_str(), ".tmp");
    with_file_name(path, hidden.as_str())
}

} // verus!
