//! The renderer for assets served from the site's root.

use crate::renders_path::RendersPath;
use crate::text::str_starts_with;
use vstd::prelude::*;
use vstd::string::*;

verus! {

/// Whether `path` is an absolute `http` or `https` address.
pub open spec fn is_remote(path: Seq<char>) -> bool {
    "http://"@.is_prefix_of(path) || "https://"@.is_prefix_of(path)
}

/// A remote address as it is; any other path under the site's root.
pub open spec fn root_relative(path: Seq<char>) -> Seq<char> {
    if is_remote(path) {
        path
    } else {
        "/"@ + path
    }
}

/// An address that starts with `https://` or `http://` is rendered as it
/// is; anything else gets exactly one `/` in front.
pub proof fn lemma_remote_paths_pass_through(path: Seq<char>)
    ensures
        "https://"@.is_prefix_of(path) || "http://"@.is_prefix_of(path) ==> root_relative(path)
            == path,
        !is_remote(path) ==> root_relative(path) == "/"@ + path,
{
}

/// Leaves remote addresses untouched and puts one `/` in front of local
/// paths.
pub struct PathRenderer {}

impl RendersPath for PathRenderer {
    open spec fn rendered(&self, path: Seq<char>) -> Seq<char> {
        root_relative(path)
    }

    fn render_path(&self, path: &str) -> (address: String) {
        if str_starts_with(path, "http://") || str_starts_with(path, "https://") {
            path.to_owned()
        } else {
            let mut address = "/".to_owned();
            address.append(path);
            address
        }
    }
}

} // verus!
