//! How a path from the manifest becomes the address written into markup.

use vstd::prelude::*;

verus! {

/// Turns a path from the manifest into the address that markup refers to.
pub trait RendersPath {
    /// The address that stands for `path`.
    spec fn rendered(&self, path: Seq<char>) -> Seq<char>;

    fn render_path(&self, path: &str) -> (address: String)
        ensures
            address@ == self.rendered(path@),
    ;
}

} // verus!
