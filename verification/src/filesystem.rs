//! File name handling.

use std::path::Path;
use vstd::prelude::*;

verus! {

/// The extension that `std::path::Path::extension` finds in `path`: the part
/// of the final component after its last dot, if that component has a dot
/// that is not its first character.
pub uninterp spec fn path_extension(path: Seq<char>) -> Option<Seq<char>>;

/// Extension of the file that `path` names, without the dot.
///
/// Trusted: the body is `Path::new(path).extension()`, read back as `&str`,
/// and the contract only gives that result its name, [`path_extension`].
#[verifier::external_body]
pub fn get_file_extension(path: &str) -> (extension: Option<&str>)
    ensures
        match extension {
            Some(found) => path_extension(path@) == Some(found@),
            None => path_extension(path@).is_none(),
        },
{
    Path::new(path).extension().and_then(|ext| ext.to_str())
}

} // verus!
