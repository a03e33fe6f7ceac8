//! Building the index that a process shares among its requests.

use crate::error::ManifestError;
use crate::metafile::{has_distinct_sources, is_read_from, EsbuildMetaFile};
use vstd::prelude::*;

verus! {

/// Reads the manifest that the bundler wrote and builds its index.
pub fn create_from_contents(esbuild_meta_contents: &str) -> (result: Result<
    EsbuildMetaFile,
    ManifestError,
>)
    ensures
        is_read_from(result, esbuild_meta_contents@),
        has_distinct_sources(esbuild_meta_contents@),
{
    EsbuildMetaFile::from_str(esbuild_meta_contents)
}

} // verus!
