//! Why a manifest was turned down.

use crate::manifest::texts;
use vstd::prelude::*;
use vstd::string::*;

verus! {

/// Why no index could be built from a manifest.
#[derive(Debug)]
pub enum ManifestError {
    /// The text is no JSON document; the parser's message is kept.
    InvalidJson(String),
    /// The document is JSON but not shaped like a manifest.
    UnexpectedShape,
    /// An entry point names a style bundle that is no output of the manifest.
    CssBundleNotFound(String),
    /// These outputs are neither entry points nor static files, and nothing
    /// imports them.
    UnprocessedOutputs(Vec<String>),
}

/// The paths of a list, each followed by a comma and a space after the first.
pub open spec fn comma_separated(paths: Seq<Seq<char>>) -> Seq<char>
    decreases paths.len(),
{
    if paths.len() == 0 {
        Seq::empty()
    } else if paths.len() == 1 {
        paths[0]
    } else {
        comma_separated(paths.drop_last()) + ", "@ + paths.last()
    }
}

impl ManifestError {
    /// The text of the error.
    pub open spec fn message(&self) -> Seq<char> {
        match self {
            ManifestError::InvalidJson(reason) => "Manifest is not valid JSON: "@ + reason@,
            ManifestError::UnexpectedShape => "Manifest does not have the expected shape"@,
            ManifestError::CssBundleNotFound(bundle) => "CSS bundle not found: "@ + bundle@,
            ManifestError::UnprocessedOutputs(paths) => "Some outputs were not processed: "@
                + comma_separated(texts(paths@)),
        }
    }

    /// A description of the error that names the paths at fault.
    pub fn to_string(&self) -> (text: String)
        ensures
            text@ == self.message(),
    {
        match self {
            ManifestError::InvalidJson(reason) => {
                let mut text = "Manifest is not valid JSON: ".to_owned();
                text.append(reason.as_str());
                text
            },
            ManifestError::UnexpectedShape => {
                "Manifest does not have the expected shape".to_owned()
            },
            ManifestError::CssBundleNotFound(bundle) => {
                let mut text = "CSS bundle not found: ".to_owned();
                text.append(bundle.as_str());
                text
            },
            ManifestError::UnprocessedOutputs(paths) => {
                let mut text = "Some outputs were not processed: ".to_owned();
                let ghost prefix = text@;
                let mut i: usize = 0;
                while i < paths.len()
                    invariant
                        i <= paths@.len(),
                        text@ == prefix + comma_separated(texts(paths@).take(i as int)),
                    decreases paths@.len() - i,
                {
                    let ghost before = texts(paths@).take(i as int);
                    let ghost after = texts(paths@).take(i + 1);
                    proof {
                        assert(after.drop_last() =~= before);
                        assert(after.last() == paths@[i as int]@);
                    }
                    if i > 0 {
                        text.append(", ");
                    }
                    text.append(paths[i].as_str());
                    proof {
                        if i == 0 {
                            assert(comma_separated(after) == after[0]);
                            assert(comma_separated(before) =~= Seq::<char>::empty());
                        }
                        assert(text@ =~= prefix + comma_separated(after));
                    }
                    i = i + 1;
                }
                proof {
                    assert(texts(paths@).take(i as int) =~= texts(paths@));
                }
                text
            },
        }
    }
}

} // verus!
