//! Assets that a page embeds directly.

use crate::filesystem::{get_file_extension, path_extension};
use crate::renders_path::RendersPath;
use crate::text::{optional_text, str_eq, tag};
use vstd::prelude::*;
use vstd::string::*;

verus! {

/// The kinds of asset that a page embeds.
#[derive(Debug, Clone, Copy, PartialEq, Eq, Structural)]
pub enum AssetKind {
    Stylesheet,
    Script,
    Unknown,
}

impl AssetKind {
    /// The kind that a file extension stands for: `js` is a script, `css` a
    /// stylesheet, anything else, or no extension at all, unknown.
    pub open spec fn of_extension(extension: Option<Seq<char>>) -> AssetKind {
        if extension == Some("js"@) {
            AssetKind::Script
        } else if extension == Some("css"@) {
            AssetKind::Stylesheet
        } else {
            AssetKind::Unknown
        }
    }

    /// The kind that a file extension stands for.
    pub fn for_extension(extension: Option<&str>) -> (kind: AssetKind)
        ensures
            kind == AssetKind::of_extension(optional_text(extension)),
    {
        match extension {
            Some(found) => {
                if str_eq(found, "js") {
                    AssetKind::Script
                } else if str_eq(found, "css") {
                    AssetKind::Stylesheet
                } else {
                    AssetKind::Unknown
                }
            },
            None => AssetKind::Unknown,
        }
    }
}

/// An asset that a page embeds, by the kind of markup it needs.
#[derive(Debug, PartialEq, Eq, PartialOrd, Ord, Hash)]
pub enum Asset {
    Stylesheet(String),
    Script(String),
    Unknown(String),
}

/// What an [`Asset`] stands for: its kind and the characters of its path.
pub struct AssetView {
    pub kind: AssetKind,
    pub path: Seq<char>,
}

impl AssetView {
    /// The asset that a path with the given extension is.
    pub open spec fn classify(path: Seq<char>, extension: Option<Seq<char>>) -> AssetView {
        AssetView { kind: AssetKind::of_extension(extension), path }
    }

    /// The asset that `path` is, by the extension found in it.
    pub open spec fn of_path(path: Seq<char>) -> AssetView {
        AssetView::classify(path, path_extension(path))
    }

    /// The markup that embeds the asset, given the address of its path. An
    /// asset of unknown kind has no markup.
    pub open spec fn markup(self, address: Seq<char>) -> Seq<char> {
        match self.kind {
            AssetKind::Script => "<script async src=\""@ + address
                + "\" type=\"module\"></script>"@,
            AssetKind::Stylesheet => "<link rel=\"stylesheet\" href=\""@ + address + "\">"@,
            AssetKind::Unknown => Seq::empty(),
        }
    }
}

impl View for Asset {
    type V = AssetView;

    open spec fn view(&self) -> AssetView {
        match self {
            Asset::Stylesheet(path) => AssetView { kind: AssetKind::Stylesheet, path: path@ },
            Asset::Script(path) => AssetView { kind: AssetKind::Script, path: path@ },
            Asset::Unknown(path) => AssetView { kind: AssetKind::Unknown, path: path@ },
        }
    }
}

impl Asset {
    /// The asset of the given kind at `path`.
    pub fn of_kind(kind: AssetKind, path: String) -> (asset: Asset)
        ensures
            asset@ == (AssetView { kind, path: path@ }),
    {
        match kind {
            AssetKind::Script => Asset::Script(path),
            AssetKind::Stylesheet => Asset::Stylesheet(path),
            AssetKind::Unknown => Asset::Unknown(path),
        }
    }

    /// The asset that `path` is when its extension is `extension`.
    pub fn with_extension(path: String, extension: Option<&str>) -> (asset: Asset)
        ensures
            asset@ == AssetView::classify(path@, optional_text(extension)),
    {
        Asset::of_kind(AssetKind::for_extension(extension), path)
    }

    /// The asset that `path` is, by the extension found in it.
    pub fn from_path(path: String) -> (asset: Asset)
        ensures
            asset@ == AssetView::of_path(path@),
    {
        let kind = AssetKind::for_extension(get_file_extension(path.as_str()));
        Asset::of_kind(kind, path)
    }

    /// The markup that embeds this asset.
    pub fn render<TRendersPath: RendersPath>(&self, renders_path: &TRendersPath) -> (markup:
        String)
        ensures
            markup@ == self@.markup(renders_path.rendered(self@.path)),
    {
        match self {
            Asset::Script(path) => tag(
                "<script async src=\"",
                renders_path.render_path(path.as_str()),
                "\" type=\"module\"></script>",
            ),
            Asset::Stylesheet(path) => tag(
                "<link rel=\"stylesheet\" href=\"",
                renders_path.render_path(path.as_str()),
                "\">",
            ),
            Asset::Unknown(_) => String::new(),
        }
    }
}

impl Clone for Asset {
    fn clone(&self) -> (copy: Asset)
        ensures
            copy@ == self@,
    {
        match self {
            Asset::Stylesheet(path) => Asset::Stylesheet(path.clone()),
            Asset::Script(path) => Asset::Script(path.clone()),
            Asset::Unknown(path) => Asset::Unknown(path.clone()),
        }
    }
}

} // verus!
