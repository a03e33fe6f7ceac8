//! Assets that a page asks the browser to fetch ahead of need.

use crate::filesystem::{get_file_extension, path_extension};
use crate::renders_path::RendersPath;
use crate::text::{optional_text, str_eq, tag};
use vstd::prelude::*;
use vstd::string::*;

verus! {

/// The kinds of preload hint.
#[derive(Debug, Clone, Copy, PartialEq, Eq, Structural)]
pub enum PreloadKind {
    Fetch,
    Font,
    Image,
    Stylesheet,
    Module,
}

/// Whether `extension` names a font file.
pub open spec fn is_font_extension(extension: Seq<char>) -> bool {
    extension == "woff"@ || extension == "woff2"@ || extension == "ttf"@ || extension == "otf"@
}

/// Whether `extension` names an image file.
pub open spec fn is_image_extension(extension: Seq<char>) -> bool {
    extension == "png"@ || extension == "jpg"@ || extension == "jpeg"@ || extension == "gif"@
        || extension == "webp"@ || extension == "avif"@ || extension == "svg"@
}

impl PreloadKind {
    /// The hint that a file extension calls for: a module for `js`, a style
    /// for `css`, a font or an image for their usual extensions, and a plain
    /// fetch for anything else or for no extension at all.
    pub open spec fn of_extension(extension: Option<Seq<char>>) -> PreloadKind {
        match extension {
            Some(found) => if found == "js"@ {
                PreloadKind::Module
            } else if found == "css"@ {
                PreloadKind::Stylesheet
            } else if is_font_extension(found) {
                PreloadKind::Font
            } else if is_image_extension(found) {
                PreloadKind::Image
            } else {
                PreloadKind::Fetch
            },
            None => PreloadKind::Fetch,
        }
    }

    /// The hint that a file extension calls for.
    pub fn for_extension(extension: Option<&str>) -> (kind: PreloadKind)
        ensures
            kind == PreloadKind::of_extension(optional_text(extension)),
    {
        match extension {
            Some(found) => {
                if str_eq(found, "js") {
                    PreloadKind::Module
                } else if str_eq(found, "css") {
                    PreloadKind::Stylesheet
                } else if str_eq(found, "woff") || str_eq(found, "woff2") || str_eq(found, "ttf")
                    || str_eq(found, "otf") {
                    PreloadKind::Font
                } else if str_eq(found, "png") || str_eq(found, "jpg") || str_eq(found, "jpeg")
                    || str_eq(found, "gif") || str_eq(found, "webp") || str_eq(found, "avif")
                    || str_eq(found, "svg") {
                    PreloadKind::Image
                } else {
                    PreloadKind::Fetch
                }
            },
            None => PreloadKind::Fetch,
        }
    }
}

/// An asset to preload, by the kind of hint it needs.
#[derive(Debug, PartialEq, Eq, PartialOrd, Ord, Hash)]
pub enum PreloadableAsset {
    Fetch(String),
    Font(String),
    Image(String),
    Stylesheet(String),
    Module(String),
}

/// What a [`PreloadableAsset`] stands for: its kind and the characters of its
/// path.
pub struct PreloadableAssetView {
    pub kind: PreloadKind,
    pub path: Seq<char>,
}

impl PreloadableAssetView {
    /// The hint for a path with the given extension.
    pub open spec fn classify(path: Seq<char>, extension: Option<Seq<char>>)
        -> PreloadableAssetView {
        PreloadableAssetView { kind: PreloadKind::of_extension(extension), path }
    }

    /// The hint for `path`, by the extension found in it.
    pub open spec fn of_path(path: Seq<char>) -> PreloadableAssetView {
        PreloadableAssetView::classify(path, path_extension(path))
    }

    /// The markup of the hint, given the address of its path.
    pub open spec fn markup(self, address: Seq<char>) -> Seq<char> {
        match self.kind {
            PreloadKind::Fetch => "<link rel=\"preload\" href=\""@ + address + "\" as=\"fetch\">"@,
            PreloadKind::Font => "<link rel=\"preload\" href=\""@ + address
                + "\" as=\"font\" crossorigin>"@,
            PreloadKind::Image => "<link rel=\"preload\" href=\""@ + address + "\" as=\"image\">"@,
            PreloadKind::Module => "<link rel=\"modulepreload\" href=\""@ + address + "\">"@,
            PreloadKind::Stylesheet => "<link rel=\"preload\" href=\""@ + address
                + "\" as=\"style\">"@,
        }
    }
}

impl View for PreloadableAsset {
    type V = PreloadableAssetView;

    open spec fn view(&self) -> PreloadableAssetView {
        match self {
            PreloadableAsset::Fetch(path) => PreloadableAssetView {
                kind: PreloadKind::Fetch,
                path: path@,
            },
            PreloadableAsset::Font(path) => PreloadableAssetView {
                kind: PreloadKind::Font,
                path: path@,
            },
            PreloadableAsset::Image(path) => PreloadableAssetView {
                kind: PreloadKind::Image,
                path: path@,
            },
            PreloadableAsset::Stylesheet(path) => PreloadableAssetView {
                kind: PreloadKind::Stylesheet,
                path: path@,
            },
            PreloadableAsset::Module(path) => PreloadableAssetView {
                kind: PreloadKind::Module,
                path: path@,
            },
        }
    }
}

impl PreloadableAsset {
    /// The hint of the given kind for `path`.
    pub fn of_kind(kind: PreloadKind, path: String) -> (asset: PreloadableAsset)
        ensures
            asset@ == (PreloadableAssetView { kind, path: path@ }),
    {
        match kind {
            PreloadKind::Fetch => PreloadableAsset::Fetch(path),
            PreloadKind::Font => PreloadableAsset::Font(path),
            PreloadKind::Image => PreloadableAsset::Image(path),
            PreloadKind::Stylesheet => PreloadableAsset::Stylesheet(path),
            PreloadKind::Module => PreloadableAsset::Module(path),
        }
    }

    /// The hint for `path` when its extension is `extension`.
    pub fn with_extension(path: String, extension: Option<&str>) -> (asset: PreloadableAsset)
        ensures
            asset@ == PreloadableAssetView::classify(path@, optional_text(extension)),
    {
        PreloadableAsset::of_kind(PreloadKind::for_extension(extension), path)
    }

    /// The hint for `path`, by the extension found in it.
    pub fn from_path(path: String) -> (asset: PreloadableAsset)
        ensures
            asset@ == PreloadableAssetView::of_path(path@),
    {
        let kind = PreloadKind::for_extension(get_file_extension(path.as_str()));
        PreloadableAsset::of_kind(kind, path)
    }

    /// The markup of this hint.
    pub fn render<TRendersPath: RendersPath>(&self, renders_path: &TRendersPath) -> (markup:
        String)
        ensures
            markup@ == self@.markup(renders_path.rendered(self@.path)),
    {
        match self {
            PreloadableAsset::Fetch(path) => tag(
                "<link rel=\"preload\" href=\"",
                renders_path.render_path(path.as_str()),
                "\" as=\"fetch\">",
            ),
            PreloadableAsset::Font(path) => tag(
                "<link rel=\"preload\" href=\"",
                renders_path.render_path(path.as_str()),
                "\" as=\"font\" crossorigin>",
            ),
            PreloadableAsset::Image(path) => tag(
                "<link rel=\"preload\" href=\"",
                renders_path.render_path(path.as_str()),
                "\" as=\"image\">",
            ),
            PreloadableAsset::Module(path) => tag(
                "<link rel=\"modulepreload\" href=\"",
                renders_path.render_path(path.as_str()),
                "\">",
            ),
            PreloadableAsset::Stylesheet(path) => tag(
                "<link rel=\"preload\" href=\"",
                renders_path.render_path(path.as_str()),
                "\" as=\"style\">",
            ),
        }
    }
}

impl Clone for PreloadableAsset {
    fn clone(&self) -> (copy: PreloadableAsset)
        ensures
            copy@ == self@,
    {
        match self {
            PreloadableAsset::Fetch(path) => PreloadableAsset::Fetch(path.clone()),
            PreloadableAsset::Font(path) => PreloadableAsset::Font(path.clone()),
            PreloadableAsset::Image(path) => PreloadableAsset::Image(path.clone()),
            PreloadableAsset::Stylesheet(path) => PreloadableAsset::Stylesheet(path.clone()),
            PreloadableAsset::Module(path) => PreloadableAsset::Module(path.clone()),
        }
    }
}

} // verus!
