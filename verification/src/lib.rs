//! Index over an esbuild metafile, and a per-request collector of the assets
//! a page has to embed and to preload.

pub mod asset;
pub mod coverage;
pub mod error;
pub mod filesystem;
pub mod filters;
pub mod graph;
pub mod http_preloader;
pub mod indexing;
pub mod instance;
pub mod json;
pub mod lines;
pub mod manifest;
pub mod metafile;
pub mod path_renderer;
pub mod preloadable_asset;
pub mod renders_path;
pub mod tables;
pub mod text;
pub mod walk;

pub use error::ManifestError;
pub use http_preloader::HttpPreloader;
pub use manifest::{Import, InputInOutput, Manifest, Output};
pub use metafile::EsbuildMetaFile;
