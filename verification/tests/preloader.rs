use esbuild_metafile::asset::{Asset, AssetKind};
use esbuild_metafile::filesystem::get_file_extension;
use esbuild_metafile::filters::{asset, preload, render_assets};
use esbuild_metafile::http_preloader::HttpPreloader;
use esbuild_metafile::instance::create_from_contents;
use esbuild_metafile::metafile::EsbuildMetaFile;
use esbuild_metafile::path_renderer::PathRenderer;
use esbuild_metafile::preloadable_asset::{PreloadKind, PreloadableAsset};
use esbuild_metafile::renders_path::RendersPath;
use std::sync::Arc;

const BASIC: &str = r#"{
  "outputs": {
    "dist/main.js": {
      "imports": [
        { "path": "dist/chunk1.js", "kind": "import-statement" },
        { "path": "dist/chunk2.js", "kind": "import-statement" }
      ],
      "entryPoint": "src/main.ts",
      "cssBundle": "dist/main.css",
      "inputs": { "src/main.ts": { "bytesInOutput": 100 } }
    },
    "dist/main.css": {
      "imports": [
        { "path": "dist/style1.css", "kind": "import-rule" }
      ],
      "entryPoint": "src/style.css",
      "inputs": { "src/style.css": { "bytesInOutput": 60 } }
    }
  }
}"#;

const FONTS: &str = r#"{
  "outputs": {
    "static/controller_foo_CTJMZK66.js": {
      "imports": [
        { "path": "static/chunk-EMZKCXNJ.js", "kind": "import-statement" },
        { "path": "static/chunk-PI4ZFSEL.js", "kind": "import-statement" }
      ],
      "entryPoint": "resources/ts/controller_foo.tsx",
      "cssBundle": "static/controller_foo_CX2Z63ZH.css",
      "inputs": { "resources/ts/controller_foo.tsx": { "bytesInOutput": 512 } }
    },
    "static/controller_foo_CX2Z63ZH.css": {
      "imports": [
        { "path": "https://fonts/font1.woff2", "kind": "url-token", "external": true },
        { "path": "https://fonts/font3.woff2", "kind": "url-token", "external": true },
        { "path": "static/logo_XSTJPNLH.png", "kind": "url-token" }
      ],
      "inputs": { "resources/css/controller_foo.css": { "bytesInOutput": 256 } }
    },
    "static/page-common_DO3RNJ3I.css": {
      "imports": [
        { "path": "https://fonts/font1.woff2", "kind": "url-token", "external": true },
        { "path": "https://fonts/font2.woff2", "kind": "url-token", "external": true },
        { "path": "static/test_6D5OPEBZ.svg", "kind": "url-token" }
      ],
      "entryPoint": "resources/css/page-common.css",
      "inputs": { "resources/css/page-common.css": { "bytesInOutput": 128 } }
    },
    "static/test_6D5OPEBZ.svg": {
      "imports": [],
      "inputs": { "resources/images/test.svg": { "bytesInOutput": 96 } }
    }
  }
}"#;

const SHARED: &str = r#"{
  "outputs": {
    "dist/a.js": {
      "imports": [ { "path": "dist/shared.js" }, { "path": "dist/only-a.woff2" } ],
      "entryPoint": "src/a.ts",
      "cssBundle": "dist/common.css"
    },
    "dist/b.js": {
      "imports": [ { "path": "dist/shared.js" }, { "path": "dist/only-b.bin" } ],
      "entryPoint": "src/b.ts",
      "cssBundle": "dist/common.css"
    },
    "dist/common.css": {
      "imports": [ { "path": "dist/bg.png" } ],
      "entryPoint": "src/common.css"
    },
    "dist/notes.txt": {
      "imports": [],
      "entryPoint": "src/notes.txt"
    }
  }
}"#;

fn basic_metafile() -> Arc<EsbuildMetaFile> {
    Arc::new(create_from_contents(BASIC).unwrap())
}

fn fonts_metafile() -> Arc<EsbuildMetaFile> {
    Arc::new(create_from_contents(FONTS).unwrap())
}

fn shared_metafile() -> Arc<EsbuildMetaFile> {
    Arc::new(create_from_contents(SHARED).unwrap())
}

fn held(preloader: &HttpPreloader) -> (Vec<Asset>, Vec<PreloadableAsset>) {
    let mut includes = preloader.included();
    let mut preloads = preloader.preloaded();
    includes.sort();
    preloads.sort();
    (includes, preloads)
}

#[test]
fn test_unique_includes_and_preloads() {
    let metafile = basic_metafile();
    let mut preloader = HttpPreloader::new(metafile);

    preloader.register_input("src/main.ts");
    preloader.register_input("src/main.ts");

    let includes = &preloader.includes;

    assert_eq!(includes.len(), 2);
    assert!(includes.contains(&Asset::from_path("dist/main.js".to_string())));
    assert!(includes.contains(&Asset::from_path("dist/main.css".to_string())));

    let preloads = &preloader.preloads;

    assert_eq!(preloads.len(), 3);
    assert!(preloads.contains(&PreloadableAsset::from_path("dist/chunk1.js".to_string())));
    assert!(preloads.contains(&PreloadableAsset::from_path("dist/chunk2.js".to_string())));
    assert!(preloads.contains(&PreloadableAsset::from_path("dist/style1.css".to_string())));
}

#[test]
fn test_css_preloads_uniqueness() {
    let metafile = basic_metafile();
    let mut preloader = HttpPreloader::new(metafile);

    preloader.register_input("src/style.css");

    let preloads = preloader.preloads;

    assert_eq!(preloads.len(), 1);
    assert!(preloads.contains(&PreloadableAsset::from_path("dist/style1.css".to_string())));
}

#[test]
fn test_asset_filter() {
    let mut preloads = HttpPreloader::new(fonts_metafile());

    let written = asset("resources/ts/controller_foo.tsx", &mut preloads).unwrap();
    assert_eq!(written, "");

    let rendered = render_assets(&preloads);

    assert_eq!(
        rendered.trim(),
        [
            r#"<link rel="modulepreload" href="/static/chunk-EMZKCXNJ.js">"#,
            r#"<link rel="modulepreload" href="/static/chunk-PI4ZFSEL.js">"#,
            r#"<link rel="preload" href="/static/logo_XSTJPNLH.png" as="image">"#,
            r#"<link rel="preload" href="https://fonts/font1.woff2" as="font" crossorigin>"#,
            r#"<link rel="preload" href="https://fonts/font3.woff2" as="font" crossorigin>"#,
            r#"<link rel="stylesheet" href="/static/controller_foo_CX2Z63ZH.css">"#,
            r#"<script async src="/static/controller_foo_CTJMZK66.js" type="module"></script>"#,
        ]
        .join("\n")
        .trim()
    );
}

#[test]
fn test_local_font_formatting() {
    let path_renderer = PathRenderer {};
    let font = PreloadableAsset::Font("fonts/Roboto.woff2".to_string()).render(&path_renderer);
    let expected = "<link rel=\"preload\" href=\"/fonts/Roboto.woff2\" as=\"font\" crossorigin>";

    assert_eq!(format!("{font}"), expected);
}

#[test]
fn test_url_font_formatting() {
    let path_renderer = PathRenderer {};
    let font =
        PreloadableAsset::Font("https://fonts.somewhere.com/fonts/Roboto.woff2".to_string())
            .render(&path_renderer);
    let expected = "<link rel=\"preload\" href=\"https://fonts.somewhere.com/fonts/Roboto.woff2\" as=\"font\" crossorigin>";

    assert_eq!(format!("{font}"), expected);
}

#[test]
fn new_preloader_holds_nothing() {
    let preloader = HttpPreloader::new(basic_metafile());

    assert!(preloader.included().is_empty());
    assert!(preloader.preloaded().is_empty());
    assert_eq!(render_assets(&preloader), "");
}

#[test]
fn registering_an_unknown_input_fails_and_changes_nothing() {
    let mut preloader = HttpPreloader::new(basic_metafile());
    preloader.register_input("src/main.ts");
    let before = held(&preloader);

    assert_eq!(preloader.register_input("src/missing.ts"), None);
    assert_eq!(preloader.register_preload("src/missing.ts"), None);
    assert_eq!(
        asset("src/missing.ts", &mut preloader),
        Err("esbuild input path not found: src/missing.ts".to_string())
    );
    assert_eq!(
        preload("src/missing.ts", &mut preloader),
        Err("esbuild preload path not found: src/missing.ts".to_string())
    );

    assert_eq!(held(&preloader), before);
}

#[test]
fn registering_an_input_twice_is_the_same_as_once() {
    let mut once = HttpPreloader::new(shared_metafile());
    assert_eq!(once.register_input("src/a.ts"), Some(()));

    let mut twice = HttpPreloader::new(shared_metafile());
    assert_eq!(twice.register_input("src/a.ts"), Some(()));
    assert_eq!(twice.register_input("src/a.ts"), Some(()));

    assert_eq!(held(&once), held(&twice));
    assert_eq!(render_assets(&once), render_assets(&twice));
}

#[test]
fn shared_dependency_is_hinted_at_once() {
    let mut preloader = HttpPreloader::new(shared_metafile());
    preloader.register_input("src/a.ts");
    preloader.register_input("src/b.ts");

    let preloads = preloader.preloaded();
    let shared = PreloadableAsset::Module("dist/shared.js".to_string());

    assert_eq!(preloads.iter().filter(|hint| **hint == shared).count(), 1);
    assert_eq!(preloads.len(), 4);
    let rendered = render_assets(&preloader);
    assert_eq!(
        rendered.matches(r#"<link rel="modulepreload" href="/dist/shared.js">"#).count(),
        1
    );
}

#[test]
fn output_embedded_before_does_not_bring_its_preloads_again() {
    let mut gated = HttpPreloader::new(shared_metafile());
    gated.includes.insert(Asset::from_path("dist/common.css".to_string()));
    assert_eq!(gated.register_input("src/common.css"), Some(()));

    assert_eq!(gated.included(), vec![Asset::Stylesheet("dist/common.css".to_string())]);
    assert!(gated.preloaded().is_empty());

    let mut fresh = HttpPreloader::new(shared_metafile());
    assert_eq!(fresh.register_input("src/common.css"), Some(()));

    assert_eq!(fresh.preloaded(), vec![PreloadableAsset::Image("dist/bg.png".to_string())]);
}

#[test]
fn registering_a_preload_hints_at_outputs_and_their_preloads() {
    let mut preloader = HttpPreloader::new(shared_metafile());
    assert_eq!(preload("src/b.ts", &mut preloader), Ok(String::new()));

    let (includes, preloads) = held(&preloader);
    let mut expected = vec![
        PreloadableAsset::Module("dist/b.js".to_string()),
        PreloadableAsset::Stylesheet("dist/common.css".to_string()),
        PreloadableAsset::Module("dist/shared.js".to_string()),
        PreloadableAsset::Fetch("dist/only-b.bin".to_string()),
        PreloadableAsset::Image("dist/bg.png".to_string()),
    ];
    expected.sort();

    assert!(includes.is_empty());
    assert_eq!(preloads, expected);
}

#[test]
fn rendering_does_not_depend_on_the_order_of_registration() {
    let mut forward = HttpPreloader::new(shared_metafile());
    forward.register_input("src/a.ts");
    forward.register_preload("src/common.css");
    forward.register_input("src/b.ts");

    let mut backward = HttpPreloader::new(shared_metafile());
    backward.register_input("src/b.ts");
    backward.register_input("src/a.ts");
    backward.register_preload("src/common.css");

    let rendered = render_assets(&forward);

    assert_eq!(held(&forward), held(&backward));
    assert_eq!(rendered, render_assets(&backward));
    assert_eq!(
        rendered,
        [
            r#"<link rel="modulepreload" href="/dist/shared.js">"#,
            r#"<link rel="preload" href="/dist/bg.png" as="image">"#,
            r#"<link rel="preload" href="/dist/common.css" as="style">"#,
            r#"<link rel="preload" href="/dist/only-a.woff2" as="font" crossorigin>"#,
            r#"<link rel="preload" href="/dist/only-b.bin" as="fetch">"#,
            r#"<link rel="stylesheet" href="/dist/common.css">"#,
            r#"<script async src="/dist/a.js" type="module"></script>"#,
            r#"<script async src="/dist/b.js" type="module"></script>"#,
            "",
        ]
        .join("\n")
    );
}

#[test]
fn asset_of_unknown_kind_is_kept_and_renders_to_nothing() {
    let mut preloader = HttpPreloader::new(shared_metafile());
    assert_eq!(asset("src/notes.txt", &mut preloader), Ok(String::new()));

    let unknown = Asset::from_path("dist/notes.txt".to_string());

    assert_eq!(unknown, Asset::Unknown("dist/notes.txt".to_string()));
    assert_eq!(unknown.render(&PathRenderer {}), "");
    assert_eq!(preloader.included(), vec![Asset::Unknown("dist/notes.txt".to_string())]);
    assert_eq!(preloader.includes.len(), 1);
    assert_eq!(render_assets(&preloader), "\n");
}

#[test]
fn remote_paths_are_rendered_as_they_are() {
    let path_renderer = PathRenderer {};

    assert_eq!(path_renderer.render_path("https://cdn.example/app.js"), "https://cdn.example/app.js");
    assert_eq!(path_renderer.render_path("http://cdn.example/app.js"), "http://cdn.example/app.js");
    assert_eq!(path_renderer.render_path("static/app.js"), "/static/app.js");
    assert_eq!(path_renderer.render_path("httpd/app.js"), "/httpd/app.js");
    assert_eq!(path_renderer.render_path(""), "/");
    assert_eq!(
        PreloadableAsset::from_path("https://cdn.example/app.js".to_string()).render(&path_renderer),
        r#"<link rel="modulepreload" href="https://cdn.example/app.js">"#
    );
    assert_eq!(
        Asset::from_path("https://cdn.example/app.css".to_string()).render(&path_renderer),
        r#"<link rel="stylesheet" href="https://cdn.example/app.css">"#
    );
}

#[test]
fn assets_render_by_their_kind() {
    let path_renderer = PathRenderer {};

    assert_eq!(
        Asset::Script("static/app.js".to_string()).render(&path_renderer),
        r#"<script async src="/static/app.js" type="module"></script>"#
    );
    assert_eq!(
        Asset::Stylesheet("static/app.css".to_string()).render(&path_renderer),
        r#"<link rel="stylesheet" href="/static/app.css">"#
    );
    assert_eq!(
        PreloadableAsset::Fetch("static/data.bin".to_string()).render(&path_renderer),
        r#"<link rel="preload" href="/static/data.bin" as="fetch">"#
    );
    assert_eq!(
        PreloadableAsset::Image("static/logo.png".to_string()).render(&path_renderer),
        r#"<link rel="preload" href="/static/logo.png" as="image">"#
    );
    assert_eq!(
        PreloadableAsset::Module("static/app.js".to_string()).render(&path_renderer),
        r#"<link rel="modulepreload" href="/static/app.js">"#
    );
    assert_eq!(
        PreloadableAsset::Stylesheet("static/app.css".to_string()).render(&path_renderer),
        r#"<link rel="preload" href="/static/app.css" as="style">"#
    );
}

#[test]
fn paths_are_classified_by_their_extension() {
    assert_eq!(get_file_extension("dist/app.min.js"), Some("js"));
    assert_eq!(get_file_extension("dist/README"), None);
    assert_eq!(get_file_extension("dist/.hidden"), None);

    assert_eq!(Asset::from_path("a/b.js".to_string()), Asset::Script("a/b.js".to_string()));
    assert_eq!(Asset::from_path("a/b.css".to_string()), Asset::Stylesheet("a/b.css".to_string()));
    assert_eq!(Asset::from_path("a/b.png".to_string()), Asset::Unknown("a/b.png".to_string()));
    assert_eq!(Asset::from_path("a/js".to_string()), Asset::Unknown("a/js".to_string()));

    for (path, kind) in [
        ("a.js", PreloadKind::Module),
        ("a.css", PreloadKind::Stylesheet),
        ("a.woff", PreloadKind::Font),
        ("a.woff2", PreloadKind::Font),
        ("a.ttf", PreloadKind::Font),
        ("a.otf", PreloadKind::Font),
        ("a.png", PreloadKind::Image),
        ("a.jpg", PreloadKind::Image),
        ("a.jpeg", PreloadKind::Image),
        ("a.gif", PreloadKind::Image),
        ("a.webp", PreloadKind::Image),
        ("a.avif", PreloadKind::Image),
        ("a.svg", PreloadKind::Image),
        ("a.glb", PreloadKind::Fetch),
        ("a", PreloadKind::Fetch),
    ] {
        assert_eq!(
            PreloadableAsset::from_path(path.to_string()),
            PreloadableAsset::of_kind(kind, path.to_string())
        );
    }
}

#[test]
fn kind_is_decided_by_the_extension_handed_in() {
    assert_eq!(AssetKind::for_extension(Some("js")), AssetKind::Script);
    assert_eq!(AssetKind::for_extension(Some("css")), AssetKind::Stylesheet);
    assert_eq!(AssetKind::for_extension(Some("JS")), AssetKind::Unknown);
    assert_eq!(AssetKind::for_extension(None), AssetKind::Unknown);
    assert_eq!(
        Asset::with_extension("x".to_string(), Some("css")),
        Asset::Stylesheet("x".to_string())
    );
    assert_eq!(PreloadKind::for_extension(Some("svg")), PreloadKind::Image);
    assert_eq!(PreloadKind::for_extension(Some("map")), PreloadKind::Fetch);
    assert_eq!(PreloadKind::for_extension(None), PreloadKind::Fetch);
    assert_eq!(
        PreloadableAsset::with_extension("x".to_string(), Some("ttf")),
        PreloadableAsset::Font("x".to_string())
    );
}
