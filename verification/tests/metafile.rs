use esbuild_metafile::error::ManifestError;
use esbuild_metafile::instance::create_from_contents;
use esbuild_metafile::manifest::{Import, InputInOutput, Manifest, Output};
use esbuild_metafile::metafile::EsbuildMetaFile;
use std::sync::Arc;

const ESBUILD_CONTENTS_BASIC: &str = r#"{
  "inputs": {
    "src/main.ts": { "bytes": 120, "imports": [] },
    "src/style.css": { "bytes": 64, "imports": [] }
  },
  "outputs": {
    "dist/main.js": {
      "imports": [
        { "path": "dist/chunk1.js", "kind": "import-statement" },
        { "path": "dist/chunk2.js", "kind": "import-statement" }
      ],
      "exports": [],
      "entryPoint": "src/main.ts",
      "cssBundle": "dist/main.css",
      "inputs": { "src/main.ts": { "bytesInOutput": 100 } },
      "bytes": 100
    },
    "dist/main.css": {
      "imports": [
        { "path": "dist/style1.css", "kind": "import-rule" }
      ],
      "entryPoint": "src/style.css",
      "inputs": { "src/style.css": { "bytesInOutput": 60 } },
      "bytes": 60
    }
  }
}"#;

const ESBUILD_CONTENTS_FONTS: &str = r#"{
  "outputs": {
    "static/controller_foo_CTJMZK66.js.map": {
      "imports": [],
      "exports": [],
      "inputs": {},
      "bytes": 2048
    },
    "static/controller_foo_CTJMZK66.js": {
      "imports": [
        { "path": "static/chunk-EMZKCXNJ.js", "kind": "import-statement" },
        { "path": "static/chunk-PI4ZFSEL.js", "kind": "import-statement" }
      ],
      "exports": [],
      "entryPoint": "resources/ts/controller_foo.tsx",
      "cssBundle": "static/controller_foo_CX2Z63ZH.css",
      "inputs": { "resources/ts/controller_foo.tsx": { "bytesInOutput": 512 } },
      "bytes": 512
    },
    "static/controller_foo_CX2Z63ZH.css": {
      "imports": [
        { "path": "https://fonts/font1.woff2", "kind": "url-token", "external": true },
        { "path": "https://fonts/font3.woff2", "kind": "url-token", "external": true },
        { "path": "static/logo_XSTJPNLH.png", "kind": "url-token" }
      ],
      "inputs": { "resources/css/controller_foo.css": { "bytesInOutput": 256 } },
      "bytes": 256
    },
    "static/page-common_DO3RNJ3I.css": {
      "imports": [
        { "path": "https://fonts/font1.woff2", "kind": "url-token", "external": true },
        { "path": "https://fonts/font2.woff2", "kind": "url-token", "external": true },
        { "path": "static/test_6D5OPEBZ.svg", "kind": "url-token" }
      ],
      "entryPoint": "resources/css/page-common.css",
      "cssBundle": null,
      "inputs": { "resources/css/page-common.css": { "bytesInOutput": 128 } },
      "bytes": 128
    },
    "static/test_6D5OPEBZ.svg": {
      "imports": [],
      "inputs": { "resources/images/test.svg": { "bytesInOutput": 96 } },
      "bytes": 96
    }
  }
}"#;

const ESBUILD_CONTENTS_GLB: &str = r#"{
  "outputs": {
    "dist/main.js": {
      "imports": [
        { "path": "dist/chunk-ABC.js", "kind": "import-statement" },
        { "path": "dist/chunk-DEF.js", "kind": "dynamic-import" }
      ],
      "entryPoint": "src/main.ts",
      "inputs": { "src/main.ts": { "bytesInOutput": 10 } }
    },
    "dist/chunk-ABC.js": {
      "imports": [
        { "path": "dist/model_123.glb", "kind": "file-loader" },
        { "path": "dist/chunk-DEF.js", "kind": "import-statement" }
      ],
      "inputs": { "src/scene.ts": { "bytesInOutput": 20 } }
    },
    "dist/chunk-DEF.js": {
      "imports": [
        { "path": "dist/chunk-ABC.js", "kind": "import-statement" }
      ]
    },
    "dist/model_123.glb": {
      "imports": [],
      "inputs": { "resources/media/models/model.glb": { "bytesInOutput": 4096 } }
    }
  }
}"#;

const ESBUILD_CONTENTS_SVG: &str = r#"{
  "outputs": {
    "dist/image_123.svg": {
      "imports": [],
      "inputs": { "resources/images/image.svg": { "bytesInOutput": 300 } }
    }
  }
}"#;

fn get_metafile_basic() -> Arc<EsbuildMetaFile> {
    Arc::new(EsbuildMetaFile::from_str(ESBUILD_CONTENTS_BASIC).unwrap())
}

fn get_metafile_fonts() -> Arc<EsbuildMetaFile> {
    Arc::new(EsbuildMetaFile::from_str(ESBUILD_CONTENTS_FONTS).unwrap())
}

fn get_metafile_glb() -> Arc<EsbuildMetaFile> {
    Arc::new(EsbuildMetaFile::from_str(ESBUILD_CONTENTS_GLB).unwrap())
}

fn get_metafile_svg() -> Arc<EsbuildMetaFile> {
    Arc::new(EsbuildMetaFile::from_str(ESBUILD_CONTENTS_SVG).unwrap())
}

fn import(path: &str) -> Import {
    Import { path: path.to_string() }
}

fn output(imports: &[&str], css_bundle: Option<&str>, entry_point: Option<&str>, inputs: &[&str])
    -> Output {
    Output {
        imports: imports.iter().map(|path| import(path)).collect(),
        css_bundle: css_bundle.map(|path| path.to_string()),
        entry_point: entry_point.map(|path| path.to_string()),
        inputs: inputs.iter().map(|path| (path.to_string(), InputInOutput {})).collect(),
    }
}

fn sorted(mut paths: Vec<String>) -> Vec<String> {
    paths.sort();
    paths
}

fn members(paths: Vec<String>) -> Vec<String> {
    let mut paths = sorted(paths);
    paths.dedup();
    paths
}

#[test]
fn test_get_output_paths() {
    let metafile = get_metafile_basic();
    let outputs = metafile.get_output_paths();

    assert_eq!(outputs.len(), 2);
    assert!(outputs.contains("dist/main.css"));
    assert!(outputs.contains("dist/main.js"));
}

#[test]
fn test_find_outputs_for_css_input() {
    let metafile = get_metafile_fonts();
    let outputs = metafile
        .find_outputs_for_input("resources/css/page-common.css")
        .unwrap();

    assert_eq!(outputs.len(), 2);
    assert!(outputs.contains(&"static/page-common_DO3RNJ3I.css".to_string()));
    assert!(outputs.contains(&"static/test_6D5OPEBZ.svg".to_string()));
}

#[test]
fn test_find_outputs_for_tsx_input() {
    let metafile = get_metafile_fonts();
    let outputs = metafile
        .find_outputs_for_input("resources/ts/controller_foo.tsx")
        .unwrap();

    assert_eq!(outputs.len(), 2);
    assert!(outputs.contains(&"static/controller_foo_CTJMZK66.js".to_string()));
    assert!(outputs.contains(&"static/controller_foo_CX2Z63ZH.css".to_string()));
}

#[test]
fn test_get_preloads_for_js() {
    let metafile = get_metafile_fonts();
    let preloads = metafile.get_preloads("static/controller_foo_CTJMZK66.js");

    assert_eq!(preloads.len(), 5);
    assert!(preloads.contains(&"https://fonts/font1.woff2".to_string()));
    assert!(preloads.contains(&"https://fonts/font3.woff2".to_string()));
    assert!(preloads.contains(&"static/chunk-EMZKCXNJ.js".to_string()));
    assert!(preloads.contains(&"static/chunk-PI4ZFSEL.js".to_string()));
    assert!(preloads.contains(&"static/logo_XSTJPNLH.png".to_string()));
}

#[test]
fn test_get_preloads_for_css() {
    let metafile = get_metafile_fonts();
    let preloads = metafile.get_preloads("static/page-common_DO3RNJ3I.css");

    assert_eq!(preloads.len(), 3);
    assert!(preloads.contains(&"https://fonts/font1.woff2".to_string()));
    assert!(preloads.contains(&"https://fonts/font2.woff2".to_string()));
    assert!(preloads.contains(&"static/test_6D5OPEBZ.svg".to_string()));
}

#[test]
fn test_get_file_path_for_glb() {
    let metafile = get_metafile_glb();
    let outputs = metafile
        .find_static_paths_for_input("resources/media/models/model.glb")
        .unwrap();

    assert_eq!(outputs.len(), 1);
    assert!(outputs.contains(&"dist/model_123.glb".to_string()));

    let preloads = metafile.get_preloads("dist/main.js");

    println!("preloads: {preloads:?}");

    assert_eq!(preloads.len(), 3);
    assert!(preloads.contains(&"dist/chunk-ABC.js".to_string()));
    assert!(preloads.contains(&"dist/chunk-DEF.js".to_string()));
    assert!(preloads.contains(&"dist/model_123.glb".to_string()));
}

#[test]
fn test_get_file_path_for_svg() {
    let metafile = get_metafile_svg();
    let outputs = metafile
        .find_static_paths_for_input("resources/images/image.svg")
        .unwrap();

    assert_eq!(outputs.len(), 1);
    assert!(outputs.contains(&"dist/image_123.svg".to_string()));
}

#[test]
fn lookups_of_unknown_paths_find_nothing() {
    let metafile = get_metafile_fonts();

    assert!(metafile.find_outputs_for_input("resources/ts/missing.tsx").is_none());
    assert!(metafile.find_static_paths_for_input("resources/ts/controller_foo.tsx").is_none());
    assert!(metafile.get_preloads("static/controller_foo_CX2Z63ZH.css").is_empty());
    assert!(metafile.get_preloads("static/nowhere.js").is_empty());
}

#[test]
fn source_maps_are_listed_but_need_not_be_reached() {
    let metafile = get_metafile_fonts();
    let outputs = metafile.get_output_paths();

    assert_eq!(outputs.len(), 5);
    assert!(outputs.contains("static/controller_foo_CTJMZK66.js.map"));
    assert!(metafile.find_static_paths_for_input("static/controller_foo_CTJMZK66.js.map").is_none());
}

#[test]
fn static_outputs_are_listed_under_each_of_their_sources() {
    let metafile = get_metafile_fonts();

    assert_eq!(
        metafile.find_static_paths_for_input("resources/css/controller_foo.css"),
        Some(vec!["static/controller_foo_CX2Z63ZH.css".to_string()])
    );
    assert_eq!(
        metafile.find_static_paths_for_input("resources/images/test.svg"),
        Some(vec!["static/test_6D5OPEBZ.svg".to_string()])
    );
}

#[test]
fn preloads_follow_imports_through_cycles_and_hold_each_path_once() {
    let metafile = get_metafile_glb();
    let preloads = sorted(metafile.get_preloads("dist/main.js"));

    assert_eq!(
        preloads,
        vec![
            "dist/chunk-ABC.js".to_string(),
            "dist/chunk-DEF.js".to_string(),
            "dist/model_123.glb".to_string(),
        ]
    );
}

#[test]
fn outputs_among_the_preloads_are_listed_for_the_entry_point() {
    let metafile = get_metafile_glb();
    let outputs = members(metafile.find_outputs_for_input("src/main.ts").unwrap());

    assert_eq!(
        outputs,
        vec![
            "dist/chunk-ABC.js".to_string(),
            "dist/chunk-DEF.js".to_string(),
            "dist/main.js".to_string(),
            "dist/model_123.glb".to_string(),
        ]
    );
}

#[test]
fn orphaned_output_fails_construction_and_is_named() {
    let contents = r#"{
      "outputs": {
        "dist/main.js": { "imports": [], "entryPoint": "src/main.ts" },
        "dist/orphan.js": { "imports": [] },
        "dist/orphan.js.map": { "imports": [] }
      }
    }"#;

    match create_from_contents(contents) {
        Err(ManifestError::UnprocessedOutputs(paths)) => {
            assert_eq!(paths, vec!["dist/orphan.js".to_string()]);
        },
        other => panic!("expected the orphan to be reported, got {:?}", other.map(|_| ())),
    }
}

#[test]
fn orphan_error_text_names_every_orphan() {
    let error = ManifestError::UnprocessedOutputs(vec![
        "dist/a.js".to_string(),
        "dist/b.js".to_string(),
    ]);

    assert_eq!(error.to_string(), "Some outputs were not processed: dist/a.js, dist/b.js");
}

#[test]
fn missing_css_bundle_fails_construction() {
    let contents = r#"{
      "outputs": {
        "dist/main.js": {
          "imports": [],
          "entryPoint": "src/main.ts",
          "cssBundle": "dist/main.css"
        }
      }
    }"#;

    match create_from_contents(contents) {
        Err(ManifestError::CssBundleNotFound(bundle)) => {
            assert_eq!(bundle, "dist/main.css");
            assert_eq!(
                ManifestError::CssBundleNotFound(bundle).to_string(),
                "CSS bundle not found: dist/main.css"
            );
        },
        other => panic!("expected the bundle to be reported, got {:?}", other.map(|_| ())),
    }
}

#[test]
fn malformed_json_is_a_parse_error() {
    match create_from_contents("{ \"outputs\": ") {
        Err(ManifestError::InvalidJson(reason)) => {
            assert!(!reason.is_empty());
            let text = ManifestError::InvalidJson(reason.clone()).to_string();
            assert_eq!(text, format!("Manifest is not valid JSON: {reason}"));
        },
        other => panic!("expected a parse error, got {:?}", other.map(|_| ())),
    }
}

#[test]
fn json_of_another_shape_is_turned_down() {
    let shapes = [
        "[]",
        "{}",
        r#"{ "outputs": [] }"#,
        r#"{ "outputs": { "dist/a.js": {} } }"#,
        r#"{ "outputs": { "dist/a.js": { "imports": {} } } }"#,
        r#"{ "outputs": { "dist/a.js": { "imports": [ {} ] } } }"#,
        r#"{ "outputs": { "dist/a.js": { "imports": [ { "path": 1 } ] } } }"#,
        r#"{ "outputs": { "dist/a.js": { "imports": [], "entryPoint": 1 } } }"#,
        r#"{ "outputs": { "dist/a.js": { "imports": [], "cssBundle": [] } } }"#,
        r#"{ "outputs": { "dist/a.js": { "imports": [], "inputs": null } } }"#,
        r#"{ "outputs": { "dist/a.js": { "imports": [], "inputs": { "a.ts": 1 } } } }"#,
    ];

    for shape in shapes {
        match create_from_contents(shape) {
            Err(ManifestError::UnexpectedShape) => {},
            other => panic!("expected {shape} to be turned down, got {:?}", other.map(|_| ())),
        }
    }
    assert_eq!(
        ManifestError::UnexpectedShape.to_string(),
        "Manifest does not have the expected shape"
    );
}

#[test]
fn empty_manifest_gives_an_empty_index() {
    let metafile = create_from_contents(r#"{ "outputs": {} }"#).unwrap();

    assert_eq!(metafile.get_output_paths().len(), 0);
    assert!(metafile.find_outputs_for_input("src/main.ts").is_none());
}

#[test]
fn index_is_built_from_a_manifest_made_by_hand() {
    let mut manifest = Manifest::new();
    manifest.insert(
        "dist/app.js".to_string(),
        output(&["dist/shared.js", "https://cdn/lib.js"], Some("dist/app.css"), Some("src/app.ts"), &[]),
    );
    manifest.insert("dist/app.css".to_string(), output(&["dist/logo.png"], None, None, &[]));
    manifest.insert("dist/shared.js".to_string(), output(&["dist/app.js"], None, None, &[]));
    manifest.insert("dist/logo.png".to_string(), output(&[], None, None, &["src/logo.png"]));
    assert_eq!(manifest.len(), 4);
    assert_eq!(manifest.path_at(1), "dist/app.css");
    assert!(manifest.get("dist/shared.js").is_some());
    assert!(manifest.get("dist/other.js").is_none());

    let metafile = EsbuildMetaFile::from_manifest(&manifest).unwrap();

    assert_eq!(
        members(metafile.find_outputs_for_input("src/app.ts").unwrap()),
        vec![
            "dist/app.css".to_string(),
            "dist/app.js".to_string(),
            "dist/logo.png".to_string(),
            "dist/shared.js".to_string(),
        ]
    );
    assert_eq!(
        sorted(metafile.get_preloads("dist/app.js")),
        vec![
            "dist/app.js".to_string(),
            "dist/logo.png".to_string(),
            "dist/shared.js".to_string(),
            "https://cdn/lib.js".to_string(),
        ]
    );
    assert_eq!(
        metafile.find_static_paths_for_input("src/logo.png"),
        Some(vec!["dist/logo.png".to_string()])
    );
}

#[test]
fn later_record_takes_the_place_of_an_earlier_one() {
    let mut manifest = Manifest::new();
    manifest.insert("dist/a.js".to_string(), output(&[], None, Some("src/old.ts"), &[]));
    manifest.insert("dist/a.js".to_string(), output(&[], None, Some("src/new.ts"), &[]));
    assert_eq!(manifest.len(), 1);
    assert_eq!(manifest.output_at(0).entry_point, Some("src/new.ts".to_string()));

    let metafile = EsbuildMetaFile::from_manifest(&manifest).unwrap();

    assert!(metafile.find_outputs_for_input("src/old.ts").is_none());
    assert_eq!(
        metafile.find_outputs_for_input("src/new.ts"),
        Some(vec!["dist/a.js".to_string()])
    );
}

#[test]
fn static_output_without_sources_must_be_imported() {
    let mut manifest = Manifest::new();
    manifest.insert("dist/a.js".to_string(), output(&[], None, Some("src/a.ts"), &[]));
    manifest.insert("dist/data.bin".to_string(), output(&[], None, None, &[]));

    match EsbuildMetaFile::from_manifest(&manifest) {
        Err(ManifestError::UnprocessedOutputs(paths)) => {
            assert_eq!(paths, vec!["dist/data.bin".to_string()]);
        },
        other => panic!("expected an orphan, got {:?}", other.map(|_| ())),
    }
}

#[test]
fn outputs_of_an_entry_point_are_listed_once_and_in_order() {
    let contents = r#"{
      "outputs": {
        "dist/a.js": { "imports": [], "entryPoint": "src/a.ts" },
        "dist/a.js.map": { "imports": [] }
      }
    }"#;
    let metafile = create_from_contents(contents).unwrap();

    assert_eq!(
        metafile.find_outputs_for_input("src/a.ts"),
        Some(vec!["dist/a.js".to_string()])
    );

    let fonts = get_metafile_fonts();

    assert_eq!(
        fonts.find_outputs_for_input("resources/ts/controller_foo.tsx"),
        Some(vec![
            "static/controller_foo_CTJMZK66.js".to_string(),
            "static/controller_foo_CX2Z63ZH.css".to_string(),
        ])
    );
    assert_eq!(
        fonts.find_outputs_for_input("resources/css/page-common.css"),
        Some(vec![
            "static/page-common_DO3RNJ3I.css".to_string(),
            "static/test_6D5OPEBZ.svg".to_string(),
        ])
    );
}

#[test]
fn outputs_of_one_entry_point_follow_the_order_of_the_manifest() {
    let mut manifest = Manifest::new();
    manifest.insert(
        "dist/late.js".to_string(),
        output(&["dist/part.js", "https://cdn/lib.js"], Some("dist/late.css"), Some("src/app.ts"), &[]),
    );
    manifest.insert("dist/late.css".to_string(), output(&[], None, None, &["src/app.css"]));
    manifest.insert("dist/part.js".to_string(), output(&[], None, None, &[]));
    manifest.insert("dist/early.js".to_string(), output(&[], None, Some("src/app.ts"), &[]));

    let metafile = EsbuildMetaFile::from_manifest(&manifest).unwrap();

    assert_eq!(
        metafile.find_outputs_for_input("src/app.ts"),
        Some(vec![
            "dist/late.js".to_string(),
            "dist/late.css".to_string(),
            "dist/part.js".to_string(),
            "dist/early.js".to_string(),
        ])
    );
}

#[test]
fn static_output_is_listed_as_often_as_its_source_is_named() {
    let mut manifest = Manifest::new();
    manifest.insert("dist/one.png".to_string(), output(&[], None, None, &["src/a.png"]));
    manifest.insert(
        "dist/two.png".to_string(),
        output(&[], None, None, &["src/a.png", "src/b.png", "src/a.png"]),
    );

    let metafile = EsbuildMetaFile::from_manifest(&manifest).unwrap();

    assert_eq!(
        metafile.find_static_paths_for_input("src/a.png"),
        Some(vec![
            "dist/one.png".to_string(),
            "dist/two.png".to_string(),
            "dist/two.png".to_string(),
        ])
    );
    assert_eq!(
        metafile.find_static_paths_for_input("src/b.png"),
        Some(vec!["dist/two.png".to_string()])
    );
    assert_eq!(
        get_metafile_svg().find_static_paths_for_input("resources/images/image.svg"),
        Some(vec!["dist/image_123.svg".to_string()])
    );
}

#[test]
fn orphans_are_reported_in_the_order_of_the_manifest() {
    let mut manifest = Manifest::new();
    manifest.insert("dist/z.bin".to_string(), output(&[], None, None, &[]));
    manifest.insert("dist/main.js".to_string(), output(&[], None, Some("src/main.ts"), &[]));
    manifest.insert("dist/z.bin.map".to_string(), output(&[], None, None, &[]));
    manifest.insert("dist/a.bin".to_string(), output(&[], None, None, &[]));

    match EsbuildMetaFile::from_manifest(&manifest) {
        Err(ManifestError::UnprocessedOutputs(paths)) => {
            assert_eq!(paths, vec!["dist/z.bin".to_string(), "dist/a.bin".to_string()]);
        },
        other => panic!("expected two orphans, got {:?}", other.map(|_| ())),
    }
}

#[test]
fn first_missing_css_bundle_is_the_one_reported() {
    let mut manifest = Manifest::new();
    manifest.insert(
        "dist/fine.js".to_string(),
        output(&[], Some("dist/fine.css"), Some("src/fine.ts"), &[]),
    );
    manifest.insert("dist/fine.css".to_string(), output(&[], None, None, &[]));
    manifest.insert(
        "dist/second.js".to_string(),
        output(&[], Some("dist/second.css"), Some("src/second.ts"), &[]),
    );
    manifest.insert(
        "dist/first.js".to_string(),
        output(&[], Some("dist/first.css"), Some("src/first.ts"), &[]),
    );
    manifest.insert("dist/orphan.bin".to_string(), output(&[], None, None, &[]));

    match EsbuildMetaFile::from_manifest(&manifest) {
        Err(ManifestError::CssBundleNotFound(bundle)) => assert_eq!(bundle, "dist/second.css"),
        other => panic!("expected a missing bundle, got {:?}", other.map(|_| ())),
    }
}
