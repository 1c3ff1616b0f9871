use cube_editor::import::{
    external_uris, gltf_dependencies, image_sources_unreadable, positions_out_of_bounds, ImageReference,
    check_import_source, classify_reference, collect_gltf_dependencies, dependency_set, gltf_header_is_sound,
    import_request_check,
    imported_entity_name, imported_file_destination, plan_dependency, plan_dependency_copy, project_relative_path,
    safe_join, source_folder, DependencyStep, ImportAssetError,
};
use cube_editor::paths::ContentPath;

fn p(text: &str) -> ContentPath {
    ContentPath::parse(text)
}

const SAMPLE_GLTF: &str = r#"{
  "asset": { "version": "2.0" },
  "buffers": [
    { "byteLength": 4, "uri": "mesh.bin" },
    { "byteLength": 4, "uri": " data:application/octet-stream;base64,AAAAAA==" },
    { "byteLength": 4, "uri": "  mesh.bin  " }
  ],
  "images": [
    { "uri": "textures/wood.png" },
    { "uri": "textures/bark.png" }
  ]
}"#;

#[test]
fn dependencies_are_a_sorted_set_without_inline_data() {
    let deps = collect_gltf_dependencies(SAMPLE_GLTF.as_bytes(), &p("/src/tree.gltf")).expect("valid glTF");
    assert_eq!(deps, vec!["mesh.bin", "textures/bark.png", "textures/wood.png"]);
}

#[test]
fn unreadable_gltf_is_a_parse_error() {
    let err = collect_gltf_dependencies(b"not json at all", &p("/src/tree.gltf")).unwrap_err();
    match err {
        ImportAssetError::Parse { path, .. } => assert_eq!(path.display(), "/src/tree.gltf"),
        _ => panic!("expected a parse error"),
    }
}

#[test]
fn glb_header_with_short_length_is_refused_up_front() {
    let mut bad = b"glTF".to_vec();
    bad.extend_from_slice(&2u32.to_le_bytes());
    bad.extend_from_slice(&5u32.to_le_bytes());
    assert!(!gltf_header_is_sound(&bad));
    let mut good = b"glTF".to_vec();
    good.extend_from_slice(&2u32.to_le_bytes());
    good.extend_from_slice(&12u32.to_le_bytes());
    assert!(gltf_header_is_sound(&good));
    assert!(gltf_header_is_sound(b"glT"));
    assert!(gltf_header_is_sound(SAMPLE_GLTF.as_bytes()));
}

#[test]
fn safe_join_stays_below_base() {
    let base = p("/project/content/tree");
    assert_eq!(safe_join(&base, &p("a/b/../c.png"), "a/b/../c.png").unwrap().display(), "/project/content/tree/a/c.png");
    assert_eq!(safe_join(&base, &p("./x.bin"), "./x.bin").unwrap().display(), "/project/content/tree/x.bin");
    match safe_join(&base, &p("../escape.bin"), "../escape.bin") {
        Err(ImportAssetError::DependencyEscapes { uri }) => assert_eq!(uri, "../escape.bin"),
        _ => panic!("expected an escape"),
    }
    match safe_join(&base, &p("a/../../b"), "a/../../b") {
        Err(ImportAssetError::DependencyEscapes { uri }) => assert_eq!(uri, "a/../../b"),
        _ => panic!("expected an escape"),
    }
    match safe_join(&base, &p("/abs.bin"), "/abs.bin") {
        Err(ImportAssetError::DependencyEscapes { uri }) => assert_eq!(uri, "/abs.bin"),
        _ => panic!("expected an escape"),
    }
}

#[test]
fn references_are_classified() {
    match classify_reference("bad%zz", None) {
        Err(ImportAssetError::MalformedUri { uri }) => assert_eq!(uri, "bad%zz"),
        _ => panic!("expected malformed"),
    }
    match classify_reference("http://x/y.png", Some("http://x/y.png".to_string())) {
        Err(ImportAssetError::UnsupportedReference { uri }) => assert_eq!(uri, "http://x/y.png"),
        _ => panic!("expected unsupported"),
    }
    match classify_reference("//server/y.png", Some("//server/y.png".to_string())) {
        Err(ImportAssetError::UnsupportedReference { .. }) => {}
        _ => panic!("expected unsupported"),
    }
    match classify_reference("/abs/y.png", Some("/abs/y.png".to_string())) {
        Err(ImportAssetError::UnsupportedReference { .. }) => {}
        _ => panic!("expected unsupported"),
    }
    assert!(matches!(classify_reference("data:x", Some("data:x".to_string())), Ok(None)));
    match classify_reference("tex%20a.png", Some("tex a.png".to_string())) {
        Ok(Some(rel)) => assert_eq!(rel.display(), "tex a.png"),
        _ => panic!("expected a relative file"),
    }
}

#[test]
fn dependency_copy_needs_source_and_safe_destination() {
    let folder = p("/project/content/tree");
    match plan_dependency_copy("t.png", p("/src/t.png"), &p("t.png"), &folder, false) {
        Err(ImportAssetError::MissingDependency { uri, resolved }) => {
            assert_eq!(uri, "t.png");
            assert_eq!(resolved.display(), "/src/t.png");
        }
        _ => panic!("expected missing dependency"),
    }
    match plan_dependency_copy("t.png", p("/src/t.png"), &p("sub/t.png"), &folder, true) {
        Ok(DependencyStep::Copy { source, destination }) => {
            assert_eq!(source.display(), "/src/t.png");
            assert_eq!(destination.display(), "/project/content/tree/sub/t.png");
        }
        _ => panic!("expected a copy"),
    }
    match plan_dependency_copy("../t.png", p("/t.png"), &p("../t.png"), &folder, true) {
        Err(ImportAssetError::DependencyEscapes { uri }) => assert_eq!(uri, "../t.png"),
        _ => panic!("expected an escape"),
    }
}

#[test]
fn dependency_plan_reads_the_file_system() {
    let asset = p("/definitely/missing/src/tree.gltf");
    let folder = p("/project/content/tree");
    assert!(matches!(plan_dependency("data:x", Some("data:x".to_string()), &asset, &folder), Ok(DependencyStep::Skip)));
    match plan_dependency("mesh.bin", Some("mesh.bin".to_string()), &asset, &folder) {
        Err(ImportAssetError::MissingDependency { resolved, .. }) => {
            assert_eq!(resolved.display(), "/definitely/missing/src/mesh.bin")
        }
        _ => panic!("expected missing dependency"),
    }
    assert_eq!(source_folder(&p("tree.gltf")).parts.len(), 0);
}

#[test]
fn import_requests_are_checked_in_order() {
    let root = p("/project/content");
    let inside = p("/project/content/models");
    let outside = p("/elsewhere");
    match import_request_check(&root, &outside, &p("/src/a.gltf"), true) {
        Err(ImportAssetError::DestinationOutside { destination }) => assert_eq!(destination.display(), "/elsewhere"),
        _ => panic!("expected outside"),
    }
    match import_request_check(&root, &inside, &p("/src/a.gltf"), false) {
        Err(ImportAssetError::MissingSource { path }) => assert_eq!(path.display(), "/src/a.gltf"),
        _ => panic!("expected missing source"),
    }
    match import_request_check(&root, &inside, &p("/src/a.fbx"), true) {
        Err(ImportAssetError::UnsupportedExtension { path }) => assert_eq!(path.display(), "/src/a.fbx"),
        _ => panic!("expected unsupported extension"),
    }
    assert_eq!(import_request_check(&root, &inside, &p("/src/Tree.GLB"), true).ok(), Some("Tree".to_string()));
    assert_eq!(import_request_check(&root, &inside, &p("/src/.gltf"), true).ok(), None);
    assert_eq!(import_request_check(&root, &inside, &p("/src/x.Gltf"), true).ok(), Some("x".to_string()));
    match check_import_source(&root, &inside, &p("/definitely/missing/a.gltf")) {
        Err(ImportAssetError::MissingSource { .. }) => {}
        _ => panic!("expected missing source"),
    }
}

#[test]
fn imported_file_lands_in_the_asset_folder() {
    let folder = p("/project/content/models/tree");
    let dest = imported_file_destination(&folder, &p("/src/tree.gltf")).unwrap();
    assert_eq!(dest.display(), "/project/content/models/tree/tree.gltf");
    assert!(matches!(
        imported_file_destination(&folder, &p("/")),
        Err(ImportAssetError::UnsupportedExtension { .. })
    ));
    let rel = project_relative_path(&dest, &p("/project")).unwrap();
    assert_eq!(rel.display(), "content/models/tree/tree.gltf");
    match project_relative_path(&dest, &p("/other")) {
        Err(ImportAssetError::DestinationOutside { destination }) => {
            assert_eq!(destination.display(), "/project/content/models/tree/tree.gltf")
        }
        _ => panic!("expected outside"),
    }
}

#[test]
fn imported_entities_are_named_after_the_file() {
    assert_eq!(imported_entity_name(&p("/c/tree.gltf")), "tree (glTF)");
    assert_eq!(imported_entity_name(&p("/")), "Imported glTF (glTF)");
}

#[test]
fn dependency_set_trims_sorts_and_skips_inline_data() {
    let uris = vec![
        " textures/b.png ".to_string(),
        "data:application/octet-stream;base64,AAAA".to_string(),
        "a.bin".to_string(),
        "textures/b.png".to_string(),
        "  data:image/png;base64,BBBB".to_string(),
    ];
    assert_eq!(dependency_set(&uris), vec!["a.bin".to_string(), "textures/b.png".to_string()]);
    assert!(dependency_set(&vec![]).is_empty());
}

#[test]
fn images_in_a_buffer_view_are_not_references() {
    let doc = r#"{"asset":{"version":"2.0"},
        "buffers":[{"byteLength":4,"uri":"data.bin"}],
        "bufferViews":[{"buffer":0,"byteLength":4}],
        "images":[{"bufferView":0,"mimeType":"image/png"},{"uri":"tex.png"}]}"#;
    assert_eq!(
        collect_gltf_dependencies(doc.as_bytes(), &p("/src/a.gltf")).expect("valid glTF"),
        vec!["data.bin".to_string(), "tex.png".to_string()]
    );
    let checked = gltf_dependencies(doc.as_bytes(), &p("/src/a.gltf")).expect("gltf reads it");
    assert_eq!(checked.expect("valid glTF"), vec!["data.bin".to_string(), "tex.png".to_string()]);
}

#[test]
fn documents_gltf_cannot_read_are_caught_first() {
    let position_past_last = r#"{"asset":{"version":"2.0"},"meshes":[{"primitives":[{"attributes":{"POSITION":0}}]}]}"#;
    assert!(gltf_dependencies(position_past_last.as_bytes(), &p("/src/a.gltf")).is_none());
    let image_without_source = r#"{"asset":{"version":"2.0"},"images":[{}]}"#;
    assert!(gltf_dependencies(image_without_source.as_bytes(), &p("/src/a.gltf")).is_none());
    let view_without_mime = r#"{"asset":{"version":"2.0"},
        "buffers":[{"byteLength":4}],
        "bufferViews":[{"buffer":0,"byteLength":4}],
        "images":[{"bufferView":0}]}"#;
    assert!(gltf_dependencies(view_without_mime.as_bytes(), &p("/src/a.gltf")).is_none());
    let mut short_glb = b"glTF".to_vec();
    short_glb.extend_from_slice(&[2, 0, 0, 0, 4, 0, 0, 0]);
    assert!(gltf_dependencies(&short_glb, &p("/src/a.glb")).is_none());
    match gltf_dependencies(b"not json at all", &p("/src/a.gltf")) {
        Some(Err(ImportAssetError::Parse { path, .. })) => assert_eq!(path.display(), "/src/a.gltf"),
        _ => panic!("expected a parse error"),
    }
}

#[test]
fn external_uris_take_buffers_then_images_outside_buffer_views() {
    let buffers = vec![Some("mesh.bin".to_string()), None, Some("more.bin".to_string())];
    let images = vec![
        ImageReference { uri: Some("in_view.png".to_string()), in_buffer_view: true, has_mime_type: true },
        ImageReference { uri: None, in_buffer_view: false, has_mime_type: false },
        ImageReference { uri: Some("tex.png".to_string()), in_buffer_view: false, has_mime_type: false },
    ];
    assert_eq!(external_uris(&buffers, &images), vec!["mesh.bin", "more.bin", "tex.png"]);
    assert!(external_uris(&Vec::new(), &Vec::new()).is_empty());
}

#[test]
fn unreadable_layouts_are_recognised() {
    assert!(!positions_out_of_bounds(2, &vec![vec![Some(0), None], vec![Some(1)]]));
    assert!(positions_out_of_bounds(2, &vec![vec![Some(0)], vec![None, Some(2)]]));
    assert!(!positions_out_of_bounds(0, &vec![vec![None]]));
    let fine = vec![
        ImageReference { uri: None, in_buffer_view: true, has_mime_type: true },
        ImageReference { uri: Some("a.png".to_string()), in_buffer_view: false, has_mime_type: false },
    ];
    assert!(!image_sources_unreadable(&fine));
    let no_mime = vec![ImageReference { uri: None, in_buffer_view: true, has_mime_type: false }];
    assert!(image_sources_unreadable(&no_mime));
    let no_uri = vec![ImageReference { uri: None, in_buffer_view: false, has_mime_type: true }];
    assert!(image_sources_unreadable(&no_uri));
}
