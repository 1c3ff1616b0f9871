use cube_editor::paths::{
    apply_extension, asset_folder_candidate_name, copy_candidate_name, display_name, file_extension, file_stem,
    split_name, unique_asset_folder, unique_path, ContentPath,
};
use cube_editor::text::{sanitize_project_stem, sanitize_shader_stem};

fn p(text: &str) -> ContentPath {
    ContentPath::parse(text)
}

#[test]
fn project_stem_keeps_letters_and_digits() {
    assert_eq!(sanitize_project_stem("My Cool Game 2"), "My_Cool_Game_2");
    assert_eq!(sanitize_project_stem("--hello--world--"), "hello_world");
    assert_eq!(sanitize_project_stem("Ünïcode Name"), "n_code_Name");
}

#[test]
fn project_stem_falls_back_to_project() {
    assert_eq!(sanitize_project_stem(""), "project");
    assert_eq!(sanitize_project_stem("!!! ???"), "project");
}

#[test]
fn project_stem_is_always_a_safe_file_stem() {
    for name in ["", "a", "__", "x y z", "Hello, World!", "_lead", "trail_", "日本語"] {
        let stem = sanitize_project_stem(name);
        assert!(!stem.is_empty());
        assert!(stem.chars().all(|c| c.is_ascii_alphanumeric() || c == '_'));
        assert!(!stem.starts_with('_') && !stem.ends_with('_'));
    }
}

#[test]
fn shader_stem_is_lower_case_and_may_be_empty() {
    assert_eq!(sanitize_shader_stem("Water Surface"), "water_surface");
    assert_eq!(sanitize_shader_stem("Mat-01.wgsl"), "mat_01_wgsl");
    assert_eq!(sanitize_shader_stem("***"), "");
}

#[test]
fn extension_is_applied_when_present() {
    assert_eq!(apply_extension("scene", Some("json")), "scene.json");
    assert_eq!(apply_extension("scene", Some("")), "scene");
    assert_eq!(apply_extension("scene", None), "scene");
}

#[test]
fn stems_and_extensions_follow_path_rules() {
    assert_eq!(file_stem("archive.tar.gz"), "archive.tar");
    assert_eq!(file_extension("archive.tar.gz"), Some("gz".to_string()));
    assert_eq!(file_stem(".hidden"), ".hidden");
    assert_eq!(file_extension(".hidden"), None);
    assert_eq!(file_stem("noext"), "noext");
    assert_eq!(file_extension("noext"), None);
    assert_eq!(file_stem(".."), "..");
    assert_eq!(file_extension(".."), None);
}

#[test]
fn split_name_gives_stem_and_extension() {
    assert_eq!(split_name(&p("assets/tree.glb")), ("tree".to_string(), Some("glb".to_string())));
    assert_eq!(split_name(&p("assets/folder")), ("folder".to_string(), None));
    assert_eq!(split_name(&p("..")), ("item".to_string(), None));
    assert_eq!(split_name(&p("")), ("item".to_string(), None));
}

#[test]
fn display_name_uses_file_name() {
    assert_eq!(display_name(&p("a/b/c.txt")), "c.txt");
    assert_eq!(display_name(&p("a/..")), "<item>");
    assert_eq!(display_name(&p("/")), "<item>");
}

#[test]
fn copy_candidates_are_numbered_from_two() {
    assert_eq!(copy_candidate_name("tree copy", Some("glb"), 1), "tree copy.glb");
    assert_eq!(copy_candidate_name("tree copy", Some("glb"), 2), "tree copy 2.glb");
    assert_eq!(copy_candidate_name("tree copy", None, 13), "tree copy 13");
}

#[test]
fn asset_folder_candidates_are_zero_padded() {
    assert_eq!(asset_folder_candidate_name("tree", 0), "tree");
    assert_eq!(asset_folder_candidate_name("tree", 1), "tree_01");
    assert_eq!(asset_folder_candidate_name("tree", 12), "tree_12");
    assert_eq!(asset_folder_candidate_name("tree", 123), "tree_123");
}

#[test]
fn unique_path_takes_first_free_candidate() {
    let parent = p("/definitely/not/present/folder_xyz");
    let found = unique_path(&parent, "tree copy", Some("glb")).expect("a free name");
    assert_eq!(found.display(), "/definitely/not/present/folder_xyz/tree copy.glb");
}

#[test]
fn unique_asset_folder_uses_base_or_asset() {
    let root = p("/definitely/not/present/root_xyz");
    let named = unique_asset_folder(&root, "tree").expect("a free folder");
    assert_eq!(named.display(), "/definitely/not/present/root_xyz/tree");
    let unnamed = unique_asset_folder(&root, "").expect("a free folder");
    assert_eq!(unnamed.display(), "/definitely/not/present/root_xyz/asset");
}
