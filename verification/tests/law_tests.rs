use cube_editor::history::{EditorHistory, HistorySelection, DEFAULT_HISTORY_CAPACITY};
use cube_editor::import::safe_join;
use cube_editor::listing::sort_paths;
use cube_editor::paths::{
    apply_extension, exists_on_disk, first_free_asset_folder, first_free_copy, split_name, unique_asset_folder,
    unique_path, ContentPath,
};
use cube_editor::plugins::{canonicalize_on_disk, PluginMetadata, UiPluginManager};
use cube_editor::shaders::{first_free_shader_file, new_shader_path};
use cube_editor::text::sanitize_project_stem;

fn p(text: &str) -> ContentPath {
    ContentPath::parse(text)
}

fn taken_among(names: &[&str]) -> impl Fn(&ContentPath) -> bool {
    let names: Vec<String> = names.iter().map(|n| n.to_string()).collect();
    move |q: &ContentPath| names.iter().any(|n| q.display() == *n)
}

fn meta(name: &str, script: &str) -> PluginMetadata {
    PluginMetadata {
        name: name.to_string(),
        script: script.to_string(),
        description: String::new(),
        category: "Tools".to_string(),
        enabled: true,
        default_visible: true,
    }
}

#[test]
fn copy_name_tries_the_bare_name_first() {
    let parent = p("/d");
    let free = first_free_copy(&parent, "a copy", Some("txt"), taken_among(&[])).unwrap();
    assert_eq!(free.display(), "/d/a copy.txt");
    let next = first_free_copy(&parent, "a copy", Some("txt"), taken_among(&["/d/a copy.txt"])).unwrap();
    assert_eq!(next.display(), "/d/a copy 2.txt");
    let third = first_free_copy(&parent, "a", None, taken_among(&["/d/a", "/d/a 2"])).unwrap();
    assert_eq!(third.display(), "/d/a 3");
}

#[test]
fn asset_folder_is_the_first_free_candidate() {
    let root = p("/d");
    let folder = first_free_asset_folder(&root, "model", taken_among(&["/d/model", "/d/model_01"])).unwrap();
    assert_eq!(folder.display(), "/d/model_02");
    let blank = first_free_asset_folder(&root, "", taken_among(&[])).unwrap();
    assert_eq!(blank.display(), "/d/asset");
}

#[test]
fn shader_file_is_the_first_free_candidate() {
    let folder = p("/c/shaders");
    let file = first_free_shader_file(&folder, "metal", taken_among(&["/c/shaders/metal.wgsl"])).unwrap();
    assert_eq!(file.display(), "/c/shaders/metal_01.wgsl");
    let first = first_free_shader_file(&folder, "metal", taken_among(&[])).unwrap();
    assert_eq!(first.display(), "/c/shaders/metal.wgsl");
}

#[test]
fn disk_backed_searches_start_with_the_bare_name() {
    let missing = p("/definitely/missing/folder");
    assert!(!exists_on_disk(&missing));
    assert_eq!(unique_path(&missing, "a copy", Some("txt")).unwrap().display(), "/definitely/missing/folder/a copy.txt");
    assert_eq!(unique_asset_folder(&missing, "tree").unwrap().display(), "/definitely/missing/folder/tree");
    assert_eq!(new_shader_path(&missing, "  ", 4).unwrap().display(), "/definitely/missing/folder/shaders/material_4.wgsl");
    assert!(canonicalize_on_disk(&missing).is_none());
}

#[test]
fn canonical_lookup_takes_the_first_plugin_with_the_same_canonical_path() {
    let mut m = UiPluginManager::new(p("/base"));
    m.register_plugin(meta("First", "tools/../a.rn"), 3);
    m.register_plugin(meta("Second", "a.rn"), 5);
    m.register_plugin(meta("Other", "b.rn"), 8);
    let same = |q: &ContentPath| -> Option<ContentPath> { Some(q.clone()) };
    let found = m.find_entity_by_canonical(&p("/base/a.rn"), same).unwrap();
    assert_eq!(found.0, 5);
    assert_eq!(found.1.name, "Second");
    let collapse = |q: &ContentPath| -> Option<ContentPath> { Some(p(&q.display().replace("tools/../", ""))) };
    assert_eq!(m.find_entity_by_canonical(&p("/base/a.rn"), collapse).unwrap().0, 3);
    let failing = |_: &ContentPath| -> Option<ContentPath> { None };
    assert!(m.find_entity_by_canonical(&p("/base/a.rn"), failing).is_none());
    let script_fails = |q: &ContentPath| -> Option<ContentPath> {
        if q.display() == "/base/b.rn" {
            None
        } else if q.display() == "/base/link.rn" {
            Some(p("/base/b.rn"))
        } else {
            Some(q.clone())
        }
    };
    assert!(m.find_entity_by_canonical(&p("/base/link.rn"), script_fails).is_none());
}

#[test]
fn undo_stack_keeps_the_newest_entries() {
    let mut h: EditorHistory<u32> = EditorHistory::new();
    h.initialize(0, Some(0), None);
    let n: u32 = 70;
    for i in 1..=n {
        h.record_change(i, Some(i as u128), None);
    }
    let mut handed = Vec::new();
    for k in 1..=DEFAULT_HISTORY_CAPACITY as u32 {
        let answer = h.undo(|s| {
            handed.push(s);
            s
        });
        assert_eq!(answer, Some(HistorySelection { selected: Some((n - k) as u128), highlighted: None }));
    }
    assert_eq!(handed.len(), DEFAULT_HISTORY_CAPACITY);
    assert_eq!(*handed.last().unwrap(), n - DEFAULT_HISTORY_CAPACITY as u32);
    assert_eq!(h.undo(|s| s), None);
}

#[test]
fn project_stem_is_stable_and_keeps_letters_in_order() {
    let once = sanitize_project_stem("  My -- Cool!!Game 2 ");
    assert_eq!(once, "My_Cool_Game_2");
    assert!(!once.contains("__"));
    assert_eq!(sanitize_project_stem(&once), once);
    assert_eq!(sanitize_project_stem("!!!"), "project");
    assert_eq!(sanitize_project_stem("project"), "project");
}

#[test]
fn split_name_and_extension_round_trip() {
    let (base, ext) = split_name(&p("/x/report.tar.gz"));
    assert_eq!((base.as_str(), ext.as_deref()), ("report.tar", Some("gz")));
    assert_eq!(apply_extension(&base, ext.as_deref()), "report.tar.gz");
    let (hidden, none) = split_name(&p("/x/.hidden"));
    assert_eq!((hidden.as_str(), none.as_deref()), (".hidden", None));
    assert_eq!(apply_extension(&hidden, None), ".hidden");
    assert_eq!(apply_extension("b", Some("")), "b");
}

#[test]
fn sort_keeps_equal_names_in_their_order() {
    let mut v = vec![p("/x/b.txt"), p("/y/A.txt"), p("/z/a.png"), p("/w/a.TXT")];
    sort_paths(&mut v);
    let shown: Vec<String> = v.iter().map(|q| q.display()).collect();
    assert_eq!(shown, vec!["/z/a.png", "/y/A.txt", "/w/a.TXT", "/x/b.txt"]);
}

#[test]
fn current_name_in_a_built_path_stays_in_place() {
    let base = p("/project/content/tree");
    let rel = ContentPath { rooted: false, parts: vec![".".to_string(), "x.bin".to_string()] };
    assert_eq!(safe_join(&base, &rel, "./x.bin").unwrap().display(), "/project/content/tree/x.bin");
    let up = ContentPath { rooted: false, parts: vec![".".to_string(), "..".to_string()] };
    assert!(safe_join(&base, &up, "./..").is_err());
}
