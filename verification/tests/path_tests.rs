use cube_editor::listing::{directory_contents, entry_key, list_available_scripts, sort_paths, FolderEntry};
use cube_editor::path_order::{insert_path_sorted, path_precedes};
use cube_editor::paths::ContentPath;
use cube_editor::scripts::script_search_paths;

fn p(text: &str) -> ContentPath {
    ContentPath::parse(text)
}

fn shown(paths: &[ContentPath]) -> Vec<String> {
    paths.iter().map(|q| q.display()).collect()
}

#[test]
fn parse_drops_empty_and_current_names() {
    let q = p("a//./b/");
    assert!(!q.rooted);
    assert_eq!(q.parts, vec!["a".to_string(), "b".to_string()]);
    let r = p("/x/../y");
    assert!(r.rooted);
    assert_eq!(r.parts, vec!["x".to_string(), "..".to_string(), "y".to_string()]);
    assert_eq!(r.display(), "/x/../y");
}

#[test]
fn join_replaces_with_rooted_path() {
    assert_eq!(p("base/dir").join(&p("sub/file.txt")).display(), "base/dir/sub/file.txt");
    assert_eq!(p("base/dir").join(&p("/abs/file.txt")).display(), "/abs/file.txt");
    assert_eq!(p("base").join_name("x").display(), "base/x");
}

#[test]
fn prefixes_are_component_wise() {
    assert!(p("/a/b/c").starts_with(&p("/a/b")));
    assert!(!p("/a/bc").starts_with(&p("/a/b")));
    assert!(!p("a/b").starts_with(&p("/a")));
    assert_eq!(p("/a/b/c").strip_prefix(&p("/a")).map(|q| q.display()), Some("b/c".to_string()));
    assert_eq!(p("/a/b").strip_prefix(&p("/c")).map(|q| q.display()), None);
    assert_eq!(p("/a/b").strip_prefix(&p("/a/b")).map(|q| q.parts.len()), Some(0));
}

#[test]
fn parent_and_file_name() {
    assert_eq!(p("a/b/c").parent().map(|q| q.display()), Some("a/b".to_string()));
    assert_eq!(p("a").parent().map(|q| q.display()), Some(String::new()));
    assert!(p("").parent().is_none());
    assert_eq!(p("a/b.txt").file_name(), Some("b.txt".to_string()));
    assert_eq!(p("a/..").file_name(), None);
}

#[test]
fn path_order_puts_root_and_parent_first() {
    assert!(path_precedes(&p("/z"), &p("a")));
    assert!(!path_precedes(&p("a"), &p("/z")));
    assert!(path_precedes(&p(""), &p("/")));
    assert!(path_precedes(&p("../x"), &p("!/x")));
    assert!(path_precedes(&p("a/b"), &p("a-b")));
    assert!(path_precedes(&p("a"), &p("a/b")));
    assert!(!path_precedes(&p("a/b"), &p("a/b")));
}

#[test]
fn sorted_insertion_keeps_a_set() {
    let mut v = Vec::new();
    for text in ["b", "a/c", "a", "b", "a/c"] {
        insert_path_sorted(&mut v, p(text));
    }
    assert_eq!(shown(&v), vec!["a", "a/c", "b"]);
}

#[test]
fn entries_sort_by_lower_case_name_stably() {
    let mut v = vec![p("d/Zeta"), p("d/alpha"), p("e/Beta"), p("f/beta"), p("d/ALPHA")];
    sort_paths(&mut v);
    assert_eq!(shown(&v), vec!["d/alpha", "d/ALPHA", "e/Beta", "f/beta", "d/Zeta"]);
    assert_eq!(entry_key(&p("x/MiXed.TXT")), "mixed.txt");
    assert_eq!(entry_key(&p("..")), "");
}

#[test]
fn folder_contents_split_and_sorted() {
    let entries = vec![
        FolderEntry { path: p("root/b.txt"), flag: false },
        FolderEntry { path: p("root/Sub"), flag: true },
        FolderEntry { path: p("root/A.txt"), flag: false },
        FolderEntry { path: p("root/other"), flag: true },
    ];
    let contents = directory_contents(&entries);
    assert_eq!(shown(&contents.directories), vec!["root/other", "root/Sub"]);
    assert_eq!(shown(&contents.files), vec!["root/A.txt", "root/b.txt"]);
}

#[test]
fn script_listing_keeps_rune_files_in_path_order() {
    let entries = vec![
        FolderEntry { path: p("scripts/zeta.rn"), flag: true },
        FolderEntry { path: p("scripts/readme.md"), flag: true },
        FolderEntry { path: p("scripts/Alpha.rn"), flag: true },
        FolderEntry { path: p("scripts/folder.rn"), flag: false },
        FolderEntry { path: p("scripts/beta.RN"), flag: true },
        FolderEntry { path: p("scripts/alpha.rn"), flag: true },
    ];
    let scripts = list_available_scripts(&entries);
    assert_eq!(shown(&scripts), vec!["scripts/Alpha.rn", "scripts/alpha.rn", "scripts/zeta.rn"]);
}

#[test]
fn scripts_are_looked_for_in_order() {
    let found = script_search_paths("ai/boid.lua", Some(p("/opt/game")), Some(p("/src/editor")));
    assert_eq!(found, vec![p("scripts/ai/boid.lua"), p("/opt/game/scripts/ai/boid.lua"), p("/src/editor/scripts/ai/boid.lua")]);
    assert_eq!(script_search_paths("x.lua", None, None), vec![p("scripts/x.lua")]);
    assert_eq!(script_search_paths("/abs/x.lua", None, None), vec![p("/abs/x.lua")]);
}
