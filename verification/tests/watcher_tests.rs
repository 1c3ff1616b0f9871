use cube_editor::paths::ContentPath;
use cube_editor::watchers::{
    materials_using_shader, needs_rewatch, path_has_extension_ci, roots_unchanged, shader_changes, unique_paths,
    ScriptChangeFilter, WatchEvent, WatchEventKind, WatchedPath,
};

fn p(text: &str) -> ContentPath {
    ContentPath::parse(text)
}

fn event(kind: WatchEventKind, paths: &[(&str, bool)]) -> WatchEvent {
    WatchEvent {
        kind,
        paths: paths.iter().map(|(t, exists)| WatchedPath { path: p(t), exists: *exists }).collect(),
    }
}

fn sorted(paths: Vec<ContentPath>) -> Vec<String> {
    let mut v: Vec<String> = paths.iter().map(|q| q.display()).collect();
    v.sort();
    v
}

const MS: u64 = 1_000_000;

#[test]
fn extensions_ignore_case() {
    assert!(path_has_extension_ci(&p("a/b.LUA"), "lua"));
    assert!(path_has_extension_ci(&p("a/b.lua"), "LuA"));
    assert!(!path_has_extension_ci(&p("a/b.luac"), "lua"));
    assert!(!path_has_extension_ci(&p("a/lua"), "lua"));
}

#[test]
fn script_changes_are_debounced() {
    let mut filter = ScriptChangeFilter::new();
    let save = vec![event(WatchEventKind::ModifyOrCreate, &[("scripts/a.lua", true)])];
    assert_eq!(sorted(filter.poll(1_000 * MS, &save)), vec!["scripts/a.lua"]);
    // A second save within half a second is ignored.
    assert!(filter.poll(1_200 * MS, &save).is_empty());
    // After the debounce time it is taken again.
    assert_eq!(sorted(filter.poll(1_600 * MS, &save)), vec!["scripts/a.lua"]);
}

#[test]
fn only_existing_lua_files_created_or_modified_count() {
    let mut filter = ScriptChangeFilter::new();
    let events = vec![
        event(WatchEventKind::ModifyOrCreate, &[("a.lua", true), ("b.txt", true), ("c.lua", false)]),
        event(WatchEventKind::Remove, &[("d.lua", true)]),
        event(WatchEventKind::Other, &[("e.lua", true)]),
        event(WatchEventKind::ModifyOrCreate, &[("A/F.LUA", true), ("a.lua", true)]),
    ];
    assert_eq!(sorted(filter.poll(0, &events)), vec!["A/F.LUA", "a.lua"]);
}

#[test]
fn debounce_can_be_changed_and_history_cleared() {
    let mut filter = ScriptChangeFilter::new();
    filter.set_debounce_duration(10);
    let save = vec![event(WatchEventKind::ModifyOrCreate, &[("x.lua", true)])];
    assert_eq!(filter.poll(100, &save).len(), 1);
    assert!(filter.poll(105, &save).is_empty());
    assert_eq!(filter.poll(110, &save).len(), 1);
    filter.clear();
    assert_eq!(filter.poll(111, &save).len(), 1);
}

#[test]
fn shader_changes_are_unique() {
    let events = vec![
        event(WatchEventKind::ModifyOrCreate, &[("s/a.wgsl", true), ("s/b.WGSL", true), ("s/c.wgsl", false)]),
        event(WatchEventKind::Remove, &[("s/d.wgsl", true)]),
        event(WatchEventKind::ModifyOrCreate, &[("s/a.wgsl", true), ("s/e.glsl", true)]),
    ];
    assert_eq!(sorted(shader_changes(&events)), vec!["s/a.wgsl", "s/b.WGSL"]);
    assert!(shader_changes(&vec![]).is_empty());
}

#[test]
fn watch_roots() {
    let roots = vec![p("/a"), p("/b")];
    assert!(roots_unchanged(&vec![p("/a"), p("/b")], &roots));
    assert!(!roots_unchanged(&vec![p("/b"), p("/a")], &roots));
    assert!(!roots_unchanged(&vec![p("/a")], &roots));
    assert!(needs_rewatch(&None, &p("/proj/content")));
    assert!(!needs_rewatch(&Some(p("/proj/content")), &p("/proj/content")));
    assert!(needs_rewatch(&Some(p("/old/content")), &p("/proj/content")));
}

#[test]
fn materials_of_a_shader() {
    let sources = vec![Some(p("/s/a.wgsl")), None, Some(p("/s/b.wgsl")), Some(p("/s/a.wgsl"))];
    assert_eq!(materials_using_shader(&sources, &p("/s/a.wgsl")), vec![0, 3]);
    assert!(materials_using_shader(&sources, &p("/s/z.wgsl")).is_empty());
}

#[test]
fn unique_paths_keep_each_once() {
    let out = unique_paths(&vec![p("x"), p("y"), p("x"), p("z"), p("y")]);
    assert_eq!(sorted(out), vec!["x", "y", "z"]);
}
