use cube_editor::paths::ContentPath;
use cube_editor::plugins::{
    create_plugin_script_source, default_true, reload_plugin_name, script_source_with, plugins_to_load, PluginManifest, PluginMetadata, UiPluginManager,
};

fn meta(name: &str, script: &str, enabled: bool, default_visible: bool) -> PluginMetadata {
    PluginMetadata {
        name: name.to_string(),
        script: script.to_string(),
        description: format!("{name} plugin"),
        category: "Tools".to_string(),
        enabled,
        default_visible,
    }
}

fn manager() -> UiPluginManager {
    UiPluginManager::new(ContentPath::parse("/definitely/missing/examples/scripts"))
}

#[test]
fn manifest_flags_default_to_true() {
    assert!(default_true());
}

#[test]
fn registered_plugins_are_found_by_entity() {
    let mut m = manager();
    m.register_plugin(meta("Stats", "stats.rn", true, true), 7);
    m.register_plugin(meta("Console", "console.rn", true, false), 9);
    assert_eq!(m.plugins().len(), 2);
    let stats = m.get_plugin(7).expect("registered");
    assert_eq!(stats.metadata.name, "Stats");
    assert!(stats.visible);
    assert!(!m.get_plugin(9).expect("registered").visible);
    assert!(m.get_plugin(8).is_none());
}

#[test]
fn later_registration_under_same_entity_wins() {
    let mut m = manager();
    m.register_plugin(meta("Old", "old.rn", true, true), 1);
    m.register_plugin(meta("New", "new.rn", true, false), 1);
    assert_eq!(m.get_plugin(1).expect("registered").metadata.name, "New");
}

#[test]
fn visibility_can_be_set_and_toggled() {
    let mut m = manager();
    m.register_plugin(meta("A", "a.rn", true, false), 1);
    m.register_plugin(meta("B", "b.rn", false, true), 2);
    m.register_plugin(meta("C", "c.rn", true, true), 3);
    assert_eq!(m.visible_entities(), vec![3]);
    m.set_visibility(1, true);
    assert_eq!(m.visible_entities(), vec![1, 3]);
    assert!(!m.toggle_visibility(3));
    assert_eq!(m.visible_entities(), vec![1]);
    assert!(m.toggle_visibility(3));
    assert!(!m.toggle_visibility(42));
    m.set_visibility(42, true);
    assert_eq!(m.visible_entities(), vec![1, 3]);
}

#[test]
fn script_paths_resolve_below_the_base_folder() {
    let mut m = manager();
    m.register_plugin(meta("A", "ui/a.rn", true, true), 1);
    assert_eq!(m.resolve_script_path("./x.rn").display(), "/definitely/missing/examples/scripts/x.rn");
    assert_eq!(m.resolve_script_path("/abs/y.rn").display(), "/abs/y.rn");
    assert_eq!(
        m.get_script_path(1).map(|p| p.display()),
        Some("/definitely/missing/examples/scripts/ui/a.rn".to_string())
    );
    assert!(m.get_script_path(2).is_none());
}

#[test]
fn canonical_path_match_picks_first_plugin() {
    let mut m = manager();
    m.register_plugin(meta("A", "a.rn", true, true), 1);
    m.register_plugin(meta("B", "b.rn", true, true), 2);
    m.register_plugin(meta("B2", "b.rn", true, true), 3);
    let to_real = |q: &ContentPath| -> Option<ContentPath> {
        q.file_name().map(|n| ContentPath::parse(&format!("/real/{n}")))
    };
    let (entity, found) = m.find_entity_by_canonical(&ContentPath::parse("/elsewhere/b.rn"), to_real).expect("match");
    assert_eq!(entity, 2);
    assert_eq!(found.name, "B");
    let only_a = |q: &ContentPath| -> Option<ContentPath> {
        if q.display().ends_with("a.rn") {
            Some(ContentPath::parse("/real/a.rn"))
        } else if q.display() == "/wanted/b.rn" {
            Some(ContentPath::parse("/real/b.rn"))
        } else {
            None
        }
    };
    assert!(m.find_entity_by_canonical(&ContentPath::parse("/wanted/b.rn"), only_a).is_none());
}

#[test]
fn missing_files_are_not_matched() {
    let mut m = manager();
    m.register_plugin(meta("A", "a.rn", true, true), 1);
    assert!(m.find_entity_by_path(&ContentPath::parse("/definitely/missing/file.rn")).is_none());
}

#[test]
fn unloading_returns_every_entity() {
    let mut m = manager();
    m.register_plugin(meta("A", "a.rn", true, true), 4);
    m.register_plugin(meta("B", "b.rn", true, true), 5);
    assert_eq!(m.unload_all(), vec![4, 5]);
    assert!(m.plugins().is_empty());
    assert!(m.get_plugin(4).is_none());
    assert!(m.visible_entities().is_empty());
}

#[test]
fn missing_script_is_reported() {
    let m = manager();
    let err = create_plugin_script_source(&m, &meta("A", "nope.rn", true, true)).unwrap_err();
    assert_eq!(err, "Script file not found: /definitely/missing/examples/scripts/nope.rn");
}

#[test]
fn only_enabled_plugins_are_loaded() {
    let manifest = PluginManifest {
        plugins: vec![meta("A", "a.rn", true, true), meta("B", "b.rn", false, true), meta("C", "c.rn", true, false)],
    };
    assert_eq!(plugins_to_load(&manifest), vec![0, 2]);
}

#[test]
fn plugin_visibility_can_be_edited_in_place() {
    let mut m = manager();
    m.register_plugin(meta("Stats", "stats.rn", true, true), 7);
    m.register_plugin(meta("Console", "console.rn", true, false), 9);
    for plugin in m.plugins_mut() {
        plugin.visible = !plugin.visible;
    }
    assert!(!m.get_plugin(7).expect("registered").visible);
    assert!(m.get_plugin(9).expect("registered").visible);
    assert_eq!(m.visible_entities(), vec![9]);
}

#[test]
fn script_source_follows_whether_the_file_exists() {
    let m = UiPluginManager::new(ContentPath::parse("/base/scripts"));
    let found = script_source_with(&m, &meta("A", "tools/a.rn", true, true), true).expect("exists");
    assert_eq!(found.display(), "/base/scripts/tools/a.rn");
    let missing = script_source_with(&m, &meta("A", "tools/a.rn", true, true), false).unwrap_err();
    assert_eq!(missing, "Script file not found: /base/scripts/tools/a.rn");
}

#[test]
fn reload_names_the_plugin_or_reports_it_missing() {
    let mut m = manager();
    m.register_plugin(meta("Stats", "stats.rn", true, true), 7);
    assert_eq!(reload_plugin_name(&m, 7), Ok("Stats".to_string()));
    assert_eq!(reload_plugin_name(&m, 8), Err("Plugin not found for entity 8".to_string()));
}
