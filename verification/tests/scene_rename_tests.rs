use cube_editor::paths::ContentPath;
use cube_editor::scene_rename::{
    plan_scene_rename, rename_dialog_step, rename_dialog_text, rename_scene_documents, sanitize_scene_name, scene_file, scene_stem_with,
    scene_file_in, RenameDialogStep, SceneDocument,
};

fn p(text: &str) -> ContentPath {
    ContentPath::parse(text)
}

#[test]
fn dialog_starts_with_the_scene_name() {
    assert_eq!(rename_dialog_text("level_one.scene"), "level one");
    assert_eq!(rename_dialog_text("a.scene.scene"), "a");
    assert_eq!(rename_dialog_text("plain"), "plain");
    assert_eq!(rename_dialog_text(".scene"), "");
}

#[test]
fn scene_names_become_file_stems() {
    assert_eq!(sanitize_scene_name("  My Level #2! "), "My_Level_2");
    assert_eq!(sanitize_scene_name("boss-fight_final"), "boss-fight_final");
    assert_eq!(sanitize_scene_name("Café Ünïcode"), "Café_Ünïcode");
    assert_eq!(sanitize_scene_name("?!"), "");
}

#[test]
fn renames_that_change_nothing_or_collide_are_dropped() {
    let open = vec!["untitled.scene".to_string(), "Arena.scene".to_string()];
    assert_eq!(plan_scene_rename("untitled.scene", "Boss Fight", &open), Some("Boss_Fight.scene".to_string()));
    assert_eq!(plan_scene_rename("Boss_Fight.scene", "Boss Fight", &open), None);
    assert_eq!(plan_scene_rename("untitled.scene", "Arena", &open), None);
    assert_eq!(plan_scene_rename("untitled.scene", "***", &open), None);
}

#[test]
fn scene_files_live_in_the_scenes_folder() {
    assert_eq!(scene_file("content", "a.scene"), p("content/scenes/a.scene.json"));
    assert_eq!(scene_file_in(&p("/proj"), "content", "a.scene"), p("/proj/content/scenes/a.scene.json"));
}

#[test]
fn renamed_document_takes_new_id_name_and_file() {
    let docs = vec![
        SceneDocument { id: "a.scene".to_string(), name: "a".to_string(), relative_path: p("content/scenes/a.scene.json") },
        SceneDocument { id: "b.scene".to_string(), name: "b".to_string(), relative_path: p("content/scenes/b.scene.json") },
    ];
    let out = rename_scene_documents(&docs, "b.scene", "Cave.scene", "Cave", "content");
    assert_eq!(out.len(), 2);
    assert_eq!((out[0].id.as_str(), out[0].name.as_str()), ("a.scene", "a"));
    assert_eq!(out[0].relative_path, p("content/scenes/a.scene.json"));
    assert_eq!((out[1].id.as_str(), out[1].name.as_str()), ("Cave.scene", "Cave"));
    assert_eq!(out[1].relative_path, p("content/scenes/Cave.scene.json"));
}

#[test]
fn dialog_steps() {
    let text = "New name".to_string();
    assert!(matches!(rename_dialog_step(true, false, true, &text), RenameDialogStep::Rename(t) if t == "New name"));
    assert!(matches!(rename_dialog_step(true, false, true, &"   ".to_string()), RenameDialogStep::KeepOpen));
    assert!(matches!(rename_dialog_step(true, true, true, &"  ".to_string()), RenameDialogStep::Close));
    assert!(matches!(rename_dialog_step(false, false, false, &text), RenameDialogStep::Close));
    assert!(matches!(rename_dialog_step(false, false, true, &text), RenameDialogStep::KeepOpen));
}

#[test]
fn scene_stem_keeps_what_the_answers_call_alphanumeric() {
    // "  a b!-c  " trims to "a b!-c": a, space, b, !, -, c
    let answers = vec![true, false, true, false, false, true];
    assert_eq!(scene_stem_with("  a b!-c  ", &answers), "a_b-c");
    let none = vec![false, false, false, false, false, false];
    assert_eq!(scene_stem_with("  a b!-c  ", &none), "_-");
    assert_eq!(sanitize_scene_name("  a b!-c  "), "a_b-c");
}
