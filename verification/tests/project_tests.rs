use cube_editor::commands::{EditorCommand, PendingScriptAction, PendingShaderAction};
use cube_editor::editor_windows::{
    script_save_report, script_target_problem, shader_save_report, shader_target_problem, ScriptActionResult,
    ScriptEditorEvent, ScriptEditorSystem, ShaderActionResult, ShaderEditorEvent, ShaderEditorSystem,
    ShaderSaveOutcome, ShaderTarget,
};
use cube_editor::environment::{plan_environment_copy_with, EnvironmentAssetError, EnvironmentCopy};
use cube_editor::particles::{ParticleSlots, SceneParticleSystem};
use cube_editor::paths::ContentPath;
use cube_editor::project::{ProjectController, ProjectSystem};
use std::collections::VecDeque;
use cube_editor::shaders::{
    new_shader_path, shader_directory, shader_file_candidate_name, shader_in_project, shader_path_display,
    suggested_shader_stem,
};

fn p(text: &str) -> ContentPath {
    ContentPath::parse(text)
}

#[test]
fn project_content_root() {
    let mut c = ProjectController::new("content".to_string());
    assert!(c.is_startup_dialog_visible());
    assert!(c.content_root().is_none());
    assert!(c.current_dir().is_none());
    c.set_current_dir(p("/home/me/game"));
    assert_eq!(c.current_dir(), Some(&p("/home/me/game")));
    assert_eq!(c.content_root(), Some(p("/home/me/game/content")));
    c.set_startup_dialog_visible(false);
    assert!(!c.is_startup_dialog_visible());
    assert!(c.startup_error().is_none());
    c.report_startup_error("bad manifest".to_string());
    assert_eq!(c.startup_error(), Some(&"bad manifest".to_string()));
}

#[test]
fn project_system_windows() {
    let mut sys = ProjectSystem::new(ProjectController::new("assets".to_string()));
    assert!(sys.auxiliary_windows_enabled());
    assert!(sys.is_startup_dialog_visible());
    sys.set_auxiliary_windows_enabled(false);
    assert!(!sys.auxiliary_windows_enabled());
    sys.controller_mut().set_current_dir(p("/g"));
    assert_eq!(sys.content_root(), Some(p("/g/assets")));
}

#[test]
fn editor_windows_show_only_when_enabled_and_open() {
    let mut s: ScriptEditorSystem<u8> = ScriptEditorSystem::new();
    assert!(!s.is_window_enabled());
    assert!(!s.open_script_editor(7, 3));
    assert!(!s.shows_window());
    s.set_window_enabled(true);
    assert!(s.shows_window());
    assert_eq!(s.editor(), Some(&3));
    assert!(s.is_editing(7));
    assert!(!s.is_editing(8));
    // Opening on the same entity keeps the editor.
    assert!(s.open_script_editor(7, 9));
    assert_eq!(s.editor(), Some(&3));
    // Another entity replaces it.
    assert!(!s.open_script_editor(8, 9));
    assert_eq!(s.editor(), Some(&9));
    if let Some(e) = s.editor_mut() {
        *e = 10;
    }
    assert_eq!(s.editor(), Some(&10));
    s.close();
    assert!(!s.shows_window());
    assert_eq!(s.editor(), None);
    assert!(!s.is_editing(8));

    let mut h: ShaderEditorSystem<&str> = ShaderEditorSystem::new();
    h.set_window_enabled(true);
    assert!(!h.shows_window());
    assert!(!h.open_shader_editor(1, 4, "water.wgsl"));
    assert!(h.shows_window());
    assert!(h.is_window_enabled());
    assert!(h.is_editing(4));
    assert!(h.open_shader_editor(1, 4, "other"));
    assert_eq!(h.editor(), Some(&"water.wgsl"));
    assert!(!h.open_shader_editor(2, 4, "other"));
    assert_eq!(h.editor(), Some(&"other"));
    h.close();
    assert_eq!(h.editor(), None);
}

#[test]
fn editor_events_become_commands() {
    let mut queue: VecDeque<EditorCommand<(), ()>> = VecDeque::new();
    let mut s: ScriptEditorSystem<u8> = ScriptEditorSystem::new();
    s.open_script_editor(5, 1);
    s.handle_event(ScriptEditorEvent::Nothing, &mut queue);
    assert!(queue.is_empty());
    s.handle_event(
        ScriptEditorEvent::SaveInline {
            entity: 5,
            name: "a".to_string(),
            contents: "print(1)".to_string(),
            message: "Saved".to_string(),
        },
        &mut queue,
    );
    s.handle_event(ScriptEditorEvent::SaveFile { entity: 5, message: "Saved file".to_string() }, &mut queue);
    assert_eq!(queue.len(), 2);
    assert!(matches!(&queue[0], EditorCommand::Script(PendingScriptAction::SaveInline { entity: 5, .. })));
    assert!(matches!(&queue[1], EditorCommand::Script(PendingScriptAction::ReloadRuntime { entity: 5, .. })));
    assert!(s.editor().is_some());
    s.handle_event(ScriptEditorEvent::Closed, &mut queue);
    assert!(s.editor().is_none());
    assert_eq!(queue.len(), 2);

    let mut h: ShaderEditorSystem<u8> = ShaderEditorSystem::new();
    h.open_shader_editor(5, 2, 0);
    h.handle_event(
        ShaderEditorEvent::Save { entity: 5, handle: 2, contents: "fn f() {}".to_string(), message: "ok".to_string() },
        &mut queue,
    );
    assert!(matches!(&queue[2], EditorCommand::Shader(PendingShaderAction::Save { handle: 2, .. })));
    h.handle_event(ShaderEditorEvent::Closed, &mut queue);
    assert!(h.editor().is_none());
}

#[test]
fn editor_target_problems() {
    assert_eq!(script_target_problem(false, true), Some("Entity has been removed.".to_string()));
    assert_eq!(script_target_problem(true, false), Some("Script component removed from entity.".to_string()));
    assert_eq!(script_target_problem(true, true), None);
    assert_eq!(shader_target_problem(ShaderTarget::EntityRemoved), Some("Entity has been removed.".to_string()));
    assert_eq!(
        shader_target_problem(ShaderTarget::MaterialRemoved),
        Some("Material asset has been removed.".to_string())
    );
    assert_eq!(
        shader_target_problem(ShaderTarget::NotShader),
        Some("Material is no longer a shader material.".to_string())
    );
    assert_eq!(shader_target_problem(ShaderTarget::Shader), None);
}

#[test]
fn script_saves_are_reported() {
    let report = script_save_report(&vec![
        ScriptActionResult::SaveInline { entity: 1, message: "one".to_string(), outcome: Ok(()) },
        ScriptActionResult::SaveInline { entity: 2, message: "two".to_string(), outcome: Err("no component".to_string()) },
        ScriptActionResult::ReloadRuntime { entity: 3, message: "three".to_string() },
    ]);
    assert!(report.reload_runtime);
    assert_eq!(report.errors, vec![(2, "Failed to update inline script: no component".to_string())]);
    assert_eq!(report.saved, vec![(1, "one".to_string()), (3, "three".to_string())]);
    assert_eq!(report.scene_changes, 1);

    let failed = script_save_report(&vec![ScriptActionResult::SaveInline {
        entity: 4,
        message: "four".to_string(),
        outcome: Err("gone".to_string()),
    }]);
    assert!(!failed.reload_runtime);
    assert!(failed.saved.is_empty());
    assert_eq!(failed.errors.len(), 1);
    assert_eq!(failed.scene_changes, 0);
}

#[test]
fn shader_saves_are_reported() {
    let report = shader_save_report(&vec![
        ShaderActionResult { handle: 0, message: "a".to_string(), outcome: ShaderSaveOutcome::Written },
        ShaderActionResult { handle: 1, message: "b".to_string(), outcome: ShaderSaveOutcome::MaterialMissing },
        ShaderActionResult { handle: 2, message: "c".to_string(), outcome: ShaderSaveOutcome::NotShader },
        ShaderActionResult {
            handle: 3,
            message: "d".to_string(),
            outcome: ShaderSaveOutcome::WriteFailed { path: "/s/x.wgsl".to_string(), error: "denied".to_string() },
        },
        ShaderActionResult { handle: 4, message: "e".to_string(), outcome: ShaderSaveOutcome::Inline },
    ]);
    assert_eq!(
        report.errors,
        vec![
            (1, "Material asset not found.".to_string()),
            (2, "Material is not a shader material.".to_string()),
            (3, "Failed to write shader file /s/x.wgsl: denied".to_string()),
        ]
    );
    assert_eq!(report.saved, vec![(0, "a".to_string()), (4, "e".to_string())]);
    assert_eq!(report.updated, vec![0, 4]);
}

#[test]
fn shader_stem_suggestions() {
    assert_eq!(suggested_shader_stem(&Some(p("/c/materials/Brick Wall.mat")), "Cube", 3), "brick_wall");
    assert_eq!(suggested_shader_stem(&None, "My Cube!", 3), "my_cube");
    assert_eq!(suggested_shader_stem(&Some(p("/c/---.mat")), "", 7), "material_7");
    assert_eq!(suggested_shader_stem(&None, "   ", 12), "material_12");
}

#[test]
fn shader_file_names() {
    assert_eq!(shader_file_candidate_name("water", 0), "water.wgsl");
    assert_eq!(shader_file_candidate_name("water", 1), "water_01.wgsl");
    assert_eq!(shader_file_candidate_name("water", 12), "water_12.wgsl");
    assert_eq!(shader_file_candidate_name("water", 123), "water_123.wgsl");
    assert_eq!(shader_directory(&p("/proj/content")), p("/proj/content/shaders"));
}

#[test]
fn new_shader_in_an_empty_folder_takes_the_plain_name() {
    let root = p("/definitely/missing/project/content");
    assert_eq!(new_shader_path(&root, "lava", 0), Some(p("/definitely/missing/project/content/shaders/lava.wgsl")));
    assert_eq!(
        new_shader_path(&root, "  ", 4),
        Some(p("/definitely/missing/project/content/shaders/material_4.wgsl"))
    );
}

#[test]
fn shader_paths_shown_relative_to_the_project() {
    let root = Some(p("/proj/content"));
    assert_eq!(shader_path_display(&Some(p("/proj/content/shaders/a.wgsl")), &root), "shaders/a.wgsl");
    assert_eq!(shader_path_display(&Some(p("/other/a.wgsl")), &root), "/other/a.wgsl");
    assert_eq!(shader_path_display(&Some(p("/other/a.wgsl")), &None), "/other/a.wgsl");
    assert_eq!(shader_path_display(&None, &root), "None");
    assert!(shader_in_project(&p("/proj/content/shaders/a.wgsl"), &p("/proj/content")));
    assert!(!shader_in_project(&p("/proj/contents/a.wgsl"), &p("/proj/content")));
}

#[test]
fn environment_copy_plans() {
    let root = Some(p("/proj/content"));
    let cwd = p("/home/me");
    let hdr = p("/downloads/sky.hdr");
    assert!(matches!(
        plan_environment_copy_with(&hdr, &Some(hdr.clone()), &root, &cwd, true),
        Ok(EnvironmentCopy::Unchanged)
    ));
    assert!(matches!(
        plan_environment_copy_with(&hdr, &None, &None, &cwd, true),
        Err(EnvironmentAssetError::NoProject)
    ));
    match plan_environment_copy_with(&p("sky.hdr"), &None, &root, &cwd, false) {
        Err(EnvironmentAssetError::MissingSource(q)) => assert_eq!(q, p("/home/me/sky.hdr")),
        _ => panic!("expected MissingSource"),
    }
    match plan_environment_copy_with(&hdr, &None, &root, &cwd, true) {
        Ok(EnvironmentCopy::Use { source, destination, copy }) => {
            assert_eq!(source, hdr);
            assert_eq!(destination, p("/proj/content/environment/sky.hdr"));
            assert!(copy);
        },
        _ => panic!("expected Use"),
    }
    let inside = p("/proj/content/environment/sky.hdr");
    match plan_environment_copy_with(&inside, &None, &root, &cwd, true) {
        Ok(EnvironmentCopy::Use { copy, .. }) => assert!(!copy),
        _ => panic!("expected Use"),
    }
    match plan_environment_copy_with(&p("/"), &None, &root, &cwd, true) {
        Err(EnvironmentAssetError::NoFileName(q)) => assert_eq!(q, p("/")),
        _ => panic!("expected NoFileName"),
    }
}

#[test]
fn particle_slots_are_stable() {
    let mut slots = ParticleSlots::new();
    assert_eq!(slots.ensure_entry(10), 0);
    assert_eq!(slots.ensure_entry(20), 1);
    assert_eq!(slots.ensure_entry(10), 0);
    let scene = vec![
        SceneParticleSystem { entity: 20, recorded_slot: Some(1) },
        SceneParticleSystem { entity: 30, recorded_slot: None },
    ];
    let sync = slots.sync(&scene);
    assert_eq!(sync.slot_updates, vec![(30, 2)]);
    assert_eq!(sync.removed, vec![10]);
    assert_eq!(slots.ensure_entry(30), 2);
    assert_eq!(slots.ensure_entry(40), 3);
}
