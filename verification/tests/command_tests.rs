use cube_editor::commands::{
    drain_scene_commands, inspector_action_route, InspectorActionKind, InspectorRoute, drain_script_commands, drain_shader_commands, drain_update_commands,
    take_history_commands, CommandKind, EditorCommand, HistoryOp, PendingScriptAction, PendingShaderAction,
    SceneRequest,
};
use std::collections::VecDeque;

type Cmd = EditorCommand<&'static str, u32>;

fn kinds(q: &VecDeque<Cmd>) -> Vec<CommandKind> {
    q.iter().map(|c| c.kind()).collect()
}

fn sample() -> VecDeque<Cmd> {
    VecDeque::from(vec![
        EditorCommand::ImportPath("a.gltf".to_string()),
        EditorCommand::CreateScene(1),
        EditorCommand::DeleteEntity(7),
        EditorCommand::HistoryUndo,
        EditorCommand::Inspector("move"),
        EditorCommand::Script(PendingScriptAction::ReloadRuntime { entity: 3, message: "r".to_string() }),
        EditorCommand::CreateScene(2),
        EditorCommand::Shader(PendingShaderAction::Save { handle: 4, contents: "c".to_string(), message: "m".to_string() }),
        EditorCommand::ActivateScene("s1".to_string()),
        EditorCommand::HistoryCommitTransforms,
        EditorCommand::CloseScene("s2".to_string()),
        EditorCommand::NewScene,
        EditorCommand::ReloadPlugin { entity: 9, path: "p.rn".to_string() },
        EditorCommand::LoadProject("/proj".to_string()),
        EditorCommand::CreateProject { name: "N".to_string(), location: "/loc".to_string() },
        EditorCommand::NewScene,
    ])
}

#[test]
fn scene_creations_are_taken_in_order() {
    let mut q = sample();
    assert_eq!(drain_scene_commands(&mut q), vec![1, 2]);
    assert_eq!(q.len(), 14);
    assert!(!kinds(&q).contains(&CommandKind::CreateScene));
    assert_eq!(kinds(&q)[0], CommandKind::ImportPath);
    assert_eq!(kinds(&q)[1], CommandKind::DeleteEntity);
}

#[test]
fn script_and_shader_actions_are_taken() {
    let mut q = sample();
    let scripts = drain_script_commands(&mut q);
    assert_eq!(scripts.len(), 1);
    assert!(matches!(&scripts[0], PendingScriptAction::ReloadRuntime { entity: 3, .. }));
    let shaders = drain_shader_commands(&mut q);
    assert_eq!(shaders.len(), 1);
    assert!(matches!(&shaders[0], PendingShaderAction::Save { handle: 4, .. }));
    assert_eq!(q.len(), 14);
}

#[test]
fn undo_drops_queued_deletions() {
    let mut q = sample();
    let ops = take_history_commands(&mut q);
    assert_eq!(ops, vec![HistoryOp::Undo, HistoryOp::CommitTransforms]);
    let k = kinds(&q);
    assert!(!k.contains(&CommandKind::DeleteEntity));
    assert!(!k.contains(&CommandKind::HistoryUndo));
    assert_eq!(q.len(), 13);
}

#[test]
fn commit_alone_keeps_deletions() {
    let mut q: VecDeque<Cmd> = VecDeque::from(vec![
        EditorCommand::DeleteEntity(1),
        EditorCommand::HistoryCommitTransforms,
        EditorCommand::HistoryRedo,
    ]);
    assert_eq!(take_history_commands(&mut q), vec![HistoryOp::CommitTransforms, HistoryOp::Redo]);
    assert!(q.is_empty());
    let mut q2: VecDeque<Cmd> =
        VecDeque::from(vec![EditorCommand::DeleteEntity(1), EditorCommand::HistoryCommitTransforms]);
    assert_eq!(take_history_commands(&mut q2), vec![HistoryOp::CommitTransforms]);
    assert_eq!(kinds(&q2), vec![CommandKind::DeleteEntity]);
}

#[test]
fn update_pass_groups_commands() {
    let mut q = sample();
    let b = drain_update_commands(&mut q);
    assert_eq!(b.imports, vec!["a.gltf".to_string()]);
    assert_eq!(b.deletions, vec![7]);
    assert_eq!(b.inspector, vec!["move"]);
    assert_eq!(b.scene_requests.len(), 2);
    assert!(matches!(&b.scene_requests[0], SceneRequest::Activate(id) if id == "s1"));
    assert!(matches!(&b.scene_requests[1], SceneRequest::Close(id) if id == "s2"));
    assert_eq!(b.new_scenes, 2);
    assert_eq!(b.plugin_reloads, vec![(9, "p.rn".to_string())]);
    assert_eq!(b.project_loads, vec!["/proj".to_string()]);
    assert_eq!(b.project_creates, vec![("N".to_string(), "/loc".to_string())]);
    assert_eq!(
        kinds(&q),
        vec![
            CommandKind::CreateScene,
            CommandKind::HistoryUndo,
            CommandKind::Script,
            CommandKind::CreateScene,
            CommandKind::Shader,
            CommandKind::HistoryCommitTransforms,
        ]
    );
}

#[test]
fn edits_open_their_editors_and_the_rest_is_queued() {
    assert_eq!(inspector_action_route(InspectorActionKind::EditScript), InspectorRoute::ScriptEditor);
    assert_eq!(inspector_action_route(InspectorActionKind::EditShader), InspectorRoute::ShaderEditor);
    assert_eq!(inspector_action_route(InspectorActionKind::Other), InspectorRoute::Queue);
}
