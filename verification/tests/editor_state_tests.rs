use cube_editor::editor_state::{
    any_transforms_changed, fullscreen_game_view, is_expired, mode_request_from_tabs, prefab_display_name, resolve_prefab_path,
    summarize_plugin_reloads, tab_action_requests_editor_mode, tab_actions, tab_title_for_pane,
    transition_action, untitled_scene_candidate, viewport_pane_for_mode, ActionResult, EditorPane, GameViewDisplayMode,
    ModeAction, ModeTransition, NotificationSeverity, PrefabEntity, ReloadNotification, RuntimeMode, RuntimeModeTracker,
    SceneTabAction, UntitledSceneCounter,
};

#[test]
fn action_results_say_what_changed() {
    let none = ActionResult::no_change();
    assert!(!none.transforms_changed && !none.scene_changed);
    assert_eq!(none, ActionResult::default());
    let t = ActionResult::transforms_changed();
    assert!(t.transforms_changed && t.scene_changed);
    let s = ActionResult::scene_changed();
    assert!(!s.transforms_changed && s.scene_changed);
}

#[test]
fn batch_propagates_when_any_transform_changed() {
    assert!(!any_transforms_changed(&vec![]));
    assert!(!any_transforms_changed(&vec![ActionResult::no_change(), ActionResult::scene_changed()]));
    assert!(any_transforms_changed(&vec![ActionResult::scene_changed(), ActionResult::transforms_changed()]));
}

#[test]
fn notices_expire_after_five_seconds() {
    assert!(!is_expired(0));
    assert!(!is_expired(4_000_000_000));
    assert!(!is_expired(5_000_000_000));
    assert!(is_expired(5_000_000_001));
    assert!(is_expired(5_500_000_000));
    let n = ReloadNotification::success("fresh".to_string());
    assert!(!n.should_dismiss());
}

#[test]
fn notification_constructors_keep_message_and_severity() {
    let s = ReloadNotification::success("a".to_string());
    let e = ReloadNotification::error("b".to_string());
    let w = ReloadNotification::warning("c".to_string());
    assert_eq!((s.message.as_str(), s.severity), ("a", NotificationSeverity::Success));
    assert_eq!((e.message.as_str(), e.severity), ("b", NotificationSeverity::Error));
    assert_eq!((w.message.as_str(), w.severity), ("c", NotificationSeverity::Warning));
}

fn messages(notices: &[ReloadNotification]) -> Vec<(NotificationSeverity, String)> {
    notices.iter().map(|n| (n.severity, n.message.clone())).collect()
}

#[test]
fn single_reload_names_the_plugin() {
    let (notices, reset) = summarize_plugin_reloads(&vec![Ok("Inspector".to_string())]);
    assert!(reset);
    assert_eq!(messages(&notices), vec![(NotificationSeverity::Success, "✅ Reloaded: Inspector".to_string())]);
}

#[test]
fn several_reloads_are_counted() {
    let (notices, reset) =
        summarize_plugin_reloads(&vec![Ok("a".to_string()), Ok("b".to_string()), Ok("c".to_string())]);
    assert!(reset);
    assert_eq!(messages(&notices), vec![(NotificationSeverity::Success, "✅ Reloaded 3 plugins".to_string())]);
}

#[test]
fn mixed_reloads_add_errors_and_a_warning() {
    let (notices, reset) = summarize_plugin_reloads(&vec![
        Err("boom".to_string()),
        Ok("first".to_string()),
        Err("bang".to_string()),
        Ok("second".to_string()),
    ]);
    assert!(reset);
    assert_eq!(
        messages(&notices),
        vec![
            (NotificationSeverity::Error, "boom".to_string()),
            (NotificationSeverity::Error, "bang".to_string()),
            (NotificationSeverity::Success, "✅ Reloaded 2 plugins".to_string()),
            (NotificationSeverity::Warning, "Reloaded 2 plugin(s); 2 of 4 failed".to_string()),
        ]
    );
}

#[test]
fn only_failures_do_not_reset_the_runtime() {
    let (notices, reset) = summarize_plugin_reloads(&vec![Err("x".to_string())]);
    assert!(!reset);
    assert_eq!(messages(&notices), vec![(NotificationSeverity::Error, "x".to_string())]);
    let (none, reset2) = summarize_plugin_reloads(&vec![]);
    assert!(!reset2);
    assert!(none.is_empty());
}

#[test]
fn fullscreen_only_while_playing() {
    assert_eq!(GameViewDisplayMode::default(), GameViewDisplayMode::Viewport);
    assert!(fullscreen_game_view(true, GameViewDisplayMode::Fullscreen));
    assert!(!fullscreen_game_view(false, GameViewDisplayMode::Fullscreen));
    assert!(!fullscreen_game_view(true, GameViewDisplayMode::Viewport));
}

#[test]
fn pane_titles() {
    assert_eq!(tab_title_for_pane(EditorPane::SceneHierarchy, false), "Hierarchy");
    assert_eq!(tab_title_for_pane(EditorPane::SceneViewport, true), "Scene");
    assert_eq!(tab_title_for_pane(EditorPane::GameViewport, false), "Game");
    assert_eq!(tab_title_for_pane(EditorPane::GameViewport, true), "Game ▶");
    assert_eq!(tab_title_for_pane(EditorPane::Inspector, false), "Inspector");
    assert_eq!(tab_title_for_pane(EditorPane::AssetBrowser, false), "Assets");
    assert_eq!(tab_title_for_pane(EditorPane::Log, true), "Log");
}

#[test]
fn mode_picks_the_viewport_tab() {
    assert_eq!(viewport_pane_for_mode(RuntimeMode::Editor), EditorPane::SceneViewport);
    assert_eq!(viewport_pane_for_mode(RuntimeMode::Playing), EditorPane::GameViewport);
}

#[test]
fn tracker_records_transitions() {
    let mut t = RuntimeModeTracker::new(RuntimeMode::Editor);
    assert!(!t.detect_mode_transition(RuntimeMode::Editor));
    assert_eq!(t.take_pending(), None);
    assert!(t.detect_mode_transition(RuntimeMode::Playing));
    assert!(!t.detect_mode_transition(RuntimeMode::Playing));
    assert_eq!(t.take_pending(), Some(ModeTransition { from: RuntimeMode::Editor, to: RuntimeMode::Playing }));
    assert_eq!(t.take_pending(), None);
    assert!(!t.detect_mode_transition(RuntimeMode::Editor));
    assert_eq!(t.last_mode, RuntimeMode::Editor);
    assert_eq!(t.take_pending(), Some(ModeTransition { from: RuntimeMode::Playing, to: RuntimeMode::Editor }));
}

#[test]
fn untitled_scene_names() {
    assert_eq!(untitled_scene_candidate(1), "untitled.scene");
    assert_eq!(untitled_scene_candidate(2), "untitled_2.scene");
    assert_eq!(untitled_scene_candidate(17), "untitled_17.scene");
}

#[test]
fn new_scene_ids_skip_open_documents() {
    let mut counter = UntitledSceneCounter::new();
    assert_eq!(counter.allocate_new_scene_id(&vec![]), "untitled.scene");
    assert_eq!(counter.next_index, 2);
    let open = vec!["untitled_2.scene".to_string(), "untitled_3.scene".to_string()];
    assert_eq!(counter.allocate_new_scene_id(&open), "untitled_4.scene");
    assert_eq!(counter.next_index, 5);
}

#[test]
fn tab_clicks_become_actions() {
    let id = "level.scene".to_string();
    assert!(tab_actions(&id, true, true, false, false).is_empty());
    let a = tab_actions(&id, false, true, true, true);
    assert_eq!(a.len(), 3);
    assert!(matches!(&a[0], SceneTabAction::Activate(x) if x == "level.scene"));
    assert!(matches!(&a[1], SceneTabAction::Close(x) if x == "level.scene"));
    assert!(matches!(&a[2], SceneTabAction::Rename(x) if x == "level.scene"));
    assert!(tab_action_requests_editor_mode(&a[0]));
    assert!(!tab_action_requests_editor_mode(&a[1]));
    assert!(!tab_action_requests_editor_mode(&a[2]));
    assert!(tab_action_requests_editor_mode(&SceneTabAction::NewScene));
}

#[test]
fn prefab_names() {
    let name = "Tree".to_string();
    let empty = String::new();
    let id = "tree.scene".to_string();
    assert_eq!(prefab_display_name(Some((&name, &id)), &id), "Tree");
    assert_eq!(prefab_display_name(Some((&empty, &id)), &id), "tree.scene");
    assert_eq!(prefab_display_name(None, &"missing.scene".to_string()), "missing.scene");
}

#[test]
fn prefab_path_defaults_to_first_root() {
    let entities = vec![
        PrefabEntity { has_parent: true, name: Some("Child".to_string()) },
        PrefabEntity { has_parent: false, name: Some("Root".to_string()) },
        PrefabEntity { has_parent: false, name: Some("Other".to_string()) },
    ];
    assert_eq!(resolve_prefab_path(vec![], &entities), vec!["Root".to_string()]);
    assert_eq!(resolve_prefab_path(vec!["A".to_string(), "B".to_string()], &entities), vec!["A", "B"]);
    let unnamed = vec![PrefabEntity { has_parent: false, name: None }];
    assert!(resolve_prefab_path(vec![], &unnamed).is_empty());
    assert!(resolve_prefab_path(vec![], &vec![]).is_empty());
}

#[test]
fn pending_transitions_enter_or_leave_play() {
    let enter = ModeTransition { from: RuntimeMode::Editor, to: RuntimeMode::Playing };
    let leave = ModeTransition { from: RuntimeMode::Playing, to: RuntimeMode::Editor };
    let stay = ModeTransition { from: RuntimeMode::Editor, to: RuntimeMode::Editor };
    assert_eq!(transition_action(enter), ModeAction::EnterPlay);
    assert_eq!(transition_action(leave), ModeAction::ExitPlay);
    assert_eq!(transition_action(stay), ModeAction::Nothing);
}

#[test]
fn front_tabs_ask_for_a_mode() {
    let (editor, playing) = (RuntimeMode::Editor, RuntimeMode::Playing);
    assert_eq!(mode_request_from_tabs(false, true, false, false, true, playing), Some(editor));
    assert_eq!(mode_request_from_tabs(false, true, true, false, true, playing), None);
    assert_eq!(mode_request_from_tabs(true, true, false, false, true, playing), None);
    assert_eq!(mode_request_from_tabs(false, false, false, true, false, editor), Some(playing));
    assert_eq!(mode_request_from_tabs(false, false, false, true, false, playing), None);
    assert_eq!(mode_request_from_tabs(false, false, false, false, true, editor), None);
}
