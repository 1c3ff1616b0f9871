use cube_editor::asset_browser::{
    entry_label, folder_heading, folder_label, moving_label, selected_label, AssetBrowserState, AssetBrowserSystem,
    Feedback, FolderCreation,
};
use cube_editor::paths::ContentPath;

fn p(text: &str) -> ContentPath {
    ContentPath::parse(text)
}

fn message(state: &AssetBrowserState) -> Option<(bool, String)> {
    match state.feedback() {
        Some(Feedback::Info(m)) => Some((false, m.clone())),
        Some(Feedback::Error(m)) => Some((true, m.clone())),
        None => None,
    }
}

fn error(text: &str) -> Option<(bool, String)> {
    Some((true, text.to_string()))
}

fn info(text: &str) -> Option<(bool, String)> {
    Some((false, text.to_string()))
}

#[test]
fn fresh_state_selects_the_root() {
    let root = p("/proj/content");
    let mut state = AssetBrowserState::new();
    assert_eq!(state.selected_folder(&root), root);
    assert!(state.sync_root(&root));
    assert!(!state.sync_root(&root));
    state.select_folder(&p("/proj/content/models"));
    assert_eq!(state.selected_folder(&root), p("/proj/content/models"));
    // A folder outside the root falls back to the root.
    state.select_folder(&p("/elsewhere"));
    assert_eq!(state.selected_folder(&root), root);
}

#[test]
fn a_new_root_resets_the_browser() {
    let mut state = AssetBrowserState::new();
    state.sync_root(&p("/a/content"));
    state.select_item(&p("/a/content/x.txt"));
    state.report_error("boom".to_string());
    assert!(state.sync_root(&p("/b/content")));
    assert_eq!(message(&state), None);
    assert_eq!(state.selected_folder(&p("/b/content")), p("/b/content"));
}

#[test]
fn refresh_drops_what_vanished() {
    let root = p("/proj/content");
    let mut state = AssetBrowserState::new();
    state.sync_root(&root);
    state.select_folder(&p("/proj/content/gone"));
    state.select_item(&p("/proj/content/gone/a.txt"));
    state.begin_move_with(&p("/proj/content/gone/a.txt"), true);
    state.refresh_selection_with(&root, false, false, true);
    assert_eq!(state.selected_folder(&root), root);
    assert!(state.pending_move().is_none());
}

#[test]
fn create_folder_checks_the_name() {
    let parent = p("/proj/content");
    let mut state = AssetBrowserState::new();
    state.edit_new_folder_name("   ".to_string());
    assert!(state.plan_create_folder_with(&parent, true).is_none());
    assert_eq!(message(&state), error("Folder name cannot be empty."));
    state.edit_new_folder_name("a/b".to_string());
    assert!(state.plan_create_folder_with(&parent, true).is_none());
    assert_eq!(message(&state), error("Folder name cannot contain path separators or ':' characters."));
    state.edit_new_folder_name(" textures ".to_string());
    assert!(state.plan_create_folder_with(&parent, false).is_none());
    assert_eq!(message(&state), error("Selected folder no longer exists."));
    state.edit_new_folder_name(" textures ".to_string());
    let planned = state.plan_create_folder_with(&parent, true);
    assert_eq!(planned, Some(p("/proj/content/textures")));
}

#[test]
fn create_folder_outcomes() {
    let new_path = p("/proj/content/textures");
    let mut state = AssetBrowserState::new();
    state.edit_new_folder_name("textures".to_string());
    state.finish_create_folder(&new_path, FolderCreation::AlreadyExists);
    assert_eq!(message(&state), error("Folder 'textures' already exists."));
    state.finish_create_folder(&new_path, FolderCreation::Failed("denied".to_string()));
    assert_eq!(message(&state), error("Failed to create folder 'textures': denied"));
    state.finish_create_folder(&new_path, FolderCreation::Created);
    assert_eq!(message(&state), info("Created folder 'textures'."));
    assert_eq!(state.new_folder_name(), "");
    assert_eq!(state.selected_folder(&p("/proj/content")), new_path);
}

#[test]
fn rename_keeps_the_extension() {
    let original = p("/proj/content/rock.gltf");
    let mut state = AssetBrowserState::new();
    state.start_rename(&original);
    assert_eq!(state.rename_buffer(), "rock.gltf");
    assert!(state.take_rename_focus());
    assert!(!state.take_rename_focus());
    state.edit_rename_buffer(" boulder ".to_string());
    assert_eq!(state.rename_candidate(&original), Some(p("/proj/content/boulder.gltf")));
    assert_eq!(state.plan_rename_with(&original, false), Some(p("/proj/content/boulder.gltf")));
    state.edit_rename_buffer("boulder".to_string());
    assert!(state.plan_rename_with(&original, true).is_none());
    assert_eq!(message(&state), error("Another item with that name already exists."));
}

#[test]
fn rename_refusals() {
    let original = p("/proj/content/rock.gltf");
    let mut state = AssetBrowserState::new();
    assert!(state.plan_rename_with(&original, false).is_none());
    assert_eq!(message(&state), None);
    state.start_rename(&original);
    state.edit_rename_buffer("".to_string());
    assert!(state.plan_rename_with(&original, false).is_none());
    assert_eq!(message(&state), error("Name cannot be empty."));
    state.edit_rename_buffer("x:y".to_string());
    assert!(state.plan_rename_with(&original, false).is_none());
    assert_eq!(message(&state), error("Names cannot contain path separators or ':' characters."));
    // The same name drops the rename.
    state.edit_rename_buffer("rock".to_string());
    assert!(state.plan_rename_with(&original, false).is_none());
    assert_eq!(state.rename_buffer(), "");
    assert!(state.plan_rename_with(&original, false).is_none());
}

#[test]
fn finished_rename_moves_the_selection() {
    let original = p("/proj/content/rock.gltf");
    let renamed = p("/proj/content/boulder.gltf");
    let mut state = AssetBrowserState::new();
    state.select_item(&original);
    state.start_rename(&original);
    assert!(!state.finish_rename(&original, &renamed, Err("busy".to_string())));
    assert_eq!(message(&state), error("Failed to rename 'rock.gltf': busy"));
    assert!(state.finish_rename(&original, &renamed, Ok(())));
    assert_eq!(message(&state), info("Renamed 'rock.gltf' to 'boulder.gltf'"));
    assert_eq!(state.rename_buffer(), "");
    state.cancel_rename();
}

#[test]
fn duplicate_plans_and_outcomes() {
    let path = p("/proj/content/rock.gltf");
    let mut state = AssetBrowserState::new();
    assert!(state.plan_duplicate_with(&path, false).is_none());
    assert_eq!(message(&state), error("Item no longer exists."));
    let (parent, base, ext) = state.plan_duplicate_with(&path, true).unwrap();
    assert_eq!(parent, p("/proj/content"));
    assert_eq!(base, "rock copy");
    assert_eq!(ext, Some("gltf".to_string()));
    let copy = p("/proj/content/rock copy.gltf");
    assert!(state.finish_duplicate(&path, &copy, Ok(())));
    assert_eq!(message(&state), info("Duplicated 'rock.gltf'"));
    assert!(!state.finish_duplicate(&path, &copy, Err("full".to_string())));
    assert_eq!(message(&state), error("Failed to duplicate 'rock.gltf': full"));
}

#[test]
fn delete_resets_what_was_inside() {
    let root = p("/proj/content");
    let folder = p("/proj/content/models");
    let mut state = AssetBrowserState::new();
    assert!(!state.plan_delete_with(false));
    assert_eq!(message(&state), error("Item no longer exists."));
    assert!(state.plan_delete_with(true));
    state.select_folder(&p("/proj/content/models/trees"));
    state.select_item(&folder);
    assert!(state.finish_delete(&root, &folder, Ok(())));
    assert_eq!(message(&state), info("Deleted 'models'"));
    assert_eq!(state.selected_folder(&root), root);
    assert!(!state.finish_delete(&root, &folder, Err("locked".to_string())));
    assert_eq!(message(&state), error("Failed to delete 'models': locked"));
}

#[test]
fn move_checks() {
    let source = p("/proj/content/models");
    let mut state = AssetBrowserState::new();
    assert!(state.plan_move_with(&p("/proj/content/other"), true, true).is_none());
    state.begin_move_with(&source, false);
    assert!(state.pending_move().is_none());
    state.begin_move_with(&source, true);
    assert_eq!(state.pending_move(), Some(&source));
    assert_eq!(message(&state), info("Select a destination folder and click 'Move Here'."));
    assert!(state.plan_move_with(&source, true, true).is_none());
    assert_eq!(message(&state), error("Cannot move a folder into itself."));
    assert!(state.plan_move_with(&p("/proj/content/models/trees"), true, true).is_none());
    assert_eq!(message(&state), error("Cannot move a folder into one of its subfolders."));
    assert!(state.plan_move_with(&p("/proj/content/other"), true, false).is_none());
    assert_eq!(message(&state), error("Destination folder no longer exists."));
    assert_eq!(
        state.plan_move_with(&p("/proj/content/other"), true, true),
        Some((source.clone(), p("/proj/content/other/models")))
    );
    assert!(state.plan_move_with(&p("/proj/content"), true, true).is_none());
    assert_eq!(message(&state), info("Item is already in this folder."));
    assert!(state.pending_move().is_none());
    state.begin_move_with(&source, true);
    assert!(state.plan_move_with(&p("/proj/content/other"), false, true).is_none());
    assert_eq!(message(&state), error("Item no longer exists."));
    assert!(state.pending_move().is_none());
}

#[test]
fn finished_move_follows_the_item() {
    let source = p("/proj/content/a.txt");
    let destination = p("/proj/content/sub/a.txt");
    let mut state = AssetBrowserState::new();
    state.select_item(&source);
    state.begin_move_with(&source, true);
    assert!(!state.finish_move(&source, &destination, Err("nope".to_string())));
    assert_eq!(message(&state), error("Failed to move 'a.txt': nope"));
    assert!(state.finish_move(&source, &destination, Ok(())));
    assert_eq!(message(&state), info("Moved 'a.txt'"));
    assert!(state.pending_move().is_none());
    state.cancel_move();
    assert_eq!(message(&state), None);
}

#[test]
fn browser_labels() {
    let root = p("/proj/content");
    assert_eq!(folder_heading(&root, &root), "Folder: content");
    assert_eq!(folder_heading(&p("/proj/content/a/b"), &root), "Folder: a/b");
    assert_eq!(folder_heading(&p("/x"), &root), "Folder: content");
    assert_eq!(folder_label(&root, &root), "content");
    assert_eq!(folder_label(&p("/proj/content/models"), &root), "models");
    assert_eq!(folder_label(&p("/"), &root), "<folder>");
    assert_eq!(entry_label(&p("/proj/content/models"), true), "📁 models");
    assert_eq!(entry_label(&p("/proj/content/a.txt"), false), "📄 a.txt");
    assert_eq!(moving_label(&p("/proj/content/a.txt")), Some("Moving: a.txt".to_string()));
    assert_eq!(moving_label(&p("/")), None);
    assert_eq!(selected_label(&p("/proj/content/a.txt"), &root), Some("Selected: a.txt".to_string()));
    assert_eq!(selected_label(&p("/other/a.txt"), &root), None);
}

#[test]
fn browser_system_hands_out_its_state() {
    let mut system = AssetBrowserSystem::new(AssetBrowserState::new());
    system.state_mut().report_info("hello".to_string());
    assert_eq!(message(&system.state), info("hello"));
}
