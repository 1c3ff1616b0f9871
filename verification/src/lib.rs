//! Verified core logic of the scene editor: undo history, identifiers,
//! asset paths, naming rules, plugin registry and the editor's command flow.

pub mod text;
pub mod history;
pub mod ids;
pub mod selection;
pub mod commands;
pub mod paths;
pub mod plugins;
pub mod import;
pub mod editor_state;
pub mod player_build;
pub mod project_io;
pub mod project;
pub mod editor_windows;
pub mod path_order;
pub mod listing;
pub mod asset_browser;
pub mod watchers;
pub mod history_system;
pub mod shaders;
pub mod particles;
pub mod environment;
pub mod scripts;
pub mod hierarchy;
pub mod scene_rename;
