//! The script and shader editor windows: which editor is open and on what,
//! whether the window may be drawn, what its events ask for, and how the
//! saves it asked for are reported back. `E` is the state of the open
//! editor.

use crate::commands::{EditorCommand, PendingScriptAction, PendingShaderAction};
use crate::text::{concat, string_from};
use std::collections::VecDeque;
use vstd::prelude::*;

verus! {

/// What the script editor window reported this frame.
pub enum ScriptEditorEvent {
    Nothing,
    Closed,
    SaveInline { entity: u64, name: String, contents: String, message: String },
    SaveFile { entity: u64, message: String },
}

/// The script editor window, open on the script of one entity.
pub struct ScriptEditorSystem<E> {
    editor: Option<E>,
    target: u64,
    window_enabled: bool,
}

impl<E> ScriptEditorSystem<E> {
    pub closed spec fn open_editor(&self) -> Option<E> {
        self.editor
    }

    /// The entity whose script the open editor shows.
    pub closed spec fn target(&self) -> Option<u64> {
        if self.editor is Some {
            Some(self.target)
        } else {
            None
        }
    }

    pub closed spec fn enabled(&self) -> bool {
        self.window_enabled
    }

    /// No editor open, window disabled.
    pub fn new() -> (r: Self)
        ensures
            r.open_editor() is None,
            r.target() is None,
            !r.enabled(),
    {
        ScriptEditorSystem { editor: None, target: 0, window_enabled: false }
    }

    pub fn set_window_enabled(&mut self, enabled: bool)
        ensures
            final(self).enabled() == enabled,
            final(self).open_editor() == old(self).open_editor(),
            final(self).target() == old(self).target(),
    {
        self.window_enabled = enabled;
    }

    pub fn is_window_enabled(&self) -> (r: bool)
        ensures
            r == self.enabled(),
    {
        self.window_enabled
    }

    /// Opens the editor on the script of `entity`. When it is already open
    /// on that entity it is kept (to be synced with the script) and `true`
    /// is returned; otherwise `editor` takes its place.
    pub fn open_script_editor(&mut self, entity: u64, editor: E) -> (kept: bool)
        ensures
            kept == (old(self).target() == Some(entity)),
            kept ==> final(self).open_editor() == old(self).open_editor(),
            !kept ==> final(self).open_editor() == Some(editor),
            final(self).target() == Some(entity),
            final(self).enabled() == old(self).enabled(),
    {
        if self.editor.is_some() && self.target == entity {
            return true;
        }
        self.editor = Some(editor);
        self.target = entity;
        false
    }

    /// Closes the open editor.
    pub fn close(&mut self)
        ensures
            final(self).open_editor() is None,
            final(self).target() is None,
            final(self).enabled() == old(self).enabled(),
    {
        self.editor = None;
    }

    pub fn editor(&self) -> (r: Option<&E>)
        ensures
            match r {
                Some(e) => self.open_editor() == Some(*e),
                None => self.open_editor() is None,
            },
    {
        match &self.editor {
            Some(e) => Some(e),
            None => None,
        }
    }

    /// The open editor, to update in place.
    pub fn editor_mut(&mut self) -> (r: Option<&mut E>)
        ensures
            match old(self).open_editor() {
                None => r is None && final(self).open_editor() is None,
                Some(e) => r is Some && *r.unwrap() == e && final(self).open_editor() == Some(*final(r.unwrap())),
            },
            final(self).target() == old(self).target(),
            final(self).enabled() == old(self).enabled(),
    {
        self.editor.as_mut()
    }

    /// Whether messages about the script of `entity` go to the open editor.
    pub fn is_editing(&self, entity: u64) -> (r: bool)
        ensures
            r == (self.target() == Some(entity)),
    {
        self.editor.is_some() && self.target == entity
    }

    /// Whether the window is drawn this frame: it is enabled and an editor
    /// is open.
    pub fn shows_window(&self) -> (r: bool)
        ensures
            r == (self.enabled() && self.open_editor() is Some),
    {
        self.window_enabled && self.editor.is_some()
    }

    /// Acts on what the window reported: closing drops the editor; a save
    /// of an inline script queues it; a save of a script file queues a
    /// reload of the script runtime.
    pub fn handle_event<A, C>(&mut self, event: ScriptEditorEvent, queue: &mut VecDeque<EditorCommand<A, C>>)
        ensures
            final(self).enabled() == old(self).enabled(),
            match event {
                ScriptEditorEvent::Nothing => final(self).open_editor() == old(self).open_editor() && final(self).target()
                    == old(self).target() && final(queue)@ == old(queue)@,
                ScriptEditorEvent::Closed => final(self).open_editor() is None && final(queue)@ == old(queue)@,
                ScriptEditorEvent::SaveInline { entity, name, contents, message } => final(self).open_editor()
                    == old(self).open_editor() && final(self).target() == old(self).target() && final(queue)@
                    == old(queue)@.push(
                    EditorCommand::Script(PendingScriptAction::SaveInline { entity, name, contents, message }),
                ),
                ScriptEditorEvent::SaveFile { entity, message } => final(self).open_editor()
                    == old(self).open_editor() && final(self).target() == old(self).target() && final(queue)@
                    == old(queue)@.push(EditorCommand::Script(PendingScriptAction::ReloadRuntime { entity, message })),
            },
    {
        match event {
            ScriptEditorEvent::Nothing => {},
            ScriptEditorEvent::Closed => {
                self.editor = None;
            },
            ScriptEditorEvent::SaveInline { entity, name, contents, message } => {
                queue.push_back(EditorCommand::Script(PendingScriptAction::SaveInline { entity, name, contents, message }));
            },
            ScriptEditorEvent::SaveFile { entity, message } => {
                queue.push_back(EditorCommand::Script(PendingScriptAction::ReloadRuntime { entity, message }));
            },
        }
    }
}

/// What the shader editor window reported this frame.
pub enum ShaderEditorEvent {
    Nothing,
    Closed,
    Save { entity: u64, handle: usize, contents: String, message: String },
}

/// The shader editor window, open on the shader of one material of one
/// entity.
pub struct ShaderEditorSystem<E> {
    editor: Option<E>,
    target: (u64, usize),
    window_enabled: bool,
}

impl<E> ShaderEditorSystem<E> {
    pub closed spec fn open_editor(&self) -> Option<E> {
        self.editor
    }

    /// The entity and material handle whose shader the open editor shows.
    pub closed spec fn target(&self) -> Option<(u64, usize)> {
        if self.editor is Some {
            Some(self.target)
        } else {
            None
        }
    }

    pub closed spec fn enabled(&self) -> bool {
        self.window_enabled
    }

    /// No editor open, window disabled.
    pub fn new() -> (r: Self)
        ensures
            r.open_editor() is None,
            r.target() is None,
            !r.enabled(),
    {
        ShaderEditorSystem { editor: None, target: (0, 0), window_enabled: false }
    }

    pub fn set_window_enabled(&mut self, enabled: bool)
        ensures
            final(self).enabled() == enabled,
            final(self).open_editor() == old(self).open_editor(),
            final(self).target() == old(self).target(),
    {
        self.window_enabled = enabled;
    }

    pub fn is_window_enabled(&self) -> (r: bool)
        ensures
            r == self.enabled(),
    {
        self.window_enabled
    }

    /// Opens the editor on the shader of material `handle` of `entity`.
    /// When it is already open on that pair it is kept (to be synced with
    /// the material) and `true` is returned; otherwise `editor` takes its
    /// place.
    pub fn open_shader_editor(&mut self, entity: u64, handle: usize, editor: E) -> (kept: bool)
        ensures
            kept == (old(self).target() == Some((entity, handle))),
            kept ==> final(self).open_editor() == old(self).open_editor(),
            !kept ==> final(self).open_editor() == Some(editor),
            final(self).target() == Some((entity, handle)),
            final(self).enabled() == old(self).enabled(),
    {
        if self.editor.is_some() && self.target.0 == entity && self.target.1 == handle {
            return true;
        }
        self.editor = Some(editor);
        self.target = (entity, handle);
        false
    }

    /// Closes the open editor.
    pub fn close(&mut self)
        ensures
            final(self).open_editor() is None,
            final(self).target() is None,
            final(self).enabled() == old(self).enabled(),
    {
        self.editor = None;
    }

    pub fn editor(&self) -> (r: Option<&E>)
        ensures
            match r {
                Some(e) => self.open_editor() == Some(*e),
                None => self.open_editor() is None,
            },
    {
        match &self.editor {
            Some(e) => Some(e),
            None => None,
        }
    }

    /// The open editor, to update in place.
    pub fn editor_mut(&mut self) -> (r: Option<&mut E>)
        ensures
            match old(self).open_editor() {
                None => r is None && final(self).open_editor() is None,
                Some(e) => r is Some && *r.unwrap() == e && final(self).open_editor() == Some(*final(r.unwrap())),
            },
            final(self).target() == old(self).target(),
            final(self).enabled() == old(self).enabled(),
    {
        self.editor.as_mut()
    }

    /// Whether messages about material `handle` go to the open editor.
    pub fn is_editing(&self, handle: usize) -> (r: bool)
        ensures
            r == (self.target() matches Some(t) && t.1 == handle),
    {
        self.editor.is_some() && self.target.1 == handle
    }

    /// Whether the window is drawn this frame: it is enabled and an editor
    /// is open.
    pub fn shows_window(&self) -> (r: bool)
        ensures
            r == (self.enabled() && self.open_editor() is Some),
    {
        self.window_enabled && self.editor.is_some()
    }

    /// Acts on what the window reported: closing drops the editor; a save
    /// queues the new source for the material.
    pub fn handle_event<A, C>(&mut self, event: ShaderEditorEvent, queue: &mut VecDeque<EditorCommand<A, C>>)
        ensures
            final(self).enabled() == old(self).enabled(),
            match event {
                ShaderEditorEvent::Nothing => final(self).open_editor() == old(self).open_editor() && final(self).target()
                    == old(self).target() && final(queue)@ == old(queue)@,
                ShaderEditorEvent::Closed => final(self).open_editor() is None && final(queue)@ == old(queue)@,
                ShaderEditorEvent::Save { entity, handle, contents, message } => final(self).open_editor()
                    == old(self).open_editor() && final(self).target() == old(self).target() && final(queue)@
                    == old(queue)@.push(EditorCommand::Shader(PendingShaderAction::Save { handle, contents, message })),
            },
    {
        match event {
            ShaderEditorEvent::Nothing => {},
            ShaderEditorEvent::Closed => {
                self.editor = None;
            },
            ShaderEditorEvent::Save { entity, handle, contents, message } => {
                queue.push_back(EditorCommand::Shader(PendingShaderAction::Save { handle, contents, message }));
            },
        }
    }
}

/// Why the open script editor no longer has a script to show, given
/// whether its entity still exists and still has a script; `None` when it
/// does.
pub fn script_target_problem(entity_exists: bool, has_script: bool) -> (r: Option<String>)
    ensures
        !entity_exists ==> (r matches Some(m) && m@ == "Entity has been removed."@),
        entity_exists && !has_script ==> (r matches Some(m) && m@ == "Script component removed from entity."@),
        entity_exists && has_script ==> r is None,
{
    if !entity_exists {
        Some(string_from("Entity has been removed."))
    } else if !has_script {
        Some(string_from("Script component removed from entity."))
    } else {
        None
    }
}

/// What the material of the open shader editor has become.
pub enum ShaderTarget {
    EntityRemoved,
    MaterialRemoved,
    NotShader,
    Shader,
}

/// Why the open shader editor no longer has a shader to show; `None` when
/// it does.
pub fn shader_target_problem(target: ShaderTarget) -> (r: Option<String>)
    ensures
        target is EntityRemoved ==> (r matches Some(m) && m@ == "Entity has been removed."@),
        target is MaterialRemoved ==> (r matches Some(m) && m@ == "Material asset has been removed."@),
        target is NotShader ==> (r matches Some(m) && m@ == "Material is no longer a shader material."@),
        target is Shader ==> r is None,
{
    match target {
        ShaderTarget::EntityRemoved => Some(string_from("Entity has been removed.")),
        ShaderTarget::MaterialRemoved => Some(string_from("Material asset has been removed.")),
        ShaderTarget::NotShader => Some(string_from("Material is no longer a shader material.")),
        ShaderTarget::Shader => None,
    }
}

/// How applying one queued script action went.
pub enum ScriptActionResult {
    /// An inline script was saved; `outcome` is the error of updating the
    /// entity's script, if any.
    SaveInline { entity: u64, message: String, outcome: Result<(), String> },
    /// A script file was saved; the runtime reloads it.
    ReloadRuntime { entity: u64, message: String },
}

/// What to tell the script editor and the scene after a batch of script
/// actions.
pub struct ScriptSaveReport {
    /// Errors to report, in order, per entity.
    pub errors: Vec<(u64, String)>,
    /// Saves to confirm, in order, per entity; there are none unless the
    /// runtime is reset.
    pub saved: Vec<(u64, String)>,
    /// Whether the script runtime is reset.
    pub reload_runtime: bool,
    /// How many scene changes to record.
    pub scene_changes: usize,
}

/// Whether an action leads to a runtime reset.
pub open spec fn script_action_applied(r: ScriptActionResult) -> bool {
    match r {
        ScriptActionResult::SaveInline { outcome, .. } => outcome is Ok,
        ScriptActionResult::ReloadRuntime { .. } => true,
    }
}

/// The error notices of a batch, in order.
pub open spec fn script_errors(rs: Seq<ScriptActionResult>) -> Seq<(u64, Seq<char>)>
    decreases rs.len(),
{
    if rs.len() == 0 {
        seq![]
    } else {
        let prev = script_errors(rs.drop_last());
        match rs.last() {
            ScriptActionResult::SaveInline { entity, outcome: Err(e), .. } => prev.push(
                (entity, "Failed to update inline script: "@ + e@),
            ),
            _ => prev,
        }
    }
}

/// The confirmations of the actions that were applied, in order.
pub open spec fn script_confirmations(rs: Seq<ScriptActionResult>) -> Seq<(u64, Seq<char>)>
    decreases rs.len(),
{
    if rs.len() == 0 {
        seq![]
    } else {
        let prev = script_confirmations(rs.drop_last());
        match rs.last() {
            ScriptActionResult::SaveInline { entity, message, outcome: Ok(_) } => prev.push((entity, message@)),
            ScriptActionResult::ReloadRuntime { entity, message } => prev.push((entity, message@)),
            _ => prev,
        }
    }
}

/// How many inline saves were applied.
pub open spec fn inline_saves(rs: Seq<ScriptActionResult>) -> nat
    decreases rs.len(),
{
    if rs.len() == 0 {
        0
    } else {
        inline_saves(rs.drop_last()) + match rs.last() {
            ScriptActionResult::SaveInline { outcome: Ok(_), .. } => 1nat,
            _ => 0nat,
        }
    }
}

/// The abstract form of a list of notices.
pub open spec fn notices_view<K>(v: Seq<(K, String)>) -> Seq<(K, Seq<char>)> {
    v.map_values(|n: (K, String)| (n.0, n.1@))
}

/// The report of a batch of script actions: an error for each inline save
/// that failed; when any action was applied, the runtime is reset and each
/// applied action confirmed; each applied inline save is a scene change.
pub fn script_save_report(results: &Vec<ScriptActionResult>) -> (r: ScriptSaveReport)
    ensures
        notices_view(r.errors@) == script_errors(results@),
        r.reload_runtime == (exists|i: int| 0 <= i < results@.len() && script_action_applied(#[trigger] results@[i])),
        notices_view(r.saved@) == if r.reload_runtime {
            script_confirmations(results@)
        } else {
            seq![]
        },
        r.scene_changes == inline_saves(results@),
{
    let mut errors: Vec<(u64, String)> = Vec::new();
    let mut saved: Vec<(u64, String)> = Vec::new();
    let mut reload = false;
    let mut changes: usize = 0;
    let mut i: usize = 0;
    while i < results.len()
        invariant
            i <= results@.len(),
            notices_view(errors@) == script_errors(results@.take(i as int)),
            notices_view(saved@) == script_confirmations(results@.take(i as int)),
            reload == (exists|j: int| 0 <= j < i && script_action_applied(#[trigger] results@[j])),
            changes == inline_saves(results@.take(i as int)),
            changes <= i,
        decreases results.len() - i,
    {
        proof {
            assert(results@.take(i + 1).drop_last() =~= results@.take(i as int));
            assert(results@.take(i + 1).last() == results@[i as int]);
        }
        let ghost e0 = errors@;
        let ghost s0 = saved@;
        match &results[i] {
            ScriptActionResult::SaveInline { entity, message, outcome } => match outcome {
                Ok(()) => {
                    saved.push((*entity, message.clone()));
                    reload = true;
                    changes = changes + 1;
                    proof {
                        assert(notices_view(saved@) =~= notices_view(s0).push((*entity, message@)));
                        assert(script_action_applied(results@[i as int]));
                    }
                },
                Err(e) => {
                    errors.push((*entity, concat("Failed to update inline script: ", e.as_str())));
                    proof {
                        assert(notices_view(errors@) =~= notices_view(e0).push(
                            (*entity, "Failed to update inline script: "@ + e@),
                        ));
                    }
                },
            },
            ScriptActionResult::ReloadRuntime { entity, message } => {
                saved.push((*entity, message.clone()));
                reload = true;
                proof {
                    assert(notices_view(saved@) =~= notices_view(s0).push((*entity, message@)));
                    assert(script_action_applied(results@[i as int]));
                }
            },
        }
        i = i + 1;
    }
    proof {
        assert(results@.take(results@.len() as int) =~= results@);
    }
    if !reload {
        saved = Vec::new();
        proof {
            assert(notices_view(saved@) =~= Seq::<(u64, Seq<char>)>::empty());
        }
    }
    ScriptSaveReport { errors, saved, reload_runtime: reload, scene_changes: changes }
}

/// How applying one queued shader save went.
pub enum ShaderSaveOutcome {
    /// The material is gone.
    MaterialMissing,
    /// The material has no shader.
    NotShader,
    /// The shader has no file; the new source was kept in the material.
    Inline,
    /// The new source was written to the shader's file.
    Written,
    /// Writing the file at `path` failed with `error`.
    WriteFailed { path: String, error: String },
}

/// One shader save and how it went.
pub struct ShaderActionResult {
    pub handle: usize,
    pub message: String,
    pub outcome: ShaderSaveOutcome,
}

/// What to tell the shader editor, the renderer and the scene after a
/// batch of shader saves.
pub struct ShaderSaveReport {
    /// Errors to report, in order, per material.
    pub errors: Vec<(usize, String)>,
    /// Saves to confirm, in order, per material.
    pub saved: Vec<(usize, String)>,
    /// Materials whose shader modules are rebuilt, in order; each is also
    /// a scene change.
    pub updated: Vec<usize>,
}

/// Whether a save took effect.
pub open spec fn shader_save_applied(o: ShaderSaveOutcome) -> bool {
    o is Inline || o is Written
}

/// The error message of a save that did not take effect.
pub open spec fn shader_save_error(o: ShaderSaveOutcome) -> Option<Seq<char>> {
    match o {
        ShaderSaveOutcome::MaterialMissing => Some("Material asset not found."@),
        ShaderSaveOutcome::NotShader => Some("Material is not a shader material."@),
        ShaderSaveOutcome::WriteFailed { path, error } => Some(
            "Failed to write shader file "@ + path@ + ": "@ + error@,
        ),
        _ => None,
    }
}

/// The error notices of a batch, in order.
pub open spec fn shader_errors(rs: Seq<ShaderActionResult>) -> Seq<(usize, Seq<char>)>
    decreases rs.len(),
{
    if rs.len() == 0 {
        seq![]
    } else {
        let prev = shader_errors(rs.drop_last());
        match shader_save_error(rs.last().outcome) {
            Some(m) => prev.push((rs.last().handle, m)),
            None => prev,
        }
    }
}

/// The saves that took effect, in order.
pub open spec fn shader_confirmations(rs: Seq<ShaderActionResult>) -> Seq<(usize, Seq<char>)>
    decreases rs.len(),
{
    if rs.len() == 0 {
        seq![]
    } else {
        let prev = shader_confirmations(rs.drop_last());
        if shader_save_applied(rs.last().outcome) {
            prev.push((rs.last().handle, rs.last().message@))
        } else {
            prev
        }
    }
}

fn shader_error_message(o: &ShaderSaveOutcome) -> (r: Option<String>)
    ensures
        match r {
            Some(m) => shader_save_error(*o) == Some(m@),
            None => shader_save_error(*o) is None,
        },
{
    match o {
        ShaderSaveOutcome::MaterialMissing => Some(string_from("Material asset not found.")),
        ShaderSaveOutcome::NotShader => Some(string_from("Material is not a shader material.")),
        ShaderSaveOutcome::WriteFailed { path, error } => {
            let mut m = concat("Failed to write shader file ", path.as_str());
            m.append(": ");
            m.append(error.as_str());
            Some(m)
        },
        ShaderSaveOutcome::Inline => None,
        ShaderSaveOutcome::Written => None,
    }
}

/// The report of a batch of shader saves: an error for each save that did
/// not take effect, and for each that did a confirmation and a rebuild of
/// its material's shader modules.
pub fn shader_save_report(results: &Vec<ShaderActionResult>) -> (r: ShaderSaveReport)
    ensures
        notices_view(r.errors@) == shader_errors(results@),
        notices_view(r.saved@) == shader_confirmations(results@),
        r.updated@ == shader_confirmations(results@).map_values(|n: (usize, Seq<char>)| n.0),
{
    let mut errors: Vec<(usize, String)> = Vec::new();
    let mut saved: Vec<(usize, String)> = Vec::new();
    let mut updated: Vec<usize> = Vec::new();
    let mut i: usize = 0;
    while i < results.len()
        invariant
            i <= results@.len(),
            notices_view(errors@) == shader_errors(results@.take(i as int)),
            notices_view(saved@) == shader_confirmations(results@.take(i as int)),
            updated@ == shader_confirmations(results@.take(i as int)).map_values(|n: (usize, Seq<char>)| n.0),
        decreases results.len() - i,
    {
        proof {
            assert(results@.take(i + 1).drop_last() =~= results@.take(i as int));
            assert(results@.take(i + 1).last() == results@[i as int]);
        }
        let item = &results[i];
        let ghost e0 = errors@;
        let ghost s0 = saved@;
        let ghost u0 = updated@;
        let applied = match &item.outcome {
            ShaderSaveOutcome::Inline => true,
            ShaderSaveOutcome::Written => true,
            _ => false,
        };
        if applied {
            saved.push((item.handle, item.message.clone()));
            updated.push(item.handle);
            proof {
                assert(notices_view(saved@) =~= notices_view(s0).push((item.handle, item.message@)));
                let c = shader_confirmations(results@.take(i as int));
                assert(c.push((item.handle, item.message@)).map_values(|n: (usize, Seq<char>)| n.0) =~= c.map_values(
                    |n: (usize, Seq<char>)| n.0,
                ).push(item.handle));
            }
        }
        match shader_error_message(&item.outcome) {
            Some(m) => {
                errors.push((item.handle, m));
                proof {
                    assert(notices_view(errors@) =~= notices_view(e0).push((item.handle, m@)));
                }
            },
            None => {},
        }
        i = i + 1;
    }
    proof {
        assert(results@.take(results@.len() as int) =~= results@);
    }
    ShaderSaveReport { errors, saved, updated }
}

} // verus!
