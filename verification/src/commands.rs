//! The editor's command queue and how each system takes its share of it.

use std::collections::VecDeque;
use vstd::prelude::*;

verus! {

/// A script edit waiting to be applied; entities by bit pattern.
pub enum PendingScriptAction {
    SaveInline { entity: u64, name: String, contents: String, message: String },
    ReloadRuntime { entity: u64, message: String },
}

/// A shader edit waiting to be applied to the material `handle`.
pub enum PendingShaderAction {
    Save { handle: usize, contents: String, message: String },
}

/// A queued editor command. `A` is an inspector action and `C` a
/// scene-creation action; both are carried through untouched.
pub enum EditorCommand<A, C> {
    ImportPath(String),
    DeleteEntity(u64),
    Inspector(A),
    CreateScene(C),
    Script(PendingScriptAction),
    Shader(PendingShaderAction),
    HistoryUndo,
    HistoryRedo,
    HistoryCommitTransforms,
    ActivateScene(String),
    CloseScene(String),
    NewScene,
    ReloadPlugin { entity: u64, path: String },
    LoadProject(String),
    CreateProject { name: String, location: String },
}

/// The kinds of inspector action that are handled apart from the queue.
#[derive(Clone, Copy, Debug, PartialEq, Eq, Structural)]
pub enum InspectorActionKind {
    /// Open the script editor on an entity's script.
    EditScript,
    /// Open the shader editor on a material's shader.
    EditShader,
    /// Any other action.
    Other,
}

/// Where an inspector action is handed once the inspector has been drawn.
#[derive(Clone, Copy, Debug, PartialEq, Eq, Structural)]
pub enum InspectorRoute {
    ScriptEditor,
    ShaderEditor,
    /// Queued as `EditorCommand::Inspector`.
    Queue,
}

/// Where an inspector action goes: script and shader edits open their
/// editors at once; every other action is queued as a command.
pub fn inspector_action_route(kind: InspectorActionKind) -> (r: InspectorRoute)
    ensures
        r == match kind {
            InspectorActionKind::EditScript => InspectorRoute::ScriptEditor,
            InspectorActionKind::EditShader => InspectorRoute::ShaderEditor,
            InspectorActionKind::Other => InspectorRoute::Queue,
        },
{
    match kind {
        InspectorActionKind::EditScript => InspectorRoute::ScriptEditor,
        InspectorActionKind::EditShader => InspectorRoute::ShaderEditor,
        InspectorActionKind::Other => InspectorRoute::Queue,
    }
}

/// The variant of a command, without its payload.
#[derive(Clone, Copy, Debug, PartialEq, Eq, Structural)]
pub enum CommandKind {
    ImportPath,
    DeleteEntity,
    Inspector,
    CreateScene,
    Script,
    Shader,
    HistoryUndo,
    HistoryRedo,
    HistoryCommitTransforms,
    ActivateScene,
    CloseScene,
    NewScene,
    ReloadPlugin,
    LoadProject,
    CreateProject,
}

pub open spec fn kind_of<A, C>(c: EditorCommand<A, C>) -> CommandKind {
    match c {
        EditorCommand::ImportPath(_) => CommandKind::ImportPath,
        EditorCommand::DeleteEntity(_) => CommandKind::DeleteEntity,
        EditorCommand::Inspector(_) => CommandKind::Inspector,
        EditorCommand::CreateScene(_) => CommandKind::CreateScene,
        EditorCommand::Script(_) => CommandKind::Script,
        EditorCommand::Shader(_) => CommandKind::Shader,
        EditorCommand::HistoryUndo => CommandKind::HistoryUndo,
        EditorCommand::HistoryRedo => CommandKind::HistoryRedo,
        EditorCommand::HistoryCommitTransforms => CommandKind::HistoryCommitTransforms,
        EditorCommand::ActivateScene(_) => CommandKind::ActivateScene,
        EditorCommand::CloseScene(_) => CommandKind::CloseScene,
        EditorCommand::NewScene => CommandKind::NewScene,
        EditorCommand::ReloadPlugin { .. } => CommandKind::ReloadPlugin,
        EditorCommand::LoadProject(_) => CommandKind::LoadProject,
        EditorCommand::CreateProject { .. } => CommandKind::CreateProject,
    }
}

impl<A, C> EditorCommand<A, C> {
    pub fn kind(&self) -> (k: CommandKind)
        ensures
            k == kind_of(*self),
    {
        match self {
            EditorCommand::ImportPath(_) => CommandKind::ImportPath,
            EditorCommand::DeleteEntity(_) => CommandKind::DeleteEntity,
            EditorCommand::Inspector(_) => CommandKind::Inspector,
            EditorCommand::CreateScene(_) => CommandKind::CreateScene,
            EditorCommand::Script(_) => CommandKind::Script,
            EditorCommand::Shader(_) => CommandKind::Shader,
            EditorCommand::HistoryUndo => CommandKind::HistoryUndo,
            EditorCommand::HistoryRedo => CommandKind::HistoryRedo,
            EditorCommand::HistoryCommitTransforms => CommandKind::HistoryCommitTransforms,
            EditorCommand::ActivateScene(_) => CommandKind::ActivateScene,
            EditorCommand::CloseScene(_) => CommandKind::CloseScene,
            EditorCommand::NewScene => CommandKind::NewScene,
            EditorCommand::ReloadPlugin { .. } => CommandKind::ReloadPlugin,
            EditorCommand::LoadProject(_) => CommandKind::LoadProject,
            EditorCommand::CreateProject { .. } => CommandKind::CreateProject,
        }
    }
}

/// The commands of `q` whose kind is in `ks`, in queue order.
pub open spec fn select<A, C>(q: Seq<EditorCommand<A, C>>, ks: Set<CommandKind>) -> Seq<EditorCommand<A, C>>
    decreases q.len(),
{
    if q.len() == 0 {
        seq![]
    } else {
        let r = select(q.drop_last(), ks);
        if ks.contains(kind_of(q.last())) {
            r.push(q.last())
        } else {
            r
        }
    }
}

/// Every kind but `k`.
pub open spec fn all_but(k: CommandKind) -> Set<CommandKind> {
    Set::full().remove(k)
}

/// Selecting from a prefix one longer adds the next command when its kind
/// is selected.
pub proof fn lemma_select_step<A, C>(q: Seq<EditorCommand<A, C>>, n: int, ks: Set<CommandKind>)
    requires
        0 <= n < q.len(),
    ensures
        select(q.take(n + 1), ks) == (if ks.contains(kind_of(q[n])) {
            select(q.take(n), ks).push(q[n])
        } else {
            select(q.take(n), ks)
        }),
{
    assert(q.take(n + 1).drop_last() =~= q.take(n));
}

/// The history steps a queue asks for.
#[derive(Clone, Copy, Debug, PartialEq, Eq, Structural)]
pub enum HistoryOp {
    Undo,
    Redo,
    CommitTransforms,
}

pub open spec fn history_kinds() -> Set<CommandKind> {
    set![CommandKind::HistoryUndo, CommandKind::HistoryRedo, CommandKind::HistoryCommitTransforms]
}

pub open spec fn op_matches<A, C>(op: HistoryOp, c: EditorCommand<A, C>) -> bool {
    match op {
        HistoryOp::Undo => c is HistoryUndo,
        HistoryOp::Redo => c is HistoryRedo,
        HistoryOp::CommitTransforms => c is HistoryCommitTransforms,
    }
}

/// Whether the queue asks for an undo or a redo.
pub open spec fn has_undo_or_redo<A, C>(q: Seq<EditorCommand<A, C>>) -> bool {
    select(q, set![CommandKind::HistoryUndo, CommandKind::HistoryRedo]).len() > 0
}

/// Kinds that stay queued after the history system's pass: everything but
/// history commands, and deletions too when an undo or redo happens.
pub open spec fn after_history_kinds<A, C>(q: Seq<EditorCommand<A, C>>) -> Set<CommandKind> {
    if has_undo_or_redo(q) {
        Set::full().difference(history_kinds()).remove(CommandKind::DeleteEntity)
    } else {
        Set::full().difference(history_kinds())
    }
}

/// Takes the scene-creation actions out of the queue, keeping the order of
/// both the actions and the other commands.
pub fn drain_scene_commands<A, C>(queue: &mut VecDeque<EditorCommand<A, C>>) -> (r: Vec<C>)
    ensures
        ({
            let sel = select(old(queue)@, set![CommandKind::CreateScene]);
            &&& r@.len() == sel.len()
            &&& forall|i: int| 0 <= i < sel.len() ==> sel[i] == EditorCommand::<A, C>::CreateScene(#[trigger] r@[i])
        }),
        final(queue)@ == select(old(queue)@, all_but(CommandKind::CreateScene)),
{
    let ghost q0 = queue@;
    let ghost ks = set![CommandKind::CreateScene];
    let len = queue.len();
    let mut pending: Vec<C> = Vec::new();
    let mut remaining: VecDeque<EditorCommand<A, C>> = VecDeque::new();
    let mut i: usize = 0;
    while i < len
        invariant
            len == q0.len(),
            i <= len,
            ks == set![CommandKind::CreateScene],
            queue@ == q0.skip(i as int),
            pending@.len() == select(q0.take(i as int), ks).len(),
            forall|j: int| 0 <= j < pending@.len() ==>
                select(q0.take(i as int), ks)[j] == EditorCommand::<A, C>::CreateScene(#[trigger] pending@[j]),
            remaining@ == select(q0.take(i as int), all_but(CommandKind::CreateScene)),
        decreases len - i,
    {
        let c = queue.pop_front().unwrap();
        proof {
            assert(c == q0[i as int]);
            assert(queue@ =~= q0.skip(i + 1));
            lemma_select_step(q0, i as int, ks);
            lemma_select_step(q0, i as int, all_but(CommandKind::CreateScene));
        }
        match c {
            EditorCommand::CreateScene(action) => {
                proof {
                    assert(ks.contains(kind_of(q0[i as int])));
                    assert(!all_but(CommandKind::CreateScene).contains(kind_of(q0[i as int])));
                }
                pending.push(action);
            },
            other => {
                proof {
                    assert(kind_of(q0[i as int]) != CommandKind::CreateScene);
                    assert(!ks.contains(kind_of(q0[i as int])));
                    assert(all_but(CommandKind::CreateScene).contains(kind_of(q0[i as int])));
                }
                remaining.push_back(other);
            },
        }
        i = i + 1;
    }
    proof {
        assert(q0.take(len as int) =~= q0);
    }
    *queue = remaining;
    pending
}

/// Takes the script actions out of the queue, in order.
pub fn drain_script_commands<A, C>(queue: &mut VecDeque<EditorCommand<A, C>>) -> (r: Vec<PendingScriptAction>)
    ensures
        ({
            let sel = select(old(queue)@, set![CommandKind::Script]);
            &&& r@.len() == sel.len()
            &&& forall|i: int| 0 <= i < sel.len() ==> sel[i] == EditorCommand::<A, C>::Script(#[trigger] r@[i])
        }),
        final(queue)@ == select(old(queue)@, all_but(CommandKind::Script)),
{
    let ghost q0 = queue@;
    let ghost ks = set![CommandKind::Script];
    let len = queue.len();
    let mut pending: Vec<PendingScriptAction> = Vec::new();
    let mut remaining: VecDeque<EditorCommand<A, C>> = VecDeque::new();
    let mut i: usize = 0;
    while i < len
        invariant
            len == q0.len(),
            i <= len,
            ks == set![CommandKind::Script],
            queue@ == q0.skip(i as int),
            pending@.len() == select(q0.take(i as int), ks).len(),
            forall|j: int| 0 <= j < pending@.len() ==>
                select(q0.take(i as int), ks)[j] == EditorCommand::<A, C>::Script(#[trigger] pending@[j]),
            remaining@ == select(q0.take(i as int), all_but(CommandKind::Script)),
        decreases len - i,
    {
        let c = queue.pop_front().unwrap();
        proof {
            assert(c == q0[i as int]);
            assert(queue@ =~= q0.skip(i + 1));
            lemma_select_step(q0, i as int, ks);
            lemma_select_step(q0, i as int, all_but(CommandKind::Script));
        }
        match c {
            EditorCommand::Script(action) => {
                proof {
                    assert(ks.contains(kind_of(q0[i as int])));
                    assert(!all_but(CommandKind::Script).contains(kind_of(q0[i as int])));
                }
                pending.push(action);
            },
            other => {
                proof {
                    assert(kind_of(q0[i as int]) != CommandKind::Script);
                    assert(!ks.contains(kind_of(q0[i as int])));
                    assert(all_but(CommandKind::Script).contains(kind_of(q0[i as int])));
                }
                remaining.push_back(other);
            },
        }
        i = i + 1;
    }
    proof {
        assert(q0.take(len as int) =~= q0);
    }
    *queue = remaining;
    pending
}

/// Takes the shader actions out of the queue, in order.
pub fn drain_shader_commands<A, C>(queue: &mut VecDeque<EditorCommand<A, C>>) -> (r: Vec<PendingShaderAction>)
    ensures
        ({
            let sel = select(old(queue)@, set![CommandKind::Shader]);
            &&& r@.len() == sel.len()
            &&& forall|i: int| 0 <= i < sel.len() ==> sel[i] == EditorCommand::<A, C>::Shader(#[trigger] r@[i])
        }),
        final(queue)@ == select(old(queue)@, all_but(CommandKind::Shader)),
{
    let ghost q0 = queue@;
    let ghost ks = set![CommandKind::Shader];
    let len = queue.len();
    let mut pending: Vec<PendingShaderAction> = Vec::new();
    let mut remaining: VecDeque<EditorCommand<A, C>> = VecDeque::new();
    let mut i: usize = 0;
    while i < len
        invariant
            len == q0.len(),
            i <= len,
            ks == set![CommandKind::Shader],
            queue@ == q0.skip(i as int),
            pending@.len() == select(q0.take(i as int), ks).len(),
            forall|j: int| 0 <= j < pending@.len() ==>
                select(q0.take(i as int), ks)[j] == EditorCommand::<A, C>::Shader(#[trigger] pending@[j]),
            remaining@ == select(q0.take(i as int), all_but(CommandKind::Shader)),
        decreases len - i,
    {
        let c = queue.pop_front().unwrap();
        proof {
            assert(c == q0[i as int]);
            assert(queue@ =~= q0.skip(i + 1));
            lemma_select_step(q0, i as int, ks);
            lemma_select_step(q0, i as int, all_but(CommandKind::Shader));
        }
        match c {
            EditorCommand::Shader(action) => {
                proof {
                    assert(ks.contains(kind_of(q0[i as int])));
                    assert(!all_but(CommandKind::Shader).contains(kind_of(q0[i as int])));
                }
                pending.push(action);
            },
            other => {
                proof {
                    assert(kind_of(q0[i as int]) != CommandKind::Shader);
                    assert(!ks.contains(kind_of(q0[i as int])));
                    assert(all_but(CommandKind::Shader).contains(kind_of(q0[i as int])));
                }
                remaining.push_back(other);
            },
        }
        i = i + 1;
    }
    proof {
        assert(q0.take(len as int) =~= q0);
    }
    *queue = remaining;
    pending
}

/// Selecting twice is selecting by both sets at once.
pub proof fn lemma_select_select<A, C>(q: Seq<EditorCommand<A, C>>, a: Set<CommandKind>, b: Set<CommandKind>)
    ensures
        select(select(q, a), b) == select(q, a.intersect(b)),
    decreases q.len(),
{
    if q.len() > 0 {
        lemma_select_select(q.drop_last(), a, b);
        let s = select(q.drop_last(), a);
        if a.contains(kind_of(q.last())) {
            assert(s.push(q.last()).drop_last() =~= s);
        }
    }
}

/// Whether the first `n` commands already ask for an undo or redo, stepwise.
pub proof fn lemma_undo_redo_step<A, C>(q: Seq<EditorCommand<A, C>>, n: int)
    requires
        0 <= n < q.len(),
    ensures
        has_undo_or_redo(q.take(n + 1)) == (has_undo_or_redo(q.take(n)) || q[n] is HistoryUndo
            || q[n] is HistoryRedo),
{
    lemma_select_step(q, n, set![CommandKind::HistoryUndo, CommandKind::HistoryRedo]);
}

/// Removes the entity deletions from the queue, keeping the rest in order.
fn drop_deletions<A, C>(queue: &mut VecDeque<EditorCommand<A, C>>)
    ensures
        final(queue)@ == select(old(queue)@, all_but(CommandKind::DeleteEntity)),
{
    let ghost q0 = queue@;
    let len = queue.len();
    let mut remaining: VecDeque<EditorCommand<A, C>> = VecDeque::new();
    let mut i: usize = 0;
    while i < len
        invariant
            len == q0.len(),
            i <= len,
            queue@ == q0.skip(i as int),
            remaining@ == select(q0.take(i as int), all_but(CommandKind::DeleteEntity)),
        decreases len - i,
    {
        let c = queue.pop_front().unwrap();
        proof {
            assert(c == q0[i as int]);
            assert(queue@ =~= q0.skip(i + 1));
            lemma_select_step(q0, i as int, all_but(CommandKind::DeleteEntity));
        }
        match c {
            EditorCommand::DeleteEntity(_) => {
                proof {
                    assert(!all_but(CommandKind::DeleteEntity).contains(kind_of(q0[i as int])));
                }
            },
            other => {
                proof {
                    assert(kind_of(q0[i as int]) != CommandKind::DeleteEntity);
                    assert(all_but(CommandKind::DeleteEntity).contains(kind_of(q0[i as int])));
                }
                remaining.push_back(other);
            },
        }
        i = i + 1;
    }
    proof {
        assert(q0.take(len as int) =~= q0);
    }
    *queue = remaining;
}

/// The history system's pass over the queue: takes out the undo, redo and
/// commit requests in order, and when an undo or redo is among them also
/// drops the queued entity deletions, which no longer refer to the restored
/// scene.
pub fn take_history_commands<A, C>(queue: &mut VecDeque<EditorCommand<A, C>>) -> (r: Vec<HistoryOp>)
    ensures
        ({
            let sel = select(old(queue)@, history_kinds());
            &&& r@.len() == sel.len()
            &&& forall|i: int| 0 <= i < sel.len() ==> op_matches(#[trigger] r@[i], sel[i])
        }),
        final(queue)@ == select(old(queue)@, after_history_kinds(old(queue)@)),
{
    let ghost q0 = queue@;
    let ghost others = Set::<CommandKind>::full().difference(history_kinds());
    let len = queue.len();
    let mut ops: Vec<HistoryOp> = Vec::new();
    let mut remaining: VecDeque<EditorCommand<A, C>> = VecDeque::new();
    let mut undo_or_redo = false;
    let mut i: usize = 0;
    while i < len
        invariant
            len == q0.len(),
            i <= len,
            others == Set::<CommandKind>::full().difference(history_kinds()),
            queue@ == q0.skip(i as int),
            ops@.len() == select(q0.take(i as int), history_kinds()).len(),
            forall|j: int| 0 <= j < ops@.len() ==>
                op_matches(#[trigger] ops@[j], select(q0.take(i as int), history_kinds())[j]),
            remaining@ == select(q0.take(i as int), others),
            undo_or_redo == has_undo_or_redo(q0.take(i as int)),
        decreases len - i,
    {
        let c = queue.pop_front().unwrap();
        proof {
            assert(c == q0[i as int]);
            assert(queue@ =~= q0.skip(i + 1));
            lemma_select_step(q0, i as int, history_kinds());
            lemma_select_step(q0, i as int, others);
            lemma_undo_redo_step(q0, i as int);
        }
        match c {
            EditorCommand::HistoryUndo => {
                ops.push(HistoryOp::Undo);
                undo_or_redo = true;
            },
            EditorCommand::HistoryRedo => {
                ops.push(HistoryOp::Redo);
                undo_or_redo = true;
            },
            EditorCommand::HistoryCommitTransforms => {
                ops.push(HistoryOp::CommitTransforms);
            },
            other => {
                proof {
                    assert(!history_kinds().contains(kind_of(q0[i as int])));
                    assert(others.contains(kind_of(q0[i as int])));
                }
                remaining.push_back(other);
            },
        }
        i = i + 1;
    }
    proof {
        assert(q0.take(len as int) =~= q0);
    }
    if undo_or_redo {
        drop_deletions(&mut remaining);
        proof {
            lemma_select_select(q0, others, all_but(CommandKind::DeleteEntity));
            assert(others.intersect(all_but(CommandKind::DeleteEntity)) =~= after_history_kinds(q0));
        }
    }
    *queue = remaining;
    ops
}

/// Opening or closing a scene document, by document id.
pub enum SceneRequest {
    Activate(String),
    Close(String),
}

/// What the update pass takes out of the queue, grouped by purpose.
pub struct UpdateBatch<A> {
    pub imports: Vec<String>,
    pub deletions: Vec<u64>,
    pub inspector: Vec<A>,
    pub scene_requests: Vec<SceneRequest>,
    pub new_scenes: usize,
    pub plugin_reloads: Vec<(u64, String)>,
    pub project_loads: Vec<String>,
    pub project_creates: Vec<(String, String)>,
}

/// Kinds that the update pass leaves for the other systems.
pub open spec fn deferred_kinds() -> Set<CommandKind> {
    set![
        CommandKind::Script,
        CommandKind::Shader,
        CommandKind::CreateScene,
        CommandKind::HistoryUndo,
        CommandKind::HistoryRedo,
        CommandKind::HistoryCommitTransforms,
    ]
}

pub open spec fn scene_request_matches<A, C>(r: SceneRequest, c: EditorCommand<A, C>) -> bool {
    match r {
        SceneRequest::Activate(id) => c == EditorCommand::<A, C>::ActivateScene(id),
        SceneRequest::Close(id) => c == EditorCommand::<A, C>::CloseScene(id),
    }
}

/// The update pass: sorts every command it handles into the batch, in
/// queue order within each group, and leaves the deferred kinds queued.
pub fn drain_update_commands<A, C>(queue: &mut VecDeque<EditorCommand<A, C>>) -> (b: UpdateBatch<A>)
    ensures
        ({
            let q = old(queue)@;
            let imports = select(q, set![CommandKind::ImportPath]);
            let deletions = select(q, set![CommandKind::DeleteEntity]);
            let inspector = select(q, set![CommandKind::Inspector]);
            let scenes = select(q, set![CommandKind::ActivateScene, CommandKind::CloseScene]);
            let reloads = select(q, set![CommandKind::ReloadPlugin]);
            let loads = select(q, set![CommandKind::LoadProject]);
            let creates = select(q, set![CommandKind::CreateProject]);
            &&& b.imports@.len() == imports.len()
            &&& forall|i: int| 0 <= i < imports.len() ==> imports[i] == EditorCommand::<A, C>::ImportPath(#[trigger] b.imports@[i])
            &&& b.deletions@.len() == deletions.len()
            &&& forall|i: int| 0 <= i < deletions.len() ==> deletions[i] == EditorCommand::<A, C>::DeleteEntity(#[trigger] b.deletions@[i])
            &&& b.inspector@.len() == inspector.len()
            &&& forall|i: int| 0 <= i < inspector.len() ==> inspector[i] == EditorCommand::<A, C>::Inspector(#[trigger] b.inspector@[i])
            &&& b.scene_requests@.len() == scenes.len()
            &&& forall|i: int| 0 <= i < scenes.len() ==> scene_request_matches(#[trigger] b.scene_requests@[i], scenes[i])
            &&& b.new_scenes == select(q, set![CommandKind::NewScene]).len()
            &&& b.plugin_reloads@.len() == reloads.len()
            &&& forall|i: int| 0 <= i < reloads.len() ==> reloads[i] == (EditorCommand::<A, C>::ReloadPlugin {
                entity: (#[trigger] b.plugin_reloads@[i]).0,
                path: b.plugin_reloads@[i].1,
            })
            &&& b.project_loads@.len() == loads.len()
            &&& forall|i: int| 0 <= i < loads.len() ==> loads[i] == EditorCommand::<A, C>::LoadProject(#[trigger] b.project_loads@[i])
            &&& b.project_creates@.len() == creates.len()
            &&& forall|i: int| 0 <= i < creates.len() ==> creates[i] == (EditorCommand::<A, C>::CreateProject {
                name: (#[trigger] b.project_creates@[i]).0,
                location: b.project_creates@[i].1,
            })
        }),
        final(queue)@ == select(old(queue)@, deferred_kinds()),
{
    let ghost q0 = queue@;
    let ghost k_imp = set![CommandKind::ImportPath];
    let ghost k_del = set![CommandKind::DeleteEntity];
    let ghost k_ins = set![CommandKind::Inspector];
    let ghost k_scn = set![CommandKind::ActivateScene, CommandKind::CloseScene];
    let ghost k_new = set![CommandKind::NewScene];
    let ghost k_rel = set![CommandKind::ReloadPlugin];
    let ghost k_lod = set![CommandKind::LoadProject];
    let ghost k_cre = set![CommandKind::CreateProject];
    let len = queue.len();
    let mut b = UpdateBatch {
        imports: Vec::new(),
        deletions: Vec::new(),
        inspector: Vec::new(),
        scene_requests: Vec::new(),
        new_scenes: 0,
        plugin_reloads: Vec::new(),
        project_loads: Vec::new(),
        project_creates: Vec::new(),
    };
    let mut remaining: VecDeque<EditorCommand<A, C>> = VecDeque::new();
    let mut i: usize = 0;
    while i < len
        invariant
            len == q0.len(),
            i <= len,
            k_imp == set![CommandKind::ImportPath],
            k_del == set![CommandKind::DeleteEntity],
            k_ins == set![CommandKind::Inspector],
            k_scn == set![CommandKind::ActivateScene, CommandKind::CloseScene],
            k_new == set![CommandKind::NewScene],
            k_rel == set![CommandKind::ReloadPlugin],
            k_lod == set![CommandKind::LoadProject],
            k_cre == set![CommandKind::CreateProject],
            queue@ == q0.skip(i as int),
            remaining@ == select(q0.take(i as int), deferred_kinds()),
            b.new_scenes == select(q0.take(i as int), k_new).len(),
            b.new_scenes <= i,
            b.imports@.len() == select(q0.take(i as int), k_imp).len(),
            forall|j: int| 0 <= j < b.imports@.len() ==>
                select(q0.take(i as int), k_imp)[j] == EditorCommand::<A, C>::ImportPath(#[trigger] b.imports@[j]),
            b.deletions@.len() == select(q0.take(i as int), k_del).len(),
            forall|j: int| 0 <= j < b.deletions@.len() ==>
                select(q0.take(i as int), k_del)[j] == EditorCommand::<A, C>::DeleteEntity(#[trigger] b.deletions@[j]),
            b.inspector@.len() == select(q0.take(i as int), k_ins).len(),
            forall|j: int| 0 <= j < b.inspector@.len() ==>
                select(q0.take(i as int), k_ins)[j] == EditorCommand::<A, C>::Inspector(#[trigger] b.inspector@[j]),
            b.scene_requests@.len() == select(q0.take(i as int), k_scn).len(),
            forall|j: int| 0 <= j < b.scene_requests@.len() ==>
                scene_request_matches(#[trigger] b.scene_requests@[j], select(q0.take(i as int), k_scn)[j]),
            b.plugin_reloads@.len() == select(q0.take(i as int), k_rel).len(),
            forall|j: int| 0 <= j < b.plugin_reloads@.len() ==>
                select(q0.take(i as int), k_rel)[j] == (EditorCommand::<A, C>::ReloadPlugin {
                    entity: (#[trigger] b.plugin_reloads@[j]).0,
                    path: b.plugin_reloads@[j].1,
                }),
            b.project_loads@.len() == select(q0.take(i as int), k_lod).len(),
            forall|j: int| 0 <= j < b.project_loads@.len() ==>
                select(q0.take(i as int), k_lod)[j] == EditorCommand::<A, C>::LoadProject(#[trigger] b.project_loads@[j]),
            b.project_creates@.len() == select(q0.take(i as int), k_cre).len(),
            forall|j: int| 0 <= j < b.project_creates@.len() ==>
                select(q0.take(i as int), k_cre)[j] == (EditorCommand::<A, C>::CreateProject {
                    name: (#[trigger] b.project_creates@[j]).0,
                    location: b.project_creates@[j].1,
                }),
        decreases len - i,
    {
        let c = queue.pop_front().unwrap();
        proof {
            assert(c == q0[i as int]);
            assert(queue@ =~= q0.skip(i + 1));
            lemma_select_step(q0, i as int, deferred_kinds());
            lemma_select_step(q0, i as int, k_imp);
            lemma_select_step(q0, i as int, k_del);
            lemma_select_step(q0, i as int, k_ins);
            lemma_select_step(q0, i as int, k_scn);
            lemma_select_step(q0, i as int, k_new);
            lemma_select_step(q0, i as int, k_rel);
            lemma_select_step(q0, i as int, k_lod);
            lemma_select_step(q0, i as int, k_cre);
        }
        match c {
            EditorCommand::ImportPath(p) => b.imports.push(p),
            EditorCommand::DeleteEntity(e) => b.deletions.push(e),
            EditorCommand::Inspector(a) => b.inspector.push(a),
            EditorCommand::ActivateScene(id) => b.scene_requests.push(SceneRequest::Activate(id)),
            EditorCommand::CloseScene(id) => b.scene_requests.push(SceneRequest::Close(id)),
            EditorCommand::NewScene => {
                b.new_scenes = b.new_scenes + 1;
            },
            EditorCommand::ReloadPlugin { entity, path } => b.plugin_reloads.push((entity, path)),
            EditorCommand::LoadProject(p) => b.project_loads.push(p),
            EditorCommand::CreateProject { name, location } => b.project_creates.push((name, location)),
            other => remaining.push_back(other),
        }
        i = i + 1;
    }
    proof {
        assert(q0.take(len as int) =~= q0);
    }
    *queue = remaining;
    b
}

} // verus!
