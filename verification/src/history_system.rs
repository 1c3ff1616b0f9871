//! The history system: the undo history, the counter of editor entity ids,
//! and the transform tool (gizmo mode, space and the drag in progress).

use crate::history::{redo_answer, redo_step, undo_answer, undo_step, EditorHistory, HistoryEntry, HistoryModel, HistorySelection};
use crate::ids::{alloc_of, sat_inc, EditorIdAllocator};
use vstd::prelude::*;

verus! {

/// What the transform gizmo does.
#[derive(Clone, Copy, Debug, PartialEq, Eq, Structural)]
pub enum GizmoMode {
    Translate,
    Rotate,
    Scale,
}

/// Whether the gizmo follows the world's axes or the entity's.
#[derive(Clone, Copy, Debug, PartialEq, Eq, Structural)]
pub enum GizmoSpace {
    World,
    Local,
}

/// The transform tool: mode, space, and the drag in progress (`D`).
pub struct TransformToolSystem<D> {
    pub gizmo_mode: GizmoMode,
    pub gizmo_space: GizmoSpace,
    pub gizmo_drag: Option<D>,
}

impl<D> TransformToolSystem<D> {
    /// Translating in local space, nothing dragged.
    pub fn new() -> (r: Self)
        ensures
            r.gizmo_mode == GizmoMode::Translate,
            r.gizmo_space == GizmoSpace::Local,
            r.gizmo_drag is None,
    {
        TransformToolSystem { gizmo_mode: GizmoMode::Translate, gizmo_space: GizmoSpace::Local, gizmo_drag: None }
    }
}

/// A key that picks a gizmo mode.
#[derive(Clone, Copy, Debug, PartialEq, Eq, Structural)]
pub enum GizmoKey {
    W,
    E,
    R,
}

/// The gizmo mode a key picks: `W` translates, `E` rotates, `R` scales.
pub fn gizmo_mode_for_key(key: GizmoKey) -> (r: GizmoMode)
    ensures
        r == match key {
            GizmoKey::W => GizmoMode::Translate,
            GizmoKey::E => GizmoMode::Rotate,
            GizmoKey::R => GizmoMode::Scale,
        },
{
    match key {
        GizmoKey::W => GizmoMode::Translate,
        GizmoKey::E => GizmoMode::Rotate,
        GizmoKey::R => GizmoMode::Scale,
    }
}

/// The undo history of scene snapshots `S`, the id counter and the
/// transform tool with drags `D`.
pub struct HistorySystem<S, D> {
    history: EditorHistory<S>,
    ids: EditorIdAllocator,
    transform_tool: TransformToolSystem<D>,
}

impl<S, D> HistorySystem<S, D> {
    pub closed spec fn history_model(&self) -> HistoryModel<S> {
        self.history.model()
    }

    pub closed spec fn history_wf(&self) -> bool {
        self.history.wf()
    }

    pub closed spec fn next_id(&self) -> u128 {
        self.ids.counter()
    }

    pub closed spec fn tool(&self) -> TransformToolSystem<D> {
        self.transform_tool
    }

    /// A system around `history` and `transform_tool`, ids counted from 1.
    pub fn new(history: EditorHistory<S>, transform_tool: TransformToolSystem<D>) -> (r: Self)
        ensures
            r.history_model() == history.model(),
            r.history_wf() == history.wf(),
            r.next_id() == 1,
            r.tool() == transform_tool,
    {
        HistorySystem { history, ids: EditorIdAllocator::new(), transform_tool }
    }

    pub fn history(&self) -> (r: &EditorHistory<S>)
        ensures
            r.model() == self.history_model(),
            r.wf() == self.history_wf(),
    {
        &self.history
    }

    pub fn history_mut(&mut self) -> (r: &mut EditorHistory<S>)
        ensures
            r.model() == old(self).history_model(),
            r.wf() == old(self).history_wf(),
            final(self).history_model() == final(r).model(),
            final(self).history_wf() == final(r).wf(),
            final(self).next_id() == old(self).next_id(),
            final(self).tool() == old(self).tool(),
    {
        &mut self.history
    }

    pub fn transform_tool_mut(&mut self) -> (r: &mut TransformToolSystem<D>)
        ensures
            *r == old(self).tool(),
            final(self).tool() == *final(r),
            final(self).history_model() == old(self).history_model(),
            final(self).history_wf() == old(self).history_wf(),
            final(self).next_id() == old(self).next_id(),
    {
        &mut self.transform_tool
    }

    /// The gizmo drag in progress.
    pub fn gizmo_drag(&self) -> (r: Option<&D>)
        ensures
            match r {
                Some(d) => self.tool().gizmo_drag == Some(*d),
                None => self.tool().gizmo_drag is None,
            },
    {
        match &self.transform_tool.gizmo_drag {
            Some(d) => Some(d),
            None => None,
        }
    }

    /// Ends any gizmo drag.
    pub fn clear_gizmo_drag(&mut self)
        ensures
            final(self).tool() == (TransformToolSystem { gizmo_drag: None, ..old(self).tool() }),
            final(self).history_model() == old(self).history_model(),
            final(self).history_wf() == old(self).history_wf(),
            final(self).next_id() == old(self).next_id(),
    {
        self.transform_tool.gizmo_drag = None;
    }

    /// Starts over: empty history, ids from 1, no drag.
    pub fn reset(&mut self)
        ensures
            final(self).history_wf(),
            final(self).history_model().current is None,
            final(self).history_model().undo == Seq::<HistoryEntry<S>>::empty(),
            final(self).history_model().redo == Seq::<HistoryEntry<S>>::empty(),
            final(self).next_id() == 1,
            final(self).tool() == (TransformToolSystem { gizmo_drag: None, ..old(self).tool() }),
    {
        self.history = EditorHistory::new();
        self.ids = EditorIdAllocator::new();
        self.clear_gizmo_drag();
    }

    /// Undoes one step: any gizmo drag ends, then the history goes back
    /// (see `EditorHistory::undo`). Gives the selection to restore; the
    /// caller then renews the id counter from the restored scene and
    /// applies the selection.
    pub fn perform_undo<F: FnOnce(S) -> S>(&mut self, restore: F) -> (r: Option<HistorySelection>)
        requires
            old(self).history_wf(),
            forall|s: S| restore.requires((s,)),
        ensures
            final(self).history_wf(),
            r == undo_answer(old(self).history_model()),
            r is None ==> final(self).history_model() == (HistoryModel {
                current: None,
                undo: old(self).history_model().undo,
                redo: old(self).history_model().redo,
            }),
            r is Some ==> {
                &&& final(self).history_model().current is Some
                &&& restore.ensures(
                    (old(self).history_model().undo.last().snapshot,),
                    final(self).history_model().current->0.snapshot,
                )
                &&& final(self).history_model() == undo_step(
                    old(self).history_model(),
                    final(self).history_model().current->0.snapshot,
                )
            },
            final(self).tool() == (TransformToolSystem { gizmo_drag: None, ..old(self).tool() }),
            final(self).next_id() == old(self).next_id(),
    {
        self.clear_gizmo_drag();
        self.history.undo(restore)
    }

    /// Redoes one step; the mirror image of `perform_undo`.
    pub fn perform_redo<F: FnOnce(S) -> S>(&mut self, restore: F) -> (r: Option<HistorySelection>)
        requires
            old(self).history_wf(),
            forall|s: S| restore.requires((s,)),
        ensures
            final(self).history_wf(),
            r == redo_answer(old(self).history_model()),
            r is None ==> final(self).history_model() == (HistoryModel {
                current: None,
                undo: old(self).history_model().undo,
                redo: old(self).history_model().redo,
            }),
            r is Some ==> {
                &&& final(self).history_model().current is Some
                &&& restore.ensures(
                    (old(self).history_model().redo.last().snapshot,),
                    final(self).history_model().current->0.snapshot,
                )
                &&& final(self).history_model() == redo_step(
                    old(self).history_model(),
                    final(self).history_model().current->0.snapshot,
                )
            },
            final(self).tool() == (TransformToolSystem { gizmo_drag: None, ..old(self).tool() }),
            final(self).next_id() == old(self).next_id(),
    {
        self.clear_gizmo_drag();
        self.history.redo(restore)
    }

    /// Hands out the next editor entity id.
    pub fn allocate_editor_entity_id(&mut self) -> (id: u128)
        ensures
            id == alloc_of(old(self).next_id()),
            final(self).next_id() == sat_inc(id),
            final(self).history_model() == old(self).history_model(),
            final(self).history_wf() == old(self).history_wf(),
            final(self).tool() == old(self).tool(),
    {
        self.ids.allocate()
    }

    /// Moves the id counter past the largest id in use.
    pub fn refresh_next_editor_entity_id(&mut self, ids: &Vec<u128>)
        ensures
            final(self).next_id() == alloc_of(sat_inc(crate::ids::max_id(ids@))),
            final(self).history_model() == old(self).history_model(),
            final(self).history_wf() == old(self).history_wf(),
            final(self).tool() == old(self).tool(),
    {
        self.ids.refresh(ids);
    }

    /// Gives an editor id to each entity of `missing`, in order.
    pub fn ensure_editor_entity_ids(&mut self, missing: &Vec<u64>) -> (r: Vec<(u64, u128)>)
        ensures
            r@.len() == missing@.len(),
            forall|i: int|
                0 <= i < r@.len() ==> #[trigger] r@[i] == (
                    missing@[i],
                    alloc_of(crate::ids::alloc_chain(old(self).next_id(), i as nat)),
                ),
            final(self).next_id() == crate::ids::alloc_chain(old(self).next_id(), missing@.len()),
            final(self).history_model() == old(self).history_model(),
            final(self).history_wf() == old(self).history_wf(),
            final(self).tool() == old(self).tool(),
    {
        self.ids.assign_missing(missing)
    }
}

} // verus!
