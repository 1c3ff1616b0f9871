//! Editor selection: which entity is selected and highlighted, per scene,
//! the pointer presses that lead to picks, and the GPU pick round trip.

use std::collections::HashMap;
use crate::history::HistorySelection;
use crate::ids::{resolved_selection, resolve_history_selection};
use vstd::prelude::*;

verus! {

broadcast use vstd::std_specs::hash::group_hash_axioms;

/// Selection of one scene. Entities are identified by their bit pattern.
#[derive(Clone, Copy, Debug, PartialEq, Eq, Structural)]
pub struct SelectionState {
    pub selected: Option<u64>,
    pub highlighted: Option<u64>,
    /// Entity that currently carries the "selected in editor" marker.
    pub synced_highlighted: Option<u64>,
    /// Selection the hierarchy window is asked to show, if any.
    pub override_request: Option<Option<u64>>,
}

/// The selection of a scene that has never been active.
pub open spec fn empty_selection() -> SelectionState {
    SelectionState { selected: None, highlighted: None, synced_highlighted: None, override_request: None }
}

impl SelectionState {
    pub fn new() -> (s: Self)
        ensures
            s == empty_selection(),
    {
        SelectionState { selected: None, highlighted: None, synced_highlighted: None, override_request: None }
    }
}

/// Outcome of a finished pick: an entity from the GPU pick buffer, or a
/// request to pick on the CPU instead.
pub enum PickCompletion<R> {
    Gpu(Option<u64>),
    CpuFallback(R),
}

/// Bookkeeping of the one GPU pick that may be in flight.
pub struct GpuPickState<R> {
    pub in_flight: bool,
    pub pending_result: Option<PickCompletion<R>>,
    pub discard_next_result: bool,
    pub last_request: Option<R>,
}

/// State after a result arrives.
pub open spec fn pick_completed<R>(g: GpuPickState<R>, result: PickCompletion<R>) -> GpuPickState<R> {
    if g.discard_next_result {
        GpuPickState { in_flight: false, pending_result: g.pending_result, discard_next_result: false, last_request: None }
    } else {
        GpuPickState { in_flight: false, pending_result: Some(result), discard_next_result: false, last_request: None }
    }
}

/// State after the pending pick is abandoned.
pub open spec fn pick_discarded<R>(g: GpuPickState<R>) -> GpuPickState<R> {
    GpuPickState { in_flight: false, pending_result: None, discard_next_result: true, last_request: None }
}

impl<R> GpuPickState<R> {
    pub fn new() -> (g: Self)
        ensures
            !g.in_flight,
            g.pending_result is None,
            !g.discard_next_result,
            g.last_request is None,
    {
        GpuPickState { in_flight: false, pending_result: None, discard_next_result: false, last_request: None }
    }

    pub fn mark_in_flight(&mut self)
        ensures
            final(self).in_flight,
            !final(self).discard_next_result,
            final(self).pending_result == old(self).pending_result,
            final(self).last_request == old(self).last_request,
    {
        self.in_flight = true;
        self.discard_next_result = false;
    }

    pub fn in_flight(&self) -> (r: bool)
        ensures
            r == self.in_flight,
    {
        self.in_flight
    }

    /// A pick finished; its result is kept unless it was to be discarded.
    pub fn complete(&mut self, result: PickCompletion<R>)
        ensures
            *final(self) == pick_completed(*old(self), result),
    {
        self.in_flight = false;
        self.last_request = None;
        if self.discard_next_result {
            self.discard_next_result = false;
            return;
        }
        self.pending_result = Some(result);
    }

    pub fn take_result(&mut self) -> (r: Option<PickCompletion<R>>)
        ensures
            r == old(self).pending_result,
            final(self).pending_result is None,
            final(self).in_flight == old(self).in_flight,
            final(self).discard_next_result == old(self).discard_next_result,
            final(self).last_request == old(self).last_request,
    {
        self.pending_result.take()
    }

    pub fn mark_discard(&mut self)
        ensures
            *final(self) == pick_discarded(*old(self)),
    {
        self.in_flight = false;
        self.pending_result = None;
        self.discard_next_result = true;
        self.last_request = None;
    }

    pub fn record_request(&mut self, request: R)
        ensures
            final(self).last_request == Some(request),
            final(self).in_flight == old(self).in_flight,
            final(self).pending_result == old(self).pending_result,
            final(self).discard_next_result == old(self).discard_next_result,
    {
        self.last_request = Some(request);
    }

    pub fn take_last_request(&mut self) -> (r: Option<R>)
        ensures
            r == old(self).last_request,
            final(self).last_request is None,
            final(self).in_flight == old(self).in_flight,
            final(self).pending_result == old(self).pending_result,
            final(self).discard_next_result == old(self).discard_next_result,
    {
        self.last_request.take()
    }

    /// Handles a value read back from the GPU pick buffer: 0 means nothing
    /// was hit there, so the last request is retried on the CPU when there
    /// is one; any other value completes the pick with `picked`, the entity
    /// that value names.
    pub fn receive_pick_value(&mut self, value: u32, picked: Option<u64>)
        ensures
            *final(self) == (if value == 0 {
                match old(self).last_request {
                    Some(req) => pick_completed(*old(self), PickCompletion::CpuFallback(req)),
                    None => pick_completed(*old(self), PickCompletion::Gpu(None)),
                }
            } else {
                pick_completed(*old(self), PickCompletion::Gpu(picked))
            }),
    {
        if value == 0 {
            match self.take_last_request() {
                Some(req) => self.complete(PickCompletion::CpuFallback(req)),
                None => self.complete(PickCompletion::Gpu(None)),
            }
        } else {
            let _ = self.take_last_request();
            self.complete(PickCompletion::Gpu(picked));
        }
    }
}

/// A result that arrives after the pick was abandoned is dropped, while the
/// first result after a new pick has been issued is kept.
pub proof fn lemma_discarded_pick_is_dropped<R>(g: GpuPickState<R>, result: PickCompletion<R>)
    ensures
        pick_completed(pick_discarded(g), result).pending_result is None,
        pick_completed(
            GpuPickState { in_flight: true, discard_next_result: false, ..pick_discarded(g) },
            result,
        ).pending_result == Some(result),
{
}

/// Pointer state over the scene viewport; `U` is a viewport coordinate.
pub struct PointerState<U> {
    pub scene_uv: Option<U>,
    pub primary_down: bool,
    pub press_uv: Option<U>,
    pub selection_press_uv: Option<U>,
}

/// Effects on the scene requested by a deletion pass.
#[derive(Clone, Copy, Debug, PartialEq, Eq, Structural)]
pub struct SelectionDeletionResult {
    pub active_camera_removed: bool,
    pub clear_gizmo_drag: bool,
    pub selection_changed: bool,
}

/// Marker changes that a selection sync asks of the scene.
#[derive(Clone, Copy, Debug, PartialEq, Eq, Structural)]
pub struct SelectionSyncPlan {
    pub remove_marker_from: Option<u64>,
    pub insert_marker_on: Option<u64>,
}

/// Marker changes for a state; `has_marker` tells whether the selected
/// entity already carries the marker.
pub open spec fn sync_plan(st: SelectionState, has_marker: bool) -> SelectionSyncPlan {
    if st.selected != st.synced_highlighted {
        SelectionSyncPlan { remove_marker_from: st.synced_highlighted, insert_marker_on: st.selected }
    } else if st.selected is Some && !has_marker {
        SelectionSyncPlan { remove_marker_from: None, insert_marker_on: st.selected }
    } else {
        SelectionSyncPlan { remove_marker_from: None, insert_marker_on: None }
    }
}

/// State after a sync, `inserted` being whether the marker insertion that
/// the plan asked for succeeded.
pub open spec fn synced_state(st: SelectionState, has_marker: bool, inserted: bool) -> SelectionState {
    if st.selected != st.synced_highlighted {
        let sel = if st.selected is Some && !inserted { None } else { st.selected };
        SelectionState { selected: sel, highlighted: sel, synced_highlighted: sel, ..st }
    } else if st.selected is Some {
        if !has_marker {
            if inserted {
                SelectionState { highlighted: st.selected, synced_highlighted: st.selected, ..st }
            } else {
                SelectionState { selected: None, highlighted: None, synced_highlighted: None, ..st }
            }
        } else {
            SelectionState { highlighted: st.selected, synced_highlighted: st.selected, ..st }
        }
    } else {
        SelectionState { highlighted: None, synced_highlighted: None, ..st }
    }
}

/// Whether the sync changed anything that history should record.
pub open spec fn sync_changed(st: SelectionState, has_marker: bool, inserted: bool) -> bool {
    let after = synced_state(st, has_marker, inserted);
    let marker_work = if st.selected != st.synced_highlighted {
        st.synced_highlighted is Some || (st.selected is Some && inserted)
    } else if st.selected is Some {
        !has_marker || st.highlighted != st.selected
    } else {
        st.highlighted is Some
    };
    marker_work || after.selected != st.selected || after.highlighted != st.highlighted
}

/// After any sync the highlighted entity is the one carrying the marker,
/// and it is the selected entity whenever there is one.
pub proof fn lemma_sync_agrees(st: SelectionState, has_marker: bool, inserted: bool)
    ensures
        synced_state(st, has_marker, inserted).highlighted == synced_state(st, has_marker, inserted).synced_highlighted,
        synced_state(st, has_marker, inserted).highlighted is Some ==> synced_state(st, has_marker, inserted).highlighted
            == synced_state(st, has_marker, inserted).selected,
{
}

/// A sync moves the marker with the selection: when the selection differs
/// from the entity carrying the marker, the marker is taken off that entity,
/// whether or not anything is selected now, and put on the selected entity;
/// it is only ever put on the selected entity, and taken off nothing when
/// the selection has not moved.
pub proof fn lemma_sync_plan_moves_marker(st: SelectionState, has_marker: bool)
    ensures
        st.selected != st.synced_highlighted ==> sync_plan(st, has_marker).remove_marker_from == st.synced_highlighted
            && sync_plan(st, has_marker).insert_marker_on == st.selected,
        st.selected == st.synced_highlighted ==> sync_plan(st, has_marker).remove_marker_from is None,
        sync_plan(st, has_marker).insert_marker_on is Some ==> sync_plan(st, has_marker).insert_marker_on == st.selected,
{
}

/// No marker is left behind: if an entity carried the marker before a sync
/// (it was the synced one, and if still selected the scene confirms the
/// marker) and is no longer the synced one after it, the sync's plan took
/// the marker off that entity.
pub proof fn lemma_sync_leaves_no_stale_marker(st: SelectionState, has_marker: bool, inserted: bool)
    requires
        st.synced_highlighted is Some,
        st.selected == st.synced_highlighted ==> has_marker,
        synced_state(st, has_marker, inserted).synced_highlighted != st.synced_highlighted,
    ensures
        sync_plan(st, has_marker).remove_marker_from == st.synced_highlighted,
{
}

/// Pointer state after one frame's input over the viewport: the button
/// state is taken; a press records where it happened; a release with no
/// gizmo drag in progress after a recorded press asks for a pick there;
/// the recorded press is forgotten once the button is up.
pub open spec fn pointer_after_input<U>(p: PointerState<U>, pressed: Option<U>, released: Option<U>, down: bool, gizmo_idle: bool) -> PointerState<U> {
    let p1 = PointerState { primary_down: down, ..p };
    let p2 = match pressed {
        Some(uv) => PointerState { press_uv: Some(uv), selection_press_uv: Some(uv), ..p1 },
        None => p1,
    };
    match released {
        Some(_) => if gizmo_idle {
            PointerState { selection_press_uv: None, ..p2 }
        } else {
            p2
        },
        None => if !down {
            PointerState { selection_press_uv: None, ..p2 }
        } else {
            p2
        },
    }
}

/// Whether a frame's input asks for a pick: a release with no gizmo drag
/// after a recorded press (this frame's or an earlier one).
pub open spec fn input_requests_pick<U>(p: PointerState<U>, pressed: Option<U>, released: Option<U>, gizmo_idle: bool) -> bool {
    released is Some && gizmo_idle && (pressed is Some || p.selection_press_uv is Some)
}

/// How issuing a GPU pick went.
pub enum PickEnqueue<R> {
    /// No viewport region, or no pixel under the pointer.
    NoTarget,
    /// Issued; `R` is kept for a CPU retry.
    Issued(R),
    /// The renderer could not take the pick now.
    Busy,
}

/// What a CPU pick selects: the entity hit, unless it carries an editor id
/// with a non-zero pick value (a GPU pick would have found it, so the CPU
/// hit is discarded). `pick_value` is `None` for an entity without an
/// editor id.
pub fn cpu_pick_choice(candidate: Option<u64>, pick_value: Option<u32>) -> (r: Option<u64>)
    ensures
        r == match candidate {
            Some(c) => match pick_value {
                Some(v) => if v == 0 {
                    Some(c)
                } else {
                    None
                },
                None => Some(c),
            },
            None => None,
        },
{
    match candidate {
        Some(c) => match pick_value {
            Some(v) => if v == 0 {
                Some(c)
            } else {
                None
            },
            None => Some(c),
        },
        None => None,
    }
}

/// Abstract state of a `SelectionSystem`.
pub struct SelectionModel<U, R> {
    pub state: SelectionState,
    pub saved: Map<u64, SelectionState>,
    pub active_scene: Option<u64>,
    pub pending_pick: Option<U>,
    pub gpu_pick: GpuPickState<R>,
}

/// State after switching to scene `handle`: the leaving scene's selection
/// is saved, the entered scene's saved selection (or an empty one) comes
/// back, and any pending pick is abandoned.
pub open spec fn switch_scene<U, R>(m: SelectionModel<U, R>, handle: u64) -> SelectionModel<U, R> {
    if m.active_scene == Some(handle) {
        m
    } else {
        let saved = match m.active_scene {
            Some(prev) => m.saved.insert(prev, m.state),
            None => m.saved,
        };
        SelectionModel {
            state: if saved.contains_key(handle) { saved[handle] } else { empty_selection() },
            saved: saved.remove(handle),
            active_scene: Some(handle),
            pending_pick: None,
            gpu_pick: pick_discarded(m.gpu_pick),
        }
    }
}

/// Leaving a scene for another and coming back gives back the selection
/// the scene had.
pub proof fn lemma_switch_back_restores<U, R>(m: SelectionModel<U, R>, a: u64, b: u64)
    requires
        m.active_scene == Some(a),
        a != b,
    ensures
        switch_scene(switch_scene(m, b), a).state == m.state,
        switch_scene(switch_scene(m, b), a).active_scene == Some(a),
{
    let m1 = switch_scene(m, b);
    let s1 = m.saved.insert(a, m.state);
    assert(s1.remove(b).contains_key(a));
    assert(m1.saved.insert(b, m1.state).contains_key(a));
}

/// Selection of the active scene, the other scenes' saved selections,
/// pointer state and picking.
pub struct SelectionSystem<U, R> {
    state: SelectionState,
    scene_states: HashMap<u64, SelectionState>,
    active_scene: Option<u64>,
    pointer: PointerState<U>,
    pending_pick: Option<U>,
    gpu_pick: GpuPickState<R>,
}

impl<U, R> SelectionSystem<U, R> {
    pub closed spec fn model(&self) -> SelectionModel<U, R> {
        SelectionModel {
            state: self.state,
            saved: self.scene_states@,
            active_scene: self.active_scene,
            pending_pick: self.pending_pick,
            gpu_pick: self.gpu_pick,
        }
    }

    pub closed spec fn pointer(&self) -> PointerState<U> {
        self.pointer
    }

    pub fn new() -> (s: Self)
        ensures
            s.model().state == empty_selection(),
            s.model().saved == Map::<u64, SelectionState>::empty(),
            s.model().active_scene is None,
            s.model().pending_pick is None,
            !s.model().gpu_pick.in_flight,
            s.model().gpu_pick.pending_result is None,
            !s.pointer().primary_down,
    {
        SelectionSystem {
            state: SelectionState::new(),
            scene_states: HashMap::new(),
            active_scene: None,
            pointer: PointerState { scene_uv: None, primary_down: false, press_uv: None, selection_press_uv: None },
            pending_pick: None,
            gpu_pick: GpuPickState::new(),
        }
    }

    pub fn selected(&self) -> (r: Option<u64>)
        ensures
            r == self.model().state.selected,
    {
        self.state.selected
    }

    pub fn highlighted(&self) -> (r: Option<u64>)
        ensures
            r == self.model().state.highlighted,
    {
        self.state.highlighted
    }

    pub fn set_selected(&mut self, entity: Option<u64>)
        ensures
            final(self).model() == (SelectionModel {
                state: SelectionState { selected: entity, ..old(self).model().state },
                ..old(self).model()
            }),
            final(self).pointer() == old(self).pointer(),
    {
        self.state.selected = entity;
    }

    pub fn set_highlighted(&mut self, entity: Option<u64>)
        ensures
            final(self).model() == (SelectionModel {
                state: SelectionState { highlighted: entity, ..old(self).model().state },
                ..old(self).model()
            }),
            final(self).pointer() == old(self).pointer(),
    {
        self.state.highlighted = entity;
    }

    pub fn request_override(&mut self, entity: Option<u64>)
        ensures
            final(self).model() == (SelectionModel {
                state: SelectionState { override_request: Some(entity), ..old(self).model().state },
                ..old(self).model()
            }),
            final(self).pointer() == old(self).pointer(),
    {
        self.state.override_request = Some(entity);
    }

    pub fn take_override(&mut self) -> (r: Option<Option<u64>>)
        ensures
            r == old(self).model().state.override_request,
            final(self).model() == (SelectionModel {
                state: SelectionState { override_request: None, ..old(self).model().state },
                ..old(self).model()
            }),
            final(self).pointer() == old(self).pointer(),
    {
        let r = self.state.override_request;
        self.state.override_request = None;
        r
    }

    /// Drops the pending pick request and any pick already in flight.
    pub fn clear_pending_pick(&mut self)
        ensures
            final(self).model() == (SelectionModel {
                pending_pick: None,
                gpu_pick: pick_discarded(old(self).model().gpu_pick),
                ..old(self).model()
            }),
            final(self).pointer() == old(self).pointer(),
    {
        self.pending_pick = None;
        self.gpu_pick.mark_discard();
    }

    pub fn set_pending_pick(&mut self, uv: U)
        ensures
            final(self).model() == (SelectionModel { pending_pick: Some(uv), ..old(self).model() }),
            final(self).pointer() == old(self).pointer(),
    {
        self.pending_pick = Some(uv);
    }

    pub fn take_pending_pick(&mut self) -> (r: Option<U>)
        ensures
            r == old(self).model().pending_pick,
            final(self).model() == (SelectionModel { pending_pick: None, ..old(self).model() }),
            final(self).pointer() == old(self).pointer(),
    {
        self.pending_pick.take()
    }

    pub fn gpu_pick_mut(&mut self) -> (g: &mut GpuPickState<R>)
        ensures
            *g == old(self).model().gpu_pick,
            final(self).model() == (SelectionModel { gpu_pick: *final(g), ..old(self).model() }),
            final(self).pointer() == old(self).pointer(),
    {
        &mut self.gpu_pick
    }

    /// Makes `handle` the active scene; see `switch_scene`.
    pub fn set_active_scene(&mut self, handle: u64)
        ensures
            final(self).model() == switch_scene(old(self).model(), handle),
            final(self).pointer() == old(self).pointer(),
    {
        if self.active_scene == Some(handle) {
            return;
        }
        match self.active_scene {
            Some(previous) => {
                self.scene_states.insert(previous, self.state);
            },
            None => {},
        }
        let restored = self.scene_states.remove(&handle);
        self.state = match restored {
            Some(s) => s,
            None => SelectionState::new(),
        };
        self.clear_pending_pick();
        self.active_scene = Some(handle);
    }

    /// Forgets every scene's selection, the pointer state and picking.
    pub fn reset_workspace(&mut self)
        ensures
            final(self).model() == (SelectionModel::<U, R> {
                state: empty_selection(),
                saved: Map::empty(),
                active_scene: None,
                pending_pick: None,
                gpu_pick: pick_discarded(old(self).model().gpu_pick),
            }),
            final(self).pointer().scene_uv is None,
            !final(self).pointer().primary_down,
            final(self).pointer().press_uv is None,
            final(self).pointer().selection_press_uv is None,
    {
        self.clear_pending_pick();
        self.state = SelectionState::new();
        self.pointer = PointerState { scene_uv: None, primary_down: false, press_uv: None, selection_press_uv: None };
        self.active_scene = None;
        self.scene_states.clear();
    }

    pub fn pointer_scene_uv(&self) -> (r: &Option<U>)
        ensures
            *r == self.pointer().scene_uv,
    {
        &self.pointer.scene_uv
    }

    pub fn set_pointer_scene_uv(&mut self, uv: Option<U>)
        ensures
            final(self).model() == old(self).model(),
            final(self).pointer() == (PointerState { scene_uv: uv, ..old(self).pointer() }),
    {
        self.pointer.scene_uv = uv;
    }

    pub fn pointer_primary_down(&self) -> (r: bool)
        ensures
            r == self.pointer().primary_down,
    {
        self.pointer.primary_down
    }

    pub fn set_pointer_primary_down(&mut self, down: bool)
        ensures
            final(self).model() == old(self).model(),
            final(self).pointer() == (PointerState { primary_down: down, ..old(self).pointer() }),
    {
        self.pointer.primary_down = down;
    }

    /// Forgets the button state and both recorded presses.
    pub fn reset_pointer_press(&mut self)
        ensures
            final(self).model() == old(self).model(),
            final(self).pointer() == (PointerState {
                primary_down: false,
                press_uv: None,
                selection_press_uv: None,
                ..old(self).pointer()
            }),
    {
        self.pointer.primary_down = false;
        self.pointer.press_uv = None;
        self.pointer.selection_press_uv = None;
    }

    pub fn take_pointer_press_uv(&mut self) -> (r: Option<U>)
        ensures
            r == old(self).pointer().press_uv,
            final(self).model() == old(self).model(),
            final(self).pointer() == (PointerState { press_uv: None, ..old(self).pointer() }),
    {
        self.pointer.press_uv.take()
    }

    pub fn set_pointer_press_uv(&mut self, uv: Option<U>)
        ensures
            final(self).model() == old(self).model(),
            final(self).pointer() == (PointerState { press_uv: uv, ..old(self).pointer() }),
    {
        self.pointer.press_uv = uv;
    }

    pub fn set_selection_press_uv(&mut self, uv: Option<U>)
        ensures
            final(self).model() == old(self).model(),
            final(self).pointer() == (PointerState { selection_press_uv: uv, ..old(self).pointer() }),
    {
        self.pointer.selection_press_uv = uv;
    }

    pub fn take_selection_press_uv(&mut self) -> (r: Option<U>)
        ensures
            r == old(self).pointer().selection_press_uv,
            final(self).model() == old(self).model(),
            final(self).pointer() == (PointerState { selection_press_uv: None, ..old(self).pointer() }),
    {
        self.pointer.selection_press_uv.take()
    }

    /// Takes in one frame's pointer input over the scene viewport: whether
    /// the primary button is down, where it was pressed and released (when
    /// inside the viewport), and whether no gizmo drag is in progress. A
    /// release after a recorded press becomes the pending pick.
    pub fn capture_pick_input(&mut self, pressed: Option<U>, released: Option<U>, pointer_down: bool, gizmo_idle: bool)
        where U: Copy
        ensures
            final(self).pointer() == pointer_after_input(old(self).pointer(), pressed, released, pointer_down, gizmo_idle),
            final(self).model() == if input_requests_pick(old(self).pointer(), pressed, released, gizmo_idle) {
                SelectionModel { pending_pick: released, ..old(self).model() }
            } else {
                old(self).model()
            },
    {
        self.set_pointer_primary_down(pointer_down);
        match pressed {
            Some(uv) => {
                self.set_pointer_press_uv(Some(uv));
                self.set_selection_press_uv(Some(uv));
            },
            None => {},
        }
        match released {
            Some(uv) => {
                if gizmo_idle && self.take_selection_press_uv().is_some() {
                    self.set_pending_pick(uv);
                }
            },
            None => {
                if !self.pointer_primary_down() {
                    self.set_selection_press_uv(None);
                }
            },
        }
    }

    /// Takes in how issuing a GPU pick for `request` went: no viewport
    /// region or no pixel under it completes the pick with nothing hit; an
    /// issued pick is in flight with `fallback` kept for a CPU retry; a busy
    /// renderer keeps the request pending for the next frame. Returns
    /// whether a pick pass was issued.
    pub fn finish_pick_enqueue(&mut self, request: U, outcome: PickEnqueue<R>) -> (issued: bool)
        ensures
            issued == outcome is Issued,
            final(self).pointer() == old(self).pointer(),
            match outcome {
                PickEnqueue::NoTarget => final(self).model() == (SelectionModel {
                    gpu_pick: pick_completed(old(self).model().gpu_pick, PickCompletion::Gpu(None)),
                    ..old(self).model()
                }),
                PickEnqueue::Issued(fallback) => final(self).model() == (SelectionModel {
                    gpu_pick: GpuPickState {
                        in_flight: true,
                        discard_next_result: false,
                        last_request: Some(fallback),
                        ..old(self).model().gpu_pick
                    },
                    ..old(self).model()
                }),
                PickEnqueue::Busy => final(self).model() == (SelectionModel {
                    pending_pick: Some(request),
                    ..old(self).model()
                }),
            },
    {
        match outcome {
            PickEnqueue::NoTarget => {
                self.gpu_pick.complete(PickCompletion::Gpu(None));
                false
            },
            PickEnqueue::Issued(fallback) => {
                self.gpu_pick.mark_in_flight();
                self.gpu_pick.record_request(fallback);
                true
            },
            PickEnqueue::Busy => {
                self.pending_pick = Some(request);
                false
            },
        }
    }

    /// Applies a finished pick's entity: it becomes the selection and the
    /// hierarchy is asked to show it.
    pub fn select_picked(&mut self, entity: Option<u64>)
        ensures
            final(self).pointer() == old(self).pointer(),
            final(self).model() == (SelectionModel {
                state: SelectionState { selected: entity, override_request: Some(entity), ..old(self).model().state },
                ..old(self).model()
            }),
    {
        self.state.selected = entity;
        self.state.override_request = Some(entity);
    }

    /// Clears the selection, the pending pick and the recorded presses, and
    /// asks the hierarchy to show no selection.
    pub fn clear_selection(&mut self)
        ensures
            final(self).model() == (SelectionModel {
                state: SelectionState {
                    selected: None,
                    highlighted: None,
                    override_request: Some(None),
                    ..old(self).model().state
                },
                pending_pick: None,
                gpu_pick: pick_discarded(old(self).model().gpu_pick),
                ..old(self).model()
            }),
            final(self).pointer() == (PointerState {
                primary_down: false,
                press_uv: None,
                selection_press_uv: None,
                ..old(self).pointer()
            }),
    {
        self.clear_pending_pick();
        self.reset_pointer_press();
        self.state.override_request = Some(None);
        self.state.selected = None;
        self.state.highlighted = None;
        self.gpu_pick.mark_discard();
    }

    /// Updates the selection after the entities `removed` left the scene.
    /// `None` when nothing was removed; otherwise the removed selection and
    /// highlight are cleared, the hierarchy is asked to show the remaining
    /// selection, and the result says which other state must be reset.
    pub fn apply_entity_deletions(
        &mut self,
        removed: &Vec<u64>,
        active_camera: Option<u64>,
        gizmo_drag_entity: Option<u64>,
    ) -> (r: Option<SelectionDeletionResult>)
        ensures
            removed@.len() == 0 ==> r is None && final(self).model() == old(self).model(),
            removed@.len() > 0 ==> {
                let st = old(self).model().state;
                let sel_gone = st.selected is Some && removed@.contains(st.selected->0);
                let hl_gone = st.highlighted is Some && removed@.contains(st.highlighted->0);
                let new_sel = if sel_gone { None } else { st.selected };
                &&& r == Some(SelectionDeletionResult {
                    active_camera_removed: active_camera is Some && removed@.contains(active_camera->0),
                    clear_gizmo_drag: gizmo_drag_entity is Some && removed@.contains(gizmo_drag_entity->0),
                    selection_changed: sel_gone || hl_gone,
                })
                &&& final(self).model() == (SelectionModel {
                    state: SelectionState {
                        selected: new_sel,
                        highlighted: if hl_gone { None } else { st.highlighted },
                        override_request: Some(new_sel),
                        ..st
                    },
                    ..old(self).model()
                })
            },
            final(self).pointer() == old(self).pointer(),
    {
        if removed.len() == 0 {
            return None;
        }
        let active_camera_removed = match active_camera {
            Some(e) => vec_contains(removed, e),
            None => false,
        };
        let clear_gizmo_drag = match gizmo_drag_entity {
            Some(e) => vec_contains(removed, e),
            None => false,
        };
        let mut selection_changed = false;
        match self.state.selected {
            Some(e) => {
                if vec_contains(removed, e) {
                    self.state.selected = None;
                    selection_changed = true;
                }
            },
            None => {},
        }
        match self.state.highlighted {
            Some(e) => {
                if vec_contains(removed, e) {
                    self.state.highlighted = None;
                    selection_changed = true;
                }
            },
            None => {},
        }
        self.state.override_request = Some(self.state.selected);
        Some(SelectionDeletionResult { active_camera_removed, clear_gizmo_drag, selection_changed })
    }

    /// Marker changes for syncing the scene with the selection.
    pub fn plan_selection_sync(&self, selected_has_marker: bool) -> (p: SelectionSyncPlan)
        ensures
            p == sync_plan(self.model().state, selected_has_marker),
            ({
                let st = self.model().state;
                &&& st.selected != st.synced_highlighted ==> p.remove_marker_from == st.synced_highlighted
                    && p.insert_marker_on == st.selected
                &&& st.selected == st.synced_highlighted ==> p.remove_marker_from is None
                &&& p.insert_marker_on is Some ==> p.insert_marker_on == st.selected
            }),
    {
        if self.state.selected != self.state.synced_highlighted {
            SelectionSyncPlan {
                remove_marker_from: self.state.synced_highlighted,
                insert_marker_on: self.state.selected,
            }
        } else if self.state.selected.is_some() && !selected_has_marker {
            SelectionSyncPlan { remove_marker_from: None, insert_marker_on: self.state.selected }
        } else {
            SelectionSyncPlan { remove_marker_from: None, insert_marker_on: None }
        }
    }

    /// Completes a sync once the planned marker changes were made; returns
    /// whether anything changed.
    pub fn finish_selection_sync(&mut self, selected_has_marker: bool, inserted: bool) -> (changed: bool)
        ensures
            changed == sync_changed(old(self).model().state, selected_has_marker, inserted),
            final(self).model() == (SelectionModel {
                state: synced_state(old(self).model().state, selected_has_marker, inserted),
                ..old(self).model()
            }),
            final(self).pointer() == old(self).pointer(),
    {
        let st = self.state;
        let mut marker_work = false;
        if st.selected != st.synced_highlighted {
            if st.synced_highlighted.is_some() {
                marker_work = true;
            }
            let sel = match st.selected {
                Some(e) => {
                    if inserted {
                        marker_work = true;
                        Some(e)
                    } else {
                        None
                    }
                },
                None => None,
            };
            self.state.selected = sel;
            self.state.highlighted = sel;
            self.state.synced_highlighted = sel;
        } else if st.selected.is_some() {
            if !selected_has_marker {
                marker_work = true;
                if inserted {
                    self.state.highlighted = st.selected;
                    self.state.synced_highlighted = st.selected;
                } else {
                    self.state.selected = None;
                    self.state.highlighted = None;
                    self.state.synced_highlighted = None;
                }
            } else {
                if st.highlighted != st.selected {
                    marker_work = true;
                }
                self.state.highlighted = st.selected;
                self.state.synced_highlighted = st.selected;
            }
        } else {
            if st.highlighted.is_some() {
                marker_work = true;
            }
            self.state.highlighted = None;
            self.state.synced_highlighted = None;
        }
        marker_work || self.state.selected != st.selected || self.state.highlighted != st.highlighted
    }

    /// Selects what a history entry recorded, resolving its ids through the
    /// scene's (entity, id) table; see `resolved_selection`.
    pub fn apply_history_selection(&mut self, table: &Vec<(u64, u128)>, selection: HistorySelection)
        ensures
            ({
                let (s, h) = resolved_selection(table@, selection);
                final(self).model() == (SelectionModel {
                    state: SelectionState {
                        selected: s,
                        highlighted: h,
                        override_request: Some(s),
                        ..old(self).model().state
                    },
                    ..old(self).model()
                })
            }),
            final(self).pointer() == old(self).pointer(),
    {
        let (s, h) = resolve_history_selection(table, selection);
        self.state.selected = s;
        self.state.highlighted = h;
        self.state.override_request = Some(s);
    }
}

/// Whether `v` holds `x`.
pub fn vec_contains(v: &Vec<u64>, x: u64) -> (r: bool)
    ensures
        r == v@.contains(x),
{
    let mut i: usize = 0;
    while i < v.len()
        invariant
            i <= v.len(),
            forall|j: int| 0 <= j < i ==> v@[j] != x,
        decreases v.len() - i,
    {
        if v[i] == x {
            assert(v@[i as int] == x);
            return true;
        }
        i = i + 1;
    }
    false
}

} // verus!
