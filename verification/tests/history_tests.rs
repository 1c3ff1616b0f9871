use cube_editor::history::{EditorHistory, HistorySelection, DEFAULT_HISTORY_CAPACITY};
use cube_editor::history_system::{
    gizmo_mode_for_key, GizmoKey, GizmoMode, GizmoSpace, HistorySystem, TransformToolSystem,
};
use cube_editor::ids::{
    current_selection_ids, editor_id_for_entity, entity_by_editor_id, resolve_history_selection, EditorIdAllocator,
};

fn sel(selected: Option<u128>, highlighted: Option<u128>) -> HistorySelection {
    HistorySelection { selected, highlighted }
}

#[test]
fn record_then_undo_then_redo() {
    let mut h: EditorHistory<u32> = EditorHistory::new();
    assert!(!h.is_initialized());
    h.initialize(10, Some(1), None);
    h.record_change(20, Some(2), Some(2));
    assert!(h.can_undo());
    assert!(!h.can_redo());

    let mut restored = Vec::new();
    let back = h.undo(|s| {
        restored.push(s);
        s
    });
    assert_eq!(back, Some(sel(Some(1), None)));
    assert_eq!(restored, vec![10]);
    assert!(!h.can_undo());
    assert!(h.can_redo());

    let forward = h.redo(|s| s + 1);
    assert_eq!(forward, Some(sel(Some(2), Some(2))));
    assert!(h.can_undo());
    assert!(!h.can_redo());
}

#[test]
fn recording_clears_redo() {
    let mut h: EditorHistory<u32> = EditorHistory::new();
    h.initialize(1, None, None);
    h.record_change(2, None, None);
    let _ = h.undo(|s| s);
    assert!(h.can_redo());
    h.record_change(3, None, None);
    assert!(!h.can_redo());
}

#[test]
fn undo_with_empty_stack_drops_current() {
    let mut h: EditorHistory<u32> = EditorHistory::new();
    assert_eq!(h.undo(|s| s), None);
    h.initialize(5, None, None);
    assert_eq!(h.undo(|s| s), None);
    assert!(!h.is_initialized());
}

#[test]
fn record_on_uninitialized_history_initializes() {
    let mut h: EditorHistory<u32> = EditorHistory::new();
    h.record_change(7, Some(3), None);
    assert!(h.is_initialized());
    assert!(!h.can_undo());
}

#[test]
fn undo_stack_is_bounded() {
    let mut h: EditorHistory<usize> = EditorHistory::new();
    h.initialize(0, None, None);
    for i in 1..=(DEFAULT_HISTORY_CAPACITY + 10) {
        h.record_change(i, None, None);
    }
    let mut count = 0;
    while h.can_undo() {
        let _ = h.undo(|s| s);
        count += 1;
    }
    assert_eq!(count, DEFAULT_HISTORY_CAPACITY);
}

#[test]
fn update_selection_changes_current_entry() {
    let mut h: EditorHistory<u32> = EditorHistory::new();
    h.initialize(1, None, None);
    h.record_change(2, None, None);
    h.update_selection(Some(9), Some(8));
    let _ = h.undo(|s| s);
    assert_eq!(h.redo(|s| s), Some(sel(Some(9), Some(8))));
}

#[test]
fn ids_are_handed_out_from_one() {
    let mut a = EditorIdAllocator::new();
    assert_eq!(a.next_id(), 1);
    assert_eq!(a.allocate(), 1);
    assert_eq!(a.allocate(), 2);
    a.refresh(&vec![4, 17, 3]);
    assert_eq!(a.allocate(), 18);
    a.refresh(&vec![]);
    assert_eq!(a.allocate(), 1);
    a.refresh(&vec![u128::MAX]);
    assert_eq!(a.allocate(), u128::MAX);
    assert_eq!(a.allocate(), u128::MAX);
}

#[test]
fn missing_ids_are_assigned_in_order() {
    let mut a = EditorIdAllocator::new();
    let _ = a.allocate();
    let assigned = a.assign_missing(&vec![40, 41]);
    assert_eq!(assigned, vec![(40, 2), (41, 3)]);
    assert_eq!(a.next_id(), 4);
}

#[test]
fn selection_ids_round_trip_through_the_table() {
    let table = vec![(10u64, 100u128), (11, 101)];
    assert_eq!(editor_id_for_entity(&table, 11), Some(101));
    assert_eq!(editor_id_for_entity(&table, 12), None);
    assert_eq!(entity_by_editor_id(&table, 100), Some(10));
    assert_eq!(entity_by_editor_id(&table, 5), None);
    let s = current_selection_ids(&table, Some(10), Some(11));
    assert_eq!(s, sel(Some(100), Some(101)));
    assert_eq!(resolve_history_selection(&table, s), (Some(10), Some(11)));
    assert_eq!(resolve_history_selection(&table, sel(Some(100), None)), (Some(10), Some(10)));
    assert_eq!(resolve_history_selection(&table, sel(Some(7), Some(8))), (None, None));
}

#[test]
fn history_system_reset_and_ids() {
    let tool: TransformToolSystem<u8> = TransformToolSystem::new();
    assert_eq!(tool.gizmo_mode, GizmoMode::Translate);
    assert_eq!(tool.gizmo_space, GizmoSpace::Local);
    let mut hs: HistorySystem<u32, u8> = HistorySystem::new(EditorHistory::new(), tool);
    assert_eq!(hs.allocate_editor_entity_id(), 1);
    assert_eq!(hs.ensure_editor_entity_ids(&vec![5, 6]), vec![(5, 2), (6, 3)]);
    hs.refresh_next_editor_entity_id(&vec![9]);
    assert_eq!(hs.allocate_editor_entity_id(), 10);
    hs.transform_tool_mut().gizmo_drag = Some(3);
    hs.transform_tool_mut().gizmo_mode = gizmo_mode_for_key(GizmoKey::E);
    assert_eq!(hs.gizmo_drag(), Some(&3));
    hs.history_mut().initialize(1, None, None);
    hs.history_mut().record_change(2, None, None);
    assert!(hs.history().can_undo());
    hs.reset();
    assert_eq!(hs.gizmo_drag(), None);
    assert!(!hs.history().is_initialized());
    assert_eq!(hs.allocate_editor_entity_id(), 1);
}

#[test]
fn gizmo_keys_pick_modes() {
    assert_eq!(gizmo_mode_for_key(GizmoKey::W), GizmoMode::Translate);
    assert_eq!(gizmo_mode_for_key(GizmoKey::E), GizmoMode::Rotate);
    assert_eq!(gizmo_mode_for_key(GizmoKey::R), GizmoMode::Scale);
}

#[test]
fn history_system_undo_and_redo_end_gizmo_drags() {
    let tool: TransformToolSystem<u8> = TransformToolSystem::new();
    let mut hs: HistorySystem<u32, u8> = HistorySystem::new(EditorHistory::new(), tool);
    hs.history_mut().initialize(1, Some(11), None);
    hs.history_mut().record_change(2, Some(22), None);
    hs.transform_tool_mut().gizmo_drag = Some(7);
    assert_eq!(hs.perform_undo(|s| s), Some(sel(Some(11), None)));
    assert_eq!(hs.gizmo_drag(), None);
    hs.transform_tool_mut().gizmo_drag = Some(8);
    assert_eq!(hs.perform_redo(|s| s), Some(sel(Some(22), None)));
    assert_eq!(hs.gizmo_drag(), None);
    assert_eq!(hs.perform_redo(|s| s), None);
}
