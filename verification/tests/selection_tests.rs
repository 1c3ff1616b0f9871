use cube_editor::hierarchy::{plan_subtree_removal, EntityLinks};
use cube_editor::history::HistorySelection;
use cube_editor::selection::{
    cpu_pick_choice, vec_contains, GpuPickState, PickCompletion, PickEnqueue, SelectionDeletionResult,
    SelectionState, SelectionSyncPlan, SelectionSystem,
};

type Sys = SelectionSystem<(i32, i32), u32>;

#[test]
fn cpu_pick_discards_entities_the_gpu_would_have_found() {
    assert_eq!(cpu_pick_choice(None, None), None);
    assert_eq!(cpu_pick_choice(Some(7), None), Some(7));
    assert_eq!(cpu_pick_choice(Some(7), Some(0)), Some(7));
    assert_eq!(cpu_pick_choice(Some(7), Some(3)), None);
}

#[test]
fn press_then_release_requests_a_pick() {
    let mut s = Sys::new();
    s.capture_pick_input(Some((1, 2)), None, true, true);
    assert!(s.pointer_primary_down());
    assert_eq!(s.take_pending_pick(), None);
    s.capture_pick_input(None, Some((3, 4)), false, true);
    assert!(!s.pointer_primary_down());
    assert_eq!(s.take_pending_pick(), Some((3, 4)));
    // A second release without a new press asks for nothing.
    s.capture_pick_input(None, Some((3, 4)), false, true);
    assert_eq!(s.take_pending_pick(), None);
}

#[test]
fn gizmo_drags_do_not_pick() {
    let mut s = Sys::new();
    s.capture_pick_input(Some((1, 1)), Some((2, 2)), false, false);
    assert_eq!(s.take_pending_pick(), None);
    assert_eq!(s.take_selection_press_uv(), Some((1, 1)));
}

#[test]
fn pick_enqueue_outcomes() {
    let mut s = Sys::new();
    assert!(s.finish_pick_enqueue((5, 5), PickEnqueue::Issued(42)));
    assert!(s.gpu_pick_mut().in_flight());
    assert_eq!(s.gpu_pick_mut().take_last_request(), Some(42));
    assert!(!s.finish_pick_enqueue((6, 6), PickEnqueue::Busy));
    assert_eq!(s.take_pending_pick(), Some((6, 6)));
    assert!(!s.finish_pick_enqueue((7, 7), PickEnqueue::NoTarget));
    assert!(matches!(s.gpu_pick_mut().take_result(), Some(PickCompletion::Gpu(None))));
}

#[test]
fn gpu_pick_values() {
    let mut g: GpuPickState<u32> = GpuPickState::new();
    g.mark_in_flight();
    g.record_request(9);
    g.receive_pick_value(0, None);
    assert!(!g.in_flight());
    assert!(matches!(g.take_result(), Some(PickCompletion::CpuFallback(9))));
    g.mark_in_flight();
    g.receive_pick_value(5, Some(77));
    assert!(matches!(g.take_result(), Some(PickCompletion::Gpu(Some(77)))));
    // A result after a discard is dropped.
    g.mark_in_flight();
    g.mark_discard();
    g.receive_pick_value(5, Some(1));
    assert!(g.take_result().is_none());
}

#[test]
fn picked_entity_becomes_the_selection() {
    let mut s = Sys::new();
    s.select_picked(Some(12));
    assert_eq!(s.selected(), Some(12));
    assert_eq!(s.take_override(), Some(Some(12)));
    assert_eq!(s.take_override(), None);
    s.set_highlighted(Some(12));
    s.clear_selection();
    assert_eq!(s.selected(), None);
    assert_eq!(s.highlighted(), None);
    assert_eq!(s.take_override(), Some(None));
}

#[test]
fn deletions_clear_what_was_removed() {
    let mut s = Sys::new();
    assert_eq!(s.apply_entity_deletions(&vec![], Some(1), None), None);
    s.set_selected(Some(3));
    s.set_highlighted(Some(4));
    let r = s.apply_entity_deletions(&vec![3, 1], Some(1), Some(8));
    assert_eq!(
        r,
        Some(SelectionDeletionResult { active_camera_removed: true, clear_gizmo_drag: false, selection_changed: true })
    );
    assert_eq!(s.selected(), None);
    assert_eq!(s.highlighted(), Some(4));
    assert_eq!(s.take_override(), Some(None));
}

#[test]
fn selection_sync_moves_the_marker() {
    let mut s = Sys::new();
    s.set_selected(Some(5));
    assert_eq!(
        s.plan_selection_sync(false),
        SelectionSyncPlan { remove_marker_from: None, insert_marker_on: Some(5) }
    );
    assert!(s.finish_selection_sync(false, true));
    assert_eq!(s.highlighted(), Some(5));
    assert_eq!(s.plan_selection_sync(true), SelectionSyncPlan { remove_marker_from: None, insert_marker_on: None });
    assert!(!s.finish_selection_sync(true, false));
    s.set_selected(Some(6));
    assert_eq!(
        s.plan_selection_sync(false),
        SelectionSyncPlan { remove_marker_from: Some(5), insert_marker_on: Some(6) }
    );
    // The insertion failed: the selection is dropped.
    assert!(s.finish_selection_sync(false, false));
    assert_eq!(s.selected(), None);
    assert_eq!(s.highlighted(), None);
}

#[test]
fn scenes_keep_their_own_selection() {
    let mut s = Sys::new();
    s.set_active_scene(1);
    s.set_selected(Some(10));
    s.set_active_scene(2);
    assert_eq!(s.selected(), None);
    s.set_selected(Some(20));
    s.set_active_scene(1);
    assert_eq!(s.selected(), Some(10));
    s.reset_workspace();
    assert_eq!(s.selected(), None);
}

#[test]
fn history_selection_resolves_through_ids() {
    let mut s = Sys::new();
    let table = vec![(100u64, 1u128), (200u64, 2u128)];
    s.apply_history_selection(&table, HistorySelection { selected: Some(2), highlighted: Some(9) });
    assert_eq!(s.selected(), Some(200));
    // An id that no longer resolves falls back to the selection.
    assert_eq!(s.highlighted(), Some(200));
    s.apply_history_selection(&table, HistorySelection { selected: None, highlighted: Some(1) });
    assert_eq!(s.selected(), None);
    assert_eq!(s.highlighted(), Some(100));
    assert_eq!(s.take_override(), Some(None));
}

#[test]
fn selection_state_starts_empty() {
    let st = SelectionState::new();
    assert_eq!(st, SelectionState { selected: None, highlighted: None, synced_highlighted: None, override_request: None });
    assert!(vec_contains(&vec![1, 2, 3], 2));
    assert!(!vec_contains(&vec![1, 2, 3], 4));
}

fn link(entity: u64, parent: Option<u64>, children: Option<Vec<u64>>) -> EntityLinks {
    EntityLinks { entity, parent, children }
}

#[test]
fn deleting_an_entity_takes_its_subtree() {
    let links = vec![
        link(0, None, Some(vec![1, 5])),
        link(1, Some(0), Some(vec![2, 3])),
        link(2, Some(1), Some(vec![4])),
        link(3, Some(1), None),
        link(4, Some(2), None),
        link(5, Some(0), None),
    ];
    let plan = plan_subtree_removal(&links, 1).expect("alive");
    assert_eq!(plan.removed, vec![1, 3, 2, 4]);
    assert_eq!(plan.parent_children, Some((0, vec![5])));
    let leaf = plan_subtree_removal(&links, 5).expect("alive");
    assert_eq!(leaf.removed, vec![5]);
    assert_eq!(leaf.parent_children, Some((0, vec![1])));
    let top = plan_subtree_removal(&links, 0).expect("alive");
    assert_eq!(top.removed, vec![0, 5, 1, 3, 2, 4]);
    assert_eq!(top.parent_children, None);
    assert!(plan_subtree_removal(&links, 99).is_none());
}

#[test]
fn subtree_walk_meets_each_entity_once() {
    let links = vec![link(7, None, Some(vec![8, 9])), link(8, Some(7), Some(vec![7, 9])), link(9, Some(7), None)];
    let plan = plan_subtree_removal(&links, 7).expect("alive");
    assert_eq!(plan.removed, vec![7, 9, 8]);
    // A child that is not alive is skipped.
    let dangling = vec![link(1, None, Some(vec![2, 3])), link(3, Some(1), None)];
    assert_eq!(plan_subtree_removal(&dangling, 1).expect("alive").removed, vec![1, 3]);
}
