//! Bounded undo/redo history of scene snapshots and the selection that went
//! with each of them.

use std::collections::VecDeque;
use vstd::prelude::*;

verus! {

/// How many entries each of the undo and redo stacks keeps.
pub const DEFAULT_HISTORY_CAPACITY: usize = 64;

/// Selection recorded together with a snapshot, by editor entity id.
#[derive(Clone, Copy, Debug, PartialEq, Eq, Structural)]
pub struct HistorySelection {
    pub selected: Option<u128>,
    pub highlighted: Option<u128>,
}

/// One recorded state: a scene snapshot and its selection.
pub struct HistoryEntry<S> {
    pub snapshot: S,
    pub selected: Option<u128>,
    pub highlighted: Option<u128>,
}

impl<S> HistoryEntry<S> {
    pub open spec fn selection(self) -> HistorySelection {
        HistorySelection { selected: self.selected, highlighted: self.highlighted }
    }
}

/// Entry built from its parts.
pub open spec fn entry<S>(snapshot: S, selected: Option<u128>, highlighted: Option<u128>) -> HistoryEntry<S> {
    HistoryEntry { snapshot, selected, highlighted }
}

/// Same entry, holding another snapshot.
pub open spec fn with_snapshot<S>(e: HistoryEntry<S>, snapshot: S) -> HistoryEntry<S> {
    HistoryEntry { snapshot, selected: e.selected, highlighted: e.highlighted }
}

/// Abstract state of a history.
pub struct HistoryModel<S> {
    pub current: Option<HistoryEntry<S>>,
    pub undo: Seq<HistoryEntry<S>>,
    pub redo: Seq<HistoryEntry<S>>,
}

/// Pushes onto a stack that holds at most `DEFAULT_HISTORY_CAPACITY`
/// entries, dropping the oldest one when it is full.
pub open spec fn push_bounded<E>(stack: Seq<E>, e: E) -> Seq<E> {
    if stack.len() == DEFAULT_HISTORY_CAPACITY {
        stack.drop_first().push(e)
    } else {
        stack.push(e)
    }
}

/// State after `initialize`.
pub open spec fn initialized_model<S>(snapshot: S, selected: Option<u128>, highlighted: Option<u128>) -> HistoryModel<S> {
    HistoryModel { current: Some(entry(snapshot, selected, highlighted)), undo: seq![], redo: seq![] }
}

/// State after `record_change`.
pub open spec fn record_step<S>(m: HistoryModel<S>, snapshot: S, selected: Option<u128>, highlighted: Option<u128>) -> HistoryModel<S> {
    match m.current {
        None => initialized_model(snapshot, selected, highlighted),
        Some(c) => HistoryModel {
            current: Some(entry(snapshot, selected, highlighted)),
            undo: push_bounded(m.undo, c),
            redo: seq![],
        },
    }
}

/// State after `undo`, where `restored` is the snapshot taken once the older
/// snapshot has been loaded back into the scene.
pub open spec fn undo_step<S>(m: HistoryModel<S>, restored: S) -> HistoryModel<S> {
    match m.current {
        None => m,
        Some(c) => if m.undo.len() == 0 {
            HistoryModel { current: None, undo: m.undo, redo: m.redo }
        } else {
            HistoryModel {
                current: Some(with_snapshot(m.undo.last(), restored)),
                undo: m.undo.drop_last(),
                redo: push_bounded(m.redo, c),
            }
        },
    }
}

/// State after `redo`, symmetric to `undo_step`.
pub open spec fn redo_step<S>(m: HistoryModel<S>, restored: S) -> HistoryModel<S> {
    match m.current {
        None => m,
        Some(c) => if m.redo.len() == 0 {
            HistoryModel { current: None, undo: m.undo, redo: m.redo }
        } else {
            HistoryModel {
                current: Some(with_snapshot(m.redo.last(), restored)),
                undo: push_bounded(m.undo, c),
                redo: m.redo.drop_last(),
            }
        },
    }
}

/// What `undo` answers: the selection of the entry it went back to.
pub open spec fn undo_answer<S>(m: HistoryModel<S>) -> Option<HistorySelection> {
    if m.current is Some && m.undo.len() > 0 {
        Some(m.undo.last().selection())
    } else {
        None
    }
}

/// What `redo` answers: the selection of the entry it went forward to.
pub open spec fn redo_answer<S>(m: HistoryModel<S>) -> Option<HistorySelection> {
    if m.current is Some && m.redo.len() > 0 {
        Some(m.redo.last().selection())
    } else {
        None
    }
}

/// Undo/redo history. Each entry holds a scene snapshot `S`; restoring an
/// entry is done by the caller's closure, which loads the snapshot into the
/// scene and hands back a fresh snapshot of the result.
pub struct EditorHistory<S> {
    current: Option<HistoryEntry<S>>,
    undo_stack: VecDeque<HistoryEntry<S>>,
    redo_stack: VecDeque<HistoryEntry<S>>,
}

impl<S> EditorHistory<S> {
    pub closed spec fn model(&self) -> HistoryModel<S> {
        HistoryModel { current: self.current, undo: self.undo_stack@, redo: self.redo_stack@ }
    }

    /// Neither stack ever holds more than `DEFAULT_HISTORY_CAPACITY` entries.
    pub open spec fn wf(&self) -> bool {
        &&& self.model().undo.len() <= DEFAULT_HISTORY_CAPACITY
        &&& self.model().redo.len() <= DEFAULT_HISTORY_CAPACITY
    }

    pub fn new() -> (h: Self)
        ensures
            h.wf(),
            h.model().current is None,
            h.model().undo == Seq::<HistoryEntry<S>>::empty(),
            h.model().redo == Seq::<HistoryEntry<S>>::empty(),
    {
        EditorHistory { current: None, undo_stack: VecDeque::new(), redo_stack: VecDeque::new() }
    }

    pub fn is_initialized(&self) -> (r: bool)
        ensures
            r == (self.model().current is Some),
    {
        self.current.is_some()
    }

    /// Starts over from `snapshot`, forgetting every undo and redo entry.
    pub fn initialize(&mut self, snapshot: S, selected: Option<u128>, highlighted: Option<u128>)
        ensures
            final(self).wf(),
            final(self).model() == initialized_model(snapshot, selected, highlighted),
    {
        self.current = Some(HistoryEntry { snapshot, selected, highlighted });
        self.undo_stack.clear();
        self.redo_stack.clear();
    }

    /// Replaces the selection stored with the current entry, if there is one.
    pub fn update_selection(&mut self, selected: Option<u128>, highlighted: Option<u128>)
        ensures
            final(self).model().undo == old(self).model().undo,
            final(self).model().redo == old(self).model().redo,
            final(self).model().current == match old(self).model().current {
                None => None,
                Some(c) => Some(entry(c.snapshot, selected, highlighted)),
            },
            old(self).wf() ==> final(self).wf(),
    {
        match self.current.take() {
            None => {},
            Some(c) => {
                self.current = Some(HistoryEntry { snapshot: c.snapshot, selected, highlighted });
            },
        }
    }

    fn push_undo_entry(&mut self, e: HistoryEntry<S>)
        requires
            old(self).model().undo.len() <= DEFAULT_HISTORY_CAPACITY,
        ensures
            final(self).model().undo == push_bounded(old(self).model().undo, e),
            final(self).model().redo == old(self).model().redo,
            final(self).model().current == old(self).model().current,
            final(self).model().undo.len() <= DEFAULT_HISTORY_CAPACITY,
    {
        if self.undo_stack.len() == DEFAULT_HISTORY_CAPACITY {
            let _ = self.undo_stack.pop_front();
            proof {
                assert(self.undo_stack@ =~= old(self).undo_stack@.drop_first());
            }
        }
        self.undo_stack.push_back(e);
    }

    fn push_redo_entry(&mut self, e: HistoryEntry<S>)
        requires
            old(self).model().redo.len() <= DEFAULT_HISTORY_CAPACITY,
        ensures
            final(self).model().redo == push_bounded(old(self).model().redo, e),
            final(self).model().undo == old(self).model().undo,
            final(self).model().current == old(self).model().current,
            final(self).model().redo.len() <= DEFAULT_HISTORY_CAPACITY,
    {
        if self.redo_stack.len() == DEFAULT_HISTORY_CAPACITY {
            let _ = self.redo_stack.pop_front();
            proof {
                assert(self.redo_stack@ =~= old(self).redo_stack@.drop_first());
            }
        }
        self.redo_stack.push_back(e);
    }

    /// Records a new state: the previous current entry moves onto the undo
    /// stack and the redo stack is cleared. An uninitialized history is
    /// initialized instead.
    pub fn record_change(&mut self, snapshot: S, selected: Option<u128>, highlighted: Option<u128>)
        requires
            old(self).wf(),
        ensures
            final(self).wf(),
            final(self).model() == record_step(old(self).model(), snapshot, selected, highlighted),
    {
        match self.current.take() {
            None => {
                self.initialize(snapshot, selected, highlighted);
            },
            Some(c) => {
                self.push_undo_entry(c);
                self.current = Some(HistoryEntry { snapshot, selected, highlighted });
                self.redo_stack.clear();
            },
        }
    }

    /// Goes back one entry. `restore` receives the snapshot of the entry
    /// being returned to and gives back the snapshot that the entry keeps
    /// from then on. With nothing current nothing happens; with an empty
    /// undo stack the current entry is dropped and `None` is returned.
    pub fn undo<F: FnOnce(S) -> S>(&mut self, restore: F) -> (r: Option<HistorySelection>)
        requires
            old(self).wf(),
            forall|s: S| restore.requires((s,)),
        ensures
            final(self).wf(),
            r == undo_answer(old(self).model()),
            r is None ==> final(self).model() == (HistoryModel {
                current: None,
                undo: old(self).model().undo,
                redo: old(self).model().redo,
            }),
            r is Some ==> {
                &&& final(self).model().current is Some
                &&& restore.ensures((old(self).model().undo.last().snapshot,), final(self).model().current->0.snapshot)
                &&& final(self).model() == undo_step(old(self).model(), final(self).model().current->0.snapshot)
            },
    {
        let current = match self.current.take() {
            None => return None,
            Some(c) => c,
        };
        let e = match self.undo_stack.pop_back() {
            None => return None,
            Some(e) => e,
        };
        self.push_redo_entry(current);
        let selection = HistorySelection { selected: e.selected, highlighted: e.highlighted };
        let snapshot = restore(e.snapshot);
        self.current = Some(HistoryEntry { snapshot, selected: e.selected, highlighted: e.highlighted });
        Some(selection)
    }

    /// Goes forward one entry; the mirror image of `undo`.
    pub fn redo<F: FnOnce(S) -> S>(&mut self, restore: F) -> (r: Option<HistorySelection>)
        requires
            old(self).wf(),
            forall|s: S| restore.requires((s,)),
        ensures
            final(self).wf(),
            r == redo_answer(old(self).model()),
            r is None ==> final(self).model() == (HistoryModel {
                current: None,
                undo: old(self).model().undo,
                redo: old(self).model().redo,
            }),
            r is Some ==> {
                &&& final(self).model().current is Some
                &&& restore.ensures((old(self).model().redo.last().snapshot,), final(self).model().current->0.snapshot)
                &&& final(self).model() == redo_step(old(self).model(), final(self).model().current->0.snapshot)
            },
    {
        let current = match self.current.take() {
            None => return None,
            Some(c) => c,
        };
        let e = match self.redo_stack.pop_back() {
            None => return None,
            Some(e) => e,
        };
        self.push_undo_entry(current);
        let selection = HistorySelection { selected: e.selected, highlighted: e.highlighted };
        let snapshot = restore(e.snapshot);
        self.current = Some(HistoryEntry { snapshot, selected: e.selected, highlighted: e.highlighted });
        Some(selection)
    }

    pub fn can_undo(&self) -> (r: bool)
        ensures
            r == (self.model().undo.len() > 0),
    {
        self.undo_stack.len() > 0
    }

    pub fn can_redo(&self) -> (r: bool)
        ensures
            r == (self.model().redo.len() > 0),
    {
        self.redo_stack.len() > 0
    }
}

/// Undoing right after a recorded change goes back to the state that was
/// current before the change: `restore` is handed that state's snapshot, its
/// selection is answered and becomes current again, the undo stack is as it
/// was (less its oldest entry if the change filled it), and the recorded
/// change waits alone on the redo stack.
pub proof fn lemma_undo_reverts_record<S>(
    m: HistoryModel<S>,
    snapshot: S,
    selected: Option<u128>,
    highlighted: Option<u128>,
    restored: S,
)
    requires
        m.current is Some,
        m.undo.len() <= DEFAULT_HISTORY_CAPACITY,
    ensures
        ({
            let m1 = record_step(m, snapshot, selected, highlighted);
            let m2 = undo_step(m1, restored);
            &&& undo_answer(m1) == Some(m.current->0.selection())
            &&& m1.undo.last().snapshot == m.current->0.snapshot
            &&& m2.current == Some(with_snapshot(m.current->0, restored))
            &&& m2.undo == (if m.undo.len() == DEFAULT_HISTORY_CAPACITY {
                m.undo.drop_first()
            } else {
                m.undo
            })
            &&& m2.redo == seq![entry(snapshot, selected, highlighted)]
        }),
{
    let m1 = record_step(m, snapshot, selected, highlighted);
    let m2 = undo_step(m1, restored);
    if m.undo.len() == DEFAULT_HISTORY_CAPACITY {
        assert(m1.undo.drop_last() =~= m.undo.drop_first());
    } else {
        assert(m1.undo.drop_last() =~= m.undo);
    }
    assert(m2.redo =~= seq![entry(snapshot, selected, highlighted)]);
}

/// Redoing right after an undo comes back to where the undo started: the
/// same selection is answered and current again, `restore` is handed the
/// snapshot that was current before the undo, the redo stack is as it was,
/// and the undo stack is as it was except that its top entry now holds the
/// snapshot taken when the undo restored it.
pub proof fn lemma_redo_reverts_undo<S>(m: HistoryModel<S>, restored_back: S, restored_forward: S)
    requires
        m.current is Some,
        m.undo.len() > 0,
        m.undo.len() <= DEFAULT_HISTORY_CAPACITY,
        m.redo.len() < DEFAULT_HISTORY_CAPACITY,
    ensures
        ({
            let m1 = undo_step(m, restored_back);
            let m2 = redo_step(m1, restored_forward);
            &&& redo_answer(m1) == Some(m.current->0.selection())
            &&& m1.redo.last().snapshot == m.current->0.snapshot
            &&& m2.current == Some(with_snapshot(m.current->0, restored_forward))
            &&& m2.redo == m.redo
            &&& m2.undo == m.undo.drop_last().push(with_snapshot(m.undo.last(), restored_back))
        }),
{
    let m1 = undo_step(m, restored_back);
    let m2 = redo_step(m1, restored_forward);
    assert(m1.redo.drop_last() =~= m.redo);
}

/// After a recorded change there is nothing to redo, and there is something
/// to undo exactly when the history had been initialized before.
pub proof fn lemma_record_clears_redo<S>(
    m: HistoryModel<S>,
    snapshot: S,
    selected: Option<u128>,
    highlighted: Option<u128>,
)
    ensures
        redo_answer(record_step(m, snapshot, selected, highlighted)) is None,
        (undo_answer(record_step(m, snapshot, selected, highlighted)) is Some) == (m.current is Some),
{
}

/// The history after recording each of `changes` in turn.
pub open spec fn record_all<S>(m: HistoryModel<S>, changes: Seq<HistoryEntry<S>>) -> HistoryModel<S>
    decreases changes.len(),
{
    if changes.len() == 0 {
        m
    } else {
        let c = changes.last();
        record_step(record_all(m, changes.drop_last()), c.snapshot, c.selected, c.highlighted)
    }
}

/// The history after undoing once for each of `restored`, the `k`-th undo's
/// restore giving back `restored[k]`.
pub open spec fn undo_all<S>(m: HistoryModel<S>, restored: Seq<S>) -> HistoryModel<S>
    decreases restored.len(),
{
    if restored.len() == 0 {
        m
    } else {
        undo_step(undo_all(m, restored.drop_last()), restored.last())
    }
}

/// How many entries the undo stack keeps after `n` recorded changes.
pub open spec fn kept(n: nat) -> nat {
    if n < DEFAULT_HISTORY_CAPACITY {
        n
    } else {
        DEFAULT_HISTORY_CAPACITY as nat
    }
}

/// After initializing with `first` and recording `changes`, the last change
/// is current, nothing can be redone, and the undo stack holds the states
/// that came before it, the newest `DEFAULT_HISTORY_CAPACITY` of them in
/// order.
pub proof fn lemma_record_all<S>(first: HistoryEntry<S>, changes: Seq<HistoryEntry<S>>)
    ensures
        ({
            let states = seq![first] + changes;
            let n = changes.len();
            let m = record_all(initialized_model(first.snapshot, first.selected, first.highlighted), changes);
            &&& m.current == Some(states[n as int])
            &&& m.redo.len() == 0
            &&& m.undo == states.subrange(n - kept(n), n as int)
        }),
    decreases changes.len(),
{
    let states = seq![first] + changes;
    let n = changes.len();
    let init = initialized_model(first.snapshot, first.selected, first.highlighted);
    if n == 0 {
        assert(states[0] == first);
        assert(init.undo =~= states.subrange(0, 0));
    } else {
        let prev = changes.drop_last();
        lemma_record_all(first, prev);
        let states0 = seq![first] + prev;
        assert(states0 =~= states.take(n as int));
        let m0 = record_all(init, prev);
        let c = changes.last();
        assert(states[n as int] == c);
        assert(entry(c.snapshot, c.selected, c.highlighted) == c);
        assert(m0.current == Some(states[n - 1]));
        if m0.undo.len() == DEFAULT_HISTORY_CAPACITY {
            assert(m0.undo.drop_first().push(states[n - 1]) =~= states.subrange(n - kept(n), n as int));
        } else {
            assert(m0.undo.push(states[n - 1]) =~= states.subrange(n - kept(n), n as int));
        }
    }
}

/// Undoing `k` times, no more than the undo stack holds, walks down the
/// stack: each undo answers the selection of the newest entry left and
/// hands its snapshot to the restore, and what is left below it stays.
pub proof fn lemma_undo_all<S>(m: HistoryModel<S>, restored: Seq<S>)
    requires
        m.current is Some,
        restored.len() <= m.undo.len(),
    ensures
        undo_all(m, restored).current is Some,
        undo_all(m, restored).undo == m.undo.take(m.undo.len() - restored.len()),
    decreases restored.len(),
{
    if restored.len() > 0 {
        lemma_undo_all(m, restored.drop_last());
        let m0 = undo_all(m, restored.drop_last());
        assert(m0.undo.drop_last() =~= m.undo.take(m.undo.len() - restored.len()));
    }
}

/// The undo stack keeps at most `DEFAULT_HISTORY_CAPACITY` entries: after
/// initializing with state `s0` and recording `n` changes `s1 .. sn`, undo
/// succeeds exactly `min(n, DEFAULT_HISTORY_CAPACITY)` times in a row, the
/// `k`-th of them (counting from 1) going back to `s(n-k)`: it answers that
/// state's selection and hands its snapshot to the restore. The undo after
/// those answers `None`.
pub proof fn lemma_undo_depth<S>(first: HistoryEntry<S>, changes: Seq<HistoryEntry<S>>, restored: Seq<S>)
    requires
        restored.len() >= kept(changes.len()),
    ensures
        ({
            let states = seq![first] + changes;
            let n = changes.len();
            let m = record_all(initialized_model(first.snapshot, first.selected, first.highlighted), changes);
            &&& forall|k: int|
                0 <= k < kept(n) ==> {
                    let before = #[trigger] undo_all(m, restored.take(k));
                    &&& undo_answer(before) == Some(states[n - 1 - k].selection())
                    &&& before.undo.last() == states[n - 1 - k]
                }
            &&& undo_answer(undo_all(m, restored.take(kept(n) as int))) is None
        }),
{
    let states = seq![first] + changes;
    let n = changes.len();
    let m = record_all(initialized_model(first.snapshot, first.selected, first.highlighted), changes);
    lemma_record_all(first, changes);
    assert(m.undo.len() == kept(n));
    assert forall|k: int| 0 <= k < kept(n) implies {
        let before = #[trigger] undo_all(m, restored.take(k));
        &&& undo_answer(before) == Some(states[n - 1 - k].selection())
        &&& before.undo.last() == states[n - 1 - k]
    } by {
        lemma_undo_all(m, restored.take(k));
        let before = undo_all(m, restored.take(k));
        assert(before.undo =~= m.undo.take(kept(n) - k));
        assert(before.undo.last() == m.undo[kept(n) - k - 1]);
    }
    lemma_undo_all(m, restored.take(kept(n) as int));
}

} // verus!
