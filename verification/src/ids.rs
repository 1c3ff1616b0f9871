//! Editor entity ids: allocation, and the mapping between scene entities
//! (by their bit pattern) and the ids stored in history entries.

use crate::history::HistorySelection;
use vstd::prelude::*;

verus! {

/// The id handed out when `next` is the allocator's counter: never 0.
pub open spec fn alloc_of(next: u128) -> u128 {
    if next == 0 { 1 } else { next }
}

/// `u128::saturating_add(1)`.
pub open spec fn sat_inc(x: u128) -> u128 {
    if x == u128::MAX { x } else { (x + 1) as u128 }
}

/// The counter after `k` allocations starting from `next`.
pub open spec fn alloc_chain(next: u128, k: nat) -> u128
    decreases k,
{
    if k == 0 { next } else { sat_inc(alloc_of(alloc_chain(next, (k - 1) as nat))) }
}

/// Largest id in `ids`, 0 for none.
pub open spec fn max_id(ids: Seq<u128>) -> u128
    decreases ids.len(),
{
    if ids.len() == 0 {
        0
    } else {
        let rest = max_id(ids.drop_last());
        if ids.last() > rest { ids.last() } else { rest }
    }
}

/// Hands out editor entity ids in increasing order, starting at 1.
pub struct EditorIdAllocator {
    next: u128,
}

impl EditorIdAllocator {
    pub closed spec fn counter(&self) -> u128 {
        self.next
    }

    pub fn new() -> (a: Self)
        ensures
            a.counter() == 1,
    {
        EditorIdAllocator { next: 1 }
    }

    pub fn next_id(&self) -> (r: u128)
        ensures
            r == self.counter(),
    {
        self.next
    }

    /// Returns the next id (at least 1) and moves the counter past it,
    /// saturating at `u128::MAX`.
    pub fn allocate(&mut self) -> (id: u128)
        ensures
            id == alloc_of(old(self).counter()),
            final(self).counter() == sat_inc(id),
    {
        let id = if self.next == 0 { 1 } else { self.next };
        self.next = if id == u128::MAX { id } else { id + 1 };
        id
    }

    /// Sets the counter just past the largest id in use.
    pub fn refresh(&mut self, ids: &Vec<u128>)
        ensures
            final(self).counter() == alloc_of(sat_inc(max_id(ids@))),
    {
        let mut max_seen: u128 = 0;
        let mut i: usize = 0;
        while i < ids.len()
            invariant
                i <= ids.len(),
                max_seen == max_id(ids@.take(i as int)),
            decreases ids.len() - i,
        {
            proof {
                assert(ids@.take(i + 1).drop_last() =~= ids@.take(i as int));
            }
            if ids[i] > max_seen {
                max_seen = ids[i];
            }
            i = i + 1;
        }
        proof {
            assert(ids@.take(ids.len() as int) =~= ids@);
        }
        let bumped = if max_seen == u128::MAX { max_seen } else { max_seen + 1 };
        self.next = if bumped == 0 { 1 } else { bumped };
    }

    /// Gives an id to each entity of `missing`, in order.
    pub fn assign_missing(&mut self, missing: &Vec<u64>) -> (r: Vec<(u64, u128)>)
        ensures
            r@.len() == missing@.len(),
            forall|i: int| 0 <= i < r@.len() ==> #[trigger] r@[i] == (missing@[i], alloc_of(alloc_chain(old(self).counter(), i as nat))),
            final(self).counter() == alloc_chain(old(self).counter(), missing@.len()),
    {
        let mut out: Vec<(u64, u128)> = Vec::new();
        let mut i: usize = 0;
        while i < missing.len()
            invariant
                i <= missing.len(),
                out@.len() == i,
                self.counter() == alloc_chain(old(self).counter(), i as nat),
                forall|j: int| 0 <= j < i ==> #[trigger] out@[j] == (missing@[j], alloc_of(alloc_chain(old(self).counter(), j as nat))),
            decreases missing.len() - i,
        {
            let id = self.allocate();
            out.push((missing[i], id));
            i = i + 1;
        }
        out
    }
}

/// Every id below the maximum is at most the maximum.
pub proof fn lemma_max_id_bounds(ids: Seq<u128>)
    ensures
        forall|i: int| 0 <= i < ids.len() ==> #[trigger] ids[i] <= max_id(ids),
    decreases ids.len(),
{
    if ids.len() > 0 {
        lemma_max_id_bounds(ids.drop_last());
        assert forall|i: int| 0 <= i < ids.len() implies #[trigger] ids[i] <= max_id(ids) by {
            if i < ids.len() - 1 {
                assert(ids[i] == ids.drop_last()[i]);
            }
        }
    }
}

/// After `refresh` with the ids in use, the next allocated id is greater
/// than all of them, unless one of them is already `u128::MAX`.
pub proof fn lemma_refresh_then_allocate_is_fresh(ids: Seq<u128>)
    requires
        forall|i: int| 0 <= i < ids.len() ==> #[trigger] ids[i] < u128::MAX,
    ensures
        forall|i: int| 0 <= i < ids.len() ==> #[trigger] ids[i] < alloc_of(alloc_of(sat_inc(max_id(ids)))),
{
    lemma_max_id_bounds(ids);
    if ids.len() > 0 {
        assert(max_id(ids) < u128::MAX) by {
            lemma_max_id_mem(ids);
        }
    }
}

/// The maximum of a non-empty sequence is one of its elements.
pub proof fn lemma_max_id_mem(ids: Seq<u128>)
    requires
        ids.len() > 0,
    ensures
        exists|i: int| 0 <= i < ids.len() && ids[i] == max_id(ids),
    decreases ids.len(),
{
    if ids.len() > 1 {
        lemma_max_id_mem(ids.drop_last());
        let k = choose|i: int| 0 <= i < ids.drop_last().len() && ids.drop_last()[i] == max_id(ids.drop_last());
        assert(ids[k] == ids.drop_last()[k]);
        if ids.last() > max_id(ids.drop_last()) {
            assert(ids[ids.len() - 1] == max_id(ids));
        }
    } else {
        assert(ids.drop_last().len() == 0);
        assert(max_id(ids.drop_last()) == 0);
        assert(ids[0] == max_id(ids));
    }
}

/// Id of the first row of `table` for `entity`.
pub open spec fn id_of_entity(table: Seq<(u64, u128)>, entity: u64) -> Option<u128>
    decreases table.len(),
{
    if table.len() == 0 {
        None
    } else if table[0].0 == entity {
        Some(table[0].1)
    } else {
        id_of_entity(table.drop_first(), entity)
    }
}

/// Entity of the first row of `table` with `id`.
pub open spec fn entity_of_id(table: Seq<(u64, u128)>, id: u128) -> Option<u64>
    decreases table.len(),
{
    if table.len() == 0 {
        None
    } else if table[0].1 == id {
        Some(table[0].0)
    } else {
        entity_of_id(table.drop_first(), id)
    }
}

/// The editor id of `entity`, looked up in the scene's table of
/// (entity, id) rows; entities without an id have no row.
pub fn editor_id_for_entity(table: &Vec<(u64, u128)>, entity: u64) -> (r: Option<u128>)
    ensures
        r == id_of_entity(table@, entity),
{
    let mut i: usize = 0;
    proof {
        assert(table@.subrange(0, table@.len() as int) =~= table@);
    }
    while i < table.len()
        invariant
            i <= table.len(),
            id_of_entity(table@, entity) == id_of_entity(table@.subrange(i as int, table@.len() as int), entity),
        decreases table.len() - i,
    {
        let row = table[i];
        proof {
            let t = table@.subrange(i as int, table@.len() as int);
            assert(t[0] == row);
            assert(t.drop_first() =~= table@.subrange(i + 1, table@.len() as int));
        }
        if row.0 == entity {
            return Some(row.1);
        }
        i = i + 1;
    }
    None
}

/// The first entity of the table that carries `id`.
pub fn entity_by_editor_id(table: &Vec<(u64, u128)>, id: u128) -> (r: Option<u64>)
    ensures
        r == entity_of_id(table@, id),
{
    let mut i: usize = 0;
    proof {
        assert(table@.subrange(0, table@.len() as int) =~= table@);
    }
    while i < table.len()
        invariant
            i <= table.len(),
            entity_of_id(table@, id) == entity_of_id(table@.subrange(i as int, table@.len() as int), id),
        decreases table.len() - i,
    {
        let row = table[i];
        proof {
            let t = table@.subrange(i as int, table@.len() as int);
            assert(t[0] == row);
            assert(t.drop_first() =~= table@.subrange(i + 1, table@.len() as int));
        }
        if row.1 == id {
            return Some(row.0);
        }
        i = i + 1;
    }
    None
}

/// Ids of an optional entity.
pub open spec fn id_of_opt(table: Seq<(u64, u128)>, e: Option<u64>) -> Option<u128> {
    match e {
        Some(x) => id_of_entity(table, x),
        None => None,
    }
}

/// Entity of an optional id.
pub open spec fn entity_of_opt(table: Seq<(u64, u128)>, id: Option<u128>) -> Option<u64> {
    match id {
        Some(x) => entity_of_id(table, x),
        None => None,
    }
}

/// The selection of the scene as editor ids, to be stored in history.
pub fn current_selection_ids(table: &Vec<(u64, u128)>, selected: Option<u64>, highlighted: Option<u64>) -> (r: HistorySelection)
    ensures
        r.selected == id_of_opt(table@, selected),
        r.highlighted == id_of_opt(table@, highlighted),
{
    let s = match selected {
        Some(e) => editor_id_for_entity(table, e),
        None => None,
    };
    let h = match highlighted {
        Some(e) => editor_id_for_entity(table, e),
        None => None,
    };
    HistorySelection { selected: s, highlighted: h }
}

/// Entities selected and highlighted for a selection read back from
/// history; when the highlighted id no longer resolves the selected entity
/// is highlighted instead.
pub open spec fn resolved_selection(table: Seq<(u64, u128)>, sel: HistorySelection) -> (Option<u64>, Option<u64>) {
    let s = entity_of_opt(table, sel.selected);
    let h = entity_of_opt(table, sel.highlighted);
    (s, if h is Some { h } else { s })
}

pub fn resolve_history_selection(table: &Vec<(u64, u128)>, sel: HistorySelection) -> (r: (Option<u64>, Option<u64>))
    ensures
        r == resolved_selection(table@, sel),
{
    let s = match sel.selected {
        Some(id) => entity_by_editor_id(table, id),
        None => None,
    };
    let h = match sel.highlighted {
        Some(id) => entity_by_editor_id(table, id),
        None => None,
    };
    let h2 = match h {
        Some(x) => Some(x),
        None => s,
    };
    (s, h2)
}

/// Neither an entity nor an id occurs in two rows.
pub open spec fn table_injective(table: Seq<(u64, u128)>) -> bool {
    forall|i: int, j: int| 0 <= i < table.len() && 0 <= j < table.len() && i != j ==>
        #[trigger] table[i].0 != #[trigger] table[j].0 && table[i].1 != table[j].1
}

/// Looking an entity's id up and the id's entity back gives the entity.
pub proof fn lemma_entity_id_round_trip(table: Seq<(u64, u128)>, e: u64)
    requires
        table_injective(table),
        id_of_entity(table, e) is Some,
    ensures
        entity_of_id(table, id_of_entity(table, e)->0) == Some(e),
    decreases table.len(),
{
    if table[0].0 != e {
        let rest = table.drop_first();
        assert(table_injective(rest)) by {
            assert forall|i: int, j: int| 0 <= i < rest.len() && 0 <= j < rest.len() && i != j implies
                #[trigger] rest[i].0 != #[trigger] rest[j].0 && rest[i].1 != rest[j].1 by {
                assert(rest[i] == table[i + 1] && rest[j] == table[j + 1]);
            }
        }
        lemma_entity_id_round_trip(rest, e);
        let id = id_of_entity(rest, e)->0;
        lemma_id_row(rest, e);
        let k = choose|k: int| 0 <= k < rest.len() && rest[k] == (e, id);
        assert(table[k + 1] == (e, id));
        assert(table[0].0 != table[k + 1].0 && table[0].1 != table[k + 1].1);
    }
}

/// The id found for an entity comes from one of the table's rows.
pub proof fn lemma_id_row(table: Seq<(u64, u128)>, e: u64)
    requires
        id_of_entity(table, e) is Some,
    ensures
        exists|k: int| 0 <= k < table.len() && table[k] == (e, id_of_entity(table, e)->0),
    decreases table.len(),
{
    if table[0].0 != e {
        lemma_id_row(table.drop_first(), e);
        let k = choose|k: int| 0 <= k < table.drop_first().len() && table.drop_first()[k] == (e, id_of_entity(table.drop_first(), e)->0);
        assert(table[k + 1] == table.drop_first()[k]);
    } else {
        assert(table[0] == (e, id_of_entity(table, e)->0));
    }
}

/// A selection stored in history as ids comes back as the same entities,
/// as long as the scene's id table is one-to-one and both entities still
/// carry their ids.
pub proof fn lemma_selection_round_trip(table: Seq<(u64, u128)>, selected: Option<u64>, highlighted: Option<u64>)
    requires
        table_injective(table),
        selected is Some ==> id_of_entity(table, selected->0) is Some,
        highlighted is Some ==> id_of_entity(table, highlighted->0) is Some,
        highlighted is None ==> selected is None,
    ensures
        resolved_selection(
            table,
            HistorySelection { selected: id_of_opt(table, selected), highlighted: id_of_opt(table, highlighted) },
        ) == (selected, highlighted),
{
    if selected is Some {
        lemma_entity_id_round_trip(table, selected->0);
    }
    if highlighted is Some {
        lemma_entity_id_round_trip(table, highlighted->0);
    }
}

} // verus!
