//! Which GPU slot each particle-system entity uses: an entity keeps its slot
//! while it stays in the scene, a new one gets the next slot, and entities
//! that left the scene give theirs up.

use vstd::prelude::*;

verus! {

/// Whether `e` has an entry.
pub open spec fn has_entity(s: Seq<(u64, u32)>, e: u64) -> bool {
    exists|i: int| 0 <= i < s.len() && (#[trigger] s[i]).0 == e
}

/// No entity twice.
pub open spec fn unique_entities(s: Seq<(u64, u32)>) -> bool {
    forall|i: int, j: int| 0 <= i < j < s.len() ==> (#[trigger] s[i]).0 != (#[trigger] s[j]).0
}

/// The slot of `e`.
pub open spec fn slot_of(s: Seq<(u64, u32)>, e: u64) -> u32 {
    s[choose|i: int| 0 <= i < s.len() && (#[trigger] s[i]).0 == e].1
}

/// Whether `e` is one of the scene's particle systems.
pub open spec fn in_scene(scene: Seq<SceneParticleSystem>, e: u64) -> bool {
    exists|j: int| 0 <= j < scene.len() && #[trigger] scene[j].entity == e
}

/// `x + 1`, staying at the largest value.
pub open spec fn sat_inc32(x: u32) -> u32 {
    if x == u32::MAX {
        x
    } else {
        (x + 1) as u32
    }
}

/// The slot `e` gets from entries `s` with next free slot `next`: its own,
/// or the next free one.
pub open spec fn slot_given(s: Seq<(u64, u32)>, next: u32, e: u64) -> u32 {
    if has_entity(s, e) {
        slot_of(s, e)
    } else {
        next
    }
}

/// Walking the scene's particle systems in order from entries `s` and next
/// free slot `next`: each entity without a slot gets the next free one.
/// Gives the entries, the next free slot, and the slot updates asked for
/// (an entity whose recorded slot is not the one it has), in order.
pub open spec fn assign_slots(s: Seq<(u64, u32)>, next: u32, scene: Seq<SceneParticleSystem>) -> (
    Seq<(u64, u32)>,
    u32,
    Seq<(u64, u32)>,
)
    decreases scene.len(),
{
    if scene.len() == 0 {
        (s, next, seq![])
    } else {
        let (s1, n1, u1) = assign_slots(s, next, scene.drop_last());
        let p = scene.last();
        let slot = slot_given(s1, n1, p.entity);
        let s2 = if has_entity(s1, p.entity) {
            s1
        } else {
            s1.push((p.entity, n1))
        };
        let n2 = if has_entity(s1, p.entity) {
            n1
        } else {
            sat_inc32(n1)
        };
        let u2 = if p.recorded_slot != Some(slot) {
            u1.push((p.entity, slot))
        } else {
            u1
        };
        (s2, n2, u2)
    }
}

/// The entries whose entity is in the scene, in order.
pub open spec fn keep_in_scene(s: Seq<(u64, u32)>, scene: Seq<SceneParticleSystem>) -> Seq<(u64, u32)>
    decreases s.len(),
{
    if s.len() == 0 {
        seq![]
    } else {
        let prev = keep_in_scene(s.drop_last(), scene);
        if in_scene(scene, s.last().0) {
            prev.push(s.last())
        } else {
            prev
        }
    }
}

/// A particle-system entity seen in the scene, with the slot recorded on it
/// (if any).
pub struct SceneParticleSystem {
    pub entity: u64,
    pub recorded_slot: Option<u32>,
}

/// What a sync asks of the scene: slots to record on entities, and
/// entities whose slot record is to be removed.
pub struct ParticleSync {
    pub slot_updates: Vec<(u64, u32)>,
    pub removed: Vec<u64>,
}

/// Slots of the particle systems known to the editor.
pub struct ParticleSlots {
    entries: Vec<(u64, u32)>,
    next_gpu_index: u32,
}

impl ParticleSlots {
    pub closed spec fn entries(&self) -> Seq<(u64, u32)> {
        self.entries@
    }

    pub closed spec fn next_slot(&self) -> u32 {
        self.next_gpu_index
    }

    pub open spec fn wf(&self) -> bool {
        unique_entities(self.entries())
    }

    /// No entity known; slots from 0.
    pub fn new() -> (r: Self)
        ensures
            r.wf(),
            r.entries() == Seq::<(u64, u32)>::empty(),
            r.next_slot() == 0,
    {
        ParticleSlots { entries: Vec::new(), next_gpu_index: 0 }
    }

    fn find(&self, entity: u64) -> (r: Option<usize>)
        ensures
            match r {
                Some(i) => i < self.entries().len() && self.entries()[i as int].0 == entity,
                None => !has_entity(self.entries(), entity),
            },
    {
        let mut i: usize = 0;
        while i < self.entries.len()
            invariant
                i <= self.entries@.len(),
                forall|j: int| 0 <= j < i ==> (#[trigger] self.entries@[j]).0 != entity,
            decreases self.entries.len() - i,
        {
            if self.entries[i].0 == entity {
                return Some(i);
            }
            i = i + 1;
        }
        None
    }

    /// The slot of `entity`: its own when it has one, else the next free
    /// slot, which is then given to it.
    pub fn ensure_entry(&mut self, entity: u64) -> (slot: u32)
        requires
            old(self).wf(),
        ensures
            final(self).wf(),
            has_entity(old(self).entries(), entity) ==> {
                &&& slot == slot_of(old(self).entries(), entity)
                &&& final(self).entries() == old(self).entries()
                &&& final(self).next_slot() == old(self).next_slot()
            },
            !has_entity(old(self).entries(), entity) ==> {
                &&& slot == old(self).next_slot()
                &&& final(self).entries() == old(self).entries().push((entity, slot))
                &&& final(self).next_slot() == sat_inc32(old(self).next_slot())
            },
    {
        match self.find(entity) {
            Some(i) => {
                proof {
                    let k = choose|k: int| 0 <= k < self.entries().len() && (#[trigger] self.entries()[k]).0 == entity;
                    if k != i {
                        assert(self.entries()[k].0 == self.entries()[i as int].0);
                    }
                }
                self.entries[i].1
            },
            None => {
                let slot = self.next_gpu_index;
                self.next_gpu_index = if slot == u32::MAX {
                    slot
                } else {
                    slot + 1
                };
                let ghost before = self.entries@;
                self.entries.push((entity, slot));
                proof {
                    assert forall|i: int, j: int| 0 <= i < j < self.entries@.len() implies (
                    #[trigger] self.entries@[i]).0 != (#[trigger] self.entries@[j]).0 by {
                        if j == before.len() {
                            assert(self.entries@[i] == before[i]);
                        }
                    }
                }
                slot
            },
        }
    }

    /// Brings the slots in line with the particle systems in the scene, in
    /// the order given: each keeps or gets a slot (see `ensure_entry`); a
    /// slot update is asked for each entity whose recorded slot differs;
    /// entities no longer in the scene give up their slots and are listed
    /// so that their records are removed.
    pub fn sync(&mut self, scene: &Vec<SceneParticleSystem>) -> (r: ParticleSync)
        requires
            old(self).wf(),
        ensures
            final(self).wf(),
            forall|i: int|
                0 <= i < scene@.len() ==> has_entity(final(self).entries(), #[trigger] scene@[i].entity),
            forall|k: int|
                0 <= k < final(self).entries().len() ==> in_scene(scene@, (#[trigger] final(self).entries()[k]).0),
            forall|e: u64|
                has_entity(old(self).entries(), e) && #[trigger] has_entity(final(self).entries(), e) ==> slot_of(
                    final(self).entries(),
                    e,
                ) == slot_of(old(self).entries(), e),
            forall|i: int|
                0 <= i < r.slot_updates@.len() ==> {
                    &&& has_entity(final(self).entries(), (#[trigger] r.slot_updates@[i]).0)
                    &&& r.slot_updates@[i].1 == slot_of(final(self).entries(), r.slot_updates@[i].0)
                },
            forall|i: int|
                0 <= i < scene@.len() && (#[trigger] scene@[i]).recorded_slot != Some(
                    slot_of(final(self).entries(), scene@[i].entity),
                ) ==> has_entity(r.slot_updates@, scene@[i].entity),
            forall|e: u64|
                #[trigger] r.removed@.contains(e) <==> (has_entity(old(self).entries(), e) && !has_entity(
                    final(self).entries(),
                    e,
                )),
            ({
                let run = assign_slots(old(self).entries(), old(self).next_slot(), scene@);
                &&& final(self).entries() == keep_in_scene(run.0, scene@)
                &&& final(self).next_slot() == run.1
                &&& r.slot_updates@ == run.2
            }),
    {
        let mut updates: Vec<(u64, u32)> = Vec::new();
        let mut i: usize = 0;
        let ghost start = self.entries();
        let ghost next0 = self.next_slot();
        while i < scene.len()
            invariant
                i <= scene@.len(),
                self.wf(),
                ({
                    let run = assign_slots(start, next0, scene@.take(i as int));
                    &&& self.entries() == run.0
                    &&& self.next_slot() == run.1
                    &&& updates@ == run.2
                }),
                forall|e: u64| #[trigger] has_entity(start, e) ==> has_entity(self.entries(), e),
                forall|e: u64|
                    has_entity(start, e) ==> slot_of(#[trigger] self.entries(), e) == slot_of(start, e),
                forall|k: int|
                    0 <= k < self.entries().len() ==> has_entity(start, (#[trigger] self.entries()[k]).0) || exists|j: int|
                        0 <= j < i && #[trigger] scene@[j].entity == self.entries()[k].0,
                forall|j: int| 0 <= j < i ==> has_entity(self.entries(), #[trigger] scene@[j].entity),
                forall|u: int|
                    0 <= u < updates@.len() ==> {
                        &&& has_entity(self.entries(), (#[trigger] updates@[u]).0)
                        &&& updates@[u].1 == slot_of(self.entries(), updates@[u].0)
                        &&& in_scene(scene@, updates@[u].0)
                    },
                forall|j: int|
                    0 <= j < i && (#[trigger] scene@[j]).recorded_slot != Some(slot_of(self.entries(), scene@[j].entity))
                        ==> has_entity(updates@, scene@[j].entity),
            decreases scene.len() - i,
        {
            let ghost before = self.entries();
            let ghost before_next = self.next_slot();
            let entity = scene[i].entity;
            let slot = self.ensure_entry(entity);
            proof {
                assert(scene@.take(i + 1).drop_last() =~= scene@.take(i as int));
                assert(scene@.take(i + 1).last() == scene@[i as int]);
                // Slots already given stay as they were.
                assert forall|e: u64| has_entity(before, e) implies slot_of(self.entries(), e) == slot_of(before, e) by {
                    if !has_entity(before, entity) {
                        let k = choose|k: int| 0 <= k < before.len() && (#[trigger] before[k]).0 == e;
                        assert(self.entries()[k] == before[k]);
                        let k2 = choose|k2: int| 0 <= k2 < self.entries().len() && (#[trigger] self.entries()[k2]).0 == e;
                        if k2 != k {
                            assert(self.entries()[k2].0 == self.entries()[k].0);
                        }
                    }
                }
                assert forall|e: u64| has_entity(before, e) implies #[trigger] has_entity(self.entries(), e) by {
                    let k = choose|k: int| 0 <= k < before.len() && (#[trigger] before[k]).0 == e;
                    assert(self.entries()[k] == before[k]);
                }
                assert(has_entity(self.entries(), entity)) by {
                    if !has_entity(before, entity) {
                        assert(self.entries()[before.len() as int].0 == entity);
                    }
                }
                assert(slot == slot_of(self.entries(), entity)) by {
                    if !has_entity(before, entity) {
                        let k2 = choose|k2: int| 0 <= k2 < self.entries().len() && (#[trigger] self.entries()[k2]).0 == entity;
                        if k2 != before.len() {
                            assert(self.entries()[k2] == before[k2]);
                        }
                    }
                }
                assert forall|k: int| 0 <= k < self.entries().len() implies has_entity(start, (#[trigger] self.entries()[k]).0)
                    || exists|j: int| 0 <= j < i + 1 && #[trigger] scene@[j].entity == self.entries()[k].0 by {
                    if k < before.len() {
                        assert(self.entries()[k] == before[k]);
                    } else {
                        assert(scene@[i as int].entity == self.entries()[k].0);
                    }
                }
            }
            let ghost before_updates = updates@;
            if scene[i].recorded_slot != Some(slot) {
                updates.push((entity, slot));
            }
            proof {
                assert forall|u: int| 0 <= u < updates@.len() implies {
                    &&& has_entity(self.entries(), (#[trigger] updates@[u]).0)
                    &&& updates@[u].1 == slot_of(self.entries(), updates@[u].0)
                    &&& in_scene(scene@, updates@[u].0)
                } by {
                    if u == before_updates.len() {
                        assert(scene@[i as int].entity == updates@[u].0);
                    }
                    if u < before_updates.len() {
                        assert(updates@[u] == before_updates[u]);
                        assert(has_entity(before, updates@[u].0));
                    }
                }
                assert forall|j: int|
                    0 <= j < i + 1 && (#[trigger] scene@[j]).recorded_slot != Some(slot_of(self.entries(), scene@[j].entity))
                    implies has_entity(updates@, scene@[j].entity) by {
                    if j < i {
                        assert(has_entity(before, scene@[j].entity));
                        let u = choose|u: int| 0 <= u < before_updates.len() && (#[trigger] before_updates[u]).0 == scene@[j].entity;
                        assert(updates@[u] == before_updates[u]);
                    } else {
                        assert(updates@[before_updates.len() as int].0 == scene@[j].entity);
                    }
                }
            }
            i = i + 1;
        }
        // Drop the entities that are not in the scene.
        proof {
            assert(scene@.take(scene@.len() as int) =~= scene@);
        }
        let ghost mid = self.entries();
        let ghost mid_next = self.next_slot();
        let ghost mid_updates = updates@;
        let mut kept: Vec<(u64, u32)> = Vec::new();
        let mut removed: Vec<u64> = Vec::new();
        let mut k: usize = 0;
        while k < self.entries.len()
            invariant
                k <= self.entries@.len(),
                self.entries() == mid,
                self.next_slot() == mid_next,
                updates@ == mid_updates,
                kept@ == keep_in_scene(mid.take(k as int), scene@),
                unique_entities(mid),
                unique_entities(kept@),
                forall|a: int| #![trigger kept@[a]] 0 <= a < kept@.len() ==> exists|b: int| 0 <= b < k && #[trigger] mid[b] == kept@[a],
                forall|a: int| 0 <= a < kept@.len() ==> in_scene(scene@, (#[trigger] kept@[a]).0),
                forall|b: int| 0 <= b < k && in_scene(scene@, (#[trigger] mid[b]).0) ==> has_entity(kept@, mid[b].0),
                forall|e: u64|
                    #[trigger] removed@.contains(e) <==> (has_entity(mid.take(k as int), e) && !in_scene(scene@, e)),
            decreases self.entries.len() - k,
        {
            let (entity, slot) = self.entries[k];
            let mut seen = false;
            let mut j: usize = 0;
            while j < scene.len()
                invariant
                    j <= scene@.len(),
                    seen == exists|q: int| 0 <= q < j && #[trigger] scene@[q].entity == entity,
                decreases scene.len() - j,
            {
                if scene[j].entity == entity {
                    seen = true;
                }
                j = j + 1;
            }
            let ghost kept_before = kept@;
            let ghost removed_before = removed@;
            proof {
                assert(seen == in_scene(scene@, entity));
                assert(mid.take(k + 1) =~= mid.take(k as int).push(mid[k as int]));
                assert(mid.take(k + 1).drop_last() =~= mid.take(k as int));
            }
            if seen {
                kept.push((entity, slot));
                proof {
                    assert forall|a: int, b: int| 0 <= a < b < kept@.len() implies (#[trigger] kept@[a]).0 != (
                    #[trigger] kept@[b]).0 by {
                        if b == kept_before.len() {
                            let c = choose|c: int| 0 <= c < k && #[trigger] mid[c] == kept_before[a];
                            assert(mid[c].0 != mid[k as int].0);
                        } else {
                            assert(kept@[a] == kept_before[a] && kept@[b] == kept_before[b]);
                        }
                    }
                }
            } else {
                removed.push(entity);
            }
            proof {
                assert forall|a: int| #![trigger kept@[a]] 0 <= a < kept@.len() implies exists|b: int| 0 <= b < k + 1 && #[trigger] mid[b] == kept@[a] by {
                    if a < kept_before.len() {
                        let c = choose|c: int| 0 <= c < k && #[trigger] mid[c] == kept_before[a];
                        assert(mid[c] == kept@[a]);
                    } else {
                        assert(mid[k as int] == kept@[a]);
                    }
                }
                assert forall|a: int| 0 <= a < kept@.len() implies in_scene(scene@, (#[trigger] kept@[a]).0) by {
                    if a < kept_before.len() {
                        assert(kept@[a] == kept_before[a]);
                    }
                }
                assert forall|b: int| 0 <= b < k + 1 && in_scene(scene@, (#[trigger] mid[b]).0) implies has_entity(
                    kept@,
                    mid[b].0,
                ) by {
                    if b < k {
                        let a = choose|a: int| 0 <= a < kept_before.len() && (#[trigger] kept_before[a]).0 == mid[b].0;
                        assert(kept@[a] == kept_before[a]);
                    } else {
                        assert(kept@[kept_before.len() as int].0 == mid[b].0);
                    }
                }
                assert forall|e: u64| #[trigger] removed@.contains(e) <==> (has_entity(mid.take(k + 1), e) && !in_scene(
                    scene@,
                    e,
                )) by {
                    if removed@.contains(e) && !removed_before.contains(e) {
                        let a = choose|a: int| 0 <= a < removed@.len() && removed@[a] == e;
                        if a < removed_before.len() {
                            assert(removed_before[a] == e);
                        }
                        assert(mid.take(k + 1)[k as int].0 == e);
                    }
                    if removed_before.contains(e) {
                        let a = choose|a: int| 0 <= a < removed_before.len() && removed_before[a] == e;
                        assert(removed@[a] == e);
                        let b = choose|b: int| 0 <= b < k && (#[trigger] mid.take(k as int)[b]).0 == e;
                        assert(mid.take(k + 1)[b] == mid.take(k as int)[b]);
                    }
                    if has_entity(mid.take(k + 1), e) && !in_scene(scene@, e) {
                        let b = choose|b: int| 0 <= b < k + 1 && (#[trigger] mid.take(k + 1)[b]).0 == e;
                        if b == k {
                            assert(removed@[removed_before.len() as int] == e);
                        } else {
                            assert(mid.take(k as int)[b] == mid.take(k + 1)[b]);
                        }
                    }
                }
            }
            k = k + 1;
        }
        self.entries = kept;
        proof {
            assert(mid.take(mid.len() as int) =~= mid);
            assert forall|i: int| 0 <= i < scene@.len() implies has_entity(self.entries(), #[trigger] scene@[i].entity) by {
                let b = choose|b: int| 0 <= b < mid.len() && (#[trigger] mid[b]).0 == scene@[i].entity;
                assert(in_scene(scene@, mid[b].0));
            }
            assert(self.entries() == kept@);
            assert forall|q: int| 0 <= q < self.entries().len() implies in_scene(scene@, (#[trigger] self.entries()[q]).0) by {
                assert(kept@[q] == self.entries()[q]);
            }
            assert forall|e: u64| #[trigger] has_entity(self.entries(), e) implies has_entity(mid, e) && slot_of(
                self.entries(),
                e,
            ) == slot_of(mid, e) by {
                let q = choose|q: int| 0 <= q < self.entries().len() && (#[trigger] self.entries()[q]).0 == e;
                let b = choose|b: int| 0 <= b < mid.len() && #[trigger] mid[b] == self.entries()[q];
                let b2 = choose|b2: int| 0 <= b2 < mid.len() && (#[trigger] mid[b2]).0 == e;
                if b2 != b {
                    assert(mid[b2].0 == mid[b].0);
                }
                let q2 = choose|q2: int| 0 <= q2 < self.entries().len() && (#[trigger] self.entries()[q2]).0 == e;
                if q2 != q {
                    assert(self.entries()[q2].0 == self.entries()[q].0);
                }
            }
            assert forall|i: int|
                0 <= i < scene@.len() && (#[trigger] scene@[i]).recorded_slot != Some(
                    slot_of(self.entries(), scene@[i].entity),
                ) implies has_entity(updates@, scene@[i].entity) by {
                assert(has_entity(self.entries(), scene@[i].entity));
                assert(slot_of(self.entries(), scene@[i].entity) == slot_of(mid, scene@[i].entity));
            }
            assert forall|u: int| 0 <= u < updates@.len() implies has_entity(self.entries(), (#[trigger] updates@[u]).0) by {
                let b = choose|b: int| 0 <= b < mid.len() && (#[trigger] mid[b]).0 == updates@[u].0;
                assert(in_scene(scene@, mid[b].0));
            }
            assert forall|e: u64| has_entity(start, e) && #[trigger] has_entity(self.entries(), e) implies slot_of(
                self.entries(),
                e,
            ) == slot_of(start, e) by {
                let q = choose|q: int| 0 <= q < self.entries().len() && (#[trigger] self.entries()[q]).0 == e;
                let b = choose|b: int| 0 <= b < mid.len() && #[trigger] mid[b] == self.entries()[q];
                let b2 = choose|b2: int| 0 <= b2 < mid.len() && (#[trigger] mid[b2]).0 == e;
                if b2 != b {
                    assert(mid[b2].0 == mid[b].0);
                }
                let q2 = choose|q2: int| 0 <= q2 < self.entries().len() && (#[trigger] self.entries()[q2]).0 == e;
                if q2 != q {
                    assert(self.entries()[q2].0 == self.entries()[q].0);
                }
            }
            assert forall|e: u64| #[trigger] removed@.contains(e) <==> (has_entity(start, e) && !has_entity(
                self.entries(),
                e,
            )) by {
                if has_entity(start, e) && !has_entity(self.entries(), e) {
                    let b = choose|b: int| 0 <= b < mid.len() && (#[trigger] mid[b]).0 == e;
                    if in_scene(scene@, e) {
                        assert(has_entity(self.entries(), mid[b].0));
                    }
                }
                if removed@.contains(e) {
                    let b = choose|b: int| 0 <= b < mid.len() && (#[trigger] mid[b]).0 == e;
                    assert(has_entity(start, mid[b].0) || exists|j: int| 0 <= j < scene@.len() && #[trigger] scene@[j].entity == mid[b].0);
                    if has_entity(self.entries(), e) {
                        let q = choose|q: int| 0 <= q < self.entries().len() && (#[trigger] self.entries()[q]).0 == e;
                        assert(in_scene(scene@, self.entries()[q].0));
                    }
                }
            }
        }
        ParticleSync { slot_updates: updates, removed }
    }
}

} // verus!
