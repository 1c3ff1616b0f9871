//! Deleting an entity with everything below it in the scene hierarchy: the
//! entities to despawn, in the order they are found, and how the parent's
//! list of children changes.

use vstd::prelude::*;

verus! {

/// What the scene says of one live entity: its parent, and its list of
/// children when it has one.
pub struct EntityLinks {
    pub entity: u64,
    pub parent: Option<u64>,
    pub children: Option<Vec<u64>>,
}

/// Position of the first row of `e` from `i` on, or -1.
pub open spec fn link_from(links: Seq<EntityLinks>, e: u64, i: int) -> int
    decreases links.len() - i,
{
    if i < 0 || i >= links.len() {
        -1
    } else if links[i].entity == e {
        i
    } else {
        link_from(links, e, i + 1)
    }
}

/// Position of the row of `e`, or -1 when it is not alive.
pub open spec fn link_index(links: Seq<EntityLinks>, e: u64) -> int {
    link_from(links, e, 0)
}

/// The children of `e` (none when it is not alive or has no list).
pub open spec fn kids(links: Seq<EntityLinks>, e: u64) -> Seq<u64> {
    let i = link_index(links, e);
    if i >= 0 {
        match links[i].children {
            Some(c) => c@,
            None => seq![],
        }
    } else {
        seq![]
    }
}

/// How many rows belong to entities not in `visited`.
pub open spec fn unvisited(links: Seq<EntityLinks>, visited: Set<u64>) -> nat
    decreases links.len(),
{
    if links.len() == 0 {
        0
    } else {
        unvisited(links.drop_last(), visited) + if visited.contains(links.last().entity) {
            0nat
        } else {
            1nat
        }
    }
}

/// The row found for `e` from `i` on holds `e`, and no row before it (from
/// `i`) does; -1 means no row from `i` on holds `e`.
pub proof fn lemma_link_from_bounds(links: Seq<EntityLinks>, e: u64, i: int)
    requires
        0 <= i,
    ensures
        link_from(links, e, i) == -1 || (i <= link_from(links, e, i) < links.len() && links[link_from(links, e, i)].entity
            == e),
        link_from(links, e, i) == -1 ==> forall|j: int| i <= j < links.len() ==> links[j].entity != e,
        link_from(links, e, i) >= 0 ==> forall|j: int| i <= j < link_from(links, e, i) ==> links[j].entity != e,
    decreases links.len() - i,
{
    if i < links.len() && links[i].entity != e {
        lemma_link_from_bounds(links, e, i + 1);
    }
}

/// Marking an entity as met never adds to the rows left, and takes at
/// least one away when the entity is alive and was not met yet.
pub proof fn lemma_unvisited_insert(links: Seq<EntityLinks>, visited: Set<u64>, e: u64)
    ensures
        unvisited(links, visited.insert(e)) <= unvisited(links, visited),
        (exists|j: int| 0 <= j < links.len() && links[j].entity == e) && !visited.contains(e) ==> unvisited(
            links,
            visited.insert(e),
        ) < unvisited(links, visited),
    decreases links.len(),
{
    if links.len() > 0 {
        lemma_unvisited_insert(links.drop_last(), visited, e);
        if (exists|j: int| 0 <= j < links.len() && links[j].entity == e) && !visited.contains(e) {
            if links.last().entity != e {
                let j = choose|j: int| 0 <= j < links.len() && links[j].entity == e;
                assert(links.drop_last()[j].entity == e);
            }
        }
    }
}

/// The entities met by walking `stack` from its top: an entity that is
/// alive and not yet met is taken and its children go on the stack (the
/// last child is met first); others are skipped.
pub open spec fn walk(links: Seq<EntityLinks>, visited: Set<u64>, stack: Seq<u64>) -> Seq<u64>
    decreases unvisited(links, visited), stack.len(),
{
    if stack.len() == 0 {
        seq![]
    } else {
        let e = stack.last();
        let rest = stack.drop_last();
        if link_index(links, e) < 0 || visited.contains(e) {
            walk(links, visited, rest)
        } else {
            proof {
                lemma_link_from_bounds(links, e, 0);
                lemma_unvisited_insert(links, visited, e);
            }
            seq![e] + walk(links, visited.insert(e), rest + kids(links, e))
        }
    }
}

/// Walking down the hierarchy meets only live entities that were not met
/// before, each once; from a live root, the root comes first.
pub proof fn lemma_walk_meets_each_once(links: Seq<EntityLinks>, visited: Set<u64>, stack: Seq<u64>)
    ensures
        forall|i: int|
            0 <= i < walk(links, visited, stack).len() ==> link_index(links, #[trigger] walk(links, visited, stack)[i])
                >= 0 && !visited.contains(walk(links, visited, stack)[i]),
        forall|i: int, j: int|
            0 <= i < j < walk(links, visited, stack).len() ==> walk(links, visited, stack)[i] != walk(
                links,
                visited,
                stack,
            )[j],
        stack.len() == 1 && link_index(links, stack[0]) >= 0 && !visited.contains(stack[0]) ==> walk(
            links,
            visited,
            stack,
        )[0] == stack[0],
    decreases unvisited(links, visited), stack.len(),
{
    if stack.len() > 0 {
        let e = stack.last();
        let rest = stack.drop_last();
        if link_index(links, e) < 0 || visited.contains(e) {
            lemma_walk_meets_each_once(links, visited, rest);
            assert(walk(links, visited, stack) == walk(links, visited, rest));
        } else {
            lemma_link_from_bounds(links, e, 0);
            lemma_unvisited_insert(links, visited, e);
            let v2 = visited.insert(e);
            let tail = walk(links, v2, rest + kids(links, e));
            lemma_walk_meets_each_once(links, v2, rest + kids(links, e));
            let w = walk(links, visited, stack);
            assert(w == seq![e] + tail);
            assert forall|i: int| 0 <= i < w.len() implies link_index(links, #[trigger] w[i]) >= 0 && !visited.contains(
                w[i],
            ) by {
                if i > 0 {
                    assert(w[i] == tail[i - 1]);
                }
            }
            assert forall|i: int, j: int| 0 <= i < j < w.len() implies w[i] != w[j] by {
                assert(w[j] == tail[j - 1]);
                if i > 0 {
                    assert(w[i] == tail[i - 1]);
                } else {
                    assert(!v2.contains(tail[j - 1]));
                }
            }
        }
    }
}

/// Whether `c` is a chain of live entities going down the hierarchy: each
/// after the first is a child of the one before.
pub open spec fn live_chain(links: Seq<EntityLinks>, c: Seq<u64>) -> bool {
    &&& c.len() > 0
    &&& forall|k: int| 0 <= k < c.len() ==> link_index(links, #[trigger] c[k]) >= 0
    &&& forall|k: int, l: int|
        0 <= k && l == k + 1 && l < c.len() ==> kids(links, #[trigger] c[k]).contains(#[trigger] c[l])
}

/// Whether `x` is reached from `root` going down through live entities.
pub open spec fn reachable(links: Seq<EntityLinks>, root: u64, x: u64) -> bool {
    exists|c: Seq<u64>| #[trigger] live_chain(links, c) && c[0] == root && c.last() == x
}

/// Whether `x` is reached from some entity on `stack`.
pub open spec fn reached_from(links: Seq<EntityLinks>, stack: Seq<u64>, x: u64) -> bool {
    exists|j: int| 0 <= j < stack.len() && #[trigger] reachable(links, stack[j], x)
}

/// The last position of `e` in `c`, or -1.
spec fn last_position(c: Seq<u64>, e: u64) -> int
    decreases c.len(),
{
    if c.len() == 0 {
        -1
    } else if c.last() == e {
        c.len() - 1
    } else {
        last_position(c.drop_last(), e)
    }
}

proof fn lemma_last_position(c: Seq<u64>, e: u64)
    ensures
        -1 <= last_position(c, e) < c.len(),
        last_position(c, e) >= 0 ==> c[last_position(c, e)] == e,
        forall|l: int| last_position(c, e) < l < c.len() ==> c[l] != e,
    decreases c.len(),
{
    if c.len() > 0 && c.last() != e {
        lemma_last_position(c.drop_last(), e);
        assert forall|l: int| last_position(c, e) < l < c.len() implies c[l] != e by {
            if l < c.len() - 1 {
                assert(c[l] == c.drop_last()[l]);
            }
        }
    }
}

/// Every entity the walk meets is reached from the stack.
proof fn lemma_walk_sound(links: Seq<EntityLinks>, visited: Set<u64>, stack: Seq<u64>, i: int)
    requires
        0 <= i < walk(links, visited, stack).len(),
    ensures
        reached_from(links, stack, walk(links, visited, stack)[i]),
    decreases unvisited(links, visited), stack.len(),
{
    let e = stack.last();
    let rest = stack.drop_last();
    let w = walk(links, visited, stack);
    if link_index(links, e) < 0 || visited.contains(e) {
        lemma_walk_sound(links, visited, rest, i);
        let j = choose|j: int| 0 <= j < rest.len() && #[trigger] reachable(links, rest[j], w[i]);
        assert(stack[j] == rest[j]);
    } else {
        lemma_link_from_bounds(links, e, 0);
        lemma_unvisited_insert(links, visited, e);
        let v2 = visited.insert(e);
        let next = rest + kids(links, e);
        let tail = walk(links, v2, next);
        assert(w == seq![e] + tail);
        if i == 0 {
            let c = seq![e];
            assert(live_chain(links, c));
            assert(reachable(links, stack[stack.len() - 1], w[0]));
        } else {
            assert(w[i] == tail[i - 1]);
            lemma_walk_sound(links, v2, next, i - 1);
            let j = choose|j: int| 0 <= j < next.len() && #[trigger] reachable(links, next[j], tail[i - 1]);
            if j < rest.len() {
                assert(stack[j] == next[j]);
            } else {
                let c = choose|c: Seq<u64>| #[trigger] live_chain(links, c) && c[0] == next[j] && c.last() == tail[i - 1];
                let d = seq![e] + c;
                assert(kids(links, e)[j - rest.len()] == next[j]);
                assert(kids(links, e).contains(c[0]));
                assert forall|k: int| 0 <= k < d.len() implies link_index(links, #[trigger] d[k]) >= 0 by {
                    if k > 0 {
                        assert(d[k] == c[k - 1]);
                    }
                }
                assert forall|k: int, l: int| 0 <= k && l == k + 1 && l < d.len() implies kids(
                    links,
                    #[trigger] d[k],
                ).contains(#[trigger] d[l]) by {
                    assert(d[l] == c[l - 1]);
                    if k > 0 {
                        assert(d[k] == c[k - 1]);
                    }
                }
                assert(live_chain(links, d));
                assert(d.last() == c.last());
                assert(reachable(links, stack[stack.len() - 1], w[i]));
            }
        }
    }
}

/// Every live entity reached from the stack through entities not met yet
/// is met by the walk.
proof fn lemma_walk_complete(links: Seq<EntityLinks>, visited: Set<u64>, stack: Seq<u64>, c: Seq<u64>, j: int)
    requires
        live_chain(links, c),
        forall|k: int| 0 <= k < c.len() ==> !visited.contains(#[trigger] c[k]),
        0 <= j < stack.len(),
        stack[j] == c[0],
    ensures
        walk(links, visited, stack).contains(c.last()),
    decreases unvisited(links, visited), stack.len(),
{
    let e = stack.last();
    let rest = stack.drop_last();
    let w = walk(links, visited, stack);
    if link_index(links, e) < 0 || visited.contains(e) {
        assert(j != stack.len() - 1);
        assert(rest[j] == c[0]);
        lemma_walk_complete(links, visited, rest, c, j);
    } else {
        lemma_link_from_bounds(links, e, 0);
        lemma_unvisited_insert(links, visited, e);
        let v2 = visited.insert(e);
        let next = rest + kids(links, e);
        let tail = walk(links, v2, next);
        assert(w == seq![e] + tail);
        let x = c.last();
        if x == e {
            assert(w[0] == x);
        } else {
            lemma_last_position(c, e);
            let k = last_position(c, e);
            if k >= 0 {
                let d = c.skip(k + 1);
                assert(d[0] == c[k + 1]);
                assert(kids(links, c[k]).contains(c[k + 1]));
                let idx = choose|idx: int| 0 <= idx < kids(links, e).len() && kids(links, e)[idx] == c[k + 1];
                assert(next[rest.len() + idx] == d[0]);
                assert forall|m: int| 0 <= m < d.len() implies link_index(links, #[trigger] d[m]) >= 0 by {
                    assert(d[m] == c[k + 1 + m]);
                }
                assert forall|m: int, l: int| 0 <= m && l == m + 1 && l < d.len() implies kids(
                    links,
                    #[trigger] d[m],
                ).contains(#[trigger] d[l]) by {
                    assert(d[m] == c[k + 1 + m] && d[l] == c[k + 1 + l]);
                }
                assert forall|m: int| 0 <= m < d.len() implies !v2.contains(#[trigger] d[m]) by {
                    assert(d[m] == c[k + 1 + m]);
                }
                assert(d.last() == x);
                lemma_walk_complete(links, v2, next, d, rest.len() + idx);
            } else {
                assert(j != stack.len() - 1);
                assert(next[j] == c[0]);
                assert forall|m: int| 0 <= m < c.len() implies !v2.contains(#[trigger] c[m]) by {
                    assert(c[m] != e);
                }
                lemma_walk_complete(links, v2, next, c, j);
            }
            let t = choose|t: int| 0 <= t < tail.len() && tail[t] == x;
            assert(w[t + 1] == x);
        }
    }
}

/// The walk from `root` meets exactly the entities reached from `root`
/// going down the hierarchy through live entities: what
/// `plan_subtree_removal` removes is the whole subtree below a live root.
pub proof fn lemma_walk_is_subtree(links: Seq<EntityLinks>, root: u64, x: u64)
    ensures
        walk(links, Set::empty(), seq![root]).contains(x) <==> reachable(links, root, x),
{
    let w = walk(links, Set::empty(), seq![root]);
    if w.contains(x) {
        let i = choose|i: int| 0 <= i < w.len() && w[i] == x;
        lemma_walk_sound(links, Set::empty(), seq![root], i);
        let j = choose|j: int| 0 <= j < 1 && #[trigger] reachable(links, seq![root][j], w[i]);
    }
    if reachable(links, root, x) {
        let c = choose|c: Seq<u64>| #[trigger] live_chain(links, c) && c[0] == root && c.last() == x;
        lemma_walk_complete(links, Set::empty(), seq![root], c, 0);
    }
}

/// `s` without `x`.
pub open spec fn without(s: Seq<u64>, x: u64) -> Seq<u64>
    decreases s.len(),
{
    if s.len() == 0 {
        seq![]
    } else if s.last() == x {
        without(s.drop_last(), x)
    } else {
        without(s.drop_last(), x).push(s.last())
    }
}

/// The parent's new list of children once `root` leaves it: when `root`
/// has a live parent with a list of children, that list without `root`.
pub open spec fn parent_update(links: Seq<EntityLinks>, root: u64) -> Option<(u64, Seq<u64>)> {
    let i = link_index(links, root);
    match links[i].parent {
        Some(p) => {
            let j = link_index(links, p);
            if j >= 0 {
                match links[j].children {
                    Some(c) => Some((p, without(c@, root))),
                    None => None,
                }
            } else {
                None
            }
        },
        None => None,
    }
}

/// What deleting an entity takes: the entities to despawn, and the parent
/// whose list of children changes with its new list (the list is dropped
/// when it ends up empty).
pub struct SubtreeRemoval {
    pub removed: Vec<u64>,
    pub parent_children: Option<(u64, Vec<u64>)>,
}

fn find_link(links: &Vec<EntityLinks>, e: u64) -> (r: Option<usize>)
    ensures
        match r {
            Some(i) => i as int == link_index(links@, e),
            None => link_index(links@, e) < 0,
        },
{
    let mut i: usize = 0;
    while i < links.len()
        invariant
            i <= links@.len(),
            link_from(links@, e, i as int) == link_index(links@, e),
        decreases links.len() - i,
    {
        if links[i].entity == e {
            return Some(i);
        }
        i = i + 1;
    }
    None
}

fn without_exec(s: &Vec<u64>, x: u64) -> (r: Vec<u64>)
    ensures
        r@ == without(s@, x),
{
    let mut out: Vec<u64> = Vec::new();
    let mut i: usize = 0;
    while i < s.len()
        invariant
            i <= s@.len(),
            out@ == without(s@.take(i as int), x),
        decreases s.len() - i,
    {
        proof {
            assert(s@.take(i + 1).drop_last() =~= s@.take(i as int));
            assert(s@.take(i + 1).last() == s@[i as int]);
        }
        if s[i] != x {
            out.push(s[i]);
        }
        i = i + 1;
    }
    proof {
        assert(s@.take(s@.len() as int) =~= s@);
    }
    out
}

fn contains_u64(v: &Vec<u64>, x: u64) -> (r: bool)
    ensures
        r == v@.contains(x),
{
    let mut i: usize = 0;
    while i < v.len()
        invariant
            i <= v@.len(),
            forall|j: int| 0 <= j < i ==> v@[j] != x,
        decreases v.len() - i,
    {
        if v[i] == x {
            return true;
        }
        i = i + 1;
    }
    false
}

/// Plans deleting `root` with everything below it, given the links of the
/// live entities: `None` when `root` is not alive. Otherwise the entities
/// to despawn are those met walking down from `root` (see `walk`; by
/// `lemma_walk_is_subtree` they are exactly the entities reached from `root`
/// through live entities), and the parent's list of children loses `root`
/// (see `parent_update`).
pub fn plan_subtree_removal(links: &Vec<EntityLinks>, root: u64) -> (r: Option<SubtreeRemoval>)
    ensures
        r is None <==> link_index(links@, root) < 0,
        r matches Some(plan) ==> {
            &&& plan.removed@ == walk(links@, Set::empty(), seq![root])
            &&& match plan.parent_children {
                Some((p, c)) => parent_update(links@, root) == Some((p, c@)),
                None => parent_update(links@, root) is None,
            }
        },
{
    let root_index = match find_link(links, root) {
        Some(i) => i,
        None => return None,
    };
    proof {
        lemma_link_from_bounds(links@, root, 0);
    }
    let parent_children = match links[root_index].parent {
        Some(p) => match find_link(links, p) {
            Some(j) => {
                proof {
                    lemma_link_from_bounds(links@, p, 0);
                }
                match &links[j].children {
                    Some(siblings) => Some((p, without_exec(siblings, root))),
                    None => None,
                }
            },
            None => None,
        },
        None => None,
    };
    let mut stack: Vec<u64> = Vec::new();
    stack.push(root);
    let mut visited: Vec<u64> = Vec::new();
    let ghost mut vset: Set<u64> = Set::empty();
    let mut removed: Vec<u64> = Vec::new();
    proof {
        assert(removed@ + walk(links@, vset, stack@) =~= walk(links@, Set::empty(), seq![root]));
    }
    while stack.len() > 0
        invariant
            forall|x: u64| visited@.contains(x) <==> vset.contains(x),
            removed@ + walk(links@, vset, stack@) == walk(links@, Set::empty(), seq![root]),
        decreases unvisited(links@, vset), stack@.len(),
    {
        let ghost before = stack@;
        let e = stack.pop().unwrap();
        proof {
            assert(stack@ == before.drop_last());
            assert(e == before.last());
        }
        let found = find_link(links, e);
        let seen = contains_u64(&visited, e);
        match found {
            Some(i) => {
                if !seen {
                    proof {
                        lemma_link_from_bounds(links@, e, 0);
                        lemma_unvisited_insert(links@, vset, e);
                    }
                    let ghost rest = stack@;
                    match &links[i].children {
                        Some(children) => {
                            let mut k: usize = 0;
                            while k < children.len()
                                invariant
                                    k <= children@.len(),
                                    stack@ == rest + children@.take(k as int),
                                decreases children.len() - k,
                            {
                                stack.push(children[k]);
                                proof {
                                    assert(children@.take(k + 1) =~= children@.take(k as int).push(children@[k as int]));
                                }
                                k = k + 1;
                            }
                            proof {
                                assert(children@.take(children@.len() as int) =~= children@);
                            }
                        },
                        None => {
                            proof {
                                assert(stack@ =~= rest + Seq::<u64>::empty());
                            }
                        },
                    }
                    proof {
                        assert(stack@ == rest + kids(links@, e));
                        assert(removed@.push(e) + walk(links@, vset.insert(e), stack@) =~= removed@ + (seq![e]
                            + walk(links@, vset.insert(e), rest + kids(links@, e))));
                    }
                    let ghost visited_before = visited@;
                    visited.push(e);
                    removed.push(e);
                    proof {
                        vset = vset.insert(e);
                        assert forall|x: u64| visited@.contains(x) <==> vset.contains(x) by {
                            if visited@.contains(x) && x != e {
                                let j = choose|j: int| 0 <= j < visited@.len() && visited@[j] == x;
                                assert(visited_before[j] == x);
                            }
                            if visited_before.contains(x) {
                                let j = choose|j: int| 0 <= j < visited_before.len() && visited_before[j] == x;
                                assert(visited@[j] == x);
                            }
                            if x == e {
                                assert(visited@[visited_before.len() as int] == x);
                            }
                        }
                    }
                }
            },
            None => {},
        }
    }
    proof {
        assert(removed@ + Seq::<u64>::empty() =~= removed@);
    }
    Some(SubtreeRemoval { removed, parent_children })
}

} // verus!
