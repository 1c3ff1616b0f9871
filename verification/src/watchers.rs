//! Which file-system changes the editor reloads: script files (`.lua`),
//! with repeated saves of one file within a short time ignored, and shader
//! files (`.wgsl`). Events come from a watcher run by the caller.

use crate::path_order::path_views;
use crate::paths::{file_name_model, lower_ascii, name_extension, string_eq, to_ascii_lowercase, ContentPath, PathModel};
use crate::text::string_from;
use vstd::prelude::*;

verus! {

/// The kind of a file-system event.
#[derive(Clone, Copy, Debug, PartialEq, Eq, Structural)]
pub enum WatchEventKind {
    /// A file was created or modified.
    ModifyOrCreate,
    /// A file was removed.
    Remove,
    /// Anything else.
    Other,
}

/// A path named by an event, with whether it existed when the event was
/// taken in.
pub struct WatchedPath {
    pub path: ContentPath,
    pub exists: bool,
}

/// A file-system event.
pub struct WatchEvent {
    pub kind: WatchEventKind,
    pub paths: Vec<WatchedPath>,
}

/// Abstract watched path.
pub struct Candidate {
    pub path: PathModel,
    pub exists: bool,
}

pub open spec fn candidates_of(paths: Seq<WatchedPath>) -> Seq<Candidate> {
    paths.map_values(|w: WatchedPath| Candidate { path: w.path@, exists: w.exists })
}

/// The paths of the create and modify events, in order.
pub open spec fn changed_candidates(events: Seq<WatchEvent>) -> Seq<Candidate>
    decreases events.len(),
{
    if events.len() == 0 {
        seq![]
    } else {
        let prev = changed_candidates(events.drop_last());
        if events.last().kind == WatchEventKind::ModifyOrCreate {
            prev + candidates_of(events.last().paths@)
        } else {
            prev
        }
    }
}

/// Whether a path's extension is `ext`, ignoring ASCII case.
pub open spec fn has_extension_ci(p: PathModel, ext: Seq<char>) -> bool {
    match file_name_model(p) {
        Some(n) => match name_extension(n) {
            Some(e) => lower_ascii(e) == lower_ascii(ext),
            None => false,
        },
        None => false,
    }
}

pub fn path_has_extension_ci(p: &ContentPath, ext: &str) -> (r: bool)
    ensures
        r == has_extension_ci(p@, ext@),
{
    match p.file_name() {
        Some(n) => match crate::paths::file_extension(n.as_str()) {
            Some(e) => {
                let a = to_ascii_lowercase(e.as_str());
                let b = to_ascii_lowercase(ext);
                string_eq(&a, &b)
            },
            None => false,
        },
        None => false,
    }
}

/// Whether `i` is the first place of `p` in the history.
pub open spec fn is_first_index(h: Seq<(PathModel, u64)>, p: PathModel, i: int) -> bool {
    &&& 0 <= i < h.len()
    &&& h[i].0 == p
    &&& forall|j: int| 0 <= j < i ==> (#[trigger] h[j]).0 != p
}

/// The first place of `p` in the history, or -1.
pub open spec fn first_index(h: Seq<(PathModel, u64)>, p: PathModel) -> int {
    if exists|i: int| is_first_index(h, p, i) {
        choose|i: int| is_first_index(h, p, i)
    } else {
        -1
    }
}

proof fn lemma_first_index_unique(h: Seq<(PathModel, u64)>, p: PathModel, i: int)
    requires
        is_first_index(h, p, i),
    ensures
        first_index(h, p) == i,
{
    let k = first_index(h, p);
    assert(is_first_index(h, p, k));
    if k < i {
        assert(h[k].0 != p);
    } else if i < k {
        assert(h[i].0 != p);
    }
}

proof fn lemma_first_index_absent(h: Seq<(PathModel, u64)>, p: PathModel)
    requires
        forall|j: int| 0 <= j < h.len() ==> (#[trigger] h[j]).0 != p,
    ensures
        first_index(h, p) == -1,
{
    if exists|i: int| is_first_index(h, p, i) {
        let i = choose|i: int| is_first_index(h, p, i);
        assert(h[i].0 != p);
    }
}

/// The history with `p` changed at `now`.
pub open spec fn record_change(h: Seq<(PathModel, u64)>, p: PathModel, now: u64) -> Seq<(PathModel, u64)> {
    let i = first_index(h, p);
    if i >= 0 {
        h.update(i, (p, now))
    } else {
        h.push((p, now))
    }
}

/// `now - then`, or 0 when `then` is later.
pub open spec fn elapsed_since(now: u64, then: u64) -> int {
    if now >= then {
        now - then
    } else {
        0
    }
}

/// Whether a change of a script is taken: a `.lua` file that exists, not
/// changed again within `debounce` of its last taken change.
pub open spec fn takes_change(h: Seq<(PathModel, u64)>, now: u64, debounce: u64, c: Candidate) -> bool {
    &&& has_extension_ci(c.path, "lua"@)
    &&& c.exists
    &&& {
        let i = first_index(h, c.path);
        i < 0 || elapsed_since(now, h[i].1) >= debounce
    }
}

/// The history after the candidates, and the changes taken, in order.
pub open spec fn debounce_run(h: Seq<(PathModel, u64)>, now: u64, debounce: u64, cs: Seq<Candidate>) -> (
    Seq<(PathModel, u64)>,
    Seq<PathModel>,
)
    decreases cs.len(),
{
    if cs.len() == 0 {
        (h, seq![])
    } else {
        let prev = debounce_run(h, now, debounce, cs.drop_last());
        let c = cs.last();
        if takes_change(prev.0, now, debounce, c) {
            (record_change(prev.0, c.path, now), prev.1.push(c.path))
        } else {
            prev
        }
    }
}

proof fn lemma_some_first_index(h: Seq<(PathModel, u64)>, p: PathModel, j: int)
    requires
        0 <= j < h.len(),
        h[j].0 == p,
    ensures
        exists|i: int| is_first_index(h, p, i),
    decreases j,
{
    if exists|q: int| 0 <= q < j && (#[trigger] h[q]).0 == p {
        let q = choose|q: int| 0 <= q < j && (#[trigger] h[q]).0 == p;
        lemma_some_first_index(h, p, q);
    } else {
        assert(is_first_index(h, p, j));
    }
}

/// A script change that was just taken holds back further changes of the
/// same script until the debounce time has passed.
pub proof fn lemma_debounce_holds_back(
    h: Seq<(PathModel, u64)>,
    now: u64,
    debounce: u64,
    c: Candidate,
    later: u64,
    again: Candidate,
)
    requires
        takes_change(h, now, debounce, c),
        again.path == c.path,
        now <= later,
        later < now + debounce,
    ensures
        !takes_change(record_change(h, c.path, now), later, debounce, again),
{
    let p = c.path;
    let i0 = first_index(h, p);
    let h2 = record_change(h, p, now);
    if i0 >= 0 {
        assert(is_first_index(h, p, i0)) by {
            let k = choose|k: int| is_first_index(h, p, k);
        }
        assert(is_first_index(h2, p, i0));
        lemma_first_index_unique(h2, p, i0);
    } else {
        assert forall|j: int| 0 <= j < h.len() implies (#[trigger] h[j]).0 != p by {
            if h[j].0 == p {
                lemma_some_first_index(h, p, j);
            }
        }
        assert(is_first_index(h2, p, h.len() as int));
        lemma_first_index_unique(h2, p, h.len() as int);
    }
}

/// No path twice.
pub open spec fn no_duplicates(s: Seq<PathModel>) -> bool {
    forall|i: int, j: int| 0 <= i < j < s.len() ==> s[i] != s[j]
}

/// The abstract history.
pub open spec fn history_view(h: Seq<(ContentPath, u64)>) -> Seq<(PathModel, u64)> {
    h.map_values(|e: (ContentPath, u64)| (e.0@, e.1))
}

/// Script changes with repeated saves ignored: when each script last
/// changed, and how long after that a change is ignored. Times are in
/// nanoseconds of a monotonic clock.
pub struct ScriptChangeFilter {
    history: Vec<(ContentPath, u64)>,
    debounce: u64,
}

impl ScriptChangeFilter {
    pub closed spec fn history(&self) -> Seq<(PathModel, u64)> {
        history_view(self.history@)
    }

    pub closed spec fn debounce_time(&self) -> u64 {
        self.debounce
    }

    /// Sets how long after a taken change another change of the same
    /// script is ignored.
    pub fn set_debounce_duration(&mut self, nanos: u64)
        ensures
            final(self).debounce_time() == nanos,
            final(self).history() == old(self).history(),
    {
        self.debounce = nanos;
    }

    /// No history; changes within half a second of the last are ignored.
    pub fn new() -> (r: Self)
        ensures
            r.history() == Seq::<(PathModel, u64)>::empty(),
            r.debounce_time() == 500_000_000,
    {
        let r = ScriptChangeFilter { history: Vec::new(), debounce: 500_000_000 };
        proof {
            assert(r.history() =~= Seq::<(PathModel, u64)>::empty());
        }
        r
    }

    /// Forgets the history.
    pub fn clear(&mut self)
        ensures
            final(self).history() == Seq::<(PathModel, u64)>::empty(),
            final(self).debounce_time() == old(self).debounce_time(),
    {
        self.history.clear();
        proof {
            assert(self.history() =~= Seq::<(PathModel, u64)>::empty());
        }
    }

    fn find(&self, p: &ContentPath) -> (r: Option<usize>)
        ensures
            match r {
                Some(i) => i < self.history@.len() && first_index(self.history(), p@) == i,
                None => first_index(self.history(), p@) == -1,
            },
    {
        let mut i: usize = 0;
        while i < self.history.len()
            invariant
                i <= self.history@.len(),
                forall|j: int| 0 <= j < i ==> (#[trigger] self.history()[j]).0 != p@,
            decreases self.history.len() - i,
        {
            if self.history[i].0.same_as(p) {
                proof {
                    assert(self.history()[i as int].0 == p@);
                    lemma_first_index_unique(self.history(), p@, i as int);
                }
                return Some(i);
            }
            proof {
                assert(self.history()[i as int].0 != p@);
            }
            i = i + 1;
        }
        proof {
            lemma_first_index_absent(self.history(), p@);
        }
        None
    }

    /// Takes in the events of one poll at time `now`: the `.lua` files
    /// created or modified that exist, except those changed within the
    /// debounce time of their last taken change; each taken change is
    /// remembered. Gives each changed script once.
    pub fn poll(&mut self, now: u64, events: &Vec<WatchEvent>) -> (r: Vec<ContentPath>)
        ensures
            final(self).debounce_time() == old(self).debounce_time(),
            ({
                let run = debounce_run(old(self).history(), now, old(self).debounce_time(), changed_candidates(events@));
                &&& final(self).history() == run.0
                &&& no_duplicates(path_views(r@))
                &&& forall|p: PathModel| #[trigger] path_views(r@).contains(p) <==> run.1.contains(p)
            }),
    {
        let ghost h0 = self.history();
        let mut out: Vec<ContentPath> = Vec::new();
        let mut e: usize = 0;
        proof {
            assert(events@.take(0) =~= Seq::<WatchEvent>::empty());
            assert(path_views(out@) =~= Seq::<PathModel>::empty());
        }
        while e < events.len()
            invariant
                e <= events@.len(),
                self.debounce == old(self).debounce,
                h0 == old(self).history(),
                ({
                    let run = debounce_run(h0, now, self.debounce, changed_candidates(events@.take(e as int)));
                    &&& self.history() == run.0
                    &&& no_duplicates(path_views(out@))
                    &&& forall|p: PathModel| #[trigger] path_views(out@).contains(p) <==> run.1.contains(p)
                }),
            decreases events.len() - e,
        {
            let event = &events[e];
            proof {
                assert(events@.take(e + 1).drop_last() =~= events@.take(e as int));
                assert(events@.take(e + 1).last() == events@[e as int]);
            }
            if event.kind == WatchEventKind::ModifyOrCreate {
                let ghost base = changed_candidates(events@.take(e as int));
                let mut k: usize = 0;
                proof {
                    assert(base + candidates_of(event.paths@).take(0) =~= base);
                }
                while k < event.paths.len()
                    invariant
                        k <= event.paths@.len(),
                        self.debounce == old(self).debounce,
                        ({
                            let run = debounce_run(
                                h0,
                                now,
                                self.debounce,
                                base + candidates_of(event.paths@).take(k as int),
                            );
                            &&& self.history() == run.0
                            &&& no_duplicates(path_views(out@))
                            &&& forall|p: PathModel| #[trigger] path_views(out@).contains(p) <==> run.1.contains(p)
                        }),
                    decreases event.paths.len() - k,
                {
                    let ghost cs = base + candidates_of(event.paths@).take(k as int);
                    let ghost cs1 = base + candidates_of(event.paths@).take(k + 1);
                    proof {
                        assert(cs1.drop_last() =~= cs);
                        assert(cs1.last() == Candidate { path: event.paths@[k as int].path@, exists: event.paths@[k as int].exists });
                    }
                    let w = &event.paths[k];
                    let mut take = w.exists && path_has_extension_ci(&w.path, "lua");
                    proof {
                        reveal_strlit("lua");
                    }
                    let found = self.find(&w.path);
                    match found {
                        Some(i) => {
                            let then = self.history[i].1;
                            let elapsed: u64 = if now >= then {
                                now - then
                            } else {
                                0
                            };
                            if elapsed < self.debounce {
                                take = false;
                            }
                        },
                        None => {},
                    }
                    let ghost prev = debounce_run(h0, now, self.debounce, cs);
                    let ghost c = cs1.last();
                    proof {
                        assert(prev.0 == self.history());
                        assert(take == takes_change(prev.0, now, self.debounce, cs1.last()));
                        assert(debounce_run(h0, now, self.debounce, cs1) == (if take {
                            (record_change(prev.0, cs1.last().path, now), prev.1.push(cs1.last().path))
                        } else {
                            prev
                        }));
                    }
                    if take {
                        let ghost hist = self.history();
                        match found {
                            Some(i) => {
                                self.history.set(i, (w.path.duplicate(), now));
                                proof {
                                    assert(self.history() =~= hist.update(i as int, (w.path@, now)));
                                }
                            },
                            None => {
                                self.history.push((w.path.duplicate(), now));
                                proof {
                                    assert(self.history() =~= hist.push((w.path@, now)));
                                }
                            },
                        }
                        let mut seen = false;
                        let mut q: usize = 0;
                        while q < out.len()
                            invariant
                                q <= out@.len(),
                                !seen ==> forall|j: int| 0 <= j < q ==> (#[trigger] path_views(out@)[j]) != w.path@,
                                seen ==> path_views(out@).contains(w.path@),
                            decreases out.len() - q,
                        {
                            if !seen && out[q].same_as(&w.path) {
                                seen = true;
                                proof {
                                    assert(path_views(out@)[q as int] == w.path@);
                                }
                            }
                            q = q + 1;
                        }
                        if !seen {
                            let ghost before = path_views(out@);
                            out.push(w.path.duplicate());
                            proof {
                                assert(path_views(out@) =~= before.push(w.path@));
                                assert forall|p: PathModel| #[trigger] path_views(out@).contains(p) <==> (before.contains(p)
                                    || p == w.path@) by {
                                    if path_views(out@).contains(p) {
                                        let j = choose|j: int| 0 <= j < path_views(out@).len() && path_views(out@)[j] == p;
                                        if j < before.len() {
                                            assert(before[j] == p);
                                        }
                                    }
                                    if before.contains(p) {
                                        let j = choose|j: int| 0 <= j < before.len() && before[j] == p;
                                        assert(path_views(out@)[j] == p);
                                    }
                                    if p == w.path@ {
                                        assert(path_views(out@)[before.len() as int] == p);
                                    }
                                }
                            }
                        }
                    }
                    proof {
                        if take {
                            assert forall|q: PathModel| #[trigger] path_views(out@).contains(q) <==> prev.1.push(
                                c.path,
                            ).contains(q) by {
                                if q == c.path {
                                    assert(prev.1.push(c.path)[prev.1.len() as int] == q);
                                }
                                if prev.1.push(c.path).contains(q) && q != c.path {
                                    let j = choose|j: int| 0 <= j < prev.1.push(c.path).len() && prev.1.push(c.path)[j] == q;
                                    assert(prev.1[j] == q);
                                }
                                if prev.1.contains(q) {
                                    let j = choose|j: int| 0 <= j < prev.1.len() && prev.1[j] == q;
                                    assert(prev.1.push(c.path)[j] == q);
                                }
                            }
                        }
                    }
                    k = k + 1;
                }
                proof {
                    assert(candidates_of(event.paths@).take(event.paths@.len() as int) =~= candidates_of(event.paths@));
                }
            }
            e = e + 1;
        }
        proof {
            assert(events@.take(events@.len() as int) =~= events@);
        }
        out
    }
}

/// Whether a candidate is a shader change: a `.wgsl` file that exists.
pub open spec fn is_shader_change(c: Candidate) -> bool {
    has_extension_ci(c.path, "wgsl"@) && c.exists
}

/// Whether `p` is one of `s`.
fn contains_path(s: &Vec<ContentPath>, p: &ContentPath) -> (r: bool)
    ensures
        r == path_views(s@).contains(p@),
{
    let mut i: usize = 0;
    while i < s.len()
        invariant
            i <= s@.len(),
            forall|j: int| 0 <= j < i ==> (#[trigger] path_views(s@)[j]) != p@,
        decreases s.len() - i,
    {
        if s[i].same_as(p) {
            proof {
                assert(path_views(s@)[i as int] == p@);
            }
            return true;
        }
        i = i + 1;
    }
    false
}

/// Adds `p` to the set held in `s` (kept in first-seen order).
fn add_unique(s: &mut Vec<ContentPath>, p: &ContentPath)
    requires
        no_duplicates(path_views(old(s)@)),
    ensures
        no_duplicates(path_views(final(s)@)),
        forall|q: PathModel| #[trigger]
            path_views(final(s)@).contains(q) <==> (path_views(old(s)@).contains(q) || q == p@),
        path_views(final(s)@) == if path_views(old(s)@).contains(p@) {
            path_views(old(s)@)
        } else {
            path_views(old(s)@).push(p@)
        },
{
    if contains_path(s, p) {
        return;
    }
    let ghost before = path_views(s@);
    s.push(p.duplicate());
    proof {
        assert(path_views(s@) =~= before.push(p@));
        assert forall|q: PathModel| #[trigger] path_views(s@).contains(q) <==> (before.contains(q) || q == p@) by {
            if path_views(s@).contains(q) {
                let j = choose|j: int| 0 <= j < path_views(s@).len() && path_views(s@)[j] == q;
                if j < before.len() {
                    assert(before[j] == q);
                }
            }
            if before.contains(q) {
                let j = choose|j: int| 0 <= j < before.len() && before[j] == q;
                assert(path_views(s@)[j] == q);
            }
            if q == p@ {
                assert(path_views(s@)[before.len() as int] == q);
            }
        }
    }
}

/// The shader files that one poll's events report changed: each `.wgsl`
/// file created or modified that exists, once.
pub fn shader_changes(events: &Vec<WatchEvent>) -> (r: Vec<ContentPath>)
    ensures
        no_duplicates(path_views(r@)),
        forall|p: PathModel| #[trigger]
            path_views(r@).contains(p) <==> exists|i: int|
                0 <= i < changed_candidates(events@).len() && #[trigger] changed_candidates(events@)[i].path == p
                    && is_shader_change(changed_candidates(events@)[i]),
{
    let mut out: Vec<ContentPath> = Vec::new();
    let mut e: usize = 0;
    proof {
        assert(path_views(out@) =~= Seq::<PathModel>::empty());
        assert(events@.take(0) =~= Seq::<WatchEvent>::empty());
    }
    while e < events.len()
        invariant
            e <= events@.len(),
            no_duplicates(path_views(out@)),
            forall|p: PathModel| #[trigger]
                path_views(out@).contains(p) <==> exists|i: int|
                    0 <= i < changed_candidates(events@.take(e as int)).len() && #[trigger] changed_candidates(
                        events@.take(e as int),
                    )[i].path == p && is_shader_change(changed_candidates(events@.take(e as int))[i]),
        decreases events.len() - e,
    {
        let event = &events[e];
        proof {
            assert(events@.take(e + 1).drop_last() =~= events@.take(e as int));
            assert(events@.take(e + 1).last() == events@[e as int]);
        }
        let ghost base = changed_candidates(events@.take(e as int));
        if event.kind == WatchEventKind::ModifyOrCreate {
            let mut k: usize = 0;
            proof {
                assert(base + candidates_of(event.paths@).take(0) =~= base);
            }
            while k < event.paths.len()
                invariant
                    k <= event.paths@.len(),
                    no_duplicates(path_views(out@)),
                    forall|p: PathModel| #[trigger]
                        path_views(out@).contains(p) <==> exists|i: int|
                            0 <= i < (base + candidates_of(event.paths@).take(k as int)).len() && #[trigger] (base
                                + candidates_of(event.paths@).take(k as int))[i].path == p && is_shader_change(
                                (base + candidates_of(event.paths@).take(k as int))[i],
                            ),
                decreases event.paths.len() - k,
            {
                let ghost cs = base + candidates_of(event.paths@).take(k as int);
                let ghost cs1 = base + candidates_of(event.paths@).take(k + 1);
                let w = &event.paths[k];
                proof {
                    assert(cs1 =~= cs.push(Candidate { path: w.path@, exists: w.exists }));
                    reveal_strlit("wgsl");
                }
                let take = w.exists && path_has_extension_ci(&w.path, "wgsl");
                let ghost before = path_views(out@);
                if take {
                    add_unique(&mut out, &w.path);
                }
                proof {
                    assert forall|p: PathModel| #[trigger] path_views(out@).contains(p) <==> exists|i: int|
                        0 <= i < cs1.len() && #[trigger] cs1[i].path == p && is_shader_change(cs1[i]) by {
                        if exists|i: int| 0 <= i < cs1.len() && #[trigger] cs1[i].path == p && is_shader_change(cs1[i]) {
                            let i = choose|i: int| 0 <= i < cs1.len() && #[trigger] cs1[i].path == p && is_shader_change(cs1[i]);
                            if i < cs.len() {
                                assert(cs[i] == cs1[i]);
                            }
                        }
                        if exists|i: int| 0 <= i < cs.len() && #[trigger] cs[i].path == p && is_shader_change(cs[i]) {
                            let i = choose|i: int| 0 <= i < cs.len() && #[trigger] cs[i].path == p && is_shader_change(cs[i]);
                            assert(cs1[i] == cs[i]);
                        }
                        if take && p == w.path@ {
                            assert(cs1[cs.len() as int].path == p);
                        }
                    }
                }
                k = k + 1;
            }
            proof {
                assert(candidates_of(event.paths@).take(event.paths@.len() as int) =~= candidates_of(event.paths@));
            }
        }
        proof {
            let cc = changed_candidates(events@.take(e + 1));
            if event.kind == WatchEventKind::ModifyOrCreate {
                assert(cc == base + candidates_of(event.paths@));
            } else {
                assert(cc == base);
            }
        }
        e = e + 1;
    }
    proof {
        assert(events@.take(events@.len() as int) =~= events@);
    }
    out
}

/// Whether the watched roots are already `roots`, in the same order.
pub fn roots_unchanged(watched: &Vec<ContentPath>, roots: &Vec<ContentPath>) -> (r: bool)
    ensures
        r == (path_views(watched@) == path_views(roots@)),
{
    if watched.len() != roots.len() {
        proof {
            assert(path_views(watched@).len() != path_views(roots@).len());
        }
        return false;
    }
    let mut i: usize = 0;
    while i < watched.len()
        invariant
            i <= watched@.len(),
            watched@.len() == roots@.len(),
            forall|j: int| 0 <= j < i ==> path_views(watched@)[j] == path_views(roots@)[j],
        decreases watched.len() - i,
    {
        if !watched[i].same_as(&roots[i]) {
            proof {
                assert(path_views(watched@)[i as int] != path_views(roots@)[i as int]);
            }
            return false;
        }
        i = i + 1;
    }
    proof {
        assert(path_views(watched@) =~= path_views(roots@));
    }
    true
}

/// Whether the shader watcher must watch `canonical` anew: it watches
/// nothing or another folder.
pub fn needs_rewatch(current: &Option<ContentPath>, canonical: &ContentPath) -> (r: bool)
    ensures
        r == match current {
            Some(c) => c@ != canonical@,
            None => true,
        },
{
    match current {
        Some(c) => !c.same_as(canonical),
        None => true,
    }
}

/// The materials whose shader source is the file at `path`, given each
/// material's source path (in the same normal form as `path`), in order
/// of their handles.
pub fn materials_using_shader(sources: &Vec<Option<ContentPath>>, path: &ContentPath) -> (r: Vec<usize>)
    ensures
        forall|i: int| 0 <= i < r@.len() ==> (#[trigger] r@[i]) < sources@.len(),
        forall|i: int, j: int| 0 <= i < j < r@.len() ==> r@[i] < r@[j],
        forall|h: int|
            0 <= h < sources@.len() ==> (r@.contains(h as usize) <==> crate::paths::path_view(
                #[trigger] sources@[h],
            ) == Some(path@)),
{
    let mut out: Vec<usize> = Vec::new();
    let mut h: usize = 0;
    while h < sources.len()
        invariant
            h <= sources@.len(),
            forall|i: int| 0 <= i < out@.len() ==> (#[trigger] out@[i]) < h,
            forall|i: int, j: int| 0 <= i < j < out@.len() ==> out@[i] < out@[j],
            forall|k: int|
                0 <= k < h ==> (out@.contains(k as usize) <==> crate::paths::path_view(#[trigger] sources@[k])
                    == Some(path@)),
        decreases sources.len() - h,
    {
        let matches = match &sources[h] {
            Some(p) => p.same_as(path),
            None => false,
        };
        let ghost before = out@;
        if matches {
            out.push(h);
        }
        proof {
            assert forall|k: int| 0 <= k < h + 1 implies (out@.contains(k as usize) <==> crate::paths::path_view(
                #[trigger] sources@[k],
            ) == Some(path@)) by {
                if k < h {
                    if out@.contains(k as usize) && matches {
                        let j = choose|j: int| 0 <= j < out@.len() && out@[j] == k as usize;
                        if j < before.len() {
                            assert(before[j] == k as usize);
                        }
                    }
                    if before.contains(k as usize) {
                        let j = choose|j: int| 0 <= j < before.len() && before[j] == k as usize;
                        assert(out@[j] == k as usize);
                    }
                } else {
                    if matches {
                        assert(out@[before.len() as int] == h);
                    }
                    if out@.contains(k as usize) && !matches {
                        let j = choose|j: int| 0 <= j < out@.len() && out@[j] == k as usize;
                        assert(before[j] < h);
                    }
                }
            }
        }
        h = h + 1;
    }
    out
}

/// The first occurrence of each path, in order.
pub open spec fn first_seen(s: Seq<PathModel>) -> Seq<PathModel>
    decreases s.len(),
{
    if s.len() == 0 {
        seq![]
    } else {
        let prev = first_seen(s.drop_last());
        if prev.contains(s.last()) {
            prev
        } else {
            prev.push(s.last())
        }
    }
}

/// Each path once, in first-seen order.
pub fn unique_paths(paths: &Vec<ContentPath>) -> (r: Vec<ContentPath>)
    ensures
        path_views(r@) == first_seen(path_views(paths@)),
        no_duplicates(path_views(r@)),
        forall|p: PathModel| #[trigger] path_views(r@).contains(p) <==> path_views(paths@).contains(p),
{
    let mut out: Vec<ContentPath> = Vec::new();
    let mut i: usize = 0;
    proof {
        assert(path_views(out@) =~= Seq::<PathModel>::empty());
    }
    while i < paths.len()
        invariant
            i <= paths@.len(),
            no_duplicates(path_views(out@)),
            forall|p: PathModel| #[trigger] path_views(out@).contains(p) <==> path_views(paths@).take(i as int).contains(p),
            path_views(out@) == first_seen(path_views(paths@).take(i as int)),
        decreases paths.len() - i,
    {
        add_unique(&mut out, &paths[i]);
        proof {
            let all = path_views(paths@);
            assert(all.take(i + 1).drop_last() =~= all.take(i as int));
            assert(all.take(i + 1).last() == paths@[i as int]@);
            assert(all.take(i + 1) =~= all.take(i as int).push(paths@[i as int]@));
            assert forall|p: PathModel| #[trigger] path_views(out@).contains(p) <==> all.take(i + 1).contains(p) by {
                if all.take(i + 1).contains(p) {
                    let k = choose|k: int| 0 <= k < i + 1 && #[trigger] all.take(i + 1)[k] == p;
                    if k < i {
                        assert(all.take(i as int)[k] == p);
                    }
                }
                if all.take(i as int).contains(p) {
                    let k = choose|k: int| 0 <= k < i && #[trigger] all.take(i as int)[k] == p;
                    assert(all.take(i + 1)[k] == p);
                }
                if p == paths@[i as int]@ {
                    assert(all.take(i + 1)[i as int] == p);
                }
            }
        }
        i = i + 1;
    }
    proof {
        assert(path_views(paths@).take(paths@.len() as int) =~= path_views(paths@));
    }
    out
}

} // verus!
