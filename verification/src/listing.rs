//! Ordering what a folder holds: entries by their lower-cased names (a
//! stable sort), folders apart from files, and the script files offered in
//! the inspector.

use crate::path_order::{lemma_path_order, path_lt, path_precedes, path_views};
use crate::paths::{
    file_name_model, lemma_lex_antisymmetric, lemma_lex_reflexive, lemma_lex_total, lemma_lex_transitive, lex_le,
    lex_lt, lower_ascii, name_extension, string_eq, string_lex_le, to_ascii_lowercase, ContentPath,
    PathModel, file_extension,
};
use crate::text::string_from;
use vstd::prelude::*;

verus! {

broadcast use vstd::seq_lib::to_multiset_insert;

/// The key entries are listed by: the file name, lower-cased, or nothing
/// when there is none.
pub open spec fn name_key(p: PathModel) -> Seq<char> {
    match file_name_model(p) {
        Some(n) => lower_ascii(n),
        None => seq![],
    }
}

/// Where a stable insertion puts `x` among `t`: after every entry whose key
/// is not greater than `x`'s, counting from the end.
pub open spec fn name_slot(t: Seq<PathModel>, x: PathModel) -> int
    decreases t.len(),
{
    if t.len() == 0 {
        0
    } else if lex_lt(name_key(x), name_key(t.last())) {
        name_slot(t.drop_last(), x)
    } else {
        t.len() as int
    }
}

/// `s` sorted by `name_key`, entries with equal keys in their first order
/// (what a stable sort gives).
pub open spec fn sort_by_name(s: Seq<PathModel>) -> Seq<PathModel>
    decreases s.len(),
{
    if s.len() == 0 {
        seq![]
    } else {
        let t = sort_by_name(s.drop_last());
        t.insert(name_slot(t, s.last()), s.last())
    }
}

/// Ordered by key, equal keys allowed.
pub open spec fn sorted_by_name(s: Seq<PathModel>) -> bool {
    forall|i: int, j: int| 0 <= i < j < s.len() ==> lex_le(name_key(#[trigger] s[i]), name_key(#[trigger] s[j]))
}

proof fn lemma_name_slot(t: Seq<PathModel>, x: PathModel)
    requires
        sorted_by_name(t),
    ensures
        0 <= name_slot(t, x) <= t.len(),
        forall|k: int| 0 <= k < name_slot(t, x) ==> lex_le(name_key(#[trigger] t[k]), name_key(x)),
        forall|k: int| name_slot(t, x) <= k < t.len() ==> lex_lt(name_key(x), name_key(#[trigger] t[k])),
    decreases t.len(),
{
    if t.len() > 0 {
        let u = t.drop_last();
        assert(sorted_by_name(u)) by {
            assert forall|i: int, j: int| 0 <= i < j < u.len() implies lex_le(
                name_key(#[trigger] u[i]),
                name_key(#[trigger] u[j]),
            ) by {
                assert(u[i] == t[i] && u[j] == t[j]);
            }
        }
        lemma_name_slot(u, x);
        if !lex_lt(name_key(x), name_key(t.last())) {
            lemma_lex_total(name_key(x), name_key(t.last()));
            lemma_lex_reflexive(name_key(x));
            assert forall|k: int| 0 <= k < t.len() implies lex_le(name_key(#[trigger] t[k]), name_key(x)) by {
                if k < t.len() - 1 {
                    assert(lex_le(name_key(t[k]), name_key(t[t.len() - 1])));
                    lemma_lex_transitive(name_key(t[k]), name_key(t[t.len() - 1]), name_key(x));
                }
            }
        } else {
            assert forall|k: int| name_slot(t, x) <= k < t.len() implies lex_lt(name_key(x), name_key(#[trigger] t[k])) by {
                if k < t.len() - 1 {
                    assert(u[k] == t[k]);
                }
            }
            assert forall|k: int| 0 <= k < name_slot(t, x) implies lex_le(name_key(#[trigger] t[k]), name_key(x)) by {
                assert(u[k] == t[k]);
            }
        }
    }
}

/// The stable sort by name gives entries ordered by key, and the same
/// entries as before.
pub proof fn lemma_sort_by_name_sorted(s: Seq<PathModel>)
    ensures
        sorted_by_name(sort_by_name(s)),
        sort_by_name(s).to_multiset() == s.to_multiset(),
    decreases s.len(),
{
    if s.len() > 0 {
        let t = sort_by_name(s.drop_last());
        lemma_sort_by_name_sorted(s.drop_last());
        let x = s.last();
        lemma_name_slot(t, x);
        let p = name_slot(t, x);
        let r = t.insert(p, x);
        assert forall|i: int, j: int| 0 <= i < j < r.len() implies lex_le(name_key(#[trigger] r[i]), name_key(#[trigger] r[j])) by {
            if i < p && j == p {
            } else if i == p && j > p {
                assert(r[j] == t[j - 1]);
            } else if i < p && j > p {
                assert(r[j] == t[j - 1]);
                assert(lex_lt(name_key(x), name_key(t[j - 1])));
                lemma_lex_transitive(name_key(t[i]), name_key(x), name_key(t[j - 1]));
            } else if i > p {
                assert(r[i] == t[i - 1] && r[j] == t[j - 1]);
            } else {
                assert(r[i] == t[i] && r[j] == t[j]);
            }
        }
        assert(s.drop_last().push(x) =~= s);
        vstd::seq_lib::to_multiset_build(s.drop_last(), x);
    } else {
        assert(sort_by_name(s) =~= s);
    }
}

/// Whether an entry's key is `k`.
pub open spec fn key_is(k: Seq<char>) -> spec_fn(PathModel) -> bool {
    |p: PathModel| name_key(p) == k
}

/// The entries of `s` whose key is `k`, in their order in `s`.
pub open spec fn with_key(s: Seq<PathModel>, k: Seq<char>) -> Seq<PathModel> {
    s.filter(key_is(k))
}

proof fn lemma_with_key_none(u: Seq<PathModel>, k: Seq<char>)
    requires
        forall|i: int| 0 <= i < u.len() ==> name_key(#[trigger] u[i]) != k,
    ensures
        with_key(u, k) == Seq::<PathModel>::empty(),
    decreases u.len(),
{
    reveal(Seq::filter);
    if u.len() > 0 {
        let v = u.drop_last();
        assert forall|i: int| 0 <= i < v.len() implies name_key(#[trigger] v[i]) != k by {
            assert(v[i] == u[i]);
        }
        lemma_with_key_none(v, k);
        assert(name_key(u[u.len() - 1]) != k);
    }
}

/// The sort by name is stable: for every key, the entries with that key
/// come out in the order they came in.
pub proof fn lemma_sort_by_name_stable(s: Seq<PathModel>, k: Seq<char>)
    ensures
        with_key(sort_by_name(s), k) == with_key(s, k),
    decreases s.len(),
{
    reveal_with_fuel(Seq::filter, 2);
    if s.len() > 0 {
        let prev = s.drop_last();
        let t = sort_by_name(prev);
        lemma_sort_by_name_stable(prev, k);
        lemma_sort_by_name_sorted(prev);
        let x = s.last();
        lemma_name_slot(t, x);
        let p = name_slot(t, x);
        let pred = key_is(k);
        let a = t.take(p);
        let b = t.skip(p);
        assert(t.insert(p, x) =~= a + seq![x] + b);
        assert(t =~= a + b);
        Seq::filter_distributes_over_add(a + seq![x], b, pred);
        Seq::filter_distributes_over_add(a, seq![x], pred);
        Seq::filter_distributes_over_add(a, b, pred);
        assert(seq![x].drop_last() =~= Seq::<PathModel>::empty());
        if name_key(x) == k {
            assert forall|i: int| 0 <= i < b.len() implies name_key(#[trigger] b[i]) != k by {
                assert(b[i] == t[p + i]);
                assert(lex_lt(name_key(x), name_key(t[p + i])));
            }
            lemma_with_key_none(b, k);
            assert(with_key(sort_by_name(s), k) =~= with_key(t, k).push(x));
        } else {
            assert(with_key(sort_by_name(s), k) =~= with_key(t, k));
        }
    } else {
        assert(sort_by_name(s) =~= s);
    }
}

/// The key of an entry, as text.
pub fn entry_key(p: &ContentPath) -> (r: String)
    ensures
        r@ == name_key(p@),
{
    match p.file_name() {
        Some(n) => to_ascii_lowercase(n.as_str()),
        None => {
            let r = String::new();
            proof {
                assert(r@ =~= Seq::<char>::empty());
            }
            r
        },
    }
}

fn key_lt(a: &String, b: &String) -> (r: bool)
    ensures
        r == lex_lt(a@, b@),
{
    string_lex_le(a.as_str(), b.as_str()) && !string_eq(a, b)
}

/// Sorts entries by their lower-cased file names, keeping the order of
/// entries whose names are equal; see `sort_by_name`.
pub fn sort_paths(paths: &mut Vec<ContentPath>)
    ensures
        path_views(final(paths)@) == sort_by_name(path_views(old(paths)@)),
{
    let mut out: Vec<ContentPath> = Vec::new();
    let mut i: usize = 0;
    proof {
        assert(path_views(out@) =~= sort_by_name(path_views(paths@).take(0)));
    }
    while i < paths.len()
        invariant
            i <= paths.len(),
            paths@ == old(paths)@,
            path_views(out@) == sort_by_name(path_views(paths@).take(i as int)),
        decreases paths.len() - i,
    {
        let x = paths[i].duplicate();
        let kx = entry_key(&x);
        let ghost t = path_views(out@);
        let mut j: usize = out.len();
        proof {
            assert(t.take(j as int) =~= t);
        }
        while j > 0 && key_lt(&kx, &entry_key(&out[j - 1]))
            invariant
                j <= out.len(),
                t == path_views(out@),
                kx@ == name_key(x@),
                name_slot(t, x@) == name_slot(t.take(j as int), x@),
            decreases j,
        {
            proof {
                assert(t.take(j as int).drop_last() =~= t.take(j - 1));
                assert(t.take(j as int).last() == out@[j - 1]@);
            }
            j = j - 1;
        }
        proof {
            if j > 0 {
                assert(t.take(j as int).last() == out@[j - 1]@);
            }
            assert(path_views(paths@).take(i + 1).drop_last() =~= path_views(paths@).take(i as int));
            assert(path_views(paths@).take(i + 1).last() == x@);
        }
        let ghost xv = x@;
        out.insert(j, x);
        proof {
            assert(path_views(out@) =~= t.insert(j as int, xv));
        }
        i = i + 1;
    }
    proof {
        assert(path_views(paths@).take(paths@.len() as int) =~= path_views(paths@));
    }
    *paths = out;
}

/// A folder entry as read from the file system: its path and whether it is
/// a folder (for folder listings) or a plain file (for script listings).
pub struct FolderEntry {
    pub path: ContentPath,
    pub flag: bool,
}

/// The paths of the entries whose flag is `flag`, in order.
pub open spec fn entries_with(s: Seq<FolderEntry>, flag: bool) -> Seq<PathModel>
    decreases s.len(),
{
    if s.len() == 0 {
        seq![]
    } else {
        let prev = entries_with(s.drop_last(), flag);
        if s.last().flag == flag {
            prev.push(s.last().path@)
        } else {
            prev
        }
    }
}

fn paths_with(entries: &Vec<FolderEntry>, flag: bool) -> (r: Vec<ContentPath>)
    ensures
        path_views(r@) == entries_with(entries@, flag),
{
    let mut out: Vec<ContentPath> = Vec::new();
    let mut i: usize = 0;
    proof {
        assert(path_views(out@) =~= Seq::<PathModel>::empty());
    }
    while i < entries.len()
        invariant
            i <= entries.len(),
            path_views(out@) == entries_with(entries@.take(i as int), flag),
        decreases entries.len() - i,
    {
        proof {
            assert(entries@.take(i + 1).drop_last() =~= entries@.take(i as int));
        }
        if entries[i].flag == flag {
            let ghost before = path_views(out@);
            out.push(entries[i].path.duplicate());
            proof {
                assert(path_views(out@) =~= before.push(entries@[i as int].path@));
            }
        }
        i = i + 1;
    }
    proof {
        assert(entries@.take(entries@.len() as int) =~= entries@);
    }
    out
}

/// What a folder holds: its sub-folders and its files, each sorted by name.
pub struct DirectoryContents {
    pub directories: Vec<ContentPath>,
    pub files: Vec<ContentPath>,
}

/// Splits a folder's entries (flag: is a folder) into folders and files,
/// each sorted by name with `sort_paths`.
pub fn directory_contents(entries: &Vec<FolderEntry>) -> (r: DirectoryContents)
    ensures
        path_views(r.directories@) == sort_by_name(entries_with(entries@, true)),
        path_views(r.files@) == sort_by_name(entries_with(entries@, false)),
{
    let mut directories = paths_with(entries, true);
    let mut files = paths_with(entries, false);
    sort_paths(&mut directories);
    sort_paths(&mut files);
    DirectoryContents { directories, files }
}

/// Where a stable insertion puts `x` among `t` in `Path`'s order.
pub open spec fn path_slot(t: Seq<PathModel>, x: PathModel) -> int
    decreases t.len(),
{
    if t.len() == 0 {
        0
    } else if path_lt(x, t.last()) {
        path_slot(t.drop_last(), x)
    } else {
        t.len() as int
    }
}

/// `s` sorted in `Path`'s order.
pub open spec fn sort_by_path(s: Seq<PathModel>) -> Seq<PathModel>
    decreases s.len(),
{
    if s.len() == 0 {
        seq![]
    } else {
        let t = sort_by_path(s.drop_last());
        t.insert(path_slot(t, s.last()), s.last())
    }
}

/// Whether a path names a script file: its extension is `rn`.
pub open spec fn is_script_path(p: PathModel) -> bool {
    match file_name_model(p) {
        Some(n) => name_extension(n) == Some("rn"@),
        None => false,
    }
}

/// The script files among `s`, in order.
pub open spec fn script_paths(s: Seq<PathModel>) -> Seq<PathModel>
    decreases s.len(),
{
    if s.len() == 0 {
        seq![]
    } else {
        let prev = script_paths(s.drop_last());
        if is_script_path(s.last()) {
            prev.push(s.last())
        } else {
            prev
        }
    }
}

fn is_script(p: &ContentPath) -> (r: bool)
    ensures
        r == is_script_path(p@),
{
    proof {
        reveal_strlit("rn");
    }
    match p.file_name() {
        Some(n) => match file_extension(n.as_str()) {
            Some(e) => string_eq(&e, &string_from("rn")),
            None => false,
        },
        None => false,
    }
}

/// The scripts offered in the inspector, from the entries of the scripts
/// folder (flag: is a plain file): the files whose extension is `rn`,
/// sorted in `Path`'s order.
pub fn list_available_scripts(entries: &Vec<FolderEntry>) -> (r: Vec<ContentPath>)
    ensures
        path_views(r@) == sort_by_path(script_paths(entries_with(entries@, true))),
{
    let files = paths_with(entries, true);
    let mut out: Vec<ContentPath> = Vec::new();
    let mut i: usize = 0;
    let ghost all = path_views(files@);
    proof {
        assert(path_views(out@) =~= sort_by_path(script_paths(all.take(0))));
    }
    while i < files.len()
        invariant
            i <= files.len(),
            all == path_views(files@),
            path_views(out@) == sort_by_path(script_paths(all.take(i as int))),
        decreases files.len() - i,
    {
        proof {
            assert(all.take(i + 1).drop_last() =~= all.take(i as int));
            assert(all.take(i + 1).last() == files@[i as int]@);
        }
        if is_script(&files[i]) {
            let x = files[i].duplicate();
            let ghost t = path_views(out@);
            let mut j: usize = out.len();
            proof {
                assert(t.take(j as int) =~= t);
            }
            while j > 0 && path_precedes(&x, &out[j - 1])
                invariant
                    j <= out.len(),
                    t == path_views(out@),
                    path_slot(t, x@) == path_slot(t.take(j as int), x@),
                decreases j,
            {
                proof {
                    assert(t.take(j as int).drop_last() =~= t.take(j - 1));
                    assert(t.take(j as int).last() == out@[j - 1]@);
                }
                j = j - 1;
            }
            proof {
                if j > 0 {
                    assert(t.take(j as int).last() == out@[j - 1]@);
                }
            }
            let ghost xv = x@;
            out.insert(j, x);
            proof {
                assert(path_views(out@) =~= t.insert(j as int, xv));
                let sp = script_paths(all.take(i + 1));
                assert(sp == script_paths(all.take(i as int)).push(xv));
                assert(sp.drop_last() =~= script_paths(all.take(i as int)));
                assert(sp.last() == xv);
            }
        }
        i = i + 1;
    }
    proof {
        assert(all.take(files@.len() as int) =~= all);
    }
    out
}

} // verus!
