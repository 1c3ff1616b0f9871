//! The order of paths (`Path`'s `Ord`): component by component, a root
//! before any name, `..` before any other name, other names by their text.

use crate::paths::{
    lemma_lex_antisymmetric, lemma_lex_total, lemma_lex_transitive, lemma_names_push, lex_le, lex_lt, names_of,
    string_eq, string_lex_le, ContentPath, PathModel,
};
use vstd::prelude::*;

verus! {

/// Whether a name is `..`.
pub open spec fn is_parent(a: Seq<char>) -> bool {
    a == seq!['.', '.']
}

/// Order of two components: `..` first, then names by their text.
pub open spec fn comp_lt(a: Seq<char>, b: Seq<char>) -> bool {
    ||| is_parent(a) && !is_parent(b)
    ||| !is_parent(a) && !is_parent(b) && lex_lt(a, b)
}

/// Lexicographic order of component sequences.
pub open spec fn comps_lt(a: Seq<Seq<char>>, b: Seq<Seq<char>>) -> bool
    decreases a.len(),
{
    if b.len() == 0 {
        false
    } else if a.len() == 0 {
        true
    } else if a[0] == b[0] {
        comps_lt(a.drop_first(), b.drop_first())
    } else {
        comp_lt(a[0], b[0])
    }
}

/// `Path`'s order.
pub open spec fn path_lt(a: PathModel, b: PathModel) -> bool {
    if a.rooted == b.rooted {
        comps_lt(a.parts, b.parts)
    } else if a.rooted {
        b.parts.len() > 0
    } else {
        a.parts.len() == 0
    }
}

proof fn lemma_lex_lt_trans(a: Seq<char>, b: Seq<char>, c: Seq<char>)
    requires
        lex_lt(a, b),
        lex_lt(b, c),
    ensures
        lex_lt(a, c),
{
    lemma_lex_transitive(a, b, c);
    if a == c {
        lemma_lex_antisymmetric(b, c);
    }
}

proof fn lemma_comp_order(a: Seq<char>, b: Seq<char>, c: Seq<char>)
    ensures
        !comp_lt(a, a),
        a == b || comp_lt(a, b) || comp_lt(b, a),
        comp_lt(a, b) && comp_lt(b, c) ==> comp_lt(a, c),
        comp_lt(a, b) ==> !comp_lt(b, a),
{
    lemma_lex_total(a, b);
    if lex_le(a, b) && lex_le(b, a) {
        lemma_lex_antisymmetric(a, b);
    }
    if comp_lt(a, b) && comp_lt(b, c) && !is_parent(a) {
        lemma_lex_lt_trans(a, b, c);
    }
}

/// The order of component lists is a strict total order: irreflexive,
/// total, transitive and asymmetric.
pub proof fn lemma_comps_order(a: Seq<Seq<char>>, b: Seq<Seq<char>>, c: Seq<Seq<char>>)
    ensures
        !comps_lt(a, a),
        a == b || comps_lt(a, b) || comps_lt(b, a),
        comps_lt(a, b) && comps_lt(b, c) ==> comps_lt(a, c),
        comps_lt(a, b) ==> !comps_lt(b, a),
    decreases a.len(),
{
    if a.len() > 0 {
        let ra = a.drop_first();
        let rb = if b.len() > 0 { b.drop_first() } else { b };
        let rc = if c.len() > 0 { c.drop_first() } else { c };
        lemma_comps_order(ra, rb, rc);
        lemma_comp_order(a[0], if b.len() > 0 { b[0] } else { a[0] }, if c.len() > 0 { c[0] } else { a[0] });
        if b.len() > 0 {
            lemma_comp_order(a[0], b[0], if c.len() > 0 { c[0] } else { a[0] });
            if a[0] == b[0] && ra == rb {
                assert(a =~= seq![a[0]] + ra);
                assert(b =~= seq![b[0]] + rb);
            }
        }
        if b.len() > 0 && c.len() > 0 {
            lemma_comp_order(a[0], b[0], c[0]);
            lemma_comp_order(b[0], a[0], c[0]);
            lemma_comp_order(a[0], c[0], b[0]);
        }
    } else {
        if b.len() == 0 {
            assert(a =~= b);
        }
    }
}

/// `Path`'s order on paths is a strict total order: irreflexive, total,
/// transitive and asymmetric.
pub proof fn lemma_path_order(a: PathModel, b: PathModel, c: PathModel)
    ensures
        !path_lt(a, a),
        a == b || path_lt(a, b) || path_lt(b, a),
        path_lt(a, b) && path_lt(b, c) ==> path_lt(a, c),
        path_lt(a, b) ==> !path_lt(b, a),
{
    lemma_comps_order(a.parts, b.parts, c.parts);
    if a.parts.len() == 0 && b.parts.len() == 0 {
        assert(a.parts =~= b.parts);
    }
}

fn is_parent_text(a: &String) -> (r: bool)
    ensures
        r == is_parent(a@),
{
    let s = a.as_str();
    if s.unicode_len() != 2 {
        return false;
    }
    let r = s.get_char(0) == '.' && s.get_char(1) == '.';
    proof {
        if r {
            assert(a@ =~= seq!['.', '.']);
        }
    }
    r
}

fn component_lt(a: &String, b: &String) -> (r: bool)
    ensures
        r == comp_lt(a@, b@),
{
    let pa = is_parent_text(a);
    let pb = is_parent_text(b);
    if pa {
        return !pb;
    }
    if pb {
        return false;
    }
    string_lex_le(a.as_str(), b.as_str()) && !string_eq(a, b)
}

/// Whether `a` sorts before `b` (`Path`'s order).
pub fn path_precedes(a: &ContentPath, b: &ContentPath) -> (r: bool)
    ensures
        r == path_lt(a@, b@),
{
    if a.rooted != b.rooted {
        if a.rooted {
            return b.parts.len() > 0;
        } else {
            return a.parts.len() == 0;
        }
    }
    let mut i: usize = 0;
    proof {
        assert(a@.parts.skip(0) =~= a@.parts);
        assert(b@.parts.skip(0) =~= b@.parts);
    }
    while i < a.parts.len() && i < b.parts.len()
        invariant
            i <= a.parts.len(),
            i <= b.parts.len(),
            a.rooted == b.rooted,
            comps_lt(a@.parts, b@.parts) == comps_lt(a@.parts.skip(i as int), b@.parts.skip(i as int)),
        decreases a.parts.len() - i,
    {
        let x = &a.parts[i];
        let y = &b.parts[i];
        proof {
            assert(a@.parts.skip(i as int)[0] == x@);
            assert(b@.parts.skip(i as int)[0] == y@);
            assert(a@.parts.skip(i as int).drop_first() =~= a@.parts.skip(i + 1));
            assert(b@.parts.skip(i as int).drop_first() =~= b@.parts.skip(i + 1));
        }
        if !string_eq(x, y) {
            return component_lt(x, y);
        }
        i = i + 1;
    }
    proof {
        assert(a@.parts.skip(i as int).len() == a@.parts.len() - i);
        assert(b@.parts.skip(i as int).len() == b@.parts.len() - i);
    }
    i < b.parts.len()
}

/// Strictly increasing in `Path`'s order.
pub open spec fn paths_sorted(s: Seq<PathModel>) -> bool {
    forall|i: int, j: int| 0 <= i < j < s.len() ==> path_lt(#[trigger] s[i], #[trigger] s[j])
}

/// The abstract paths of a vector.
pub open spec fn path_views(v: Seq<ContentPath>) -> Seq<PathModel> {
    v.map_values(|p: ContentPath| p@)
}

/// Adds `x` to the sorted set of paths held in `v`.
pub fn insert_path_sorted(v: &mut Vec<ContentPath>, x: ContentPath)
    requires
        paths_sorted(path_views(old(v)@)),
    ensures
        paths_sorted(path_views(final(v)@)),
        forall|p: PathModel| #[trigger]
            path_views(final(v)@).contains(p) <==> (path_views(old(v)@).contains(p) || p == x@),
{
    let ghost before = path_views(v@);
    let mut i: usize = 0;
    while i < v.len() && path_precedes(&v[i], &x)
        invariant
            v@ == old(v)@,
            before == path_views(v@),
            paths_sorted(before),
            i <= v.len(),
            forall|j: int| 0 <= j < i ==> path_lt(#[trigger] before[j], x@),
        decreases v.len() - i,
    {
        proof {
            assert(before[i as int] == v@[i as int]@);
        }
        i = i + 1;
    }
    if i < v.len() && v[i].same_as(&x) {
        proof {
            assert(before[i as int] == x@);
            assert forall|p: PathModel| #[trigger] path_views(v@).contains(p) <==> (before.contains(p) || p == x@) by {
                if p == x@ {
                    assert(before[i as int] == p);
                }
            }
        }
        return;
    }
    let ghost xv = x@;
    v.insert(i, x);
    proof {
        let after = path_views(v@);
        assert(after =~= before.insert(i as int, xv));
        if i < before.len() {
            assert(before[i as int] == old(v)@[i as int]@);
            lemma_path_order(xv, before[i as int], xv);
            assert(path_lt(xv, before[i as int]));
        }
        assert forall|a: int, b: int| 0 <= a < b < after.len() implies path_lt(#[trigger] after[a], #[trigger] after[b]) by {
            if a < i && b > i {
                lemma_path_order(before[a], xv, before[b - 1]);
                if b - 1 > i {
                    lemma_path_order(xv, before[i as int], before[b - 1]);
                }
            } else if a == i && b - 1 > i {
                lemma_path_order(xv, before[i as int], before[b - 1]);
            }
        }
        assert forall|p: PathModel| #[trigger] after.contains(p) <==> (before.contains(p) || p == xv) by {
            if after.contains(p) {
                let k = choose|k: int| 0 <= k < after.len() && after[k] == p;
                if k > i {
                    assert(before[k - 1] == p);
                } else if k < i {
                    assert(before[k] == p);
                }
            }
            if before.contains(p) {
                let k = choose|k: int| 0 <= k < before.len() && before[k] == p;
                if k >= i {
                    assert(after[k + 1] == p);
                } else {
                    assert(after[k] == p);
                }
            }
            if p == xv {
                assert(after[i as int] == p);
            }
        }
    }
}

} // verus!
