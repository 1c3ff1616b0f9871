//! Paths as sequences of names, and the naming rules for files and folders
//! in the project's content tree.

use crate::text::{
    ascii_lower, char_to_ascii_lower, concat, decimal, decimal_pad2, decimal_string, decimal_string_pad2,
    push_char, string_from,
};
use vstd::prelude::*;

verus! {

/// A path held as its normal components, with a flag for a leading root.
#[derive(Clone, Debug, PartialEq, Eq)]
pub struct ContentPath {
    pub rooted: bool,
    pub parts: Vec<String>,
}

/// Abstract path: root flag and component names.
pub struct PathModel {
    pub rooted: bool,
    pub parts: Seq<Seq<char>>,
}

/// The names held by a vector of strings.
pub open spec fn names_of(v: Seq<String>) -> Seq<Seq<char>> {
    v.map_values(|s: String| s@)
}

/// The names of a vector with one more string end with that string's.
pub proof fn lemma_names_push(v: Seq<String>, x: String)
    ensures
        names_of(v.push(x)) == names_of(v).push(x@),
{
    assert(names_of(v.push(x)) =~= names_of(v).push(x@));
}

/// The names of a prefix one longer end with the next string's name.
pub proof fn lemma_names_take(v: Seq<String>, i: int)
    requires
        0 <= i < v.len(),
    ensures
        names_of(v.take(i + 1)) == names_of(v.take(i)).push(v[i]@),
        names_of(v)[i] == v[i]@,
{
    assert(v.take(i + 1) =~= v.take(i).push(v[i]));
    lemma_names_push(v.take(i), v[i]);
}

impl View for ContentPath {
    type V = PathModel;

    open spec fn view(&self) -> PathModel {
        PathModel { rooted: self.rooted, parts: names_of(self.parts@) }
    }
}

/// The abstract value of an optional path.
pub open spec fn path_view(p: Option<ContentPath>) -> Option<PathModel> {
    match p {
        Some(q) => Some(q@),
        None => None,
    }
}

/// `base` followed by the names of `rel`; a rooted `rel` replaces `base`
/// (`Path::join`).
pub open spec fn join_model(base: PathModel, rel: PathModel) -> PathModel {
    if rel.rooted {
        rel
    } else {
        PathModel { rooted: base.rooted, parts: base.parts + rel.parts }
    }
}

/// `base` with one more name.
pub open spec fn push_model(base: PathModel, name: Seq<char>) -> PathModel {
    PathModel { rooted: base.rooted, parts: base.parts.push(name) }
}

/// Component-wise prefix (`Path::starts_with`).
pub open spec fn starts_with_model(p: PathModel, base: PathModel) -> bool {
    &&& p.rooted == base.rooted
    &&& base.parts.len() <= p.parts.len()
    &&& p.parts.subrange(0, base.parts.len() as int) == base.parts
}

/// The last name, unless there is none or it is `..` (`Path::file_name`).
pub open spec fn file_name_model(p: PathModel) -> Option<Seq<char>> {
    if p.parts.len() == 0 || p.parts.last() == seq!['.', '.'] {
        None
    } else {
        Some(p.parts.last())
    }
}

/// Everything but the last name (`Path::parent`).
pub open spec fn parent_model(p: PathModel) -> Option<PathModel> {
    if p.parts.len() == 0 {
        None
    } else {
        Some(PathModel { rooted: p.rooted, parts: p.parts.drop_last() })
    }
}

/// The names of `p` after those of `base`, when `p` starts with `base`
/// (`Path::strip_prefix`).
pub open spec fn strip_prefix_model(p: PathModel, base: PathModel) -> Option<PathModel> {
    if starts_with_model(p, base) {
        Some(PathModel { rooted: false, parts: p.parts.subrange(base.parts.len() as int, p.parts.len() as int) })
    } else {
        None
    }
}

/// Names joined by `/`.
pub open spec fn join_names(parts: Seq<Seq<char>>) -> Seq<char>
    decreases parts.len(),
{
    if parts.len() == 0 {
        seq![]
    } else if parts.len() == 1 {
        parts[0]
    } else {
        join_names(parts.drop_last()) + seq!['/'] + parts.last()
    }
}

/// The path as text, `/`-separated, with a leading `/` when rooted.
pub open spec fn display_model(p: PathModel) -> Seq<char> {
    if p.rooted {
        seq!['/'] + join_names(p.parts)
    } else {
        join_names(p.parts)
    }
}

/// Position of the last `.` in `name`, or -1.
pub open spec fn last_dot(name: Seq<char>) -> int
    decreases name.len(),
{
    if name.len() == 0 {
        -1
    } else if name.last() == '.' {
        name.len() - 1
    } else {
        last_dot(name.drop_last())
    }
}

/// The stem of a file name (`Path::file_stem` on that name): what comes
/// before the last `.`, or the whole name when the only `.` leads it, when
/// there is none, or when the name is `..`.
pub open spec fn name_stem(name: Seq<char>) -> Seq<char> {
    if name == seq!['.', '.'] || last_dot(name) <= 0 {
        name
    } else {
        name.subrange(0, last_dot(name))
    }
}

/// The extension of a file name (`Path::extension` on that name).
pub open spec fn name_extension(name: Seq<char>) -> Option<Seq<char>> {
    if name == seq!['.', '.'] || last_dot(name) <= 0 {
        None
    } else {
        Some(name.subrange(last_dot(name) + 1, name.len() as int))
    }
}

/// View of an optional string slice.
pub open spec fn opt_str_view(s: Option<&str>) -> Option<Seq<char>> {
    match s {
        Some(x) => Some(x@),
        None => None,
    }
}

/// `base.ext` when the extension is present and non-empty, else `base`.
pub open spec fn with_extension(base: Seq<char>, ext: Option<Seq<char>>) -> Seq<char> {
    match ext {
        Some(e) => if e.len() > 0 { base + seq!['.'] + e } else { base },
        None => base,
    }
}

/// Lexicographic order of character codes (the order of `String`).
pub open spec fn lex_le(a: Seq<char>, b: Seq<char>) -> bool
    decreases a.len(),
{
    if a.len() == 0 {
        true
    } else if b.len() == 0 {
        false
    } else if a[0] < b[0] {
        true
    } else if a[0] > b[0] {
        false
    } else {
        lex_le(a.drop_first(), b.drop_first())
    }
}

/// Strict lexicographic order.
pub open spec fn lex_lt(a: Seq<char>, b: Seq<char>) -> bool {
    lex_le(a, b) && a != b
}

/// Any two texts are ordered one way or the other.
pub proof fn lemma_lex_total(a: Seq<char>, b: Seq<char>)
    ensures
        lex_le(a, b) || lex_le(b, a),
    decreases a.len(),
{
    if a.len() > 0 && b.len() > 0 && a[0] == b[0] {
        lemma_lex_total(a.drop_first(), b.drop_first());
    }
}

/// Texts ordered both ways are equal.
pub proof fn lemma_lex_antisymmetric(a: Seq<char>, b: Seq<char>)
    requires
        lex_le(a, b),
        lex_le(b, a),
    ensures
        a == b,
    decreases a.len(),
{
    if a.len() == 0 {
        assert(b =~= a);
    } else {
        lemma_lex_antisymmetric(a.drop_first(), b.drop_first());
        assert(a[0] == b[0]);
        assert(a =~= seq![a[0]] + a.drop_first());
        assert(b =~= seq![b[0]] + b.drop_first());
    }
}

/// The order of texts is transitive.
pub proof fn lemma_lex_transitive(a: Seq<char>, b: Seq<char>, c: Seq<char>)
    requires
        lex_le(a, b),
        lex_le(b, c),
    ensures
        lex_le(a, c),
    decreases a.len(),
{
    if a.len() > 0 && b.len() > 0 && c.len() > 0 && a[0] == b[0] && b[0] == c[0] {
        lemma_lex_transitive(a.drop_first(), b.drop_first(), c.drop_first());
    }
}

/// Every text is ordered before or equal to itself.
pub proof fn lemma_lex_reflexive(a: Seq<char>)
    ensures
        lex_le(a, a),
    decreases a.len(),
{
    if a.len() > 0 {
        lemma_lex_reflexive(a.drop_first());
    }
}

/// `name` with ASCII upper-case letters lowered.
pub open spec fn lower_ascii(name: Seq<char>) -> Seq<char> {
    name.map_values(|c: char| ascii_lower(c))
}

pub(crate) fn string_eq(a: &String, b: &String) -> (r: bool)
    ensures
        r == (a@ == b@),
{
    a.eq(b)
}

/// Whether `a` sorts before or equal to `b`.
pub fn string_lex_le(a: &str, b: &str) -> (r: bool)
    ensures
        r == lex_le(a@, b@),
{
    let n = a.unicode_len();
    let m = b.unicode_len();
    let mut i: usize = 0;
    proof {
        assert(a@.skip(0) =~= a@);
        assert(b@.skip(0) =~= b@);
    }
    while i < n && i < m
        invariant
            n == a@.len(),
            m == b@.len(),
            i <= n,
            i <= m,
            lex_le(a@, b@) == lex_le(a@.skip(i as int), b@.skip(i as int)),
        decreases n - i,
    {
        let x = a.get_char(i);
        let y = b.get_char(i);
        proof {
            assert(a@.skip(i as int)[0] == x);
            assert(b@.skip(i as int)[0] == y);
            assert(a@.skip(i as int).drop_first() =~= a@.skip(i + 1));
            assert(b@.skip(i as int).drop_first() =~= b@.skip(i + 1));
        }
        if x < y {
            return true;
        }
        if x > y {
            return false;
        }
        i = i + 1;
    }
    proof {
        assert(a@.skip(i as int).len() == n - i);
    }
    i == n
}

/// `str::to_ascii_lowercase`.
pub fn to_ascii_lowercase(s: &str) -> (r: String)
    ensures
        r@ == lower_ascii(s@),
{
    let n = s.unicode_len();
    let mut out = String::new();
    let mut i: usize = 0;
    while i < n
        invariant
            n == s@.len(),
            i <= n,
            out@ == lower_ascii(s@.take(i as int)),
        decreases n - i,
    {
        let c = char_to_ascii_lower(s.get_char(i));
        push_char(&mut out, c);
        proof {
            assert(lower_ascii(s@.take(i + 1)) =~= lower_ascii(s@.take(i as int)).push(c));
        }
        i = i + 1;
    }
    proof {
        assert(s@.take(n as int) =~= s@);
    }
    out
}

/// Position of the last `.` in `name`, if any.
fn find_last_dot(name: &str) -> (r: Option<usize>)
    ensures
        match r {
            Some(k) => k as int == last_dot(name@) && k < name@.len(),
            None => last_dot(name@) == -1,
        },
{
    let n = name.unicode_len();
    let mut i: usize = n;
    proof {
        assert(name@.take(n as int) =~= name@);
    }
    while i > 0
        invariant
            n == name@.len(),
            i <= n,
            last_dot(name@) == last_dot(name@.take(i as int)),
        decreases i,
    {
        proof {
            assert(name@.take(i as int).drop_last() =~= name@.take(i - 1));
            assert(name@.take(i as int).last() == name@[i - 1]);
        }
        if name.get_char(i - 1) == '.' {
            return Some(i - 1);
        }
        i = i - 1;
    }
    None
}

fn is_dot_dot(name: &str) -> (r: bool)
    ensures
        r == (name@ == seq!['.', '.']),
{
    if name.unicode_len() != 2 {
        return false;
    }
    let r = name.get_char(0) == '.' && name.get_char(1) == '.';
    proof {
        if r {
            assert(name@ =~= seq!['.', '.']);
        }
    }
    r
}

/// `Path::file_stem` of a file name.
pub fn file_stem(name: &str) -> (r: String)
    ensures
        r@ == name_stem(name@),
{
    if is_dot_dot(name) {
        return string_from(name);
    }
    match find_last_dot(name) {
        Some(k) => {
            if k == 0 {
                string_from(name)
            } else {
                string_from(name.substring_char(0, k))
            }
        },
        None => string_from(name),
    }
}

/// `Path::extension` of a file name.
pub fn file_extension(name: &str) -> (r: Option<String>)
    ensures
        match r {
            Some(e) => name_extension(name@) == Some(e@),
            None => name_extension(name@) is None,
        },
{
    if is_dot_dot(name) {
        return None;
    }
    match find_last_dot(name) {
        Some(k) => {
            if k == 0 {
                None
            } else {
                let n = name.unicode_len();
                Some(string_from(name.substring_char(k + 1, n)))
            }
        },
        None => None,
    }
}

/// Names `base` with an extension: `base.ext`, or `base` alone when the
/// extension is missing or empty.
pub fn apply_extension(base: &str, extension: Option<&str>) -> (r: String)
    ensures
        r@ == with_extension(base@, opt_str_view(extension)),
{
    match extension {
        Some(ext) => {
            if ext.unicode_len() > 0 {
                let with_dot = concat(base, ".");
                proof {
                    reveal_strlit(".");
                }
                concat(with_dot.as_str(), ext)
            } else {
                string_from(base)
            }
        },
        None => string_from(base),
    }
}

/// Whether `std::path::Path` finds something at `path` (`Path::exists`).
#[verifier::external_body]
pub(crate) fn path_exists(path: &ContentPath) -> bool {
    let mut buf = std::path::PathBuf::new();
    if path.rooted {
        buf.push(std::path::MAIN_SEPARATOR_STR);
    }
    for part in path.parts.iter() {
        buf.push(part);
    }
    buf.exists()
}

/// Whether `std::path::Path` finds a folder at `path` (`Path::is_dir`).
#[verifier::external_body]
pub(crate) fn path_is_dir(path: &ContentPath) -> bool {
    let mut buf = std::path::PathBuf::new();
    if path.rooted {
        buf.push(std::path::MAIN_SEPARATOR_STR);
    }
    for part in path.parts.iter() {
        buf.push(part);
    }
    buf.is_dir()
}

impl ContentPath {
    /// A relative path with no names.
    pub fn empty() -> (r: Self)
        ensures
            r@ == (PathModel { rooted: false, parts: Seq::empty() }),
    {
        let r = ContentPath { rooted: false, parts: Vec::new() };
        proof {
            assert(r@.parts =~= Seq::<Seq<char>>::empty());
        }
        r
    }

    /// A copy of the path.
    pub fn duplicate(&self) -> (r: Self)
        ensures
            r@ == self@,
    {
        let mut parts: Vec<String> = Vec::new();
        let mut i: usize = 0;
        while i < self.parts.len()
            invariant
                i <= self.parts.len(),
                names_of(parts@) == names_of(self.parts@.take(i as int)),
            decreases self.parts.len() - i,
        {
            let p = self.parts[i].clone();
            let ghost before = parts@;
            parts.push(p);
            proof {
                lemma_names_push(before, p);
                lemma_names_take(self.parts@, i as int);
            }
            i = i + 1;
        }
        proof {
            assert(self.parts@.take(self.parts@.len() as int) =~= self.parts@);
        }
        ContentPath { rooted: self.rooted, parts }
    }

    /// This path with `name` appended as one more component.
    pub fn join_name(&self, name: &str) -> (r: Self)
        ensures
            r@ == push_model(self@, name@),
    {
        let mut r = self.duplicate();
        r.parts.push(string_from(name));
        proof {
            assert(r@.parts =~= self@.parts.push(name@));
        }
        r
    }

    /// `Path::join`.
    pub fn join(&self, rel: &ContentPath) -> (r: Self)
        ensures
            r@ == join_model(self@, rel@),
    {
        if rel.rooted {
            return rel.duplicate();
        }
        let mut r = self.duplicate();
        let mut i: usize = 0;
        while i < rel.parts.len()
            invariant
                i <= rel.parts.len(),
                !rel.rooted,
                r@ == join_model(self@, PathModel { rooted: false, parts: rel@.parts.take(i as int) }),
            decreases rel.parts.len() - i,
        {
            let p = rel.parts[i].clone();
            let ghost before = r.parts@;
            r.parts.push(p);
            proof {
                lemma_names_push(before, p);
                lemma_names_take(rel.parts@, i as int);
                assert(r@.parts =~= self@.parts + rel@.parts.take(i + 1));
            }
            i = i + 1;
        }
        proof {
            assert(rel@.parts.take(rel@.parts.len() as int) =~= rel@.parts);
        }
        r
    }

    /// `Path::starts_with`.
    pub fn starts_with(&self, base: &ContentPath) -> (r: bool)
        ensures
            r == starts_with_model(self@, base@),
    {
        if self.rooted != base.rooted || base.parts.len() > self.parts.len() {
            return false;
        }
        let mut i: usize = 0;
        while i < base.parts.len()
            invariant
                base.parts.len() <= self.parts.len(),
                i <= base.parts.len(),
                forall|j: int| 0 <= j < i ==> self@.parts[j] == base@.parts[j],
            decreases base.parts.len() - i,
        {
            if !string_eq(&self.parts[i], &base.parts[i]) {
                proof {
                    assert(self@.parts.subrange(0, base@.parts.len() as int)[i as int] != base@.parts[i as int]);
                }
                return false;
            }
            i = i + 1;
        }
        proof {
            assert(self@.parts.subrange(0, base@.parts.len() as int) =~= base@.parts);
        }
        true
    }

    /// Whether both paths are the same.
    pub fn same_as(&self, other: &ContentPath) -> (r: bool)
        ensures
            r == (self@ == other@),
    {
        if self.parts.len() != other.parts.len() {
            proof {
                assert(self@.parts.len() != other@.parts.len());
            }
            return false;
        }
        let r = self.starts_with(other);
        proof {
            if r {
                assert(self@.parts =~= other@.parts);
            } else if self@ == other@ {
                assert(self@.parts.subrange(0, other@.parts.len() as int) =~= other@.parts);
            }
        }
        r
    }

    /// `Path::file_name`.
    pub fn file_name(&self) -> (r: Option<String>)
        ensures
            match r {
                Some(n) => file_name_model(self@) == Some(n@),
                None => file_name_model(self@) is None,
            },
    {
        let n = self.parts.len();
        if n == 0 {
            return None;
        }
        let last = &self.parts[n - 1];
        if is_dot_dot(last.as_str()) {
            return None;
        }
        Some(last.clone())
    }

    /// `Path::parent`.
    pub fn parent(&self) -> (r: Option<ContentPath>)
        ensures
            match r {
                Some(p) => parent_model(self@) == Some(p@),
                None => parent_model(self@) is None,
            },
    {
        if self.parts.len() == 0 {
            return None;
        }
        let mut p = self.duplicate();
        let _ = p.parts.pop();
        proof {
            assert(p@.parts =~= self@.parts.drop_last());
        }
        Some(p)
    }

    /// `Path::strip_prefix`.
    pub fn strip_prefix(&self, base: &ContentPath) -> (r: Option<ContentPath>)
        ensures
            match r {
                Some(p) => strip_prefix_model(self@, base@) == Some(p@),
                None => strip_prefix_model(self@, base@) is None,
            },
    {
        if !self.starts_with(base) {
            return None;
        }
        let mut parts: Vec<String> = Vec::new();
        let mut i: usize = base.parts.len();
        while i < self.parts.len()
            invariant
                base.parts.len() <= i <= self.parts.len(),
                names_of(parts@) == self@.parts.subrange(base@.parts.len() as int, i as int),
            decreases self.parts.len() - i,
        {
            let p = self.parts[i].clone();
            let ghost before = parts@;
            parts.push(p);
            proof {
                lemma_names_push(before, p);
                lemma_names_take(self.parts@, i as int);
                assert(names_of(parts@) =~= self@.parts.subrange(base@.parts.len() as int, i + 1));
            }
            i = i + 1;
        }
        Some(ContentPath { rooted: false, parts })
    }

    /// The path as `/`-separated text.
    pub fn display(&self) -> (r: String)
        ensures
            r@ == display_model(self@),
    {
        let mut out = String::new();
        let mut i: usize = 0;
        while i < self.parts.len()
            invariant
                i <= self.parts.len(),
                out@ == join_names(self@.parts.take(i as int)),
            decreases self.parts.len() - i,
        {
            proof {
                assert(self@.parts.take(i + 1).drop_last() =~= self@.parts.take(i as int));
            }
            if i > 0 {
                push_char(&mut out, '/');
            }
            out.append(self.parts[i].as_str());
            proof {
                if i == 0 {
                    assert(out@ =~= join_names(self@.parts.take(1)));
                } else {
                    assert(out@ =~= join_names(self@.parts.take(i + 1)));
                }
            }
            i = i + 1;
        }
        proof {
            assert(self@.parts.take(self@.parts.len() as int) =~= self@.parts);
        }
        if self.rooted {
            let mut rooted = String::new();
            push_char(&mut rooted, '/');
            rooted.append(out.as_str());
            rooted
        } else {
            out
        }
    }
}

/// A name read from text is kept unless it is empty or `.`.
pub open spec fn keep_name(done: Seq<Seq<char>>, cur: Seq<char>) -> Seq<Seq<char>> {
    if cur.len() == 0 || cur == seq!['.'] {
        done
    } else {
        done.push(cur)
    }
}

/// Reading `s` from the left: the names finished so far and the name being read.
pub open spec fn scan_path(s: Seq<char>) -> (Seq<Seq<char>>, Seq<char>)
    decreases s.len(),
{
    if s.len() == 0 {
        (seq![], seq![])
    } else {
        let prev = scan_path(s.drop_last());
        if s.last() == '/' {
            (keep_name(prev.0, prev.1), seq![])
        } else {
            (prev.0, prev.1.push(s.last()))
        }
    }
}

/// The path that `/`-separated text names (`Path::new(..).components()`):
/// empty names and `.` are dropped, a leading `/` makes it rooted.
pub open spec fn parse_model(s: Seq<char>) -> PathModel {
    PathModel {
        rooted: s.len() > 0 && s[0] == '/',
        parts: keep_name(scan_path(s).0, scan_path(s).1),
    }
}

/// Whether `s` is empty or `.`.
fn is_skipped_name(s: &String) -> (r: bool)
    ensures
        r == (s@.len() == 0 || s@ == seq!['.']),
{
    let n = s.as_str().unicode_len();
    if n == 0 {
        return true;
    }
    if n == 1 && s.as_str().get_char(0) == '.' {
        proof {
            assert(s@ =~= seq!['.']);
        }
        return true;
    }
    proof {
        if s@ == seq!['.'] {
            assert(s@.len() == 1);
        }
    }
    false
}

impl ContentPath {
    /// The path that `/`-separated text names; see `parse_model`.
    pub fn parse(text: &str) -> (r: ContentPath)
        ensures
            r@ == parse_model(text@),
    {
        let len = text.unicode_len();
        let mut parts: Vec<String> = Vec::new();
        let mut cur = String::new();
        let mut i: usize = 0;
        while i < len
            invariant
                i <= len,
                len == text@.len(),
                names_of(parts@) == scan_path(text@.take(i as int)).0,
                cur@ == scan_path(text@.take(i as int)).1,
            decreases len - i,
        {
            let c = text.get_char(i);
            proof {
                assert(text@.take(i + 1).drop_last() =~= text@.take(i as int));
                assert(text@.take(i + 1).last() == c);
            }
            if c == '/' {
                if !is_skipped_name(&cur) {
                    let ghost before = parts@;
                    let ghost name = cur;
                    parts.push(cur);
                    proof {
                        lemma_names_push(before, name);
                    }
                }
                cur = String::new();
                proof {
                    assert(cur@ =~= Seq::<char>::empty());
                }
            } else {
                push_char(&mut cur, c);
            }
            i = i + 1;
        }
        proof {
            assert(text@.take(len as int) =~= text@);
        }
        if !is_skipped_name(&cur) {
            let ghost before = parts@;
            let ghost name = cur;
            parts.push(cur);
            proof {
                lemma_names_push(before, name);
            }
        }
        let rooted = len > 0 && text.get_char(0) == '/';
        ContentPath { rooted, parts }
    }
}

/// File stem and extension of a path's file name, falling back to `item`
/// for a path without a file name.
pub open spec fn split_name_model(p: PathModel) -> (Seq<char>, Option<Seq<char>>) {
    match file_name_model(p) {
        Some(n) => (name_stem(n), name_extension(n)),
        None => (seq!['i', 't', 'e', 'm'], None),
    }
}

proof fn lemma_last_dot(name: Seq<char>)
    ensures
        -1 <= last_dot(name) < name.len(),
        last_dot(name) >= 0 ==> name[last_dot(name)] == '.',
    decreases name.len(),
{
    if name.len() > 0 && name.last() != '.' {
        lemma_last_dot(name.drop_last());
    }
}

/// Splitting a file name into stem and extension and putting the extension
/// back gives the name again, for every name that does not end in `.`
/// (for those the extension comes out empty and the dot is lost); and
/// putting back an empty extension leaves the stem alone.
pub proof fn lemma_split_name_round_trip(p: PathModel)
    requires
        file_name_model(p) is Some,
        file_name_model(p)->0.len() == 0 || file_name_model(p)->0.last() != '.',
    ensures
        with_extension(split_name_model(p).0, split_name_model(p).1) == file_name_model(p)->0,
        with_extension(split_name_model(p).0, Some(Seq::<char>::empty())) == split_name_model(p).0,
{
    let n = file_name_model(p)->0;
    lemma_last_dot(n);
    if !(n == seq!['.', '.'] || last_dot(n) <= 0) {
        let d = last_dot(n);
        assert(d < n.len() - 1);
        assert(n.subrange(0, d) + seq!['.'] + n.subrange(d + 1, n.len() as int) =~= n);
    }
}

/// Splits the path's file name into stem and extension; see
/// `split_name_model`.
pub fn split_name(path: &ContentPath) -> (r: (String, Option<String>))
    ensures
        r.0@ == split_name_model(path@).0,
        match r.1 {
            Some(e) => split_name_model(path@).1 == Some(e@),
            None => split_name_model(path@).1 is None,
        },
{
    match path.file_name() {
        Some(name) => (file_stem(name.as_str()), file_extension(name.as_str())),
        None => {
            proof {
                reveal_strlit("item");
            }
            (string_from("item"), None)
        },
    }
}

/// The path's file name, or `<item>` when it has none.
pub fn display_name(path: &ContentPath) -> (r: String)
    ensures
        r@ == match file_name_model(path@) {
            Some(n) => n,
            None => seq!['<', 'i', 't', 'e', 'm', '>'],
        },
{
    match path.file_name() {
        Some(n) => n,
        None => {
            proof {
                reveal_strlit("<item>");
            }
            string_from("<item>")
        },
    }
}

/// Name of the `n`-th candidate for a copy of `base`: `base`, then
/// `base 2`, `base 3`, ..., each with the extension applied.
pub open spec fn copy_candidate(base: Seq<char>, ext: Option<Seq<char>>, n: nat) -> Seq<char> {
    if n <= 1 {
        with_extension(base, ext)
    } else {
        with_extension(base + seq![' '] + decimal(n), ext)
    }
}

pub fn copy_candidate_name(base: &str, extension: Option<&str>, n: u64) -> (r: String)
    ensures
        r@ == copy_candidate(base@, opt_str_view(extension), n as nat),
{
    if n <= 1 {
        apply_extension(base, extension)
    } else {
        let mut stem = concat(base, " ");
        proof {
            reveal_strlit(" ");
        }
        let digits = decimal_string(n);
        stem.append(digits.as_str());
        apply_extension(stem.as_str(), extension)
    }
}

/// Whether the test `taken` was asked about a path with view `p` and gave
/// `ans`.
pub open spec fn answered<F: Fn(&ContentPath) -> bool>(taken: F, p: PathModel, ans: bool) -> bool {
    exists|q: ContentPath| q@ == p && #[trigger] call_ensures(taken, (&q,), ans)
}

/// Whether the file system (`path_exists`) was asked whether something is
/// at a path with view `p`, and answered `ans`.
pub closed spec fn disk_answered(p: PathModel, ans: bool) -> bool {
    answered(path_exists, p, ans)
}

/// Asks the file system whether something is at `path`.
pub fn exists_on_disk(path: &ContentPath) -> (r: bool)
    ensures
        disk_answered(path@, r),
{
    let ask = path_exists;
    let r = ask(path);
    proof {
        assert(call_ensures(path_exists, (path,), r));
    }
    r
}

/// Whether the file system (`path_is_dir`) was asked whether a folder is at
/// a path with view `p`, and answered `ans`.
pub closed spec fn dir_answered(p: PathModel, ans: bool) -> bool {
    answered(path_is_dir, p, ans)
}

/// Asks the file system whether a folder is at `path`.
pub fn is_dir_on_disk(path: &ContentPath) -> (r: bool)
    ensures
        dir_answered(path@, r),
{
    let ask = path_is_dir;
    let r = ask(path);
    proof {
        assert(call_ensures(path_is_dir, (path,), r));
    }
    r
}

/// What the test `exists_on_disk` answered is what the file system
/// answered.
pub proof fn lemma_answered_on_disk(p: PathModel, ans: bool)
    requires
        answered(exists_on_disk, p, ans),
    ensures
        disk_answered(p, ans),
{
    let q = choose|q: ContentPath| q@ == p && #[trigger] call_ensures(exists_on_disk, (&q,), ans);
}

/// The bound of the copy-name counter: candidates `1 ..= COPY_LIMIT - 1`
/// are tried, the positive values of the `i32` counter that the names are
/// numbered with, which overflows past the last of them.
pub const COPY_LIMIT: u64 = 0x8000_0000;

/// The path of the `n`-th copy candidate in `parent`.
pub open spec fn copy_path(parent: PathModel, base: Seq<char>, ext: Option<Seq<char>>, n: nat) -> PathModel {
    push_model(parent, copy_candidate(base, ext, n))
}

/// The first copy candidate for `base` in `parent` that `taken` says is
/// free, trying `base`, `base 2`, `base 3`, ... in order: the result is the
/// `n`-th candidate, `taken` answered "free" for it and "taken" for every
/// earlier one. `None` when it answered "taken" for every candidate the
/// counter reaches.
pub fn first_free_copy<F: Fn(&ContentPath) -> bool>(
    parent: &ContentPath,
    base: &str,
    extension: Option<&str>,
    taken: F,
) -> (r: Option<ContentPath>)
    requires
        forall|q: &ContentPath| #[trigger] taken.requires((q,)),
    ensures
        match r {
            Some(p) => exists|n: nat|
                #![trigger copy_candidate(base@, opt_str_view(extension), n)]
                {
                    &&& 1 <= n < COPY_LIMIT
                    &&& p@ == copy_path(parent@, base@, opt_str_view(extension), n)
                    &&& answered(taken, p@, false)
                    &&& forall|m: nat|
                        1 <= m < n ==> answered(
                            taken,
                            push_model(parent@, #[trigger] copy_candidate(base@, opt_str_view(extension), m)),
                            true,
                        )
                },
            None => forall|m: nat|
                1 <= m < COPY_LIMIT ==> answered(
                    taken,
                    push_model(parent@, #[trigger] copy_candidate(base@, opt_str_view(extension), m)),
                    true,
                ),
        },
{
    let mut counter: u64 = 1;
    while counter < COPY_LIMIT
        invariant
            1 <= counter <= COPY_LIMIT,
            forall|q: &ContentPath| #[trigger] taken.requires((q,)),
            forall|m: nat|
                1 <= m < counter ==> answered(
                    taken,
                    push_model(parent@, #[trigger] copy_candidate(base@, opt_str_view(extension), m)),
                    true,
                ),
        decreases COPY_LIMIT - counter,
    {
        let name = copy_candidate_name(base, extension, counter);
        let candidate = parent.join_name(name.as_str());
        let is_taken = taken(&candidate);
        if !is_taken {
            proof {
                assert(answered(taken, candidate@, false));
            }
            return Some(candidate);
        }
        proof {
            assert(answered(taken, candidate@, true));
            assert forall|m: nat|
                1 <= m < counter + 1 implies answered(
                taken,
                push_model(parent@, #[trigger] copy_candidate(base@, opt_str_view(extension), m)),
                true,
            ) by {
                if m == counter {
                    assert(candidate@ == push_model(parent@, copy_candidate(base@, opt_str_view(extension), m)));
                }
            }
        }
        counter = counter + 1;
    }
    None
}

/// The first candidate name for a copy of `base` in `parent` that is not
/// taken yet (`unique_path`): see `first_free_copy`, asking the file system
/// (`path_exists`) whether each candidate exists.
pub fn unique_path(parent: &ContentPath, base: &str, extension: Option<&str>) -> (r: Option<ContentPath>)
    ensures
        match r {
            Some(p) => exists|n: nat|
                #![trigger copy_candidate(base@, opt_str_view(extension), n)]
                {
                    &&& 1 <= n < COPY_LIMIT
                    &&& p@ == copy_path(parent@, base@, opt_str_view(extension), n)
                    &&& disk_answered(p@, false)
                    &&& forall|m: nat|
                        1 <= m < n ==> disk_answered(
                            push_model(parent@, #[trigger] copy_candidate(base@, opt_str_view(extension), m)),
                            true,
                        )
                },
            None => forall|m: nat|
                1 <= m < COPY_LIMIT ==> disk_answered(
                    push_model(parent@, #[trigger] copy_candidate(base@, opt_str_view(extension), m)),
                    true,
                ),
        },
{
    first_free_copy(parent, base, extension, path_exists)
}

/// Name of the `n`-th candidate folder for an imported asset: the base
/// name, then `base_01`, `base_02`, ...
pub open spec fn asset_folder_candidate(base: Seq<char>, n: nat) -> Seq<char> {
    if n == 0 {
        base
    } else {
        base + seq!['_'] + decimal_pad2(n)
    }
}

/// Base name used for imported asset folders: `base_name`, or `asset` when
/// it is empty.
pub open spec fn asset_folder_base(base_name: Seq<char>) -> Seq<char> {
    if base_name.len() == 0 { seq!['a', 's', 's', 'e', 't'] } else { base_name }
}

pub fn asset_folder_candidate_name(base: &str, n: u64) -> (r: String)
    ensures
        r@ == asset_folder_candidate(base@, n as nat),
{
    if n == 0 {
        string_from(base)
    } else {
        let mut s = concat(base, "_");
        proof {
            reveal_strlit("_");
        }
        let digits = decimal_string_pad2(n);
        s.append(digits.as_str());
        s
    }
}

/// The first folder for an asset named after `base_name` (`asset` when it
/// is empty) in `destination_root` that `taken` says is free, trying
/// `base`, `base_01`, `base_02`, ... in order: the result is the `n`-th
/// candidate, `taken` answered "free" for it and "taken" for every earlier
/// one. `None` when it answered "taken" for every candidate the counter
/// reaches.
pub fn first_free_asset_folder<F: Fn(&ContentPath) -> bool>(
    destination_root: &ContentPath,
    base_name: &str,
    taken: F,
) -> (r: Option<ContentPath>)
    requires
        forall|q: &ContentPath| #[trigger] taken.requires((q,)),
    ensures
        match r {
            Some(p) => exists|n: nat|
                #![trigger asset_folder_candidate(asset_folder_base(base_name@), n)]
                {
                    &&& n <= u64::MAX
                    &&& p@ == push_model(destination_root@, asset_folder_candidate(asset_folder_base(base_name@), n))
                    &&& answered(taken, p@, false)
                    &&& forall|m: nat|
                        m < n ==> answered(
                            taken,
                            push_model(destination_root@, #[trigger] asset_folder_candidate(asset_folder_base(base_name@), m)),
                            true,
                        )
                },
            None => forall|m: nat|
                m <= u64::MAX ==> answered(
                    taken,
                    push_model(destination_root@, #[trigger] asset_folder_candidate(asset_folder_base(base_name@), m)),
                    true,
                ),
        },
{
    let sanitized = if base_name.unicode_len() == 0 {
        proof {
            reveal_strlit("asset");
        }
        string_from("asset")
    } else {
        string_from(base_name)
    };
    let mut counter: u64 = 0;
    loop
        invariant
            sanitized@ == asset_folder_base(base_name@),
            forall|q: &ContentPath| #[trigger] taken.requires((q,)),
            forall|m: nat|
                m < counter ==> answered(
                    taken,
                    push_model(destination_root@, #[trigger] asset_folder_candidate(asset_folder_base(base_name@), m)),
                    true,
                ),
        decreases u64::MAX - counter,
    {
        let name = asset_folder_candidate_name(sanitized.as_str(), counter);
        let candidate = destination_root.join_name(name.as_str());
        let is_taken = taken(&candidate);
        if !is_taken {
            proof {
                assert(answered(taken, candidate@, false));
            }
            return Some(candidate);
        }
        proof {
            assert(answered(taken, candidate@, true));
            assert forall|m: nat|
                m < counter + 1 implies answered(
                taken,
                push_model(destination_root@, #[trigger] asset_folder_candidate(asset_folder_base(base_name@), m)),
                true,
            ) by {
                if m == counter {
                    assert(candidate@ == push_model(
                        destination_root@,
                        asset_folder_candidate(asset_folder_base(base_name@), m),
                    ));
                }
            }
        }
        if counter == u64::MAX {
            return None;
        }
        counter = counter + 1;
    }
}

/// A folder in `destination_root` that is not taken yet, named after
/// `base_name` (`unique_asset_folder`): see `first_free_asset_folder`,
/// asking the file system (`path_exists`) whether each candidate exists.
pub fn unique_asset_folder(destination_root: &ContentPath, base_name: &str) -> (r: Option<ContentPath>)
    ensures
        match r {
            Some(p) => exists|n: nat|
                #![trigger asset_folder_candidate(asset_folder_base(base_name@), n)]
                {
                    &&& n <= u64::MAX
                    &&& p@ == push_model(destination_root@, asset_folder_candidate(asset_folder_base(base_name@), n))
                    &&& disk_answered(p@, false)
                    &&& forall|m: nat|
                        m < n ==> disk_answered(
                            push_model(destination_root@, #[trigger] asset_folder_candidate(asset_folder_base(base_name@), m)),
                            true,
                        )
                },
            None => forall|m: nat|
                m <= u64::MAX ==> disk_answered(
                    push_model(destination_root@, #[trigger] asset_folder_candidate(asset_folder_base(base_name@), m)),
                    true,
                ),
        },
{
    first_free_asset_folder(destination_root, base_name, path_exists)
}

} // verus!
