//! Character classes and small string builders shared by the naming rules.

use vstd::prelude::*;

verus! {

/// ASCII letters and digits, as `char::is_ascii_alphanumeric` classifies them.
pub open spec fn is_ascii_alnum(c: char) -> bool {
    ('0' <= c && c <= '9') || ('a' <= c && c <= 'z') || ('A' <= c && c <= 'Z')
}

/// ASCII lower-casing, as `char::to_ascii_lowercase` maps a character.
pub open spec fn ascii_lower(c: char) -> char {
    if 'A' <= c && c <= 'Z' {
        ((c as u32) + 32) as char
    } else {
        c
    }
}

pub fn char_is_ascii_alnum(c: char) -> (r: bool)
    ensures
        r == is_ascii_alnum(c),
{
    ('0' <= c && c <= '9') || ('a' <= c && c <= 'z') || ('A' <= c && c <= 'Z')
}

pub fn char_to_ascii_lower(c: char) -> (r: char)
    ensures
        r == ascii_lower(c),
{
    if 'A' <= c && c <= 'Z' {
        let code: u32 = (c as u32) + 32;
        let byte: u8 = code as u8;
        byte as char
    } else {
        c
    }
}

/// Appends one character to a string (`String::push`).
#[verifier::external_body]
pub(crate) fn push_char(s: &mut String, c: char)
    ensures
        final(s)@ == old(s)@.push(c),
{
    s.push(c);
}

} // verus!

verus! {

/// Left-to-right rewrite used by the stem sanitizers: ASCII letters and digits
/// are kept (lower-cased when `lower`), every other run of characters becomes
/// one `_`.
pub open spec fn collapse_separators(s: Seq<char>, lower: bool) -> Seq<char>
    decreases s.len(),
{
    if s.len() == 0 {
        seq![]
    } else {
        let acc = collapse_separators(s.drop_last(), lower);
        let c = s.last();
        if is_ascii_alnum(c) {
            acc.push(if lower { ascii_lower(c) } else { c })
        } else if acc.len() > 0 && acc.last() == '_' {
            acc
        } else {
            acc.push('_')
        }
    }
}

/// `s` without the leading characters equal to `ch`.
pub open spec fn trim_start_char(s: Seq<char>, ch: char) -> Seq<char>
    decreases s.len(),
{
    if s.len() > 0 && s[0] == ch {
        trim_start_char(s.drop_first(), ch)
    } else {
        s
    }
}

/// `s` without the trailing characters equal to `ch`.
pub open spec fn trim_end_char(s: Seq<char>, ch: char) -> Seq<char>
    decreases s.len(),
{
    if s.len() > 0 && s.last() == ch {
        trim_end_char(s.drop_last(), ch)
    } else {
        s
    }
}

/// `str::trim_matches` with a single character pattern.
pub open spec fn trim_char(s: Seq<char>, ch: char) -> Seq<char> {
    trim_end_char(trim_start_char(s, ch), ch)
}

/// A character a file stem may hold: an ASCII letter or digit, or `_`.
pub open spec fn is_stem_char(c: char) -> bool {
    is_ascii_alnum(c) || c == '_'
}

proof fn lemma_collapse_chars(s: Seq<char>, lower: bool)
    ensures
        forall|i: int|
            0 <= i < collapse_separators(s, lower).len() ==> is_stem_char(#[trigger] collapse_separators(s, lower)[i]),
        lower ==> forall|i: int|
            0 <= i < collapse_separators(s, lower).len() ==> !('A' <= #[trigger] collapse_separators(s, lower)[i]
                && collapse_separators(s, lower)[i] <= 'Z'),
    decreases s.len(),
{
    if s.len() > 0 {
        lemma_collapse_chars(s.drop_last(), lower);
        let acc = collapse_separators(s.drop_last(), lower);
        let r = collapse_separators(s, lower);
        let c = s.last();
        if is_ascii_alnum(c) {
            let d = if lower {
                ascii_lower(c)
            } else {
                c
            };
            assert(r == acc.push(d));
            if lower && 'A' <= c && c <= 'Z' {
                lemma_ascii_lower_upper(c);
            }
            assert(is_stem_char(d));
            assert forall|i: int| 0 <= i < r.len() implies is_stem_char(#[trigger] r[i]) by {
                if i < acc.len() {
                    assert(r[i] == acc[i]);
                }
            }
            if lower {
                assert forall|i: int| 0 <= i < r.len() implies !('A' <= #[trigger] r[i] && r[i] <= 'Z') by {
                    if i < acc.len() {
                        assert(r[i] == acc[i]);
                    }
                }
            }
        } else if acc.len() > 0 && acc.last() == '_' {
        } else {
            assert(r == acc.push('_'));
            assert forall|i: int| 0 <= i < r.len() implies is_stem_char(#[trigger] r[i]) by {
                if i < acc.len() {
                    assert(r[i] == acc[i]);
                }
            }
            if lower {
                assert forall|i: int| 0 <= i < r.len() implies !('A' <= #[trigger] r[i] && r[i] <= 'Z') by {
                    if i < acc.len() {
                        assert(r[i] == acc[i]);
                    }
                }
            }
        }
    }
}

proof fn lemma_ascii_lower_upper(c: char)
    requires
        'A' <= c && c <= 'Z',
    ensures
        'a' <= ascii_lower(c) && ascii_lower(c) <= 'z',
{
    assert('A' as u32 == 65);
    assert('Z' as u32 == 90);
    assert(65 <= (c as u32) && (c as u32) <= 90);
    assert((((c as u32) + 32) as char) as u32 == (c as u32) + 32);
}

proof fn lemma_trim_start(s: Seq<char>, ch: char)
    ensures
        exists|k: int| 0 <= k <= s.len() && trim_start_char(s, ch) == s.skip(k),
        trim_start_char(s, ch).len() > 0 ==> trim_start_char(s, ch)[0] != ch,
    decreases s.len(),
{
    if s.len() > 0 && s[0] == ch {
        lemma_trim_start(s.drop_first(), ch);
        let k = choose|k: int|
            0 <= k <= s.drop_first().len() && trim_start_char(s.drop_first(), ch) == s.drop_first().skip(k);
        assert(s.drop_first().skip(k) =~= s.skip(k + 1));
    } else {
        assert(s.skip(0) =~= s);
    }
}

proof fn lemma_trim_end(s: Seq<char>, ch: char)
    ensures
        exists|k: int| 0 <= k <= s.len() && trim_end_char(s, ch) == s.take(k),
        trim_end_char(s, ch).len() > 0 ==> trim_end_char(s, ch).last() != ch,
    decreases s.len(),
{
    if s.len() > 0 && s.last() == ch {
        lemma_trim_end(s.drop_last(), ch);
        let k = choose|k: int| 0 <= k <= s.drop_last().len() && trim_end_char(s.drop_last(), ch) == s.drop_last().take(k);
        assert(s.drop_last().take(k) =~= s.take(k));
    } else {
        assert(s.take(s.len() as int) =~= s);
    }
}

proof fn lemma_trimmed_stem(s: Seq<char>, lower: bool)
    ensures
        forall|i: int|
            0 <= i < trim_char(collapse_separators(s, lower), '_').len() ==> is_stem_char(
                #[trigger] trim_char(collapse_separators(s, lower), '_')[i],
            ),
        lower ==> forall|i: int|
            0 <= i < trim_char(collapse_separators(s, lower), '_').len() ==> !('A' <= #[trigger] trim_char(
                collapse_separators(s, lower),
                '_',
            )[i] && trim_char(collapse_separators(s, lower), '_')[i] <= 'Z'),
        trim_char(collapse_separators(s, lower), '_').len() > 0 ==> {
            &&& trim_char(collapse_separators(s, lower), '_')[0] != '_'
            &&& trim_char(collapse_separators(s, lower), '_').last() != '_'
        },
{
    let c = collapse_separators(s, lower);
    lemma_collapse_chars(s, lower);
    lemma_trim_start(c, '_');
    let k1 = choose|k: int| 0 <= k <= c.len() && trim_start_char(c, '_') == c.skip(k);
    let t1 = trim_start_char(c, '_');
    lemma_trim_end(t1, '_');
    let k2 = choose|k: int| 0 <= k <= t1.len() && trim_end_char(t1, '_') == t1.take(k);
    let t = trim_char(c, '_');
    assert forall|i: int| 0 <= i < t.len() implies #[trigger] t[i] == c[k1 + i] by {
        assert(t[i] == t1[i]);
    }
    if t.len() > 0 {
        assert(t[0] == t1[0]);
    }
}

/// What the project stem sanitizer gives is a usable file stem: never
/// empty, only ASCII letters, digits and `_`, and no `_` at either end.
pub proof fn lemma_project_stem_is_safe(name: Seq<char>)
    ensures
        project_stem(name).len() > 0,
        forall|i: int| 0 <= i < project_stem(name).len() ==> is_stem_char(#[trigger] project_stem(name)[i]),
        project_stem(name)[0] != '_',
        project_stem(name).last() != '_',
{
    lemma_trimmed_stem(name, false);
    let t = trim_char(collapse_separators(name, false), '_');
    if t.len() == 0 {
        assert(project_stem(name) == seq!['p', 'r', 'o', 'j', 'e', 'c', 't']);
        assert(is_stem_char('p') && is_stem_char('r') && is_stem_char('o') && is_stem_char('j') && is_stem_char('e')
            && is_stem_char('c') && is_stem_char('t'));
    }
}

/// Whether no two `_` stand next to each other in `t`.
pub open spec fn no_double_sep(t: Seq<char>) -> bool {
    forall|i: int, j: int| 0 <= i && j == i + 1 && j < t.len() ==> !(#[trigger] t[i] == '_' && #[trigger] t[j] == '_')
}

/// The ASCII letters and digits of `s`, in order.
pub open spec fn alnum_chars(s: Seq<char>) -> Seq<char> {
    s.filter(|c: char| is_ascii_alnum(c))
}

proof fn lemma_collapse_keeps_alnum(s: Seq<char>)
    ensures
        alnum_chars(collapse_separators(s, false)) == alnum_chars(s),
    decreases s.len(),
{
    reveal(Seq::filter);
    if s.len() > 0 {
        lemma_collapse_keeps_alnum(s.drop_last());
        let acc = collapse_separators(s.drop_last(), false);
        let c = s.last();
        if is_ascii_alnum(c) {
            assert(acc.push(c).drop_last() =~= acc);
        } else if acc.len() > 0 && acc.last() == '_' {
        } else {
            assert(acc.push('_').drop_last() =~= acc);
        }
    }
}

proof fn lemma_collapse_no_double(s: Seq<char>, lower: bool)
    ensures
        no_double_sep(collapse_separators(s, lower)),
    decreases s.len(),
{
    if s.len() > 0 {
        lemma_collapse_no_double(s.drop_last(), lower);
        let acc = collapse_separators(s.drop_last(), lower);
        let r = collapse_separators(s, lower);
        assert forall|i: int, j: int| 0 <= i && j == i + 1 && j < r.len() implies !(#[trigger] r[i] == '_'
            && #[trigger] r[j] == '_') by {
            if j < acc.len() {
                assert(r[i] == acc[i] && r[j] == acc[j]);
            } else if r.len() > acc.len() {
                assert(r[i] == acc[i]);
            } else {
                assert(r[i] == acc[i] && r[j] == acc[j]);
            }
        }
    }
}

proof fn lemma_trim_start_keeps_alnum(s: Seq<char>)
    ensures
        alnum_chars(trim_start_char(s, '_')) == alnum_chars(s),
    decreases s.len(),
{
    if s.len() > 0 && s[0] == '_' {
        lemma_trim_start_keeps_alnum(s.drop_first());
        assert(s =~= seq![s[0]] + s.drop_first());
        s.drop_first().lemma_filter_prepend(s[0], |c: char| is_ascii_alnum(c));
        assert(Seq::<char>::empty() + alnum_chars(s.drop_first()) =~= alnum_chars(s.drop_first()));
    }
}

proof fn lemma_trim_end_keeps_alnum(s: Seq<char>)
    ensures
        alnum_chars(trim_end_char(s, '_')) == alnum_chars(s),
    decreases s.len(),
{
    reveal(Seq::filter);
    if s.len() > 0 && s.last() == '_' {
        lemma_trim_end_keeps_alnum(s.drop_last());
    }
}

proof fn lemma_trim_no_double(s: Seq<char>)
    requires
        no_double_sep(s),
    ensures
        no_double_sep(trim_char(s, '_')),
{
    lemma_trim_start(s, '_');
    let k1 = choose|k: int| 0 <= k <= s.len() && trim_start_char(s, '_') == s.skip(k);
    let t1 = trim_start_char(s, '_');
    lemma_trim_end(t1, '_');
    let k2 = choose|k: int| 0 <= k <= t1.len() && trim_end_char(t1, '_') == t1.take(k);
    let t = trim_char(s, '_');
    assert forall|i: int, j: int| 0 <= i && j == i + 1 && j < t.len() implies !(#[trigger] t[i] == '_'
        && #[trigger] t[j] == '_') by {
        assert(t[i] == s[k1 + i] && t[j] == s[k1 + j]);
    }
}

/// A stem whose characters are ASCII letters, digits and single `_`s is
/// left as it is by collapsing.
proof fn lemma_collapse_fixed(t: Seq<char>)
    requires
        forall|i: int| 0 <= i < t.len() ==> is_stem_char(#[trigger] t[i]),
        no_double_sep(t),
    ensures
        collapse_separators(t, false) == t,
    decreases t.len(),
{
    if t.len() > 0 {
        let p = t.drop_last();
        assert forall|i: int| 0 <= i < p.len() implies is_stem_char(#[trigger] p[i]) by {
            assert(p[i] == t[i]);
        }
        assert forall|i: int, j: int| 0 <= i && j == i + 1 && j < p.len() implies !(#[trigger] p[i] == '_'
            && #[trigger] p[j] == '_') by {
            assert(p[i] == t[i] && p[j] == t[j]);
        }
        lemma_collapse_fixed(p);
        assert(is_stem_char(t[t.len() - 1]));
        if p.len() > 0 {
            assert(p.last() == t[t.len() - 2]);
            assert(!(t[t.len() - 2] == '_' && t[t.len() - 1] == '_'));
        }
        assert(p.push(t.last()) =~= t);
    }
}

/// The project stem sanitizer keeps the ASCII letters and digits of the
/// name, in order and with their case, and nothing else but single `_`
/// between runs of them: no two `_` stand together. A name without ASCII
/// letters or digits gives `project`. Sanitizing a stem it gave changes
/// nothing.
pub proof fn lemma_project_stem_laws(name: Seq<char>)
    ensures
        no_double_sep(project_stem(name)),
        alnum_chars(name).len() > 0 ==> alnum_chars(project_stem(name)) == alnum_chars(name),
        alnum_chars(name).len() == 0 ==> project_stem(name) == seq!['p', 'r', 'o', 'j', 'e', 'c', 't'],
        project_stem(project_stem(name)) == project_stem(name),
{
    let c = collapse_separators(name, false);
    let t = trim_char(c, '_');
    lemma_collapse_keeps_alnum(name);
    lemma_trim_start_keeps_alnum(c);
    lemma_trim_end_keeps_alnum(trim_start_char(c, '_'));
    assert(alnum_chars(t) == alnum_chars(name));
    lemma_collapse_no_double(name, false);
    lemma_trim_no_double(c);
    lemma_project_stem_is_safe(name);
    let r = project_stem(name);
    if t.len() > 0 {
        assert(is_stem_char(t[0]) && t[0] != '_');
        t.lemma_filter_contains(|c: char| is_ascii_alnum(c), 0);
        assert(alnum_chars(t).contains(t[0]));
        assert(alnum_chars(name).len() > 0);
    } else {
        reveal(Seq::filter);
        assert(alnum_chars(t).len() == 0);
    }
    assert forall|i: int, j: int| 0 <= i && j == i + 1 && j < r.len() implies !(#[trigger] r[i] == '_'
        && #[trigger] r[j] == '_') by {
        if t.len() == 0 {
            assert(r == seq!['p', 'r', 'o', 'j', 'e', 'c', 't']);
        }
    }
    lemma_collapse_fixed(r);
    assert(trim_start_char(r, '_') == r);
    assert(trim_end_char(r, '_') == r);
}

/// What the shader stem sanitizer gives holds only lower-case ASCII
/// letters, digits and `_`, with no `_` at either end (it may be empty).
pub proof fn lemma_shader_stem_is_safe(name: Seq<char>)
    ensures
        forall|i: int| 0 <= i < shader_stem(name).len() ==> is_stem_char(#[trigger] shader_stem(name)[i]),
        forall|i: int|
            0 <= i < shader_stem(name).len() ==> !('A' <= #[trigger] shader_stem(name)[i] && shader_stem(name)[i] <= 'Z'),
        shader_stem(name).len() > 0 ==> shader_stem(name)[0] != '_' && shader_stem(name).last() != '_',
{
    lemma_trimmed_stem(name, true);
}

/// Copies `s` into a new `String`.
pub fn string_from(s: &str) -> (r: String)
    ensures
        r@ == s@,
{
    <String as StringExecFns>::from_str(s)
}

/// `str::trim_matches(ch)`, producing an owned string.
pub fn trim_matches_char(s: &str, ch: char) -> (r: String)
    ensures
        r@ == trim_char(s@, ch),
{
    let len = s.unicode_len();
    let ghost full = s@;
    let mut a: usize = 0;
    proof {
        assert(full.subrange(0, len as int) =~= full);
    }
    while a < len && s.get_char(a) == ch
        invariant
            len == full.len(),
            s@ == full,
            a <= len,
            trim_start_char(full, ch) == trim_start_char(full.subrange(a as int, len as int), ch),
        decreases len - a,
    {
        proof {
            let t = full.subrange(a as int, len as int);
            assert(t.drop_first() =~= full.subrange(a + 1, len as int));
        }
        a = a + 1;
    }
    proof {
        let t = full.subrange(a as int, len as int);
        if a < len {
            assert(t[0] == full[a as int]);
        }
    }
    let mut b: usize = len;
    while b > a && s.get_char(b - 1) == ch
        invariant
            len == full.len(),
            s@ == full,
            a <= b <= len,
            trim_start_char(full, ch) == full.subrange(a as int, len as int),
            trim_end_char(full.subrange(a as int, len as int), ch) == trim_end_char(
                full.subrange(a as int, b as int),
                ch,
            ),
        decreases b - a,
    {
        proof {
            let t = full.subrange(a as int, b as int);
            assert(t.drop_last() =~= full.subrange(a as int, b - 1));
        }
        b = b - 1;
    }
    proof {
        let t = full.subrange(a as int, b as int);
        if b > a {
            assert(t.last() == full[b - 1]);
        }
    }
    let piece = s.substring_char(a, b);
    string_from(piece)
}

/// Shared loop of the two stem sanitizers.
fn collapse_into(name: &str, lower: bool) -> (r: String)
    ensures
        r@ == collapse_separators(name@, lower),
{
    let len = name.unicode_len();
    let mut out = String::new();
    let mut i: usize = 0;
    while i < len
        invariant
            len == name@.len(),
            i <= len,
            out@ == collapse_separators(name@.take(i as int), lower),
        decreases len - i,
    {
        let c = name.get_char(i);
        proof {
            assert(name@.take(i + 1).drop_last() =~= name@.take(i as int));
        }
        if char_is_ascii_alnum(c) {
            let pushed = if lower { char_to_ascii_lower(c) } else { c };
            push_char(&mut out, pushed);
        } else {
            let olen = out.as_str().unicode_len();
            let ends_with_sep = olen > 0 && out.as_str().get_char(olen - 1) == '_';
            if !ends_with_sep {
                push_char(&mut out, '_');
            }
        }
        i = i + 1;
    }
    proof {
        assert(name@.take(len as int) =~= name@);
    }
    out
}

/// What `sanitize_project_stem` makes of a project name.
pub open spec fn project_stem(name: Seq<char>) -> Seq<char> {
    let t = trim_char(collapse_separators(name, false), '_');
    if t.len() == 0 {
        seq!['p', 'r', 'o', 'j', 'e', 'c', 't']
    } else {
        t
    }
}

/// What `sanitize_shader_stem` makes of a shader or entity name.
pub open spec fn shader_stem(name: Seq<char>) -> Seq<char> {
    trim_char(collapse_separators(name, true), '_')
}

/// Turns a project name into a file stem: ASCII letters and digits are kept,
/// each run of other characters becomes one `_`, surrounding `_` are trimmed,
/// and an empty result falls back to `project`.
pub fn sanitize_project_stem(name: &str) -> (r: String)
    ensures
        r@ == project_stem(name@),
{
    let collapsed = collapse_into(name, false);
    let trimmed = trim_matches_char(collapsed.as_str(), '_');
    if trimmed.as_str().unicode_len() == 0 {
        let fallback = "project";
        proof {
            reveal_strlit("project");
        }
        string_from(fallback)
    } else {
        trimmed
    }
}

/// Turns a name into a lower-case shader file stem; the result may be empty.
pub fn sanitize_shader_stem(name: &str) -> (r: String)
    ensures
        r@ == shader_stem(name@),
{
    let collapsed = collapse_into(name, true);
    trim_matches_char(collapsed.as_str(), '_')
}

} // verus!

verus! {

/// The characters with the Unicode `White_Space` property, which
/// `char::is_whitespace` and `str::trim` go by.
pub open spec fn is_unicode_whitespace(c: char) -> bool {
    ||| ('\t' <= c && c <= '\r')
    ||| c == ' '
    ||| c == '\u{85}'
    ||| c == '\u{a0}'
    ||| c == '\u{1680}'
    ||| ('\u{2000}' <= c && c <= '\u{200a}')
    ||| c == '\u{2028}'
    ||| c == '\u{2029}'
    ||| c == '\u{202f}'
    ||| c == '\u{205f}'
    ||| c == '\u{3000}'
}

pub fn char_is_whitespace(c: char) -> (r: bool)
    ensures
        r == is_unicode_whitespace(c),
{
    ('\t' <= c && c <= '\r') || c == ' ' || c == '\u{85}' || c == '\u{a0}' || c == '\u{1680}'
        || ('\u{2000}' <= c && c <= '\u{200a}') || c == '\u{2028}' || c == '\u{2029}' || c == '\u{202f}'
        || c == '\u{205f}' || c == '\u{3000}'
}

/// `s` without leading whitespace.
pub open spec fn trim_start_ws(s: Seq<char>) -> Seq<char>
    decreases s.len(),
{
    if s.len() > 0 && is_unicode_whitespace(s[0]) {
        trim_start_ws(s.drop_first())
    } else {
        s
    }
}

/// `s` without trailing whitespace.
pub open spec fn trim_end_ws(s: Seq<char>) -> Seq<char>
    decreases s.len(),
{
    if s.len() > 0 && is_unicode_whitespace(s.last()) {
        trim_end_ws(s.drop_last())
    } else {
        s
    }
}

/// `str::trim`.
pub open spec fn trim_ws(s: Seq<char>) -> Seq<char> {
    trim_end_ws(trim_start_ws(s))
}

/// `str::trim`, producing an owned string.
pub fn trim_whitespace(s: &str) -> (r: String)
    ensures
        r@ == trim_ws(s@),
{
    let len = s.unicode_len();
    let ghost full = s@;
    let mut a: usize = 0;
    proof {
        assert(full.subrange(0, len as int) =~= full);
    }
    while a < len && char_is_whitespace(s.get_char(a))
        invariant
            len == full.len(),
            s@ == full,
            a <= len,
            trim_start_ws(full) == trim_start_ws(full.subrange(a as int, len as int)),
        decreases len - a,
    {
        proof {
            let t = full.subrange(a as int, len as int);
            assert(t.drop_first() =~= full.subrange(a + 1, len as int));
        }
        a = a + 1;
    }
    proof {
        let t = full.subrange(a as int, len as int);
        if a < len {
            assert(t[0] == full[a as int]);
        }
    }
    let mut b: usize = len;
    while b > a && char_is_whitespace(s.get_char(b - 1))
        invariant
            len == full.len(),
            s@ == full,
            a <= b <= len,
            trim_start_ws(full) == full.subrange(a as int, len as int),
            trim_end_ws(full.subrange(a as int, len as int)) == trim_end_ws(full.subrange(a as int, b as int)),
        decreases b - a,
    {
        proof {
            let t = full.subrange(a as int, b as int);
            assert(t.drop_last() =~= full.subrange(a as int, b - 1));
        }
        b = b - 1;
    }
    proof {
        let t = full.subrange(a as int, b as int);
        if b > a {
            assert(t.last() == full[b - 1]);
        }
    }
    let piece = s.substring_char(a, b);
    string_from(piece)
}

/// Concatenation of two strings.
pub fn concat(a: &str, b: &str) -> (r: String)
    ensures
        r@ == a@ + b@,
{
    let mut out = string_from(a);
    out.append(b);
    out
}

/// Whether `prefix` begins `s`.
pub open spec fn has_prefix(s: Seq<char>, prefix: Seq<char>) -> bool {
    prefix.len() <= s.len() && s.subrange(0, prefix.len() as int) == prefix
}

/// Whether `s` begins with `prefix`.
pub fn starts_with(s: &str, prefix: &str) -> (r: bool)
    ensures
        r == has_prefix(s@, prefix@),
{
    let n = prefix.unicode_len();
    let m = s.unicode_len();
    if n > m {
        return false;
    }
    let mut i: usize = 0;
    while i < n
        invariant
            n == prefix@.len(),
            m == s@.len(),
            n <= m,
            i <= n,
            forall|j: int| 0 <= j < i ==> s@[j] == prefix@[j],
        decreases n - i,
    {
        if s.get_char(i) != prefix.get_char(i) {
            proof {
                assert(s@.subrange(0, n as int)[i as int] != prefix@[i as int]);
            }
            return false;
        }
        i = i + 1;
    }
    proof {
        assert(s@.subrange(0, n as int) =~= prefix@);
    }
    true
}

/// Whether `needle` occurs in `s` starting at position `at`.
pub open spec fn occurs_at(s: Seq<char>, needle: Seq<char>, at: int) -> bool {
    0 <= at && at + needle.len() <= s.len() && s.subrange(at, at + needle.len()) == needle
}

/// Whether `needle` occurs anywhere in `s` (`str::contains`).
pub open spec fn contains_seq(s: Seq<char>, needle: Seq<char>) -> bool {
    exists|at: int| occurs_at(s, needle, at)
}

pub fn contains_str(s: &str, needle: &str) -> (r: bool)
    ensures
        r == contains_seq(s@, needle@),
{
    let n = needle.unicode_len();
    let m = s.unicode_len();
    if n > m {
        proof {
            assert forall|at: int| !occurs_at(s@, needle@, at) by {}
        }
        return false;
    }
    if n == 0 {
        proof {
            assert(s@.subrange(0, 0) =~= needle@);
            assert(occurs_at(s@, needle@, 0));
        }
        return true;
    }
    let mut at: usize = 0;
    while at <= m - n
        invariant
            n == needle@.len(),
            m == s@.len(),
            1 <= n <= m,
            at <= m - n + 1,
            forall|k: int| 0 <= k < at ==> !occurs_at(s@, needle@, k),
        decreases m - n + 1 - at,
    {
        let mut i: usize = 0;
        let mut ok = true;
        while i < n
            invariant
                n == needle@.len(),
                m == s@.len(),
                at + n <= m,
                i <= n,
                ok ==> forall|j: int| 0 <= j < i ==> s@[at + j] == needle@[j],
                !ok ==> !occurs_at(s@, needle@, at as int),
            decreases n - i,
        {
            if ok && s.get_char(at + i) != needle.get_char(i) {
                ok = false;
                proof {
                    assert(s@.subrange(at as int, at + n)[i as int] == s@[at + i]);
                }
            }
            i = i + 1;
        }
        if ok {
            proof {
                assert(s@.subrange(at as int, at + n) =~= needle@);
                assert(occurs_at(s@, needle@, at as int));
            }
            return true;
        }
        at = at + 1;
    }
    proof {
        assert forall|k: int| !occurs_at(s@, needle@, k) by {
            if 0 <= k && k + n <= m {
                assert(k < at);
            }
        }
    }
    false
}

/// The decimal digit for `d < 10`.
pub open spec fn digit_char(d: nat) -> char {
    (48 + d) as char
}

/// Decimal representation of `n`, without leading zeros.
pub open spec fn decimal(n: nat) -> Seq<char>
    decreases n,
{
    if n < 10 {
        seq![digit_char(n)]
    } else {
        decimal(n / 10).push(digit_char(n % 10))
    }
}

/// Decimal representation padded with zeros to at least two characters,
/// as `format!("{:02}", n)` writes it.
pub open spec fn decimal_pad2(n: nat) -> Seq<char> {
    if n < 10 {
        seq!['0', digit_char(n)]
    } else {
        decimal(n)
    }
}

fn push_decimal(out: &mut String, n: u64)
    ensures
        final(out)@ == old(out)@ + decimal(n as nat),
    decreases n,
{
    if n >= 10 {
        push_decimal(out, n / 10);
    }
    let d: u8 = (n % 10) as u8;
    let c: char = (48u8 + d) as char;
    proof {
        assert(c == digit_char((n % 10) as nat));
    }
    push_char(out, c);
    proof {
        if n >= 10 {
            assert(old(out)@ + decimal(n as nat) =~= old(out)@ + decimal((n / 10) as nat) + seq![c]);
        } else {
            assert(decimal(n as nat) =~= seq![c]);
        }
    }
}

/// `n.to_string()`.
pub fn decimal_string(n: u64) -> (r: String)
    ensures
        r@ == decimal(n as nat),
{
    let mut out = String::new();
    push_decimal(&mut out, n);
    proof {
        assert(Seq::<char>::empty() + decimal(n as nat) =~= decimal(n as nat));
    }
    out
}

/// `format!("{:02}", n)`.
pub fn decimal_string_pad2(n: u64) -> (r: String)
    ensures
        r@ == decimal_pad2(n as nat),
{
    let mut out = String::new();
    if n < 10 {
        push_char(&mut out, '0');
    }
    push_decimal(&mut out, n);
    proof {
        if n < 10 {
            assert(decimal(n as nat) =~= seq![digit_char(n as nat)]);
            assert(out@ =~= seq!['0', digit_char(n as nat)]);
        } else {
            assert(out@ =~= decimal(n as nat));
        }
    }
    out
}

} // verus!
