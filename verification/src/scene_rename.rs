//! Renaming a scene document from the scene tab bar: the text the rename
//! dialog starts with, the document id a new name gives, when the rename
//! goes ahead, and the documents and files it touches.

use crate::paths::{join_model, parse_model, push_model, ContentPath, PathModel};
use crate::text::{concat, string_from, trim_whitespace, trim_ws};
use vstd::prelude::*;

verus! {

/// Whether `char::is_alphanumeric` holds of `c` (Unicode `Alphabetic` or
/// `Numeric`).
pub uninterp spec fn unicode_alphanumeric(c: char) -> bool;

/// `char::is_alphanumeric`. Its answer comes from Unicode's tables, which
/// are too large to state here, so the contract names it.
#[verifier::external_body]
fn char_is_alphanumeric(c: char) -> (r: bool)
    ensures
        r == unicode_alphanumeric(c),
{
    c.is_alphanumeric()
}

/// `s` with every trailing `.scene` removed (`str::trim_end_matches`).
pub open spec fn strip_scene_suffix(s: Seq<char>) -> Seq<char>
    decreases s.len(),
{
    if s.len() >= 6 && s.subrange(s.len() - 6, s.len() as int) == ".scene"@ {
        strip_scene_suffix(s.subrange(0, s.len() - 6))
    } else {
        s
    }
}

/// `s` with each `from` replaced by `to`.
pub open spec fn replace_char(s: Seq<char>, from: char, to: char) -> Seq<char> {
    s.map_values(|c: char| if c == from { to } else { c })
}

/// The text the rename dialog starts with for document `id`: its name
/// without `.scene`, underscores shown as spaces.
pub open spec fn rename_dialog_text_model(id: Seq<char>) -> Seq<char> {
    replace_char(strip_scene_suffix(id), '_', ' ')
}

fn ends_with_scene(s: &str, len: usize) -> (r: bool)
    requires
        len <= s@.len(),
    ensures
        r == (len >= 6 && s@.subrange(len - 6, len as int) == ".scene"@),
{
    proof {
        reveal_strlit(".scene");
    }
    if len < 6 {
        return false;
    }
    let r = s.get_char(len - 6) == '.' && s.get_char(len - 5) == 's' && s.get_char(len - 4) == 'c' && s.get_char(
        len - 3,
    ) == 'e' && s.get_char(len - 2) == 'n' && s.get_char(len - 1) == 'e';
    proof {
        let t = s@.subrange(len - 6, len as int);
        if r {
            assert(t =~= ".scene"@);
        } else if t == ".scene"@ {
            assert(t[0] == s@[len - 6]);
            assert(t[1] == s@[len - 5]);
            assert(t[2] == s@[len - 4]);
            assert(t[3] == s@[len - 3]);
            assert(t[4] == s@[len - 2]);
            assert(t[5] == s@[len - 1]);
        }
    }
    r
}

proof fn lemma_strip_prefix_step(s: Seq<char>, len: int)
    requires
        6 <= len <= s.len(),
        s.subrange(len - 6, len) == ".scene"@,
    ensures
        strip_scene_suffix(s.subrange(0, len)) == strip_scene_suffix(s.subrange(0, len - 6)),
{
    assert(s.subrange(0, len).subrange(len - 6, len) =~= s.subrange(len - 6, len));
    assert(s.subrange(0, len).subrange(0, len - 6) =~= s.subrange(0, len - 6));
}

/// The text the rename dialog starts with; see `rename_dialog_text_model`.
pub fn rename_dialog_text(document_id: &str) -> (r: String)
    ensures
        r@ == rename_dialog_text_model(document_id@),
{
    let full = document_id;
    let mut len = full.unicode_len();
    proof {
        assert(full@.subrange(0, len as int) =~= full@);
    }
    while ends_with_scene(full, len)
        invariant
            len <= full@.len(),
            strip_scene_suffix(full@.subrange(0, len as int)) == strip_scene_suffix(document_id@),
        decreases len,
    {
        proof {
            lemma_strip_prefix_step(full@, len as int);
        }
        len = len - 6;
    }
    proof {
        if len >= 6 {
            assert(full@.subrange(0, len as int).subrange(len - 6, len as int) =~= full@.subrange(len - 6, len as int));
        }
        assert(strip_scene_suffix(full@.subrange(0, len as int)) == full@.subrange(0, len as int));
    }
    let mut out = String::new();
    let mut i: usize = 0;
    while i < len
        invariant
            i <= len <= full@.len(),
            out@ == replace_char(full@.subrange(0, i as int), '_', ' '),
        decreases len - i,
    {
        let c = full.get_char(i);
        let shown = if c == '_' {
            ' '
        } else {
            c
        };
        crate::text::push_char(&mut out, shown);
        proof {
            assert(replace_char(full@.subrange(0, i + 1), '_', ' ') =~= replace_char(
                full@.subrange(0, i as int),
                '_',
                ' ',
            ).push(shown));
        }
        i = i + 1;
    }
    out
}

/// Whether a character stays in a scene's file name.
pub open spec fn scene_name_char(c: char) -> bool {
    unicode_alphanumeric(c) || c == '_' || c == '-'
}

/// The characters of `s` that stay in a scene's file name, in order.
pub open spec fn keep_scene_chars(s: Seq<char>) -> Seq<char>
    decreases s.len(),
{
    if s.len() == 0 {
        seq![]
    } else if scene_name_char(s.last()) {
        keep_scene_chars(s.drop_last()).push(s.last())
    } else {
        keep_scene_chars(s.drop_last())
    }
}

/// The file stem a new scene name gives: trimmed, spaces turned into
/// underscores, then only letters, digits, `_` and `-` kept.
pub open spec fn scene_stem(name: Seq<char>) -> Seq<char> {
    keep_scene_chars(replace_char(trim_ws(name), ' ', '_'))
}

/// The characters of `s` that stay in a scene's file name, given for each
/// character whether it is alphanumeric (`alphanumeric`, one answer per
/// character): those, `_` and `-`, in order.
pub open spec fn keep_scene_chars_with(s: Seq<char>, alphanumeric: Seq<bool>) -> Seq<char>
    decreases s.len(),
{
    if s.len() == 0 {
        seq![]
    } else {
        let rest = keep_scene_chars_with(s.drop_last(), alphanumeric.drop_last());
        let c = s.last();
        if alphanumeric.last() || c == '_' || c == '-' {
            rest.push(c)
        } else {
            rest
        }
    }
}

proof fn lemma_keep_with_answers(s: Seq<char>, alphanumeric: Seq<bool>)
    requires
        alphanumeric.len() == s.len(),
        forall|i: int| 0 <= i < s.len() ==> alphanumeric[i] == unicode_alphanumeric(#[trigger] s[i]),
    ensures
        keep_scene_chars_with(s, alphanumeric) == keep_scene_chars(s),
    decreases s.len(),
{
    if s.len() > 0 {
        let p = s.drop_last();
        let a = alphanumeric.drop_last();
        assert forall|i: int| 0 <= i < p.len() implies a[i] == unicode_alphanumeric(#[trigger] p[i]) by {
            assert(p[i] == s[i] && a[i] == alphanumeric[i]);
        }
        lemma_keep_with_answers(p, a);
        assert(alphanumeric.last() == unicode_alphanumeric(s[s.len() - 1]));
    }
}

/// The stem of a scene's file for a new name, given for each character of
/// the trimmed name whether it is alphanumeric: trimmed, spaces turned into
/// underscores, then only the alphanumeric characters, `_` and `-` kept.
pub fn scene_stem_with(name: &str, alphanumeric: &Vec<bool>) -> (r: String)
    requires
        alphanumeric@.len() == trim_ws(name@).len(),
    ensures
        r@ == keep_scene_chars_with(replace_char(trim_ws(name@), ' ', '_'), alphanumeric@),
{
    let trimmed = trim_whitespace(name);
    let chars = trimmed.as_str();
    let n = chars.unicode_len();
    let ghost answers = alphanumeric@;
    let mut out = String::new();
    let mut i: usize = 0;
    proof {
        assert(replace_char(chars@.subrange(0, 0), ' ', '_') =~= Seq::<char>::empty());
        assert(out@ =~= Seq::<char>::empty());
    }
    while i < n
        invariant
            i <= n,
            n == chars@.len(),
            chars@ == trim_ws(name@),
            answers == alphanumeric@,
            answers.len() == n,
            out@ == keep_scene_chars_with(
                replace_char(chars@.subrange(0, i as int), ' ', '_'),
                answers.subrange(0, i as int),
            ),
        decreases n - i,
    {
        let raw = chars.get_char(i);
        let c = if raw == ' ' {
            '_'
        } else {
            raw
        };
        let keep = alphanumeric[i] || c == '_' || c == '-';
        proof {
            let t = replace_char(chars@.subrange(0, i + 1), ' ', '_');
            assert(t =~= replace_char(chars@.subrange(0, i as int), ' ', '_').push(c));
            assert(t.drop_last() =~= replace_char(chars@.subrange(0, i as int), ' ', '_'));
            assert(answers.subrange(0, i + 1).drop_last() =~= answers.subrange(0, i as int));
            assert(answers.subrange(0, i + 1).last() == alphanumeric@[i as int]);
        }
        if keep {
            crate::text::push_char(&mut out, c);
        }
        i = i + 1;
    }
    proof {
        assert(chars@.subrange(0, n as int) =~= chars@);
        assert(answers.subrange(0, n as int) =~= answers);
    }
    out
}

/// The stem of a scene's file for a new name; see `scene_stem`. Each
/// character is asked `char::is_alphanumeric`, and the answers decide as in
/// `scene_stem_with`.
pub fn sanitize_scene_name(name: &str) -> (r: String)
    ensures
        r@ == scene_stem(name@),
{
    let trimmed = trim_whitespace(name);
    let chars = trimmed.as_str();
    let n = chars.unicode_len();
    let ghost s = replace_char(chars@, ' ', '_');
    let mut answers: Vec<bool> = Vec::new();
    let mut i: usize = 0;
    while i < n
        invariant
            i <= n,
            n == chars@.len(),
            chars@ == trim_ws(name@),
            s == replace_char(chars@, ' ', '_'),
            answers@.len() == i,
            forall|j: int| 0 <= j < i ==> answers@[j] == unicode_alphanumeric(#[trigger] s[j]),
        decreases n - i,
    {
        let raw = chars.get_char(i);
        let c = if raw == ' ' {
            '_'
        } else {
            raw
        };
        proof {
            assert(s[i as int] == c);
        }
        answers.push(char_is_alphanumeric(c));
        i = i + 1;
    }
    let r = scene_stem_with(name, &answers);
    proof {
        lemma_keep_with_answers(s, answers@);
    }
    r
}

/// The document id a scene renamed to `name` gets, unless the rename is
/// dropped: when the name keeps no character, when the id stays the same,
/// or when another document already has it.
pub open spec fn scene_rename_target(old_id: Seq<char>, name: Seq<char>, existing: Seq<Seq<char>>) -> Option<Seq<char>> {
    let stem = scene_stem(name);
    let id = stem + ".scene"@;
    if stem.len() == 0 || id == old_id || existing.contains(id) {
        None
    } else {
        Some(id)
    }
}

/// A rename never lands on an id already in use: the id planned is not the
/// id of any open document, nor the document's own id. And a rename whose
/// name keeps some character goes ahead whenever its id is free.
pub proof fn lemma_rename_target_is_free(old_id: Seq<char>, name: Seq<char>, existing: Seq<Seq<char>>)
    ensures
        scene_rename_target(old_id, name, existing) matches Some(id) ==> {
            &&& forall|j: int| 0 <= j < existing.len() ==> #[trigger] existing[j] != id
            &&& id != old_id
        },
        ({
            let id = scene_stem(name) + ".scene"@;
            scene_stem(name).len() > 0 && id != old_id && (forall|j: int|
                0 <= j < existing.len() ==> #[trigger] existing[j] != id) ==> scene_rename_target(old_id, name, existing)
                == Some(id)
        }),
{
    if let Some(id) = scene_rename_target(old_id, name, existing) {
        assert forall|j: int| 0 <= j < existing.len() implies #[trigger] existing[j] != id by {
            if existing[j] == id {
                assert(existing.contains(id));
            }
        }
    }
}

/// The new id of document `old_id` renamed to `new_name`, given the ids
/// of the open documents; see `scene_rename_target`.
pub fn plan_scene_rename(old_id: &str, new_name: &str, existing: &Vec<String>) -> (r: Option<String>)
    ensures
        match r {
            Some(id) => scene_rename_target(old_id@, new_name@, crate::paths::names_of(existing@)) == Some(id@),
            None => scene_rename_target(old_id@, new_name@, crate::paths::names_of(existing@)) is None,
        },
        r matches Some(id) ==> {
            &&& forall|j: int| 0 <= j < existing@.len() ==> (#[trigger] existing@[j])@ != id@
            &&& id@ != old_id@
        },
{
    let stem = sanitize_scene_name(new_name);
    if stem.as_str().unicode_len() == 0 {
        return None;
    }
    let id = concat(stem.as_str(), ".scene");
    let old = string_from(old_id);
    if id.as_str().unicode_len() == old.as_str().unicode_len() && crate::paths::string_eq(&id, &old) {
        return None;
    }
    let mut i: usize = 0;
    while i < existing.len()
        invariant
            i <= existing@.len(),
            forall|j: int| 0 <= j < i ==> (#[trigger] existing@[j])@ != id@,
            id@ == scene_stem(new_name@) + ".scene"@,
            scene_stem(new_name@).len() > 0,
            id@ != old_id@,
        decreases existing.len() - i,
    {
        if existing[i].as_str().unicode_len() == id.as_str().unicode_len() && crate::paths::string_eq(&existing[i], &id) {
            proof {
                assert(crate::paths::names_of(existing@)[i as int] == id@);
                assert(crate::paths::names_of(existing@).contains(id@));
            }
            return None;
        }
        i = i + 1;
    }
    proof {
        if crate::paths::names_of(existing@).contains(id@) {
            let j = choose|j: int| 0 <= j < existing@.len() && #[trigger] crate::paths::names_of(existing@)[j] == id@;
            assert(existing@[j]@ == id@);
        }
    }
    Some(id)
}

/// The file of scene document `id` relative to the project folder:
/// `<content>/scenes/<id>.json`.
pub open spec fn scene_file_model(content_dir: Seq<char>, id: Seq<char>) -> PathModel {
    push_model(push_model(parse_model(content_dir), "scenes"@), id + ".json"@)
}

/// The file of scene document `id` relative to the project folder; see
/// `scene_file_model`.
pub fn scene_file(content_dir: &str, document_id: &str) -> (r: ContentPath)
    ensures
        r@ == scene_file_model(content_dir@, document_id@),
{
    let name = concat(document_id, ".json");
    ContentPath::parse(content_dir).join_name("scenes").join_name(name.as_str())
}

/// The file of scene document `id` in the project at `project_dir`.
pub fn scene_file_in(project_dir: &ContentPath, content_dir: &str, document_id: &str) -> (r: ContentPath)
    ensures
        r@ == join_model(project_dir@, scene_file_model(content_dir@, document_id@)),
{
    project_dir.join(&scene_file(content_dir, document_id))
}

/// A scene document of the project, as far as renaming looks at it.
pub struct SceneDocument {
    pub id: String,
    pub name: String,
    pub relative_path: ContentPath,
}

/// Abstract scene document.
pub struct DocumentView {
    pub id: Seq<char>,
    pub name: Seq<char>,
    pub relative_path: PathModel,
}

pub open spec fn document_view(d: SceneDocument) -> DocumentView {
    DocumentView { id: d.id@, name: d.name@, relative_path: d.relative_path@ }
}

/// The documents after document `old_id` became `new_id` named `name`:
/// that document takes the new id, name and file; the others stay.
pub open spec fn renamed_documents(
    docs: Seq<DocumentView>,
    old_id: Seq<char>,
    new_id: Seq<char>,
    name: Seq<char>,
    content_dir: Seq<char>,
) -> Seq<DocumentView> {
    docs.map_values(
        |d: DocumentView|
            if d.id == old_id {
                DocumentView { id: new_id, name, relative_path: scene_file_model(content_dir, new_id) }
            } else {
                d
            },
    )
}

/// Renames document `old_id` to `new_id` with the name `new_name` in the
/// project's list of scene documents; see `renamed_documents`.
pub fn rename_scene_documents(
    documents: &Vec<SceneDocument>,
    old_id: &str,
    new_id: &str,
    new_name: &str,
    content_dir: &str,
) -> (r: Vec<SceneDocument>)
    ensures
        r@.map_values(|d: SceneDocument| document_view(d)) == renamed_documents(
            documents@.map_values(|d: SceneDocument| document_view(d)),
            old_id@,
            new_id@,
            new_name@,
            content_dir@,
        ),
{
    let mut out: Vec<SceneDocument> = Vec::new();
    let old = string_from(old_id);
    let ghost views = documents@.map_values(|d: SceneDocument| document_view(d));
    let mut i: usize = 0;
    while i < documents.len()
        invariant
            i <= documents@.len(),
            out@.len() == i,
            views == documents@.map_values(|d: SceneDocument| document_view(d)),
            old@ == old_id@,
            out@.map_values(|d: SceneDocument| document_view(d)) == renamed_documents(
                views.take(i as int),
                old_id@,
                new_id@,
                new_name@,
                content_dir@,
            ),
        decreases documents.len() - i,
    {
        let d = &documents[i];
        let same = d.id.as_str().unicode_len() == old.as_str().unicode_len() && crate::paths::string_eq(&d.id, &old);
        let ghost out_before = out@;
        if same {
            out.push(
                SceneDocument {
                    id: string_from(new_id),
                    name: string_from(new_name),
                    relative_path: scene_file(content_dir, new_id),
                },
            );
        } else {
            out.push(SceneDocument { id: d.id.clone(), name: d.name.clone(), relative_path: d.relative_path.duplicate() });
        }
        proof {
            assert(views.take(i + 1) =~= views.take(i as int).push(views[i as int]));
            assert(out@.map_values(|d: SceneDocument| document_view(d)) =~= out_before.map_values(
                |d: SceneDocument| document_view(d),
            ).push(document_view(out@[i as int])));
            assert(renamed_documents(views.take(i + 1), old_id@, new_id@, new_name@, content_dir@) =~= renamed_documents(
                views.take(i as int),
                old_id@,
                new_id@,
                new_name@,
                content_dir@,
            ).push(renamed_documents(views.take(i + 1), old_id@, new_id@, new_name@, content_dir@)[i as int]));
        }
        i = i + 1;
    }
    proof {
        assert(views.take(documents@.len() as int) =~= views);
    }
    out
}

/// What the rename dialog does after a frame.
pub enum RenameDialogStep {
    /// Rename to the text typed, then close.
    Rename(String),
    /// Close without renaming.
    Close,
    /// Stay open.
    KeepOpen,
}

/// The dialog's step, given whether it was confirmed, cancelled, or closed
/// (`open` false), and the text typed: a confirmation renames unless the
/// text is blank; a cancel or a close ends it.
pub fn rename_dialog_step(confirmed: bool, cancelled: bool, open: bool, text: &String) -> (r: RenameDialogStep)
    ensures
        confirmed && trim_ws(text@).len() > 0 ==> (r matches RenameDialogStep::Rename(t) && t@ == text@),
        !(confirmed && trim_ws(text@).len() > 0) && (cancelled || !open) ==> r is Close,
        !(confirmed && trim_ws(text@).len() > 0) && !(cancelled || !open) ==> r is KeepOpen,
{
    let blank = trim_whitespace(text.as_str()).as_str().unicode_len() == 0;
    if confirmed && !blank {
        RenameDialogStep::Rename(text.clone())
    } else if cancelled || !open {
        RenameDialogStep::Close
    } else {
        RenameDialogStep::KeepOpen
    }
}

} // verus!
