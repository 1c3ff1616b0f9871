//! Shader files of a project's materials: the name suggested for a new
//! shader, the file it is written to, and how its path is shown.

use crate::paths::{
    answered, disk_answered, display_model, exists_on_disk, file_name_model, lemma_answered_on_disk, name_stem, push_model, starts_with_model, strip_prefix_model,
    ContentPath, PathModel,
};
use crate::text::{
    concat, decimal, decimal_pad2, decimal_string, decimal_string_pad2, sanitize_shader_stem, shader_stem, string_from,
    trim_whitespace, trim_ws,
};
use vstd::prelude::*;

verus! {

/// The stem suggested for a material's new shader file: the stem of the
/// material's own file, made safe, if that leaves anything; else the
/// entity's name made safe; else `material_<index>`.
pub open spec fn suggested_shader_stem_model(canonical: Option<PathModel>, entity_name: Seq<char>, index: nat) -> Seq<char> {
    let from_path = match canonical {
        Some(p) => match file_name_model(p) {
            Some(n) => shader_stem(name_stem(n)),
            None => seq![],
        },
        None => seq![],
    };
    if from_path.len() > 0 {
        from_path
    } else if shader_stem(entity_name).len() > 0 {
        shader_stem(entity_name)
    } else {
        "material_"@ + decimal(index)
    }
}

pub fn suggested_shader_stem(canonical_path: &Option<ContentPath>, entity_name: &str, handle_index: u64) -> (r: String)
    ensures
        r@ == suggested_shader_stem_model(
            crate::paths::path_view(*canonical_path),
            entity_name@,
            handle_index as nat,
        ),
{
    match canonical_path {
        Some(p) => match p.file_name() {
            Some(n) => {
                let stem = crate::paths::file_stem(n.as_str());
                let sanitized = sanitize_shader_stem(stem.as_str());
                if sanitized.as_str().unicode_len() > 0 {
                    return sanitized;
                }
            },
            None => {},
        },
        None => {},
    }
    let from_entity = sanitize_shader_stem(entity_name);
    if from_entity.as_str().unicode_len() > 0 {
        from_entity
    } else {
        let mut s = string_from("material_");
        s.append(decimal_string(handle_index).as_str());
        s
    }
}

/// The base name of a new shader file: the suggested stem, or
/// `material_<index>` when it is blank.
pub open spec fn shader_base_name(suggested: Seq<char>, index: nat) -> Seq<char> {
    if trim_ws(suggested).len() == 0 {
        "material_"@ + decimal(index)
    } else {
        suggested
    }
}

/// The `n`-th candidate file name for a new shader: `<base>.wgsl`, then
/// `<base>_01.wgsl`, `<base>_02.wgsl`, ...
pub open spec fn shader_file_candidate(base: Seq<char>, n: nat) -> Seq<char> {
    if n == 0 {
        base + ".wgsl"@
    } else {
        base + "_"@ + decimal_pad2(n) + ".wgsl"@
    }
}

pub fn shader_file_candidate_name(base: &str, n: u64) -> (r: String)
    ensures
        r@ == shader_file_candidate(base@, n as nat),
{
    let mut s = string_from(base);
    if n > 0 {
        s.append("_");
        s.append(decimal_string_pad2(n).as_str());
    }
    s.append(".wgsl");
    s
}

/// The folder new shader files go to: `shaders` in the content root.
pub open spec fn shader_folder(content_root: PathModel) -> PathModel {
    push_model(content_root, "shaders"@)
}

pub fn shader_directory(content_root: &ContentPath) -> (r: ContentPath)
    ensures
        r@ == shader_folder(content_root@),
{
    content_root.join_name("shaders")
}

/// The first shader file for `base` in `folder` that `taken` says is
/// free, trying `<base>.wgsl`, `<base>_01.wgsl`, ... in order: the result is
/// the `n`-th candidate, `taken` answered "free" for it and "taken" for
/// every earlier one. `None` when it answered "taken" for every candidate
/// the counter reaches.
pub fn first_free_shader_file<F: Fn(&ContentPath) -> bool>(folder: &ContentPath, base: &str, taken: F) -> (r: Option<
    ContentPath,
>)
    requires
        forall|q: &ContentPath| #[trigger] taken.requires((q,)),
    ensures
        match r {
            Some(p) => exists|n: nat|
                #![trigger shader_file_candidate(base@, n)]
                {
                    &&& n <= u64::MAX
                    &&& p@ == push_model(folder@, shader_file_candidate(base@, n))
                    &&& answered(taken, p@, false)
                    &&& forall|m: nat|
                        m < n ==> answered(taken, push_model(folder@, #[trigger] shader_file_candidate(base@, m)), true)
                },
            None => forall|m: nat|
                m <= u64::MAX ==> answered(taken, push_model(folder@, #[trigger] shader_file_candidate(base@, m)), true),
        },
{
    let mut counter: u64 = 0;
    loop
        invariant
            forall|q: &ContentPath| #[trigger] taken.requires((q,)),
            forall|m: nat|
                m < counter ==> answered(taken, push_model(folder@, #[trigger] shader_file_candidate(base@, m)), true),
        decreases u64::MAX - counter,
    {
        let name = shader_file_candidate_name(base, counter);
        let candidate = folder.join_name(name.as_str());
        let is_taken = taken(&candidate);
        if !is_taken {
            proof {
                assert(answered(taken, candidate@, false));
            }
            return Some(candidate);
        }
        proof {
            assert(answered(taken, candidate@, true));
            assert forall|m: nat| m < counter + 1 implies answered(
                taken,
                push_model(folder@, #[trigger] shader_file_candidate(base@, m)),
                true,
            ) by {
                if m == counter {
                    assert(candidate@ == push_model(folder@, shader_file_candidate(base@, m)));
                }
            }
        }
        if counter == u64::MAX {
            return None;
        }
        counter = counter + 1;
    }
}

/// The file a new shader is written to: the first candidate name (see
/// `shader_file_candidate`) in the shader folder that the file system
/// (`path_exists`) reports free; see `first_free_shader_file`.
pub fn new_shader_path(content_root: &ContentPath, suggested_stem: &str, handle_index: u64) -> (r: Option<ContentPath>)
    ensures
        ({
            let base = shader_base_name(suggested_stem@, handle_index as nat);
            let folder = shader_folder(content_root@);
            match r {
                Some(p) => exists|n: nat|
                    #![trigger shader_file_candidate(base, n)]
                    {
                        &&& n <= u64::MAX
                        &&& p@ == push_model(folder, shader_file_candidate(base, n))
                        &&& disk_answered(p@, false)
                        &&& forall|m: nat|
                            m < n ==> disk_answered(push_model(folder, #[trigger] shader_file_candidate(base, m)), true)
                    },
                None => forall|m: nat|
                    m <= u64::MAX ==> disk_answered(push_model(folder, #[trigger] shader_file_candidate(base, m)), true),
            }
        }),
{
    let dir = shader_directory(content_root);
    let trimmed = trim_whitespace(suggested_stem);
    let base = if trimmed.as_str().unicode_len() == 0 {
        let mut s = string_from("material_");
        s.append(decimal_string(handle_index).as_str());
        s
    } else {
        string_from(suggested_stem)
    };
    let r = first_free_shader_file(&dir, base.as_str(), exists_on_disk);
    proof {
        let b = base@;
        let folder = dir@;
        assert forall|m: nat| #[trigger] answered(exists_on_disk, push_model(folder, shader_file_candidate(b, m)), true)
            implies disk_answered(push_model(folder, shader_file_candidate(b, m)), true) by {
            lemma_answered_on_disk(push_model(folder, shader_file_candidate(b, m)), true);
        }
        assert(b == shader_base_name(suggested_stem@, handle_index as nat));
        assert(folder == shader_folder(content_root@));
        if r is Some {
            lemma_answered_on_disk(r->0@, false);
            let n = choose|n: nat|
                #![trigger shader_file_candidate(b, n)]
                {
                    &&& n <= u64::MAX
                    &&& r->0@ == push_model(folder, shader_file_candidate(b, n))
                    &&& answered(exists_on_disk, r->0@, false)
                    &&& forall|m: nat|
                        m < n ==> answered(exists_on_disk, push_model(folder, #[trigger] shader_file_candidate(b, m)), true)
                };
            assert(shader_file_candidate(b, n) == shader_file_candidate(b, n));
        }
    }
    r
}

/// How a material's shader file is shown: relative to the content root
/// when it lies there, else in full; `None` without a file.
pub open spec fn shader_path_display_model(source_path: Option<PathModel>, content_root: Option<PathModel>) -> Seq<char> {
    match source_path {
        Some(p) => match content_root {
            Some(root) => match strip_prefix_model(p, root) {
                Some(rel) => display_model(rel),
                None => display_model(p),
            },
            None => display_model(p),
        },
        None => "None"@,
    }
}

pub fn shader_path_display(source_path: &Option<ContentPath>, content_root: &Option<ContentPath>) -> (r: String)
    ensures
        r@ == shader_path_display_model(
            crate::paths::path_view(*source_path),
            crate::paths::path_view(*content_root),
        ),
{
    match source_path {
        Some(p) => {
            match content_root {
                Some(root) => match p.strip_prefix(root) {
                    Some(rel) => return rel.display(),
                    None => {},
                },
                None => {},
            }
            p.display()
        },
        None => string_from("None"),
    }
}

/// Whether a shader file may be given to a material: it must lie in the
/// project's content folder.
pub fn shader_in_project(canonical: &ContentPath, content_root: &ContentPath) -> (r: bool)
    ensures
        r == starts_with_model(canonical@, content_root@),
{
    canonical.starts_with(content_root)
}

} // verus!
