//! Where a script named in a scene is looked for.

use crate::paths::{join_model, parse_model, ContentPath, PathModel};
use vstd::prelude::*;

verus! {

/// `scripts/<name>` under `dir`.
pub open spec fn scripts_entry(dir: PathModel, name: Seq<char>) -> PathModel {
    join_model(join_model(dir, parse_model("scripts"@)), parse_model(name))
}

/// The places, in order, where the script `name` is looked for: the
/// `scripts` folder of the current folder, the one next to the executable
/// when its folder `exe_dir` is known, and the one in the source tree
/// `source_dir` (which debug builds pass).
pub open spec fn script_search_model(name: Seq<char>, exe_dir: Option<PathModel>, source_dir: Option<PathModel>) -> Seq<
    PathModel,
> {
    let here = seq![scripts_entry(PathModel { rooted: false, parts: seq![] }, name)];
    let exe = match exe_dir {
        Some(d) => seq![scripts_entry(d, name)],
        None => seq![],
    };
    let src = match source_dir {
        Some(d) => seq![scripts_entry(d, name)],
        None => seq![],
    };
    here + exe + src
}

fn scripts_entry_of(dir: &ContentPath, name: &str) -> (r: ContentPath)
    ensures
        r@ == scripts_entry(dir@, name@),
{
    dir.join(&ContentPath::parse("scripts")).join(&ContentPath::parse(name))
}

/// The paths to try, in order, when loading the script `name`; see
/// `script_search_model`.
pub fn script_search_paths(name: &str, exe_dir: Option<ContentPath>, source_dir: Option<ContentPath>) -> (r: Vec<
    ContentPath,
>)
    ensures
        crate::path_order::path_views(r@) == script_search_model(
            name@,
            crate::paths::path_view(exe_dir),
            crate::paths::path_view(source_dir),
        ),
{
    let mut paths: Vec<ContentPath> = Vec::new();
    paths.push(scripts_entry_of(&ContentPath::empty(), name));
    match &exe_dir {
        Some(d) => paths.push(scripts_entry_of(d, name)),
        None => {},
    }
    match &source_dir {
        Some(d) => paths.push(scripts_entry_of(d, name)),
        None => {},
    }
    proof {
        assert(crate::path_order::path_views(paths@) =~= script_search_model(
            name@,
            crate::paths::path_view(exe_dir),
            crate::paths::path_view(source_dir),
        ));
    }
    paths
}

} // verus!
