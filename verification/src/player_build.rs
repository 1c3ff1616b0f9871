//! Producing a playable build of a project: the web entry page, the names
//! of the built files, and the checks before a new project is written.

use crate::path_order::{insert_path_sorted, path_views, paths_sorted};
use crate::paths::{join_model, push_model, ContentPath, PathModel};
use crate::text::{project_stem, sanitize_project_stem, string_from};
use vstd::prelude::*;

verus! {

/// The web entry page up to the project's title.
pub const WEB_INDEX_HEAD: &'static str = "<!DOCTYPE html>\n<html lang='en'>\n  <head>\n    <meta charset='utf-8' />\n    <meta name='viewport' content='width=device-width, initial-scale=1.0' />\n    <title>";

/// The web entry page after the project's title.
pub const WEB_INDEX_TAIL: &'static str = "</title>\n    <style>\n      body {\n        margin: 0;\n        padding: 0;\n        font-family: -apple-system, BlinkMacSystemFont, 'Segoe UI', Roboto, sans-serif;\n        background: #141414;\n        color: #e0e0e0;\n        display: flex;\n        flex-direction: column;\n        min-height: 100vh;\n        align-items: center;\n        justify-content: center;\n      }\n\n      #status {\n        margin-top: 1rem;\n        font-size: 0.9rem;\n        opacity: 0.75;\n      }\n\n      canvas {\n        width: min(90vw, 960px);\n        height: min(90vh, 540px);\n        border: 1px solid #2a2a2a;\n        background: #050505;\n        box-shadow: 0 8px 24px rgba(0, 0, 0, 0.5);\n      }\n    </style>\n  </head>\n  <body>\n    <canvas id='wgpu-app'></canvas>\n    <div id='status'>Loading project...</div>\n    <script type='module'>\n      import init from './pkg/player.js';\n\n      async function start() {\n        const status = document.getElementById('status');\n        try {\n          await init();\n          status.textContent = 'Project loaded successfully.';\n        } catch (err) {\n          console.error('Failed to start project', err);\n          status.textContent = 'Failed to start project: ' + err;\n        }\n      }\n\n      start();\n    </script>\n  </body>\n</html>\n";

/// The web entry page of a build: a canvas for the player and a status line,
/// with the project's title.
pub open spec fn web_index_model(title: Seq<char>) -> Seq<char> {
    WEB_INDEX_HEAD@ + title + WEB_INDEX_TAIL@
}

/// The `index.html` written next to a web build.
pub fn build_web_index(title: &str) -> (r: String)
    ensures
        r@ == web_index_model(title@),
{
    let mut out = string_from(WEB_INDEX_HEAD);
    out.append(title);
    out.append(WEB_INDEX_TAIL);
    out
}

/// File name of the desktop build: the project's name made safe for a
/// file name, with the platform's executable suffix.
pub fn desktop_binary_name(project_name: &str, exe_suffix: &str) -> (r: String)
    ensures
        r@ == project_stem(project_name@) + exe_suffix@,
{
    let mut name = sanitize_project_stem(project_name);
    name.append(exe_suffix);
    name
}

/// File name of the built player: `player` with the platform's executable
/// suffix.
pub fn player_binary_name(exe_suffix: &str) -> (r: String)
    ensures
        r@ == "player"@ + exe_suffix@,
{
    let mut name = string_from("player");
    name.append(exe_suffix);
    name
}

/// Why a folder cannot hold a new project.
pub enum NewProjectError {
    NotADirectory(ContentPath),
    DirectoryNotEmpty(ContentPath),
}

/// Checks the folder chosen for a new project, given what the file system
/// says of it: something there that is not a folder, or a folder with
/// entries, is refused.
pub fn check_new_project_dir(dir: &ContentPath, exists: bool, is_dir: bool, has_entries: bool) -> (r: Result<
    (),
    NewProjectError,
>)
    ensures
        exists && !is_dir ==> match r {
            Err(NewProjectError::NotADirectory(p)) => p@ == dir@,
            _ => false,
        },
        !(exists && !is_dir) && has_entries ==> match r {
            Err(NewProjectError::DirectoryNotEmpty(p)) => p@ == dir@,
            _ => false,
        },
        !(exists && !is_dir) && !has_entries ==> r is Ok,
{
    if exists && !is_dir {
        return Err(NewProjectError::NotADirectory(dir.duplicate()));
    }
    if has_entries {
        return Err(NewProjectError::DirectoryNotEmpty(dir.duplicate()));
    }
    Ok(())
}

/// The script files a build needs, each once, in `Path`'s order.
pub fn required_scripts(script_paths: &Vec<ContentPath>) -> (r: Vec<ContentPath>)
    ensures
        paths_sorted(path_views(r@)),
        forall|p: PathModel| #[trigger] path_views(r@).contains(p) <==> path_views(script_paths@).contains(p),
{
    let mut out: Vec<ContentPath> = Vec::new();
    let mut i: usize = 0;
    proof {
        assert(path_views(out@) =~= Seq::<PathModel>::empty());
    }
    while i < script_paths.len()
        invariant
            i <= script_paths.len(),
            paths_sorted(path_views(out@)),
            forall|p: PathModel| #[trigger]
                path_views(out@).contains(p) <==> path_views(script_paths@).take(i as int).contains(p),
        decreases script_paths.len() - i,
    {
        let ghost before = path_views(out@);
        insert_path_sorted(&mut out, script_paths[i].duplicate());
        proof {
            let all = path_views(script_paths@);
            assert(all.take(i + 1) =~= all.take(i as int).push(script_paths@[i as int]@));
            assert forall|p: PathModel| #[trigger] path_views(out@).contains(p) <==> all.take(i + 1).contains(p) by {
                if all.take(i + 1).contains(p) {
                    let k = choose|k: int| 0 <= k < i + 1 && #[trigger] all.take(i + 1)[k] == p;
                    if k < i {
                        assert(all.take(i as int)[k] == p);
                    }
                }
                if all.take(i as int).contains(p) {
                    let k = choose|k: int| 0 <= k < i && #[trigger] all.take(i as int)[k] == p;
                    assert(all.take(i + 1)[k] == p);
                }
                if p == script_paths@[i as int]@ {
                    assert(all.take(i + 1)[i as int] == p);
                }
            }
        }
        i = i + 1;
    }
    proof {
        assert(path_views(script_paths@).take(script_paths@.len() as int) =~= path_views(script_paths@));
    }
    out
}

/// One script file to copy into a build.
pub struct ScriptCopy {
    pub source: ContentPath,
    pub destination: ContentPath,
}

/// The sources of a list of copies.
pub open spec fn copy_sources(s: Seq<ScriptCopy>) -> Seq<PathModel> {
    s.map_values(|c: ScriptCopy| c.source@)
}

/// The copies that put a build's scripts next to it: each required script
/// (see `required_scripts`) is read from its path and written to that path
/// below `output_dir`.
pub fn plan_script_copies(script_paths: &Vec<ContentPath>, output_dir: &ContentPath) -> (r: Vec<ScriptCopy>)
    ensures
        paths_sorted(copy_sources(r@)),
        forall|p: PathModel| #[trigger]
            copy_sources(r@).contains(p) <==> path_views(script_paths@).contains(p),
        forall|i: int|
            0 <= i < r@.len() ==> (#[trigger] r@[i]).destination@ == join_model(output_dir@, r@[i].source@),
{
    let scripts = required_scripts(script_paths);
    let mut out: Vec<ScriptCopy> = Vec::new();
    let mut i: usize = 0;
    while i < scripts.len()
        invariant
            i <= scripts.len(),
            out@.len() == i,
            forall|k: int| 0 <= k < i ==> (#[trigger] out@[k]).source@ == scripts@[k]@,
            forall|k: int| 0 <= k < i ==> (#[trigger] out@[k]).destination@ == join_model(output_dir@, out@[k].source@),
        decreases scripts.len() - i,
    {
        let source = scripts[i].duplicate();
        let destination = output_dir.join(&scripts[i]);
        out.push(ScriptCopy { source, destination });
        i = i + 1;
    }
    proof {
        assert(copy_sources(out@) =~= path_views(scripts@));
    }
    out
}

} // verus!
