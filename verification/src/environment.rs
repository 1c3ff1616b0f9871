//! Bringing an environment HDR file into the project: when a new file is
//! chosen it is copied into the content folder's `environment` folder.

use crate::paths::{disk_answered, exists_on_disk, file_name_model, join_model, path_view, push_model, ContentPath, PathModel};
use vstd::prelude::*;

verus! {

/// Why an HDR file cannot be brought into the project.
pub enum EnvironmentAssetError {
    /// No project is open.
    NoProject,
    /// The file is not there.
    MissingSource(ContentPath),
    /// The path has no file name.
    NoFileName(ContentPath),
}

/// What to do for a chosen HDR file.
pub enum EnvironmentCopy {
    /// The same file as before; nothing to do.
    Unchanged,
    /// The file at `destination` is the one to use; `copy` says whether
    /// `source` must first be copied there.
    Use { source: ContentPath, destination: ContentPath, copy: bool },
}

/// The folder HDR files are kept in: `environment` in the content root.
pub open spec fn environment_folder(content_root: PathModel) -> PathModel {
    push_model(content_root, "environment"@)
}

/// The chosen file as an absolute path: itself when rooted, else below the
/// current folder `cwd`.
pub open spec fn absolute_source_model(requested: PathModel, cwd: PathModel) -> PathModel {
    if requested.rooted {
        requested
    } else {
        join_model(cwd, requested)
    }
}

/// What planning `requested` gives, with the file chosen before
/// `previous`, the content root, the current folder `cwd` and whether the
/// file exists: nothing to do for the same file; without a project, or a
/// missing file, or a path without a file name, the error; otherwise the
/// file in the root's `environment` folder, copied there unless it is
/// already that file.
pub open spec fn environment_plan(
    r: Result<EnvironmentCopy, EnvironmentAssetError>,
    requested: PathModel,
    previous: Option<PathModel>,
    content_root: Option<PathModel>,
    cwd: PathModel,
    source_exists: bool,
) -> bool {
    if previous == Some(requested) {
        r matches Ok(EnvironmentCopy::Unchanged)
    } else {
        match content_root {
            None => r matches Err(EnvironmentAssetError::NoProject),
            Some(root) => {
                let source = absolute_source_model(requested, cwd);
                if !source_exists {
                    r matches Err(EnvironmentAssetError::MissingSource(p)) && p@ == source
                } else {
                    match file_name_model(source) {
                        None => r matches Err(EnvironmentAssetError::NoFileName(p)) && p@ == source,
                        Some(n) => match r {
                            Ok(EnvironmentCopy::Use { source: s, destination: d, copy }) => {
                                &&& s@ == source
                                &&& d@ == push_model(environment_folder(root), n)
                                &&& copy == (d@ != source)
                            },
                            _ => false,
                        },
                    }
                }
            },
        }
    }
}

/// Plans bringing `requested` into the project, given the file chosen
/// before, the content root, the current folder and whether the file
/// exists; see `environment_plan`.
pub fn plan_environment_copy_with(
    requested: &ContentPath,
    previous: &Option<ContentPath>,
    content_root: &Option<ContentPath>,
    cwd: &ContentPath,
    source_exists: bool,
) -> (r: Result<EnvironmentCopy, EnvironmentAssetError>)
    ensures
        environment_plan(r, requested@, path_view(*previous), path_view(*content_root), cwd@, source_exists),
{
    let same = match previous {
        Some(p) => p.same_as(requested),
        None => false,
    };
    if same {
        return Ok(EnvironmentCopy::Unchanged);
    }
    let root = match content_root {
        Some(r) => r,
        None => return Err(EnvironmentAssetError::NoProject),
    };
    let source = if requested.rooted {
        requested.duplicate()
    } else {
        cwd.join(requested)
    };
    if !source_exists {
        return Err(EnvironmentAssetError::MissingSource(source));
    }
    let name = match source.file_name() {
        Some(n) => n,
        None => return Err(EnvironmentAssetError::NoFileName(source)),
    };
    let destination = root.join_name("environment").join_name(name.as_str());
    proof {
        assert(destination@ == push_model(environment_folder(root@), name@));
    }
    let copy = !destination.same_as(&source);
    Ok(EnvironmentCopy::Use { source, destination, copy })
}

/// Plans bringing `requested` into the project: the file system is asked
/// whether the file (`absolute_source_model`) exists, and its answer
/// decides as in `plan_environment_copy_with`.
pub fn plan_environment_copy(
    requested: &ContentPath,
    previous: &Option<ContentPath>,
    content_root: &Option<ContentPath>,
    cwd: &ContentPath,
) -> (r: Result<EnvironmentCopy, EnvironmentAssetError>)
    ensures
        exists|source_exists: bool|
            #[trigger] environment_plan(
                r,
                requested@,
                path_view(*previous),
                path_view(*content_root),
                cwd@,
                source_exists,
            ) && disk_answered(absolute_source_model(requested@, cwd@), source_exists),
{
    let source = if requested.rooted {
        requested.duplicate()
    } else {
        cwd.join(requested)
    };
    let exists = exists_on_disk(&source);
    plan_environment_copy_with(requested, previous, content_root, cwd, exists)
}

} // verus!
