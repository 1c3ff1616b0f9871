//! The open project as the editor's systems see it: its folder, its content
//! folder, the startup dialog, and whether the project windows are shown.

use crate::paths::{push_model, ContentPath, PathModel};
use vstd::prelude::*;

verus! {

/// What the editor keeps of the open project.
pub struct ProjectController {
    current_dir: Option<ContentPath>,
    content_dir_name: String,
    startup_dialog_visible: bool,
    startup_error: Option<String>,
}

/// Abstract project state.
pub struct ProjectModel {
    pub current_dir: Option<PathModel>,
    pub content_dir_name: Seq<char>,
    pub startup_dialog_visible: bool,
    pub startup_error: Option<Seq<char>>,
}

impl View for ProjectController {
    type V = ProjectModel;

    closed spec fn view(&self) -> ProjectModel {
        ProjectModel {
            current_dir: match self.current_dir {
                Some(d) => Some(d@),
                None => None,
            },
            content_dir_name: self.content_dir_name@,
            startup_dialog_visible: self.startup_dialog_visible,
            startup_error: match self.startup_error {
                Some(e) => Some(e@),
                None => None,
            },
        }
    }
}

/// The content folder of the open project: the folder named
/// `content_dir_name` inside the project's folder.
pub open spec fn content_root_model(p: ProjectModel) -> Option<PathModel> {
    match p.current_dir {
        Some(d) => Some(push_model(d, p.content_dir_name)),
        None => None,
    }
}

impl ProjectController {
    /// No project is open and the startup dialog is shown; projects keep
    /// their content in the folder `content_dir_name`.
    pub fn new(content_dir_name: String) -> (r: Self)
        ensures
            r@.current_dir is None,
            r@.content_dir_name == content_dir_name@,
            r@.startup_dialog_visible,
            r@.startup_error is None,
    {
        ProjectController { current_dir: None, content_dir_name, startup_dialog_visible: true, startup_error: None }
    }

    pub fn current_dir(&self) -> (r: Option<&ContentPath>)
        ensures
            match r {
                Some(d) => self@.current_dir == Some(d@),
                None => self@.current_dir is None,
            },
    {
        match &self.current_dir {
            Some(d) => Some(d),
            None => None,
        }
    }

    /// Makes `dir` the open project's folder.
    pub fn set_current_dir(&mut self, dir: ContentPath)
        ensures
            final(self)@ == (ProjectModel { current_dir: Some(dir@), ..old(self)@ }),
    {
        self.current_dir = Some(dir);
    }

    /// The open project's content folder, if a project is open.
    pub fn content_root(&self) -> (r: Option<ContentPath>)
        ensures
            match r {
                Some(p) => content_root_model(self@) == Some(p@),
                None => content_root_model(self@) is None,
            },
    {
        match &self.current_dir {
            Some(d) => Some(d.join_name(self.content_dir_name.as_str())),
            None => None,
        }
    }

    pub fn is_startup_dialog_visible(&self) -> (r: bool)
        ensures
            r == self@.startup_dialog_visible,
    {
        self.startup_dialog_visible
    }

    /// Shows or hides the startup dialog.
    pub fn set_startup_dialog_visible(&mut self, visible: bool)
        ensures
            final(self)@ == (ProjectModel { startup_dialog_visible: visible, ..old(self)@ }),
    {
        self.startup_dialog_visible = visible;
    }

    /// Records an error to show in the startup dialog.
    pub fn report_startup_error(&mut self, message: String)
        ensures
            final(self)@ == (ProjectModel { startup_error: Some(message@), ..old(self)@ }),
    {
        self.startup_error = Some(message);
    }

    pub fn startup_error(&self) -> (r: Option<&String>)
        ensures
            match r {
                Some(e) => self@.startup_error == Some(e@),
                None => self@.startup_error is None,
            },
    {
        match &self.startup_error {
            Some(e) => Some(e),
            None => None,
        }
    }
}

/// The project system: the controller and whether its auxiliary windows
/// (settings, build) are shown.
pub struct ProjectSystem {
    controller: ProjectController,
    aux_windows_enabled: bool,
}

impl ProjectSystem {
    pub closed spec fn controller_model(&self) -> ProjectModel {
        self.controller@
    }

    pub closed spec fn aux_windows(&self) -> bool {
        self.aux_windows_enabled
    }

    /// A system around `controller`, with its windows shown.
    pub fn new(controller: ProjectController) -> (r: Self)
        ensures
            r.controller_model() == controller@,
            r.aux_windows(),
    {
        ProjectSystem { controller, aux_windows_enabled: true }
    }

    pub fn controller_mut(&mut self) -> (r: &mut ProjectController)
        ensures
            r@ == old(self).controller_model(),
            final(self).controller_model() == final(r)@,
            final(self).aux_windows() == old(self).aux_windows(),
    {
        &mut self.controller
    }

    pub fn is_startup_dialog_visible(&self) -> (r: bool)
        ensures
            r == self.controller_model().startup_dialog_visible,
    {
        self.controller.is_startup_dialog_visible()
    }

    pub fn content_root(&self) -> (r: Option<ContentPath>)
        ensures
            match r {
                Some(p) => content_root_model(self.controller_model()) == Some(p@),
                None => content_root_model(self.controller_model()) is None,
            },
    {
        self.controller.content_root()
    }

    /// Shows or hides the settings and build windows (hidden while the game
    /// fills the window).
    pub fn set_auxiliary_windows_enabled(&mut self, enabled: bool)
        ensures
            final(self).aux_windows() == enabled,
            final(self).controller_model() == old(self).controller_model(),
    {
        self.aux_windows_enabled = enabled;
    }

    /// Whether the settings and build windows are drawn this frame.
    pub fn auxiliary_windows_enabled(&self) -> (r: bool)
        ensures
            r == self.aux_windows(),
    {
        self.aux_windows_enabled
    }
}

} // verus!
