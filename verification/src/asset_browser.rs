//! The asset browser's state: the folder and item selected, the rename and
//! move in progress, the message shown, and the checks made before the
//! file system is changed. The file system itself is changed by the caller,
//! which hands back the outcome.

use crate::paths::{
    apply_extension, display_model, file_name_model, join_model, name_extension, opt_str_view, parent_model,
    path_exists, path_is_dir, path_view, push_model, split_name, split_name_model, starts_with_model,
    strip_prefix_model, unique_path, with_extension, copy_candidate, disk_answered, exists_on_disk, ContentPath,
    PathModel, COPY_LIMIT, copy_path, dir_answered, is_dir_on_disk,
};
use crate::text::{concat, string_from, trim_whitespace, trim_ws};
use vstd::prelude::*;

verus! {

/// The message under the browser's toolbar.
pub enum Feedback {
    Info(String),
    Error(String),
}

/// Abstract message.
pub enum FeedbackView {
    Info(Seq<char>),
    Error(Seq<char>),
}

pub open spec fn feedback_view(f: Option<Feedback>) -> Option<FeedbackView> {
    match f {
        Some(Feedback::Info(m)) => Some(FeedbackView::Info(m@)),
        Some(Feedback::Error(m)) => Some(FeedbackView::Error(m@)),
        None => None,
    }
}

/// The asset browser's state.
pub struct AssetBrowserState {
    selected_folder: Option<ContentPath>,
    selected_item: Option<ContentPath>,
    renaming_item: Option<ContentPath>,
    pending_move: Option<ContentPath>,
    rename_buffer: String,
    rename_needs_focus: bool,
    new_folder_name: String,
    feedback: Option<Feedback>,
    last_root: Option<ContentPath>,
}

/// Abstract browser state.
pub struct BrowserModel {
    pub selected_folder: Option<PathModel>,
    pub selected_item: Option<PathModel>,
    pub renaming_item: Option<PathModel>,
    pub pending_move: Option<PathModel>,
    pub rename_buffer: Seq<char>,
    pub rename_needs_focus: bool,
    pub new_folder_name: Seq<char>,
    pub feedback: Option<FeedbackView>,
    pub last_root: Option<PathModel>,
}

impl View for AssetBrowserState {
    type V = BrowserModel;

    closed spec fn view(&self) -> BrowserModel {
        BrowserModel {
            selected_folder: path_view(self.selected_folder),
            selected_item: path_view(self.selected_item),
            renaming_item: path_view(self.renaming_item),
            pending_move: path_view(self.pending_move),
            rename_buffer: self.rename_buffer@,
            rename_needs_focus: self.rename_needs_focus,
            new_folder_name: self.new_folder_name@,
            feedback: feedback_view(self.feedback),
            last_root: path_view(self.last_root),
        }
    }
}

/// The folder new items go to: the selected folder when it lies in the
/// content root, else the content root.
pub open spec fn selected_folder_model(m: BrowserModel, root: PathModel) -> PathModel {
    match m.selected_folder {
        Some(s) => if starts_with_model(s, root) {
            s
        } else {
            root
        },
        None => root,
    }
}

/// The state after switching to a new content root: everything is
/// forgotten and the root is selected.
pub open spec fn reset_for_root(m: BrowserModel, root: PathModel) -> BrowserModel {
    BrowserModel {
        last_root: Some(root),
        selected_folder: Some(root),
        selected_item: None,
        renaming_item: None,
        pending_move: None,
        feedback: None,
        new_folder_name: seq![],
        rename_buffer: seq![],
        ..m
    }
}

/// The selection checked against the root and the file system: a selected
/// folder outside the root or no longer a folder falls back to the root; a
/// selected item outside the root or gone is dropped (with a move of it);
/// a move of something gone is dropped.
pub open spec fn refresh_model(
    m: BrowserModel,
    root: PathModel,
    folder_is_dir: bool,
    item_exists: bool,
    pending_exists: bool,
) -> BrowserModel {
    let folder = match m.selected_folder {
        Some(s) => if !starts_with_model(s, root) || !folder_is_dir {
            root
        } else {
            s
        },
        None => root,
    };
    let drop_item = match m.selected_item {
        Some(i) => !starts_with_model(i, root) || !item_exists,
        None => false,
    };
    let pending1 = if drop_item && m.pending_move == m.selected_item {
        None
    } else {
        m.pending_move
    };
    let item = if drop_item {
        None
    } else {
        m.selected_item
    };
    let pending2 = match pending1 {
        Some(_) => if pending_exists {
            pending1
        } else {
            None
        },
        None => None,
    };
    BrowserModel { selected_folder: Some(folder), selected_item: item, pending_move: pending2, ..m }
}

/// Whether a name holds a path separator or `:`.
pub open spec fn has_separator(s: Seq<char>) -> bool {
    s.contains('/') || s.contains('\\') || s.contains(':')
}

fn name_has_separator(s: &str) -> (r: bool)
    ensures
        r == has_separator(s@),
{
    let n = s.unicode_len();
    let mut i: usize = 0;
    while i < n
        invariant
            n == s@.len(),
            i <= n,
            forall|j: int| 0 <= j < i ==> s@[j] != '/' && s@[j] != '\\' && s@[j] != ':',
        decreases n - i,
    {
        let c = s.get_char(i);
        if c == '/' || c == '\\' || c == ':' {
            proof {
                assert(s@[i as int] == c);
            }
            return true;
        }
        i = i + 1;
    }
    false
}

/// `a'b'c`: text with a name in single quotes.
pub open spec fn quoted(a: Seq<char>, name: Seq<char>, c: Seq<char>) -> Seq<char> {
    a + "'"@ + name + "'"@ + c
}

fn quote(a: &str, name: &str, c: &str) -> (r: String)
    ensures
        r@ == quoted(a@, name@, c@),
{
    let mut s = string_from(a);
    s.append("'");
    s.append(name);
    s.append("'");
    s.append(c);
    s
}

/// The name shown for a path: its file name, or `<item>`.
pub open spec fn shown_name(p: PathModel) -> Seq<char> {
    match file_name_model(p) {
        Some(n) => n,
        None => "<item>"@,
    }
}

/// What to create for a new folder, or why not: the trimmed name must be
/// non-empty and hold no separator, and the parent must still exist.
pub open spec fn create_folder_check(name: Seq<char>, parent: PathModel, parent_exists: bool) -> Result<
    PathModel,
    Seq<char>,
> {
    let t = trim_ws(name);
    if t.len() == 0 {
        Err("Folder name cannot be empty."@)
    } else if has_separator(t) {
        Err("Folder name cannot contain path separators or ':' characters."@)
    } else if !parent_exists {
        Err("Selected folder no longer exists."@)
    } else {
        Ok(push_model(parent, t))
    }
}

/// How creating a folder went.
pub enum FolderCreation {
    Created,
    AlreadyExists,
    Failed(String),
}

/// What renaming `original` to the trimmed `buffer` means: `None` when
/// `original` has no parent; otherwise the path it would get, keeping its
/// extension.
pub open spec fn rename_candidate_model(original: PathModel, buffer: Seq<char>) -> Option<PathModel> {
    match parent_model(original) {
        Some(parent) => Some(
            push_model(
                parent,
                with_extension(
                    trim_ws(buffer),
                    match file_name_model(original) {
                        Some(n) => name_extension(n),
                        None => None,
                    },
                ),
            ),
        ),
        None => None,
    }
}

/// How a rename check ends.
pub enum RenameCheck {
    /// `original` is not the item being renamed; nothing changes.
    NotRenaming,
    /// Refused, with this message.
    Refused(Seq<char>),
    /// The name did not change; the rename is dropped.
    Unchanged,
    /// Rename to this path.
    Rename(PathModel),
}

pub open spec fn rename_check(m: BrowserModel, original: PathModel, candidate_exists: bool) -> RenameCheck {
    let t = trim_ws(m.rename_buffer);
    if m.renaming_item != Some(original) {
        RenameCheck::NotRenaming
    } else if t.len() == 0 {
        RenameCheck::Refused("Name cannot be empty."@)
    } else if has_separator(t) {
        RenameCheck::Refused("Names cannot contain path separators or ':' characters."@)
    } else {
        match rename_candidate_model(original, m.rename_buffer) {
            None => RenameCheck::Refused("Cannot rename this item."@),
            Some(c) => if c == original {
                RenameCheck::Unchanged
            } else if candidate_exists {
                RenameCheck::Refused("Another item with that name already exists."@)
            } else {
                RenameCheck::Rename(c)
            },
        }
    }
}

/// `p` with `from` replaced by `to` when it is `from`.
pub open spec fn remap(p: Option<PathModel>, from: PathModel, to: PathModel) -> Option<PathModel> {
    if p == Some(from) {
        Some(to)
    } else {
        p
    }
}

/// How a move check ends.
pub enum MoveCheck {
    /// No move in progress.
    Idle,
    /// Refused, with this message; `drop` says whether the move is dropped.
    Refused(Seq<char>, bool),
    /// Already there; the move is dropped with this notice.
    AlreadyThere(Seq<char>),
    /// Move `source`; `first` is the destination tried first.
    Move(PathModel, PathModel),
}

pub open spec fn move_check(m: BrowserModel, target: PathModel, source_exists: bool, target_exists: bool) -> MoveCheck {
    match m.pending_move {
        None => MoveCheck::Idle,
        Some(source) => if !source_exists {
            MoveCheck::Refused("Item no longer exists."@, true)
        } else if !target_exists {
            MoveCheck::Refused("Destination folder no longer exists."@, false)
        } else if source == target {
            MoveCheck::Refused("Cannot move a folder into itself."@, false)
        } else if starts_with_model(target, source) {
            MoveCheck::Refused("Cannot move a folder into one of its subfolders."@, false)
        } else if parent_model(source) == Some(target) {
            MoveCheck::AlreadyThere("Item is already in this folder."@)
        } else if file_name_model(source) is None {
            MoveCheck::Refused("Cannot move this item."@, false)
        } else {
            MoveCheck::Move(
                source,
                push_model(target, with_extension(split_name_model(source).0, split_name_model(source).1)),
            )
        },
    }
}

/// What checking the folder to create in `parent` does, given whether
/// `parent` exists: the new folder's path, or the reason shown.
pub open spec fn folder_planned(
    m: BrowserModel,
    parent: PathModel,
    parent_exists: bool,
    r: Option<ContentPath>,
    after: BrowserModel,
) -> bool {
    match create_folder_check(m.new_folder_name, parent, parent_exists) {
        Ok(p) => r matches Some(q) && q@ == p && after == m,
        Err(msg) => r is None && after == (BrowserModel { feedback: Some(FeedbackView::Error(msg)), ..m }),
    }
}

/// What checking the rename of `original` does, given whether its new path
/// is taken; see `rename_check`.
pub open spec fn rename_planned(
    m: BrowserModel,
    original: PathModel,
    candidate_exists: bool,
    r: Option<ContentPath>,
    after: BrowserModel,
) -> bool {
    match rename_check(m, original, candidate_exists) {
        RenameCheck::NotRenaming => r is None && after == m,
        RenameCheck::Refused(msg) => r is None && after == (BrowserModel {
            feedback: Some(FeedbackView::Error(msg)),
            ..m
        }),
        RenameCheck::Unchanged => r is None && after == (BrowserModel {
            renaming_item: None,
            rename_buffer: seq![],
            rename_needs_focus: false,
            ..m
        }),
        RenameCheck::Rename(c) => r matches Some(q) && q@ == c && after == m,
    }
}

/// The folder a copy of `path` goes to, and the base name and extension
/// the copy's name is built from (`<base> copy`).
pub open spec fn copy_base(path: PathModel) -> Seq<char> {
    split_name_model(path).0 + " copy"@
}

/// What planning a copy of `path` does, given whether `path` exists: a
/// missing item or one without a parent folder is refused with its message;
/// otherwise the copy goes to the first candidate name in the parent folder
/// that the file system answered is free (`disk_answered`), and when every
/// candidate the counter reaches was taken the copy is refused.
pub open spec fn duplicate_planned(
    m: BrowserModel,
    path: PathModel,
    exists: bool,
    r: Option<ContentPath>,
    after: BrowserModel,
) -> bool {
    if !exists {
        r is None && after == (BrowserModel { feedback: Some(FeedbackView::Error("Item no longer exists."@)), ..m })
    } else {
        match parent_model(path) {
            None => r is None && after == (BrowserModel {
                feedback: Some(FeedbackView::Error("Cannot duplicate this item."@)),
                ..m
            }),
            Some(parent) => match r {
                Some(dest) => {
                    &&& after == m
                    &&& exists|n: nat|
                        #![trigger copy_candidate(copy_base(path), split_name_model(path).1, n)]
                        {
                            &&& 1 <= n < COPY_LIMIT
                            &&& dest@ == push_model(parent, copy_candidate(copy_base(path), split_name_model(path).1, n))
                            &&& disk_answered(dest@, false)
                            &&& forall|k: nat|
                                1 <= k < n ==> disk_answered(
                                    push_model(parent, #[trigger] copy_candidate(copy_base(path), split_name_model(path).1, k)),
                                    true,
                                )
                        }
                },
                None => {
                    &&& after == (BrowserModel {
                        feedback: Some(FeedbackView::Error("Cannot duplicate this item."@)),
                        ..m
                    })
                    &&& forall|k: nat|
                        1 <= k < COPY_LIMIT ==> disk_answered(
                            push_model(parent, #[trigger] copy_candidate(copy_base(path), split_name_model(path).1, k)),
                            true,
                        )
                },
            },
        }
    }
}

/// What planning a move into `target` does, given whether the item being
/// moved (`se`) and `target` (`te`) exist: the outcome of `move_check`, with
/// the message and the dropped move it asks for; for a move that may go
/// ahead, the item and a free destination in `target` with the item's name
/// (`None` only when every name the counter reaches was taken).
pub open spec fn move_planned(
    m: BrowserModel,
    target: PathModel,
    se: bool,
    te: bool,
    r: Option<(ContentPath, ContentPath)>,
    after: BrowserModel,
) -> bool {
    match move_check(m, target, se, te) {
        MoveCheck::Idle => r is None && after == m,
        MoveCheck::Refused(msg, drop) => r is None && after == (BrowserModel {
            feedback: Some(FeedbackView::Error(msg)),
            pending_move: if drop {
                None
            } else {
                m.pending_move
            },
            ..m
        }),
        MoveCheck::AlreadyThere(msg) => r is None && after == (BrowserModel {
            feedback: Some(FeedbackView::Info(msg)),
            pending_move: None,
            ..m
        }),
        MoveCheck::Move(source, first) => after == m && match r {
            Some((s, d)) => {
                &&& s@ == source
                &&& exists|n: nat|
                    1 <= n && d@ == push_model(
                        target,
                        #[trigger] copy_candidate(split_name_model(source).0, split_name_model(source).1, n),
                    )
            },
            None => true,
        },
    }
}

impl AssetBrowserState {
    /// Nothing selected, no message, no root seen yet.
    pub fn new() -> (r: Self)
        ensures
            r@ == (BrowserModel {
                selected_folder: None,
                selected_item: None,
                renaming_item: None,
                pending_move: None,
                rename_buffer: seq![],
                rename_needs_focus: false,
                new_folder_name: seq![],
                feedback: None,
                last_root: None,
            }),
    {
        let r = AssetBrowserState {
            selected_folder: None,
            selected_item: None,
            renaming_item: None,
            pending_move: None,
            rename_buffer: String::new(),
            rename_needs_focus: false,
            new_folder_name: String::new(),
            feedback: None,
            last_root: None,
        };
        proof {
            assert(r@.rename_buffer =~= Seq::<char>::empty());
            assert(r@.new_folder_name =~= Seq::<char>::empty());
        }
        r
    }

    /// The folder new items go to; see `selected_folder_model`.
    pub fn selected_folder(&self, content_root: &ContentPath) -> (r: ContentPath)
        ensures
            r@ == selected_folder_model(self@, content_root@),
    {
        match &self.selected_folder {
            Some(s) => if s.starts_with(content_root) {
                s.duplicate()
            } else {
                content_root.duplicate()
            },
            None => content_root.duplicate(),
        }
    }

    /// Shows an error.
    pub fn report_error(&mut self, message: String)
        ensures
            final(self)@ == (BrowserModel { feedback: Some(FeedbackView::Error(message@)), ..old(self)@ }),
    {
        self.feedback = Some(Feedback::Error(message));
    }

    /// Shows a notice.
    pub fn report_info(&mut self, message: String)
        ensures
            final(self)@ == (BrowserModel { feedback: Some(FeedbackView::Info(message@)), ..old(self)@ }),
    {
        self.feedback = Some(Feedback::Info(message));
    }

    /// The message shown, if any.
    pub fn feedback(&self) -> (r: Option<&Feedback>)
        ensures
            match r {
                Some(f) => self@.feedback == feedback_view(Some(*f)),
                None => self@.feedback is None,
            },
    {
        match &self.feedback {
            Some(f) => Some(f),
            None => None,
        }
    }

    /// Takes note of the content root shown; when it differs from the last
    /// one, everything is forgotten and the root selected. Returns whether
    /// that happened (cached listings are stale then).
    pub fn sync_root(&mut self, root: &ContentPath) -> (changed: bool)
        ensures
            changed == (old(self)@.last_root != Some(root@)),
            final(self)@ == if changed {
                reset_for_root(old(self)@, root@)
            } else {
                old(self)@
            },
    {
        let same = match &self.last_root {
            Some(previous) => previous.same_as(root),
            None => false,
        };
        if same {
            return false;
        }
        self.last_root = Some(root.duplicate());
        self.selected_folder = Some(root.duplicate());
        self.selected_item = None;
        self.renaming_item = None;
        self.pending_move = None;
        self.feedback = None;
        self.new_folder_name = String::new();
        self.rename_buffer = String::new();
        proof {
            assert(self@.new_folder_name =~= Seq::<char>::empty());
            assert(self@.rename_buffer =~= Seq::<char>::empty());
        }
        true
    }

    /// Checks the selection against the root, given what the file system
    /// says: whether the selected folder is a folder, whether the selected
    /// item exists, whether the item being moved exists. See
    /// `refresh_model`.
    pub fn refresh_selection_with(&mut self, root: &ContentPath, folder_is_dir: bool, item_exists: bool, pending_exists: bool)
        ensures
            final(self)@ == refresh_model(old(self)@, root@, folder_is_dir, item_exists, pending_exists),
    {
        let keep_folder = match &self.selected_folder {
            Some(s) => s.starts_with(root) && folder_is_dir,
            None => false,
        };
        if !keep_folder {
            self.selected_folder = Some(root.duplicate());
        }
        let drop_item = match &self.selected_item {
            Some(item) => !item.starts_with(root) || !item_exists,
            None => false,
        };
        if drop_item {
            let same = match (&self.pending_move, &self.selected_item) {
                (Some(p), Some(i)) => p.same_as(i),
                _ => false,
            };
            if same {
                self.pending_move = None;
            }
            self.selected_item = None;
        }
        if self.pending_move.is_some() && !pending_exists {
            self.pending_move = None;
        }
    }

    /// Checks the selection against the root and the file system: the file
    /// system is asked whether the selected folder is a folder and whether
    /// the selected item and the item being moved exist, and its answers
    /// decide as in `refresh_selection_with`.
    pub fn refresh_selection(&mut self, root: &ContentPath)
        ensures
            final(self)@.selected_folder is Some,
            exists|folder_is_dir: bool, item_exists: bool, pending_exists: bool|
                {
                    &&& final(self)@ == #[trigger] refresh_model(
                        old(self)@,
                        root@,
                        folder_is_dir,
                        item_exists,
                        pending_exists,
                    )
                    &&& match old(self)@.selected_folder {
                        Some(f) => dir_answered(f, folder_is_dir),
                        None => !folder_is_dir,
                    }
                    &&& match old(self)@.selected_item {
                        Some(i) => disk_answered(i, item_exists),
                        None => !item_exists,
                    }
                    &&& match old(self)@.pending_move {
                        Some(m) => disk_answered(m, pending_exists),
                        None => !pending_exists,
                    }
                },
    {
        let folder_is_dir = match &self.selected_folder {
            Some(s) => is_dir_on_disk(s),
            None => false,
        };
        let item_exists = match &self.selected_item {
            Some(i) => exists_on_disk(i),
            None => false,
        };
        let pending_exists = match &self.pending_move {
            Some(p) => exists_on_disk(p),
            None => false,
        };
        self.refresh_selection_with(root, folder_is_dir, item_exists, pending_exists);
    }

    /// Selects a folder from the folder tree.
    pub fn select_folder(&mut self, folder: &ContentPath)
        ensures
            final(self)@ == (BrowserModel {
                selected_folder: Some(folder@),
                feedback: None,
                new_folder_name: seq![],
                ..old(self)@
            }),
    {
        self.selected_folder = Some(folder.duplicate());
        self.feedback = None;
        self.new_folder_name = String::new();
        proof {
            assert(self@.new_folder_name =~= Seq::<char>::empty());
        }
    }

    /// Selects an entry of the listing.
    pub fn select_item(&mut self, item: &ContentPath)
        ensures
            final(self)@ == (BrowserModel { selected_item: Some(item@), feedback: None, ..old(self)@ }),
    {
        self.selected_item = Some(item.duplicate());
        self.feedback = None;
    }

    /// Opens a folder of the listing.
    pub fn open_folder(&mut self, folder: &ContentPath)
        ensures
            final(self)@ == (BrowserModel {
                selected_folder: Some(folder@),
                selected_item: None,
                feedback: None,
                new_folder_name: seq![],
                ..old(self)@
            }),
    {
        self.selected_folder = Some(folder.duplicate());
        self.selected_item = None;
        self.feedback = None;
        self.new_folder_name = String::new();
        proof {
            assert(self@.new_folder_name =~= Seq::<char>::empty());
        }
    }

    /// The name typed for a new folder changed; the message goes.
    pub fn edit_new_folder_name(&mut self, name: String)
        ensures
            final(self)@ == (BrowserModel { new_folder_name: name@, feedback: None, ..old(self)@ }),
    {
        self.new_folder_name = name;
        self.feedback = None;
    }

    pub fn new_folder_name(&self) -> (r: &String)
        ensures
            r@ == self@.new_folder_name,
    {
        &self.new_folder_name
    }

    /// Checks the folder to create in `parent`, given whether `parent`
    /// exists: the path to create, or `None` with the reason shown; see
    /// `create_folder_check`.
    pub fn plan_create_folder_with(&mut self, parent: &ContentPath, parent_exists: bool) -> (r: Option<ContentPath>)
        ensures
            folder_planned(old(self)@, parent@, parent_exists, r, final(self)@),
    {
        let name = trim_whitespace(self.new_folder_name.as_str());
        if name.as_str().unicode_len() == 0 {
            self.feedback = Some(Feedback::Error(string_from("Folder name cannot be empty.")));
            return None;
        }
        if name_has_separator(name.as_str()) {
            self.feedback = Some(
                Feedback::Error(string_from("Folder name cannot contain path separators or ':' characters.")),
            );
            return None;
        }
        if !parent_exists {
            self.feedback = Some(Feedback::Error(string_from("Selected folder no longer exists.")));
            return None;
        }
        Some(parent.join_name(name.as_str()))
    }

    /// Checks the folder to create in `parent`: the file system is asked
    /// whether `parent` exists, and its answer decides as in
    /// `plan_create_folder_with`.
    pub fn plan_create_folder(&mut self, parent: &ContentPath) -> (r: Option<ContentPath>)
        ensures
            exists|found: bool|
                #![trigger folder_planned(old(self)@, parent@, found, r, final(self)@)]
                disk_answered(parent@, found) && folder_planned(old(self)@, parent@, found, r, final(self)@),
    {
        let exists = exists_on_disk(parent);
        self.plan_create_folder_with(parent, exists)
    }

    /// Takes in how creating the folder `new_path` went: on success the
    /// folder is selected and the name cleared; a message says what
    /// happened.
    pub fn finish_create_folder(&mut self, new_path: &ContentPath, outcome: FolderCreation)
        ensures
            ({
                let name = trim_ws(old(self)@.new_folder_name);
                match outcome {
                    FolderCreation::Created => final(self)@ == (BrowserModel {
                        feedback: Some(FeedbackView::Info(quoted("Created folder "@, name, "."@))),
                        new_folder_name: seq![],
                        selected_folder: Some(new_path@),
                        ..old(self)@
                    }),
                    FolderCreation::AlreadyExists => final(self)@ == (BrowserModel {
                        feedback: Some(FeedbackView::Error(quoted("Folder "@, name, " already exists."@))),
                        ..old(self)@
                    }),
                    FolderCreation::Failed(err) => final(self)@ == (BrowserModel {
                        feedback: Some(FeedbackView::Error(quoted("Failed to create folder "@, name, ": "@ + err@))),
                        ..old(self)@
                    }),
                }
            }),
    {
        let name = trim_whitespace(self.new_folder_name.as_str());
        match outcome {
            FolderCreation::Created => {
                self.feedback = Some(Feedback::Info(quote("Created folder ", name.as_str(), ".")));
                self.new_folder_name = String::new();
                self.selected_folder = Some(new_path.duplicate());
                proof {
                    assert(self@.new_folder_name =~= Seq::<char>::empty());
                }
            },
            FolderCreation::AlreadyExists => {
                self.feedback = Some(Feedback::Error(quote("Folder ", name.as_str(), " already exists.")));
            },
            FolderCreation::Failed(err) => {
                let tail = concat(": ", err.as_str());
                self.feedback = Some(Feedback::Error(quote("Failed to create folder ", name.as_str(), tail.as_str())));
            },
        }
    }

    /// Starts renaming `path`, with its file name as the text to edit;
    /// nothing happens for a path without a file name.
    pub fn start_rename(&mut self, path: &ContentPath)
        ensures
            match file_name_model(path@) {
                Some(n) => final(self)@ == (BrowserModel {
                    renaming_item: Some(path@),
                    rename_buffer: n,
                    rename_needs_focus: true,
                    feedback: None,
                    ..old(self)@
                }),
                None => final(self)@ == old(self)@,
            },
    {
        match path.file_name() {
            Some(n) => {
                self.renaming_item = Some(path.duplicate());
                self.rename_buffer = n;
                self.rename_needs_focus = true;
                self.feedback = None;
            },
            None => {},
        }
    }

    /// The text typed for the new name changed.
    pub fn edit_rename_buffer(&mut self, text: String)
        ensures
            final(self)@ == (BrowserModel { rename_buffer: text@, ..old(self)@ }),
    {
        self.rename_buffer = text;
    }

    pub fn rename_buffer(&self) -> (r: &String)
        ensures
            r@ == self@.rename_buffer,
    {
        &self.rename_buffer
    }

    /// Whether the rename field must take the focus now; asked once.
    pub fn take_rename_focus(&mut self) -> (r: bool)
        ensures
            r == old(self)@.rename_needs_focus,
            final(self)@ == (BrowserModel { rename_needs_focus: false, ..old(self)@ }),
    {
        let r = self.rename_needs_focus;
        self.rename_needs_focus = false;
        r
    }

    /// Drops the rename in progress.
    pub fn cancel_rename(&mut self)
        ensures
            final(self)@ == (BrowserModel {
                renaming_item: None,
                rename_buffer: seq![],
                rename_needs_focus: false,
                ..old(self)@
            }),
    {
        self.renaming_item = None;
        self.rename_buffer = String::new();
        self.rename_needs_focus = false;
        proof {
            assert(self@.rename_buffer =~= Seq::<char>::empty());
        }
    }

    /// The path `original` would be renamed to; see
    /// `rename_candidate_model`.
    pub fn rename_candidate(&self, original: &ContentPath) -> (r: Option<ContentPath>)
        ensures
            path_view(r) == rename_candidate_model(original@, self@.rename_buffer),
    {
        let parent = match original.parent() {
            Some(p) => p,
            None => return None,
        };
        let new_name = trim_whitespace(self.rename_buffer.as_str());
        let extension = match original.file_name() {
            Some(n) => crate::paths::file_extension(n.as_str()),
            None => None,
        };
        let name = match &extension {
            Some(e) => apply_extension(new_name.as_str(), Some(e.as_str())),
            None => apply_extension(new_name.as_str(), None),
        };
        Some(parent.join_name(name.as_str()))
    }

    /// Checks the rename of `original`, given whether its new path is
    /// taken: the path to rename to, or `None` (the reason shown, or the
    /// rename dropped when the name did not change). See `rename_check`.
    pub fn plan_rename_with(&mut self, original: &ContentPath, candidate_exists: bool) -> (r: Option<ContentPath>)
        ensures
            rename_planned(old(self)@, original@, candidate_exists, r, final(self)@),
    {
        let renaming = match &self.renaming_item {
            Some(current) => current.same_as(original),
            None => false,
        };
        if !renaming {
            return None;
        }
        let new_name = trim_whitespace(self.rename_buffer.as_str());
        if new_name.as_str().unicode_len() == 0 {
            self.feedback = Some(Feedback::Error(string_from("Name cannot be empty.")));
            return None;
        }
        if name_has_separator(new_name.as_str()) {
            self.feedback = Some(
                Feedback::Error(string_from("Names cannot contain path separators or ':' characters.")),
            );
            return None;
        }
        let candidate = match self.rename_candidate(original) {
            Some(c) => c,
            None => {
                self.feedback = Some(Feedback::Error(string_from("Cannot rename this item.")));
                return None;
            },
        };
        if candidate.same_as(original) {
            self.cancel_rename();
            return None;
        }
        if candidate_exists {
            self.feedback = Some(Feedback::Error(string_from("Another item with that name already exists.")));
            return None;
        }
        Some(candidate)
    }

    /// Checks the rename of `original`: the file system is asked whether its
    /// new path (`rename_candidate_model`) is taken, and its answer decides
    /// as in `plan_rename_with`.
    pub fn plan_rename(&mut self, original: &ContentPath) -> (r: Option<ContentPath>)
        ensures
            exists|taken: bool|
                #![trigger rename_planned(old(self)@, original@, taken, r, final(self)@)]
                {
                    &&& rename_planned(old(self)@, original@, taken, r, final(self)@)
                    &&& match rename_candidate_model(original@, old(self)@.rename_buffer) {
                        Some(c) => disk_answered(c, taken),
                        None => !taken,
                    }
                },
    {
        let exists = match self.rename_candidate(original) {
            Some(c) => exists_on_disk(&c),
            None => false,
        };
        self.plan_rename_with(original, exists)
    }

    /// Takes in how renaming `original` to `renamed` went: on success the
    /// rename ends and the selection, the selected folder and the move in
    /// progress follow the item; a message says what happened. Returns
    /// whether the item was renamed.
    pub fn finish_rename(&mut self, original: &ContentPath, renamed: &ContentPath, outcome: Result<(), String>) -> (r:
        bool)
        ensures
            r == outcome is Ok,
            outcome is Ok ==> final(self)@ == (BrowserModel {
                feedback: Some(
                    FeedbackView::Info(
                        quoted("Renamed "@, shown_name(original@), " to "@ + "'"@ + shown_name(renamed@) + "'"@),
                    ),
                ),
                renaming_item: None,
                rename_buffer: seq![],
                selected_item: remap(old(self)@.selected_item, original@, renamed@),
                selected_folder: remap(old(self)@.selected_folder, original@, renamed@),
                pending_move: remap(old(self)@.pending_move, original@, renamed@),
                ..old(self)@
            }),
            outcome matches Err(e) ==> final(self)@ == (BrowserModel {
                feedback: Some(FeedbackView::Error(quoted("Failed to rename "@, shown_name(original@), ": "@ + e@))),
                ..old(self)@
            }),
    {
        match outcome {
            Ok(()) => {
                let from = crate::paths::display_name(original);
                let to = crate::paths::display_name(renamed);
                let tail = quote(" to ", to.as_str(), "");
                self.feedback = Some(Feedback::Info(quote("Renamed ", from.as_str(), tail.as_str())));
                self.renaming_item = None;
                self.rename_buffer = String::new();
                self.selected_item = remap_path(&self.selected_item, original, renamed);
                self.selected_folder = remap_path(&self.selected_folder, original, renamed);
                self.pending_move = remap_path(&self.pending_move, original, renamed);
                proof {
                    reveal_strlit("");
                    reveal_strlit("<item>");
                    assert(self@.rename_buffer =~= Seq::<char>::empty());
                    assert(quoted(" to "@, shown_name(renamed@), ""@) =~= " to "@ + "'"@ + shown_name(renamed@) + "'"@);
                    assert(from@ =~= shown_name(original@));
                    assert(to@ =~= shown_name(renamed@));
                }
                true
            },
            Err(e) => {
                proof {
                    reveal_strlit("<item>");
                }
                let name = crate::paths::display_name(original);
                proof {
                    assert(name@ =~= shown_name(original@));
                }
                let tail = concat(": ", e.as_str());
                self.feedback = Some(Feedback::Error(quote("Failed to rename ", name.as_str(), tail.as_str())));
                false
            },
        }
    }
}

impl AssetBrowserState {
    /// Checks duplicating `path`, given whether it exists: the folder the
    /// copy goes to and the copy's base name and extension, or `None` with
    /// the reason shown.
    pub fn plan_duplicate_with(&mut self, path: &ContentPath, exists: bool) -> (r: Option<(ContentPath, String, Option<String>)>)
        ensures
            !exists ==> r is None && final(self)@ == (BrowserModel {
                feedback: Some(FeedbackView::Error("Item no longer exists."@)),
                ..old(self)@
            }),
            exists && parent_model(path@) is None ==> r is None && final(self)@ == (BrowserModel {
                feedback: Some(FeedbackView::Error("Cannot duplicate this item."@)),
                ..old(self)@
            }),
            exists && parent_model(path@) is Some ==> match r {
                Some((parent, base, ext)) => {
                    &&& Some(parent@) == parent_model(path@)
                    &&& base@ == split_name_model(path@).0 + " copy"@
                    &&& opt_string_view(ext) == split_name_model(path@).1
                    &&& final(self)@ == old(self)@
                },
                None => false,
            },
    {
        if !exists {
            self.feedback = Some(Feedback::Error(string_from("Item no longer exists.")));
            return None;
        }
        let parent = match path.parent() {
            Some(p) => p,
            None => {
                self.feedback = Some(Feedback::Error(string_from("Cannot duplicate this item.")));
                return None;
            },
        };
        let (base, extension) = split_name(path);
        let copy_base = concat(base.as_str(), " copy");
        Some((parent, copy_base, extension))
    }

    /// Where a copy of `path` goes: the first name `<base> copy`, `<base>
    /// copy 2`, ... (with the extension) not taken in its folder; whether
    /// `path` exists and which names are taken are read from the file
    /// system (`disk_answered`). `None` with the reason shown when it cannot
    /// be copied.
    pub fn plan_duplicate(&mut self, path: &ContentPath) -> (r: Option<ContentPath>)
        ensures
            exists|found: bool|
                #![trigger duplicate_planned(old(self)@, path@, found, r, final(self)@)]
                disk_answered(path@, found) && duplicate_planned(old(self)@, path@, found, r, final(self)@),
    {
        let exists = exists_on_disk(path);
        let ghost before = self@;
        let r = match self.plan_duplicate_with(path, exists) {
            Some((parent, base, extension)) => {
                let ghost ext = split_name_model(path@).1;
                let dest = match &extension {
                    Some(e) => unique_path(&parent, base.as_str(), Some(e.as_str())),
                    None => unique_path(&parent, base.as_str(), None),
                };
                proof {
                    assert(base@ == copy_base(path@));
                    assert(opt_string_view(extension) == ext);
                }
                match dest {
                    Some(d) => {
                        proof {
                            let n = choose|n: nat|
                                #![trigger copy_candidate(base@, ext, n)]
                                {
                                    &&& 1 <= n < COPY_LIMIT
                                    &&& d@ == copy_path(parent@, base@, ext, n)
                                    &&& disk_answered(d@, false)
                                    &&& forall|k: nat|
                                        1 <= k < n ==> disk_answered(
                                            push_model(parent@, #[trigger] copy_candidate(base@, ext, k)),
                                            true,
                                        )
                                };
                            assert(copy_candidate(copy_base(path@), ext, n) == copy_candidate(base@, ext, n));
                        }
                        Some(d)
                    },
                    None => {
                        self.feedback = Some(Feedback::Error(string_from("Cannot duplicate this item.")));
                        None
                    },
                }
            },
            None => None,
        };
        proof {
            assert(duplicate_planned(before, path@, exists, r, self@));
        }
        r
    }

    /// Takes in how copying `path` to `copy` went: on success the copy is
    /// selected; a message says what happened. Returns whether it was
    /// copied.
    pub fn finish_duplicate(&mut self, path: &ContentPath, copy: &ContentPath, outcome: Result<(), String>) -> (r: bool)
        ensures
            r == outcome is Ok,
            outcome is Ok ==> final(self)@ == (BrowserModel {
                feedback: Some(FeedbackView::Info(quoted("Duplicated "@, shown_name(path@), ""@))),
                selected_item: Some(copy@),
                ..old(self)@
            }),
            outcome matches Err(e) ==> final(self)@ == (BrowserModel {
                feedback: Some(FeedbackView::Error(quoted("Failed to duplicate "@, shown_name(path@), ": "@ + e@))),
                ..old(self)@
            }),
    {
        proof {
            reveal_strlit("<item>");
        }
        let name = crate::paths::display_name(path);
        proof {
            assert(name@ =~= shown_name(path@));
        }
        match outcome {
            Ok(()) => {
                self.feedback = Some(Feedback::Info(quote("Duplicated ", name.as_str(), "")));
                self.selected_item = Some(copy.duplicate());
                true
            },
            Err(e) => {
                let tail = concat(": ", e.as_str());
                self.feedback = Some(Feedback::Error(quote("Failed to duplicate ", name.as_str(), tail.as_str())));
                false
            },
        }
    }

    /// Checks deleting `path`, given whether it exists; a missing item is
    /// reported. Returns whether to delete it.
    pub fn plan_delete_with(&mut self, exists: bool) -> (r: bool)
        ensures
            r == exists,
            exists ==> final(self)@ == old(self)@,
            !exists ==> final(self)@ == (BrowserModel {
                feedback: Some(FeedbackView::Error("Item no longer exists."@)),
                ..old(self)@
            }),
    {
        if !exists {
            self.feedback = Some(Feedback::Error(string_from("Item no longer exists.")));
            return false;
        }
        true
    }

    /// Checks deleting `path`: the file system is asked whether it exists,
    /// and its answer decides as in `plan_delete_with`.
    pub fn plan_delete(&mut self, path: &ContentPath) -> (r: bool)
        ensures
            disk_answered(path@, r),
            r ==> final(self)@ == old(self)@,
            !r ==> final(self)@ == (BrowserModel {
                feedback: Some(FeedbackView::Error("Item no longer exists."@)),
                ..old(self)@
            }),
    {
        let exists = exists_on_disk(path);
        self.plan_delete_with(exists)
    }

    /// Takes in how deleting `path` went: on success the selection and the
    /// move drop it, and a selected folder inside it falls back to `root`; a
    /// message says what happened. Returns whether it was deleted.
    pub fn finish_delete(&mut self, root: &ContentPath, path: &ContentPath, outcome: Result<(), String>) -> (r: bool)
        ensures
            r == outcome is Ok,
            outcome is Ok ==> final(self)@ == (BrowserModel {
                feedback: Some(FeedbackView::Info(quoted("Deleted "@, shown_name(path@), ""@))),
                selected_item: if old(self)@.selected_item == Some(path@) {
                    None
                } else {
                    old(self)@.selected_item
                },
                pending_move: if old(self)@.pending_move == Some(path@) {
                    None
                } else {
                    old(self)@.pending_move
                },
                selected_folder: match old(self)@.selected_folder {
                    Some(f) => if starts_with_model(f, path@) {
                        Some(root@)
                    } else {
                        Some(f)
                    },
                    None => None,
                },
                ..old(self)@
            }),
            outcome matches Err(e) ==> final(self)@ == (BrowserModel {
                feedback: Some(FeedbackView::Error(quoted("Failed to delete "@, shown_name(path@), ": "@ + e@))),
                ..old(self)@
            }),
    {
        proof {
            reveal_strlit("<item>");
        }
        let name = crate::paths::display_name(path);
        proof {
            assert(name@ =~= shown_name(path@));
        }
        match outcome {
            Ok(()) => {
                self.feedback = Some(Feedback::Info(quote("Deleted ", name.as_str(), "")));
                let drop_item = match &self.selected_item {
                    Some(i) => i.same_as(path),
                    None => false,
                };
                if drop_item {
                    self.selected_item = None;
                }
                let drop_move = match &self.pending_move {
                    Some(p) => p.same_as(path),
                    None => false,
                };
                if drop_move {
                    self.pending_move = None;
                }
                let reset_folder = match &self.selected_folder {
                    Some(f) => f.starts_with(path),
                    None => false,
                };
                if reset_folder {
                    self.selected_folder = Some(root.duplicate());
                }
                true
            },
            Err(e) => {
                let tail = concat(": ", e.as_str());
                self.feedback = Some(Feedback::Error(quote("Failed to delete ", name.as_str(), tail.as_str())));
                false
            },
        }
    }

    /// Starts moving `path`, given whether it exists; nothing happens when
    /// it does not.
    pub fn begin_move_with(&mut self, path: &ContentPath, exists: bool)
        ensures
            exists ==> final(self)@ == (BrowserModel {
                pending_move: Some(path@),
                feedback: Some(FeedbackView::Info("Select a destination folder and click 'Move Here'."@)),
                ..old(self)@
            }),
            !exists ==> final(self)@ == old(self)@,
    {
        if exists {
            self.pending_move = Some(path.duplicate());
            self.feedback = Some(Feedback::Info(string_from("Select a destination folder and click 'Move Here'.")));
        }
    }

    /// Starts moving `path`: the file system is asked whether it exists,
    /// and its answer decides as in `begin_move_with`.
    pub fn begin_move(&mut self, path: &ContentPath)
        ensures
            exists|found: bool|
                #[trigger] disk_answered(path@, found) && (found ==> final(self)@ == (BrowserModel {
                    pending_move: Some(path@),
                    feedback: Some(FeedbackView::Info("Select a destination folder and click 'Move Here'."@)),
                    ..old(self)@
                })) && (!found ==> final(self)@ == old(self)@),
    {
        let exists = exists_on_disk(path);
        self.begin_move_with(path, exists);
    }

    /// Drops the move in progress and the message.
    pub fn cancel_move(&mut self)
        ensures
            final(self)@ == (BrowserModel { pending_move: None, feedback: None, ..old(self)@ }),
    {
        self.pending_move = None;
        self.feedback = None;
    }

    /// The item being moved, if any.
    pub fn pending_move(&self) -> (r: Option<&ContentPath>)
        ensures
            path_view(match r {
                Some(p) => Some(*p),
                None => None,
            }) == self@.pending_move,
    {
        match &self.pending_move {
            Some(p) => Some(p),
            None => None,
        }
    }

    /// Checks moving the pending item into `target`, given whether the item
    /// and `target` exist: the item and the destination to try first, or
    /// `None` with the reason shown; see `move_check`.
    pub fn plan_move_with(&mut self, target: &ContentPath, source_exists: bool, target_exists: bool) -> (r: Option<
        (ContentPath, ContentPath),
    >)
        ensures
            match move_check(old(self)@, target@, source_exists, target_exists) {
                MoveCheck::Idle => r is None && final(self)@ == old(self)@,
                MoveCheck::Refused(msg, drop) => r is None && final(self)@ == (BrowserModel {
                    feedback: Some(FeedbackView::Error(msg)),
                    pending_move: if drop {
                        None
                    } else {
                        old(self)@.pending_move
                    },
                    ..old(self)@
                }),
                MoveCheck::AlreadyThere(msg) => r is None && final(self)@ == (BrowserModel {
                    feedback: Some(FeedbackView::Info(msg)),
                    pending_move: None,
                    ..old(self)@
                }),
                MoveCheck::Move(source, first) => match r {
                    Some((s, d)) => s@ == source && d@ == first && final(self)@ == old(self)@,
                    None => false,
                },
            },
    {
        let source = match &self.pending_move {
            Some(s) => s.duplicate(),
            None => return None,
        };
        if !source_exists {
            self.feedback = Some(Feedback::Error(string_from("Item no longer exists.")));
            self.pending_move = None;
            return None;
        }
        if !target_exists {
            self.feedback = Some(Feedback::Error(string_from("Destination folder no longer exists.")));
            return None;
        }
        if source.same_as(target) {
            self.feedback = Some(Feedback::Error(string_from("Cannot move a folder into itself.")));
            return None;
        }
        if target.starts_with(&source) {
            self.feedback = Some(Feedback::Error(string_from("Cannot move a folder into one of its subfolders.")));
            return None;
        }
        let already_there = match source.parent() {
            Some(p) => p.same_as(target),
            None => false,
        };
        if already_there {
            self.feedback = Some(Feedback::Info(string_from("Item is already in this folder.")));
            self.pending_move = None;
            return None;
        }
        if source.file_name().is_none() {
            self.feedback = Some(Feedback::Error(string_from("Cannot move this item.")));
            return None;
        }
        let (base, extension) = split_name(&source);
        let name = match &extension {
            Some(e) => apply_extension(base.as_str(), Some(e.as_str())),
            None => apply_extension(base.as_str(), None),
        };
        let first = target.join_name(name.as_str());
        Some((source, first))
    }

    /// Checks moving the pending item into `target` and picks its
    /// destination: the item's own name there, or, when that is taken, the
    /// first free name `<base>`, `<base> 2`, ... What exists is read from
    /// the file system (`disk_answered`).
    pub fn plan_move(&mut self, target: &ContentPath) -> (r: Option<(ContentPath, ContentPath)>)
        ensures
            exists|se: bool, te: bool|
                {
                    &&& #[trigger] move_planned(old(self)@, target@, se, te, r, final(self)@)
                    &&& disk_answered(target@, te)
                    &&& match old(self)@.pending_move {
                        Some(s) => disk_answered(s, se),
                        None => !se,
                    }
                },
            match r {
                Some((s, d)) => {
                    &&& old(self)@.pending_move == Some(s@)
                    &&& exists|n: nat|
                        #![trigger copy_candidate(split_name_model(s@).0, split_name_model(s@).1, n)]
                        {
                            &&& 1 <= n < COPY_LIMIT
                            &&& d@ == push_model(target@, copy_candidate(split_name_model(s@).0, split_name_model(s@).1, n))
                            &&& disk_answered(d@, false)
                            &&& forall|m: nat|
                                1 <= m < n ==> disk_answered(
                                    push_model(
                                        target@,
                                        #[trigger] copy_candidate(split_name_model(s@).0, split_name_model(s@).1, m),
                                    ),
                                    true,
                                )
                        }
                    &&& final(self)@ == old(self)@
                },
                None => true,
            },
    {
        let source_exists = match &self.pending_move {
            Some(s) => exists_on_disk(s),
            None => false,
        };
        let target_exists = exists_on_disk(target);
        let ghost before = self@;
        let planned = self.plan_move_with(target, source_exists, target_exists);
        let r = match planned {
            Some((source, first)) => {
                if !exists_on_disk(&first) {
                    proof {
                        assert(copy_candidate(split_name_model(source@).0, split_name_model(source@).1, 1)
                            == with_extension(split_name_model(source@).0, split_name_model(source@).1));
                    }
                    Some((source, first))
                } else {
                    let (base, extension) = split_name(&source);
                    let dest = match &extension {
                        Some(e) => unique_path(target, base.as_str(), Some(e.as_str())),
                        None => unique_path(target, base.as_str(), None),
                    };
                    match dest {
                        Some(d) => Some((source, d)),
                        None => None,
                    }
                }
            },
            None => None,
        };
        proof {
            assert(move_planned(before, target@, source_exists, target_exists, r, self@));
        }
        r
    }

    /// Takes in how moving `source` to `destination` went: on success the
    /// selection and the selected folder follow the item and the move ends;
    /// a message says what happened. Returns whether it was moved.
    pub fn finish_move(&mut self, source: &ContentPath, destination: &ContentPath, outcome: Result<(), String>) -> (r:
        bool)
        ensures
            r == outcome is Ok,
            outcome is Ok ==> final(self)@ == (BrowserModel {
                feedback: Some(FeedbackView::Info(quoted("Moved "@, shown_name(source@), ""@))),
                selected_item: remap(old(self)@.selected_item, source@, destination@),
                selected_folder: remap(old(self)@.selected_folder, source@, destination@),
                pending_move: None,
                ..old(self)@
            }),
            outcome matches Err(e) ==> final(self)@ == (BrowserModel {
                feedback: Some(FeedbackView::Error(quoted("Failed to move "@, shown_name(source@), ": "@ + e@))),
                ..old(self)@
            }),
    {
        proof {
            reveal_strlit("<item>");
        }
        let name = crate::paths::display_name(source);
        proof {
            assert(name@ =~= shown_name(source@));
        }
        match outcome {
            Ok(()) => {
                self.feedback = Some(Feedback::Info(quote("Moved ", name.as_str(), "")));
                self.selected_item = remap_path(&self.selected_item, source, destination);
                self.selected_folder = remap_path(&self.selected_folder, source, destination);
                self.pending_move = None;
                true
            },
            Err(e) => {
                let tail = concat(": ", e.as_str());
                self.feedback = Some(Feedback::Error(quote("Failed to move ", name.as_str(), tail.as_str())));
                false
            },
        }
    }
}

/// A move that the checks let through never puts an item inside itself:
/// its destination does not lie in (nor is) the item.
pub proof fn lemma_move_stays_outside_source(
    m: BrowserModel,
    target: PathModel,
    source_exists: bool,
    target_exists: bool,
)
    ensures
        move_check(m, target, source_exists, target_exists) matches MoveCheck::Move(s, d) ==> !starts_with_model(d, s),
{
    if let MoveCheck::Move(s, d) = move_check(m, target, source_exists, target_exists) {
        if starts_with_model(d, s) {
            if s.parts.len() <= target.parts.len() {
                assert(target.parts.subrange(0, s.parts.len() as int) =~= d.parts.subrange(0, s.parts.len() as int));
                assert(starts_with_model(target, s));
            } else {
                assert(s.parts.len() == target.parts.len() + 1);
                assert(s.parts.drop_last() =~= target.parts);
                assert(parent_model(s) == Some(target));
            }
        }
    }
}

/// The asset browser as one of the editor's systems.
pub struct AssetBrowserSystem {
    pub state: AssetBrowserState,
}

impl AssetBrowserSystem {
    pub fn new(state: AssetBrowserState) -> (r: Self)
        ensures
            r.state@ == state@,
    {
        AssetBrowserSystem { state }
    }

    pub fn state_mut(&mut self) -> (r: &mut AssetBrowserState)
        ensures
            r@ == old(self).state@,
            final(self).state@ == final(r)@,
    {
        &mut self.state
    }
}

/// The heading of the file pane: the selected folder relative to the
/// content root, or `content` for the root itself or a folder outside it.
pub open spec fn folder_heading_model(selected: PathModel, root: PathModel) -> Seq<char> {
    "Folder: "@ + match strip_prefix_model(selected, root) {
        Some(rel) => if rel.parts.len() > 0 {
            display_model(rel)
        } else {
            "content"@
        },
        None => "content"@,
    }
}

pub fn folder_heading(selected: &ContentPath, root: &ContentPath) -> (r: String)
    ensures
        r@ == folder_heading_model(selected@, root@),
{
    let relative = match selected.strip_prefix(root) {
        Some(rel) => if rel.parts.len() > 0 {
            rel.display()
        } else {
            string_from("content")
        },
        None => string_from("content"),
    };
    concat("Folder: ", relative.as_str())
}

/// The label of a folder in the folder tree: `content` for the root, else
/// its file name, or `<folder>`.
pub open spec fn folder_label_model(current: PathModel, root: PathModel) -> Seq<char> {
    if current == root {
        "content"@
    } else {
        match file_name_model(current) {
            Some(n) => n,
            None => "<folder>"@,
        }
    }
}

pub fn folder_label(current: &ContentPath, root: &ContentPath) -> (r: String)
    ensures
        r@ == folder_label_model(current@, root@),
{
    if current.same_as(root) {
        return string_from("content");
    }
    match current.file_name() {
        Some(n) => n,
        None => string_from("<folder>"),
    }
}

/// The label of an entry of the listing: an icon for folders or files,
/// then its name.
pub open spec fn entry_label_model(path: PathModel, is_directory: bool) -> Seq<char> {
    (if is_directory {
        "📁"@
    } else {
        "📄"@
    }) + " "@ + shown_name(path)
}

pub fn entry_label(path: &ContentPath, is_directory: bool) -> (r: String)
    ensures
        r@ == entry_label_model(path@, is_directory),
{
    proof {
        reveal_strlit("<item>");
    }
    let name = crate::paths::display_name(path);
    proof {
        assert(name@ =~= shown_name(path@));
    }
    let mut label = if is_directory {
        string_from("📁")
    } else {
        string_from("📄")
    };
    label.append(" ");
    label.append(name.as_str());
    label
}

/// The line over the listing while an item is being moved: `Moving:` and
/// its file name; nothing when it has none.
pub fn moving_label(pending: &ContentPath) -> (r: Option<String>)
    ensures
        match file_name_model(pending@) {
            Some(n) => r matches Some(t) && t@ == "Moving: "@ + n,
            None => r is None,
        },
{
    match pending.file_name() {
        Some(n) => Some(concat("Moving: ", n.as_str())),
        None => None,
    }
}

/// The line over the listing for the selected item, shown when it lies in
/// the selected folder.
pub fn selected_label(item: &ContentPath, selected_folder: &ContentPath) -> (r: Option<String>)
    ensures
        starts_with_model(item@, selected_folder@) ==> (r matches Some(t) && t@ == "Selected: "@ + shown_name(item@)),
        !starts_with_model(item@, selected_folder@) ==> r is None,
{
    if !item.starts_with(selected_folder) {
        return None;
    }
    proof {
        reveal_strlit("<item>");
    }
    let name = crate::paths::display_name(item);
    proof {
        assert(name@ =~= shown_name(item@));
    }
    Some(concat("Selected: ", name.as_str()))
}

/// The view of an optional owned string.
pub open spec fn opt_string_view(s: Option<String>) -> Option<Seq<char>> {
    match s {
        Some(x) => Some(x@),
        None => None,
    }
}

/// `p` with `from` replaced by `to`; see `remap`.
fn remap_path(p: &Option<ContentPath>, from: &ContentPath, to: &ContentPath) -> (r: Option<ContentPath>)
    ensures
        path_view(r) == remap(path_view(*p), from@, to@),
{
    match p {
        Some(q) => if q.same_as(from) {
            Some(to.duplicate())
        } else {
            Some(q.duplicate())
        },
        None => None,
    }
}

} // verus!
