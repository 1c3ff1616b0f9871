//! Small pieces of the editor's own state: what an inspector action changed,
//! reload notices, the game view's display, dock panes, the runtime mode
//! and the names of new scenes.

use crate::text::{decimal, decimal_string, string_from};
use vstd::prelude::*;

verus! {

/// What an inspector action changed.
#[derive(Clone, Copy, Debug, PartialEq, Eq, Structural)]
pub struct ActionResult {
    pub transforms_changed: bool,
    pub scene_changed: bool,
}

impl Default for ActionResult {
    fn default() -> (r: Self)
        ensures
            r == (ActionResult { transforms_changed: false, scene_changed: false }),
    {
        ActionResult { transforms_changed: false, scene_changed: false }
    }
}

impl ActionResult {
    /// Nothing changed.
    pub fn no_change() -> (r: Self)
        ensures
            r == (ActionResult { transforms_changed: false, scene_changed: false }),
    {
        Self::default()
    }

    /// Transforms changed, and with them the scene.
    pub fn transforms_changed() -> (r: Self)
        ensures
            r == (ActionResult { transforms_changed: true, scene_changed: true }),
    {
        ActionResult { transforms_changed: true, scene_changed: true }
    }

    /// The scene changed but no transform did.
    pub fn scene_changed() -> (r: Self)
        ensures
            r == (ActionResult { transforms_changed: false, scene_changed: true }),
    {
        ActionResult { transforms_changed: false, scene_changed: true }
    }
}

/// Whether any of a batch of actions changed transforms, so that they must
/// be propagated once after the batch.
pub fn any_transforms_changed(results: &Vec<ActionResult>) -> (r: bool)
    ensures
        r == exists|i: int| 0 <= i < results@.len() && (#[trigger] results@[i]).transforms_changed,
{
    let mut i: usize = 0;
    while i < results.len()
        invariant
            i <= results@.len(),
            forall|j: int| 0 <= j < i ==> !(#[trigger] results@[j]).transforms_changed,
        decreases results.len() - i,
    {
        if results[i].transforms_changed {
            return true;
        }
        i = i + 1;
    }
    false
}

/// How a notice is shown.
#[derive(Clone, Copy, Debug, PartialEq, Eq, Structural)]
pub enum NotificationSeverity {
    Success,
    Warning,
    Error,
}

/// A point of the monotonic clock.
#[verifier::external_type_specification]
#[verifier::external_body]
pub struct ExInstant(std::time::Instant);

/// Reads the monotonic clock (`Instant::now`); nothing is stated of the
/// value it gives.
#[verifier::external_body]
fn instant_now() -> std::time::Instant {
    std::time::Instant::now()
}

/// Time passed since `t` (`Instant::elapsed`); it depends on the clock, so
/// nothing is stated of it.
#[verifier::external_body]
fn instant_elapsed(t: &std::time::Instant) -> std::time::Duration {
    t.elapsed()
}

/// Nanoseconds in a span (`Duration::as_nanos`). Spans are opaque here, so
/// nothing is stated of the number.
#[verifier::external_body]
fn duration_nanos(d: &std::time::Duration) -> u128 {
    d.as_nanos()
}

/// Whether the clock was asked how long ago `t` was (`Instant::elapsed`)
/// and, that span counted in nanoseconds (`Duration::as_nanos`), gave `n`.
pub closed spec fn elapsed_answered(t: std::time::Instant, n: u128) -> bool {
    exists|d: std::time::Duration|
        #[trigger] call_ensures(instant_elapsed, (&t,), d) && #[trigger] call_ensures(duration_nanos, (&d,), n)
}

/// A notice about reloaded scripts, shown for a few seconds.
pub struct ReloadNotification {
    pub message: String,
    pub severity: NotificationSeverity,
    pub timestamp: std::time::Instant,
}

/// Whether a notice shown for `elapsed_nanos` nanoseconds is dismissed:
/// once it is older than five seconds.
pub fn is_expired(elapsed_nanos: u128) -> (r: bool)
    ensures
        r == (elapsed_nanos > 5_000_000_000),
{
    elapsed_nanos > 5_000_000_000
}

impl ReloadNotification {
    /// A success notice, stamped now.
    pub fn success(message: String) -> (r: Self)
        ensures
            r.message@ == message@,
            r.severity == NotificationSeverity::Success,
    {
        ReloadNotification { message, severity: NotificationSeverity::Success, timestamp: instant_now() }
    }

    /// An error notice, stamped now.
    pub fn error(message: String) -> (r: Self)
        ensures
            r.message@ == message@,
            r.severity == NotificationSeverity::Error,
    {
        ReloadNotification { message, severity: NotificationSeverity::Error, timestamp: instant_now() }
    }

    /// A warning notice, stamped now.
    pub fn warning(message: String) -> (r: Self)
        ensures
            r.message@ == message@,
            r.severity == NotificationSeverity::Warning,
    {
        ReloadNotification { message, severity: NotificationSeverity::Warning, timestamp: instant_now() }
    }

    /// Whether the notice has been shown long enough: the clock is asked
    /// how long ago the notice was stamped, and the notice goes once that is
    /// more than five seconds (see `is_expired`).
    pub fn should_dismiss(&self) -> (r: bool)
        ensures
            exists|n: u128| #[trigger] elapsed_answered(self.timestamp, n) && r == (n > 5_000_000_000),
    {
        let elapsed_since = instant_elapsed;
        let nanos_in = duration_nanos;
        let d = elapsed_since(&self.timestamp);
        let n = nanos_in(&d);
        proof {
            assert(call_ensures(instant_elapsed, (&self.timestamp,), d));
            assert(call_ensures(duration_nanos, (&d,), n));
            assert(elapsed_answered(self.timestamp, n));
        }
        is_expired(n)
    }
}

/// A notice without its time stamp.
pub struct Notice {
    pub severity: NotificationSeverity,
    pub message: Seq<char>,
}

/// The notices of a sequence, without their time stamps.
pub open spec fn notices_of(s: Seq<ReloadNotification>) -> Seq<Notice> {
    s.map_values(|n: ReloadNotification| Notice { severity: n.severity, message: n.message@ })
}

/// An error notice for each failed reload, in order.
pub open spec fn failure_notices(outcomes: Seq<Result<String, String>>) -> Seq<Notice>
    decreases outcomes.len(),
{
    if outcomes.len() == 0 {
        seq![]
    } else {
        let prev = failure_notices(outcomes.drop_last());
        match outcomes.last() {
            Ok(_) => prev,
            Err(e) => prev.push(Notice { severity: NotificationSeverity::Error, message: e@ }),
        }
    }
}

/// How many reloads succeeded.
pub open spec fn success_count(outcomes: Seq<Result<String, String>>) -> nat
    decreases outcomes.len(),
{
    if outcomes.len() == 0 {
        0
    } else {
        success_count(outcomes.drop_last()) + if outcomes.last() is Ok {
            1nat
        } else {
            0nat
        }
    }
}

/// The name of the first plugin that reloaded.
pub open spec fn first_success(outcomes: Seq<Result<String, String>>) -> Seq<char>
    decreases outcomes.len(),
{
    if outcomes.len() == 0 {
        seq![]
    } else {
        match outcomes[0] {
            Ok(name) => name@,
            Err(_) => first_success(outcomes.drop_first()),
        }
    }
}

/// The notices after a batch of plugin reloads: an error for each failure,
/// then, when any reload succeeded, one success notice (naming the plugin
/// when it was the only one) and, when some failed too, a warning with the
/// counts.
pub open spec fn reload_notices(outcomes: Seq<Result<String, String>>) -> Seq<Notice> {
    let ok = success_count(outcomes);
    let failed = outcomes.len() - ok;
    let success = if ok == 1 {
        "✅ Reloaded: "@ + first_success(outcomes)
    } else {
        "✅ Reloaded "@ + decimal(ok) + " plugins"@
    };
    let warning = "Reloaded "@ + decimal(ok) + " plugin(s); "@ + decimal(failed as nat) + " of "@ + decimal(
        outcomes.len(),
    ) + " failed"@;
    if ok == 0 {
        failure_notices(outcomes)
    } else if failed == 0 {
        failure_notices(outcomes).push(Notice { severity: NotificationSeverity::Success, message: success })
    } else {
        failure_notices(outcomes).push(Notice { severity: NotificationSeverity::Success, message: success }).push(
            Notice { severity: NotificationSeverity::Warning, message: warning },
        )
    }
}

proof fn lemma_first_success_step(outcomes: Seq<Result<String, String>>, i: int)
    requires
        0 <= i < outcomes.len(),
        success_count(outcomes.take(i)) == 0,
    ensures
        first_success(outcomes.skip(i)) == first_success(outcomes),
    decreases i,
{
    if i > 0 {
        assert(outcomes.take(i).drop_last() =~= outcomes.take(i - 1));
        assert(outcomes.take(i).last() == outcomes[i - 1]);
        lemma_first_success_step(outcomes, i - 1);
        assert(outcomes.skip(i - 1).drop_first() =~= outcomes.skip(i));
        assert(outcomes.skip(i - 1)[0] == outcomes[i - 1]);
    } else {
        assert(outcomes.skip(0) =~= outcomes);
    }
}

/// The notices to show after a batch of plugin reloads with these
/// outcomes (the plugin's name, or the error), and whether the script
/// runtime must be reset because some plugin did reload.
pub fn summarize_plugin_reloads(outcomes: &Vec<Result<String, String>>) -> (r: (Vec<ReloadNotification>, bool))
    ensures
        notices_of(r.0@) == reload_notices(outcomes@),
        r.1 == (success_count(outcomes@) > 0),
{
    let mut notices: Vec<ReloadNotification> = Vec::new();
    let mut reloaded: u64 = 0;
    let mut failed: u64 = 0;
    let mut first_name: Option<String> = None;
    let mut i: usize = 0;
    proof {
        assert(notices_of(notices@) =~= Seq::<Notice>::empty());
    }
    while i < outcomes.len()
        invariant
            i <= outcomes@.len(),
            notices_of(notices@) == failure_notices(outcomes@.take(i as int)),
            reloaded == success_count(outcomes@.take(i as int)),
            reloaded + failed == i,
            reloaded == 0 <==> first_name is None,
            first_name matches Some(n) ==> n@ == first_success(outcomes@),
        decreases outcomes.len() - i,
    {
        proof {
            assert(outcomes@.take(i + 1).drop_last() =~= outcomes@.take(i as int));
            assert(outcomes@.take(i + 1).last() == outcomes@[i as int]);
        }
        match &outcomes[i] {
            Ok(name) => {
                if reloaded == 0 {
                    proof {
                        lemma_first_success_step(outcomes@, i as int);
                        assert(outcomes@.skip(i as int)[0] == outcomes@[i as int]);
                    }
                    first_name = Some(name.clone());
                }
                reloaded = reloaded + 1;
            },
            Err(err) => {
                let ghost before = notices@;
                notices.push(ReloadNotification::error(err.clone()));
                proof {
                    assert(notices_of(notices@) =~= notices_of(before).push(
                        Notice { severity: NotificationSeverity::Error, message: err@ },
                    ));
                }
                failed = failed + 1;
            },
        }
        i = i + 1;
    }
    proof {
        assert(outcomes@.take(outcomes@.len() as int) =~= outcomes@);
    }
    if reloaded > 0 {
        let message = if reloaded == 1 {
            let mut m = string_from("✅ Reloaded: ");
            match &first_name {
                Some(n) => m.append(n.as_str()),
                None => {},
            }
            m
        } else {
            let mut m = string_from("✅ Reloaded ");
            m.append(decimal_string(reloaded).as_str());
            m.append(" plugins");
            m
        };
        let ghost before = notices@;
        notices.push(ReloadNotification::success(message));
        proof {
            assert(notices_of(notices@) =~= notices_of(before).push(
                Notice { severity: NotificationSeverity::Success, message: message@ },
            ));
        }
        if failed > 0 {
            let mut w = string_from("Reloaded ");
            w.append(decimal_string(reloaded).as_str());
            w.append(" plugin(s); ");
            w.append(decimal_string(failed).as_str());
            w.append(" of ");
            w.append(decimal_string(reloaded + failed).as_str());
            w.append(" failed");
            let ghost before2 = notices@;
            notices.push(ReloadNotification::warning(w));
            proof {
                assert(notices_of(notices@) =~= notices_of(before2).push(
                    Notice { severity: NotificationSeverity::Warning, message: w@ },
                ));
            }
        }
    }
    (notices, reloaded > 0)
}

/// How the game view is shown while playing.
#[derive(Clone, Copy, Debug, PartialEq, Eq, Structural)]
pub enum GameViewDisplayMode {
    Viewport,
    Fullscreen,
}

impl Default for GameViewDisplayMode {
    fn default() -> (r: Self)
        ensures
            r == GameViewDisplayMode::Viewport,
    {
        GameViewDisplayMode::Viewport
    }
}

/// Whether the game fills the whole window: while playing, in fullscreen
/// display. The auxiliary windows are hidden exactly then.
pub fn fullscreen_game_view(is_playing: bool, display: GameViewDisplayMode) -> (r: bool)
    ensures
        r == (is_playing && display == GameViewDisplayMode::Fullscreen),
{
    is_playing && display == GameViewDisplayMode::Fullscreen
}

/// A pane of the editor's dock.
#[derive(Clone, Copy, Debug, PartialEq, Eq, Structural)]
pub enum EditorPane {
    SceneHierarchy,
    SceneViewport,
    GameViewport,
    Inspector,
    AssetBrowser,
    Log,
}

/// The title of a pane's tab.
pub open spec fn pane_title(pane: EditorPane, is_playing: bool) -> Seq<char> {
    match pane {
        EditorPane::SceneHierarchy => "Hierarchy"@,
        EditorPane::SceneViewport => "Scene"@,
        EditorPane::GameViewport => if is_playing {
            "Game ▶"@
        } else {
            "Game"@
        },
        EditorPane::Inspector => "Inspector"@,
        EditorPane::AssetBrowser => "Assets"@,
        EditorPane::Log => "Log"@,
    }
}

/// The title of a pane's tab; the game view's is marked while playing.
pub fn tab_title_for_pane(pane: EditorPane, is_playing: bool) -> (r: String)
    ensures
        r@ == pane_title(pane, is_playing),
{
    match pane {
        EditorPane::SceneHierarchy => string_from("Hierarchy"),
        EditorPane::SceneViewport => string_from("Scene"),
        EditorPane::GameViewport => if is_playing {
            string_from("Game ▶")
        } else {
            string_from("Game")
        },
        EditorPane::Inspector => string_from("Inspector"),
        EditorPane::AssetBrowser => string_from("Assets"),
        EditorPane::Log => string_from("Log"),
    }
}

/// Whether the editor is editing the scene or playing it.
#[derive(Clone, Copy, Debug, PartialEq, Eq, Structural)]
pub enum RuntimeMode {
    Editor,
    Playing,
}

/// The viewport tab brought to the front in a mode.
pub fn viewport_pane_for_mode(mode: RuntimeMode) -> (r: EditorPane)
    ensures
        r == match mode {
            RuntimeMode::Editor => EditorPane::SceneViewport,
            RuntimeMode::Playing => EditorPane::GameViewport,
        },
{
    match mode {
        RuntimeMode::Editor => EditorPane::SceneViewport,
        RuntimeMode::Playing => EditorPane::GameViewport,
    }
}

/// The mode that the dock's front tabs ask for once the dock is drawn: while
/// playing, outside fullscreen, the scene tab in front and the game tab not
/// asks for the editor; while editing, the game tab in front asks for play,
/// unless play is already the mode asked for. Nothing is asked while a mode
/// change is still waiting.
pub fn mode_request_from_tabs(
    has_pending_transition: bool,
    is_playing: bool,
    show_fullscreen_game: bool,
    game_tile_active: bool,
    scene_tile_active: bool,
    desired_mode: RuntimeMode,
) -> (r: Option<RuntimeMode>)
    ensures
        r == if !has_pending_transition && is_playing && !show_fullscreen_game && !game_tile_active
            && scene_tile_active {
            Some(RuntimeMode::Editor)
        } else if !has_pending_transition && !is_playing && desired_mode != RuntimeMode::Playing
            && game_tile_active {
            Some(RuntimeMode::Playing)
        } else {
            None
        },
{
    if !has_pending_transition && is_playing && !show_fullscreen_game && !game_tile_active && scene_tile_active {
        Some(RuntimeMode::Editor)
    } else if !has_pending_transition && !is_playing && !matches!(desired_mode, RuntimeMode::Playing)
        && game_tile_active {
        Some(RuntimeMode::Playing)
    } else {
        None
    }
}

/// A change of mode that the editor acts on.
#[derive(Clone, Copy, Debug, PartialEq, Eq, Structural)]
pub struct ModeTransition {
    pub from: RuntimeMode,
    pub to: RuntimeMode,
}

/// The last mode seen and the transition waiting to be carried out.
pub struct RuntimeModeTracker {
    pub last_mode: RuntimeMode,
    pub pending: Option<ModeTransition>,
}

/// The tracker after seeing `new_mode`: a change between editing and
/// playing becomes the pending transition; the mode is remembered.
pub open spec fn observe_mode(t: RuntimeModeTracker, new_mode: RuntimeMode) -> RuntimeModeTracker {
    RuntimeModeTracker {
        last_mode: new_mode,
        pending: if t.last_mode != new_mode {
            Some(ModeTransition { from: t.last_mode, to: new_mode })
        } else {
            t.pending
        },
    }
}

impl RuntimeModeTracker {
    /// A tracker that starts in `mode` with nothing pending.
    pub fn new(mode: RuntimeMode) -> (r: Self)
        ensures
            r.last_mode == mode,
            r.pending is None,
    {
        RuntimeModeTracker { last_mode: mode, pending: None }
    }

    /// Records the current mode. Returns whether play was just entered, when
    /// the editor's scene must be captured and gizmo drags and pending picks
    /// dropped.
    pub fn detect_mode_transition(&mut self, new_mode: RuntimeMode) -> (entered_play: bool)
        ensures
            *final(self) == observe_mode(*old(self), new_mode),
            entered_play == (old(self).last_mode == RuntimeMode::Editor && new_mode == RuntimeMode::Playing),
    {
        let old_mode = self.last_mode;
        let entered_play = old_mode == RuntimeMode::Editor && new_mode == RuntimeMode::Playing;
        if old_mode != new_mode {
            self.pending = Some(ModeTransition { from: old_mode, to: new_mode });
        }
        self.last_mode = new_mode;
        entered_play
    }

    /// Takes the pending transition, leaving none.
    pub fn take_pending(&mut self) -> (r: Option<ModeTransition>)
        ensures
            r == old(self).pending,
            final(self).pending is None,
            final(self).last_mode == old(self).last_mode,
    {
        let r = self.pending;
        self.pending = None;
        r
    }
}

/// What carrying out a pending transition does.
#[derive(Clone, Copy, Debug, PartialEq, Eq, Structural)]
pub enum ModeAction {
    /// Start playing: the game view comes to the front.
    EnterPlay,
    /// Back to editing: the captured scene is restored and the selection
    /// cleared.
    ExitPlay,
    /// Nothing.
    Nothing,
}

/// The action for a pending transition: entering play from the editor,
/// leaving play for the editor, nothing otherwise.
pub fn transition_action(t: ModeTransition) -> (r: ModeAction)
    ensures
        r == if t.from == RuntimeMode::Editor && t.to == RuntimeMode::Playing {
            ModeAction::EnterPlay
        } else if t.from == RuntimeMode::Playing && t.to == RuntimeMode::Editor {
            ModeAction::ExitPlay
        } else {
            ModeAction::Nothing
        },
{
    match (t.from, t.to) {
        (RuntimeMode::Editor, RuntimeMode::Playing) => ModeAction::EnterPlay,
        (RuntimeMode::Playing, RuntimeMode::Editor) => ModeAction::ExitPlay,
        _ => ModeAction::Nothing,
    }
}

/// Seeing the mode that was seen last leaves the tracker as it was.
pub proof fn lemma_same_mode_is_no_transition(t: RuntimeModeTracker)
    ensures
        observe_mode(t, t.last_mode) == t,
{
}

/// The name of the `n`-th untitled scene: `untitled.scene` for the first,
/// `untitled_<n>.scene` for the others.
pub open spec fn untitled_scene_name(n: int) -> Seq<char> {
    if n == 1 {
        "untitled.scene"@
    } else {
        "untitled_"@ + decimal(n as nat) + ".scene"@
    }
}

pub fn untitled_scene_candidate(n: u32) -> (r: String)
    ensures
        r@ == untitled_scene_name(n as int),
{
    if n == 1 {
        string_from("untitled.scene")
    } else {
        let mut s = string_from("untitled_");
        s.append(decimal_string(n as u64).as_str());
        s.append(".scene");
        s
    }
}

fn contains_name(names: &Vec<String>, candidate: &String) -> (r: bool)
    ensures
        r == exists|i: int| 0 <= i < names@.len() && (#[trigger] names@[i])@ == candidate@,
{
    let mut i: usize = 0;
    while i < names.len()
        invariant
            i <= names@.len(),
            forall|j: int| 0 <= j < i ==> (#[trigger] names@[j])@ != candidate@,
        decreases names.len() - i,
    {
        if names[i].as_str().unicode_len() == candidate.as_str().unicode_len() && crate::paths::string_eq(
            &names[i],
            candidate,
        ) {
            return true;
        }
        i = i + 1;
    }
    false
}

/// Whether `name` is one of `names`.
pub open spec fn name_taken(names: Seq<String>, name: Seq<char>) -> bool {
    exists|i: int| 0 <= i < names.len() && (#[trigger] names[i])@ == name
}

/// Numbers the untitled scenes that are opened.
pub struct UntitledSceneCounter {
    pub next_index: u32,
}

impl UntitledSceneCounter {
    /// A counter whose first name is `untitled.scene`.
    pub fn new() -> (r: Self)
        ensures
            r.next_index == 1,
    {
        UntitledSceneCounter { next_index: 1 }
    }

    /// The name of a new untitled scene: the first candidate from the
    /// counter on that no open scene has (`existing`), the counter moving
    /// past it. The counter must reach a free name before it overflows.
    pub fn allocate_new_scene_id(&mut self, existing: &Vec<String>) -> (r: String)
        requires
            exists|k: int|
                old(self).next_index <= k < u32::MAX && !name_taken(
                    existing@,
                    #[trigger] untitled_scene_name(k),
                ),
        ensures
            exists|k: int|
                #![trigger untitled_scene_name(k)]
                {
                    &&& old(self).next_index <= k < u32::MAX
                    &&& r@ == untitled_scene_name(k)
                    &&& !name_taken(existing@, r@)
                    &&& forall|j: int|
                        old(self).next_index <= j < k ==> name_taken(existing@, #[trigger] untitled_scene_name(j))
                    &&& final(self).next_index == k + 1
                },
    {
        let start = self.next_index;
        while self.next_index < u32::MAX
            invariant
                start <= self.next_index <= u32::MAX,
                start == old(self).next_index,
                forall|j: int| start <= j < self.next_index ==> name_taken(existing@, #[trigger] untitled_scene_name(j)),
                exists|k: int| start <= k < u32::MAX && !name_taken(existing@, #[trigger] untitled_scene_name(k)),
            decreases u32::MAX - self.next_index,
        {
            let index = self.next_index;
            self.next_index = index + 1;
            let candidate = untitled_scene_candidate(index);
            if !contains_name(existing, &candidate) {
                proof {
                    assert(untitled_scene_name(index as int) == candidate@);
                    assert(!name_taken(existing@, candidate@));
                    assert(forall|j: int|
                        start <= j < index ==> name_taken(existing@, #[trigger] untitled_scene_name(j)));
                }
                return candidate;
            }
        }
        proof {
            let k = choose|k: int| start <= k < u32::MAX && !name_taken(existing@, #[trigger] untitled_scene_name(k));
            assert(name_taken(existing@, untitled_scene_name(k)));
        }
        string_from("")
    }
}

/// What a click in the scene tab bar asks for. Documents are named by
/// their ids.
pub enum SceneTabAction {
    Activate(String),
    Close(String),
    NewScene,
    Rename(String),
}

/// Abstract tab action.
pub enum TabActionView {
    Activate(Seq<char>),
    Close(Seq<char>),
    NewScene,
    Rename(Seq<char>),
}

pub open spec fn tab_action_view(a: SceneTabAction) -> TabActionView {
    match a {
        SceneTabAction::Activate(id) => TabActionView::Activate(id@),
        SceneTabAction::Close(id) => TabActionView::Close(id@),
        SceneTabAction::NewScene => TabActionView::NewScene,
        SceneTabAction::Rename(id) => TabActionView::Rename(id@),
    }
}

/// The actions of one tab, in order: activating it when an inactive tab
/// was clicked, closing it, renaming it, each when asked for.
pub open spec fn tab_actions_model(
    id: Seq<char>,
    active: bool,
    tab_clicked: bool,
    close_clicked: bool,
    rename_clicked: bool,
) -> Seq<TabActionView> {
    let a: Seq<TabActionView> = if tab_clicked && !active { seq![TabActionView::Activate(id)] } else { seq![] };
    let c: Seq<TabActionView> = if close_clicked { seq![TabActionView::Close(id)] } else { seq![] };
    let n: Seq<TabActionView> = if rename_clicked { seq![TabActionView::Rename(id)] } else { seq![] };
    a + c + n
}

/// The actions that clicks on one scene tab ask for; see `tab_actions_model`.
pub fn tab_actions(document_id: &String, active: bool, tab_clicked: bool, close_clicked: bool, rename_clicked: bool) -> (r:
    Vec<SceneTabAction>)
    ensures
        r@.map_values(|a: SceneTabAction| tab_action_view(a)) == tab_actions_model(
            document_id@,
            active,
            tab_clicked,
            close_clicked,
            rename_clicked,
        ),
{
    let mut actions: Vec<SceneTabAction> = Vec::new();
    if tab_clicked && !active {
        actions.push(SceneTabAction::Activate(document_id.clone()));
    }
    if close_clicked {
        actions.push(SceneTabAction::Close(document_id.clone()));
    }
    if rename_clicked {
        actions.push(SceneTabAction::Rename(document_id.clone()));
    }
    proof {
        assert(actions@.map_values(|a: SceneTabAction| tab_action_view(a)) =~= tab_actions_model(
            document_id@,
            active,
            tab_clicked,
            close_clicked,
            rename_clicked,
        ));
    }
    actions
}

/// Whether handling a tab action first switches the editor back to editing.
pub fn tab_action_requests_editor_mode(action: &SceneTabAction) -> (r: bool)
    ensures
        r == (*action is Activate || *action is NewScene),
{
    match action {
        SceneTabAction::Activate(_) => true,
        SceneTabAction::NewScene => true,
        SceneTabAction::Close(_) => false,
        SceneTabAction::Rename(_) => false,
    }
}

/// The name shown for an instanced scene document: its name, or its id
/// when the name is empty; the requested id when the document is unknown.
pub fn prefab_display_name(document: Option<(&String, &String)>, document_id: &String) -> (r: String)
    ensures
        r@ == match document {
            Some((name, id)) => if name@.len() == 0 {
                id@
            } else {
                name@
            },
            None => document_id@,
        },
{
    match document {
        Some((name, id)) => if name.as_str().unicode_len() == 0 {
            id.clone()
        } else {
            name.clone()
        },
        None => document_id.clone(),
    }
}

/// An entity of a scene document, as far as instancing looks at it.
pub struct PrefabEntity {
    pub has_parent: bool,
    pub name: Option<String>,
}

/// The node path to instance: the one asked for, or, when none is given,
/// the name of the document's first entity without a parent (empty when it
/// has no name or there is none).
pub open spec fn prefab_path_model(node_path: Seq<Seq<char>>, entities: Seq<PrefabEntity>) -> Seq<Seq<char>> {
    if node_path.len() > 0 {
        node_path
    } else {
        match first_root(entities) {
            Some(i) => match entities[i].name {
                Some(n) => seq![n@],
                None => seq![],
            },
            None => seq![],
        }
    }
}

/// The first entity without a parent.
pub open spec fn first_root(entities: Seq<PrefabEntity>) -> Option<int> {
    if exists|i: int| 0 <= i < entities.len() && !(#[trigger] entities[i]).has_parent && (forall|j: int|
        0 <= j < i ==> (#[trigger] entities[j]).has_parent) {
        Some(
            choose|i: int|
                0 <= i < entities.len() && !(#[trigger] entities[i]).has_parent && (forall|j: int|
                    0 <= j < i ==> (#[trigger] entities[j]).has_parent),
        )
    } else {
        None
    }
}

pub fn resolve_prefab_path(node_path: Vec<String>, entities: &Vec<PrefabEntity>) -> (r: Vec<String>)
    ensures
        crate::paths::names_of(r@) == prefab_path_model(crate::paths::names_of(node_path@), entities@),
{
    if node_path.len() > 0 {
        proof {
            assert(crate::paths::names_of(node_path@).len() > 0);
        }
        return node_path;
    }
    let mut i: usize = 0;
    while i < entities.len()
        invariant
            i <= entities@.len(),
            node_path@.len() == 0,
            forall|j: int| 0 <= j < i ==> (#[trigger] entities@[j]).has_parent,
        decreases entities.len() - i,
    {
        if !entities[i].has_parent {
            proof {
                assert(0 <= i < entities@.len() && !(entities@[i as int]).has_parent && (forall|j: int|
                    0 <= j < i ==> (#[trigger] entities@[j]).has_parent));
                let k = choose|k: int|
                    0 <= k < entities@.len() && !(#[trigger] entities@[k]).has_parent && (forall|j: int|
                        0 <= j < k ==> (#[trigger] entities@[j]).has_parent);
                if k < i {
                    assert(entities@[k].has_parent);
                } else if k > i {
                    assert(entities@[i as int].has_parent);
                }
                assert(first_root(entities@) == Some(i as int));
            }
            let mut out: Vec<String> = Vec::new();
            match &entities[i].name {
                Some(n) => out.push(n.clone()),
                None => {},
            }
            proof {
                assert(crate::paths::names_of(node_path@).len() == 0);
                match entities@[i as int].name {
                    Some(n) => {
                        assert(crate::paths::names_of(out@) =~= seq![n@]);
                    },
                    None => {
                        assert(crate::paths::names_of(out@) =~= Seq::<Seq<char>>::empty());
                    },
                }
                assert(crate::paths::names_of(out@) =~= prefab_path_model(crate::paths::names_of(node_path@), entities@));
            }
            return out;
        }
        i = i + 1;
    }
    let out: Vec<String> = Vec::new();
    proof {
        assert(crate::paths::names_of(out@) =~= prefab_path_model(crate::paths::names_of(node_path@), entities@));
    }
    out
}

} // verus!
