//! Registry of the editor's UI plugins: what the manifest lists, which
//! plugins are loaded under which entity, and which of them are shown.

use crate::paths::{
    disk_answered, display_model, exists_on_disk, join_model, parse_model, path_exists, path_view, ContentPath, PathModel,
};
use crate::text::{concat, decimal, decimal_string};
use std::collections::HashMap;
use vstd::prelude::*;

verus! {

broadcast use vstd::std_specs::hash::group_hash_axioms;

/// One entry of the plugin manifest.
pub struct PluginMetadata {
    pub name: String,
    pub script: String,
    pub description: String,
    pub category: String,
    pub enabled: bool,
    pub default_visible: bool,
}

/// Abstract manifest entry.
pub struct PluginInfo {
    pub name: Seq<char>,
    pub script: Seq<char>,
    pub description: Seq<char>,
    pub category: Seq<char>,
    pub enabled: bool,
    pub default_visible: bool,
}

impl View for PluginMetadata {
    type V = PluginInfo;

    open spec fn view(&self) -> PluginInfo {
        PluginInfo {
            name: self.name@,
            script: self.script@,
            description: self.description@,
            category: self.category@,
            enabled: self.enabled,
            default_visible: self.default_visible,
        }
    }
}

/// Value of a manifest flag that the manifest leaves out.
pub fn default_true() -> (r: bool)
    ensures
        r,
{
    true
}

/// The plugin manifest: its entries in the order they are listed.
pub struct PluginManifest {
    pub plugins: Vec<PluginMetadata>,
}

/// A plugin that was loaded under an entity.
pub struct LoadedPlugin {
    pub metadata: PluginMetadata,
    pub entity: u64,
    pub visible: bool,
}

/// Abstract loaded plugin.
pub struct PluginSlot {
    pub metadata: PluginInfo,
    pub entity: u64,
    pub visible: bool,
}

impl View for LoadedPlugin {
    type V = PluginSlot;

    open spec fn view(&self) -> PluginSlot {
        PluginSlot { metadata: self.metadata@, entity: self.entity, visible: self.visible }
    }
}

/// The abstract loaded plugins of a sequence.
pub open spec fn slots_of(s: Seq<LoadedPlugin>) -> Seq<PluginSlot> {
    s.map_values(|p: LoadedPlugin| p@)
}

/// The entities of the loaded plugins, in order.
pub open spec fn entities_of(s: Seq<PluginSlot>) -> Seq<u64> {
    s.map_values(|p: PluginSlot| p.entity)
}

/// Index of the last plugin registered under `e`, or -1.
pub open spec fn last_index_of(s: Seq<u64>, e: u64) -> int
    decreases s.len(),
{
    if s.len() == 0 {
        -1
    } else if s.last() == e {
        s.len() - 1
    } else {
        last_index_of(s.drop_last(), e)
    }
}

/// The last index of an entity is -1 or a position that holds it, and -1
/// exactly when the entity does not occur.
pub proof fn lemma_last_index_bounds(s: Seq<u64>, e: u64)
    ensures
        -1 <= last_index_of(s, e) < s.len(),
        last_index_of(s, e) >= 0 ==> s[last_index_of(s, e)] == e,
        last_index_of(s, e) < 0 <==> !s.contains(e),
    decreases s.len(),
{
    if s.len() > 0 {
        lemma_last_index_bounds(s.drop_last(), e);
        if s.last() != e {
            if s.contains(e) {
                let k = choose|k: int| 0 <= k < s.len() && s[k] == e;
                assert(s.drop_last()[k] == e);
            }
            if s.drop_last().contains(e) {
                let k = choose|k: int| 0 <= k < s.len() - 1 && s.drop_last()[k] == e;
                assert(s[k] == e);
            }
        } else {
            assert(s[s.len() - 1] == e);
        }
    }
}

proof fn lemma_last_index_push(s: Seq<u64>, x: u64, e: u64)
    ensures
        last_index_of(s.push(x), e) == if x == e { s.len() as int } else { last_index_of(s, e) },
{
    assert(s.push(x).drop_last() =~= s);
}

/// A plugin just registered under an entity is the one that lookups by
/// that entity find.
pub proof fn lemma_registered_plugin_is_found(plugins: Seq<PluginSlot>, slot: PluginSlot)
    ensures
        last_index_of(entities_of(plugins.push(slot)), slot.entity) == plugins.len(),
        plugins.push(slot)[plugins.len() as int] == slot,
{
    assert(entities_of(plugins.push(slot)) =~= entities_of(plugins).push(slot.entity));
    lemma_last_index_push(entities_of(plugins), slot.entity, slot.entity);
}

/// Toggling a plugin's visibility twice gives back the plugins as they were.
pub proof fn lemma_toggle_twice_restores(plugins: Seq<PluginSlot>, e: u64)
    ensures
        ({
            let i = last_index_of(entities_of(plugins), e);
            let once = if i >= 0 { with_visibility(plugins, e, !plugins[i].visible) } else { plugins };
            let j = last_index_of(entities_of(once), e);
            let twice = if j >= 0 { with_visibility(once, e, !once[j].visible) } else { once };
            twice == plugins
        }),
{
    let i = last_index_of(entities_of(plugins), e);
    lemma_last_index_bounds(entities_of(plugins), e);
    if i >= 0 {
        let once = with_visibility(plugins, e, !plugins[i].visible);
        assert(entities_of(once) =~= entities_of(plugins));
        let twice = with_visibility(once, e, !once[i].visible);
        assert(twice =~= plugins);
    }
}

/// After setting a plugin's visibility, looking it up by its entity gives
/// that visibility, and no other plugin changed.
pub proof fn lemma_visibility_read_back(plugins: Seq<PluginSlot>, e: u64, visible: bool)
    requires
        last_index_of(entities_of(plugins), e) >= 0,
    ensures
        ({
            let after = with_visibility(plugins, e, visible);
            let i = last_index_of(entities_of(after), e);
            &&& i == last_index_of(entities_of(plugins), e)
            &&& after[i].visible == visible
            &&& after[i].metadata == plugins[i].metadata
            &&& forall|j: int| 0 <= j < plugins.len() && j != i ==> after[j] == plugins[j]
        }),
{
    lemma_last_index_bounds(entities_of(plugins), e);
    let after = with_visibility(plugins, e, visible);
    assert(entities_of(after) =~= entities_of(plugins));
}

/// Entities of the plugins that are shown: visible and enabled, in order.
pub open spec fn shown_entities(s: Seq<PluginSlot>) -> Seq<u64>
    decreases s.len(),
{
    if s.len() == 0 {
        seq![]
    } else {
        let prev = shown_entities(s.drop_last());
        if s.last().visible && s.last().metadata.enabled {
            prev.push(s.last().entity)
        } else {
            prev
        }
    }
}

/// The canonical, absolute form of `path` as the file system resolves it
/// (`Path::canonicalize`); `None` where that fails. The answer depends on
/// what is on disk, so nothing is stated of it.
#[verifier::external_body]
fn canonicalize_path(path: &ContentPath) -> Option<ContentPath> {
    let mut buf = std::path::PathBuf::new();
    if path.rooted {
        buf.push(std::path::MAIN_SEPARATOR_STR);
    }
    for part in path.parts.iter() {
        buf.push(part);
    }
    let canonical = buf.canonicalize().ok()?;
    let mut parts = Vec::new();
    for c in canonical.components() {
        if let std::path::Component::Normal(n) = c {
            parts.push(n.to_string_lossy().into_owned());
        }
    }
    Some(ContentPath { rooted: canonical.has_root(), parts })
}

/// Whether the canonicalizer `canon` was asked about a path with view `p`
/// and gave back a path with view `ans` (`None`: it failed).
pub open spec fn canon_answered<F: Fn(&ContentPath) -> Option<ContentPath>>(
    canon: F,
    p: PathModel,
    ans: Option<PathModel>,
) -> bool {
    exists|q: ContentPath, o: Option<ContentPath>|
        q@ == p && path_view(o) == ans && #[trigger] call_ensures(canon, (&q,), o)
}

/// Whether the file system (`Path::canonicalize`) was asked for the
/// canonical form of a path with view `p` and gave back `ans` (`None`: it
/// failed).
pub closed spec fn disk_canonical(p: PathModel, ans: Option<PathModel>) -> bool {
    canon_answered(canonicalize_path, p, ans)
}

/// Asks the file system for the canonical form of `path`.
pub fn canonicalize_on_disk(path: &ContentPath) -> (r: Option<ContentPath>)
    ensures
        disk_canonical(path@, path_view(r)),
{
    let ask = canonicalize_path;
    let r = ask(path);
    proof {
        assert(call_ensures(canonicalize_path, (path,), r));
    }
    r
}

/// What `canonicalize_on_disk` answered is what the file system answered.
pub proof fn lemma_canonical_on_disk(p: PathModel, ans: Option<PathModel>)
    requires
        canon_answered(canonicalize_on_disk, p, ans),
    ensures
        disk_canonical(p, ans),
{
    let (q, o) = choose|q: ContentPath, o: Option<ContentPath>|
        q@ == p && path_view(o) == ans && #[trigger] call_ensures(canonicalize_on_disk, (&q,), o);
}

/// The path of the script of plugin `i`, resolved against the registry's
/// folder.
pub open spec fn script_model(reg: RegistryModel, i: int) -> PathModel {
    join_model(reg.base, parse_model(reg.plugins[i].metadata.script))
}

/// Whether position `i` holds the first `Some(target)` of `s`.
pub open spec fn first_match(s: Seq<Option<PathModel>>, target: PathModel, i: int) -> bool {
    &&& 0 <= i < s.len()
    &&& s[i] == Some(target)
    &&& forall|j: int| 0 <= j < i ==> s[j] != Some(target)
}

/// How a search by canonical path ended, given the canonical form `target`
/// of the path looked for and the canonical forms `answers` of the scripts
/// of the first `answers.len()` plugins: `found` is the position of the
/// plugin found. Without a canonical form nothing is looked at and nothing
/// is found; else the plugins are looked at in order up to the first whose
/// canonical script path is `target`, or all of them when none is.
pub open spec fn canonical_search(
    reg: RegistryModel,
    target: Option<PathModel>,
    answers: Seq<Option<PathModel>>,
    found: Option<int>,
) -> bool {
    match target {
        None => answers.len() == 0 && found is None,
        Some(t) => match found {
            Some(i) => i == answers.len() - 1 && first_match(answers, t, i),
            None => answers.len() == reg.plugins.len() && forall|j: int|
                0 <= j < answers.len() ==> #[trigger] answers[j] != Some(t),
        },
    }
}

/// Whether `canon` answered `target` for the path `p` and `answers[j]` for
/// the script of plugin `j`, for each `j < answers.len()`.
pub open spec fn canonical_answers<F: Fn(&ContentPath) -> Option<ContentPath>>(
    canon: F,
    reg: RegistryModel,
    p: PathModel,
    target: Option<PathModel>,
    answers: Seq<Option<PathModel>>,
) -> bool {
    &&& canon_answered(canon, p, target)
    &&& answers.len() <= reg.plugins.len()
    &&& forall|j: int| 0 <= j < answers.len() ==> canon_answered(canon, script_model(reg, j), #[trigger] answers[j])
}

/// Whether the file system answered `target` for the path `p` and
/// `answers[j]` for the script of plugin `j`, for each `j < answers.len()`.
pub open spec fn disk_canonical_answers(
    reg: RegistryModel,
    p: PathModel,
    target: Option<PathModel>,
    answers: Seq<Option<PathModel>>,
) -> bool {
    &&& disk_canonical(p, target)
    &&& answers.len() <= reg.plugins.len()
    &&& forall|j: int| 0 <= j < answers.len() ==> disk_canonical(script_model(reg, j), #[trigger] answers[j])
}

/// The plugin found by a search: position `found` in `reg`, if any.
pub open spec fn found_plugin(reg: RegistryModel, found: Option<int>, r: Option<(u64, PluginInfo)>) -> bool {
    match found {
        Some(i) => r == Some((reg.plugins[i].entity, reg.plugins[i].metadata)),
        None => r is None,
    }
}

/// The entity and metadata view of a search result.
pub open spec fn result_view(r: Option<(u64, &PluginMetadata)>) -> Option<(u64, PluginInfo)> {
    match r {
        Some((e, m)) => Some((e, m@)),
        None => None,
    }
}

/// Abstract plugin registry.
pub struct RegistryModel {
    pub plugins: Seq<PluginSlot>,
    pub base: PathModel,
}

/// The plugins with the one registered last under `e` shown or hidden as
/// `visible` says; unchanged when none is.
pub open spec fn with_visibility(plugins: Seq<PluginSlot>, e: u64, visible: bool) -> Seq<PluginSlot> {
    let i = last_index_of(entities_of(plugins), e);
    if i >= 0 {
        plugins.update(i, PluginSlot { visible, ..plugins[i] })
    } else {
        plugins
    }
}

/// Registry of UI plugins, with the folder that their scripts are named from.
pub struct UiPluginManager {
    plugins: Vec<LoadedPlugin>,
    entity_to_plugin: HashMap<u64, usize>,
    base_path: ContentPath,
}

impl View for UiPluginManager {
    type V = RegistryModel;

    closed spec fn view(&self) -> RegistryModel {
        RegistryModel { plugins: slots_of(self.plugins@), base: self.base_path@ }
    }
}

impl UiPluginManager {
    /// The entity index finds, for each entity, the plugin registered last
    /// under it.
    pub closed spec fn well_formed(&self) -> bool {
        forall|e: u64|
            #![trigger self.entity_to_plugin@.contains_key(e)]
            {
                let i = last_index_of(entities_of(slots_of(self.plugins@)), e);
                &&& self.entity_to_plugin@.contains_key(e) <==> i >= 0
                &&& self.entity_to_plugin@.contains_key(e) ==> self.entity_to_plugin@[e] == i
            }
    }

    /// An empty registry whose scripts are named from `base_path`.
    pub fn new(base_path: ContentPath) -> (r: Self)
        ensures
            r.well_formed(),
            r@.plugins == Seq::<PluginSlot>::empty(),
            r@.base == base_path@,
    {
        let r = UiPluginManager { plugins: Vec::new(), entity_to_plugin: HashMap::new(), base_path };
        proof {
            assert(slots_of(r.plugins@) =~= Seq::<PluginSlot>::empty());
            assert(entities_of(slots_of(r.plugins@)) =~= Seq::<u64>::empty());
        }
        r
    }

    /// Adds a plugin loaded under `entity`, shown as its manifest entry
    /// says; a later registration under the same entity takes its place in
    /// lookups.
    pub fn register_plugin(&mut self, metadata: PluginMetadata, entity: u64)
        requires
            old(self).well_formed(),
        ensures
            final(self).well_formed(),
            final(self)@.plugins == old(self)@.plugins.push(
                PluginSlot { metadata: metadata@, entity, visible: metadata.default_visible },
            ),
            final(self)@.base == old(self)@.base,
    {
        let visible = metadata.default_visible;
        let plugin = LoadedPlugin { metadata, entity, visible };
        let ghost old_plugins = self.plugins@;
        let index = self.plugins.len();
        self.plugins.push(plugin);
        self.entity_to_plugin.insert(entity, index);
        proof {
            assert(slots_of(self.plugins@) =~= slots_of(old_plugins).push(plugin@));
            assert(entities_of(slots_of(self.plugins@)) =~= entities_of(slots_of(old_plugins)).push(entity));
            assert forall|e: u64| #![trigger self.entity_to_plugin@.contains_key(e)] {
                let i = last_index_of(entities_of(slots_of(self.plugins@)), e);
                &&& self.entity_to_plugin@.contains_key(e) <==> i >= 0
                &&& self.entity_to_plugin@.contains_key(e) ==> self.entity_to_plugin@[e] == i
            } by {
                lemma_last_index_push(entities_of(slots_of(old_plugins)), entity, e);
                assert(old(self).entity_to_plugin@.contains_key(e) ==> true);
            }
        }
    }

    /// The loaded plugins, in the order they were registered.
    pub fn plugins(&self) -> (r: &[LoadedPlugin])
        ensures
            slots_of(r@) == self@.plugins,
    {
        self.plugins.as_slice()
    }

    /// The loaded plugins, to edit in place (such as their visibility).
    /// The registry holds what the slice holds when the borrow ends; its
    /// entity index stays right as long as no plugin's entity is changed.
    pub fn plugins_mut(&mut self) -> (r: &mut [LoadedPlugin])
        ensures
            slots_of(r@) == old(self)@.plugins,
            final(self)@.plugins == slots_of(final(r)@),
            final(self)@.base == old(self)@.base,
            old(self).well_formed() && entities_of(slots_of(final(r)@)) == entities_of(old(self)@.plugins)
                ==> final(self).well_formed(),
    {
        self.plugins.as_mut_slice()
    }

    /// Entities of the plugins that are visible and enabled, in order.
    pub fn visible_entities(&self) -> (r: Vec<u64>)
        ensures
            r@ == shown_entities(self@.plugins),
    {
        let mut out: Vec<u64> = Vec::new();
        let mut i: usize = 0;
        while i < self.plugins.len()
            invariant
                i <= self.plugins.len(),
                out@ == shown_entities(slots_of(self.plugins@).take(i as int)),
            decreases self.plugins.len() - i,
        {
            proof {
                assert(slots_of(self.plugins@).take(i + 1).drop_last() =~= slots_of(self.plugins@).take(i as int));
            }
            let p = &self.plugins[i];
            if p.visible && p.metadata.enabled {
                out.push(p.entity);
            }
            i = i + 1;
        }
        proof {
            assert(slots_of(self.plugins@).take(self.plugins@.len() as int) =~= slots_of(self.plugins@));
        }
        out
    }

    /// Index of the plugin registered last under `entity`.
    fn index_of(&self, entity: u64) -> (r: Option<usize>)
        requires
            self.well_formed(),
        ensures
            match r {
                Some(i) => i == last_index_of(entities_of(self@.plugins), entity) && i < self.plugins@.len(),
                None => last_index_of(entities_of(self@.plugins), entity) < 0,
            },
    {
        proof {
            assert(self.entity_to_plugin@.contains_key(entity) ==> true);
            lemma_last_index_bounds(entities_of(self@.plugins), entity);
        }
        match self.entity_to_plugin.get(&entity) {
            Some(i) => Some(*i),
            None => None,
        }
    }

    /// Shows or hides the plugin registered last under `entity`; nothing
    /// changes when none is.
    pub fn set_visibility(&mut self, entity: u64, visible: bool)
        requires
            old(self).well_formed(),
        ensures
            final(self).well_formed(),
            final(self)@.plugins == with_visibility(old(self)@.plugins, entity, visible),
            final(self)@.base == old(self)@.base,
    {
        match self.index_of(entity) {
            Some(index) => {
                let ghost old_plugins = self.plugins@;
                self.plugins[index].visible = visible;
                proof {
                    assert(slots_of(self.plugins@) =~= slots_of(old_plugins).update(
                        index as int,
                        PluginSlot { visible, ..slots_of(old_plugins)[index as int] },
                    ));
                    assert(entities_of(slots_of(self.plugins@)) =~= entities_of(slots_of(old_plugins)));
                }
            },
            None => {},
        }
    }

    /// Flips the visibility of the plugin registered last under `entity`
    /// and returns the new value; `false`, with nothing changed, when none is.
    pub fn toggle_visibility(&mut self, entity: u64) -> (r: bool)
        requires
            old(self).well_formed(),
        ensures
            final(self).well_formed(),
            final(self)@.base == old(self)@.base,
            ({
                let i = last_index_of(entities_of(old(self)@.plugins), entity);
                if i >= 0 {
                    &&& r == !old(self)@.plugins[i].visible
                    &&& final(self)@.plugins == with_visibility(old(self)@.plugins, entity, r)
                } else {
                    &&& !r
                    &&& final(self)@.plugins == old(self)@.plugins
                }
            }),
    {
        match self.index_of(entity) {
            Some(index) => {
                let visible = !self.plugins[index].visible;
                self.set_visibility(entity, visible);
                visible
            },
            None => false,
        }
    }

    /// The plugin registered last under `entity`.
    pub fn get_plugin(&self, entity: u64) -> (r: Option<&LoadedPlugin>)
        requires
            self.well_formed(),
        ensures
            ({
                let i = last_index_of(entities_of(self@.plugins), entity);
                match r {
                    Some(p) => i >= 0 && p@ == self@.plugins[i],
                    None => i < 0,
                }
            }),
    {
        match self.index_of(entity) {
            Some(index) => Some(&self.plugins[index]),
            None => None,
        }
    }

    /// The path of a script named relative to the registry's folder.
    pub fn resolve_script_path(&self, script_path: &str) -> (r: ContentPath)
        ensures
            r@ == join_model(self@.base, parse_model(script_path@)),
    {
        let rel = ContentPath::parse(script_path);
        self.base_path.join(&rel)
    }

    /// The script path of the plugin registered last under `entity`.
    pub fn get_script_path(&self, entity: u64) -> (r: Option<ContentPath>)
        requires
            self.well_formed(),
        ensures
            ({
                let i = last_index_of(entities_of(self@.plugins), entity);
                match r {
                    Some(p) => i >= 0 && p@ == join_model(self@.base, parse_model(self@.plugins[i].metadata.script)),
                    None => i < 0,
                }
            }),
    {
        match self.get_plugin(entity) {
            Some(plugin) => Some(self.resolve_script_path(plugin.metadata.script.as_str())),
            None => None,
        }
    }

    /// The plugin whose script file is the file at `path`, comparing
    /// canonical forms given by `canon`: the first plugin, in order, whose
    /// resolved script path `canon` maps to what it mapped `path` to;
    /// `None` when `canon` fails on `path` or no plugin matches. A plugin
    /// whose script `canon` fails on matches nothing.
    pub fn find_entity_by_canonical<F: Fn(&ContentPath) -> Option<ContentPath>>(
        &self,
        path: &ContentPath,
        canon: F,
    ) -> (r: Option<(u64, &PluginMetadata)>)
        requires
            forall|q: &ContentPath| #[trigger] canon.requires((q,)),
        ensures
            exists|target: Option<PathModel>, answers: Seq<Option<PathModel>>, found: Option<int>|
                {
                    &&& #[trigger] canonical_answers(canon, self@, path@, target, answers)
                    &&& #[trigger] canonical_search(self@, target, answers, found)
                    &&& found_plugin(self@, found, result_view(r))
                },
    {
        let target = match canon(path) {
            Some(t) => t,
            None => {
                proof {
                    let none: Option<ContentPath> = None;
                    assert(canon_answered(canon, path@, path_view(none)));
                    let answers: Seq<Option<PathModel>> = seq![];
                    assert(canonical_answers(canon, self@, path@, None, answers));
                    assert(canonical_search(self@, None, answers, None));
                }
                return None;
            },
        };
        proof {
            assert(canon_answered(canon, path@, path_view(Some(target))));
        }
        let ghost mut answers: Seq<Option<PathModel>> = seq![];
        let mut i: usize = 0;
        while i < self.plugins.len()
            invariant
                i <= self.plugins@.len(),
                forall|q: &ContentPath| #[trigger] canon.requires((q,)),
                answers.len() == i,
                canon_answered(canon, path@, Some(target@)),
                forall|j: int| 0 <= j < i ==> canon_answered(canon, script_model(self@, j), #[trigger] answers[j]),
                forall|j: int| 0 <= j < i ==> #[trigger] answers[j] != Some(target@),
            decreases self.plugins.len() - i,
        {
            let resolved = self.resolve_script_path(self.plugins[i].metadata.script.as_str());
            let c = canon(&resolved);
            proof {
                assert(slots_of(self.plugins@)[i as int] == self.plugins@[i as int]@);
                assert(resolved@ == script_model(self@, i as int));
                assert(canon_answered(canon, script_model(self@, i as int), path_view(c)));
                let old_answers = answers;
                answers = answers.push(path_view(c));
                assert forall|j: int| 0 <= j < i + 1 implies canon_answered(
                    canon,
                    script_model(self@, j),
                    #[trigger] answers[j],
                ) by {
                    if j < i {
                        assert(answers[j] == old_answers[j]);
                    }
                }
            }
            let hit = match &c {
                Some(p) => p.same_as(&target),
                None => false,
            };
            if hit {
                let plugin = &self.plugins[i];
                proof {
                    assert(slots_of(self.plugins@)[i as int] == plugin@);
                    assert(answers[i as int] == Some(target@));
                    assert(first_match(answers, target@, i as int));
                    assert(canonical_answers(canon, self@, path@, Some(target@), answers));
                    assert(canonical_search(self@, Some(target@), answers, Some(i as int)));
                }
                return Some((plugin.entity, &plugin.metadata));
            }
            proof {
                assert(answers[i as int] != Some(target@));
            }
            i = i + 1;
        }
        proof {
            assert(canonical_answers(canon, self@, path@, Some(target@), answers));
            assert(canonical_search(self@, Some(target@), answers, None));
        }
        None
    }

    /// The plugin whose script file is the file at `path`, both paths
    /// canonicalized through the file system (`Path::canonicalize`): see
    /// `find_entity_by_canonical`. What the file system answers is not
    /// stated; the result is the first plugin whose script's canonical form,
    /// as it came back, is the one that came back for `path`.
    pub fn find_entity_by_path(&self, path: &ContentPath) -> (r: Option<(u64, &PluginMetadata)>)
        ensures
            exists|target: Option<PathModel>, answers: Seq<Option<PathModel>>, found: Option<int>|
                {
                    &&& #[trigger] disk_canonical_answers(self@, path@, target, answers)
                    &&& #[trigger] canonical_search(self@, target, answers, found)
                    &&& found_plugin(self@, found, result_view(r))
                },
    {
        let r = self.find_entity_by_canonical(path, canonicalize_on_disk);
        proof {
            let (target, answers, found) = choose|
                target: Option<PathModel>,
                answers: Seq<Option<PathModel>>,
                found: Option<int>,
            |
                {
                    &&& #[trigger] canonical_answers(canonicalize_on_disk, self@, path@, target, answers)
                    &&& #[trigger] canonical_search(self@, target, answers, found)
                    &&& found_plugin(self@, found, result_view(r))
                };
            lemma_canonical_on_disk(path@, target);
            assert forall|j: int| 0 <= j < answers.len() implies disk_canonical(
                script_model(self@, j),
                #[trigger] answers[j],
            ) by {
                lemma_canonical_on_disk(script_model(self@, j), answers[j]);
            }
            assert(disk_canonical_answers(self@, path@, target, answers));
        }
        r
    }

    /// Forgets every plugin and returns the entities they were loaded
    /// under, in order, for the caller to despawn.
    pub fn unload_all(&mut self) -> (r: Vec<u64>)
        requires
            old(self).well_formed(),
        ensures
            final(self).well_formed(),
            r@ == entities_of(old(self)@.plugins),
            final(self)@.plugins == Seq::<PluginSlot>::empty(),
            final(self)@.base == old(self)@.base,
    {
        let mut out: Vec<u64> = Vec::new();
        let mut i: usize = 0;
        while i < self.plugins.len()
            invariant
                i <= self.plugins.len(),
                out@ == entities_of(slots_of(self.plugins@)).take(i as int),
            decreases self.plugins.len() - i,
        {
            out.push(self.plugins[i].entity);
            proof {
                assert(out@ =~= entities_of(slots_of(self.plugins@)).take(i + 1));
            }
            i = i + 1;
        }
        proof {
            assert(entities_of(slots_of(self.plugins@)).take(self.plugins@.len() as int) =~= entities_of(
                slots_of(self.plugins@),
            ));
        }
        self.plugins.clear();
        self.entity_to_plugin.clear();
        proof {
            assert(slots_of(self.plugins@) =~= Seq::<PluginSlot>::empty());
            assert(entities_of(slots_of(self.plugins@)) =~= Seq::<u64>::empty());
        }
        out
    }
}

} // verus!

verus! {

/// The script source of a plugin, given whether its script file exists:
/// the script's path under the registry's folder when it does, else an
/// error naming that path.
pub fn script_source_with(manager: &UiPluginManager, metadata: &PluginMetadata, exists: bool) -> (r: Result<
    ContentPath,
    String,
>)
    ensures
        ({
            let resolved = join_model(manager@.base, parse_model(metadata.script@));
            &&& exists ==> (r matches Ok(p) && p@ == resolved)
            &&& !exists ==> (r matches Err(msg) && msg@ == "Script file not found: "@ + display_model(resolved))
        }),
{
    let script_path = manager.resolve_script_path(metadata.script.as_str());
    if !exists {
        let shown = script_path.display();
        return Err(concat("Script file not found: ", shown.as_str()));
    }
    Ok(script_path)
}

/// The script source of a plugin: its script's path under the registry's
/// folder when the file system says something is there, else an error
/// naming that path; see `script_source_with`.
pub fn create_plugin_script_source(manager: &UiPluginManager, metadata: &PluginMetadata) -> (r: Result<
    ContentPath,
    String,
>)
    ensures
        ({
            let resolved = join_model(manager@.base, parse_model(metadata.script@));
            match r {
                Ok(p) => p@ == resolved && disk_answered(resolved, true),
                Err(msg) => msg@ == "Script file not found: "@ + display_model(resolved) && disk_answered(
                    resolved,
                    false,
                ),
            }
        }),
{
    let script_path = manager.resolve_script_path(metadata.script.as_str());
    let exists = exists_on_disk(&script_path);
    script_source_with(manager, metadata, exists)
}

/// The name of the plugin loaded under `entity`, which a reload of its
/// script is reported under, or the error that no plugin is loaded there.
pub fn reload_plugin_name(manager: &UiPluginManager, entity: u64) -> (r: Result<String, String>)
    requires
        manager.well_formed(),
    ensures
        ({
            let i = last_index_of(entities_of(manager@.plugins), entity);
            match r {
                Ok(name) => i >= 0 && name@ == manager@.plugins[i].metadata.name,
                Err(msg) => i < 0 && msg@ == "Plugin not found for entity "@ + decimal(entity as nat),
            }
        }),
{
    match manager.get_plugin(entity) {
        Some(plugin) => Ok(plugin.metadata.name.clone()),
        None => {
            let shown = decimal_string(entity);
            Err(concat("Plugin not found for entity ", shown.as_str()))
        },
    }
}

/// The manifest entries that are enabled, in order.
pub open spec fn enabled_entries(s: Seq<PluginInfo>) -> Seq<int>
    decreases s.len(),
{
    if s.len() == 0 {
        seq![]
    } else {
        let prev = enabled_entries(s.drop_last());
        if s.last().enabled {
            prev.push(s.len() - 1)
        } else {
            prev
        }
    }
}

/// The abstract entries of a manifest.
pub open spec fn manifest_entries(m: &PluginManifest) -> Seq<PluginInfo> {
    m.plugins@.map_values(|p: PluginMetadata| p@)
}

/// Positions of the manifest entries to load: those that are enabled, in
/// the order they are listed.
pub fn plugins_to_load(manifest: &PluginManifest) -> (r: Vec<usize>)
    ensures
        r@.map_values(|i: usize| i as int) == enabled_entries(manifest_entries(manifest)),
{
    let mut out: Vec<usize> = Vec::new();
    let mut i: usize = 0;
    while i < manifest.plugins.len()
        invariant
            i <= manifest.plugins.len(),
            out@.map_values(|k: usize| k as int) == enabled_entries(manifest_entries(manifest).take(i as int)),
        decreases manifest.plugins.len() - i,
    {
        proof {
            assert(manifest_entries(manifest).take(i + 1).drop_last() =~= manifest_entries(manifest).take(i as int));
        }
        let ghost before = out@;
        if manifest.plugins[i].enabled {
            out.push(i);
            proof {
                assert(out@.map_values(|k: usize| k as int) =~= before.map_values(|k: usize| k as int).push(i as int));
            }
        }
        i = i + 1;
    }
    proof {
        assert(manifest_entries(manifest).take(manifest.plugins@.len() as int) =~= manifest_entries(manifest));
    }
    out
}

} // verus!
