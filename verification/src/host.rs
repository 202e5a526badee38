use vstd::prelude::*;

use crate::search::{EffectCategory, EffectEntry};
use crate::text::{fold_katakana, lowercase};

verus! {

// ── Effects from the host ────────────────────────────────────────────────────

/// The kinds of effect the host reports.
#[derive(Clone, Copy, Debug, PartialEq, Eq, Structural)]
pub enum EffectKind {
    Filter,
    Input,
    Control,
    Output,
    SceneChange,
}

/// The panel's category for a kind of effect: scene changes are scenes;
/// media input, object control and media output stand alone as objects;
/// filters are filters.
pub open spec fn category_of_kind(kind: EffectKind) -> EffectCategory {
    match kind {
        EffectKind::SceneChange => EffectCategory::Scene,
        EffectKind::Input | EffectKind::Control | EffectKind::Output => EffectCategory::Object,
        EffectKind::Filter => EffectCategory::Filter,
    }
}

/// The panel's category for a kind of effect.
pub fn categorize(kind: EffectKind) -> (r: EffectCategory)
    ensures
        r == category_of_kind(kind),
{
    match kind {
        EffectKind::SceneChange => EffectCategory::Scene,
        EffectKind::Input | EffectKind::Control | EffectKind::Output => EffectCategory::Object,
        EffectKind::Filter => EffectCategory::Filter,
    }
}

/// Entry `e` stands for the host's effect `(name, kind)`.
pub open spec fn entry_for(e: EffectEntry, name: Seq<char>, kind: EffectKind) -> bool {
    &&& e.name@ == name
    &&& e.name_lower@ == lowercase(name)
    &&& e.name_kana@ == fold_katakana(lowercase(name))
    &&& e.category == category_of_kind(kind)
}

/// The list of effects: none while the host is not ready, else one entry for
/// each effect the host reports, in its order.
pub fn fetch_effects(ready: bool, host_effects: &Vec<(String, EffectKind)>) -> (r: Vec<EffectEntry>)
    ensures
        !ready ==> r@.len() == 0,
        ready ==> r@.len() == host_effects@.len(),
        ready ==> forall|k: int|
            0 <= k < r@.len() ==> entry_for(
                #[trigger] r@[k],
                host_effects@[k].0@,
                host_effects@[k].1,
            ),
{
    let mut r: Vec<EffectEntry> = Vec::new();
    if ready {
        let mut k: usize = 0;
        while k < host_effects.len()
            invariant
                k <= host_effects@.len(),
                r@.len() == k,
                forall|j: int|
                    0 <= j < k ==> entry_for(#[trigger] r@[j], host_effects@[j].0@, host_effects@[j].1),
            decreases host_effects@.len() - k,
        {
            let name = host_effects[k].0.clone();
            let entry = EffectEntry::new(name, categorize(host_effects[k].1));
            r.push(entry);
            k += 1;
        }
    }
    r
}

// ── Adding an effect ─────────────────────────────────────────────────────────

/// How many layers are tried, one after another, for a new object.
pub const OBJECT_ATTEMPTS: usize = 50;

/// The length, in frames, of a new object.
pub const OBJECT_FRAMES: usize = 180;

/// Which object an effect is added to as a filter.
#[derive(Clone, Copy, Debug, PartialEq, Eq, Structural)]
pub enum TargetChoice {
    /// The focused object.
    Focused,
    /// The first of the selected objects.
    FirstSelected,
    /// None: there is no object to add to.
    NoTarget,
}

/// The focused object if there is one, else the first selected object.
pub fn choose_target(has_focused: bool, selected_count: usize) -> (r: TargetChoice)
    ensures
        r == if has_focused {
            TargetChoice::Focused
        } else if selected_count > 0 {
            TargetChoice::FirstSelected
        } else {
            TargetChoice::NoTarget
        },
{
    if has_focused {
        TargetChoice::Focused
    } else if selected_count > 0 {
        TargetChoice::FirstSelected
    } else {
        TargetChoice::NoTarget
    }
}

/// Effects of every category but `Object` go onto an existing object as filters, where one is chosen.
pub open spec fn goes_on_object(category: EffectCategory) -> bool {
    category != EffectCategory::Object
}

/// The next thing to do while adding an effect.
#[derive(Clone, Copy, Debug, PartialEq, Eq, Structural)]
pub enum AddStep {
    /// Add the effect to the chosen object as a filter.
    AddFilter,
    /// Create a new object holding the effect on `layer`; this is try
    /// number `attempt` (from 0).
    CreateObject { layer: usize, attempt: usize },
    /// Nothing more to do.
    Done,
}

/// The first step: a filter onto the chosen object where the category goes
/// on one and there is a target, else a new object on the current layer.
pub fn add_start(category: EffectCategory, has_target: bool, base_layer: usize) -> (r: AddStep)
    ensures
        r == if goes_on_object(category) && has_target {
            AddStep::AddFilter
        } else {
            AddStep::CreateObject { layer: base_layer, attempt: 0 }
        },
{
    let on_object = match category {
        EffectCategory::Object => false,
        _ => true,
    };
    if on_object && has_target {
        AddStep::AddFilter
    } else {
        AddStep::CreateObject { layer: base_layer, attempt: 0 }
    }
}

/// After adding the filter: done if it was added, else a new object on the
/// current layer.
pub fn after_filter(added: bool, base_layer: usize) -> (r: AddStep)
    ensures
        r == if added {
            AddStep::Done
        } else {
            AddStep::CreateObject { layer: base_layer, attempt: 0 }
        },
{
    if added {
        AddStep::Done
    } else {
        AddStep::CreateObject { layer: base_layer, attempt: 0 }
    }
}

/// After trying to create the object: done if it was created or the tries
/// are used up, else a try on the next layer.
pub fn after_create(created: bool, layer: usize, attempt: usize) -> (r: AddStep)
    requires
        attempt < OBJECT_ATTEMPTS,
        !created && attempt + 1 < OBJECT_ATTEMPTS ==> layer < usize::MAX,
    ensures
        r == if created || attempt + 1 >= OBJECT_ATTEMPTS {
            AddStep::Done
        } else {
            AddStep::CreateObject { layer: (layer + 1) as usize, attempt: (attempt + 1) as usize }
        },
{
    if created || attempt + 1 >= OBJECT_ATTEMPTS {
        AddStep::Done
    } else {
        AddStep::CreateObject { layer: layer + 1, attempt: attempt + 1 }
    }
}

/// Every try to create an object stands `attempt` layers above the layer the
/// first try used, and there are at most `OBJECT_ATTEMPTS` tries.
pub proof fn lemma_create_tries(layer: usize, attempt: usize, base_layer: usize)
    requires
        attempt < OBJECT_ATTEMPTS,
        layer == base_layer + attempt,
        attempt + 1 < OBJECT_ATTEMPTS ==> layer < usize::MAX,
    ensures
        match (if attempt + 1 >= OBJECT_ATTEMPTS {
            AddStep::Done
        } else {
            AddStep::CreateObject { layer: (layer + 1) as usize, attempt: (attempt + 1) as usize }
        }) {
            AddStep::CreateObject { layer: l, attempt: a } => l == base_layer + a && a < OBJECT_ATTEMPTS,
            _ => true,
        },
{
}

// ── Showing the panel ────────────────────────────────────────────────────────

/// How a menu command brings up the panel.
#[derive(Clone, Copy, Debug, PartialEq, Eq, Structural)]
pub enum ShowAction {
    /// The window exists: show it over the foreground window.
    ShowWindow,
    /// The panel is starting and has no window yet: it will show itself.
    AwaitWindow,
    /// Nothing runs yet: start the panel.
    StartPanel,
}

/// What a menu command does: the requests it raises for the panel (never
/// lowered here), whether the host's effects are read again, and how it
/// brings the panel up.
#[derive(Clone, Copy, Debug, PartialEq, Eq, Structural)]
pub struct ShowPlan {
    /// Read the host's effects into the shared list.
    pub fetch: bool,
    pub focus: bool,
    pub refresh: bool,
    pub settings: bool,
    pub action: ShowAction,
}

pub open spec fn show_action_for(window_open: bool, panel_running: bool) -> ShowAction {
    if window_open {
        ShowAction::ShowWindow
    } else if panel_running {
        ShowAction::AwaitWindow
    } else {
        ShowAction::StartPanel
    }
}

fn show_action(window_open: bool, panel_running: bool) -> (r: ShowAction)
    ensures
        r == show_action_for(window_open, panel_running),
{
    if window_open {
        ShowAction::ShowWindow
    } else if panel_running {
        ShowAction::AwaitWindow
    } else {
        ShowAction::StartPanel
    }
}

/// "Open Panel": read the host's effects again on every path, focus the
/// search box, ask the panel to list the effects afresh, and show the
/// window, wait for it, or start the panel. Whether the window exists decides
/// first, so a second command while the panel starts never starts it twice.
pub fn register_and_show(window_open: bool, panel_running: bool) -> (r: ShowPlan)
    ensures
        r == (ShowPlan {
            fetch: true,
            focus: true,
            refresh: true,
            settings: false,
            action: show_action_for(window_open, panel_running),
        }),
{
    ShowPlan { fetch: true, focus: true, refresh: true, settings: false, action: show_action(window_open, panel_running) }
}

/// "Settings": as "Open Panel", and open the settings page too.
pub fn register_and_show_settings(window_open: bool, panel_running: bool) -> (r: ShowPlan)
    ensures
        r == (ShowPlan {
            fetch: true,
            focus: true,
            refresh: true,
            settings: true,
            action: show_action_for(window_open, panel_running),
        }),
{
    let plan = register_and_show(window_open, panel_running);
    ShowPlan { settings: true, ..plan }
}

// ── Settings file ────────────────────────────────────────────────────────────

/// The settings file of earlier versions, read once to carry settings over.
pub fn legacy_config_path() -> (r: &'static str)
    ensures
        r@ == "C:\\ProgramData\\aviutl2\\Plugin\\quick_search_settings.json"@,
{
    "C:\\ProgramData\\aviutl2\\Plugin\\quick_search_settings.json"
}

/// How reading the settings file went.
pub enum ConfigRead {
    Text(String),
    NotFound,
    Failed,
}

/// Where the settings come from.
pub enum ConfigSource {
    /// This text.
    Use(String),
    /// The file of earlier versions, if it can be read.
    TryLegacy,
    /// The defaults.
    Defaults,
}

/// The text read is used; a missing file sends the search to the file of
/// earlier versions; any other failure means the defaults.
pub fn config_source(primary: ConfigRead) -> (r: ConfigSource)
    ensures
        match primary {
            ConfigRead::Text(s) => r matches ConfigSource::Use(t) && t == s,
            ConfigRead::NotFound => r is TryLegacy,
            ConfigRead::Failed => r is Defaults,
        },
{
    match primary {
        ConfigRead::Text(s) => ConfigSource::Use(s),
        ConfigRead::NotFound => ConfigSource::TryLegacy,
        ConfigRead::Failed => ConfigSource::Defaults,
    }
}

} // verus!
