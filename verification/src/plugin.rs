use vstd::prelude::*;

verus! {

/// The plugin's menu command that opens the panel.
pub const OPEN_PANEL_MENU: &'static str = "HARUME Quick Search\\Open Panel";

/// The plugin's menu command that opens the settings page.
pub const SETTINGS_MENU: &'static str = "HARUME Quick Search\\Settings";

/// The plugin. It keeps no state of its own: the panel's window is tracked
/// by the host side.
pub struct QuickSearch {}

/// The name and description the plugin gives the host.
pub struct PluginTable {
    pub name: String,
    pub information: String,
}

impl QuickSearch {
    pub fn new() -> (r: QuickSearch) {
        QuickSearch {}
    }

    /// The plugin's name and description.
    pub fn plugin_info(&self) -> (r: PluginTable)
        ensures
            r.name@ == "Quick Search"@,
            r.information@ == "Quickly search and add AviUtl2 effects with a native UI (egui)"@,
    {
        PluginTable {
            name: String::from_str("Quick Search"),
            information: String::from_str(
                "Quickly search and add AviUtl2 effects with a native UI (egui)",
            ),
        }
    }
}

/// Whether the debug switch asks for the panel to open at start-up: the
/// variable `QUICK_SEARCH_DEBUG_AUTOOPEN` must be exactly "1".
pub fn debug_auto_open(value: Option<&str>) -> (r: bool)
    ensures
        r == (value matches Some(v) && v@ == "1"@),
{
    proof {
        reveal_strlit("1");
    }
    match value {
        Some(v) => {
            if v.unicode_len() == 1 && v.get_char(0) == '1' {
                assert(v@ =~= "1"@);
                true
            } else {
                false
            }
        },
        None => false,
    }
}

} // verus!
