//! Quick Search: find an effect of the editor by typing part of its name, in
//! romaji, hiragana or katakana, and add it to the timeline.
pub mod counts;
pub mod host;
pub mod i18n;
pub mod panel;
pub mod plugin;
pub mod rank;
pub mod search;
pub mod text;

pub use counts::UseCounts;
pub use host::{fetch_effects, register_and_show, register_and_show_settings, legacy_config_path};
pub use i18n::{tr, Language, TextKey};
pub use panel::SearchPanel;
pub use plugin::QuickSearch;
pub use search::{EffectCategory, EffectEntry, CATEGORIES};
pub use text::{katakana_to_hiragana, romaji_to_hiragana};
