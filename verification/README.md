# quick_search

An effect finder for the AviUtl2 video editor: type part of an effect's name
(in romaji, hiragana or katakana) and add the effect to the selected object or
as a new object on the timeline.

- `src/` is the verified library (Verus):
  - `text.rs` — characters of strings, white space and words, katakana
    folding, left-to-right replacement and the romaji-to-hiragana tables;
  - `search.rs` — categories, effect entries and how one word matches a name
    (prefix, substring, subsequence);
  - `rank.rs` — which effects a query lists and in what order, with the
    proof that this order is fully determined;
  - `counts.rs` — the use counts by effect name;
  - `panel.rs` — the search panel's state and how keys, input-method signals
    and menu requests change it;
  - `host.rs` — effects as the host reports them, the steps of adding an
    effect, how a menu command brings up the panel, where settings come from;
  - `i18n.rs`, `plugin.rs` — texts in Japanese and English; the plugin's name.
- `app/` is the plugin around it: the host registration, the settings file
  (JSON), the egui window and the Win32 calls.
- `tests/` runs the library on concrete inputs.
