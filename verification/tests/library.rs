use quick_search::counts::UseCounts;
use quick_search::host::{
    add_start, after_create, after_filter, categorize, choose_target, config_source,
    fetch_effects, legacy_config_path, register_and_show, register_and_show_settings, AddStep,
    ConfigRead, ConfigSource, EffectKind, ShowAction, TargetChoice, OBJECT_ATTEMPTS,
};
use quick_search::i18n::{tr, Language, TextKey};
use quick_search::panel::{cursor_down, cursor_up, ImeSignal, KeyPresses, SearchPanel};
use quick_search::plugin::{debug_auto_open, QuickSearch, OPEN_PANEL_MENU, SETTINGS_MENU};
use quick_search::rank::{rank_effects, rank_effects_lowered};
use quick_search::search::{
    is_subsequence, match_word, EffectCategory, EffectEntry, MatchQuality, Rgba, CATEGORIES,
};
use quick_search::text::{
    chars_of, katakana_to_hiragana, replace_chars, romaji_to_hiragana,
    romaji_to_hiragana_lowered, split_words,
};

fn entry(name: &str, category: EffectCategory) -> EffectEntry {
    EffectEntry::new(name.to_string(), category)
}

fn no_keys() -> KeyPresses {
    KeyPresses { escape: false, enter: false, left: false, right: false, up: false, down: false }
}

// ── i18n ─────────────────────────────────────────────────────────────────────

#[test]
fn texts_in_both_languages() {
    assert_eq!(tr(Language::Japanese, TextKey::SearchPlaceholder), "エフェクトを検索...");
    assert_eq!(tr(Language::English, TextKey::SearchPlaceholder), "Search effects...");
    assert_eq!(tr(Language::Japanese, TextKey::Scene), "シーン");
    assert_eq!(tr(Language::English, TextKey::WindowSizeReset), "Window size has been reset");
    assert_eq!(tr(Language::English, TextKey::ConfigFile), "Settings file");
}

#[test]
fn language_labels_and_default() {
    assert_eq!(Language::Japanese.label(), "日本語");
    assert_eq!(Language::English.label(), "English");
    assert_eq!(Language::default(), Language::Japanese);
}

// ── Categories ───────────────────────────────────────────────────────────────

#[test]
fn category_labels_badges_and_colours() {
    assert_eq!(EffectCategory::Filter.label(Language::English), "Filter");
    assert_eq!(EffectCategory::All.label(Language::Japanese), "すべて");
    assert_eq!(EffectCategory::Object.badge_text(), "OBJ");
    assert_eq!(EffectCategory::All.badge_text(), "");
    assert_eq!(EffectCategory::Scene.badge_color(), Rgba { r: 230, g: 170, b: 130, a: 255 });
    assert_eq!(EffectCategory::Filter.badge_bg_color(), Rgba { r: 33, g: 40, b: 52, a: 255 });
    assert_eq!(EffectCategory::All.badge_color(), Rgba { r: 0, g: 0, b: 0, a: 0 });
}

#[test]
fn category_tabs_cycle() {
    assert_eq!(EffectCategory::All.next(), EffectCategory::Filter);
    assert_eq!(EffectCategory::Scene.next(), EffectCategory::All);
    assert_eq!(EffectCategory::All.previous(), EffectCategory::Scene);
    for c in CATEGORIES {
        assert_eq!(c.next().previous(), c);
        assert_eq!(c.previous().next(), c);
        assert_eq!(c.next().next().next().next(), c);
    }
}

// ── Text conversions ─────────────────────────────────────────────────────────

#[test]
fn katakana_folds_to_hiragana() {
    assert_eq!(katakana_to_hiragana("ブラー"), "ぶらー");
    assert_eq!(katakana_to_hiragana("ァヶ"), "ぁゖ");
    assert_eq!(katakana_to_hiragana("ぼかしABC"), "ぼかしABC");
    assert_eq!(katakana_to_hiragana(""), "");
    let once = katakana_to_hiragana("シーンチェンジ");
    assert_eq!(katakana_to_hiragana(&once), once);
}

#[test]
fn romaji_converts_to_hiragana() {
    assert_eq!(romaji_to_hiragana("ka"), "か");
    assert_eq!(romaji_to_hiragana("bokashi"), "ぼかし");
    assert_eq!(romaji_to_hiragana("Shya"), "しゃ");
    assert_eq!(romaji_to_hiragana("kyouka"), "kようか");
    assert_eq!(romaji_to_hiragana("nn"), "ん");
    assert_eq!(romaji_to_hiragana("tsumiki"), "つむいき");
    assert_eq!(romaji_to_hiragana("sha-pu"), "しゃ-ぷ");
    assert_eq!(romaji_to_hiragana("ktsu"), "っつ");
    assert_eq!(romaji_to_hiragana("x"), "x");
    assert_eq!(romaji_to_hiragana_lowered("kage"), "かげ");
}

#[test]
fn romaji_leaves_no_vowel_letters() {
    let out = romaji_to_hiragana("aiueon blur KAWAII");
    for c in ['a', 'i', 'u', 'e', 'o', 'n'] {
        assert!(!out.contains(c), "{} left in {}", c, out);
    }
}

#[test]
fn replace_scans_left_to_right_without_overlap() {
    let s = chars_of("aaaa");
    let out = replace_chars(&s, &chars_of("aa"), &chars_of("b"));
    assert_eq!(out, vec!['b', 'b']);
    let out = replace_chars(&chars_of("aaa"), &chars_of("aa"), &chars_of("b"));
    assert_eq!(out, vec!['b', 'a']);
    let out = replace_chars(&chars_of("abc"), &chars_of(""), &chars_of("x"));
    assert_eq!(out, vec!['a', 'b', 'c']);
}

#[test]
fn words_split_at_any_white_space() {
    let w = split_words(&chars_of("  ぼか\u{3000}し\tblur  "));
    assert_eq!(w, vec![chars_of("ぼか"), chars_of("し"), chars_of("blur")]);
    assert!(split_words(&chars_of("   ")).is_empty());
    assert!(split_words(&chars_of("")).is_empty());
}

// ── Matching ─────────────────────────────────────────────────────────────────

#[test]
fn subsequence_in_order_only() {
    assert!(is_subsequence("ぼかし", "ぼし"));
    assert!(is_subsequence("abc", ""));
    assert!(!is_subsequence("abc", "acb"));
    assert!(!is_subsequence("ab", "abc"));
}

#[test]
fn entry_keeps_search_forms() {
    let e = entry("Blur エフェクト", EffectCategory::Filter);
    assert_eq!(e.name, "Blur エフェクト");
    assert_eq!(e.name_lower, "blur エフェクト");
    assert_eq!(e.name_kana, "blur えふぇくと");
    assert_eq!(e.category, EffectCategory::Filter);
}

#[test]
fn match_word_qualities() {
    let e = entry("ぼかし", EffectCategory::Filter);
    assert_eq!(match_word(&e, "bo", "ぼ"), Some(MatchQuality::Prefix));
    assert_eq!(match_word(&e, "ka", "か"), Some(MatchQuality::Substring));
    assert_eq!(match_word(&e, "bosi", "ぼし"), Some(MatchQuality::Subsequence));
    assert_eq!(match_word(&e, "zz", "zz"), None);
    assert_eq!(match_word(&e, "", ""), None);
    let k = entry("ブラー", EffectCategory::Filter);
    assert_eq!(match_word(&k, "ぶら", "ぶら"), Some(MatchQuality::Prefix));
}

// ── Ranking ──────────────────────────────────────────────────────────────────

fn sample_effects() -> Vec<EffectEntry> {
    vec![
        entry("ぼかし", EffectCategory::Filter),
        entry("方向ブラー", EffectCategory::Filter),
        entry("シーンチェンジ", EffectCategory::Scene),
        entry("図形", EffectCategory::Object),
        entry("ブラー", EffectCategory::Filter),
        entry("レンズブラー", EffectCategory::Filter),
    ]
}

#[test]
fn empty_query_lists_the_tab_by_length() {
    let effects = sample_effects();
    let counts = UseCounts::new();
    let r = rank_effects(&effects, &counts, EffectCategory::All, "");
    // shorter names first, then by category, then by name
    assert_eq!(r, vec![3, 0, 4, 1, 5, 2]);
    let r = rank_effects(&effects, &counts, EffectCategory::Filter, "");
    assert_eq!(r, vec![0, 4, 1, 5]);
    let r = rank_effects(&effects, &counts, EffectCategory::Object, "   ");
    assert_eq!(r, vec![3]);
}

#[test]
fn query_ranks_prefix_before_substring() {
    let effects = sample_effects();
    let counts = UseCounts::new();
    let r = rank_effects(&effects, &counts, EffectCategory::All, "ぶらー");
    assert_eq!(r, vec![4, 1, 5]);
    let r = rank_effects(&effects, &counts, EffectCategory::All, "BURA");
    assert_eq!(r, vec![4, 1, 5]);
    let r = rank_effects_lowered(&effects, &counts, EffectCategory::All, "bokashi");
    assert_eq!(r, vec![0]);
    let r = rank_effects(&effects, &counts, EffectCategory::Scene, "ぶら");
    assert!(r.is_empty());
}

#[test]
fn every_word_must_match() {
    let effects = sample_effects();
    let counts = UseCounts::new();
    let r = rank_effects(&effects, &counts, EffectCategory::All, "れんず ぶら");
    assert_eq!(r, vec![5]);
    let r = rank_effects(&effects, &counts, EffectCategory::All, "れんず ぼかし");
    assert!(r.is_empty());
}

#[test]
fn use_counts_lift_an_effect() {
    let effects = sample_effects();
    let mut counts = UseCounts::new();
    counts.set("レンズブラー".to_string(), 3);
    counts.set("方向ブラー".to_string(), 1);
    let r = rank_effects(&effects, &counts, EffectCategory::All, "ぶら");
    // ブラー is the only prefix match; the substring matches go by use count
    assert_eq!(r, vec![4, 5, 1]);
}

// ── Use counts ───────────────────────────────────────────────────────────────

#[test]
fn use_counts_record_and_clear() {
    let mut c = UseCounts::new();
    let blur = "ブラー".to_string();
    assert_eq!(c.get(&blur), 0);
    c.record_use(&blur);
    c.record_use(&blur);
    assert_eq!(c.get(&blur), 2);
    c.set("ぼかし".to_string(), 7);
    c.set(blur.clone(), 5);
    assert_eq!(c.get(&blur), 5);
    let mut v = c.to_vec();
    v.sort();
    assert_eq!(v, vec![("ぼかし".to_string(), 7), ("ブラー".to_string(), 5)]);
    c.clear();
    assert_eq!(c.get(&blur), 0);
    assert!(c.to_vec().is_empty());
}

// ── Panel ────────────────────────────────────────────────────────────────────

#[test]
fn panel_starts_ranked_with_cursor_on_top() {
    let p = SearchPanel::new(sample_effects(), UseCounts::new(), Language::English, false);
    assert_eq!(p.filtered_indices, vec![3, 0, 4, 1, 5, 2]);
    assert_eq!(p.keyboard_cursor, Some(0));
    assert!(!p.dirty_filter && p.focus_search && p.scroll_to_cursor);
    let empty = SearchPanel::new(Vec::new(), UseCounts::new(), Language::English, true);
    assert_eq!(empty.keyboard_cursor, None);
    assert!(empty.show_settings);
}

#[test]
fn panel_keys_move_tab_and_cursor() {
    let mut p = SearchPanel::new(sample_effects(), UseCounts::new(), Language::English, false);
    p.scroll_to_cursor = false;
    let out = p.handle_input(&Vec::new(), KeyPresses { down: true, ..no_keys() });
    assert!(!out.should_hide && !out.enter);
    assert_eq!(p.keyboard_cursor, Some(1));
    assert!(p.scroll_to_cursor);
    p.handle_input(&Vec::new(), KeyPresses { up: true, ..no_keys() });
    p.handle_input(&Vec::new(), KeyPresses { up: true, ..no_keys() });
    assert_eq!(p.keyboard_cursor, Some(0));
    p.handle_input(&Vec::new(), KeyPresses { right: true, ..no_keys() });
    assert_eq!(p.selected_category, EffectCategory::Filter);
    assert!(p.dirty_filter);
    p.rebuild_filter();
    assert_eq!(p.filtered_indices, vec![0, 4, 1, 5]);
    for _ in 0..10 {
        p.handle_input(&Vec::new(), KeyPresses { down: true, ..no_keys() });
    }
    assert_eq!(p.keyboard_cursor, Some(3));
    p.handle_input(&Vec::new(), KeyPresses { left: true, ..no_keys() });
    assert_eq!(p.selected_category, EffectCategory::All);
}

#[test]
fn panel_ignores_keys_while_composing() {
    let mut p = SearchPanel::new(sample_effects(), UseCounts::new(), Language::Japanese, false);
    let out = p.handle_input(
        &vec![ImeSignal::Preedit("ぶ".to_string())],
        KeyPresses { enter: true, down: true, right: true, ..no_keys() },
    );
    assert!(p.is_composing);
    assert!(!out.enter);
    assert_eq!(p.keyboard_cursor, Some(0));
    assert_eq!(p.selected_category, EffectCategory::All);
    // The Enter that commits the composition adds nothing.
    let out = p.handle_input(&vec![ImeSignal::Commit], KeyPresses { enter: true, ..no_keys() });
    assert!(!p.is_composing);
    assert!(!out.enter);
    let out = p.handle_input(&Vec::new(), KeyPresses { enter: true, escape: true, ..no_keys() });
    assert!(out.enter && out.should_hide);
    p.handle_input(&vec![ImeSignal::Preedit(String::new()), ImeSignal::Other], no_keys());
    assert!(!p.is_composing);
    p.handle_input(&vec![ImeSignal::Preedit("x".to_string()), ImeSignal::Disabled], no_keys());
    assert!(!p.is_composing);
}

#[test]
fn panel_adds_the_selected_effect() {
    let mut p = SearchPanel::new(sample_effects(), UseCounts::new(), Language::English, false);
    p.search_query = "ぶら".to_string();
    p.rebuild_filter();
    assert_eq!(p.filtered_indices, vec![4, 1, 5]);
    p.handle_input(&Vec::new(), KeyPresses { down: true, ..no_keys() });
    let idx = p.selected_effect().unwrap();
    assert_eq!(idx, 1);
    let (name, category) = p.execute_add(idx);
    assert_eq!(name, "方向ブラー");
    assert_eq!(category, EffectCategory::Filter);
    assert!(p.dirty_filter);
    assert_eq!(p.use_counts.get(&name), 1);
    p.rebuild_filter();
    assert_eq!(p.filtered_indices, vec![4, 1, 5]);
    p.execute_add(5);
    p.execute_add(5);
    p.rebuild_filter();
    assert_eq!(p.filtered_indices, vec![4, 5, 1]);
    p.dismiss();
    assert_eq!(p.search_query, "");
    assert_eq!(p.keyboard_cursor, None);
    assert_eq!(p.selected_effect(), None);
}

#[test]
fn panel_settings_actions() {
    let mut p = SearchPanel::new(sample_effects(), UseCounts::new(), Language::Japanese, false);
    p.execute_add(0);
    p.reset_use_counts();
    assert_eq!(p.settings_status, "使用回数をリセットしました");
    assert_eq!(p.use_counts.get(&"ぼかし".to_string()), 0);
    assert!(p.set_language(Language::English));
    assert_eq!(p.settings_status, "");
    assert!(!p.set_language(Language::English));
    p.note_window_size_reset();
    assert_eq!(p.settings_status, "Window size has been reset");
    p.apply_requests(None, true, true);
    assert!(p.show_settings && p.focus_search);
    assert_eq!(p.settings_status, "");
    p.back_to_search();
    assert!(!p.show_settings);
    p.select_category(EffectCategory::Scene);
    p.rebuild_filter();
    assert_eq!(p.filtered_indices, vec![2]);
    p.apply_requests(Some(vec![entry("シーン", EffectCategory::Scene)]), false, false);
    assert!(p.dirty_filter);
    p.rebuild_filter();
    assert_eq!(p.filtered_indices, vec![0]);
}

#[test]
fn cursor_moves_stay_in_rows() {
    assert_eq!(cursor_down(None, 0), 0);
    assert_eq!(cursor_down(Some(0), 0), 0);
    assert_eq!(cursor_down(Some(2), 3), 2);
    assert_eq!(cursor_down(Some(1), 3), 2);
    assert_eq!(cursor_up(None), 0);
    assert_eq!(cursor_up(Some(0)), 0);
    assert_eq!(cursor_up(Some(5)), 4);
}

// ── Host side ────────────────────────────────────────────────────────────────

#[test]
fn effect_kinds_map_to_categories() {
    assert_eq!(categorize(EffectKind::Filter), EffectCategory::Filter);
    assert_eq!(categorize(EffectKind::Input), EffectCategory::Object);
    assert_eq!(categorize(EffectKind::Control), EffectCategory::Object);
    assert_eq!(categorize(EffectKind::Output), EffectCategory::Object);
    assert_eq!(categorize(EffectKind::SceneChange), EffectCategory::Scene);
}

#[test]
fn fetch_lists_host_effects() {
    let host = vec![
        ("ブラー".to_string(), EffectKind::Filter),
        ("図形".to_string(), EffectKind::Input),
    ];
    assert!(fetch_effects(false, &host).is_empty());
    let r = fetch_effects(true, &host);
    assert_eq!(r.len(), 2);
    assert_eq!(r[0].name, "ブラー");
    assert_eq!(r[0].name_kana, "ぶらー");
    assert_eq!(r[1].category, EffectCategory::Object);
}

#[test]
fn adding_tries_filter_then_layers() {
    assert_eq!(choose_target(true, 3), TargetChoice::Focused);
    assert_eq!(choose_target(false, 3), TargetChoice::FirstSelected);
    assert_eq!(choose_target(false, 0), TargetChoice::NoTarget);
    assert_eq!(add_start(EffectCategory::Filter, true, 4), AddStep::AddFilter);
    assert_eq!(add_start(EffectCategory::Scene, true, 4), AddStep::AddFilter);
    assert_eq!(add_start(EffectCategory::Object, true, 4), AddStep::CreateObject { layer: 4, attempt: 0 });
    assert_eq!(add_start(EffectCategory::Filter, false, 4), AddStep::CreateObject { layer: 4, attempt: 0 });
    assert_eq!(after_filter(true, 4), AddStep::Done);
    assert_eq!(after_filter(false, 4), AddStep::CreateObject { layer: 4, attempt: 0 });
    assert_eq!(after_create(true, 4, 0), AddStep::Done);
    let mut step = AddStep::CreateObject { layer: 4, attempt: 0 };
    let mut tries = 0;
    while let AddStep::CreateObject { layer, attempt } = step {
        assert_eq!(layer, 4 + attempt);
        tries += 1;
        step = after_create(false, layer, attempt);
    }
    assert_eq!(tries, OBJECT_ATTEMPTS);
}

#[test]
fn menu_commands_plan_the_panel() {
    let p = register_and_show(true, true);
    assert_eq!(p.action, ShowAction::ShowWindow);
    assert!(p.fetch && p.focus && p.refresh && !p.settings);
    assert_eq!(register_and_show(false, true).action, ShowAction::AwaitWindow);
    assert_eq!(register_and_show(false, false).action, ShowAction::StartPanel);
    let s = register_and_show_settings(false, false);
    assert!(s.fetch && s.settings && s.focus && s.refresh);
    assert!(register_and_show(false, true).fetch && register_and_show(true, false).fetch);
    assert_eq!(s.action, ShowAction::StartPanel);
}

#[test]
fn settings_file_sources() {
    assert_eq!(legacy_config_path(), "C:\\ProgramData\\aviutl2\\Plugin\\quick_search_settings.json");
    match config_source(ConfigRead::Text("{}".to_string())) {
        ConfigSource::Use(s) => assert_eq!(s, "{}"),
        _ => panic!("text read must be used"),
    }
    assert!(matches!(config_source(ConfigRead::NotFound), ConfigSource::TryLegacy));
    assert!(matches!(config_source(ConfigRead::Failed), ConfigSource::Defaults));
}

#[test]
fn plugin_identity_and_debug_switch() {
    let info = QuickSearch::new().plugin_info();
    assert_eq!(info.name, "Quick Search");
    assert_eq!(info.information, "Quickly search and add AviUtl2 effects with a native UI (egui)");
    assert_eq!(OPEN_PANEL_MENU, "HARUME Quick Search\\Open Panel");
    assert_eq!(SETTINGS_MENU, "HARUME Quick Search\\Settings");
    assert!(debug_auto_open(Some("1")));
    assert!(!debug_auto_open(Some("0")));
    assert!(!debug_auto_open(Some("11")));
    assert!(!debug_auto_open(None));
}

const ALL_KEYS: [TextKey; 18] = [
    TextKey::SearchPlaceholder,
    TextKey::Close,
    TextKey::BackToSearch,
    TextKey::SettingsTitle,
    TextKey::SettingsGeneral,
    TextKey::SettingsData,
    TextKey::Language,
    TextKey::ConfigFile,
    TextKey::UsageHistory,
    TextKey::WindowSize,
    TextKey::ResetUseCounts,
    TextKey::ResetWindowSize,
    TextKey::UseCountsReset,
    TextKey::WindowSizeReset,
    TextKey::All,
    TextKey::Filter,
    TextKey::Object,
    TextKey::Scene,
];

#[test]
fn texts_are_distinct_and_in_their_script() {
    for lang in [Language::Japanese, Language::English] {
        for (a, k1) in ALL_KEYS.iter().enumerate() {
            assert!(!tr(lang, *k1).is_empty());
            for (b, k2) in ALL_KEYS.iter().enumerate() {
                if a != b {
                    assert_ne!(tr(lang, *k1), tr(lang, *k2));
                }
            }
        }
    }
    for k in ALL_KEYS {
        assert!(tr(Language::English, k).is_ascii());
        assert!(!tr(Language::Japanese, k).is_ascii());
    }
}

#[test]
fn romaji_ignores_ascii_case() {
    assert_eq!(romaji_to_hiragana("BOKASHI"), romaji_to_hiragana("bokashi"));
    assert_eq!(romaji_to_hiragana("BoKaShI"), "ぼかし");
}

#[test]
fn query_text_laws_on_examples() {
    let effects = sample_effects();
    let counts = UseCounts::new();
    let wide = rank_effects(&effects, &counts, EffectCategory::All, "bura");
    let narrow = rank_effects(&effects, &counts, EffectCategory::All, "bura renzu");
    assert!(narrow.iter().all(|x| wide.contains(x)));
    let tab = rank_effects(&effects, &counts, EffectCategory::Filter, "bura");
    assert!(tab.iter().all(|x| wide.contains(x)));
    let blank = rank_effects(&effects, &counts, EffectCategory::All, " \t ");
    let mut sorted = blank.clone();
    sorted.sort();
    assert_eq!(sorted, (0..effects.len()).collect::<Vec<_>>());
}

#[test]
fn romaji_leaves_no_capitals_for_any_input() {
    for q in ["ÀBCぶらKA", "ΣΑΣ BLUR", "ＡＢＣ xyz", "Kelvin \u{212A}"] {
        let out = romaji_to_hiragana(q);
        assert!(!out.chars().any(|c| c.is_ascii_uppercase()), "{}", out);
        for c in ['a', 'i', 'u', 'e', 'o', 'n'] {
            assert!(!out.contains(c), "{} left in {}", c, out);
        }
    }
}

#[test]
fn query_text_laws_beyond_ascii() {
    let effects = sample_effects();
    let counts = UseCounts::new();
    let wide = rank_effects(&effects, &counts, EffectCategory::All, "ブラ");
    let narrow = rank_effects(&effects, &counts, EffectCategory::All, "ブラ レンズ");
    assert!(!narrow.is_empty());
    assert!(narrow.iter().all(|x| wide.contains(x)));
    let mut blank = rank_effects(&effects, &counts, EffectCategory::All, "\u{3000}");
    blank.sort();
    assert_eq!(blank, (0..effects.len()).collect::<Vec<_>>());
}
