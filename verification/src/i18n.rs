use vstd::prelude::*;

use crate::text::is_ascii_text;

verus! {

/// The language of the panel's texts.
#[derive(Clone, Copy, Debug, PartialEq, Eq, Structural)]
pub enum Language {
    Japanese,
    English,
}

impl Default for Language {
    fn default() -> (r: Self)
        ensures
            r == Language::Japanese,
    {
        Language::Japanese
    }
}

/// The name of a language, written in that language.
pub open spec fn language_label(language: Language) -> Seq<char> {
    match language {
        Language::Japanese => "日本語"@,
        Language::English => "English"@,
    }
}

impl Language {
    /// The name of the language, written in that language.
    pub fn label(self) -> (r: &'static str)
        ensures
            r@ == language_label(self),
    {
        match self {
            Language::Japanese => "日本語",
            Language::English => "English",
        }
    }
}

/// The texts that the panel shows.
#[derive(Clone, Copy, Debug, PartialEq, Eq, Structural)]
pub enum TextKey {
    SearchPlaceholder,
    Close,
    BackToSearch,
    SettingsTitle,
    SettingsGeneral,
    SettingsData,
    Language,
    ConfigFile,
    UsageHistory,
    WindowSize,
    ResetUseCounts,
    ResetWindowSize,
    UseCountsReset,
    WindowSizeReset,
    All,
    Filter,
    Object,
    Scene,
}

/// The text for `key` in `language`.
pub open spec fn text_of(language: Language, key: TextKey) -> Seq<char> {
    match language {
        Language::Japanese => match key {
            TextKey::SearchPlaceholder => "エフェクトを検索..."@,
            TextKey::Close => "閉じる"@,
            TextKey::BackToSearch => "検索に戻る"@,
            TextKey::SettingsTitle => "Quick Search 設定"@,
            TextKey::SettingsGeneral => "一般"@,
            TextKey::SettingsData => "データ"@,
            TextKey::Language => "言語"@,
            TextKey::ConfigFile => "設定ファイル"@,
            TextKey::UsageHistory => "使用履歴"@,
            TextKey::WindowSize => "ウィンドウサイズ"@,
            TextKey::ResetUseCounts => "使用回数をリセット"@,
            TextKey::ResetWindowSize => "ウィンドウサイズを初期化"@,
            TextKey::UseCountsReset => "使用回数をリセットしました"@,
            TextKey::WindowSizeReset => "ウィンドウサイズを初期化しました"@,
            TextKey::All => "すべて"@,
            TextKey::Filter => "フィルタ"@,
            TextKey::Object => "オブジェクト"@,
            TextKey::Scene => "シーン"@,
        },
        Language::English => match key {
            TextKey::SearchPlaceholder => "Search effects..."@,
            TextKey::Close => "Close"@,
            TextKey::BackToSearch => "Back to Search"@,
            TextKey::SettingsTitle => "Quick Search Settings"@,
            TextKey::SettingsGeneral => "General"@,
            TextKey::SettingsData => "Data"@,
            TextKey::Language => "Language"@,
            TextKey::ConfigFile => "Settings file"@,
            TextKey::UsageHistory => "Usage History"@,
            TextKey::WindowSize => "Window Size"@,
            TextKey::ResetUseCounts => "Reset Usage Counts"@,
            TextKey::ResetWindowSize => "Reset Window Size"@,
            TextKey::UseCountsReset => "Usage counts have been reset"@,
            TextKey::WindowSizeReset => "Window size has been reset"@,
            TextKey::All => "All"@,
            TextKey::Filter => "Filter"@,
            TextKey::Object => "Object"@,
            TextKey::Scene => "Scene"@,
        },
    }
}

/// The text for `key` in `language`.
pub fn tr(language: Language, key: TextKey) -> (r: &'static str)
    ensures
        r@ == text_of(language, key),
{
    match language {
        Language::Japanese => match key {
            TextKey::SearchPlaceholder => "エフェクトを検索...",
            TextKey::Close => "閉じる",
            TextKey::BackToSearch => "検索に戻る",
            TextKey::SettingsTitle => "Quick Search 設定",
            TextKey::SettingsGeneral => "一般",
            TextKey::SettingsData => "データ",
            TextKey::Language => "言語",
            TextKey::ConfigFile => "設定ファイル",
            TextKey::UsageHistory => "使用履歴",
            TextKey::WindowSize => "ウィンドウサイズ",
            TextKey::ResetUseCounts => "使用回数をリセット",
            TextKey::ResetWindowSize => "ウィンドウサイズを初期化",
            TextKey::UseCountsReset => "使用回数をリセットしました",
            TextKey::WindowSizeReset => "ウィンドウサイズを初期化しました",
            TextKey::All => "すべて",
            TextKey::Filter => "フィルタ",
            TextKey::Object => "オブジェクト",
            TextKey::Scene => "シーン",
        },
        Language::English => match key {
            TextKey::SearchPlaceholder => "Search effects...",
            TextKey::Close => "Close",
            TextKey::BackToSearch => "Back to Search",
            TextKey::SettingsTitle => "Quick Search Settings",
            TextKey::SettingsGeneral => "General",
            TextKey::SettingsData => "Data",
            TextKey::Language => "Language",
            TextKey::ConfigFile => "Settings file",
            TextKey::UsageHistory => "Usage History",
            TextKey::WindowSize => "Window Size",
            TextKey::ResetUseCounts => "Reset Usage Counts",
            TextKey::ResetWindowSize => "Reset Window Size",
            TextKey::UseCountsReset => "Usage counts have been reset",
            TextKey::WindowSizeReset => "Window size has been reset",
            TextKey::All => "All",
            TextKey::Filter => "Filter",
            TextKey::Object => "Object",
            TextKey::Scene => "Scene",
        },
    }
}


/// The length and first code point of each text; within one language no two
/// keys have the same pair.
spec fn text_shape(language: Language, key: TextKey) -> (int, u32) {
    match language {
        Language::Japanese => match key {
            TextKey::SearchPlaceholder => (11, 0x30A8),
            TextKey::Close => (3, 0x9589),
            TextKey::BackToSearch => (5, 0x691C),
            TextKey::SettingsTitle => (15, 0x51),
            TextKey::SettingsGeneral => (2, 0x4E00),
            TextKey::SettingsData => (3, 0x30C7),
            TextKey::Language => (2, 0x8A00),
            TextKey::ConfigFile => (6, 0x8A2D),
            TextKey::UsageHistory => (4, 0x4F7F),
            TextKey::WindowSize => (8, 0x30A6),
            TextKey::ResetUseCounts => (9, 0x4F7F),
            TextKey::ResetWindowSize => (12, 0x30A6),
            TextKey::UseCountsReset => (13, 0x4F7F),
            TextKey::WindowSizeReset => (16, 0x30A6),
            TextKey::All => (3, 0x3059),
            TextKey::Filter => (4, 0x30D5),
            TextKey::Object => (6, 0x30AA),
            TextKey::Scene => (3, 0x30B7),
        },
        Language::English => match key {
            TextKey::SearchPlaceholder => (17, 0x53),
            TextKey::Close => (5, 0x43),
            TextKey::BackToSearch => (14, 0x42),
            TextKey::SettingsTitle => (21, 0x51),
            TextKey::SettingsGeneral => (7, 0x47),
            TextKey::SettingsData => (4, 0x44),
            TextKey::Language => (8, 0x4C),
            TextKey::ConfigFile => (13, 0x53),
            TextKey::UsageHistory => (13, 0x55),
            TextKey::WindowSize => (11, 0x57),
            TextKey::ResetUseCounts => (18, 0x52),
            TextKey::ResetWindowSize => (17, 0x52),
            TextKey::UseCountsReset => (28, 0x55),
            TextKey::WindowSizeReset => (26, 0x57),
            TextKey::All => (3, 0x41),
            TextKey::Filter => (6, 0x46),
            TextKey::Object => (6, 0x4F),
            TextKey::Scene => (5, 0x53),
        },
    }
}

proof fn lemma_text_shape(language: Language, key: TextKey)
    ensures
        text_of(language, key).len() > 0,
        (text_of(language, key).len() as int, text_of(language, key)[0] as u32) == text_shape(
            language,
            key,
        ),
{
    reveal_strlit("エフェクトを検索...");
    reveal_strlit("閉じる");
    reveal_strlit("検索に戻る");
    reveal_strlit("Quick Search 設定");
    reveal_strlit("一般");
    reveal_strlit("データ");
    reveal_strlit("言語");
    reveal_strlit("設定ファイル");
    reveal_strlit("使用履歴");
    reveal_strlit("ウィンドウサイズ");
    reveal_strlit("使用回数をリセット");
    reveal_strlit("ウィンドウサイズを初期化");
    reveal_strlit("使用回数をリセットしました");
    reveal_strlit("ウィンドウサイズを初期化しました");
    reveal_strlit("すべて");
    reveal_strlit("フィルタ");
    reveal_strlit("オブジェクト");
    reveal_strlit("シーン");
    reveal_strlit("Search effects...");
    reveal_strlit("Close");
    reveal_strlit("Back to Search");
    reveal_strlit("Quick Search Settings");
    reveal_strlit("General");
    reveal_strlit("Data");
    reveal_strlit("Language");
    reveal_strlit("Settings file");
    reveal_strlit("Usage History");
    reveal_strlit("Window Size");
    reveal_strlit("Reset Usage Counts");
    reveal_strlit("Reset Window Size");
    reveal_strlit("Usage counts have been reset");
    reveal_strlit("Window size has been reset");
    reveal_strlit("All");
    reveal_strlit("Filter");
    reveal_strlit("Object");
    reveal_strlit("Scene");
}

/// Within one language every text is non-empty and no two keys share a text.
pub proof fn lemma_texts_distinct(language: Language, k1: TextKey, k2: TextKey)
    ensures
        text_of(language, k1).len() > 0,
        k1 != k2 ==> text_of(language, k1) != text_of(language, k2),
{
    lemma_text_shape(language, k1);
    lemma_text_shape(language, k2);
}

/// The English texts are all ASCII; each Japanese text holds a character
/// beyond ASCII, so no key has the same text in both languages.
pub proof fn lemma_text_scripts(key: TextKey)
    ensures
        is_ascii_text(text_of(Language::English, key)),
        !is_ascii_text(text_of(Language::Japanese, key)),
        text_of(Language::English, key) != text_of(Language::Japanese, key),
{
    reveal_strlit("エフェクトを検索...");
    reveal_strlit("閉じる");
    reveal_strlit("検索に戻る");
    reveal_strlit("Quick Search 設定");
    reveal_strlit("一般");
    reveal_strlit("データ");
    reveal_strlit("言語");
    reveal_strlit("設定ファイル");
    reveal_strlit("使用履歴");
    reveal_strlit("ウィンドウサイズ");
    reveal_strlit("使用回数をリセット");
    reveal_strlit("ウィンドウサイズを初期化");
    reveal_strlit("使用回数をリセットしました");
    reveal_strlit("ウィンドウサイズを初期化しました");
    reveal_strlit("すべて");
    reveal_strlit("フィルタ");
    reveal_strlit("オブジェクト");
    reveal_strlit("シーン");
    reveal_strlit("Search effects...");
    reveal_strlit("Close");
    reveal_strlit("Back to Search");
    reveal_strlit("Quick Search Settings");
    reveal_strlit("General");
    reveal_strlit("Data");
    reveal_strlit("Language");
    reveal_strlit("Settings file");
    reveal_strlit("Usage History");
    reveal_strlit("Window Size");
    reveal_strlit("Reset Usage Counts");
    reveal_strlit("Reset Window Size");
    reveal_strlit("Usage counts have been reset");
    reveal_strlit("Window size has been reset");
    reveal_strlit("All");
    reveal_strlit("Filter");
    reveal_strlit("Object");
    reveal_strlit("Scene");
    match key {
        TextKey::SearchPlaceholder => assert(text_of(Language::Japanese, key)[0] as u32 >= 0x80),
        TextKey::Close => assert(text_of(Language::Japanese, key)[0] as u32 >= 0x80),
        TextKey::BackToSearch => assert(text_of(Language::Japanese, key)[0] as u32 >= 0x80),
        TextKey::SettingsTitle => assert(text_of(Language::Japanese, key)[13] as u32 >= 0x80),
        TextKey::SettingsGeneral => assert(text_of(Language::Japanese, key)[0] as u32 >= 0x80),
        TextKey::SettingsData => assert(text_of(Language::Japanese, key)[0] as u32 >= 0x80),
        TextKey::Language => assert(text_of(Language::Japanese, key)[0] as u32 >= 0x80),
        TextKey::ConfigFile => assert(text_of(Language::Japanese, key)[0] as u32 >= 0x80),
        TextKey::UsageHistory => assert(text_of(Language::Japanese, key)[0] as u32 >= 0x80),
        TextKey::WindowSize => assert(text_of(Language::Japanese, key)[0] as u32 >= 0x80),
        TextKey::ResetUseCounts => assert(text_of(Language::Japanese, key)[0] as u32 >= 0x80),
        TextKey::ResetWindowSize => assert(text_of(Language::Japanese, key)[0] as u32 >= 0x80),
        TextKey::UseCountsReset => assert(text_of(Language::Japanese, key)[0] as u32 >= 0x80),
        TextKey::WindowSizeReset => assert(text_of(Language::Japanese, key)[0] as u32 >= 0x80),
        TextKey::All => assert(text_of(Language::Japanese, key)[0] as u32 >= 0x80),
        TextKey::Filter => assert(text_of(Language::Japanese, key)[0] as u32 >= 0x80),
        TextKey::Object => assert(text_of(Language::Japanese, key)[0] as u32 >= 0x80),
        TextKey::Scene => assert(text_of(Language::Japanese, key)[0] as u32 >= 0x80),
    }
}

} // verus!
