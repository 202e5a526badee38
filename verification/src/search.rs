use vstd::prelude::*;

use crate::i18n::{text_of, tr, Language, TextKey};
use crate::text::{
    ascii_lower, is_ascii_text, no_ascii_upper, chars_of, fold_katakana, katakana_to_hiragana, lowercase, occurs_at, to_lowercase,
};

verus! {

// ── Categories ───────────────────────────────────────────────────────────────

/// The kinds of effect the panel tells apart; `All` selects every kind.
#[derive(Clone, Copy, Debug, PartialEq, Eq, Structural)]
pub enum EffectCategory {
    All,
    Filter,
    Object,
    Scene,
}

/// The category tabs, in the order the panel shows them.
pub const CATEGORIES: [EffectCategory; 4] = [
    EffectCategory::All,
    EffectCategory::Filter,
    EffectCategory::Object,
    EffectCategory::Scene,
];

/// Where a category stands among `CATEGORIES`.
pub open spec fn category_position(c: EffectCategory) -> int {
    match c {
        EffectCategory::All => 0,
        EffectCategory::Filter => 1,
        EffectCategory::Object => 2,
        EffectCategory::Scene => 3,
    }
}

/// The text key of a category's tab label.
pub open spec fn category_text_key(c: EffectCategory) -> TextKey {
    match c {
        EffectCategory::All => TextKey::All,
        EffectCategory::Filter => TextKey::Filter,
        EffectCategory::Object => TextKey::Object,
        EffectCategory::Scene => TextKey::Scene,
    }
}

/// The short badge shown before an effect's name; `All` has none.
pub open spec fn badge_text_of(c: EffectCategory) -> Seq<char> {
    match c {
        EffectCategory::Filter => "FLT"@,
        EffectCategory::Object => "OBJ"@,
        EffectCategory::Scene => "SCN"@,
        EffectCategory::All => ""@,
    }
}

/// A colour: red, green, blue and alpha, premultiplied as egui keeps them.
#[derive(Clone, Copy, Debug, PartialEq, Eq, Structural)]
pub struct Rgba {
    pub r: u8,
    pub g: u8,
    pub b: u8,
    pub a: u8,
}

/// An opaque colour.
pub open spec fn opaque(r: u8, g: u8, b: u8) -> Rgba {
    Rgba { r, g, b, a: 255 }
}

/// The fully transparent colour.
pub open spec fn transparent() -> Rgba {
    Rgba { r: 0, g: 0, b: 0, a: 0 }
}

/// The colour of a category's badge text.
pub open spec fn badge_color_of(c: EffectCategory) -> Rgba {
    match c {
        EffectCategory::Filter => opaque(130, 165, 220),
        EffectCategory::Object => opaque(130, 195, 150),
        EffectCategory::Scene => opaque(230, 170, 130),
        EffectCategory::All => transparent(),
    }
}

/// The colour behind a category's badge.
pub open spec fn badge_bg_color_of(c: EffectCategory) -> Rgba {
    match c {
        EffectCategory::Filter => opaque(33, 40, 52),
        EffectCategory::Object => opaque(32, 42, 34),
        EffectCategory::Scene => opaque(45, 38, 34),
        EffectCategory::All => transparent(),
    }
}

impl EffectCategory {
    /// The tab label of the category in `language`.
    pub fn label(self, language: Language) -> (r: &'static str)
        ensures
            r@ == text_of(language, category_text_key(self)),
            self == EffectCategory::All ==> r@ == text_of(language, TextKey::All),
            self == EffectCategory::Filter ==> r@ == text_of(language, TextKey::Filter),
            self == EffectCategory::Object ==> r@ == text_of(language, TextKey::Object),
            self == EffectCategory::Scene ==> r@ == text_of(language, TextKey::Scene),
    {
        match self {
            EffectCategory::All => tr(language, TextKey::All),
            EffectCategory::Filter => tr(language, TextKey::Filter),
            EffectCategory::Object => tr(language, TextKey::Object),
            EffectCategory::Scene => tr(language, TextKey::Scene),
        }
    }

    /// The badge text of the category.
    pub fn badge_text(self) -> (r: &'static str)
        ensures
            r@ == badge_text_of(self),
    {
        match self {
            EffectCategory::Filter => "FLT",
            EffectCategory::Object => "OBJ",
            EffectCategory::Scene => "SCN",
            _ => "",
        }
    }

    /// The colour of the badge text.
    pub fn badge_color(self) -> (r: Rgba)
        ensures
            r == badge_color_of(self),
    {
        match self {
            EffectCategory::Filter => Rgba { r: 130, g: 165, b: 220, a: 255 },
            EffectCategory::Object => Rgba { r: 130, g: 195, b: 150, a: 255 },
            EffectCategory::Scene => Rgba { r: 230, g: 170, b: 130, a: 255 },
            _ => Rgba { r: 0, g: 0, b: 0, a: 0 },
        }
    }

    /// The colour behind the badge.
    pub fn badge_bg_color(self) -> (r: Rgba)
        ensures
            r == badge_bg_color_of(self),
    {
        match self {
            EffectCategory::Filter => Rgba { r: 33, g: 40, b: 52, a: 255 },
            EffectCategory::Object => Rgba { r: 32, g: 42, b: 34, a: 255 },
            EffectCategory::Scene => Rgba { r: 45, g: 38, b: 34, a: 255 },
            _ => Rgba { r: 0, g: 0, b: 0, a: 0 },
        }
    }

    /// Where the category stands among `CATEGORIES`.
    pub fn position(self) -> (r: usize)
        ensures
            r as int == category_position(self),
            r < 4,
            CATEGORIES@[r as int] == self,
    {
        let mut k: usize = 0;
        while k < 4
            invariant
                k <= 4,
                forall|j: int| 0 <= j < k ==> CATEGORIES@[j] != self,
            decreases 4 - k,
        {
            if CATEGORIES[k] == self {
                return k;
            }
            k += 1;
        }
        assert(CATEGORIES@[category_position(self)] == self);
        0
    }

    /// The tab to the right, wrapping round from the last to the first.
    pub fn next(self) -> (r: EffectCategory)
        ensures
            r == CATEGORIES@[(category_position(self) + 1) % 4],
    {
        CATEGORIES[(self.position() + 1) % 4]
    }

    /// The tab to the left, wrapping round from the first to the last.
    pub fn previous(self) -> (r: EffectCategory)
        ensures
            r == CATEGORIES@[(category_position(self) + 3) % 4],
    {
        CATEGORIES[(self.position() + 4 - 1) % 4]
    }
}

/// Moving one tab to the left undoes moving one tab to the right, and the
/// other way round; four moves in one direction come back to the start.
pub proof fn lemma_category_cycle(c: EffectCategory)
    ensures
        CATEGORIES@[(category_position(CATEGORIES@[(category_position(c) + 1) % 4]) + 3) % 4] == c,
        CATEGORIES@[(category_position(CATEGORIES@[(category_position(c) + 3) % 4]) + 1) % 4] == c,
        forall|k: int| 0 <= k < 4 ==> category_position(#[trigger] CATEGORIES@[k]) == k,
{
    assert(category_position(CATEGORIES@[0]) == 0);
    assert(category_position(CATEGORIES@[1]) == 1);
    assert(category_position(CATEGORIES@[2]) == 2);
    assert(category_position(CATEGORIES@[3]) == 3);
}

// ── Effects ──────────────────────────────────────────────────────────────────

/// An effect as the panel lists it.
#[derive(Clone, Debug)]
pub struct EffectEntry {
    /// The name the host knows the effect by.
    pub name: String,
    /// The name in lower case.
    pub name_lower: String,
    /// The lower-case name with katakana folded onto hiragana, so that a
    /// query in either script finds it.
    pub name_kana: String,
    pub category: EffectCategory,
}

impl EffectEntry {
    /// An entry for `name`, with its search forms computed once.
    pub fn new(name: String, category: EffectCategory) -> (e: EffectEntry)
        ensures
            e.name@ == name@,
            e.name_lower@ == lowercase(name@),
            e.name_kana@ == fold_katakana(lowercase(name@)),
            is_ascii_text(name@) ==> e.name_lower@ == ascii_lower(name@),
            no_ascii_upper(e.name_lower@),
            e.category == category,
    {
        let name_lower = to_lowercase(name.as_str());
        let name_kana = katakana_to_hiragana(name_lower.as_str());
        EffectEntry { name, name_lower, name_kana, category }
    }
}

// ── Matching one word ────────────────────────────────────────────────────────

/// How well a word matched a name; the smaller the rank, the better.
#[derive(Clone, Copy, Debug, PartialEq, Eq, Structural)]
pub enum MatchQuality {
    /// The name begins with the word.
    Prefix,
    /// The word occurs somewhere in the name.
    Substring,
    /// The word's characters occur in the name in order, not necessarily together.
    Subsequence,
}

pub open spec fn quality_rank(q: MatchQuality) -> int {
    match q {
        MatchQuality::Prefix => 0,
        MatchQuality::Substring => 1,
        MatchQuality::Subsequence => 2,
    }
}

pub(crate) fn rank_of(q: MatchQuality) -> (r: u8)
    ensures
        r as int == quality_rank(q),
{
    match q {
        MatchQuality::Prefix => 0,
        MatchQuality::Substring => 1,
        MatchQuality::Subsequence => 2,
    }
}

/// `t` begins with `n`.
pub open spec fn starts_with(t: Seq<char>, n: Seq<char>) -> bool {
    n.len() <= t.len() && t.take(n.len() as int) == n
}

/// `n` occurs in `t` as a block of consecutive characters.
pub open spec fn occurs_in(t: Seq<char>, n: Seq<char>) -> bool {
    exists|p: int| 0 <= p && p + n.len() <= t.len() && #[trigger] t.subrange(p, p + n.len()) == n
}

/// `idx` gives increasing positions of `h` that hold the characters of `n` in order.
pub open spec fn embeds(h: Seq<char>, n: Seq<char>, idx: Seq<int>) -> bool {
    &&& idx.len() == n.len()
    &&& forall|k: int| 0 <= k < idx.len() ==> 0 <= #[trigger] idx[k] < h.len() && h[idx[k]] == n[k]
    &&& forall|k: int, l: int| 0 <= k < l < idx.len() ==> #[trigger] idx[k] < #[trigger] idx[l]
}

/// The characters of `n` occur in `h` in order, not necessarily together.
pub open spec fn is_subsequence_of(n: Seq<char>, h: Seq<char>) -> bool {
    exists|idx: Seq<int>| #[trigger] embeds(h, n, idx)
}

/// Like `embeds`, for the characters of `n` from `j` on, at positions from `i` on.
spec fn embeds_from(h: Seq<char>, n: Seq<char>, j: int, i: int, idx: Seq<int>) -> bool {
    &&& idx.len() == n.len() - j
    &&& forall|k: int| 0 <= k < idx.len() ==> i <= #[trigger] idx[k] < h.len() && h[idx[k]] == n[j + k]
    &&& forall|k: int, l: int| 0 <= k < l < idx.len() ==> #[trigger] idx[k] < #[trigger] idx[l]
}

/// The quality with which `n` matches `t`, or `None` where it does not.
pub open spec fn quality_of(t: Seq<char>, n: Seq<char>) -> Option<MatchQuality> {
    if starts_with(t, n) {
        Some(MatchQuality::Prefix)
    } else if occurs_in(t, n) {
        Some(MatchQuality::Substring)
    } else if is_subsequence_of(n, t) {
        Some(MatchQuality::Subsequence)
    } else {
        None
    }
}

/// The better of two match results; no match counts as worst.
pub open spec fn best_of(a: Option<MatchQuality>, b: Option<MatchQuality>) -> Option<MatchQuality> {
    match (a, b) {
        (None, _) => b,
        (_, None) => a,
        (Some(x), Some(y)) => if quality_rank(x) <= quality_rank(y) {
            a
        } else {
            b
        },
    }
}

/// An empty needle is skipped.
pub open spec fn needle_quality(t: Seq<char>, n: Seq<char>) -> Option<MatchQuality> {
    if n.len() == 0 {
        None
    } else {
        quality_of(t, n)
    }
}

/// The best match of a word, written as typed (`raw`) and in hiragana
/// (`hira`), against a name in lower case and in folded kana.
pub open spec fn word_quality(
    lower: Seq<char>,
    kana: Seq<char>,
    raw: Seq<char>,
    hira: Seq<char>,
) -> Option<MatchQuality> {
    best_of(
        best_of(needle_quality(lower, raw), needle_quality(lower, hira)),
        best_of(needle_quality(kana, raw), needle_quality(kana, hira)),
    )
}

fn starts_with_chars(t: &Vec<char>, n: &Vec<char>) -> (r: bool)
    ensures
        r == starts_with(t@, n@),
{
    let r = occurs_at(t, 0, n);
    proof {
        if n.len() <= t.len() {
            assert(t@.take(n.len() as int) =~= t@.subrange(0, n.len() as int));
        }
    }
    r
}

fn occurs_in_chars(t: &Vec<char>, n: &Vec<char>) -> (r: bool)
    ensures
        r == occurs_in(t@, n@),
{
    if n.len() == 0 {
        assert(t@.subrange(0, 0 + n@.len() as int) =~= n@);
        return true;
    }
    if n.len() > t.len() {
        return false;
    }
    let mut i: usize = 0;
    while i <= t.len() - n.len()
        invariant
            0 < n.len() <= t.len(),
            i <= t.len() - n.len() + 1,
            forall|p: int| 0 <= p < i ==> #[trigger] t@.subrange(p, p + n.len()) != n@,
        decreases t.len() - n.len() + 1 - i,
    {
        if occurs_at(t, i, n) {
            return true;
        }
        i += 1;
    }
    false
}

fn subsequence_chars(h: &Vec<char>, n: &Vec<char>) -> (r: bool)
    ensures
        r == is_subsequence_of(n@, h@),
{
    let mut i: usize = 0;
    let mut j: usize = 0;
    let ghost mut found: Seq<int> = seq![];
    proof {
        if is_subsequence_of(n@, h@) {
            let idx = choose|idx: Seq<int>| #[trigger] embeds(h@, n@, idx);
            assert(embeds_from(h@, n@, 0, 0, idx));
        }
        assert(embeds(h@, n@.take(0), found));
    }
    while j < n.len() && i < h.len()
        invariant
            i <= h.len(),
            j <= n.len(),
            embeds(h@, n@.take(j as int), found),
            forall|k: int| 0 <= k < found.len() ==> #[trigger] found[k] < i,
            is_subsequence_of(n@, h@) ==> exists|t: Seq<int>| #[trigger] embeds_from(h@, n@, j as int, i as int, t),
        decreases h.len() - i,
    {
        let ghost had = is_subsequence_of(n@, h@);
        let ghost t = if had {
            choose|t: Seq<int>| #[trigger] embeds_from(h@, n@, j as int, i as int, t)
        } else {
            seq![]
        };
        if h[i] == n[j] {
            proof {
                let old_found = found;
                found = found.push(i as int);
                assert(n@.take(j + 1) =~= n@.take(j as int).push(n@[j as int]));
                assert forall|k: int| 0 <= k < found.len() implies 0 <= #[trigger] found[k] < h@.len()
                    && h@[found[k]] == n@.take(j + 1)[k] by {
                    if k < old_found.len() {
                        assert(found[k] == old_found[k]);
                    }
                }
                assert forall|k: int, l: int| 0 <= k < l < found.len() implies #[trigger] found[k]
                    < #[trigger] found[l] by {
                    if l < old_found.len() {
                        assert(found[k] == old_found[k]);
                        assert(found[l] == old_found[l]);
                    } else {
                        assert(found[k] == old_found[k]);
                    }
                }
                if had {
                    let t2 = t.drop_first();
                    assert forall|k: int| 0 <= k < t2.len() implies i + 1 <= #[trigger] t2[k] < h@.len()
                        && h@[t2[k]] == n@[j + 1 + k] by {
                        assert(t2[k] == t[k + 1]);
                        assert(t[0] < t[k + 1]);
                    }
                    assert forall|k: int, l: int| 0 <= k < l < t2.len() implies #[trigger] t2[k]
                        < #[trigger] t2[l] by {
                        assert(t2[k] == t[k + 1]);
                        assert(t2[l] == t[l + 1]);
                    }
                    assert(embeds_from(h@, n@, j + 1, i + 1, t2));
                }
            }
            j += 1;
        } else {
            proof {
                if had {
                    assert(t[0] != i);
                    assert forall|k: int| 0 <= k < t.len() implies i + 1 <= #[trigger] t[k] < h@.len()
                        && h@[t[k]] == n@[j + k] by {
                        if k > 0 {
                            assert(t[0] < t[k]);
                        }
                    }
                    assert(embeds_from(h@, n@, j as int, i + 1, t));
                }
            }
        }
        i += 1;
    }
    if j == n.len() {
        assert(n@.take(j as int) =~= n@);
        true
    } else {
        proof {
            if is_subsequence_of(n@, h@) {
                let t = choose|t: Seq<int>| #[trigger] embeds_from(h@, n@, j as int, i as int, t);
                assert(t[0] >= i);
            }
        }
        false
    }
}

fn quality_chars(t: &Vec<char>, n: &Vec<char>) -> (r: Option<MatchQuality>)
    ensures
        r == quality_of(t@, n@),
{
    if starts_with_chars(t, n) {
        Some(MatchQuality::Prefix)
    } else if occurs_in_chars(t, n) {
        Some(MatchQuality::Substring)
    } else if subsequence_chars(t, n) {
        Some(MatchQuality::Subsequence)
    } else {
        None
    }
}

fn best_of_exec(a: Option<MatchQuality>, b: Option<MatchQuality>) -> (r: Option<MatchQuality>)
    ensures
        r == best_of(a, b),
{
    match (a, b) {
        (None, _) => b,
        (_, None) => a,
        (Some(x), Some(y)) => if rank_of(x) <= rank_of(y) {
            a
        } else {
            b
        },
    }
}

fn needle_quality_chars(t: &Vec<char>, n: &Vec<char>) -> (r: Option<MatchQuality>)
    ensures
        r == needle_quality(t@, n@),
{
    if n.len() == 0 {
        None
    } else {
        quality_chars(t, n)
    }
}

pub(crate) fn match_word_chars(
    lower: &Vec<char>,
    kana: &Vec<char>,
    raw: &Vec<char>,
    hira: &Vec<char>,
) -> (r: Option<MatchQuality>)
    ensures
        r == word_quality(lower@, kana@, raw@, hira@),
{
    let a = best_of_exec(needle_quality_chars(lower, raw), needle_quality_chars(lower, hira));
    let b = best_of_exec(needle_quality_chars(kana, raw), needle_quality_chars(kana, hira));
    best_of_exec(a, b)
}

/// Whether the characters of `needle` occur in `haystack` in order (not
/// necessarily together).
pub fn is_subsequence(haystack: &str, needle: &str) -> (r: bool)
    ensures
        r == is_subsequence_of(needle@, haystack@),
{
    subsequence_chars(&chars_of(haystack), &chars_of(needle))
}

/// How well one query word matches an effect: the best of its typed form and
/// its hiragana form against the effect's lower-case and folded-kana names;
/// empty forms are skipped.
pub fn match_word(entry: &EffectEntry, raw: &str, hira: &str) -> (r: Option<MatchQuality>)
    ensures
        r == word_quality(entry.name_lower@, entry.name_kana@, raw@, hira@),
        0 < raw@.len() <= entry.name_lower@.len() && entry.name_lower@.take(raw@.len() as int)
            == raw@ ==> r == Some(MatchQuality::Prefix),
        0 < hira@.len() <= entry.name_kana@.len() && entry.name_kana@.take(hira@.len() as int)
            == hira@ ==> r == Some(MatchQuality::Prefix),
{
    proof {
        lemma_every_form_counts(entry.name_lower@, entry.name_kana@, raw@, hira@);
    }
    match_word_chars(
        &chars_of(entry.name_lower.as_str()),
        &chars_of(entry.name_kana.as_str()),
        &chars_of(raw),
        &chars_of(hira),
    )
}


/// A name that begins with a word contains it, and a name that contains a
/// word holds its characters in order: the three qualities are ever looser.
pub proof fn lemma_quality_levels(t: Seq<char>, n: Seq<char>)
    ensures
        starts_with(t, n) ==> occurs_in(t, n),
        occurs_in(t, n) ==> is_subsequence_of(n, t),
        quality_of(t, n) is None <==> !is_subsequence_of(n, t),
{
    if starts_with(t, n) {
        assert(t.subrange(0, 0 + n.len() as int) =~= t.take(n.len() as int));
    }
    if occurs_in(t, n) {
        let p = choose|p: int| 0 <= p && p + n.len() <= t.len() && #[trigger] t.subrange(p, p + n.len()) == n;
        let idx = Seq::new(n.len(), |k: int| p + k);
        assert forall|k: int| 0 <= k < idx.len() implies 0 <= #[trigger] idx[k] < t.len() && t[idx[k]] == n[k] by {
            assert(t.subrange(p, p + n.len())[k] == t[p + k]);
        }
        assert(embeds(t, n, idx));
    }
}

/// Every text holds its own characters in order.
pub proof fn lemma_subsequence_reflexive(n: Seq<char>)
    ensures
        is_subsequence_of(n, n),
{
    let idx = Seq::new(n.len(), |k: int| k);
    assert(embeds(n, n, idx));
}


/// `r` is at least as good as `q`: where `q` is a match, so is `r`, of the
/// same or a better quality.
pub open spec fn no_worse(r: Option<MatchQuality>, q: Option<MatchQuality>) -> bool {
    q matches Some(x) ==> (r matches Some(y) && quality_rank(y) <= quality_rank(x))
}

/// Every form of the word is tried against every form of the name: a word
/// typed as is and its hiragana form, against the lower-case name and the
/// kana-folded name. Whichever non-empty form the name begins with, the word
/// matches as a prefix; and the word matches no worse than any one form does
/// against any one name form.
pub proof fn lemma_every_form_counts(lower: Seq<char>, kana: Seq<char>, raw: Seq<char>, hira: Seq<char>)
    ensures
        0 < raw.len() <= lower.len() && lower.take(raw.len() as int) == raw ==> word_quality(
            lower,
            kana,
            raw,
            hira,
        ) == Some(MatchQuality::Prefix),
        0 < hira.len() <= lower.len() && lower.take(hira.len() as int) == hira ==> word_quality(
            lower,
            kana,
            raw,
            hira,
        ) == Some(MatchQuality::Prefix),
        0 < raw.len() <= kana.len() && kana.take(raw.len() as int) == raw ==> word_quality(
            lower,
            kana,
            raw,
            hira,
        ) == Some(MatchQuality::Prefix),
        0 < hira.len() <= kana.len() && kana.take(hira.len() as int) == hira ==> word_quality(
            lower,
            kana,
            raw,
            hira,
        ) == Some(MatchQuality::Prefix),
        raw.len() > 0 ==> no_worse(word_quality(lower, kana, raw, hira), quality_of(lower, raw)),
        hira.len() > 0 ==> no_worse(word_quality(lower, kana, raw, hira), quality_of(lower, hira)),
        raw.len() > 0 ==> no_worse(word_quality(lower, kana, raw, hira), quality_of(kana, raw)),
        hira.len() > 0 ==> no_worse(word_quality(lower, kana, raw, hira), quality_of(kana, hira)),
{
}

/// Each tab is labelled with the text of the key of its own name, in every
/// language.
pub proof fn lemma_tab_labels(language: Language)
    ensures
        text_of(language, category_text_key(EffectCategory::All)) == text_of(language, TextKey::All),
        text_of(language, category_text_key(EffectCategory::Filter)) == text_of(language, TextKey::Filter),
        text_of(language, category_text_key(EffectCategory::Object)) == text_of(language, TextKey::Object),
        text_of(language, category_text_key(EffectCategory::Scene)) == text_of(language, TextKey::Scene),
{
}

} // verus!
