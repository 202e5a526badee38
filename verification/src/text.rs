use vstd::prelude::*;

verus! {

// ── Characters of strings ────────────────────────────────────────────────────

/// The characters of `s`, in order.
pub fn chars_of(s: &str) -> (v: Vec<char>)
    ensures
        v@ == s@,
{
    let mut v: Vec<char> = Vec::new();
    for c in it: s.chars()
        invariant
            v@ == it.seq().take(it.index() as int),
            it.seq() == s@,
    {
        v.push(c);
    }
    v
}

/// `String::push`. Claimed, as its documentation says: it appends the
/// character to the end of the string.
pub assume_specification[ String::push ](string: &mut String, ch: char)
    ensures
        final(string)@ == old(string)@.push(ch),
;

/// A `String` holding the given characters, in order.
pub fn string_of(v: &Vec<char>) -> (s: String)
    ensures
        s@ == v@,
{
    let mut s = String::new();
    let mut k: usize = 0;
    while k < v.len()
        invariant
            k <= v.len(),
            s@ == v@.take(k as int),
        decreases v.len() - k,
    {
        s.push(v[k]);
        k += 1;
        assert(s@ =~= v@.take(k as int));
    }
    assert(v@.take(k as int) =~= v@);
    s
}

/// Appends every character of `t` to `out`.
fn push_all(out: &mut Vec<char>, t: &Vec<char>)
    ensures
        final(out)@ == old(out)@ + t@,
{
    let mut k: usize = 0;
    while k < t.len()
        invariant
            k <= t.len(),
            out@ == old(out)@ + t@.take(k as int),
        decreases t.len() - k,
    {
        out.push(t[k]);
        k += 1;
        assert(t@.take(k as int) =~= t@.take((k - 1) as int).push(t@[k - 1]));
    }
    assert(t@.take(k as int) =~= t@);
}

// ── Case folding ─────────────────────────────────────────────────────────────

/// What `str::to_lowercase` gives for a string: the Unicode lower-case mapping,
/// which depends on the string alone.
pub uninterp spec fn lowercase(s: Seq<char>) -> Seq<char>;

/// Every character is ASCII.
pub open spec fn is_ascii_text(s: Seq<char>) -> bool {
    forall|i: int| 0 <= i < s.len() ==> (#[trigger] s[i] as u32) < 0x80
}

/// `A` to `Z` become `a` to `z`; every other character stays.
pub open spec fn ascii_lower_char(c: char) -> char {
    if 0x41 <= (c as u32) && (c as u32) <= 0x5A {
        ((c as u32) + 0x20) as char
    } else {
        c
    }
}

/// The ASCII letters of `s` in lower case.
pub open spec fn ascii_lower(s: Seq<char>) -> Seq<char> {
    s.map_values(|c: char| ascii_lower_char(c))
}

/// No character is an ASCII capital `A` to `Z`.
pub open spec fn no_ascii_upper(s: Seq<char>) -> bool {
    forall|i: int| 0 <= i < s.len() ==> !(0x41 <= (#[trigger] s[i] as u32) && (s[i] as u32) <= 0x5A)
}

/// Calls `str::to_lowercase`, which maps each character to its Unicode lower
/// case, with the one exception that a capital sigma at the end of a word
/// becomes the final sigma. The Unicode case tables are not restated: the
/// contract says that the result is `lowercase` of the input and claims these
/// facts of it:
/// - for text that is all ASCII (where Unicode lower case is the ASCII one and
///   no character expands), `A` to `Z` became `a` to `z` and the rest stayed;
/// - no `A` to `Z` is left (no character lower-cases to one);
/// - white space has no case, so text of white space alone stays as it is;
/// - a space ends a word, so text split at a space is lower-cased part by part.
/// What happens to other characters is left unsaid.
#[verifier::external_body]
pub(crate) fn to_lowercase(s: &str) -> (r: String)
    ensures
        r@ == lowercase(s@),
        is_ascii_text(s@) ==> r@ == ascii_lower(s@),
        no_ascii_upper(r@),
        (forall|i: int| 0 <= i < s@.len() ==> is_white_space(#[trigger] s@[i])) ==> r@ == s@,
        forall|a: Seq<char>, b: Seq<char>|
            #![trigger lowercase(a), lowercase(b)]
            s@ == a + seq![' '] + b ==> r@ == lowercase(a) + seq![' '] + lowercase(b),
{
    s.to_lowercase()
}

/// A code point that may stand in a `char` (not a surrogate, at most U+10FFFF).
pub open spec fn is_scalar_value(code: u32) -> bool {
    code <= 0xD7FF || (0xE000 <= code && code <= 0x10FFFF)
}

/// Calls `char::from_u32`. Claimed, as its documentation says: it returns the
/// character with that code point when there is one, and `None` otherwise.
#[verifier::external_body]
fn char_from_u32(code: u32) -> (r: Option<char>)
    ensures
        is_scalar_value(code) ==> r == Some(code as char),
        !is_scalar_value(code) ==> r is None,
{
    char::from_u32(code)
}

/// Katakana ァ (U+30A1) through ヶ (U+30F6) fold onto hiragana ぁ through ゖ;
/// every other character stays as it is.
pub open spec fn fold_kana_char(c: char) -> char {
    if 0x30A1 <= (c as u32) && (c as u32) <= 0x30F6 {
        ((c as u32) - 0x60) as char
    } else {
        c
    }
}

pub open spec fn fold_katakana(s: Seq<char>) -> Seq<char> {
    s.map_values(|c: char| fold_kana_char(c))
}

fn kana_fold_one(c: char) -> (r: char)
    ensures
        r == fold_kana_char(c),
{
    let code = c as u32;
    if 0x30A1 <= code && code <= 0x30F6 {
        match char_from_u32(code - 0x60) {
            Some(h) => h,
            None => c,
        }
    } else {
        c
    }
}

/// Katakana folded onto hiragana, character by character.
pub fn fold_katakana_chars(s: &Vec<char>) -> (r: Vec<char>)
    ensures
        r@ == fold_katakana(s@),
{
    let mut r: Vec<char> = Vec::new();
    let mut i: usize = 0;
    while i < s.len()
        invariant
            i <= s.len(),
            r@ == fold_katakana(s@.take(i as int)),
        decreases s.len() - i,
    {
        let h = kana_fold_one(s[i]);
        r.push(h);
        i += 1;
        assert(fold_katakana(s@.take(i as int)) =~= fold_katakana(s@.take((i - 1) as int)).push(h));
    }
    assert(s@.take(i as int) =~= s@);
    r
}

/// Folds katakana onto hiragana, so that a search in either script finds
/// names written in the other.
pub fn katakana_to_hiragana(input: &str) -> (r: String)
    ensures
        r@ == fold_katakana(input@),
        r@.len() == input@.len(),
        forall|i: int|
            0 <= i < input@.len() ==> if 0x30A1 <= (input@[i] as u32) && (input@[i] as u32) <= 0x30F6 {
                (#[trigger] r@[i]) as u32 == (input@[i] as u32) - 0x60
            } else {
                r@[i] == input@[i]
            },
{
    proof {
        lemma_kana_fold_codes(input@);
    }
    let v = chars_of(input);
    let folded = fold_katakana_chars(&v);
    string_of(&folded)
}

// ── White space and words ────────────────────────────────────────────────────

/// The Unicode White_Space property (PropList.txt), which `char::is_whitespace` tests.
pub open spec fn is_white_space(c: char) -> bool {
    let u = c as u32;
    ||| (0x09 <= u && u <= 0x0D)
    ||| u == 0x20
    ||| u == 0x85
    ||| u == 0xA0
    ||| u == 0x1680
    ||| (0x2000 <= u && u <= 0x200A)
    ||| u == 0x2028
    ||| u == 0x2029
    ||| u == 0x202F
    ||| u == 0x205F
    ||| u == 0x3000
}

/// Whether `c` is white space (the test of `char::is_whitespace`).
fn is_whitespace(c: char) -> (r: bool)
    ensures
        r == is_white_space(c),
{
    let u = c as u32;
    (0x09 <= u && u <= 0x0D) || u == 0x20 || u == 0x85 || u == 0xA0 || u == 0x1680 || (0x2000
        <= u && u <= 0x200A) || u == 0x2028 || u == 0x2029 || u == 0x202F || u == 0x205F || u
        == 0x3000
}

/// The words of `cur + rest`, where `cur` is a word already begun: the maximal
/// runs of characters that are not white space, in order.
pub open spec fn words_from(cur: Seq<char>, rest: Seq<char>) -> Seq<Seq<char>>
    decreases rest.len(),
{
    if rest.len() == 0 {
        if cur.len() == 0 { seq![] } else { seq![cur] }
    } else if is_white_space(rest[0]) {
        (if cur.len() == 0 { seq![] } else { seq![cur] }) + words_from(seq![], rest.drop_first())
    } else {
        words_from(cur.push(rest[0]), rest.drop_first())
    }
}

/// The words of `s` as `str::split_whitespace` yields them.
pub open spec fn words(s: Seq<char>) -> Seq<Seq<char>> {
    words_from(seq![], s)
}

pub open spec fn views(v: Seq<Vec<char>>) -> Seq<Seq<char>> {
    v.map_values(|w: Vec<char>| w@)
}

/// Splits `s` at white space, dropping empty pieces.
pub fn split_words(s: &Vec<char>) -> (r: Vec<Vec<char>>)
    ensures
        views(r@) == words(s@),
{
    let mut out: Vec<Vec<char>> = Vec::new();
    let mut cur: Vec<char> = Vec::new();
    let mut i: usize = 0;
    assert(s@.skip(0) =~= s@);
    assert(views(out@) + words_from(cur@, s@) =~= words_from(seq![], s@));
    while i < s.len()
        invariant
            i <= s.len(),
            views(out@) + words_from(cur@, s@.skip(i as int)) == words(s@),
        decreases s.len() - i,
    {
        let c = s[i];
        let ghost rest = s@.skip(i as int);
        assert(rest[0] == c);
        assert(rest.drop_first() =~= s@.skip(i + 1));
        if is_whitespace(c) {
            if cur.len() > 0 {
                let ghost old_out = views(out@);
                let w = cur;
                out.push(w);
                assert(views(out@) =~= old_out.push(w@));
                cur = Vec::new();
                assert(old_out.push(w@) + words_from(cur@, s@.skip(i + 1)) =~= old_out + (seq![w@]
                    + words_from(seq![], s@.skip(i + 1))));
            } else {
                assert(cur@ =~= Seq::<char>::empty());
                assert(views(out@) + words_from(seq![], s@.skip(i + 1)) =~= views(out@) + (
                Seq::<Seq<char>>::empty() + words_from(seq![], s@.skip(i + 1))));
            }
        } else {
            cur.push(c);
        }
        i += 1;
    }
    assert(s@.skip(i as int) =~= Seq::<char>::empty());
    if cur.len() > 0 {
        let ghost old_out = views(out@);
        out.push(cur);
        assert(views(out@) =~= old_out.push(cur@));
    } else {
        assert(views(out@) + words_from(cur@, s@.skip(i as int)) =~= views(out@));
    }
    out
}

/// No character of `w` is white space.
pub open spec fn free_of_white_space(w: Seq<char>) -> bool {
    forall|j: int| 0 <= j < w.len() ==> !is_white_space(#[trigger] w[j])
}

/// A word: non-empty and free of white space.
pub open spec fn is_word(w: Seq<char>) -> bool {
    w.len() > 0 && free_of_white_space(w)
}

/// A word found by `words_from`, from a begun word free of white space, is
/// non-empty and free of white space.
proof fn lemma_words_from_clean(cur: Seq<char>, rest: Seq<char>)
    requires
        free_of_white_space(cur),
    ensures
        forall|k: int| 0 <= k < words_from(cur, rest).len() ==> is_word(#[trigger] words_from(cur, rest)[k]),
    decreases rest.len(),
{
    let ws = words_from(cur, rest);
    if rest.len() == 0 {
        if cur.len() > 0 {
            assert(ws == seq![cur]);
            assert forall|k: int| 0 <= k < ws.len() implies is_word(#[trigger] ws[k]) by {
                assert(ws[k] == cur);
            }
        }
    } else if is_white_space(rest[0]) {
        lemma_words_from_clean(seq![], rest.drop_first());
        let pre: Seq<Seq<char>> = if cur.len() == 0 { seq![] } else { seq![cur] };
        let tail = words_from(seq![], rest.drop_first());
        assert(ws == pre + tail);
        assert forall|k: int| 0 <= k < ws.len() implies is_word(#[trigger] ws[k]) by {
            if k < pre.len() {
                assert(ws[k] == cur);
            } else {
                assert(ws[k] == tail[k - pre.len()]);
            }
        }
        assert(forall|k: int| 0 <= k < ws.len() ==> is_word(#[trigger] ws[k]));
    } else {
        let next = cur.push(rest[0]);
        assert forall|j: int| 0 <= j < next.len() implies !is_white_space(#[trigger] next[j]) by {
            if j < cur.len() {
                assert(next[j] == cur[j]);
            }
        }
        lemma_words_from_clean(next, rest.drop_first());
        assert(ws == words_from(next, rest.drop_first()));
        assert(forall|k: int| 0 <= k < ws.len() ==> is_word(#[trigger] ws[k]));
    }
}

/// Every word of a string is non-empty and holds no white space.
pub proof fn lemma_words_clean(s: Seq<char>)
    ensures
        forall|k: int| 0 <= k < words(s).len() ==> is_word(#[trigger] words(s)[k]),
{
    lemma_words_from_clean(seq![], s);
}

// ── Replacing ────────────────────────────────────────────────────────────────

/// `s` with every occurrence of `from` replaced by `to`, scanning from the left
/// and never letting two replaced occurrences overlap, as `str::replace` does.
/// An empty `from` leaves `s` as it is.
pub open spec fn replace_all(s: Seq<char>, from: Seq<char>, to: Seq<char>) -> Seq<char>
    decreases s.len(),
{
    if s.len() == 0 {
        s
    } else if 0 < from.len() && from.len() <= s.len() && s.take(from.len() as int) == from {
        to + replace_all(s.skip(from.len() as int), from, to)
    } else {
        seq![s[0]] + replace_all(s.drop_first(), from, to)
    }
}

/// Whether `from` occurs in `s` at position `i`.
pub(crate) fn occurs_at(s: &Vec<char>, i: usize, from: &Vec<char>) -> (r: bool)
    requires
        i <= s.len(),
    ensures
        r == (from.len() <= s.len() - i && s@.subrange(i as int, i + from.len()) == from@),
{
    if from.len() > s.len() - i {
        return false;
    }
    let mut k: usize = 0;
    while k < from.len()
        invariant
            k <= from.len(),
            from.len() <= s.len() - i,
            forall|j: int| 0 <= j < k ==> s@[i + j] == from@[j],
        decreases from.len() - k,
    {
        if s[i + k] != from[k] {
            assert(s@.subrange(i as int, i + from.len())[k as int] != from@[k as int]);
            return false;
        }
        k += 1;
    }
    assert(s@.subrange(i as int, i + from.len()) =~= from@);
    true
}

/// Replaces every occurrence of `from` in `s` by `to` (see `replace_all`).
pub fn replace_chars(s: &Vec<char>, from: &Vec<char>, to: &Vec<char>) -> (r: Vec<char>)
    ensures
        r@ == replace_all(s@, from@, to@),
{
    let mut out: Vec<char> = Vec::new();
    let mut i: usize = 0;
    assert(s@.skip(0) =~= s@);
    assert(out@ + replace_all(s@, from@, to@) =~= replace_all(s@, from@, to@));
    while i < s.len()
        invariant
            i <= s.len(),
            out@ + replace_all(s@.skip(i as int), from@, to@) == replace_all(s@, from@, to@),
        decreases s.len() - i,
    {
        let ghost rest = s@.skip(i as int);
        if from.len() > 0 && occurs_at(s, i, from) {
            assert(rest.take(from.len() as int) =~= s@.subrange(i as int, i + from.len()));
            assert(rest.skip(from.len() as int) =~= s@.skip(i + from.len()));
            let ghost before = out@;
            push_all(&mut out, to);
            assert(before + replace_all(rest, from@, to@) =~= out@ + replace_all(
                s@.skip(i + from.len()),
                from@,
                to@,
            ));
            i += from.len();
        } else {
            if 0 < from.len() && from.len() <= s.len() - i {
                assert(rest.take(from.len() as int) =~= s@.subrange(i as int, i + from.len()));
            }
            assert(rest.drop_first() =~= s@.skip(i + 1));
            let ghost before = out@;
            out.push(s[i]);
            assert(before + replace_all(rest, from@, to@) =~= out@ + replace_all(
                s@.skip(i + 1),
                from@,
                to@,
            ));
            i += 1;
        }
    }
    assert(s@.skip(i as int) =~= Seq::<char>::empty());
    assert(out@ + Seq::<char>::empty() =~= out@);
    out
}

// ── Romaji to hiragana ───────────────────────────────────────────────────────

/// Three- and four-letter spellings, replaced first.
pub const ROMAJI_TRIPLES: [(&'static str, &'static str); 11] = [
    ("ktsu", "っつ"),
    ("shya", "しゃ"),
    ("shyu", "しゅ"),
    ("shyo", "しょ"),
    ("chya", "ちゃ"),
    ("chyu", "ちゅ"),
    ("chyo", "ちょ"),
    ("jya", "じゃ"),
    ("jyu", "じゅ"),
    ("jyo", "じょ"),
    ("tsum", "つむ"),
];

/// Two- and three-letter syllables, replaced second.
pub const ROMAJI_DOUBLES: [(&'static str, &'static str); 85] = [
    ("sha", "しゃ"),
    ("shu", "しゅ"),
    ("sho", "しょ"),
    ("cha", "ちゃ"),
    ("chu", "ちゅ"),
    ("cho", "ちょ"),
    ("chi", "ち"),
    ("tsu", "つ"),
    ("shi", "し"),
    ("ka", "か"),
    ("ki", "き"),
    ("ku", "く"),
    ("ke", "け"),
    ("ko", "こ"),
    ("sa", "さ"),
    ("si", "し"),
    ("su", "す"),
    ("se", "せ"),
    ("so", "そ"),
    ("ta", "た"),
    ("ti", "ち"),
    ("tu", "つ"),
    ("te", "て"),
    ("to", "と"),
    ("na", "な"),
    ("ni", "に"),
    ("nu", "ぬ"),
    ("ne", "ね"),
    ("no", "の"),
    ("ha", "は"),
    ("hi", "ひ"),
    ("hu", "ふ"),
    ("he", "へ"),
    ("ho", "ほ"),
    ("ma", "ま"),
    ("mi", "み"),
    ("mu", "む"),
    ("me", "め"),
    ("mo", "も"),
    ("ya", "や"),
    ("yu", "ゆ"),
    ("yo", "よ"),
    ("ra", "ら"),
    ("ri", "り"),
    ("ru", "る"),
    ("re", "れ"),
    ("ro", "ろ"),
    ("wa", "わ"),
    ("wo", "を"),
    ("nn", "ん"),
    ("ga", "が"),
    ("gi", "ぎ"),
    ("gu", "ぐ"),
    ("ge", "げ"),
    ("go", "ご"),
    ("za", "ざ"),
    ("zi", "じ"),
    ("zu", "ず"),
    ("ze", "ぜ"),
    ("zo", "ぞ"),
    ("da", "だ"),
    ("di", "ぢ"),
    ("du", "づ"),
    ("de", "で"),
    ("do", "ど"),
    ("ba", "ば"),
    ("bi", "び"),
    ("bu", "ぶ"),
    ("be", "べ"),
    ("bo", "ぼ"),
    ("pa", "ぱ"),
    ("pi", "ぴ"),
    ("pu", "ぷ"),
    ("pe", "ぺ"),
    ("po", "ぽ"),
    ("ja", "じゃ"),
    ("ju", "じゅ"),
    ("jo", "じょ"),
    ("fa", "ふぁ"),
    ("fi", "ふぃ"),
    ("fe", "ふぇ"),
    ("fo", "ふぉ"),
    ("wy", "ゐ"),
    ("ve", "ゔぇ"),
    ("vu", "ゔ"),
];

/// Lone vowels and `n`, replaced last.
pub const ROMAJI_SINGLES: [(&'static str, &'static str); 6] = [
    ("a", "あ"),
    ("i", "い"),
    ("u", "う"),
    ("e", "え"),
    ("o", "お"),
    ("n", "ん"),
];

/// A table of (romaji, kana) pairs as character sequences.
pub open spec fn rule_views(table: Seq<(&'static str, &'static str)>) -> Seq<(Seq<char>, Seq<char>)> {
    table.map_values(|p: (&'static str, &'static str)| (p.0@, p.1@))
}

/// Applies each replacement of `rules` in turn, the first one first.
pub open spec fn apply_rules(s: Seq<char>, rules: Seq<(Seq<char>, Seq<char>)>) -> Seq<char>
    decreases rules.len(),
{
    if rules.len() == 0 {
        s
    } else {
        apply_rules(replace_all(s, rules[0].0, rules[0].1), rules.drop_first())
    }
}

/// The romaji conversion of an already lower-cased string: the triples, then
/// the doubles, then the singles.
pub open spec fn romaji_fold(s: Seq<char>) -> Seq<char> {
    apply_rules(
        apply_rules(apply_rules(s, rule_views(ROMAJI_TRIPLES@)), rule_views(ROMAJI_DOUBLES@)),
        rule_views(ROMAJI_SINGLES@),
    )
}

fn apply_table(s: Vec<char>, table: &[(&'static str, &'static str)]) -> (r: Vec<char>)
    ensures
        r@ == apply_rules(s@, rule_views(table@)),
{
    let ghost s0 = s@;
    let ghost rules = rule_views(table@);
    let mut cur = s;
    let mut k: usize = 0;
    assert(rules.skip(0) =~= rules);
    while k < table.len()
        invariant
            k <= table.len(),
            rules == rule_views(table@),
            apply_rules(cur@, rules.skip(k as int)) == apply_rules(s0, rules),
        decreases table.len() - k,
    {
        let from = chars_of(table[k].0);
        let to = chars_of(table[k].1);
        assert(rules.skip(k as int).drop_first() =~= rules.skip(k + 1));
        cur = replace_chars(&cur, &from, &to);
        k += 1;
    }
    assert(rules.skip(k as int) =~= Seq::<(Seq<char>, Seq<char>)>::empty());
    cur
}

/// The romaji conversion of an already lower-cased character sequence.
pub fn romaji_fold_chars(s: Vec<char>) -> (r: Vec<char>)
    ensures
        r@ == romaji_fold(s@),
{
    let a = apply_table(s, &ROMAJI_TRIPLES);
    let b = apply_table(a, &ROMAJI_DOUBLES);
    apply_table(b, &ROMAJI_SINGLES)
}

/// The romaji conversion of an already lower-cased string.
pub fn romaji_to_hiragana_lowered(lowered: &str) -> (r: String)
    ensures
        r@ == romaji_fold(lowered@),
{
    let v = romaji_fold_chars(chars_of(lowered));
    string_of(&v)
}

/// Converts romaji in `input` to hiragana: the input is lower-cased, then
/// the spellings of the three tables are replaced in turn. No ASCII capital,
/// lone vowel letter or `n` is left.
pub fn romaji_to_hiragana(input: &str) -> (r: String)
    ensures
        r@ == romaji_fold(lowercase(input@)),
        is_ascii_text(input@) ==> r@ == romaji_fold(ascii_lower(input@)),
        no_ascii_upper(r@),
        !r@.contains('a') && !r@.contains('i') && !r@.contains('u'),
        !r@.contains('e') && !r@.contains('o') && !r@.contains('n'),
{
    let lowered = to_lowercase(input);
    proof {
        lemma_romaji_keeps_no_upper(lowered@);
        lemma_romaji_leaves_no_vowel(lowered@);
    }
    romaji_to_hiragana_lowered(lowered.as_str())
}

// ── Laws of the conversions ──────────────────────────────────────────────────

/// Folding katakana keeps the length, leaves no katakana from ァ to ヶ
/// behind, and folding twice is folding once.
pub proof fn lemma_fold_katakana(s: Seq<char>)
    ensures
        fold_katakana(s).len() == s.len(),
        forall|k: int|
            0 <= k < s.len() ==> !(0x30A1 <= (#[trigger] fold_katakana(s)[k] as u32) && (
            fold_katakana(s)[k] as u32) <= 0x30F6),
        fold_katakana(fold_katakana(s)) == fold_katakana(s),
{
    assert forall|k: int| 0 <= k < s.len() implies !(0x30A1 <= (#[trigger] fold_katakana(s)[k] as u32)
        && (fold_katakana(s)[k] as u32) <= 0x30F6) by {
        let c = s[k];
        if 0x30A1 <= (c as u32) && (c as u32) <= 0x30F6 {
            let n: u32 = ((c as u32) - 0x60) as u32;
            assert((n as char) as u32 == n);
        }
    }
    assert(fold_katakana(fold_katakana(s)) =~= fold_katakana(s));
}


/// Replacing never brings in a character that neither the text nor the
/// replacement holds.
proof fn lemma_replace_keeps_absent(s: Seq<char>, from: Seq<char>, to: Seq<char>, c: char)
    requires
        !s.contains(c),
        !to.contains(c),
    ensures
        !replace_all(s, from, to).contains(c),
    decreases s.len(),
{
    if s.len() > 0 {
        if 0 < from.len() && from.len() <= s.len() && s.take(from.len() as int) == from {
            let rest = s.skip(from.len() as int);
            assert forall|k: int| 0 <= k < rest.len() implies rest[k] != c by {
                assert(rest[k] == s[k + from.len()]);
            }
            lemma_replace_keeps_absent(rest, from, to, c);
            let r = replace_all(rest, from, to);
            assert forall|k: int| 0 <= k < (to + r).len() implies (to + r)[k] != c by {
                if k >= to.len() {
                    assert((to + r)[k] == r[k - to.len()]);
                }
            }
        } else {
            let rest = s.drop_first();
            assert forall|k: int| 0 <= k < rest.len() implies rest[k] != c by {
                assert(rest[k] == s[k + 1]);
            }
            lemma_replace_keeps_absent(rest, from, to, c);
            let r = replace_all(rest, from, to);
            assert(s[0] != c);
            assert forall|k: int| 0 <= k < (seq![s[0]] + r).len() implies (seq![s[0]] + r)[k] != c by {
                if k >= 1 {
                    assert((seq![s[0]] + r)[k] == r[k - 1]);
                }
            }
        }
    }
}

/// Replacing a single character by text without it removes that character.
proof fn lemma_replace_removes(s: Seq<char>, c: char, to: Seq<char>)
    requires
        !to.contains(c),
    ensures
        !replace_all(s, seq![c], to).contains(c),
    decreases s.len(),
{
    let from = seq![c];
    if s.len() > 0 {
        if s.take(1) == from {
            let rest = s.skip(1);
            lemma_replace_removes(rest, c, to);
            let r = replace_all(rest, from, to);
            assert forall|k: int| 0 <= k < (to + r).len() implies (to + r)[k] != c by {
                if k >= to.len() {
                    assert((to + r)[k] == r[k - to.len()]);
                }
            }
        } else {
            assert(s[0] != c) by {
                if s[0] == c {
                    assert(s.take(1) =~= from);
                }
            }
            let rest = s.drop_first();
            lemma_replace_removes(rest, c, to);
            let r = replace_all(rest, from, to);
            assert forall|k: int| 0 <= k < (seq![s[0]] + r).len() implies (seq![s[0]] + r)[k] != c by {
                if k >= 1 {
                    assert((seq![s[0]] + r)[k] == r[k - 1]);
                }
            }
        }
    }
}

/// Applying replacements whose replacement texts lack `c` brings no `c` in.
proof fn lemma_rules_keep_absent(s: Seq<char>, rules: Seq<(Seq<char>, Seq<char>)>, c: char)
    requires
        !s.contains(c),
        forall|j: int| 0 <= j < rules.len() ==> !(#[trigger] rules[j]).1.contains(c),
    ensures
        !apply_rules(s, rules).contains(c),
    decreases rules.len(),
{
    if rules.len() > 0 {
        lemma_replace_keeps_absent(s, rules[0].0, rules[0].1, c);
        assert forall|j: int| 0 <= j < rules.drop_first().len() implies !(
        #[trigger] rules.drop_first()[j]).1.contains(c) by {
            assert(rules.drop_first()[j] == rules[j + 1]);
        }
        lemma_rules_keep_absent(replace_all(s, rules[0].0, rules[0].1), rules.drop_first(), c);
    }
}

/// A rule that replaces `c` alone, followed only by replacement texts
/// without `c`, leaves no `c` behind.
proof fn lemma_rules_remove(s: Seq<char>, rules: Seq<(Seq<char>, Seq<char>)>, c: char, k: int)
    requires
        0 <= k < rules.len(),
        rules[k].0 == seq![c],
        forall|j: int| k <= j < rules.len() ==> !(#[trigger] rules[j]).1.contains(c),
    ensures
        !apply_rules(s, rules).contains(c),
    decreases rules.len(),
{
    assert forall|j: int| 0 <= j < rules.drop_first().len() && k <= j + 1 implies !(
    #[trigger] rules.drop_first()[j]).1.contains(c) by {
        assert(rules.drop_first()[j] == rules[j + 1]);
    }
    if k == 0 {
        lemma_replace_removes(s, c, rules[0].1);
        lemma_rules_keep_absent(replace_all(s, rules[0].0, rules[0].1), rules.drop_first(), c);
    } else {
        assert(rules.drop_first()[k - 1] == rules[k]);
        lemma_rules_remove(replace_all(s, rules[0].0, rules[0].1), rules.drop_first(), c, k - 1);
    }
}

/// After the romaji conversion no lone vowel letter and no `n` is left: each
/// has become kana.
pub proof fn lemma_romaji_leaves_no_vowel(s: Seq<char>)
    ensures
        !romaji_fold(s).contains('a'),
        !romaji_fold(s).contains('i'),
        !romaji_fold(s).contains('u'),
        !romaji_fold(s).contains('e'),
        !romaji_fold(s).contains('o'),
        !romaji_fold(s).contains('n'),
{
    reveal_strlit("a");
    reveal_strlit("i");
    reveal_strlit("u");
    reveal_strlit("e");
    reveal_strlit("o");
    reveal_strlit("n");
    reveal_strlit("あ");
    reveal_strlit("い");
    reveal_strlit("う");
    reveal_strlit("え");
    reveal_strlit("お");
    reveal_strlit("ん");
    let rules = rule_views(ROMAJI_SINGLES@);
    let before = apply_rules(apply_rules(s, rule_views(ROMAJI_TRIPLES@)), rule_views(ROMAJI_DOUBLES@));
    assert(rules[0] == ("a"@, "あ"@));
    assert(rules[1] == ("i"@, "い"@));
    assert(rules[2] == ("u"@, "う"@));
    assert(rules[3] == ("e"@, "え"@));
    assert(rules[4] == ("o"@, "お"@));
    assert(rules[5] == ("n"@, "ん"@));
    assert(rules.len() == 6);
    assert("a"@ =~= seq!['a']);
    assert("i"@ =~= seq!['i']);
    assert("u"@ =~= seq!['u']);
    assert("e"@ =~= seq!['e']);
    assert("o"@ =~= seq!['o']);
    assert("n"@ =~= seq!['n']);
    assert(forall|j: int| 0 <= j < 6 ==> (#[trigger] rules[j]).1.len() == 1);
    assert(forall|j: int| 0 <= j < 6 ==> (#[trigger] rules[j]).1[0] as u32 >= 0x3042);
    lemma_rules_remove(before, rules, 'a', 0);
    lemma_rules_remove(before, rules, 'i', 1);
    lemma_rules_remove(before, rules, 'u', 2);
    lemma_rules_remove(before, rules, 'e', 3);
    lemma_rules_remove(before, rules, 'o', 4);
    lemma_rules_remove(before, rules, 'n', 5);
}


/// Lower-casing ASCII text twice is lower-casing it once, so the romaji
/// conversion of ASCII text does not depend on the case it was typed in.
pub proof fn lemma_romaji_ignores_ascii_case(s: Seq<char>, t: Seq<char>)
    requires
        ascii_lower(s) == ascii_lower(t),
    ensures
        ascii_lower(ascii_lower(s)) == ascii_lower(s),
        romaji_fold(ascii_lower(s)) == romaji_fold(ascii_lower(t)),
{
    assert forall|i: int| 0 <= i < s.len() implies #[trigger] ascii_lower(ascii_lower(s))[i]
        == ascii_lower(s)[i] by {
        let c = s[i];
        if 0x41 <= (c as u32) && (c as u32) <= 0x5A {
            let n: u32 = ((c as u32) + 0x20) as u32;
            assert((n as char) as u32 == n);
        }
    }
    assert(ascii_lower(ascii_lower(s)) =~= ascii_lower(s));
}


/// Applying replacements whose replacement texts hold no ASCII capital
/// brings none in.
proof fn lemma_rules_keep_no_upper(s: Seq<char>, rules: Seq<(Seq<char>, Seq<char>)>)
    requires
        no_ascii_upper(s),
        forall|j: int| 0 <= j < rules.len() ==> no_ascii_upper(#[trigger] rules[j].1),
    ensures
        no_ascii_upper(apply_rules(s, rules)),
{
    let r = apply_rules(s, rules);
    assert forall|i: int| 0 <= i < r.len() implies !(0x41 <= (#[trigger] r[i] as u32) && (r[i] as u32)
        <= 0x5A) by {
        let c = r[i];
        if 0x41 <= (c as u32) && (c as u32) <= 0x5A {
            assert forall|j: int| 0 <= j < rules.len() implies !(#[trigger] rules[j]).1.contains(c) by {
                assert(no_ascii_upper(rules[j].1));
            }
            lemma_rules_keep_absent(s, rules, c);
            assert(r.contains(c));
        }
    }
}

proof fn lemma_romaji_triples_kana_only()
    ensures
        forall|j: int| 0 <= j < rule_views(ROMAJI_TRIPLES@).len() ==> no_ascii_upper(#[trigger] rule_views(ROMAJI_TRIPLES@)[j].1),
{
    reveal_strlit("っつ");
    reveal_strlit("しゃ");
    reveal_strlit("しゅ");
    reveal_strlit("しょ");
    reveal_strlit("ちゃ");
    reveal_strlit("ちゅ");
    reveal_strlit("ちょ");
    reveal_strlit("じゃ");
    reveal_strlit("じゅ");
    reveal_strlit("じょ");
    reveal_strlit("つむ");
    let rules = rule_views(ROMAJI_TRIPLES@);
    assert forall|j: int| 0 <= j < rules.len() implies no_ascii_upper(#[trigger] rules[j].1) by {
    }
}

proof fn lemma_romaji_doubles_kana_only()
    ensures
        forall|j: int| 0 <= j < rule_views(ROMAJI_DOUBLES@).len() ==> no_ascii_upper(#[trigger] rule_views(ROMAJI_DOUBLES@)[j].1),
{
    reveal_strlit("しゃ");
    reveal_strlit("しゅ");
    reveal_strlit("しょ");
    reveal_strlit("ちゃ");
    reveal_strlit("ちゅ");
    reveal_strlit("ちょ");
    reveal_strlit("ち");
    reveal_strlit("つ");
    reveal_strlit("し");
    reveal_strlit("か");
    reveal_strlit("き");
    reveal_strlit("く");
    reveal_strlit("け");
    reveal_strlit("こ");
    reveal_strlit("さ");
    reveal_strlit("し");
    reveal_strlit("す");
    reveal_strlit("せ");
    reveal_strlit("そ");
    reveal_strlit("た");
    reveal_strlit("ち");
    reveal_strlit("つ");
    reveal_strlit("て");
    reveal_strlit("と");
    reveal_strlit("な");
    reveal_strlit("に");
    reveal_strlit("ぬ");
    reveal_strlit("ね");
    reveal_strlit("の");
    reveal_strlit("は");
    reveal_strlit("ひ");
    reveal_strlit("ふ");
    reveal_strlit("へ");
    reveal_strlit("ほ");
    reveal_strlit("ま");
    reveal_strlit("み");
    reveal_strlit("む");
    reveal_strlit("め");
    reveal_strlit("も");
    reveal_strlit("や");
    reveal_strlit("ゆ");
    reveal_strlit("よ");
    reveal_strlit("ら");
    reveal_strlit("り");
    reveal_strlit("る");
    reveal_strlit("れ");
    reveal_strlit("ろ");
    reveal_strlit("わ");
    reveal_strlit("を");
    reveal_strlit("ん");
    reveal_strlit("が");
    reveal_strlit("ぎ");
    reveal_strlit("ぐ");
    reveal_strlit("げ");
    reveal_strlit("ご");
    reveal_strlit("ざ");
    reveal_strlit("じ");
    reveal_strlit("ず");
    reveal_strlit("ぜ");
    reveal_strlit("ぞ");
    reveal_strlit("だ");
    reveal_strlit("ぢ");
    reveal_strlit("づ");
    reveal_strlit("で");
    reveal_strlit("ど");
    reveal_strlit("ば");
    reveal_strlit("び");
    reveal_strlit("ぶ");
    reveal_strlit("べ");
    reveal_strlit("ぼ");
    reveal_strlit("ぱ");
    reveal_strlit("ぴ");
    reveal_strlit("ぷ");
    reveal_strlit("ぺ");
    reveal_strlit("ぽ");
    reveal_strlit("じゃ");
    reveal_strlit("じゅ");
    reveal_strlit("じょ");
    reveal_strlit("ふぁ");
    reveal_strlit("ふぃ");
    reveal_strlit("ふぇ");
    reveal_strlit("ふぉ");
    reveal_strlit("ゐ");
    reveal_strlit("ゔぇ");
    reveal_strlit("ゔ");
    let rules = rule_views(ROMAJI_DOUBLES@);
    assert forall|j: int| 0 <= j < rules.len() implies no_ascii_upper(#[trigger] rules[j].1) by {
    }
}

proof fn lemma_romaji_singles_kana_only()
    ensures
        forall|j: int| 0 <= j < rule_views(ROMAJI_SINGLES@).len() ==> no_ascii_upper(#[trigger] rule_views(ROMAJI_SINGLES@)[j].1),
{
    reveal_strlit("あ");
    reveal_strlit("い");
    reveal_strlit("う");
    reveal_strlit("え");
    reveal_strlit("お");
    reveal_strlit("ん");
    let rules = rule_views(ROMAJI_SINGLES@);
    assert forall|j: int| 0 <= j < rules.len() implies no_ascii_upper(#[trigger] rules[j].1) by {
    }
}

/// The romaji conversion of text without ASCII capitals has none either:
/// every replacement text is kana.
pub proof fn lemma_romaji_keeps_no_upper(s: Seq<char>)
    requires
        no_ascii_upper(s),
    ensures
        no_ascii_upper(romaji_fold(s)),
{
    lemma_romaji_triples_kana_only();
    lemma_romaji_doubles_kana_only();
    lemma_romaji_singles_kana_only();
    let a = apply_rules(s, rule_views(ROMAJI_TRIPLES@));
    lemma_rules_keep_no_upper(s, rule_views(ROMAJI_TRIPLES@));
    lemma_rules_keep_no_upper(a, rule_views(ROMAJI_DOUBLES@));
    lemma_rules_keep_no_upper(apply_rules(a, rule_views(ROMAJI_DOUBLES@)), rule_views(ROMAJI_SINGLES@));
}


/// Folding moves each katakana from ァ (U+30A1) to ヶ (U+30F6) down by 0x60
/// onto the hiragana of the same sound and size (ッ onto っ, ァ onto ぁ), and
/// keeps every other character; the length stays.
pub proof fn lemma_kana_fold_codes(s: Seq<char>)
    ensures
        fold_katakana(s).len() == s.len(),
        forall|i: int|
            0 <= i < s.len() ==> if 0x30A1 <= (s[i] as u32) && (s[i] as u32) <= 0x30F6 {
                (#[trigger] fold_katakana(s)[i]) as u32 == (s[i] as u32) - 0x60
            } else {
                fold_katakana(s)[i] == s[i]
            },
{
    assert forall|i: int| 0 <= i < s.len() implies if 0x30A1 <= (s[i] as u32) && (s[i] as u32) <= 0x30F6 {
        (#[trigger] fold_katakana(s)[i]) as u32 == (s[i] as u32) - 0x60
    } else {
        fold_katakana(s)[i] == s[i]
    } by {
        let c = s[i];
        if 0x30A1 <= (c as u32) && (c as u32) <= 0x30F6 {
            let n: u32 = ((c as u32) - 0x60) as u32;
            assert((n as char) as u32 == n);
        }
    }
}

} // verus!
