use vstd::prelude::*;

use crate::counts::{count_of, UseCounts};
use crate::search::{
    badge_text_of, category_position, match_word_chars, quality_rank, rank_of, word_quality,
    EffectCategory, EffectEntry, MatchQuality,
};
use crate::text::{
    lemma_fold_katakana, ascii_lower, is_ascii_text, is_white_space, words_from, chars_of, fold_katakana, katakana_to_hiragana, lowercase, romaji_fold,
    romaji_to_hiragana, split_words, string_of, to_lowercase, views, words,
};

verus! {

// ── Ordering of names ────────────────────────────────────────────────────────

/// `a` comes before `b` in dictionary order of characters (by code point),
/// which is the order of `str`'s `<` (UTF-8 byte order follows code point order).
pub open spec fn text_less(a: Seq<char>, b: Seq<char>) -> bool
    decreases a.len(),
{
    if b.len() == 0 {
        false
    } else if a.len() == 0 {
        true
    } else if a[0] != b[0] {
        a[0] < b[0]
    } else {
        text_less(a.drop_first(), b.drop_first())
    }
}

/// No name comes before itself.
pub proof fn lemma_text_less_irreflexive(a: Seq<char>)
    ensures
        !text_less(a, a),
    decreases a.len(),
{
    if a.len() > 0 {
        lemma_text_less_irreflexive(a.drop_first());
    }
}

/// Dictionary order is transitive.
pub proof fn lemma_text_less_transitive(a: Seq<char>, b: Seq<char>, c: Seq<char>)
    requires
        text_less(a, b),
        text_less(b, c),
    ensures
        text_less(a, c),
    decreases a.len(),
{
    if a.len() > 0 && b.len() > 0 && c.len() > 0 && a[0] == b[0] && b[0] == c[0] {
        lemma_text_less_transitive(a.drop_first(), b.drop_first(), c.drop_first());
    }
}

/// Of two different names, one comes before the other.
pub proof fn lemma_text_less_total(a: Seq<char>, b: Seq<char>)
    requires
        a != b,
    ensures
        text_less(a, b) || text_less(b, a),
    decreases a.len(),
{
    if a.len() > 0 && b.len() > 0 && a[0] == b[0] {
        if a.drop_first() == b.drop_first() {
            assert(a.drop_first().len() == a.len() - 1);
            assert(b.drop_first().len() == b.len() - 1);
            assert(a =~= b) by {
                assert forall|k: int| 0 <= k < a.len() implies a[k] == b[k] by {
                    if k > 0 {
                        assert(a[k] == a.drop_first()[k - 1]);
                        assert(b[k] == b.drop_first()[k - 1]);
                    }
                }
            }
        } else {
            lemma_text_less_total(a.drop_first(), b.drop_first());
        }
    } else if a.len() == 0 && b.len() == 0 {
        assert(a =~= b);
    }
}

/// Two names never each come before the other.
pub proof fn lemma_text_less_asymmetric(a: Seq<char>, b: Seq<char>)
    requires
        text_less(a, b),
    ensures
        !text_less(b, a),
{
    if text_less(b, a) {
        lemma_text_less_transitive(a, b, a);
        lemma_text_less_irreflexive(a);
    }
}

/// Two names that agree on their first `i` characters compare as their rests do.
proof fn lemma_text_less_skip(a: Seq<char>, b: Seq<char>, i: int)
    requires
        0 <= i <= a.len(),
        i <= b.len(),
        a.take(i) == b.take(i),
    ensures
        text_less(a, b) == text_less(a.skip(i), b.skip(i)),
    decreases i,
{
    if i > 0 {
        assert(a[0] == a.take(i)[0]);
        assert(b[0] == b.take(i)[0]);
        assert(a.drop_first().take(i - 1) =~= a.take(i).drop_first());
        assert(b.drop_first().take(i - 1) =~= b.take(i).drop_first());
        lemma_text_less_skip(a.drop_first(), b.drop_first(), i - 1);
        assert(a.drop_first().skip(i - 1) =~= a.skip(i));
        assert(b.drop_first().skip(i - 1) =~= b.skip(i));
    } else {
        assert(a.skip(0) =~= a);
        assert(b.skip(0) =~= b);
    }
}

fn text_less_chars(a: &Vec<char>, b: &Vec<char>) -> (r: bool)
    ensures
        r == text_less(a@, b@),
{
    let mut i: usize = 0;
    while i < a.len() && i < b.len() && a[i] == b[i]
        invariant
            i <= a.len(),
            i <= b.len(),
            a@.take(i as int) == b@.take(i as int),
        decreases a.len() - i,
    {
        assert(a@.take(i + 1) =~= a@.take(i as int).push(a@[i as int]));
        assert(b@.take(i + 1) =~= b@.take(i as int).push(b@[i as int]));
        i += 1;
    }
    proof {
        lemma_text_less_skip(a@, b@, i as int);
        if i < a.len() && i < b.len() {
            assert(a@.skip(i as int)[0] == a@[i as int]);
            assert(b@.skip(i as int)[0] == b@[i as int]);
        }
    }
    if i == b.len() {
        false
    } else if i == a.len() {
        true
    } else {
        a[i] < b[i]
    }
}

// ── Ordering of results ──────────────────────────────────────────────────────

/// The sort key of a listed effect: match quality rank, use count, name
/// length in characters, category position, name, index.
pub type RankKey = (int, int, int, int, Seq<char>, int);

/// Ranking order: better quality first, then more uses first, then shorter
/// names, then by category (`All`, `Filter`, `Object`, `Scene`, the order of
/// the badge texts "", "FLT", "OBJ", "SCN"), then by name, then by index.
pub open spec fn key_less(a: RankKey, b: RankKey) -> bool {
    if a.0 != b.0 {
        a.0 < b.0
    } else if a.1 != b.1 {
        a.1 > b.1
    } else if a.2 != b.2 {
        a.2 < b.2
    } else if a.3 != b.3 {
        a.3 < b.3
    } else if a.4 != b.4 {
        text_less(a.4, b.4)
    } else {
        a.5 < b.5
    }
}

/// No key ranks before itself.
pub proof fn lemma_key_less_irreflexive(a: RankKey)
    ensures
        !key_less(a, a),
{
}

/// Ranking order is transitive.
pub proof fn lemma_key_less_transitive(a: RankKey, b: RankKey, c: RankKey)
    requires
        key_less(a, b),
        key_less(b, c),
    ensures
        key_less(a, c),
{
    if a.0 == b.0 && b.0 == c.0 && a.1 == b.1 && b.1 == c.1 && a.2 == b.2 && b.2 == c.2 && a.3
        == b.3 && b.3 == c.3 {
        if a.4 != b.4 && b.4 != c.4 {
            lemma_text_less_transitive(a.4, b.4, c.4);
            if a.4 == c.4 {
                lemma_text_less_irreflexive(a.4);
            }
        } else if a.4 != b.4 {
            assert(b.4 == c.4);
        } else if b.4 != c.4 {
            assert(a.4 == b.4);
        }
    }
}

/// Keys of different effects are always ranked one before the other.
pub proof fn lemma_key_less_total(a: RankKey, b: RankKey)
    requires
        a.5 != b.5,
    ensures
        key_less(a, b) || key_less(b, a),
{
    if a.4 != b.4 {
        lemma_text_less_total(a.4, b.4);
    }
}

/// Two keys never each rank before the other.
pub proof fn lemma_key_less_asymmetric(a: RankKey, b: RankKey)
    requires
        key_less(a, b),
    ensures
        !key_less(b, a),
{
    if key_less(b, a) {
        lemma_key_less_transitive(a, b, a);
    }
}

// ── What the ranking lists ───────────────────────────────────────────────────

/// The query words, each typed as is and converted to hiragana (romaji
/// converted, katakana folded).
pub open spec fn query_words(q: Seq<char>) -> Seq<(Seq<char>, Seq<char>)> {
    words(q).map_values(|w: Seq<char>| (w, fold_katakana(romaji_fold(lowercase(w)))))
}

/// The worse of two word results; a word without a match sinks the entry.
pub open spec fn worse_of(a: Option<MatchQuality>, b: Option<MatchQuality>) -> Option<MatchQuality> {
    match (a, b) {
        (Some(x), Some(y)) => if quality_rank(x) >= quality_rank(y) {
            a
        } else {
            b
        },
        _ => None,
    }
}

/// An entry matches a query when every word matches; its quality is that of
/// its worst word. With no words, every entry matches as a prefix.
pub open spec fn query_quality(
    lower: Seq<char>,
    kana: Seq<char>,
    ws: Seq<(Seq<char>, Seq<char>)>,
) -> Option<MatchQuality>
    decreases ws.len(),
{
    if ws.len() == 0 {
        Some(MatchQuality::Prefix)
    } else {
        worse_of(
            query_quality(lower, kana, ws.drop_last()),
            word_quality(lower, kana, ws.last().0, ws.last().1),
        )
    }
}

pub open spec fn entry_quality(e: EffectEntry, ws: Seq<(Seq<char>, Seq<char>)>) -> Option<MatchQuality> {
    query_quality(e.name_lower@, e.name_kana@, ws)
}

/// The selected tab shows this category.
pub open spec fn category_admits(selected: EffectCategory, c: EffectCategory) -> bool {
    selected == EffectCategory::All || c == selected
}

/// Effect `i` belongs in the list: the tab shows it and the query matches it.
pub open spec fn is_listed(
    effects: Seq<EffectEntry>,
    selected: EffectCategory,
    ws: Seq<(Seq<char>, Seq<char>)>,
    i: int,
) -> bool {
    &&& 0 <= i < effects.len()
    &&& category_admits(selected, effects[i].category)
    &&& entry_quality(effects[i], ws) is Some
}

/// The sort key of effect `i`.
pub open spec fn rank_key(
    effects: Seq<EffectEntry>,
    counts: Map<Seq<char>, u32>,
    ws: Seq<(Seq<char>, Seq<char>)>,
    i: int,
) -> RankKey {
    let e = effects[i];
    let q = match entry_quality(e, ws) {
        Some(x) => quality_rank(x),
        None => 3,
    };
    (q, count_of(counts, e.name@) as int, e.name@.len() as int, category_position(e.category), e.name@, i)
}

/// `r` lists the indices of `effects` in ranking order, each one ranked before
/// the next.
pub open spec fn ranked_in_order(
    r: Seq<usize>,
    effects: Seq<EffectEntry>,
    counts: Map<Seq<char>, u32>,
    ws: Seq<(Seq<char>, Seq<char>)>,
) -> bool {
    forall|k: int, l: int|
        0 <= k < l < r.len() ==> key_less(
            rank_key(effects, counts, ws, #[trigger] r[k] as int),
            rank_key(effects, counts, ws, #[trigger] r[l] as int),
        )
}

/// `r` is the result list: exactly the listed effects, in ranking order.
pub open spec fn is_ranking(
    r: Seq<usize>,
    effects: Seq<EffectEntry>,
    counts: Map<Seq<char>, u32>,
    selected: EffectCategory,
    ws: Seq<(Seq<char>, Seq<char>)>,
) -> bool {
    &&& forall|k: int| 0 <= k < r.len() ==> is_listed(effects, selected, ws, #[trigger] r[k] as int)
    &&& forall|i: int| #[trigger] is_listed(effects, selected, ws, i) ==> r.contains(i as usize)
    &&& ranked_in_order(r, effects, counts, ws)
}

proof fn lemma_in_order_unique(
    r1: Seq<usize>,
    r2: Seq<usize>,
    effects: Seq<EffectEntry>,
    counts: Map<Seq<char>, u32>,
    ws: Seq<(Seq<char>, Seq<char>)>,
)
    requires
        ranked_in_order(r1, effects, counts, ws),
        ranked_in_order(r2, effects, counts, ws),
        forall|x: usize| #![trigger r1.contains(x)] #![trigger r2.contains(x)] r1.contains(x) <==> r2.contains(x),
    ensures
        r1 == r2,
    decreases r1.len(),
{
    if r1.len() == 0 {
        if r2.len() > 0 {
            assert(r2.contains(r2[0]));
            assert(r1.contains(r2[0]));
        }
        assert(r1 =~= r2);
    } else {
        assert(r1.contains(r1[0]));
        assert(r2.len() > 0);
        let a = r1[0];
        let b = r2[0];
        let key_a = rank_key(effects, counts, ws, a as int);
        let key_b = rank_key(effects, counts, ws, b as int);
        if a != b {
            let m = choose|m: int| 0 <= m < r2.len() && r2[m] == a;
            assert(key_less(key_b, key_a)) by {
                assert(m != 0);
            }
            assert(r2.contains(b));
            assert(r1.contains(b));
            let m2 = choose|m2: int| 0 <= m2 < r1.len() && r1[m2] == b;
            assert(key_less(key_a, key_b)) by {
                assert(m2 != 0);
            }
            lemma_key_less_asymmetric(key_a, key_b);
        }
        let t1 = r1.drop_first();
        let t2 = r2.drop_first();
        assert forall|x: usize| #![trigger t1.contains(x)] #![trigger t2.contains(x)] t1.contains(x) <==> t2.contains(x) by {
            if t1.contains(x) {
                let k = choose|k: int| 0 <= k < t1.len() && t1[k] == x;
                assert(r1[k + 1] == x);
                if x == a {
                    lemma_key_less_irreflexive(key_a);
                    assert(key_less(key_a, key_a));
                }
                assert(r1.contains(x));
                let l = choose|l: int| 0 <= l < r2.len() && r2[l] == x;
                assert(l != 0);
                assert(t2[l - 1] == x);
            }
            if t2.contains(x) {
                let k = choose|k: int| 0 <= k < t2.len() && t2[k] == x;
                assert(r2[k + 1] == x);
                if x == b {
                    lemma_key_less_irreflexive(key_b);
                    assert(key_less(key_b, key_b));
                }
                assert(r2.contains(x));
                let l = choose|l: int| 0 <= l < r1.len() && r1[l] == x;
                assert(l != 0);
                assert(t1[l - 1] == x);
            }
        }
        assert forall|k: int, l: int| 0 <= k < l < t1.len() implies key_less(
            rank_key(effects, counts, ws, #[trigger] t1[k] as int),
            rank_key(effects, counts, ws, #[trigger] t1[l] as int),
        ) by {
            assert(t1[k] == r1[k + 1]);
            assert(t1[l] == r1[l + 1]);
        }
        assert forall|k: int, l: int| 0 <= k < l < t2.len() implies key_less(
            rank_key(effects, counts, ws, #[trigger] t2[k] as int),
            rank_key(effects, counts, ws, #[trigger] t2[l] as int),
        ) by {
            assert(t2[k] == r2[k + 1]);
            assert(t2[l] == r2[l + 1]);
        }
        lemma_in_order_unique(t1, t2, effects, counts, ws);
        assert(r1 =~= seq![a] + t1);
        assert(r2 =~= seq![b] + t2);
    }
}

/// The ranking is fully determined: two lists that both hold exactly the
/// listed effects in ranking order are the same list.
pub proof fn lemma_ranking_unique(
    r1: Seq<usize>,
    r2: Seq<usize>,
    effects: Seq<EffectEntry>,
    counts: Map<Seq<char>, u32>,
    selected: EffectCategory,
    ws: Seq<(Seq<char>, Seq<char>)>,
)
    requires
        is_ranking(r1, effects, counts, selected, ws),
        is_ranking(r2, effects, counts, selected, ws),
    ensures
        r1 == r2,
{
    assert forall|x: usize| #![trigger r1.contains(x)] #![trigger r2.contains(x)] r1.contains(x) <==> r2.contains(x) by {
        if r1.contains(x) {
            let k = choose|k: int| 0 <= k < r1.len() && r1[k] == x;
            assert(is_listed(effects, selected, ws, r1[k] as int));
            assert(r2.contains(x as int as usize));
        }
        if r2.contains(x) {
            let k = choose|k: int| 0 <= k < r2.len() && r2[k] == x;
            assert(is_listed(effects, selected, ws, r2[k] as int));
            assert(r1.contains(x as int as usize));
        }
    }
    lemma_in_order_unique(r1, r2, effects, counts, ws);
}


// ── Laws of the ranking ──────────────────────────────────────────────────────

/// Categories rank in the order of their badge texts ("", "FLT", "OBJ", "SCN").
pub proof fn lemma_badge_order(c: EffectCategory, d: EffectCategory)
    ensures
        category_position(c) < category_position(d) <==> text_less(badge_text_of(c), badge_text_of(d)),
{
    reveal_strlit("");
    reveal_strlit("FLT");
    reveal_strlit("OBJ");
    reveal_strlit("SCN");
    lemma_text_less_irreflexive(badge_text_of(c));
}

/// With no query words every effect of the selected tab is listed, each as
/// a prefix match.
pub proof fn lemma_no_words_lists_tab(
    effects: Seq<EffectEntry>,
    selected: EffectCategory,
    ws: Seq<(Seq<char>, Seq<char>)>,
    i: int,
)
    requires
        ws.len() == 0,
        0 <= i < effects.len(),
    ensures
        is_listed(effects, selected, ws, i) <==> category_admits(selected, effects[i].category),
        entry_quality(effects[i], ws) == Some(MatchQuality::Prefix),
{
}

/// Every query word must match (AND search): a further word never lists an
/// effect the shorter query did not, and never improves its quality.
pub proof fn lemma_more_words_narrow(
    lower: Seq<char>,
    kana: Seq<char>,
    ws: Seq<(Seq<char>, Seq<char>)>,
    w: (Seq<char>, Seq<char>),
)
    ensures
        query_quality(lower, kana, ws.push(w)) is Some ==> query_quality(lower, kana, ws) is Some,
        query_quality(lower, kana, ws.push(w)) matches Some(q) ==> quality_rank(q) >= quality_rank(
            query_quality(lower, kana, ws)->0,
        ),
        query_quality(lower, kana, ws.push(w)) is Some <==> (query_quality(lower, kana, ws) is Some
            && word_quality(lower, kana, w.0, w.1) is Some),
{
    assert(ws.push(w).drop_last() =~= ws);
    assert(ws.push(w).last() == w);
}

/// No effect is listed twice.
pub proof fn lemma_ranking_distinct(
    r: Seq<usize>,
    effects: Seq<EffectEntry>,
    counts: Map<Seq<char>, u32>,
    selected: EffectCategory,
    ws: Seq<(Seq<char>, Seq<char>)>,
)
    requires
        is_ranking(r, effects, counts, selected, ws),
    ensures
        forall|k: int, l: int| 0 <= k < l < r.len() ==> r[k] != r[l],
{
    assert forall|k: int, l: int| 0 <= k < l < r.len() implies r[k] != r[l] by {
        let a = rank_key(effects, counts, ws, r[k] as int);
        assert(key_less(a, rank_key(effects, counts, ws, r[l] as int)));
        if r[k] == r[l] {
            lemma_key_less_irreflexive(a);
        }
    }
}

/// Of two listed effects that match equally well, the one used more often
/// comes first.
pub proof fn lemma_more_used_first(
    r: Seq<usize>,
    effects: Seq<EffectEntry>,
    counts: Map<Seq<char>, u32>,
    selected: EffectCategory,
    ws: Seq<(Seq<char>, Seq<char>)>,
    k: int,
    l: int,
)
    requires
        is_ranking(r, effects, counts, selected, ws),
        0 <= k < r.len(),
        0 <= l < r.len(),
        entry_quality(effects[r[k] as int], ws) == entry_quality(effects[r[l] as int], ws),
        count_of(counts, effects[r[k] as int].name@) > count_of(counts, effects[r[l] as int].name@),
    ensures
        k < l,
{
    let a = rank_key(effects, counts, ws, r[k] as int);
    let b = rank_key(effects, counts, ws, r[l] as int);
    assert(key_less(a, b));
    if l < k {
        assert(key_less(b, a));
        lemma_key_less_asymmetric(a, b);
    } else if l == k {
        lemma_key_less_irreflexive(a);
    }
}

// ── Laws at the level of the query text ──────────────────────────────────────

/// Text ending before white space splits into its own words and those after.
proof fn lemma_words_from_split(cur: Seq<char>, a: Seq<char>, s: Seq<char>)
    requires
        s.len() > 0,
        is_white_space(s[0]),
    ensures
        words_from(cur, a + s) == words_from(cur, a) + words_from(seq![], s),
    decreases a.len(),
{
    if a.len() == 0 {
        assert(a + s =~= s);
        assert(s.drop_first() == s.drop_first());
        let pre: Seq<Seq<char>> = if cur.len() == 0 { seq![] } else { seq![cur] };
        assert(words_from(seq![], s) == Seq::<Seq<char>>::empty() + words_from(seq![], s.drop_first()));
        assert(words_from(cur, s) == pre + words_from(seq![], s.drop_first()));
        assert(words_from(cur, a) == pre);
        assert(Seq::<Seq<char>>::empty() + words_from(seq![], s.drop_first()) =~= words_from(seq![], s.drop_first()));
    } else {
        assert((a + s)[0] == a[0]);
        assert((a + s).drop_first() =~= a.drop_first() + s);
        if is_white_space(a[0]) {
            lemma_words_from_split(seq![], a.drop_first(), s);
            let pre: Seq<Seq<char>> = if cur.len() == 0 { seq![] } else { seq![cur] };
            assert(pre + (words_from(seq![], a.drop_first()) + words_from(seq![], s)) =~= (pre
                + words_from(seq![], a.drop_first())) + words_from(seq![], s));
        } else {
            lemma_words_from_split(cur.push(a[0]), a.drop_first(), s);
        }
    }
}

/// The query words of `a`, a space, then `b` are those of `a` followed by those of `b`.
pub proof fn lemma_query_words_split(a: Seq<char>, b: Seq<char>)
    ensures
        query_words(a + seq![' '] + b) == query_words(a) + query_words(b),
{
    let s = seq![' '] + b;
    assert(a + seq![' '] + b =~= a + s);
    assert(s[0] == ' ');
    lemma_words_from_split(seq![], a, s);
    assert(s.drop_first() =~= b);
    assert(words_from(seq![], s) == Seq::<Seq<char>>::empty() + words_from(seq![], s.drop_first()));
    assert(Seq::<Seq<char>>::empty() + words(b) =~= words(b));
    assert(words(a + s) == words(a) + words(b));
    assert(query_words(a + s) =~= query_words(a) + query_words(b));
}

/// Lower-casing ASCII letters keeps a space where it is.
pub proof fn lemma_ascii_lower_split(a: Seq<char>, b: Seq<char>)
    ensures
        ascii_lower(a + seq![' '] + b) == ascii_lower(a) + seq![' '] + ascii_lower(b),
{
    assert(ascii_lower(a + seq![' '] + b) =~= ascii_lower(a) + seq![' '] + ascii_lower(b));
}

proof fn lemma_query_quality_prefix(
    lower: Seq<char>,
    kana: Seq<char>,
    ws1: Seq<(Seq<char>, Seq<char>)>,
    ws2: Seq<(Seq<char>, Seq<char>)>,
)
    ensures
        query_quality(lower, kana, ws1 + ws2) is Some ==> query_quality(lower, kana, ws1) is Some,
    decreases ws2.len(),
{
    if ws2.len() == 0 {
        assert(ws1 + ws2 =~= ws1);
    } else {
        assert(ws1 + ws2 =~= (ws1 + ws2.drop_last()).push(ws2.last()));
        lemma_more_words_narrow(lower, kana, ws1 + ws2.drop_last(), ws2.last());
        lemma_query_quality_prefix(lower, kana, ws1, ws2.drop_last());
    }
}

/// Further query words list no effect that the query without them did not.
pub proof fn lemma_extra_words_narrow(
    r1: Seq<usize>,
    r2: Seq<usize>,
    effects: Seq<EffectEntry>,
    counts: Map<Seq<char>, u32>,
    selected: EffectCategory,
    ws1: Seq<(Seq<char>, Seq<char>)>,
    ws2: Seq<(Seq<char>, Seq<char>)>,
)
    requires
        is_ranking(r1, effects, counts, selected, ws1),
        is_ranking(r2, effects, counts, selected, ws1 + ws2),
    ensures
        forall|x: usize| r2.contains(x) ==> r1.contains(x),
{
    assert forall|x: usize| r2.contains(x) implies r1.contains(x) by {
        let k = choose|k: int| 0 <= k < r2.len() && r2[k] == x;
        assert(is_listed(effects, selected, ws1 + ws2, r2[k] as int));
        let e = effects[x as int];
        lemma_query_quality_prefix(e.name_lower@, e.name_kana@, ws1, ws2);
        assert(is_listed(effects, selected, ws1, x as int));
        assert(r1.contains(x as int as usize));
    }
}

/// One more word typed after a space lists no effect that the query without
/// it did not: `rank_effects` on `q + " " + w` ranks by the words of `q`
/// followed by those of `w`, each part lower-cased.
pub proof fn lemma_more_typed_words_narrow(
    r1: Seq<usize>,
    r2: Seq<usize>,
    effects: Seq<EffectEntry>,
    counts: Map<Seq<char>, u32>,
    selected: EffectCategory,
    q: Seq<char>,
    w: Seq<char>,
)
    requires
        is_ranking(r1, effects, counts, selected, query_words(lowercase(q))),
        is_ranking(r2, effects, counts, selected, query_words(lowercase(q)) + query_words(lowercase(w))),
    ensures
        forall|x: usize| r2.contains(x) ==> r1.contains(x),
{
    lemma_extra_words_narrow(r1, r2, effects, counts, selected, query_words(lowercase(q)), query_words(lowercase(w)));
}

/// One more query word lists no effect that the shorter query did not
/// (the query already lower-cased).
pub proof fn lemma_more_query_words_narrow(
    r1: Seq<usize>,
    r2: Seq<usize>,
    effects: Seq<EffectEntry>,
    counts: Map<Seq<char>, u32>,
    selected: EffectCategory,
    q: Seq<char>,
    w: Seq<char>,
)
    requires
        is_ranking(r1, effects, counts, selected, query_words(q)),
        is_ranking(r2, effects, counts, selected, query_words(q + seq![' '] + w)),
    ensures
        forall|x: usize| r2.contains(x) ==> r1.contains(x),
{
    lemma_query_words_split(q, w);
    lemma_extra_words_narrow(r1, r2, effects, counts, selected, query_words(q), query_words(w));
}

/// One more query word lists no effect that the shorter query did not
/// (queries typed in ASCII, as `rank_effects` lower-cases them).
pub proof fn lemma_more_ascii_words_narrow(
    r1: Seq<usize>,
    r2: Seq<usize>,
    effects: Seq<EffectEntry>,
    counts: Map<Seq<char>, u32>,
    selected: EffectCategory,
    q: Seq<char>,
    w: Seq<char>,
)
    requires
        is_ranking(r1, effects, counts, selected, query_words(ascii_lower(q))),
        is_ranking(r2, effects, counts, selected, query_words(ascii_lower(q + seq![' '] + w))),
    ensures
        forall|x: usize| r2.contains(x) ==> r1.contains(x),
{
    lemma_ascii_lower_split(q, w);
    lemma_more_query_words_narrow(r1, r2, effects, counts, selected, ascii_lower(q), ascii_lower(w));
}

/// A tab lists no effect that the `All` tab does not.
pub proof fn lemma_narrower_tab(
    r_tab: Seq<usize>,
    r_all: Seq<usize>,
    effects: Seq<EffectEntry>,
    counts: Map<Seq<char>, u32>,
    selected: EffectCategory,
    ws: Seq<(Seq<char>, Seq<char>)>,
)
    requires
        is_ranking(r_tab, effects, counts, selected, ws),
        is_ranking(r_all, effects, counts, EffectCategory::All, ws),
    ensures
        forall|x: usize| r_tab.contains(x) ==> r_all.contains(x),
{
    assert forall|x: usize| r_tab.contains(x) implies r_all.contains(x) by {
        let k = choose|k: int| 0 <= k < r_tab.len() && r_tab[k] == x;
        assert(is_listed(effects, selected, ws, r_tab[k] as int));
        assert(is_listed(effects, EffectCategory::All, ws, x as int));
        assert(r_all.contains(x as int as usize));
    }
}

proof fn lemma_blank_has_no_words(cur: Seq<char>, q: Seq<char>)
    requires
        cur.len() == 0,
        forall|i: int| 0 <= i < q.len() ==> is_white_space(#[trigger] q[i]),
    ensures
        words_from(cur, q).len() == 0,
    decreases q.len(),
{
    if q.len() > 0 {
        assert(is_white_space(q[0]));
        assert forall|i: int| 0 <= i < q.drop_first().len() implies is_white_space(#[trigger] q.drop_first()[i]) by {
            assert(q.drop_first()[i] == q[i + 1]);
        }
        lemma_blank_has_no_words(seq![], q.drop_first());
    }
}

/// A query of white space alone (as `rank_effects` ranks it, or typed in
/// ASCII) lists exactly the effects of the selected tab: with `All`, every effect.
pub proof fn lemma_blank_query_lists_tab(
    r: Seq<usize>,
    effects: Seq<EffectEntry>,
    counts: Map<Seq<char>, u32>,
    selected: EffectCategory,
    q: Seq<char>,
)
    requires
        forall|i: int| 0 <= i < q.len() ==> is_white_space(#[trigger] q[i]),
        is_ranking(r, effects, counts, selected, query_words(ascii_lower(q)))
            || is_ranking(r, effects, counts, selected, query_words(q)),
    ensures
        forall|i: usize|
            i < effects.len() ==> (#[trigger] r.contains(i) <==> category_admits(
                selected,
                effects[i as int].category,
            )),
        forall|k: int| 0 <= k < r.len() ==> r[k] < effects.len(),
{
    assert(ascii_lower(q) =~= q) by {
        assert forall|i: int| 0 <= i < q.len() implies ascii_lower(q)[i] == q[i] by {
            assert(is_white_space(q[i]));
        }
    }
    lemma_blank_has_no_words(seq![], q);
    let ws = query_words(q);
    assert(ws.len() == 0);
    assert forall|i: usize| i < effects.len() implies (#[trigger] r.contains(i) <==> category_admits(
        selected,
        effects[i as int].category,
    )) by {
        lemma_no_words_lists_tab(effects, selected, ws, i as int);
        if r.contains(i) {
            let k = choose|k: int| 0 <= k < r.len() && r[k] == i;
            assert(is_listed(effects, selected, ws, r[k] as int));
        }
        if category_admits(selected, effects[i as int].category) {
            assert(is_listed(effects, selected, ws, i as int));
            assert(r.contains(i as int as usize));
        }
    }
    assert forall|k: int| 0 <= k < r.len() implies r[k] < effects.len() by {
        assert(is_listed(effects, selected, ws, r[k] as int));
    }
}

/// The hiragana form of every query word holds no katakana from ァ to ヶ:
/// a word is folded to hiragana, so katakana in a query is matched as the
/// same hiragana.
pub proof fn lemma_query_hiragana_has_no_katakana(q: Seq<char>)
    ensures
        forall|k: int, j: int|
            0 <= k < query_words(q).len() && 0 <= j < query_words(q)[k].1.len() ==> !(0x30A1
                <= (#[trigger] query_words(q)[k].1[j] as u32) && (query_words(q)[k].1[j] as u32)
                <= 0x30F6),
        forall|k: int| 0 <= k < query_words(q).len() ==> (#[trigger] query_words(q)[k]).0 == words(q)[k],
{
    assert forall|k: int, j: int|
        0 <= k < query_words(q).len() && 0 <= j < query_words(q)[k].1.len() implies !(0x30A1
            <= (#[trigger] query_words(q)[k].1[j] as u32) && (query_words(q)[k].1[j] as u32)
            <= 0x30F6) by {
        lemma_fold_katakana(romaji_fold(lowercase(words(q)[k])));
    }
}

// ── Computing the ranking ────────────────────────────────────────────────────

pub open spec fn pair_views(s: Seq<(Vec<char>, Vec<char>)>) -> Seq<(Seq<char>, Seq<char>)> {
    s.map_values(|p: (Vec<char>, Vec<char>)| (p.0@, p.1@))
}

fn copy_chars(v: &Vec<char>) -> (r: Vec<char>)
    ensures
        r@ == v@,
{
    let mut r: Vec<char> = Vec::new();
    let mut k: usize = 0;
    while k < v.len()
        invariant
            k <= v.len(),
            r@ == v@.take(k as int),
        decreases v.len() - k,
    {
        r.push(v[k]);
        k += 1;
        assert(r@ =~= v@.take(k as int));
    }
    assert(v@.take(k as int) =~= v@);
    r
}

/// The query words of an already lower-cased query, each with its hiragana form.
fn query_word_pairs(lowered: &str) -> (r: Vec<(Vec<char>, Vec<char>)>)
    ensures
        pair_views(r@) == query_words(lowered@),
{
    let q = chars_of(lowered);
    let ws = split_words(&q);
    let ghost target = query_words(lowered@);
    let mut r: Vec<(Vec<char>, Vec<char>)> = Vec::new();
    let mut k: usize = 0;
    while k < ws.len()
        invariant
            k <= ws.len(),
            views(ws@) == words(lowered@),
            target == query_words(lowered@),
            pair_views(r@) == target.take(k as int),
        decreases ws.len() - k,
    {
        let raw = copy_chars(&ws[k]);
        let typed = string_of(&ws[k]);
        let kana = romaji_to_hiragana(typed.as_str());
        let hira = katakana_to_hiragana(kana.as_str());
        let hira_chars = chars_of(hira.as_str());
        assert(views(ws@)[k as int] == ws@[k as int]@);
        assert(target[k as int] == (raw@, hira_chars@));
        let ghost before = pair_views(r@);
        r.push((raw, hira_chars));
        assert(pair_views(r@) =~= before.push((raw@, hira_chars@)));
        k += 1;
        assert(target.take(k as int) =~= target.take(k - 1).push(target[k - 1]));
    }
    assert(target.take(k as int) =~= target);
    r
}

fn worse_of_exec(a: Option<MatchQuality>, b: Option<MatchQuality>) -> (r: Option<MatchQuality>)
    ensures
        r == worse_of(a, b),
{
    match (a, b) {
        (Some(x), Some(y)) => {
            if rank_of(x) >= rank_of(y) {
                a
            } else {
                b
            }
        },
        _ => None,
    }
}

fn query_quality_chars(
    lower: &Vec<char>,
    kana: &Vec<char>,
    ws: &Vec<(Vec<char>, Vec<char>)>,
) -> (r: Option<MatchQuality>)
    ensures
        r == query_quality(lower@, kana@, pair_views(ws@)),
{
    let ghost all = pair_views(ws@);
    let mut acc: Option<MatchQuality> = Some(MatchQuality::Prefix);
    let mut k: usize = 0;
    assert(all.take(0).len() == 0);
    while k < ws.len()
        invariant
            k <= ws.len(),
            all == pair_views(ws@),
            acc == query_quality(lower@, kana@, all.take(k as int)),
        decreases ws.len() - k,
    {
        let q = match_word_chars(lower, kana, &ws[k].0, &ws[k].1);
        acc = worse_of_exec(acc, q);
        assert(all.take(k + 1).drop_last() =~= all.take(k as int));
        assert(all.take(k + 1).last() == all[k as int]);
        k += 1;
    }
    assert(all.take(k as int) =~= all);
    acc
}

/// A listed effect with its sort key.
struct Row {
    quality: u8,
    count: u32,
    len: usize,
    category: usize,
    name: Vec<char>,
    index: usize,
}

spec fn row_key(r: Row) -> RankKey {
    (r.quality as int, r.count as int, r.len as int, r.category as int, r.name@, r.index as int)
}

fn row_less(a: &Row, b: &Row) -> (r: bool)
    ensures
        r == key_less(row_key(*a), row_key(*b)),
{
    if a.quality != b.quality {
        return a.quality < b.quality;
    }
    if a.count != b.count {
        return a.count > b.count;
    }
    if a.len != b.len {
        return a.len < b.len;
    }
    if a.category != b.category {
        return a.category < b.category;
    }
    if text_less_chars(&a.name, &b.name) {
        proof {
            lemma_text_less_irreflexive(a.name@);
        }
        return true;
    }
    if text_less_chars(&b.name, &a.name) {
        proof {
            lemma_text_less_irreflexive(a.name@);
        }
        return false;
    }
    proof {
        if a.name@ != b.name@ {
            lemma_text_less_total(a.name@, b.name@);
        }
    }
    a.index < b.index
}

spec fn rows_sorted(rows: Seq<Row>) -> bool {
    forall|k: int, l: int| 0 <= k < l < rows.len() ==> key_less(row_key(#[trigger] rows[k]), row_key(#[trigger] rows[l]))
}

/// Where `row` goes among sorted `rows` whose indices all differ from its own.
fn insertion_point(rows: &Vec<Row>, row: &Row) -> (p: usize)
    requires
        rows_sorted(rows@),
        forall|k: int| 0 <= k < rows@.len() ==> (#[trigger] rows@[k]).index != row.index,
    ensures
        p <= rows@.len(),
        forall|k: int| 0 <= k < p ==> key_less(row_key(#[trigger] rows@[k]), row_key(*row)),
        forall|k: int| p <= k < rows@.len() ==> key_less(row_key(*row), row_key(#[trigger] rows@[k])),
{
    let mut p: usize = 0;
    while p < rows.len() && row_less(&rows[p], row)
        invariant
            p <= rows@.len(),
            forall|k: int| 0 <= k < p ==> key_less(row_key(#[trigger] rows@[k]), row_key(*row)),
        decreases rows@.len() - p,
    {
        p += 1;
    }
    proof {
        if p < rows@.len() {
            lemma_key_less_total(row_key(rows@[p as int]), row_key(*row));
            assert forall|k: int| p <= k < rows@.len() implies key_less(
                row_key(*row),
                row_key(#[trigger] rows@[k]),
            ) by {
                if k > p {
                    lemma_key_less_transitive(row_key(*row), row_key(rows@[p as int]), row_key(rows@[k]));
                }
            }
        }
    }
    p
}

/// Inserts `row` into sorted `rows` whose indices all differ from its own.
fn insert_sorted(rows: &mut Vec<Row>, row: Row)
    requires
        rows_sorted(old(rows)@),
        forall|k: int| 0 <= k < old(rows)@.len() ==> (#[trigger] old(rows)@[k]).index != row.index,
    ensures
        rows_sorted(final(rows)@),
        forall|k: int|
            0 <= k < final(rows)@.len() ==> #[trigger] final(rows)@[k] == row || old(rows)@.contains(
                final(rows)@[k],
            ),
        final(rows)@.contains(row),
        forall|m: int| 0 <= m < old(rows)@.len() ==> final(rows)@.contains(#[trigger] old(rows)@[m]),
{
    let p = insertion_point(rows, &row);
    let ghost old_rows = rows@;
    let ghost the_row = row;
    rows.insert(p, row);
    proof {
        old_rows.insert_ensures(p as int, the_row);
        assert forall|k: int, l: int| 0 <= k < l < rows@.len() implies key_less(
            row_key(#[trigger] rows@[k]),
            row_key(#[trigger] rows@[l]),
        ) by {
            if l < p {
                assert(rows@[k] == old_rows[k]);
                assert(rows@[l] == old_rows[l]);
            } else if l == p {
                assert(rows@[k] == old_rows[k]);
            } else if k == p {
                assert(rows@[l] == old_rows[l - 1]);
            } else if k < p {
                assert(rows@[k] == old_rows[k]);
                assert(rows@[l] == old_rows[l - 1]);
            } else {
                assert(rows@[k] == old_rows[k - 1]);
                assert(rows@[l] == old_rows[l - 1]);
            }
        }
        assert forall|k: int| 0 <= k < rows@.len() implies #[trigger] rows@[k] == the_row
            || old_rows.contains(rows@[k]) by {
            if k < p {
                assert(rows@[k] == old_rows[k]);
            } else if k > p {
                assert(rows@[k] == old_rows[k - 1]);
            }
        }
        assert(rows@[p as int] == the_row);
        assert forall|m: int| 0 <= m < old_rows.len() implies rows@.contains(#[trigger] old_rows[m]) by {
            if m < p {
                assert(rows@[m] == old_rows[m]);
            } else {
                assert(rows@[m + 1] == old_rows[m]);
            }
        }
    }
}

/// A row of the ranking built so far: a listed effect below `i`, with its key.
spec fn row_fits(
    effects: Seq<EffectEntry>,
    counts: Map<Seq<char>, u32>,
    selected: EffectCategory,
    ws: Seq<(Seq<char>, Seq<char>)>,
    i: int,
    row: Row,
) -> bool {
    &&& row.index < i
    &&& is_listed(effects, selected, ws, row.index as int)
    &&& row_key(row) == rank_key(effects, counts, ws, row.index as int)
}

/// The indices of the effects that the selected tab shows and the query
/// matches, best first (see `key_less`); the query is taken as it is, already
/// lower-cased.
pub fn rank_effects_lowered(
    effects: &Vec<EffectEntry>,
    counts: &UseCounts,
    selected: EffectCategory,
    lowered_query: &str,
) -> (r: Vec<usize>)
    ensures
        is_ranking(r@, effects@, counts@, selected, query_words(lowered_query@)),
{
    let ws = query_word_pairs(lowered_query);
    let ghost wsv = query_words(lowered_query@);
    let ghost cv = counts@;
    let mut rows: Vec<Row> = Vec::new();
    let mut i: usize = 0;
    while i < effects.len()
        invariant
            i <= effects@.len(),
            wsv == pair_views(ws@),
            cv == counts@,
            rows_sorted(rows@),
            forall|k: int| 0 <= k < rows@.len() ==> row_fits(effects@, cv, selected, wsv, i as int, #[trigger] rows@[k]),
            forall|j: int|
                0 <= j < i && #[trigger] is_listed(effects@, selected, wsv, j) ==> exists|k: int|
                    0 <= k < rows@.len() && (#[trigger] rows@[k]).index == j,
        decreases effects@.len() - i,
    {
        let e = &effects[i];
        if selected == EffectCategory::All || e.category == selected {
            let lower = chars_of(e.name_lower.as_str());
            let kana = chars_of(e.name_kana.as_str());
            let q = query_quality_chars(&lower, &kana, &ws);
            match q {
                Some(quality) => {
                    let name = chars_of(e.name.as_str());
                    let row = Row {
                        quality: rank_of(quality),
                        count: counts.get(&e.name),
                        len: name.len(),
                        category: e.category.position(),
                        name,
                        index: i,
                    };
                    assert(row_key(row) == rank_key(effects@, cv, wsv, i as int));
                    assert(row_fits(effects@, cv, selected, wsv, i + 1, row));
                    let ghost old_rows = rows@;
                    let ghost the_row = row;
                    insert_sorted(&mut rows, row);
                    proof {
                        assert forall|k: int| 0 <= k < rows@.len() implies row_fits(
                            effects@,
                            cv,
                            selected,
                            wsv,
                            i + 1,
                            #[trigger] rows@[k],
                        ) by {
                            if rows@[k] != the_row {
                                let m = choose|m: int| 0 <= m < old_rows.len() && old_rows[m] == rows@[k];
                                assert(row_fits(effects@, cv, selected, wsv, i as int, old_rows[m]));
                            }
                        }
                        assert forall|j: int|
                            0 <= j < i + 1 && #[trigger] is_listed(effects@, selected, wsv, j) implies exists|k: int|
                            0 <= k < rows@.len() && (#[trigger] rows@[k]).index == j by {
                            if j == i {
                                let k = choose|k: int| 0 <= k < rows@.len() && rows@[k] == the_row;
                                assert(rows@[k].index == j);
                            } else {
                                let m = choose|m: int| 0 <= m < old_rows.len() && (#[trigger] old_rows[m]).index == j;
                                assert(rows@.contains(old_rows[m]));
                                let k = choose|k: int| 0 <= k < rows@.len() && rows@[k] == old_rows[m];
                                assert(rows@[k].index == j);
                            }
                        }
                    }
                },
                None => {
                    assert(!is_listed(effects@, selected, wsv, i as int));
                },
            }
        } else {
            assert(!is_listed(effects@, selected, wsv, i as int));
        }
        proof {
            assert forall|k: int| 0 <= k < rows@.len() implies row_fits(effects@, cv, selected, wsv, i + 1, #[trigger] rows@[k]) by {
                assert(row_fits(effects@, cv, selected, wsv, i as int, rows@[k]) || row_fits(effects@, cv, selected, wsv, i + 1, rows@[k]));
            }
        }
        i += 1;
    }
    let mut r: Vec<usize> = Vec::new();
    let mut k: usize = 0;
    while k < rows.len()
        invariant
            k <= rows@.len(),
            r@.len() == k,
            forall|m: int| 0 <= m < k ==> r@[m] == (#[trigger] rows@[m]).index,
        decreases rows@.len() - k,
    {
        r.push(rows[k].index);
        k += 1;
    }
    proof {
        assert forall|m: int| 0 <= m < r@.len() implies is_listed(effects@, selected, wsv, #[trigger] r@[m] as int) by {
            assert(r@[m] == rows@[m].index);
            assert(row_fits(effects@, cv, selected, wsv, i as int, rows@[m]));
        }
        assert forall|j: int| #[trigger] is_listed(effects@, selected, wsv, j) implies r@.contains(j as usize) by {
            let m = choose|m: int| 0 <= m < rows@.len() && (#[trigger] rows@[m]).index == j;
            assert(r@[m] == rows@[m].index);
        }
        assert forall|m: int, l: int| 0 <= m < l < r@.len() implies key_less(
            rank_key(effects@, counts@, wsv, #[trigger] r@[m] as int),
            rank_key(effects@, counts@, wsv, #[trigger] r@[l] as int),
        ) by {
            assert(r@[m] == rows@[m].index);
            assert(r@[l] == rows@[l].index);
            assert(row_fits(effects@, cv, selected, wsv, i as int, rows@[m]));
            assert(row_fits(effects@, cv, selected, wsv, i as int, rows@[l]));
            assert(key_less(row_key(rows@[m]), row_key(rows@[l])));
        }
    }
    r
}

/// The indices of the effects that the selected tab shows and the query
/// matches, best first (see `key_less`); the query is lower-cased first.
pub fn rank_effects(
    effects: &Vec<EffectEntry>,
    counts: &UseCounts,
    selected: EffectCategory,
    query: &str,
) -> (r: Vec<usize>)
    ensures
        is_ranking(r@, effects@, counts@, selected, query_words(lowercase(query@))),
        is_ascii_text(query@) ==> is_ranking(
            r@,
            effects@,
            counts@,
            selected,
            query_words(ascii_lower(query@)),
        ),
        forall|a: Seq<char>, b: Seq<char>|
            #![trigger lowercase(a), lowercase(b)]
            query@ == a + seq![' '] + b ==> is_ranking(
                r@,
                effects@,
                counts@,
                selected,
                query_words(lowercase(a)) + query_words(lowercase(b)),
            ),
        (forall|i: int| 0 <= i < query@.len() ==> is_white_space(#[trigger] query@[i])) ==> is_ranking(
            r@,
            effects@,
            counts@,
            selected,
            query_words(query@),
        ),
{
    let lowered = to_lowercase(query);
    let r = rank_effects_lowered(effects, counts, selected, lowered.as_str());
    proof {
        assert forall|a: Seq<char>, b: Seq<char>|
            #![trigger lowercase(a), lowercase(b)]
            query@ == a + seq![' '] + b implies is_ranking(
                r@,
                effects@,
                counts@,
                selected,
                query_words(lowercase(a)) + query_words(lowercase(b)),
            ) by {
            lemma_query_words_split(lowercase(a), lowercase(b));
        }
    }
    r
}

} // verus!
