use vstd::prelude::*;

use crate::counts::{count_of, UseCounts};
use crate::i18n::{text_of, tr, Language, TextKey};
use crate::rank::{is_ranking, lemma_blank_query_lists_tab, query_words, rank_effects};
use crate::search::{category_position, EffectCategory, EffectEntry, CATEGORIES};
use crate::text::{ascii_lower, is_ascii_text, is_white_space, lowercase};

verus! {

// ── Keyboard cursor ──────────────────────────────────────────────────────────

/// The cursor after the down arrow: the first row when there was none, else
/// one row further down but never past the last row of `len` rows.
pub open spec fn cursor_down_of(cursor: Option<usize>, len: usize) -> usize {
    match cursor {
        None => 0,
        Some(c) => {
            let last: int = if len == 0 { 0 } else { len - 1 };
            if c + 1 <= last { (c + 1) as usize } else { last as usize }
        },
    }
}

/// The cursor after the up arrow: the first row when there was none, else one
/// row further up but never above the first.
pub open spec fn cursor_up_of(cursor: Option<usize>) -> usize {
    match cursor {
        None => 0,
        Some(c) => if c == 0 { 0 } else { (c - 1) as usize },
    }
}

/// Moves the cursor one row down among `len` rows.
pub fn cursor_down(cursor: Option<usize>, len: usize) -> (r: usize)
    ensures
        r == cursor_down_of(cursor, len),
{
    match cursor {
        None => 0,
        Some(c) => {
            let last = if len == 0 { 0 } else { len - 1 };
            if c < last { c + 1 } else { last }
        },
    }
}

/// Moves the cursor one row up.
pub fn cursor_up(cursor: Option<usize>) -> (r: usize)
    ensures
        r == cursor_up_of(cursor),
{
    match cursor {
        None => 0,
        Some(c) => if c == 0 { 0 } else { c - 1 },
    }
}

/// Down then up comes back to a row that was not the last one, and the cursor
/// never leaves the rows.
pub proof fn lemma_cursor_round_trip(c: usize, len: usize)
    requires
        c + 1 < len,
    ensures
        cursor_up_of(Some(cursor_down_of(Some(c), len))) == c,
        cursor_down_of(Some(c), len) < len,
        cursor_up_of(Some(c)) <= c,
{
}

// ── Input ────────────────────────────────────────────────────────────────────

/// What the input method reported this frame.
pub enum ImeSignal {
    /// Text being composed; empty once composition ends.
    Preedit(String),
    /// Composed text was committed.
    Commit,
    /// The input method was switched off.
    Disabled,
    /// Anything else.
    Other,
}

/// Whether text is being composed after the signals, starting from `composing`.
pub open spec fn composing_after(composing: bool, signals: Seq<ImeSignal>) -> bool
    decreases signals.len(),
{
    if signals.len() == 0 {
        composing
    } else {
        let before = composing_after(composing, signals.drop_last());
        match signals.last() {
            ImeSignal::Preedit(text) => text@.len() > 0,
            ImeSignal::Commit => false,
            ImeSignal::Disabled => false,
            ImeSignal::Other => before,
        }
    }
}

/// Some signal commits composed text.
pub open spec fn commits(signals: Seq<ImeSignal>) -> bool {
    exists|k: int| 0 <= k < signals.len() && #[trigger] signals[k] is Commit
}

/// The keys pressed this frame.
#[derive(Clone, Copy, Debug, PartialEq, Eq, Structural)]
pub struct KeyPresses {
    pub escape: bool,
    pub enter: bool,
    pub left: bool,
    pub right: bool,
    pub up: bool,
    pub down: bool,
}

/// What the frame's input asks of the host side.
#[derive(Clone, Copy, Debug, PartialEq, Eq, Structural)]
pub struct InputOutcome {
    /// Hide the panel.
    pub should_hide: bool,
    /// Add the effect under the cursor.
    pub enter: bool,
}

// ── The panel ────────────────────────────────────────────────────────────────

/// The state of the search panel between frames.
pub struct SearchPanel {
    pub search_query: String,
    pub selected_category: EffectCategory,
    pub effects: Vec<EffectEntry>,
    /// Indices into `effects` of the rows shown, best first.
    pub filtered_indices: Vec<usize>,
    pub keyboard_cursor: Option<usize>,
    pub scroll_to_cursor: bool,
    pub use_counts: UseCounts,
    pub language: Language,
    /// The rows must be ranked again before they are shown.
    pub dirty_filter: bool,
    pub focus_search: bool,
    pub is_composing: bool,
    pub show_settings: bool,
    pub settings_status: String,
}

/// The rows the panel shows for its query, tab, effects and counts.
pub open spec fn shows_ranking(p: SearchPanel) -> bool {
    is_ranking(
        p.filtered_indices@,
        p.effects@,
        p.use_counts@,
        p.selected_category,
        query_words(lowercase(p.search_query@)),
    )
}

impl SearchPanel {
    /// A panel for `effects`, with an empty query on the `All` tab, the rows
    /// ranked (every effect listed) and the search box focused.
    pub fn new(effects: Vec<EffectEntry>, use_counts: UseCounts, language: Language, show_settings: bool) -> (p: SearchPanel)
        ensures
            p.search_query@ == Seq::<char>::empty(),
            p.selected_category == EffectCategory::All,
            p.effects@ == effects@,
            p.use_counts@ == use_counts@,
            p.language == language,
            p.show_settings == show_settings,
            shows_ranking(p),
            forall|i: usize| i < effects@.len() ==> #[trigger] p.filtered_indices@.contains(i),
            forall|k: int| 0 <= k < p.filtered_indices@.len() ==> p.filtered_indices@[k] < effects@.len(),
            p.keyboard_cursor == (if p.filtered_indices@.len() == 0 { None } else { Some(0usize) }),
            p.scroll_to_cursor,
            !p.dirty_filter,
            p.focus_search,
            !p.is_composing,
            p.settings_status@ == Seq::<char>::empty(),
    {
        let mut p = SearchPanel {
            search_query: String::new(),
            selected_category: EffectCategory::All,
            effects,
            filtered_indices: Vec::new(),
            keyboard_cursor: None,
            scroll_to_cursor: false,
            use_counts,
            language,
            dirty_filter: true,
            focus_search: true,
            is_composing: false,
            show_settings,
            settings_status: String::new(),
        };
        p.rebuild_filter();
        proof {
            assert(is_ascii_text(p.search_query@));
            lemma_blank_query_lists_tab(
                p.filtered_indices@,
                p.effects@,
                p.use_counts@,
                p.selected_category,
                p.search_query@,
            );
        }
        p
    }

    /// Ranks the rows again for the current query, tab, effects and counts,
    /// puts the cursor on the first row (none when there are no rows) and
    /// asks for it to be scrolled into view.
    pub fn rebuild_filter(&mut self)
        ensures
            shows_ranking(*final(self)),
            is_ascii_text(final(self).search_query@) ==> is_ranking(
                final(self).filtered_indices@,
                final(self).effects@,
                final(self).use_counts@,
                final(self).selected_category,
                query_words(ascii_lower(final(self).search_query@)),
            ),
            forall|a: Seq<char>, b: Seq<char>|
                #![trigger lowercase(a), lowercase(b)]
                final(self).search_query@ == a + seq![' '] + b ==> is_ranking(
                    final(self).filtered_indices@,
                    final(self).effects@,
                    final(self).use_counts@,
                    final(self).selected_category,
                    query_words(lowercase(a)) + query_words(lowercase(b)),
                ),
            (forall|i: int|
                0 <= i < final(self).search_query@.len() ==> is_white_space(
                    #[trigger] final(self).search_query@[i],
                )) ==> is_ranking(
                final(self).filtered_indices@,
                final(self).effects@,
                final(self).use_counts@,
                final(self).selected_category,
                query_words(final(self).search_query@),
            ),
            final(self).keyboard_cursor == (if final(self).filtered_indices@.len() == 0 {
                None
            } else {
                Some(0usize)
            }),
            !final(self).dirty_filter,
            final(self).scroll_to_cursor,
            final(self).search_query == old(self).search_query,
            final(self).selected_category == old(self).selected_category,
            final(self).effects == old(self).effects,
            final(self).use_counts == old(self).use_counts,
            final(self).language == old(self).language,
            final(self).focus_search == old(self).focus_search,
            final(self).is_composing == old(self).is_composing,
            final(self).show_settings == old(self).show_settings,
            final(self).settings_status == old(self).settings_status,
    {
        let indices = rank_effects(
            &self.effects,
            &self.use_counts,
            self.selected_category,
            self.search_query.as_str(),
        );
        self.filtered_indices = indices;
        self.keyboard_cursor = if self.filtered_indices.len() == 0 {
            None
        } else {
            Some(0)
        };
        self.dirty_filter = false;
        self.scroll_to_cursor = true;
    }

    /// Takes this frame's requests from the menu: new effects to list, a
    /// wish for the search box to get focus, a wish to open the settings.
    pub fn apply_requests(&mut self, refreshed: Option<Vec<EffectEntry>>, focus: bool, settings: bool)
        ensures
            match refreshed {
                Some(v) => final(self).effects@ == v@ && final(self).dirty_filter,
                None => final(self).effects == old(self).effects && final(self).dirty_filter == old(self).dirty_filter,
            },
            final(self).focus_search == (old(self).focus_search || focus),
            final(self).show_settings == (old(self).show_settings || settings),
            settings ==> final(self).settings_status@ == Seq::<char>::empty(),
            !settings ==> final(self).settings_status == old(self).settings_status,
            final(self).search_query == old(self).search_query,
            final(self).selected_category == old(self).selected_category,
            final(self).filtered_indices == old(self).filtered_indices,
            final(self).keyboard_cursor == old(self).keyboard_cursor,
            final(self).scroll_to_cursor == old(self).scroll_to_cursor,
            final(self).use_counts == old(self).use_counts,
            final(self).language == old(self).language,
            final(self).is_composing == old(self).is_composing,
    {
        match refreshed {
            Some(v) => {
                self.effects = v;
                self.dirty_filter = true;
            },
            None => {},
        }
        if focus {
            self.focus_search = true;
        }
        if settings {
            self.show_settings = true;
            self.settings_status = String::new();
        }
    }

    /// Handles this frame's input-method signals and keys. The signals update
    /// whether text is being composed; Escape asks to hide the panel. While
    /// composing, nothing else happens. Otherwise Enter asks to add the effect
    /// under the cursor (unless it only committed composed text this frame),
    /// the right and left arrows move to the next and previous tab, and the
    /// down and up arrows move the cursor, which is then scrolled into view.
    pub fn handle_input(&mut self, signals: &Vec<ImeSignal>, keys: KeyPresses) -> (r: InputOutcome)
        ensures
            final(self).is_composing == composing_after(old(self).is_composing, signals@),
            r.should_hide == keys.escape,
            r.enter == (!final(self).is_composing && keys.enter && !commits(signals@)),
            (exists|k: int| 0 <= k < signals@.len() && #[trigger] signals@[k] is Commit) ==> !r.enter,
            ({
                let after_right = if keys.right {
                    CATEGORIES@[(category_position(old(self).selected_category) + 1) % 4]
                } else {
                    old(self).selected_category
                };
                let after_left = if keys.left {
                    CATEGORIES@[(category_position(after_right) + 3) % 4]
                } else {
                    after_right
                };
                final(self).selected_category == if final(self).is_composing {
                    old(self).selected_category
                } else {
                    after_left
                }
            }),
            final(self).dirty_filter == (old(self).dirty_filter || (!final(self).is_composing && (
            keys.right || keys.left))),
            ({
                let after_down = if keys.down {
                    Some(cursor_down_of(old(self).keyboard_cursor, old(self).filtered_indices@.len() as usize))
                } else {
                    old(self).keyboard_cursor
                };
                let after_up = if keys.up {
                    Some(cursor_up_of(after_down))
                } else {
                    after_down
                };
                &&& final(self).keyboard_cursor == if final(self).is_composing {
                    old(self).keyboard_cursor
                } else {
                    after_up
                }
                &&& final(self).scroll_to_cursor == (old(self).scroll_to_cursor || (!final(self).is_composing && after_up != old(self).keyboard_cursor))
            }),
            final(self).search_query == old(self).search_query,
            final(self).effects == old(self).effects,
            final(self).filtered_indices == old(self).filtered_indices,
            final(self).use_counts == old(self).use_counts,
            final(self).language == old(self).language,
            final(self).focus_search == old(self).focus_search,
            final(self).show_settings == old(self).show_settings,
            final(self).settings_status == old(self).settings_status,
    {
        let mut committed = false;
        let mut k: usize = 0;
        while k < signals.len()
            invariant
                k <= signals@.len(),
                self.is_composing == composing_after(old(self).is_composing, signals@.take(k as int)),
                committed == commits(signals@.take(k as int)),
                self.search_query == old(self).search_query,
                self.selected_category == old(self).selected_category,
                self.effects == old(self).effects,
                self.filtered_indices == old(self).filtered_indices,
                self.keyboard_cursor == old(self).keyboard_cursor,
                self.scroll_to_cursor == old(self).scroll_to_cursor,
                self.use_counts == old(self).use_counts,
                self.language == old(self).language,
                self.dirty_filter == old(self).dirty_filter,
                self.focus_search == old(self).focus_search,
                self.show_settings == old(self).show_settings,
                self.settings_status == old(self).settings_status,
            decreases signals@.len() - k,
        {
            let ghost prefix = signals@.take(k as int);
            let ghost next = signals@.take(k + 1);
            assert(next.drop_last() =~= prefix);
            assert(next.last() == signals@[k as int]);
            match &signals[k] {
                ImeSignal::Preedit(text) => {
                    self.is_composing = !text.as_str().is_empty();
                },
                ImeSignal::Commit => {
                    self.is_composing = false;
                    committed = true;
                    assert(next[k as int] is Commit);
                },
                ImeSignal::Disabled => {
                    self.is_composing = false;
                },
                ImeSignal::Other => {},
            }
            proof {
                if commits(next) && !(signals@[k as int] is Commit) {
                    let j = choose|j: int| 0 <= j < next.len() && #[trigger] next[j] is Commit;
                    assert(prefix[j] == next[j]);
                }
                if commits(prefix) {
                    let j = choose|j: int| 0 <= j < prefix.len() && #[trigger] prefix[j] is Commit;
                    assert(next[j] == prefix[j]);
                }
            }
            k += 1;
        }
        assert(signals@.take(k as int) =~= signals@);
        let mut enter = false;
        if !self.is_composing {
            if keys.enter && !committed {
                enter = true;
            }
            if keys.right {
                self.selected_category = self.selected_category.next();
                self.dirty_filter = true;
            }
            if keys.left {
                self.selected_category = self.selected_category.previous();
                self.dirty_filter = true;
            }
            let old_cursor = self.keyboard_cursor;
            if keys.down {
                self.keyboard_cursor = Some(cursor_down(self.keyboard_cursor, self.filtered_indices.len()));
            }
            if keys.up {
                self.keyboard_cursor = Some(cursor_up(self.keyboard_cursor));
            }
            if self.keyboard_cursor != old_cursor {
                self.scroll_to_cursor = true;
            }
        }
        InputOutcome { should_hide: keys.escape, enter }
    }

    /// The effect under the cursor: its index in `effects`, if the cursor
    /// stands on a row.
    pub fn selected_effect(&self) -> (r: Option<usize>)
        ensures
            r == match self.keyboard_cursor {
                Some(c) => if c < self.filtered_indices@.len() {
                    Some(self.filtered_indices@[c as int])
                } else {
                    None
                },
                None => None,
            },
    {
        match self.keyboard_cursor {
            Some(c) => if c < self.filtered_indices.len() {
                Some(self.filtered_indices[c])
            } else {
                None
            },
            None => None,
        }
    }

    /// Counts one more use of effect `index` and asks for the rows to be
    /// ranked again; gives the effect's name and category for the host.
    pub fn execute_add(&mut self, index: usize) -> (r: (String, EffectCategory))
        requires
            index < old(self).effects@.len(),
            count_of(old(self).use_counts@, old(self).effects@[index as int].name@) < u32::MAX,
        ensures
            r.0@ == old(self).effects@[index as int].name@,
            r.1 == old(self).effects@[index as int].category,
            final(self).use_counts@ == old(self).use_counts@.insert(
                r.0@,
                (count_of(old(self).use_counts@, r.0@) + 1) as u32,
            ),
            final(self).dirty_filter,
            final(self).search_query == old(self).search_query,
            final(self).selected_category == old(self).selected_category,
            final(self).effects == old(self).effects,
            final(self).filtered_indices == old(self).filtered_indices,
            final(self).keyboard_cursor == old(self).keyboard_cursor,
            final(self).scroll_to_cursor == old(self).scroll_to_cursor,
            final(self).language == old(self).language,
            final(self).focus_search == old(self).focus_search,
            final(self).is_composing == old(self).is_composing,
            final(self).show_settings == old(self).show_settings,
            final(self).settings_status == old(self).settings_status,
    {
        let name = self.effects[index].name.clone();
        let category = self.effects[index].category;
        self.use_counts.record_use(&name);
        self.dirty_filter = true;
        (name, category)
    }

    /// Hides the panel: the query is emptied, the cursor removed and the
    /// settings page closed.
    pub fn dismiss(&mut self)
        ensures
            final(self).search_query@ == Seq::<char>::empty(),
            final(self).keyboard_cursor is None,
            !final(self).show_settings,
            final(self).selected_category == old(self).selected_category,
            final(self).effects == old(self).effects,
            final(self).filtered_indices == old(self).filtered_indices,
            final(self).scroll_to_cursor == old(self).scroll_to_cursor,
            final(self).use_counts == old(self).use_counts,
            final(self).language == old(self).language,
            final(self).dirty_filter == old(self).dirty_filter,
            final(self).focus_search == old(self).focus_search,
            final(self).is_composing == old(self).is_composing,
            final(self).settings_status == old(self).settings_status,
    {
        self.search_query = String::new();
        self.keyboard_cursor = None;
        self.show_settings = false;
    }

    /// A tab was clicked.
    pub fn select_category(&mut self, category: EffectCategory)
        ensures
            final(self).selected_category == category,
            final(self).dirty_filter,
            final(self).search_query == old(self).search_query,
            final(self).effects == old(self).effects,
            final(self).filtered_indices == old(self).filtered_indices,
            final(self).keyboard_cursor == old(self).keyboard_cursor,
            final(self).scroll_to_cursor == old(self).scroll_to_cursor,
            final(self).use_counts == old(self).use_counts,
            final(self).language == old(self).language,
            final(self).focus_search == old(self).focus_search,
            final(self).is_composing == old(self).is_composing,
            final(self).show_settings == old(self).show_settings,
            final(self).settings_status == old(self).settings_status,
    {
        self.selected_category = category;
        self.dirty_filter = true;
    }

    /// Forgets every use count, says so, and asks for the rows to be ranked again.
    pub fn reset_use_counts(&mut self)
        ensures
            final(self).use_counts@ == Map::<Seq<char>, u32>::empty(),
            final(self).settings_status@ == text_of(old(self).language, TextKey::UseCountsReset),
            final(self).dirty_filter,
            final(self).search_query == old(self).search_query,
            final(self).selected_category == old(self).selected_category,
            final(self).effects == old(self).effects,
            final(self).filtered_indices == old(self).filtered_indices,
            final(self).keyboard_cursor == old(self).keyboard_cursor,
            final(self).scroll_to_cursor == old(self).scroll_to_cursor,
            final(self).language == old(self).language,
            final(self).focus_search == old(self).focus_search,
            final(self).is_composing == old(self).is_composing,
            final(self).show_settings == old(self).show_settings,
    {
        self.use_counts.clear();
        self.settings_status = String::from_str(tr(self.language, TextKey::UseCountsReset));
        self.dirty_filter = true;
    }

    /// Says that the window size was reset.
    pub fn note_window_size_reset(&mut self)
        ensures
            final(self).settings_status@ == text_of(old(self).language, TextKey::WindowSizeReset),
            final(self).search_query == old(self).search_query,
            final(self).selected_category == old(self).selected_category,
            final(self).effects == old(self).effects,
            final(self).filtered_indices == old(self).filtered_indices,
            final(self).keyboard_cursor == old(self).keyboard_cursor,
            final(self).scroll_to_cursor == old(self).scroll_to_cursor,
            final(self).use_counts == old(self).use_counts,
            final(self).language == old(self).language,
            final(self).dirty_filter == old(self).dirty_filter,
            final(self).focus_search == old(self).focus_search,
            final(self).is_composing == old(self).is_composing,
            final(self).show_settings == old(self).show_settings,
    {
        self.settings_status = String::from_str(tr(self.language, TextKey::WindowSizeReset));
    }

    /// Leaves the settings page for the search, focusing the search box.
    pub fn back_to_search(&mut self)
        ensures
            !final(self).show_settings,
            final(self).focus_search,
            final(self).search_query == old(self).search_query,
            final(self).selected_category == old(self).selected_category,
            final(self).effects == old(self).effects,
            final(self).filtered_indices == old(self).filtered_indices,
            final(self).keyboard_cursor == old(self).keyboard_cursor,
            final(self).scroll_to_cursor == old(self).scroll_to_cursor,
            final(self).use_counts == old(self).use_counts,
            final(self).language == old(self).language,
            final(self).dirty_filter == old(self).dirty_filter,
            final(self).is_composing == old(self).is_composing,
            final(self).settings_status == old(self).settings_status,
    {
        self.show_settings = false;
        self.focus_search = true;
    }

    /// Chooses the language; when it changes, the status line is cleared and
    /// `true` says that the settings should be saved.
    pub fn set_language(&mut self, language: Language) -> (changed: bool)
        ensures
            changed == (language != old(self).language),
            final(self).language == language,
            changed ==> final(self).settings_status@ == Seq::<char>::empty(),
            !changed ==> final(self).settings_status == old(self).settings_status,
            final(self).search_query == old(self).search_query,
            final(self).selected_category == old(self).selected_category,
            final(self).effects == old(self).effects,
            final(self).filtered_indices == old(self).filtered_indices,
            final(self).keyboard_cursor == old(self).keyboard_cursor,
            final(self).scroll_to_cursor == old(self).scroll_to_cursor,
            final(self).use_counts == old(self).use_counts,
            final(self).dirty_filter == old(self).dirty_filter,
            final(self).focus_search == old(self).focus_search,
            final(self).is_composing == old(self).is_composing,
            final(self).show_settings == old(self).show_settings,
    {
        if language != self.language {
            self.language = language;
            self.settings_status = String::new();
            true
        } else {
            false
        }
    }
}


/// A frame in which any signal commits composed text, wherever it stands
/// among the frame's signals, counts as committing: its Enter adds nothing.
pub proof fn lemma_any_commit_counts(signals: Seq<ImeSignal>, k: int)
    requires
        0 <= k < signals.len(),
        signals[k] is Commit,
    ensures
        commits(signals),
        commits(signals + seq![ImeSignal::Disabled, ImeSignal::Other]),
{
    let t = signals + seq![ImeSignal::Disabled, ImeSignal::Other];
    assert(t[k] == signals[k]);
}

} // verus!
