//! The find bar's small decisions: which field a history row belongs to, how a row's action
//! target is spelled and read back, what the option toggles and the engine are told, when
//! search-in-selection is available, the app-wide split arrangement, and what a session
//! records of a window.

use vstd::prelude::*;
use crate::unicode::{chars_of, string_from_chars};
use crate::history::{record_spec, row_label, row_label_spec, FindHistory};
use crate::matcher::{editor_pattern, editor_pattern_spec, engine_applies_word_boundaries};
use crate::options::{action_names, Accessor, FindOptions};
use crate::readout::{FindCursor, FindTarget, Readout};
use crate::scope::{FindScope, PreviewScope, RenderKey};

verus! {

broadcast use vstd::string::group_string_axioms;

/// Which field a history belongs to. One `win.` action serves both drop-downs, so a row's
/// target carries the field as a one-character prefix on the entry — at a fixed position,
/// since the entry itself may contain anything.
#[derive(Clone, Copy, PartialEq, Eq, Debug, Structural)]
pub enum HistoryField {
    Find,
    Replace,
}

impl HistoryField {
    /// The field's marker character.
    pub open spec fn marker_spec(self) -> char {
        match self {
            HistoryField::Find => 'f',
            HistoryField::Replace => 'r',
        }
    }

    /// This field's marker character — only ever the first character of a target.
    pub fn marker(self) -> (c: char)
        ensures
            c == self.marker_spec(),
    {
        match self {
            HistoryField::Find => 'f',
            HistoryField::Replace => 'r',
        }
    }

    /// The action target for `entry` in this field: the marker, then the entry verbatim.
    pub fn target(self, entry: &str) -> (t: String)
        ensures
            t@ == seq![self.marker_spec()] + entry@,
    {
        let chars = chars_of(entry);
        let mut out: Vec<char> = Vec::new();
        out.push(self.marker());
        let mut i: usize = 0;
        while i < chars.len()
            invariant
                chars@ == entry@,
                i <= chars@.len(),
                out@ == seq![self.marker_spec()] + entry@.take(i as int),
            decreases chars@.len() - i,
        {
            proof {
                assert(entry@.take(i as int + 1) =~= entry@.take(i as int).push(entry@[i as int]));
                assert(seq![self.marker_spec()] + entry@.take(i as int + 1)
                    =~= (seq![self.marker_spec()] + entry@.take(i as int)).push(entry@[i as int]));
            }
            out.push(chars[i]);
            i += 1;
        }
        proof {
            assert(entry@.take(i as int) =~= entry@);
        }
        string_from_chars(out.as_slice())
    }

    /// Read a target back: the field its marker names and the entry after it, or `None`
    /// for a target this application did not write.
    pub fn split_target(target: &str) -> (r: Option<(HistoryField, String)>)
        ensures
            target@.len() > 0 && target@[0] == 'f' ==> (r matches Some((f, e)) && f == HistoryField::Find && e@ == target@.drop_first()),
            target@.len() > 0 && target@[0] == 'r' ==> (r matches Some((f, e)) && f == HistoryField::Replace && e@ == target@.drop_first()),
            target@.len() == 0 || (target@[0] != 'f' && target@[0] != 'r') ==> r is None,
    {
        let chars = chars_of(target);
        if chars.len() == 0 {
            return None;
        }
        let field = if chars[0] == 'f' {
            HistoryField::Find
        } else if chars[0] == 'r' {
            HistoryField::Replace
        } else {
            return None;
        };
        let mut rest: Vec<char> = Vec::new();
        let mut i: usize = 1;
        while i < chars.len()
            invariant
                chars@ == target@,
                1 <= i <= chars@.len(),
                rest@ == target@.subrange(1, i as int),
            decreases chars@.len() - i,
        {
            proof {
                assert(target@.subrange(1, i as int + 1) =~= target@.subrange(1, i as int).push(target@[i as int]));
            }
            rest.push(chars[i]);
            i += 1;
        }
        proof {
            assert(target@.subrange(1, i as int) =~= target@.drop_first());
        }
        Some((field, string_from_chars(rest.as_slice())))
    }
}

/// A tab's two field histories.
pub struct FindHistories {
    pub find: FindHistory,
    pub replace: FindHistory,
}

/// Whether each history drop-down is usable: one with nothing to offer is insensitive.
#[derive(Clone, Copy, PartialEq, Eq, Debug, Structural)]
pub struct HistoryButtons {
    pub find: bool,
    pub replace: bool,
}

impl FindHistories {
    /// The drop-downs' sensitivity for these histories.
    pub open spec fn buttons_spec(&self) -> HistoryButtons {
        HistoryButtons { find: self.find@.len() > 0, replace: self.replace@.len() > 0 }
    }

    /// A drop-down with nothing to offer is insensitive; re-derived wherever a history
    /// changes or another tab's becomes the active one.
    pub fn sync_history_buttons(&self) -> (b: HistoryButtons)
        ensures
            b == self.buttons_spec(),
    {
        HistoryButtons { find: !self.find.is_empty(), replace: !self.replace.is_empty() }
    }

    /// Record the find field's text as a committed search term — committed, not typed: the
    /// field searches as the reader types, and a history fed per keystroke would hold every
    /// prefix of one query.
    pub fn record_committed_query(&mut self, text: &str) -> (b: HistoryButtons)
        ensures
            final(self).find@ == record_spec(old(self).find@, text@),
            final(self).replace == old(self).replace,
            b == final(self).buttons_spec(),
    {
        self.find.record(text);
        self.sync_history_buttons()
    }

    /// Record the replacement field's text, at the two points a replacement is applied.
    pub fn record_committed_replacement(&mut self, text: &str) -> (b: HistoryButtons)
        ensures
            final(self).replace@ == record_spec(old(self).replace@, text@),
            final(self).find == old(self).find,
            b == final(self).buttons_spec(),
    {
        self.replace.record(text);
        self.sync_history_buttons()
    }
}

impl HistoryField {
    /// This field's history among a tab's two, as a value.
    pub open spec fn history_spec(self, histories: &FindHistories) -> FindHistory {
        match self {
            HistoryField::Find => histories.find,
            HistoryField::Replace => histories.replace,
        }
    }

    /// This field's history among a tab's two.
    pub fn history(self, histories: &FindHistories) -> (r: &FindHistory)
        ensures
            *r == self.history_spec(histories),
    {
        match self {
            HistoryField::Find => &histories.find,
            HistoryField::Replace => &histories.replace,
        }
    }
}

/// The drop-down's rows for `field`'s history, most recent first: each row's label is the
/// entry shortened and made single-line ([`row_label`]), while its action target carries
/// the entry verbatim behind the field's marker, so choosing a shortened row still
/// searches for the whole entry.
pub fn build_history_menu(histories: &FindHistories, field: HistoryField) -> (rows: Vec<(String, String)>)
    ensures
        rows@.len() == field.history_spec(histories)@.len(),
        forall|k: int| 0 <= k < rows@.len() ==> {
            &&& (#[trigger] rows@[k]).0@ == row_label_spec(field.history_spec(histories)@[k])
            &&& rows@[k].1@ == seq![field.marker_spec()] + field.history_spec(histories)@[k]
        },
{
    let entries = field.history(histories).entries();
    let mut rows: Vec<(String, String)> = Vec::new();
    let mut i: usize = 0;
    while i < entries.len()
        invariant
            crate::history::views(entries@) == field.history_spec(histories)@,
            i <= entries@.len(),
            rows@.len() == i,
            forall|k: int| 0 <= k < i ==> {
                &&& (#[trigger] rows@[k]).0@ == row_label_spec(field.history_spec(histories)@[k])
                &&& rows@[k].1@ == seq![field.marker_spec()] + field.history_spec(histories)@[k]
            },
        decreases entries@.len() - i,
    {
        let entry = entries[i].as_str();
        proof {
            assert(crate::history::views(entries@)[i as int] == entries@[i as int]@);
        }
        rows.push((row_label(entry), field.target(entry)));
        i += 1;
    }
    rows
}

/// What the editor's search engine is told for a set of options. It implements case and
/// regular expressions natively; whole word it is told only for a literal, because its own
/// wrapper for a regular expression is ungrouped and the query is wrapped here instead.
#[derive(Clone, Copy, PartialEq, Eq, Debug, Structural)]
pub struct EngineSettings {
    pub case_sensitive: bool,
    pub at_word_boundaries: bool,
    pub regex_enabled: bool,
}

/// The engine settings for a tab's options — owed whenever a tab becomes active, with the
/// find bar open or not, so the engine already asks this tab's question when it next opens.
pub fn push_options_to_engine(options: FindOptions) -> (e: EngineSettings)
    ensures
        e == push_options_to_engine_spec(options),
{
    EngineSettings {
        case_sensitive: options.case_sensitive,
        at_word_boundaries: engine_applies_word_boundaries(options),
        regex_enabled: options.regex,
    }
}

/// Which pane reports the count after a search is re-run.
#[derive(Clone, Debug, PartialEq, Eq)]
pub enum Recount {
    /// The preview's search is re-run from scratch (see `resync_preview_find`).
    Preview,
    /// The editor engine's own count is read afresh, with no current match (see
    /// `update_editor_readout`, given a current match of 0).
    Editor,
    /// In preview mode with no preview to search: this readout — never the hidden editor's
    /// count, which describes a buffer the reader cannot see.
    Nowhere(Readout),
}

/// The recount for a find target.
pub open spec fn recount_spec(target: FindTarget<()>) -> Recount {
    match target {
        FindTarget::Preview(_) => Recount::Preview,
        FindTarget::Editor => Recount::Editor,
        FindTarget::PreviewUnresolved => Recount::Nowhere(Readout::Count { current: 0, total: 0 }),
    }
}

/// What re-running a tab's search under its current query and options sets up: the
/// engine's settings, the text it searches for (none for an empty query), whether the
/// counter is shown at all, a step cursor that starts again from the top — it indexed a
/// list that has just been replaced — and which pane then reports the count.
pub struct FindRefresh {
    pub settings: EngineSettings,
    pub search_text: Option<String>,
    pub label_visible: bool,
    pub cursor: FindCursor,
    pub recount: Recount,
}

/// Whether `r` is the refresh of the search for `text` under `options` on `target`.
pub open spec fn is_refresh_of(r: FindRefresh, text: Seq<char>, options: FindOptions, target: FindTarget<()>) -> bool {
    &&& r.settings == push_options_to_engine_spec(options)
    &&& text.len() == 0 ==> r.search_text is None
    &&& text.len() > 0 ==> (r.search_text matches Some(p) && p@ == editor_pattern_spec(text, options))
    &&& r.label_visible == (text.len() > 0)
    &&& r.cursor == FindCursor::NoMatch
    &&& r.recount == recount_spec(target)
}

/// Re-run the search for `text` under `options` on the pane `target` names. Typing and
/// ticking an option are the same event, so both come here, and the engine is always handed
/// the options with the query — even in pure-preview mode, so a later switch finds it
/// asking this question.
pub fn refresh_find(text: &str, options: FindOptions, target: FindTarget<()>) -> (r: FindRefresh)
    ensures
        is_refresh_of(r, text@, options, target),
{
    let settings = push_options_to_engine(options);
    let pattern = editor_pattern(text, options);
    let search_text = if pattern.as_str().is_empty() { None } else { Some(pattern) };
    let recount = match target {
        FindTarget::Preview(_) => Recount::Preview,
        FindTarget::Editor => Recount::Editor,
        FindTarget::PreviewUnresolved => Recount::Nowhere(Readout::Count { current: 0, total: 0 }),
    };
    FindRefresh { settings, search_text, label_visible: !text.is_empty(), cursor: FindCursor::NoMatch, recount }
}

/// The engine settings for `options`, as a value.
pub open spec fn push_options_to_engine_spec(options: FindOptions) -> EngineSettings {
    EngineSettings {
        case_sensitive: options.case_sensitive,
        at_word_boundaries: options.whole_word && !options.regex,
        regex_enabled: options.regex,
    }
}

/// Point the window's option toggles at the newly active tab's own options, and its
/// in-selection toggle at whether that tab has a passage captured: the state of each
/// `win.` action, in table order, then search in selection.
pub fn adopt_find_options(options: FindOptions, scope_captured: bool) -> (states: Vec<(&'static str, bool)>)
    ensures
        states@.len() == 4,
        states@[0].0@ == action_names()[0] && states@[0].1 == options.case_sensitive,
        states@[1].0@ == action_names()[1] && states@[1].1 == options.whole_word,
        states@[2].0@ == action_names()[2] && states@[2].1 == options.regex,
        states@[3].0@ == FIND_IN_SELECTION@ && states@[3].1 == scope_captured,
{
    let table = FindOptions::actions();
    let mut states: Vec<(&'static str, bool)> = Vec::new();
    let mut i: usize = 0;
    while i < 3
        invariant
            i <= 3,
            states@.len() == i,
            table@[0].0@ == action_names()[0] && table@[0].1 == Accessor::CaseSensitive,
            table@[1].0@ == action_names()[1] && table@[1].1 == Accessor::WholeWord,
            table@[2].0@ == action_names()[2] && table@[2].1 == Accessor::Regex,
            forall|k: int| 0 <= k < i ==> states@[k].0 == table@[k].0 && states@[k].1 == table@[k].1.field(options),
        decreases 3 - i,
    {
        let (name, accessor) = table[i];
        states.push((name, accessor.get(&options)));
        i += 1;
    }
    states.push((FIND_IN_SELECTION, scope_captured));
    states
}

/// Capture the passage the reader has selected in the pane the find target names:
/// `selection` is that pane's selection, and `RenderKey` the render the preview shows. An
/// unresolved preview, or no selection, captures nothing.
pub fn capture_find_scope(target: FindTarget<RenderKey>, selection: Option<(i32, i32)>) -> (r: Option<FindScope>)
    ensures
        r == match (target, selection) {
            (FindTarget::Editor, Some((start, end))) => Some(FindScope::Editor { start, end }),
            (FindTarget::Preview(key), Some((start, end))) => Some(FindScope::Preview(PreviewScope { key, start, end })),
            _ => None,
        },
{
    match (target, selection) {
        (FindTarget::Editor, Some((start, end))) => Some(FindScope::Editor { start, end }),
        (FindTarget::Preview(key), Some((start, end))) => Some(FindScope::Preview(PreviewScope { key, start, end })),
        _ => None,
    }
}

/// What releasing the captured passage leaves the in-selection control in.
#[derive(Clone, Copy, PartialEq, Eq, Debug, Structural)]
pub struct ScopeRelease {
    /// The toggle reads off.
    pub toggle_on: bool,
    /// Its state is set without running its handler: the caller is the search that found
    /// the passage no longer resolves, and re-running it would re-enter that search.
    pub rerun_search: bool,
    /// Whether the control stays usable: with nothing captured, exactly when the pane the
    /// find target names has a selection to capture.
    pub enabled: bool,
}

/// Drop the captured passage, from a path that found it no longer resolves: the scope is
/// gone, the toggle reads off without a re-search, and the control's availability is
/// re-derived from the target's selection alone.
pub fn release_find_scope(scope: &mut Option<FindScope>, target: FindTarget<bool>, editor_has_selection: bool) -> (r: ScopeRelease)
    ensures
        *final(scope) is None,
        r == (ScopeRelease {
            toggle_on: false,
            rerun_search: false,
            enabled: selectable_spec(target, editor_has_selection),
        }),
{
    *scope = None;
    let enabled = update_find_scope_sensitivity(scope.is_some(), target, editor_has_selection);
    ScopeRelease { toggle_on: false, rerun_search: false, enabled }
}

/// Whether the pane the find target names has a selection to capture.
pub open spec fn selectable_spec(target: FindTarget<bool>, editor_has_selection: bool) -> bool {
    match target {
        FindTarget::Editor => editor_has_selection,
        FindTarget::Preview(has) => has,
        FindTarget::PreviewUnresolved => false,
    }
}

/// What the in-selection control says while it is unavailable.
pub const SCOPE_HINT: &'static str = "Select a passage to confine the search to it.";

/// Whether the in-selection control is usable: a passage is captured (so the reader can let
/// it go), or the pane the find target names has a selection to capture
/// (`editor_has_selection` for the editor, the preview's own flag for the preview); never
/// for an unresolved preview. While unusable it carries [`SCOPE_HINT`].
pub fn update_find_scope_sensitivity(captured: bool, target: FindTarget<bool>, editor_has_selection: bool) -> (enabled: bool)
    ensures
        enabled == (captured || selectable_spec(target, editor_has_selection)),
{
    let selectable = match target {
        FindTarget::Editor => editor_has_selection,
        FindTarget::Preview(has) => has,
        FindTarget::PreviewUnresolved => false,
    };
    captured || selectable
}

/// A boundary that rebuilt a pane — a re-render, a mode switch — re-runs the search for
/// whichever pane is now visible, exactly as a changed query would: the highlights it
/// derived are gone with the old buffer, and the readout still counts the pane just left.
/// Nothing happens while the bar is hidden or its query empty (`None`).
pub fn refresh_preview_find_highlight(bar_revealed: bool, query: &str, options: FindOptions, target: FindTarget<()>) -> (r: Option<FindRefresh>)
    ensures
        r is None <==> !(bar_revealed && query@.len() > 0),
        r matches Some(f) ==> is_refresh_of(f, query@, options, target),
{
    if bar_revealed && !query.is_empty() {
        Some(refresh_find(query, options, target))
    } else {
        None
    }
}

/// What the in-preview replace row says while it cannot be used.
pub const REPLACE_UNAVAILABLE_HINT: &'static str = "Replace is unavailable in preview mode.";

/// What opening the find bar (Find, or Find and Replace) shows.
#[derive(Clone, Copy, PartialEq, Eq, Debug, Structural)]
pub struct FindBarOpening {
    /// The replace row is shown for Find and Replace only.
    pub replace_row_visible: bool,
    /// Replacing acts on the editor, so the row is usable only while an editor pane is shown.
    pub replace_row_sensitive: bool,
    /// The row carries [`REPLACE_UNAVAILABLE_HINT`] when it is shown but unusable.
    pub replace_row_hint: bool,
    /// The counter is shown only when there is a query.
    pub label_visible: bool,
    /// Reopened over the preview with a query still in the field: the highlights the close
    /// removed are re-applied, since an unchanged query raises no search-changed.
    pub resync_preview: bool,
}

/// Open the find bar, in replace mode or not, over a window whose editor pane is or is not
/// shown and whose find target is or is not the preview.
pub fn open_find_bar(replace_mode: bool, editor_visible: bool, query: &str, target_is_preview: bool) -> (o: FindBarOpening)
    ensures
        o == (FindBarOpening {
            replace_row_visible: replace_mode,
            replace_row_sensitive: editor_visible,
            replace_row_hint: replace_mode && !editor_visible,
            label_visible: query@.len() > 0,
            resync_preview: target_is_preview && query@.len() > 0,
        }),
{
    let has_query = !query.is_empty();
    FindBarOpening {
        replace_row_visible: replace_mode,
        replace_row_sensitive: editor_visible,
        replace_row_hint: replace_mode && !editor_visible,
        label_visible: has_query,
        resync_preview: target_is_preview && has_query,
    }
}

/// Reading a target back gives the field and the entry it was written from.
pub proof fn lemma_target_round_trips(field: HistoryField, entry: Seq<char>)
    ensures
        (seq![field.marker_spec()] + entry).len() > 0,
        (seq![field.marker_spec()] + entry)[0] == field.marker_spec(),
        (seq![field.marker_spec()] + entry).drop_first() == entry,
{
    assert((seq![field.marker_spec()] + entry).drop_first() =~= entry);
}

/// The `win.` action a history row activates.
pub const PICK_HISTORY: &'static str = "pick-find-history";

/// The `win.` action carrying search in selection.
pub const FIND_IN_SELECTION: &'static str = "find-in-selection";

/// The two halves of the app-wide split arrangement.
#[derive(Clone, Copy, Debug, Default, PartialEq, Eq, Structural)]
pub struct SplitArrangement {
    /// Editor and preview panes exchanged.
    pub swapped: bool,
    /// Stacked top/bottom rather than side by side.
    pub vertical: bool,
}

/// The live app-wide arrangement, from the states of the two app actions; an action with
/// no state yet — an application that has built no window — reads as off.
pub fn current(swap: Option<bool>, orientation: Option<bool>) -> (a: SplitArrangement)
    ensures
        a.swapped == (swap == Some(true)),
        a.vertical == (orientation == Some(true)),
{
    SplitArrangement {
        swapped: match swap { Some(b) => b, None => false },
        vertical: match orientation { Some(b) => b, None => false },
    }
}

/// [`current`] for the application a window belongs to (`app` holds its two action
/// states); a window with no application has the default arrangement.
pub fn for_window(app: Option<(Option<bool>, Option<bool>)>) -> (a: SplitArrangement)
    ensures
        a == match app {
            Some((swap, orientation)) => SplitArrangement { swapped: swap == Some(true), vertical: orientation == Some(true) },
            None => SplitArrangement { swapped: false, vertical: false },
        },
{
    match app {
        Some((swap, orientation)) => current(swap, orientation),
        None => SplitArrangement { swapped: false, vertical: false },
    }
}

/// Register the two app actions once per application, seeded from the saved session.
/// Returns the values to seed them with, or `None` when they are already registered: the
/// session is read only while no live value exists, so a later window takes the live
/// arrangement rather than the persisted one.
pub fn ensure_registered(registered: bool, saved_swap: bool, saved_vertical: bool) -> (seed: Option<SplitArrangement>)
    ensures
        seed == if registered { None } else { Some(SplitArrangement { swapped: saved_swap, vertical: saved_vertical }) },
{
    if registered {
        return None;
    }
    Some(SplitArrangement { swapped: saved_swap, vertical: saved_vertical })
}

/// A window dimension for the session: the measured one, or the configured default when
/// the window has not been allocated yet.
pub fn window_extent(measured: i32, fallback: i32) -> (r: i32)
    ensures
        r == if measured > 0 { measured } else { fallback },
{
    if measured > 0 { measured } else { fallback }
}

/// Which of a window's tabs the session records as active: the position of the active tab,
/// or the first when it is not found.
pub fn active_tab_position(tabs: &[u64], active: Option<u64>) -> (r: usize)
    ensures
        active is Some && tabs@.contains(active->0) ==> r < tabs@.len() && tabs@[r as int] == active->0
            && forall|k: int| 0 <= k < r ==> tabs@[k] != active->0,
        active is Some && !tabs@.contains(active->0) ==> r == 0,
        active is None ==> r == 0,
{
    let Some(id) = active else { return 0 };
    let mut i: usize = 0;
    while i < tabs.len()
        invariant
            active == Some(id),
            i <= tabs@.len(),
            forall|k: int| 0 <= k < i ==> tabs@[k] != id,
        decreases tabs@.len() - i,
    {
        if tabs[i] == id {
            proof {
                assert(tabs@.contains(id));
            }
            return i;
        }
        i += 1;
    }
    proof {
        assert(!tabs@.contains(id));
    }
    0
}

} // verus!
