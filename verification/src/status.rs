//! The status bar's **counting machinery**: word counts leave the main thread, at most one
//! job at a time application-wide with one waiting, and a result is applied only if the
//! buffer generation it was computed from is still current — discard, never merge.
//!
//! Also the close-safety gate around a running export: a close that arrives mid-export
//! cancels the export and runs once it has stopped.

use vstd::prelude::*;
use crate::unicode::{byte_len, chars_of, lemma_byte_len_is_encoded_len, string_from_chars};

verus! {

broadcast use vstd::string::group_string_axioms;

/// A tab's identity.
pub type TabId = u64;

/// One counting request. Owned data only, so its payload can cross to a worker thread.
pub struct CountJob {
    pub tab: TabId,
    /// The buffer generation `source` was read at.
    pub generation: u64,
    /// The whole document, when its counts are stale.
    pub source: Option<String>,
}

/// The job that results from folding `newer` into the pending `older`: for another tab the
/// newer request wins; for the same tab a newer document replaces the pending one (with
/// its generation) and otherwise the pending document is kept.
pub open spec fn absorb_spec(older: (TabId, u64, Option<Seq<char>>), newer: (TabId, u64, Option<Seq<char>>)) -> (TabId, u64, Option<Seq<char>>) {
    if older.0 != newer.0 {
        newer
    } else if newer.2 is Some {
        (older.0, newer.1, newer.2)
    } else {
        older
    }
}

/// The job as plain values.
pub open spec fn job_view(j: CountJob) -> (TabId, u64, Option<Seq<char>>) {
    (j.tab, j.generation, match j.source { Some(s) => Some(s@), None => None })
}

impl CountJob {
    /// Fold a newer request into this pending one, so a selection recount cannot discard a
    /// pending document recount.
    pub fn absorb(self, newer: CountJob) -> (r: CountJob)
        ensures
            job_view(r) == absorb_spec(job_view(self), job_view(newer)),
    {
        if self.tab != newer.tab {
            return newer;
        }
        let mut this = self;
        if newer.source.is_some() {
            this.source = newer.source;
            this.generation = newer.generation;
        }
        this
    }
}

/// The application-wide bound: one count running, one waiting.
pub struct Counter {
    pub running: bool,
    pub pending: Option<CountJob>,
}

impl Counter {
    /// No count running and none waiting.
    pub fn new() -> (c: Counter)
        ensures
            !c.running,
            c.pending is None,
    {
        Counter { running: false, pending: None }
    }

    /// Submit `job`: start it now (returned) when nothing is running, else fold it into the
    /// one waiting.
    pub fn submit(&mut self, job: CountJob) -> (start: Option<CountJob>)
        ensures
            final(self).running,
            !old(self).running ==> (start matches Some(j) && job_view(j) == job_view(job)),
            !old(self).running ==> final(self).pending == old(self).pending,
            old(self).running ==> start is None,
            old(self).running ==> (final(self).pending matches Some(p) && job_view(p)
                == match old(self).pending {
                    Some(q) => absorb_spec(job_view(q), job_view(job)),
                    None => job_view(job),
                }),
    {
        if self.running {
            let merged = match self.pending.take() {
                Some(pending) => pending.absorb(job),
                None => job,
            };
            self.pending = Some(merged);
            None
        } else {
            self.running = true;
            Some(job)
        }
    }

    /// The running count has gone away — completed, cancelled, or dropped with its main
    /// context. Start the waiting job (returned) if there is one, else release the latch.
    pub fn release(&mut self) -> (next: Option<CountJob>)
        ensures
            final(self).pending is None,
            final(self).running == old(self).pending is Some,
            match old(self).pending {
                Some(p) => (next matches Some(n) && job_view(n) == job_view(p)),
                None => next is None,
            },
    {
        let next = self.pending.take();
        self.running = next.is_some();
        next
    }
}

/// A tab's text statistics (its word count and line endings, `S`): the last count that
/// landed, with the buffer generation it was computed from, and the buffer's current
/// generation.
pub struct TextGeneration<S> {
    pub current: u64,
    pub stats: Option<(u64, S)>,
}

impl<S> TextGeneration<S> {
    /// The tab's buffer changed: its counts no longer describe it. Returns whether the
    /// recount debounce is (re)started — only for the tab on screen (`tab_is_active`); a
    /// background tab recounts when it is next activated.
    pub fn note_buffer_changed(&mut self, tab_is_active: bool) -> (debounce: bool)
        ensures
            final(self).current == old(self).current.wrapping_add(1),
            final(self).stats == old(self).stats,
            debounce == tab_is_active,
    {
        self.current = self.current.wrapping_add(1);
        tab_is_active
    }

    /// Whether a recount is owed: the counts on hand describe an older buffer, or there are
    /// none.
    pub open spec fn needs_recount_spec(&self) -> bool {
        !(self.stats matches Some((g, _)) && g == self.current)
    }

    /// Whether the counts on hand describe an older buffer (or there are none).
    pub fn needs_recount(&self) -> (r: bool)
        ensures
            r == self.needs_recount_spec(),
    {
        match &self.stats {
            Some((g, _)) => *g != self.current,
            None => true,
        }
    }

    /// A count computed from generation `generation` has landed — `total` is `None` when
    /// the job carried no document and so produced no count. It is kept, and becomes what
    /// the indicators show, only if no edit landed while it was counting: discard, never
    /// merge; that edit's own recount is already on its way. Returns whether it was kept.
    pub fn apply(&mut self, generation: u64, total: Option<S>) -> (kept: bool)
        ensures
            kept == (total is Some && generation == old(self).current),
            final(self).current == old(self).current,
            kept ==> final(self).stats == Some((generation, total->0)),
            !kept ==> final(self).stats == old(self).stats,
            kept ==> !final(self).needs_recount_spec(),
    {
        match total {
            Some(t) => {
                if generation == self.current {
                    self.stats = Some((generation, t));
                    true
                } else {
                    false
                }
            },
            None => false,
        }
    }

    /// The statistics the indicators show: the last count kept, or nothing yet — blank,
    /// never a guess.
    pub fn shown(&self) -> (r: Option<&S>)
        ensures
            match self.stats {
                Some((_, st)) => r == Some(&st),
                None => r is None,
            },
    {
        match &self.stats {
            Some((_, st)) => Some(st),
            None => None,
        }
    }
}

/// Word count and line endings for the active tab: its cached counts are shown at once,
/// and when they describe an older buffer a recount of `source` — the whole document, at
/// the current generation — is returned for submission.
pub fn refresh_text_indicators<S>(tab: TabId, generation: &TextGeneration<S>, source: String) -> (job: Option<CountJob>)
    ensures
        job is None <==> !generation.needs_recount_spec(),
        job matches Some(j) ==> job_view(j) == (tab, generation.current, Some(source@)),
{
    if generation.needs_recount() {
        Some(CountJob { tab, generation: generation.current, source: Some(source) })
    } else {
        None
    }
}

/// A selection at most this many bytes is counted on the caret path itself; a longer one
/// keeps the figure it had until a recount.
pub const INLINE_SELECTION_BYTES: usize = 16 * 1024;

/// What a selection change does to the selection count.
#[derive(Clone, Copy, PartialEq, Eq, Debug, Structural)]
pub enum SelectionCount {
    /// Nothing is selected: clear the count.
    Clear,
    /// Count it now, on the caret path.
    CountInline,
    /// Too large for the caret path: keep the figure already shown.
    Keep,
}

/// The text a selection holds: Markdown source (the editor) or text as rendered (the
/// preview, a table cell).
pub enum SelectionText {
    Markdown(String),
    Rendered(String),
}

impl SelectionText {
    /// The selection's length in bytes.
    pub open spec fn len_spec(&self) -> usize {
        match self {
            SelectionText::Markdown(t) => byte_len(t@) as usize,
            SelectionText::Rendered(t) => byte_len(t@) as usize,
        }
    }

    /// The selection's length in bytes.
    pub fn len(&self) -> (n: usize)
        ensures
            n == self.len_spec(),
    {
        let text = match self {
            SelectionText::Markdown(text) | SelectionText::Rendered(text) => text,
        };
        proof {
            lemma_byte_len_is_encoded_len(text@);
        }
        text.as_str().len()
    }
}

/// A selection changed in either pane: nothing selected clears the count; a selection of
/// at most [`INLINE_SELECTION_BYTES`] is counted there and then, on the caret path itself,
/// which attaches no timer; a larger one keeps the figure it had until the next recount.
pub fn note_selection_changed(selection: Option<&SelectionText>) -> (r: SelectionCount)
    ensures
        r == match selection {
            None => SelectionCount::Clear,
            Some(t) => if t.len_spec() <= INLINE_SELECTION_BYTES { SelectionCount::CountInline } else { SelectionCount::Keep },
        },
{
    match selection {
        None => SelectionCount::Clear,
        Some(t) => if t.len() <= INLINE_SELECTION_BYTES { SelectionCount::CountInline } else { SelectionCount::Keep },
    }
}

/// The characters of a table cell's label selected between the label's two selection
/// bounds `a` and `b`, in either order: `|a - b|` characters from the lower bound, clamped
/// at zero and at the text's end.
pub open spec fn label_selection_spec(text: Seq<char>, a: int, b: int) -> Seq<char> {
    let lo = if a < b { a } else { b };
    let from = if lo < 0 { 0 } else if lo > text.len() { text.len() as int } else { lo };
    let n = if a < b { b - a } else { a - b };
    let to = if from + n > text.len() { text.len() as int } else { from + n };
    text.subrange(from, to)
}

/// What a cell label has selected: its text between its selection bounds, if it has any.
pub open spec fn label_selection_of(label: (String, Option<(i32, i32)>)) -> Seq<char> {
    match label.1 {
        Some((a, b)) => label_selection_spec(label.0@, a as int, b as int),
        None => Seq::empty(),
    }
}

/// The index of the first label that has a selection, if any.
pub open spec fn first_selected_label(labels: Seq<(String, Option<(i32, i32)>)>) -> Option<int>
    decreases labels.len(),
{
    if labels.len() == 0 {
        None
    } else if labels[0].1 is Some {
        Some(0)
    } else {
        match first_selected_label(labels.drop_first()) {
            Some(k) => Some(k + 1),
            None => None,
        }
    }
}

/// What the focused pane has selected, if anything. A buffer selection is the source slice
/// in the editor (counted as Markdown) and rendered text in the preview; without one, the
/// editor has nothing selected, and the preview falls back to the first table cell whose
/// own label holds a selection — which no buffer reports. `labels` are the preview's cell
/// labels: each one's text and its selection bounds, if any.
pub fn selected_text(is_editor: bool, buffer_selection: Option<String>, labels: &[(String, Option<(i32, i32)>)]) -> (r: Option<SelectionText>)
    ensures
        buffer_selection matches Some(t) ==> (if is_editor {
            r matches Some(SelectionText::Markdown(m)) && m@ == t@
        } else {
            r matches Some(SelectionText::Rendered(m)) && m@ == t@
        }),
        buffer_selection is None && is_editor ==> r is None,
        buffer_selection is None && !is_editor ==> match first_selected_label(labels@) {
            None => r is None,
            Some(k) => r matches Some(SelectionText::Rendered(m))
                && m@ == label_selection_of(labels@[k]),
        },
{
    if let Some(text) = buffer_selection {
        return Some(if is_editor { SelectionText::Markdown(text) } else { SelectionText::Rendered(text) });
    }
    if is_editor {
        return None;
    }
    let mut i: usize = 0;
    proof {
        assert(labels@.skip(0) =~= labels@);
    }
    while i < labels.len()
        invariant
            buffer_selection is None,
            !is_editor,
            i <= labels@.len(),
            first_selected_label(labels@) == match first_selected_label(labels@.skip(i as int)) {
                Some(k) => Some(k + i),
                None => None,
            },
        decreases labels@.len() - i,
    {
        proof {
            assert(labels@.skip(i as int)[0] == labels@[i as int]);
            assert(labels@.skip(i as int).drop_first() =~= labels@.skip(i as int + 1));
        }
        if let Some((a, b)) = labels[i].1 {
            let chars = chars_of(labels[i].0.as_str());
            let len = chars.len();
            let lo: i64 = if a < b { a as i64 } else { b as i64 };
            let n: i64 = if a < b { b as i64 - a as i64 } else { a as i64 - b as i64 };
            let from: usize = if lo < 0 { 0 } else if lo as u64 > len as u64 { len } else { lo as usize };
            let to: usize = if n as u64 > (len - from) as u64 { len } else { from + n as usize };
            let mut picked: Vec<char> = Vec::new();
            let mut j: usize = from;
            while j < to
                invariant
                    from <= j <= to <= len,
                    len == chars@.len(),
                    picked@ == chars@.subrange(from as int, j as int),
                decreases to - j,
            {
                proof {
                    assert(chars@.subrange(from as int, j as int + 1) =~= chars@.subrange(from as int, j as int).push(chars@[j as int]));
                }
                picked.push(chars[j]);
                j += 1;
            }
            return Some(SelectionText::Rendered(string_from_chars(picked.as_slice())));
        }
        i += 1;
    }
    proof {
        assert(labels@.skip(i as int) =~= Seq::<(String, Option<(i32, i32)>)>::empty());
    }
    None
}

/// The link the message area shows while the pointer rests on it: the view it is in (an
/// identity) and its target.
#[derive(Clone, Debug, PartialEq, Eq)]
pub struct HoverTarget {
    pub view: u64,
    pub url: String,
}

/// What a hover change does to the message area: take the notice shown down, and show a
/// new one for this target.
#[derive(Clone, Copy, PartialEq, Eq, Debug, Structural)]
pub struct HoverChange {
    pub retract: bool,
    pub push: bool,
}

/// Take down the hovered link's notice, if one is showing. Returns whether there was one.
pub fn retract_hover_target(hover: &mut Option<HoverTarget>) -> (retracted: bool)
    ensures
        *final(hover) is None,
        retracted == (*old(hover) is Some),
{
    let had = hover.is_some();
    *hover = None;
    had
}

/// A link target as characters.
pub open spec fn url_view(url: Option<&str>) -> Option<Seq<char>> {
    match url {
        Some(u) => Some(u@),
        None => None,
    }
}

/// Whether hovering `url` in `view` is the link already shown.
pub open spec fn hover_unchanged(shown: Option<HoverTarget>, shown_view_alive: bool, view: u64, url: Option<Seq<char>>) -> bool {
    match (shown, url) {
        (Some(t), Some(u)) => shown_view_alive && t.view == view && t.url@ == u,
        _ => false,
    }
}

/// The pointer rests on `url` in `view`, or on no link (`None`). At most one hovered link is
/// shown: the same link again changes nothing; anything else takes the shown one down and,
/// for a link, shows it instead — replaced, never stacked. `shown_view_alive` says whether
/// the view of the link being shown still exists.
pub fn set_hover_target(hover: &mut Option<HoverTarget>, shown_view_alive: bool, view: u64, url: Option<&str>) -> (c: HoverChange)
    ensures
        hover_unchanged(*old(hover), shown_view_alive, view, url_view(url)) ==> {
            &&& c == (HoverChange { retract: false, push: false })
            &&& *final(hover) == *old(hover)
        },
        !hover_unchanged(*old(hover), shown_view_alive, view, url_view(url)) ==> {
            &&& c.retract == (*old(hover) is Some)
            &&& c.push == url is Some
            &&& match url {
                Some(u) => *final(hover) matches Some(t) && t.view == view && t.url@ == u@,
                None => *final(hover) is None,
            }
        },
{
    let unchanged = match (&*hover, url) {
        (Some(t), Some(u)) => shown_view_alive && t.view == view && str_eq(t.url.as_str(), u),
        _ => false,
    };
    if unchanged {
        return HoverChange { retract: false, push: false };
    }
    let retract = retract_hover_target(hover);
    match url {
        None => HoverChange { retract, push: false },
        Some(u) => {
            *hover = Some(HoverTarget { view, url: String::from_str(u) });
            HoverChange { retract, push: true }
        },
    }
}

/// The pointer left `view`, or it was unrealised: its link's notice comes down if it is the
/// one showing — or if the view it was shown for no longer exists. Returns whether it came
/// down.
pub fn clear_hover_target(hover: &mut Option<HoverTarget>, shown_view_alive: bool, view: u64) -> (retracted: bool)
    ensures
        retracted == match *old(hover) {
            Some(t) => !shown_view_alive || t.view == view,
            None => false,
        },
        retracted ==> *final(hover) is None,
        !retracted ==> *final(hover) == *old(hover),
{
    let mine = match &*hover {
        Some(t) => !shown_view_alive || t.view == view,
        None => false,
    };
    if mine {
        retract_hover_target(hover);
    }
    mine
}

/// Whether two strings hold the same characters.
fn str_eq(a: &str, b: &str) -> (r: bool)
    ensures
        r == (a@ == b@),
{
    let x = chars_of(a);
    let y = chars_of(b);
    if x.len() != y.len() {
        return false;
    }
    let mut i: usize = 0;
    while i < x.len()
        invariant
            x@ == a@,
            y@ == b@,
            x@.len() == y@.len(),
            i <= x@.len(),
            forall|k: int| 0 <= k < i ==> x@[k] == y@[k],
        decreases x@.len() - i,
    {
        if x[i] != y[i] {
            return false;
        }
        i += 1;
    }
    proof {
        assert(a@ =~= b@);
    }
    true
}

/// What a window's close request does. A close while an export runs cancels the export
/// and closes once it has stopped, rather than destroying the window beneath it.
#[derive(Clone, Copy, PartialEq, Eq, Debug, Structural)]
pub enum CloseDecision {
    /// Wait for the running export to stop, then close.
    AfterExport,
    /// Close now.
    Proceed,
    /// Ask Save / Discard / Cancel first.
    Prompt,
}

/// Decide a close request. Unless it waits for an export, the session is persisted first
/// (every open window's); then a forced close proceeds, and otherwise the window asks first
/// when any of its tabs — not only the one on screen — needs guarding.
pub fn close_request(export_running: bool, forced: bool, any_tab_needs_prompt: bool) -> (d: CloseDecision)
    ensures
        d == if export_running {
            CloseDecision::AfterExport
        } else if forced || !any_tab_needs_prompt {
            CloseDecision::Proceed
        } else {
            CloseDecision::Prompt
        },
{
    if export_running {
        CloseDecision::AfterExport
    } else if forced || !any_tab_needs_prompt {
        CloseDecision::Proceed
    } else {
        CloseDecision::Prompt
    }
}

/// A running export's close-safety gate: whether one is running, whether it has finished,
/// and the work deferred until it stops.
pub struct ExportGate<W> {
    running: bool,
    finished: bool,
    deferred: Vec<W>,
}

impl<W> ExportGate<W> {
    /// Whether an export is running.
    pub closed spec fn running_spec(&self) -> bool {
        self.running
    }

    /// Whether the running export has finished.
    pub closed spec fn finished_spec(&self) -> bool {
        self.finished
    }

    /// The work waiting for the export to stop.
    pub closed spec fn deferred_spec(&self) -> Seq<W> {
        self.deferred@
    }

    /// A finished gate runs nothing and holds nothing.
    pub closed spec fn wf(&self) -> bool {
        self.finished ==> !self.running && self.deferred@.len() == 0
    }

    /// An export has started.
    pub fn arm() -> (g: Self)
        ensures
            g.wf(),
            g.running_spec(),
            !g.finished_spec(),
            g.deferred_spec().len() == 0,
    {
        ExportGate { running: true, finished: false, deferred: Vec::new() }
    }

    /// A close arrived. While an export runs it is deferred until the export stops (`true`,
    /// and the caller cancels the export); otherwise the caller proceeds (`false`).
    pub fn defer_until_export_stops(&mut self, work: W) -> (deferred: bool)
        requires
            old(self).wf(),
        ensures
            final(self).wf(),
            deferred == old(self).running_spec(),
            final(self).running_spec() == old(self).running_spec(),
            final(self).finished_spec() == old(self).finished_spec(),
            final(self).deferred_spec() == if deferred { old(self).deferred_spec().push(work) } else { old(self).deferred_spec() },
    {
        if self.running {
            self.deferred.push(work);
            true
        } else {
            false
        }
    }

    /// The export has returned: release it and hand back the deferred work, to run outside
    /// the export's own stack. Idempotent — a second finish hands back nothing.
    pub fn finish(&mut self) -> (work: Vec<W>)
        requires
            old(self).wf(),
        ensures
            final(self).wf(),
            !final(self).running_spec(),
            final(self).finished_spec(),
            final(self).deferred_spec().len() == 0,
            old(self).finished_spec() ==> work@.len() == 0,
            !old(self).finished_spec() ==> work@ == old(self).deferred_spec(),
    {
        if self.finished {
            self.running = false;
            return Vec::new();
        }
        self.finished = true;
        self.running = false;
        let mut work: Vec<W> = Vec::new();
        std::mem::swap(&mut work, &mut self.deferred);
        work
    }
}

} // verus!
