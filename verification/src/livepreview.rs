//! Split-mode live preview: an editor edit re-renders the preview, and refreshes the
//! outline, after a short coalescing delay. The timer belongs to the caller; the decisions
//! at its two ends are here.

use vstd::prelude::*;

verus! {

/// Which panes a tab shows.
#[derive(Clone, Copy, PartialEq, Eq, Debug, Structural)]
pub enum ViewMode {
    Edit,
    Split,
    Preview,
}

/// Whether `mode` shows the editor.
pub open spec fn editor_visible(mode: ViewMode) -> bool {
    mode != ViewMode::Preview
}

/// What an edit to the editor's buffer sets off.
#[derive(Clone, Copy, PartialEq, Eq, Debug, Structural)]
pub struct LiveEdit {
    /// The preview's fold keys are offsets into this very text in split mode, so they are
    /// forgotten on the keystroke itself — not after the delay, when a fold toggled in
    /// between would read the new text against the old map. A programmatic replacement
    /// moves the text as surely as typing does, so this holds while loading too.
    pub forget_folds: bool,
    /// Cancel any pending refresh and schedule a fresh one. Not for a programmatic
    /// replacement (a load or reload), which re-renders by itself.
    pub reschedule: bool,
}

/// The buffer of a tab in `mode` changed; `loading` is set while the change is a
/// programmatic replacement. Nothing happens outside the editor-backed modes.
pub fn on_buffer_changed(mode: ViewMode, loading: bool) -> (e: LiveEdit)
    ensures
        e == (LiveEdit {
            forget_folds: mode == ViewMode::Split,
            reschedule: editor_visible(mode) && !loading,
        }),
{
    if mode == ViewMode::Preview {
        return LiveEdit { forget_folds: false, reschedule: false };
    }
    LiveEdit { forget_folds: mode == ViewMode::Split, reschedule: !loading }
}

/// What the coalesced refresh does when its delay ends.
#[derive(Clone, Copy, PartialEq, Eq, Debug, Structural)]
pub struct LiveRefresh {
    /// The outline, the annotations list and the scroll spy follow the live buffer in
    /// both editor-backed modes.
    pub refresh_outline: bool,
    /// Only split mode shows a preview to re-render from the live text.
    pub rerender_preview: bool,
}

/// The delay ended with the tab in `mode` — which the reader may have changed meanwhile.
pub fn on_debounce_fired(mode: ViewMode) -> (r: LiveRefresh)
    ensures
        r == (LiveRefresh { refresh_outline: editor_visible(mode), rerender_preview: mode == ViewMode::Split }),
{
    LiveRefresh { refresh_outline: mode != ViewMode::Preview, rerender_preview: mode == ViewMode::Split }
}

} // verus!
