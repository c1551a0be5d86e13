//! A document whose buffer has become the only copy of it: its file was deleted, or
//! emptied, on disk. When a loss begins or ends is decided elsewhere; this module records
//! it, and derives the prompts that share the window's bottom corner from it.

use vstd::prelude::*;

verus! {

broadcast use vstd::string::group_string_axioms;

/// How the backing file was lost.
#[derive(Clone, Copy, PartialEq, Eq, Debug, Structural)]
pub enum BackingLoss {
    /// The file was deleted.
    Deleted,
    /// The file was emptied.
    Emptied,
}

/// A tab's loss state: the loss in force, if any, and whether the reader dismissed its
/// prompt.
pub struct BackingState {
    pub loss: Option<BackingLoss>,
    pub suppress_prompt: bool,
}

/// Record that the buffer is now the only copy of its document. Returns whether the
/// guards that read the loss must be re-derived: a repeat of the loss already recorded
/// changes nothing, so a backend that reports one deletion twice re-derives nothing.
pub fn mark_backing_lost(state: &mut BackingState, loss: BackingLoss) -> (changed: bool)
    ensures
        final(state).loss == Some(loss),
        final(state).suppress_prompt == old(state).suppress_prompt,
        changed == (old(state).loss != Some(loss)),
{
    let before = state.loss;
    state.loss = Some(loss);
    before != Some(loss)
}

/// Retire the loss — the file is back, or a save or reload made buffer and file agree.
/// Returns whether there was one to retire (and so whether the guards re-derive).
pub fn clear_backing_loss(state: &mut BackingState) -> (changed: bool)
    ensures
        final(state).loss is None,
        final(state).suppress_prompt == old(state).suppress_prompt,
        changed == old(state).loss is Some,
{
    let had = state.loss.is_some();
    state.loss = None;
    had
}

/// Show or hide the backing-loss prompt, derived from the loss alone. With no loss it is
/// hidden and the dismissal retires with the condition, so a later loss prompts afresh;
/// while dismissed, or while the conflict prompt holds the shared corner, it is hidden;
/// otherwise it is shown. Returns whether it is shown.
pub fn sync_backing_loss_toast(state: &mut BackingState, conflict_prompt_visible: bool) -> (visible: bool)
    ensures
        final(state).loss == old(state).loss,
        old(state).loss is None ==> !visible && !final(state).suppress_prompt,
        old(state).loss is Some ==> final(state).suppress_prompt == old(state).suppress_prompt
            && visible == (!old(state).suppress_prompt && !conflict_prompt_visible),
{
    if state.loss.is_none() {
        state.suppress_prompt = false;
        return false;
    }
    !state.suppress_prompt && !conflict_prompt_visible
}

/// Show the recovery prompt for a tab, if it has one outstanding. A recovery notice speaks
/// of *unsaved* recovered content, so once the document is clean again it retires itself —
/// a stale "Discard recovery" would throw away work just saved. Returns the recovery time
/// to show, if any.
pub fn sync_recovery_toast(recovered_at: &mut Option<i64>, dirty: bool) -> (shown: Option<i64>)
    ensures
        *final(recovered_at) == if dirty { *old(recovered_at) } else { None },
        shown == *final(recovered_at),
{
    if !dirty {
        *recovered_at = None;
    }
    *recovered_at
}

/// The reader dismissed the recovery prompt: the notice is gone for good.
pub fn dismiss_recovery_toast(recovered_at: &mut Option<i64>)
    ensures
        *final(recovered_at) is None,
{
    *recovered_at = None;
}

/// How a tab's file is named in the log: its path, or `<untitled>`.
pub fn path_for_log(path: Option<&str>) -> (s: String)
    ensures
        s@ == match path {
            Some(p) => p@,
            None => "<untitled>"@,
        },
{
    match path {
        Some(p) => String::from_str(p),
        None => String::from_str("<untitled>"),
    }
}

} // verus!
