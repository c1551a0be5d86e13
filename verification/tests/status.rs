use scribobulate::backing::{
    clear_backing_loss, dismiss_recovery_toast, mark_backing_lost, path_for_log,
    sync_backing_loss_toast, sync_recovery_toast, BackingLoss, BackingState,
};
use scribobulate::findbar::{
    active_tab_position, current, ensure_registered, for_window, window_extent, HistoryField,
    SplitArrangement,
};
use scribobulate::status::{
    clear_hover_target, close_request, retract_hover_target, set_hover_target, CloseDecision,
    HoverChange, HoverTarget, note_selection_changed, refresh_text_indicators, selected_text, CountJob, Counter, ExportGate,
    SelectionCount, SelectionText, TextGeneration,
};
use scribobulate::livepreview::{on_buffer_changed, on_debounce_fired, LiveEdit, LiveRefresh, ViewMode};
use scribobulate::toast::{show_reload_toast, show_saved_toast, show_swap_failure_toast, NoticeIcon};

/// A future that claimed the application-wide latch and then went away without completing
/// must still release it.
#[test]
fn dropping_the_guard_releases_the_latch_even_when_the_job_never_finished() {
    let mut counter = Counter {
        running: true,
        pending: None,
    };

    counter.release();

    assert!(
        !counter.running,
        "a dropped future must release the latch; leaving it set strands every \
         later count in `pending` with nothing to start it"
    );
}

fn job(tab: u64, generation: u64, source: Option<&str>) -> CountJob {
    CountJob { tab, generation, source: source.map(str::to_string) }
}

#[test]
fn one_count_runs_and_one_waits() {
    let mut counter = Counter::new();
    let started = counter.submit(job(1, 1, Some("a b")));
    assert_eq!(started.map(|j| j.generation), Some(1));
    assert!(counter.submit(job(1, 2, Some("a b c"))).is_none(), "one at a time");
    assert!(counter.submit(job(1, 3, None)).is_none());
    let next = counter.release().expect("the waiting job starts");
    assert_eq!((next.tab, next.generation, next.source.as_deref()), (1, 2, Some("a b c")),
        "a selection recount does not discard a pending document recount");
    assert!(counter.running);
    assert!(counter.release().is_none());
    assert!(!counter.running);
}

#[test]
fn another_tabs_request_displaces_the_waiting_one() {
    let merged = job(1, 4, Some("x")).absorb(job(2, 9, None));
    assert_eq!((merged.tab, merged.generation, merged.source), (2, 9, None));
}

#[test]
fn a_count_from_an_older_buffer_is_discarded() {
    // The statistics stand for a (word count, line endings) pair.
    let mut g: TextGeneration<(u32, &str)> = TextGeneration { current: 5, stats: None };
    assert!(g.needs_recount());
    assert_eq!(g.shown(), None, "blank until a first count lands");
    assert!(g.note_buffer_changed(true), "the tab on screen recounts after the debounce");
    assert!(!g.apply(5, Some((3, "LF"))), "an edit landed while it was counting");
    assert_eq!(g.shown(), None, "discarded, never merged");
    assert!(!g.apply(6, None), "a job without a document produced no count");
    assert!(g.needs_recount());
    assert!(g.apply(6, Some((4, "CRLF"))));
    assert!(!g.needs_recount());
    assert_eq!(g.shown(), Some(&(4, "CRLF")), "the kept count is what is shown");
    g.note_buffer_changed(false);
    assert!(!g.apply(6, Some((9, "LF"))));
    assert_eq!(g.shown(), Some(&(4, "CRLF")), "an older buffer's count keeps the last one shown");
    let mut wrap: TextGeneration<u32> = TextGeneration { current: u64::MAX, stats: None };
    assert!(!wrap.note_buffer_changed(false), "a background tab waits for activation");
    assert_eq!(wrap.current, 0);
}

#[test]
fn a_large_selection_keeps_its_figure_on_the_caret_path() {
    assert_eq!(note_selection_changed(None), SelectionCount::Clear);
    let at_limit = SelectionText::Rendered("x".repeat(16 * 1024));
    assert_eq!(note_selection_changed(Some(&at_limit)), SelectionCount::CountInline);
    let over = SelectionText::Markdown("x".repeat(16 * 1024 + 1));
    assert_eq!(note_selection_changed(Some(&over)), SelectionCount::Keep);
    let wide = SelectionText::Markdown("é".repeat(8 * 1024 + 1));
    assert_eq!(note_selection_changed(Some(&wide)), SelectionCount::Keep, "the bound is in bytes");
    assert_eq!(SelectionText::Markdown("héllo".to_string()).len(), 6);
    assert_eq!(SelectionText::Rendered("abc".to_string()).len(), 3);
}

#[test]
fn a_close_during_an_export_waits_for_it_and_runs_once() {
    let mut gate: ExportGate<&str> = ExportGate::arm();
    assert!(gate.defer_until_export_stops("close window"));
    assert_eq!(gate.finish(), vec!["close window"]);
    assert!(gate.finish().is_empty(), "finishing again runs nothing twice");
    assert!(!gate.defer_until_export_stops("close tab"), "no export is running now");
}

#[test]
fn a_repeated_loss_rederives_nothing() {
    let mut s = BackingState { loss: None, suppress_prompt: false };
    assert!(mark_backing_lost(&mut s, BackingLoss::Deleted));
    assert!(!mark_backing_lost(&mut s, BackingLoss::Deleted));
    assert!(mark_backing_lost(&mut s, BackingLoss::Emptied));
    assert_eq!(s.loss, Some(BackingLoss::Emptied));
    assert!(sync_backing_loss_toast(&mut s, false));
    assert!(!sync_backing_loss_toast(&mut s, true), "the conflict prompt holds the corner");
    s.suppress_prompt = true;
    assert!(!sync_backing_loss_toast(&mut s, false));
    assert!(clear_backing_loss(&mut s));
    assert!(!clear_backing_loss(&mut s));
    assert!(!sync_backing_loss_toast(&mut s, false));
    assert!(!s.suppress_prompt, "the dismissal retires with the loss");
    assert!(mark_backing_lost(&mut s, BackingLoss::Deleted));
    assert!(sync_backing_loss_toast(&mut s, false), "a later loss prompts afresh");
}

#[test]
fn a_recovery_notice_retires_once_the_document_is_clean() {
    let mut at = Some(7);
    assert_eq!(sync_recovery_toast(&mut at, true), Some(7));
    assert_eq!(sync_recovery_toast(&mut at, false), None);
    assert_eq!(sync_recovery_toast(&mut at, true), None, "once retired it stays retired");
    let mut at = Some(9);
    dismiss_recovery_toast(&mut at);
    assert_eq!(sync_recovery_toast(&mut at, true), None);
    assert_eq!(path_for_log(None), "<untitled>");
    assert_eq!(path_for_log(Some("/tmp/a.md")), "/tmp/a.md");
}

#[test]
fn a_history_row_target_names_its_field() {
    let t = HistoryField::Find.target("note|book");
    assert_eq!(t, "fnote|book");
    assert_eq!(HistoryField::split_target(&t), Some((HistoryField::Find, "note|book".to_string())));
    let t = HistoryField::Replace.target("");
    assert_eq!(HistoryField::split_target(&t), Some((HistoryField::Replace, String::new())));
    assert_eq!(HistoryField::split_target("xabc"), None);
    assert_eq!(HistoryField::split_target(""), None);
    assert_eq!(HistoryField::Find.marker(), 'f');
}

#[test]
fn the_session_records_each_windows_own_values() {
    assert_eq!(window_extent(800, 1024), 800);
    assert_eq!(window_extent(0, 1024), 1024);
    assert_eq!(active_tab_position(&[4, 7, 9], Some(9)), 2);
    assert_eq!(active_tab_position(&[4, 7, 9], Some(3)), 0);
    assert_eq!(active_tab_position(&[4, 7, 9], None), 0);
    assert_eq!(current(Some(true), None), SplitArrangement { swapped: true, vertical: false });
    assert_eq!(current(None, None), SplitArrangement::default());
    assert_eq!(current(Some(false), Some(true)), SplitArrangement { swapped: false, vertical: true });
    assert_eq!(for_window(None), SplitArrangement::default());
    assert_eq!(
        for_window(Some((Some(true), Some(true)))),
        SplitArrangement { swapped: true, vertical: true }
    );
    assert_eq!(
        ensure_registered(false, true, false),
        Some(SplitArrangement { swapped: true, vertical: false }),
        "the first window seeds from the saved session"
    );
    assert_eq!(ensure_registered(true, true, true), None, "later windows take the live value");
}

#[test]
fn stale_counts_are_recounted_with_the_whole_document() {
    let g = TextGeneration { current: 3, stats: Some((2, 10u32)) };
    let job = refresh_text_indicators(7, &g, "one two".to_string()).expect("a recount is owed");
    assert_eq!((job.tab, job.generation, job.source.as_deref()), (7, 3, Some("one two")));
    let fresh = TextGeneration { current: 3, stats: Some((3, 12u32)) };
    assert!(refresh_text_indicators(7, &fresh, String::new()).is_none());
    let never: TextGeneration<u32> = TextGeneration { current: 0, stats: None };
    assert!(refresh_text_indicators(1, &never, String::new()).is_some());
}

#[test]
fn a_selection_is_read_from_the_focused_pane() {
    match selected_text(true, Some("**a**".to_string()), &[]) {
        Some(SelectionText::Markdown(t)) => assert_eq!(t, "**a**"),
        _ => panic!("an editor selection is Markdown"),
    }
    match selected_text(false, Some("a".to_string()), &[]) {
        Some(SelectionText::Rendered(t)) => assert_eq!(t, "a"),
        _ => panic!("a preview selection is rendered text"),
    }
    assert!(selected_text(true, None, &[("cell".to_string(), Some((0, 2)))]).is_none());
    let labels = vec![
        ("first".to_string(), None),
        ("héllo wörld".to_string(), Some((7, 3))),
        ("other".to_string(), Some((0, 5))),
    ];
    match selected_text(false, None, &labels) {
        Some(SelectionText::Rendered(t)) => assert_eq!(t, "lo w", "bounds in either order, in characters"),
        _ => panic!("a cell label's own selection"),
    }
    let clamped = vec![("abc".to_string(), Some((-4, 10)))];
    match selected_text(false, None, &clamped) {
        Some(SelectionText::Rendered(t)) => assert_eq!(t, "abc"),
        _ => panic!("clamped to the text"),
    }
    assert!(selected_text(false, None, &[("x".to_string(), None)]).is_none());
}

#[test]
fn each_info_notice_says_its_own_thing_twice() {
    let n = show_saved_toast();
    assert_eq!((n.icon, n.toast_text, n.status_text), (NoticeIcon::DocumentSave, "File saved.", "File saved"));
    let n = show_reload_toast();
    assert_eq!(
        (n.icon, n.toast_text, n.status_text),
        (NoticeIcon::ViewRefresh, "File reloaded from disk.", "File reloaded")
    );
    let n = show_swap_failure_toast();
    assert_eq!(n.icon, NoticeIcon::DialogWarning);
    assert_eq!(n.toast_text, "Unsaved changes are not being backed up.");
    assert_eq!(n.status_text, "Unsaved changes are not being backed up");
}

#[test]
fn a_hover_target_replaces_rather_than_stacks_and_clears() {
    let mut hover: Option<HoverTarget> = None;
    assert_eq!(set_hover_target(&mut hover, true, 1, Some("https://a")), HoverChange { retract: false, push: true });
    assert_eq!(
        set_hover_target(&mut hover, true, 1, Some("https://a")),
        HoverChange { retract: false, push: false },
        "the same link again changes nothing"
    );
    assert_eq!(
        set_hover_target(&mut hover, true, 1, Some("https://b")),
        HoverChange { retract: true, push: true },
        "another link replaces the shown one"
    );
    assert_eq!(hover, Some(HoverTarget { view: 1, url: "https://b".to_string() }));
    assert!(!clear_hover_target(&mut hover, true, 2), "another view's leave leaves it up");
    assert!(clear_hover_target(&mut hover, true, 1));
    assert_eq!(hover, None);
    set_hover_target(&mut hover, true, 3, Some("x"));
    assert!(clear_hover_target(&mut hover, false, 9), "its view is gone");
    assert!(!retract_hover_target(&mut hover));
    set_hover_target(&mut hover, true, 3, Some("x"));
    assert_eq!(set_hover_target(&mut hover, true, 3, None), HoverChange { retract: true, push: false });
    assert_eq!(hover, None);
}

#[test]
fn a_close_waits_for_an_export_and_guards_every_tab() {
    assert_eq!(close_request(true, true, true), CloseDecision::AfterExport);
    assert_eq!(close_request(false, true, true), CloseDecision::Proceed);
    assert_eq!(close_request(false, false, true), CloseDecision::Prompt);
    assert_eq!(close_request(false, false, false), CloseDecision::Proceed);
}

#[test]
fn an_edit_forgets_split_mode_folds_at_once_and_rerenders_after_the_delay() {
    assert_eq!(on_buffer_changed(ViewMode::Split, false), LiveEdit { forget_folds: true, reschedule: true });
    assert_eq!(
        on_buffer_changed(ViewMode::Split, true),
        LiveEdit { forget_folds: true, reschedule: false },
        "a reload moves the text too, but re-renders by itself"
    );
    assert_eq!(on_buffer_changed(ViewMode::Edit, false), LiveEdit { forget_folds: false, reschedule: true });
    assert_eq!(on_buffer_changed(ViewMode::Preview, false), LiveEdit { forget_folds: false, reschedule: false });
    assert_eq!(on_debounce_fired(ViewMode::Split), LiveRefresh { refresh_outline: true, rerender_preview: true });
    assert_eq!(on_debounce_fired(ViewMode::Edit), LiveRefresh { refresh_outline: true, rerender_preview: false });
    assert_eq!(on_debounce_fired(ViewMode::Preview), LiveRefresh { refresh_outline: false, rerender_preview: false });
}
