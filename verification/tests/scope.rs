use scribobulate::scope::{
    do_find_next, FindNext, editor_match_is_inside, ends_walk, ordinal_at, replace_current_match, replacement_order,
    scoped_editor_matches, scoped_editor_step, step, PreviewScope, RenderKey,
};

fn scope(start: i32, end: i32) -> PreviewScope {
    PreviewScope {
        key: RenderKey {
            view_serial: 1,
            generation: 2,
        },
        start,
        end,
    }
}

#[test]
fn a_preview_scope_is_half_open() {
    let s = scope(10, 20);
    assert!(!s.contains(9));
    assert!(s.contains(10));
    assert!(s.contains(19));
    assert!(!s.contains(20), "a hit AT the end is the first one past it");
}

#[test]
fn a_preview_scope_resolves_only_against_its_own_render() {
    let s = scope(0, 5);
    assert!(s.resolves_against(RenderKey {
        view_serial: 1,
        generation: 2
    }));
    assert!(
        !s.resolves_against(RenderKey {
            view_serial: 1,
            generation: 3
        }),
        "an in-place re-render bumps the generation and replaces the text"
    );
    assert!(
        !s.resolves_against(RenderKey {
            view_serial: 2,
            generation: 2
        }),
        "a widget swap restarts the generation, so the serial is what separates them"
    );
}

#[test]
fn an_editor_match_must_fit_entirely_inside_the_scope() {
    assert!(editor_match_is_inside(10, 14, 10, 20));
    assert!(editor_match_is_inside(16, 20, 10, 20), "flush with the end");
    assert!(!editor_match_is_inside(9, 13, 10, 20), "starts before");
    assert!(
        !editor_match_is_inside(18, 24, 10, 20),
        "starts inside and runs past the end"
    );
    assert!(!editor_match_is_inside(30, 34, 10, 20), "wholly after");
}

#[test]
fn stepping_wraps_within_the_scope() {
    assert_eq!(
        step(0, 3, false),
        Some(1),
        "from nowhere, forward is the first"
    );
    assert_eq!(step(1, 3, false), Some(2));
    assert_eq!(step(3, 3, false), Some(1), "forward past the last wraps");
    assert_eq!(step(0, 3, true), Some(3), "from nowhere, back is the last");
    assert_eq!(step(1, 3, true), Some(3), "back past the first wraps");
    assert_eq!(step(2, 3, true), Some(1));
    assert_eq!(step(1, 1, false), Some(1), "one match steps to itself");
    assert_eq!(step(0, 0, false), None, "no matches, no answer");
    assert_eq!(
        step(5, 3, false),
        Some(1),
        "an out-of-range current is clamped"
    );
}

#[test]
fn the_ordinal_is_found_by_position_not_remembered() {
    let matches = [(10, 14), (40, 44), (90, 94)];
    assert_eq!(ordinal_at(&matches, 40), 2);
    assert_eq!(ordinal_at(&matches, 10), 1);
    let after_edit = [(10, 14), (90, 94)];
    assert_eq!(
        ordinal_at(&after_edit, 40),
        1,
        "stepping forward from 1 lands on 90, the first match past where it was"
    );
    assert_eq!(ordinal_at(&[(10, 14)], 40), 1);
    assert_eq!(ordinal_at(&[], 40), 0);
    assert_eq!(ordinal_at(&matches, 5), 0, "before every match");
}

/// Stepping forward then back returns to where the reader was.
#[test]
fn a_step_back_undoes_a_step_forward() {
    for total in 1..5 {
        for current in 1..=total {
            let next = step(current, total, false).unwrap();
            assert_eq!(step(next, total, true), Some(current));
        }
    }
}

/// The engine wraps past the last match; the enumeration stops there, and a match that
/// runs past the passage's end is not in it.
#[test]
fn the_passage_enumeration_stops_at_the_wrap_and_the_bound() {
    let answers = [(12, 15, false), (16, 22, false), (30, 33, false)];
    assert_eq!(scoped_editor_matches(Some((10, 20)), &answers), Some(vec![(12, 15)]));
    let wrapped = [(12, 15, false), (16, 19, false), (12, 15, true)];
    assert_eq!(scoped_editor_matches(Some((10, 20)), &wrapped), Some(vec![(12, 15), (16, 19)]));
    let before = [(5, 8, false)];
    assert_eq!(scoped_editor_matches(Some((10, 20)), &before), Some(vec![]));
    let stalled = [(12, 12, false), (13, 14, false)];
    assert_eq!(scoped_editor_matches(Some((10, 20)), &stalled), Some(vec![]), "an empty answer ends the walk");
    assert_eq!(scoped_editor_matches(None, &answers), None, "no passage, no bound");
    assert!(ends_walk((12, 15, true), 10, 20), "the engine went round");
    assert!(ends_walk((9, 11, false), 10, 20), "behind where it was asked from");
    assert!(!ends_walk((12, 15, false), 10, 20));
}

/// Replace edits the selection only when it is the match the engine finds there and it is
/// inside the passage; otherwise it steps.
#[test]
fn replace_acts_only_on_a_shown_match_inside_the_passage() {
    assert!(replace_current_match(Some((4, 8)), Some((4, 8)), None));
    assert!(!replace_current_match(None, Some((4, 8)), None), "nothing selected");
    assert!(!replace_current_match(Some((4, 8)), Some((9, 13)), None), "the selection is not a match");
    assert!(!replace_current_match(Some((4, 8)), None, None));
    assert!(replace_current_match(Some((4, 8)), Some((4, 8)), Some((0, 10))));
    assert!(!replace_current_match(Some((4, 8)), Some((4, 8)), Some((5, 10))), "outside the passage");
}

#[test]
fn a_scoped_replace_all_edits_from_the_last_match_back() {
    assert_eq!(replacement_order(&[(1, 2), (5, 6), (9, 10)]), vec![(9, 10), (5, 6), (1, 2)]);
    assert!(replacement_order(&[]).is_empty());
}

/// Stepping inside the passage finds the reader by position, wraps inside the passage, and
/// with no match lands nowhere.
#[test]
fn a_step_inside_the_passage_selects_the_match_it_lands_on() {
    let matches = [(12, 15), (16, 19), (30, 33)];
    assert_eq!(scoped_editor_step(&matches, 16, false), Some((3, 30, 33)));
    assert_eq!(scoped_editor_step(&matches, 30, false), Some((1, 12, 15)), "wraps inside the passage");
    assert_eq!(scoped_editor_step(&matches, 12, true), Some((3, 30, 33)));
    assert_eq!(scoped_editor_step(&matches, 20, false), Some((3, 30, 33)), "the caret between matches");
    assert_eq!(scoped_editor_step(&matches, 20, true), Some((2, 16, 19)), "previous is the last one before it");
    assert_eq!(scoped_editor_step(&matches, 5, true), Some((3, 30, 33)), "nothing before: wraps to the last");
    assert_eq!(scoped_editor_step(&matches, 40, false), Some((1, 12, 15)), "nothing after: wraps to the first");
    assert_eq!(scoped_editor_step(&matches, 0, false), Some((1, 12, 15)));
    assert_eq!(scoped_editor_step(&[], 5, false), None);
}

/// Next steps past the match the reader is on — from the selection's end — and Previous
/// from its start; with nothing selected, from the caret.
#[test]
fn find_next_searches_from_the_correct_end_of_the_selection() {
    assert_eq!(do_find_next(false, Some((4, 9)), 4, false), FindNext::SearchFrom(9));
    assert_eq!(do_find_next(false, Some((4, 9)), 4, true), FindNext::SearchFrom(4));
    assert_eq!(do_find_next(false, None, 7, false), FindNext::SearchFrom(7));
    assert_eq!(do_find_next(true, Some((4, 9)), 4, false), FindNext::Scoped);
}
