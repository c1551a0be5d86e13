use scribobulate::cache::{HitsKey, PreviewFindCache};
use scribobulate::hits::{
    build_preview_hits, confine, land_on_hit, preview_find_step, preview_hit_position, resume_ordinal,
    scroll_to_preview_hit, select_preview_hit_at_or_after, Landing, PreviewHit, PreviewStep,
    ScrollTarget,
};
use scribobulate::matcher::{PatternError, Range};
use scribobulate::options::FindOptions;
use scribobulate::readout::{
    decode_occurrence_index, decode_occurrence_total, editor_cursor_for, editor_readout, find_target,
    match_label, replace_all_matches, finish_replace_all, replacement_notice, resync_preview_find, scoped_readout,
    update_editor_readout, FindCursor, FindTarget, ReplaceAll, ReplaceAllOutcome, Readout,
};
use scribobulate::scope::{
    preview_scope_for, scoped_editor_matches, scoped_editor_step, FindScope, PreviewScope, RenderKey,
};

#[test]
fn a_cached_hit_list_answers_only_for_its_own_view_render_and_query() {
    let plain = FindOptions::default();
    let key = HitsKey::new(1, 4, "cell", plain);
    assert_eq!(
        key,
        HitsKey::new(1, 4, "cell", plain),
        "same view, same render, same query, same options: current"
    );
    assert_ne!(
        key,
        HitsKey::new(1, 5, "cell", plain),
        "a re-render bumps the generation, so the same query must rebuild"
    );
    assert_ne!(
        key,
        HitsKey::new(1, 4, "feature", plain),
        "a new query must rebuild even within one render"
    );
    assert_ne!(
        key,
        HitsKey::new(2, 4, "cell", plain),
        "a different buffer must rebuild even when the generation number coincides"
    );
    assert_ne!(key, HitsKey::new(2, 5, "feature", plain));
    for (_, accessor) in FindOptions::actions() {
        let mut changed = plain;
        accessor.set(&mut changed, true);
        assert_ne!(
            key,
            HitsKey::new(1, 4, "cell", changed),
            "a match option changes what matches, so it must rebuild"
        );
    }
}

#[test]
fn find_next_resumes_at_the_hit_it_landed_on_not_at_its_old_ordinal() {
    let hits = |offsets: &[i32]| -> Vec<PreviewHit> {
        offsets
            .iter()
            .map(|&start| PreviewHit::Body {
                start,
                end: start + 6,
            })
            .collect()
    };

    let list = hits(&[10, 40, 90]);
    assert_eq!(resume_ordinal(&list, 2, 40), 2);

    let list = hits(&[1, 5, 10, 40, 90]);
    assert_eq!(resume_ordinal(&list, 2, 40), 4);

    let list = hits(&[10, 90]);
    assert_eq!(
        resume_ordinal(&list, 2, 40),
        1,
        "stepping forward from 1 lands on hit 2, the first one past the old position"
    );
    assert_eq!(resume_ordinal(&hits(&[10]), 2, 40), 1);
    assert_eq!(resume_ordinal(&hits(&[90]), 2, 40), 0);
}

#[test]
fn a_find_cursor_never_reports_the_other_lists_index() {
    assert_eq!(FindCursor::Editor(7).editor_index(), 7);
    let preview = FindCursor::Preview {
        ordinal: 3,
        at: 120,
    };
    assert_eq!(preview.editor_index(), 0);
    assert_eq!(FindCursor::NoMatch.editor_index(), 0);
}

#[test]
fn the_default_find_cursor_indexes_nothing() {
    assert_eq!(FindCursor::default(), FindCursor::NoMatch);
}

#[test]
fn a_scanning_occurrence_count_decodes_to_no_total() {
    assert_eq!(decode_occurrence_total(-1), None, "the scanning sentinel");
    assert_eq!(
        decode_occurrence_total(-7),
        None,
        "any negative is not a count"
    );
    assert_eq!(decode_occurrence_total(0), Some(0), "zero IS a real count");
    assert_eq!(decode_occurrence_total(42), Some(42));
}

#[test]
fn a_position_that_is_not_a_position_decodes_to_none() {
    assert_eq!(decode_occurrence_index(-1), None, "still scanning");
    assert_eq!(decode_occurrence_index(0), None, "not an occurrence");
    assert_eq!(
        decode_occurrence_index(1),
        Some(1),
        "the first match is 1, not 0"
    );
    assert_eq!(decode_occurrence_index(9), Some(9));
}

#[test]
fn an_unknown_occurrence_position_leaves_the_cursor_claiming_nothing() {
    assert_eq!(editor_cursor_for(None), FindCursor::NoMatch);
    assert_eq!(editor_cursor_for(None).editor_index(), 0);
    assert_eq!(editor_cursor_for(Some(2)), FindCursor::Editor(2));
    assert_eq!(editor_cursor_for(Some(2)).editor_index(), 2);
}

#[test]
fn the_counter_reads_n_of_m_or_a_bare_total() {
    assert_eq!(match_label(0, 0), "No matches");
    assert_eq!(match_label(3, 0), "No matches");
    assert_eq!(match_label(3, 47), "3 of 47");
    assert_eq!(match_label(0, 47), "47 matches");
    assert_eq!(match_label(0, 1), "1 matches");
    assert_eq!(match_label(10, 120), "10 of 120");
}

#[test]
fn the_editor_readout_puts_a_compile_failure_before_any_count() {
    let r = editor_readout(Some("missing )".to_string()), 5, 2);
    assert_eq!(r, Readout::Invalid { message: "missing )".to_string() });
    assert_eq!(r.text(), "Invalid pattern");
    assert_eq!(r.description(), Some("missing )".to_string()));
    let r = editor_readout(None, -1, 2);
    assert_eq!(r, Readout::Scanning);
    assert_eq!(r.text(), "…");
    assert_eq!(r.description(), None);
    let r = editor_readout(None, 5, 2);
    assert_eq!(r.text(), "2 of 5");
    let r = scoped_readout(None, 3, 0);
    assert_eq!(r.text(), "3 matches");
}

#[test]
fn replace_all_reports_what_it_replaced() {
    assert_eq!(replacement_notice(Some(2)), "2 replacements made");
    assert_eq!(replacement_notice(Some(1)), "1 replacement made");
    assert_eq!(replacement_notice(Some(12)), "12 replacements made");
    assert_eq!(replacement_notice(Some(0)), "0 replacements made");
    assert_eq!(replacement_notice(None), "Replacements made");
}

#[test]
fn a_find_in_preview_mode_never_falls_back_to_the_editor() {
    assert_eq!(find_target::<u8>(false, Some(1)), FindTarget::Editor);
    assert_eq!(find_target(true, Some(7u8)), FindTarget::Preview(7));
    assert_eq!(find_target::<u8>(true, None), FindTarget::PreviewUnresolved);
}

fn body(start: i32) -> PreviewHit {
    PreviewHit::Body { start, end: start + 3 }
}

fn landed_at(step: PreviewStep) -> i32 {
    match step {
        PreviewStep::Land(Landing::Arrive { current, .. }) => current,
        other => panic!("expected an arrival, got {other:?}"),
    }
}

#[test]
fn a_step_wraps_through_the_list_and_resumes_by_position() {
    let list = vec![body(10), body(40), body(90)];
    assert_eq!(landed_at(preview_find_step("q", FindCursor::NoMatch, &list, false)), 1);
    assert_eq!(landed_at(preview_find_step("q", FindCursor::NoMatch, &list, true)), 3);
    assert_eq!(
        landed_at(preview_find_step("q", FindCursor::Editor(2), &list, false)),
        1,
        "an editor index is not a preview position"
    );
    assert_eq!(landed_at(preview_find_step("q", FindCursor::Preview { ordinal: 3, at: 90 }, &list, false)), 1);
    // The hit at 40 is gone: next is the first one after where it was.
    let rebuilt = vec![body(10), body(90)];
    assert_eq!(landed_at(preview_find_step("q", FindCursor::Preview { ordinal: 2, at: 40 }, &rebuilt, false)), 2);
    assert_eq!(
        landed_at(preview_find_step("q", FindCursor::Preview { ordinal: 2, at: 40 }, &rebuilt, true)),
        1,
        "previous is the last one before where it was"
    );
    assert_eq!(
        landed_at(preview_find_step("q", FindCursor::Preview { ordinal: 1, at: 5 }, &rebuilt, true)),
        2,
        "nothing before it: previous wraps to the last"
    );
    assert_eq!(preview_find_step("q", FindCursor::NoMatch, &[], false), PreviewStep::NoMatches);
    assert_eq!(preview_find_step("", FindCursor::NoMatch, &list, false), PreviewStep::Idle);
    assert_eq!(
        preview_find_step("q", FindCursor::NoMatch, &list, false),
        PreviewStep::Land(Landing::Arrive {
            cursor: FindCursor::Preview { ordinal: 1, at: 10 },
            current: 1,
            total: 3
        })
    );
}

#[test]
fn landing_on_a_hidden_hit_reveals_rather_than_arrives() {
    let list = vec![
        body(10),
        PreviewHit::Hidden { summary_off: 20, resume_off: 25, key: 7 },
        PreviewHit::Cell { anchor_off: 30, cell: 1, byte_start: 0, byte_end: 2 },
    ];
    assert_eq!(
        land_on_hit(&list, 1),
        Landing::Reveal { summary_off: 20, resume_off: 25, key: 7 }
    );
    assert_eq!(
        land_on_hit(&list, 2),
        Landing::Arrive {
            cursor: FindCursor::Preview { ordinal: 3, at: 30 },
            current: 3,
            total: 3
        }
    );
    assert_eq!(preview_hit_position(&list[1]), 20);
    assert_eq!(
        select_preview_hit_at_or_after(&list, 11),
        Some(Landing::Reveal { summary_off: 20, resume_off: 25, key: 7 }),
        "a block nested in the one just opened is opened in turn"
    );
    assert_eq!(
        select_preview_hit_at_or_after(&list, 21),
        Some(Landing::Arrive { cursor: FindCursor::Preview { ordinal: 3, at: 30 }, current: 3, total: 3 })
    );
    assert_eq!(select_preview_hit_at_or_after(&list, 31), None, "no jump back to the first match");
    assert_eq!(select_preview_hit_at_or_after(&[], 0), None);
}

#[test]
fn a_scope_confines_the_list_to_its_half_open_range() {
    let list = vec![body(5), body(10), body(19), body(20)];
    let sc = PreviewScope { key: RenderKey { view_serial: 1, generation: 1 }, start: 10, end: 20 };
    assert_eq!(confine(&list, Some(sc)), vec![body(10), body(19)]);
    assert_eq!(confine(&list, None), list);
}

/// A table's cell hits land between the body text before and after it, hidden hits sort
/// at their block's summary line, and a body match on a collapsed block's own preview text
/// is counted once, by the block.
#[test]
fn the_hit_list_is_in_document_order() {
    let cells = vec![
        (15, 100u64, vec![Range { start: 0, end: 1 }, Range { start: 3, end: 4 }]),
        (15, 101u64, vec![Range { start: 2, end: 5 }]),
    ];
    let hidden = vec![(25, 26, 9u64, 2usize)];
    let out = build_preview_hits(&[(10, 12, false), (20, 22, false), (26, 27, true), (30, 32, false)], &cells, &hidden);
    let positions: Vec<i32> = out.iter().map(preview_hit_position).collect();
    assert_eq!(positions, [10, 15, 15, 15, 20, 25, 25, 30]);
    assert_eq!(out[1], PreviewHit::Cell { anchor_off: 15, cell: 100, byte_start: 0, byte_end: 1 });
    assert_eq!(out[2], PreviewHit::Cell { anchor_off: 15, cell: 100, byte_start: 3, byte_end: 4 });
    assert_eq!(out[3], PreviewHit::Cell { anchor_off: 15, cell: 101, byte_start: 2, byte_end: 5 });
    assert_eq!(out[5], PreviewHit::Hidden { summary_off: 25, resume_off: 26, key: 9 });
    assert!(build_preview_hits(&[], &[], &[]).is_empty());
}

#[test]
fn the_cache_hands_a_list_back_only_for_its_own_key() {
    let plain = FindOptions::default();
    let mut cache: PreviewFindCache<Vec<PreviewHit>> = PreviewFindCache::new();
    let first = |hits: &Vec<PreviewHit>| hits.first().copied();
    let served = cache.with_hits(HitsKey::new(1, 1, "a", plain), || Ok(vec![body(3)]), first).unwrap();
    assert_eq!((served, cache.builds()), (Some(body(3)), 1));
    let served = cache.with_hits(HitsKey::new(1, 2, "a", plain), || Ok(vec![body(5)]), first).unwrap();
    assert_eq!((served, cache.builds()), (Some(body(5)), 2), "a re-render is stale and rebuilds");
    let served = cache.with_hits(HitsKey::new(1, 2, "a", plain), || Ok(vec![]), first).unwrap();
    assert_eq!((served, cache.builds()), (Some(body(5)), 2), "the current list is served");
    cache.invalidate();
    let served = cache.with_hits(HitsKey::new(1, 2, "a", plain), || Ok(vec![body(5)]), first).unwrap();
    assert_eq!(
        (served, cache.builds()),
        (Some(body(5)), 3),
        "invalidation costs a rebuild and changes nothing that is served"
    );
}

#[test]
fn a_hit_is_scrolled_to_where_it_is_drawn() {
    assert_eq!(scroll_to_preview_hit(&body(12)), ScrollTarget::Buffer(12));
    assert_eq!(
        scroll_to_preview_hit(&PreviewHit::Cell { anchor_off: 30, cell: 4, byte_start: 1, byte_end: 2 }),
        ScrollTarget::Cell { anchor_off: 30, cell: 4 }
    );
    assert_eq!(
        scroll_to_preview_hit(&PreviewHit::Hidden { summary_off: 20, resume_off: 26, key: 1 }),
        ScrollTarget::Buffer(20)
    );
}

#[test]
fn the_editor_readout_counts_the_passage_when_one_is_captured() {
    assert_eq!(update_editor_readout(Some(5), None, 47, 3), Readout::Count { current: 3, total: 5 });
    assert_eq!(update_editor_readout(None, None, 47, 3), Readout::Count { current: 3, total: 47 });
    assert_eq!(update_editor_readout(None, None, -1, 0), Readout::Scanning);
    assert_eq!(
        update_editor_readout(Some(5), Some("bad".to_string()), 47, 3),
        Readout::Invalid { message: "bad".to_string() }
    );
}

#[test]
fn replace_all_inside_a_passage_edits_from_the_end() {
    let matches = [(2, 4), (8, 9), (12, 15)];
    let plan = replace_all_matches(Some(&matches), 99);
    match &plan {
        ReplaceAll::InPassage(order) => assert_eq!(order, &vec![(12, 15), (8, 9), (2, 4)]),
        other => panic!("expected the passage's own matches, got {other:?}"),
    }
    assert_eq!(replacement_notice(plan.replaced()), "3 replacements made");
    let whole = replace_all_matches(None, 12);
    assert_eq!(whole.replaced(), Some(12), "counted before, since nothing is left after");
    let scanning = replace_all_matches(None, -1);
    assert_eq!(scanning.replaced(), None);
    assert_eq!(replacement_notice(scanning.replaced()), "Replacements made");
}

#[test]
fn a_resync_drops_the_cursor_and_reports_the_outcome() {
    assert_eq!(resync_preview_find(Ok(4)), (FindCursor::NoMatch, Readout::Count { current: 0, total: 4 }));
    let e = PatternError::from_engine(Some("unmatched (".to_string()));
    let (cursor, readout) = resync_preview_find(Err(e));
    assert_eq!(cursor, FindCursor::NoMatch);
    assert_eq!(readout.text(), "Invalid pattern");
    assert_eq!(readout.description(), Some("unmatched (".to_string()));
}

#[test]
fn a_preview_passage_from_another_render_is_released() {
    let key = RenderKey { view_serial: 1, generation: 2 };
    let sc = PreviewScope { key, start: 3, end: 9 };
    assert_eq!(preview_scope_for(Some(FindScope::Preview(sc)), key), (Some(sc), false));
    let later = RenderKey { view_serial: 1, generation: 3 };
    assert_eq!(preview_scope_for(Some(FindScope::Preview(sc)), later), (None, true));
    let other_view = RenderKey { view_serial: 2, generation: 2 };
    assert_eq!(preview_scope_for(Some(FindScope::Preview(sc)), other_view), (None, true));
    assert_eq!(preview_scope_for(Some(FindScope::Editor { start: 0, end: 4 }), key), (None, false));
    assert_eq!(preview_scope_for(None, key), (None, false));
}

#[test]
fn the_cache_builds_once_and_reports_a_bad_pattern_as_an_error() {
    let plain = FindOptions::default();
    let mut cache: PreviewFindCache<Vec<PreviewHit>> = PreviewFindCache::new();
    let key = || HitsKey::new(1, 1, "a", plain);
    let n = cache.with_hits(key(), || Ok(vec![body(3), body(8)]), |hits| hits.len()).unwrap();
    assert_eq!(n, 2);
    let n = cache
        .with_hits(key(), || panic!("a current list is not rebuilt"), |hits| hits.len())
        .unwrap();
    assert_eq!(n, 2);
    assert_eq!(cache.builds(), 1);
    let stale = HitsKey::new(1, 2, "a", plain);
    let n = cache.with_hits(stale, || Ok(vec![body(1)]), |hits| hits.len()).unwrap();
    assert_eq!((n, cache.builds()), (1, 2), "a re-render rebuilds");
    let bad = HitsKey::new(1, 2, "(", plain);
    let e = cache.with_hits(bad, || Err(PatternError::from_engine(None)), |hits| hits.len());
    assert_eq!(e, Err(PatternError::from_engine(None)), "never an empty list");
    let n = cache.with_hits(HitsKey::new(1, 2, "a", plain), || Ok(vec![body(1), body(2)]), |hits| hits.len());
    assert_eq!((n, cache.builds()), (Ok(2), 3), "and the cache is left empty, so the next ask rebuilds");
}

/// The editor's search confined to the first two lines counts, steps and replaces only the
/// occurrences inside them, and Replace All reports how many it made.
#[test]
fn search_in_selection_confines_the_editor_search_and_its_replacements() {
    // "one target\ntwo target\nthree target\nfour target\n", the passage [0, 22); the
    // engine's successive answers for "target" from the passage's start.
    let answers = [(4, 10, false), (15, 21, false), (28, 34, false), (40, 46, false), (4, 10, true)];
    let matches = scoped_editor_matches(Some((0, 22)), &answers).expect("a passage is captured");
    assert_eq!(matches, vec![(4, 10), (15, 21)], "only the occurrences inside the passage");
    assert_eq!(update_editor_readout(Some(matches.len()), None, 4, 0).text(), "2 matches");
    let mut at = 0;
    for expected in [1, 2, 1, 2] {
        let (n, start, _) = scoped_editor_step(&matches, at, false).expect("a match to land on");
        assert_eq!(n, expected, "stepping wraps inside the passage, not out of it");
        at = start;
    }
    let plan = replace_all_matches(Some(&matches), 4);
    match &plan {
        ReplaceAll::InPassage(order) => assert_eq!(order, &vec![(15, 21), (4, 10)], "last first"),
        other => panic!("expected the passage's own matches, got {other:?}"),
    }
    match finish_replace_all(&plan, None) {
        ReplaceAllOutcome::Done { cursor, notice } => {
            assert_eq!(cursor, FindCursor::NoMatch, "no current match after the list is rewritten");
            assert!(notice.contains("2 replacements made"), "the count made, not the count left");
        },
        other => panic!("expected the edits to be made, got {other:?}"),
    }
}

#[test]
fn a_replace_all_that_fails_says_so_and_changes_nothing_else() {
    let plan = replace_all_matches(None, 3);
    match finish_replace_all(&plan, Some(PatternError::from_engine(Some("no group 2".to_string())))) {
        ReplaceAllOutcome::Failed(readout) => {
            assert_eq!(readout.text(), "Invalid pattern");
            assert_eq!(readout.description(), Some("no group 2".to_string()));
        },
        other => panic!("expected a failure, got {other:?}"),
    }
    match finish_replace_all(&replace_all_matches(None, -1), None) {
        ReplaceAllOutcome::Done { cursor, notice } => {
            assert_eq!((cursor, notice.as_str()), (FindCursor::NoMatch, "Replacements made"));
        },
        other => panic!("expected the edits to be made, got {other:?}"),
    }
}
