use scribobulate::matcher::{editor_pattern, engine_applies_word_boundaries, regex_ranges, Matcher, PatternError, Range};
use scribobulate::options::FindOptions;

fn opts(case_sensitive: bool, whole_word: bool, regex: bool) -> FindOptions {
    FindOptions {
        case_sensitive,
        whole_word,
        regex,
    }
}

fn found(hay: &str, query: &str, o: FindOptions) -> Vec<String> {
    Matcher::compile(query, o)
        .ranges(hay, &[])
        .into_iter()
        .map(|Range { start, end }| hay[start..end].to_string())
        .collect()
}

#[test]
fn the_default_is_a_case_insensitive_substring() {
    assert_eq!(
        found(
            "Note the note in notebook",
            "note",
            opts(false, false, false)
        ),
        vec!["Note", "note", "note"]
    );
}

#[test]
fn case_sensitivity_distinguishes_otherwise_identical_words() {
    assert_eq!(
        found("Note the note", "Note", opts(true, false, false)),
        vec!["Note"]
    );
}

#[test]
fn whole_word_rejects_a_match_inside_a_longer_word() {
    assert_eq!(
        found(
            "note notebook keynote note",
            "note",
            opts(false, true, false)
        ),
        vec!["note", "note"]
    );
}

#[test]
fn whole_word_accepts_a_match_at_either_end_of_the_text() {
    assert_eq!(
        found("note", "note", opts(false, true, false)),
        vec!["note"]
    );
}

#[test]
fn whole_word_treats_an_underscore_and_a_digit_as_part_of_the_word() {
    assert!(found("note_2", "note", opts(false, true, false)).is_empty());
    assert!(found("note2", "note", opts(false, true, false)).is_empty());
    assert_eq!(
        found("note-2", "note", opts(false, true, false)),
        vec!["note"]
    );
}

#[test]
fn matches_do_not_overlap() {
    assert_eq!(found("aaaa", "aa", opts(false, false, false)).len(), 2);
}

#[test]
fn a_multibyte_haystack_yields_ranges_that_index_it() {
    let hay = "café CAFÉ";
    let ranges = Matcher::compile("café", opts(false, false, false)).ranges(hay, &[]);
    assert_eq!(ranges.len(), 2);
    for Range { start, end } in ranges {
        assert_eq!(hay[start..end].to_lowercase(), "café");
    }
}

#[test]
fn an_empty_query_matches_nothing_in_every_mode() {
    for o in [
        opts(false, false, false),
        opts(true, true, false),
        opts(false, false, true),
        opts(true, true, true),
    ] {
        assert!(
            found("anything at all", "", o).is_empty(),
            "an empty query matched something with {o:?}"
        );
    }
}

#[test]
fn a_literal_query_is_not_interpreted_as_a_pattern() {
    assert_eq!(
        found("a.c abc", "a.c", opts(false, false, false)),
        vec!["a.c"]
    );
}

#[test]
fn count_agrees_with_ranges() {
    let m = Matcher::compile("note", opts(false, false, false));
    let hay = "note NOTE notebook";
    assert_eq!(m.count(hay, &[]), m.ranges(hay, &[]).len());
    assert_eq!(m.count(hay, &[]), 3);
}

/// The whole-word wrapper is a non-capturing group, so an alternation is bounded whole.
#[test]
fn a_whole_word_regular_expression_is_wrapped_as_a_group() {
    assert_eq!(editor_pattern("cat|dog", opts(false, true, true)), r"\b(?:cat|dog)\b");
    assert_eq!(editor_pattern("cat|dog", opts(false, false, true)), "cat|dog");
    assert_eq!(editor_pattern("note", opts(false, true, false)), "note");
    assert_eq!(editor_pattern("", opts(false, true, true)), "");
}

#[test]
fn only_a_literal_whole_word_search_is_left_to_the_engine() {
    assert!(engine_applies_word_boundaries(opts(false, true, false)));
    assert!(!engine_applies_word_boundaries(opts(false, true, true)));
    assert!(!engine_applies_word_boundaries(opts(true, false, false)));
}

/// A regular expression compiles to the wrapped pattern with case as a flag.
#[test]
fn a_regular_expression_compiles_to_its_engine_pattern() {
    match Matcher::compile("cat|dog", opts(false, true, true)) {
        Matcher::Regex(q) => {
            assert_eq!(q.pattern, r"\b(?:cat|dog)\b");
            assert!(q.caseless);
        }
        _ => panic!("a regex option compiles to a regular expression"),
    }
    match Matcher::compile("Cat", opts(true, false, true)) {
        Matcher::Regex(q) => {
            assert_eq!(q.pattern, "Cat");
            assert!(!q.caseless);
        }
        _ => panic!("a regex option compiles to a regular expression"),
    }
}

/// A zero-length match is not a match, and the walk continues past it: `a*` over
/// `banana`, as the engine reports it, is the three runs of `a`.
#[test]
fn zero_length_engine_matches_are_dropped() {
    let raw = [(0, 0), (1, 2), (2, 2), (3, 4), (4, 4), (5, 6), (6, 6)];
    assert_eq!(
        regex_ranges(&raw),
        vec![
            Range { start: 1, end: 2 },
            Range { start: 3, end: 4 },
            Range { start: 5, end: 6 }
        ]
    );
    let only_empty = [(0, 0), (1, 1), (2, 2)];
    assert!(regex_ranges(&only_empty).is_empty());
}

/// A walk that stops advancing is cut off rather than followed.
#[test]
fn an_engine_walk_that_stops_advancing_is_cut_off() {
    assert_eq!(
        regex_ranges(&[(3, 4), (3, 4), (9, 10)]),
        vec![Range { start: 3, end: 4 }]
    );
    assert_eq!(regex_ranges(&[(-5, 2)]), vec![Range { start: 0, end: 2 }]);
}

#[test]
fn regex_matches_come_from_the_engine_report() {
    let m = Matcher::compile("a*", opts(false, false, true));
    let hay = "banana";
    let raw = [(0, 0), (1, 2), (2, 2), (3, 4), (4, 4), (5, 6), (6, 6)];
    let got: Vec<&str> = m.ranges(hay, &raw).into_iter().map(|r| &hay[r.start..r.end]).collect();
    assert_eq!(got, ["a", "a", "a"]);
}

/// An engine that refused a pattern without a message still yields one to show.
#[test]
fn a_refused_pattern_always_carries_a_message() {
    let e = PatternError::from_engine(None);
    assert_eq!(e.message, "the pattern could not be compiled");
    let e = PatternError::from_engine(Some("missing )".to_string()));
    assert_eq!(e.message, "missing )");
}

/// Case-insensitive matching folds the haystack, not only the query.
#[test]
fn a_literal_query_folds_both_sides() {
    assert_eq!(found("ABC abc AbC", "aBc", opts(false, false, false)), vec!["ABC", "abc", "AbC"]);
    assert_eq!(found("ABC abc AbC", "aBc", opts(true, false, false)), Vec::<String>::new());
}

/// A regular expression the engine refuses is an error carrying the engine's message —
/// never a matcher that finds nothing — and a literal cannot fail.
#[test]
fn a_refused_pattern_is_an_error_not_an_empty_result() {
    let refused = Matcher::compile("(unclosed", opts(false, false, true))
        .checked(Some(Some("missing )".to_string())));
    assert_eq!(refused.err(), Some(PatternError { message: "missing )".to_string() }));
    let silent = Matcher::compile("(", opts(false, false, true)).checked(Some(None));
    assert_eq!(silent.err().map(|e| e.message), Some("the pattern could not be compiled".to_string()));
    assert!(matches!(Matcher::compile("a+", opts(false, false, true)).checked(None), Ok(Matcher::Regex(_))));
    assert!(matches!(
        Matcher::compile("(", opts(false, false, false)).checked(None),
        Ok(Matcher::Literal { .. })
    ));
}
