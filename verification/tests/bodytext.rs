use scribobulate::bodytext::BodyText;
use scribobulate::matcher::Range;

fn r(start: usize, end: usize) -> Range {
    Range { start, end }
}

/// With no anchors the extraction is the identity and the offsets pass straight through.
#[test]
fn a_slice_with_no_anchors_maps_one_to_one() {
    let b = BodyText::extract("hello world");
    assert_eq!(b.text(), "hello world");
    assert_eq!(b.to_buffer_ranges(&[r(6, 11)]), vec![(6, 11)]);
}

/// A match after an anchor names the buffer offset the anchor occupies too.
#[test]
fn a_match_after_an_anchor_is_shifted_by_it() {
    let b = BodyText::extract("ab\u{FFFC}cd");
    assert_eq!(b.text(), "abcd");
    assert_eq!(b.to_buffer_ranges(&[r(2, 4)]), vec![(3, 5)]);
    assert_eq!(b.to_buffer_ranges(&[r(0, 2)]), vec![(0, 2)]);
}

/// Several anchors accumulate, and each match takes the shift in force where it sits.
#[test]
fn each_match_takes_the_shift_in_force_where_it_sits() {
    let b = BodyText::extract("a\u{FFFC}b\u{FFFC}\u{FFFC}c");
    assert_eq!(b.text(), "abc");
    assert_eq!(
        b.to_buffer_ranges(&[r(0, 1), r(1, 2), r(2, 3)]),
        vec![(0, 1), (2, 3), (5, 6)]
    );
}

/// An anchor immediately after a match is not swallowed by it.
#[test]
fn an_anchor_just_after_a_match_is_not_included_in_it() {
    let b = BodyText::extract("ab\u{FFFC}cd");
    assert_eq!(b.to_buffer_ranges(&[r(0, 2)]), vec![(0, 2)]);
}

/// An anchor inside a match is included, because the match spans it.
#[test]
fn an_anchor_inside_a_match_is_spanned_by_it() {
    let b = BodyText::extract("ab\u{FFFC}cd");
    assert_eq!(b.to_buffer_ranges(&[r(0, 4)]), vec![(0, 5)]);
}

/// Byte offsets are not character offsets.
#[test]
fn multibyte_text_maps_by_character_not_by_byte() {
    let b = BodyText::extract("héllo wörld");
    assert_eq!(&b.text()[7..13], "wörld");
    assert_eq!(b.to_buffer_ranges(&[r(7, 13)]), vec![(6, 11)]);
}

/// A batch of matches gives the same answers as the same matches resolved one at a time.
#[test]
fn a_batch_of_matches_resolves_the_same_as_one_at_a_time() {
    let b = BodyText::extract("aa\u{FFFC}aa\u{FFFC}aa");
    let all = [r(0, 1), r(2, 3), r(4, 5)];
    let batch = b.to_buffer_ranges(&all);
    let singly: Vec<(i32, i32)> = all
        .iter()
        .flat_map(|one| b.to_buffer_ranges(std::slice::from_ref(one)))
        .collect();
    assert_eq!(batch, singly);
}

/// A match running to the very end of the text resolves.
#[test]
fn a_match_at_the_end_of_the_text_resolves() {
    let b = BodyText::extract("x\u{FFFC}end");
    assert_eq!(b.to_buffer_ranges(&[r(1, 4)]), vec![(2, 5)]);
}

/// An empty buffer has no text and no matches.
#[test]
fn an_empty_slice_yields_nothing() {
    let b = BodyText::extract("");
    assert_eq!(b.text(), "");
    assert!(b.to_buffer_ranges(&[]).is_empty());
}

/// A slice that is nothing but anchors extracts to an empty haystack.
#[test]
fn a_slice_of_only_anchors_extracts_to_nothing() {
    let b = BodyText::extract("\u{FFFC}\u{FFFC}");
    assert_eq!(b.text(), "");
    assert!(b.to_buffer_ranges(&[]).is_empty());
}

/// A range that covers no character resolves to nothing.
#[test]
fn a_zero_length_range_resolves_to_nothing() {
    let b = BodyText::extract("ab\u{FFFC}cd");
    assert!(b.to_buffer_ranges(&[r(1, 1)]).is_empty());
    assert_eq!(b.to_buffer_ranges(&[r(1, 1), r(2, 3)]), vec![(3, 4)]);
}

/// The shift counts the anchors at or before a character.
#[test]
fn the_shift_counts_anchors_at_or_before_a_character() {
    let b = BodyText::extract("a\u{FFFC}b\u{FFFC}\u{FFFC}c");
    assert_eq!(b.shift(0), 0);
    assert_eq!(b.shift(1), 1);
    assert_eq!(b.shift(2), 3);
    assert_eq!(b.shift(9), 3);
}

/// The walk resolves byte offsets to character indices moving forward only; a byte behind
/// it answers the index already reached.
#[test]
fn the_walk_resolves_bytes_to_characters_going_forward_only() {
    let b = BodyText::extract("héllo wörld");
    let mut walk = b.walk();
    assert_eq!(walk.char_index_of(0), 0);
    assert_eq!(walk.char_index_of(3), 2, "é is two bytes");
    assert_eq!(walk.char_index_of(9), 8, "ö is two bytes");
    assert_eq!(walk.char_index_of(1), 8, "the walk does not go back");
    assert_eq!(walk.char_index_of(100), 11, "past the end stops at the end");
}

/// A resolved range begins and ends on real characters, and its buffer text, anchors
/// removed, is the matched text.
#[test]
fn a_resolved_range_spells_the_match_in_the_buffer() {
    let slice = "aa\u{FFFC}aa\u{FFFC}\u{FFFC}aa";
    let b = BodyText::extract(slice);
    let chars: Vec<char> = slice.chars().collect();
    for (start, end) in [(1, 3), (0, 6), (3, 5), (2, 4)] {
        let matched = &b.text()[start..end];
        for (s, e) in b.to_buffer_ranges(&[r(start, end)]) {
            let (s, e) = (s as usize, e as usize);
            assert_ne!(chars[s], '\u{FFFC}');
            assert_ne!(chars[e - 1], '\u{FFFC}');
            let spelled: String = chars[s..e].iter().filter(|c| **c != '\u{FFFC}').collect();
            assert_eq!(spelled, matched);
        }
    }
}
