use scribobulate::wrapbox::{pack, Orientation, Rect, ToolbarWrapBox};

#[test]
fn a_child_that_does_not_fit_starts_a_new_row_flush_left() {
    let sizes = [(40, 20), (40, 20)];
    // Wide enough for the first alone, too narrow for both side by side.
    let (rects, height) = pack(&sizes, 42, 2, 0);
    assert_eq!(rects[0], Rect { x: 0, y: 0, width: 40, height: 20 });
    assert_eq!(rects[1], Rect { x: 0, y: 20, width: 40, height: 20 }, "flush at x = 0, on a new row");
    assert_eq!(height, 40);
    let (rects, height) = pack(&sizes, 82, 2, 0);
    assert_eq!(rects[1], Rect { x: 42, y: 0, width: 40, height: 20 }, "one spacing after the first");
    assert_eq!(height, 20);
}

#[test]
fn a_child_wider_than_the_box_gets_a_row_of_its_own() {
    let (rects, height) = pack(&[(10, 5), (100, 8), (10, 5)], 50, 3, 4);
    assert_eq!(rects[0], Rect { x: 0, y: 0, width: 10, height: 5 });
    assert_eq!(rects[1], Rect { x: 0, y: 9, width: 100, height: 8 }, "never squeezed");
    assert_eq!(rects[2], Rect { x: 0, y: 21, width: 10, height: 5 });
    assert_eq!(height, 26);
    assert_eq!(pack(&[], 50, 3, 4), (vec![], 0));
}

#[test]
fn a_short_child_is_centred_in_its_row() {
    let (rects, _) = pack(&[(60, 30), (80, 20), (10, 31)], 200, 4, 4);
    assert_eq!(rects[0].y, 0);
    assert_eq!(rects[1].y, 5, "(31 - 20) / 2 below the row's top");
    assert_eq!(rects[2].y, 0, "the tallest sets the row");
    let centre = |r: Rect| r.y + r.height / 2;
    assert!((centre(rects[0]) - centre(rects[1])).abs() <= 1);
}

#[test]
fn the_box_measures_what_it_lays_out() {
    let wrap = ToolbarWrapBox { column_spacing: 2, row_spacing: 3 };
    let sizes = [(40, 20), (30, 25), (50, 10)];
    assert_eq!(wrap.measure(&sizes, Orientation::Horizontal, -1), (50, 124), "widest child; one row");
    assert_eq!(wrap.measure(&sizes, Orientation::Vertical, -1), (25, 25), "no width yet: one row");
    let (_, height) = pack(&sizes, 75, 2, 3);
    assert_eq!(wrap.measure(&sizes, Orientation::Vertical, 75), (height, height));
    assert_eq!(height, 25 + 3 + 10);
    assert_eq!(wrap.size_allocate(&sizes, 75), pack(&sizes, 75, 2, 3).0);
    assert_eq!(wrap.size_allocate(&sizes, 0), pack(&sizes, 1, 2, 3).0, "at least one pixel wide");
    assert_eq!(wrap.measure(&[], Orientation::Horizontal, -1), (0, 0));
}
