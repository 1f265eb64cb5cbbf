use completion_engine::layout::{doc_placement, fit, Placement, Rect};

fn rect(x: u16, y: u16, width: u16, height: u16) -> Rect {
    Rect { x, y, width, height }
}

#[test]
fn no_panel_in_a_viewport_one_row_higher_than_the_list() {
    let viewport = rect(0, 0, 40, 11);
    assert_eq!(doc_placement(viewport, rect(5, 0, 30, 10), 0), Placement::Hidden);
    assert_eq!(doc_placement(viewport, rect(5, 1, 30, 10), 0), Placement::Hidden);
    assert_eq!(doc_placement(viewport, rect(5, 1, 30, 10), 7), Placement::Hidden);
}

#[test]
fn panel_goes_right_of_the_list_where_there_is_room() {
    let viewport = rect(0, 0, 100, 40);
    let popup = rect(10, 5, 30, 10);
    assert_eq!(doc_placement(viewport, popup, 4), Placement::Side(rect(40, 5, 60, 35)));
    // 31 columns are enough, 30 are not
    assert!(matches!(doc_placement(rect(0, 0, 71, 40), popup, 4), Placement::Side(_)));
    assert!(matches!(doc_placement(rect(0, 0, 70, 40), popup, 4), Placement::Stacked(_)));
}

#[test]
fn panel_goes_below_where_there_is_more_room() {
    let viewport = rect(0, 0, 60, 40);
    let popup = rect(10, 5, 30, 10);
    // above: min(4, 5) - 1 = 3; below: 40 - (15 + 1) = 24, capped at 15
    assert_eq!(doc_placement(viewport, popup, 4), Placement::Stacked(rect(0, 16, 60, 15)));
    // short of the cap
    let low = rect(0, 0, 60, 22);
    assert_eq!(doc_placement(low, popup, 4), Placement::Stacked(rect(0, 16, 60, 6)));
}

#[test]
fn panel_goes_above_where_there_is_more_room() {
    let viewport = rect(0, 0, 60, 40);
    let popup = rect(10, 25, 30, 10);
    // the cursor is below the list: above 25 - 1 = 24, below 40 - (36 + 1) = 3
    assert_eq!(doc_placement(viewport, popup, 36), Placement::Stacked(rect(0, 0, 60, 15)));
    let popup = rect(10, 8, 30, 30);
    // above min(7, 8) - 1 = 6, below 40 - 39 = 1
    assert_eq!(doc_placement(viewport, popup, 7), Placement::Stacked(rect(0, 0, 60, 6)));
}

#[test]
fn panel_of_one_row_is_not_shown() {
    let viewport = rect(0, 0, 60, 20);
    let popup = rect(10, 3, 30, 15);
    // above min(2, 3) - 1 = 1, below 20 - 19 = 1
    assert_eq!(doc_placement(viewport, popup, 2), Placement::Hidden);
    // two rows below are enough
    let viewport = rect(0, 0, 60, 21);
    assert_eq!(doc_placement(viewport, popup, 2), Placement::Stacked(rect(0, 19, 60, 2)));
}

#[test]
fn edges_at_the_limit_do_not_wrap() {
    let viewport = rect(0, 0, 60, u16::MAX);
    let popup = rect(10, u16::MAX - 2, 30, 10);
    assert_eq!(popup.bottom(), u16::MAX);
    assert_eq!(rect(u16::MAX, 0, 5, 0).right(), u16::MAX);
    assert_eq!(doc_placement(viewport, popup, u16::MAX), Placement::Stacked(rect(0, 0, 60, 15)));
}

#[test]
fn fit_shrinks_to_what_the_content_needs() {
    let bounds = rect(40, 5, 60, 35);
    assert_eq!(fit(bounds, Some((20, 50))), rect(40, 5, 20, 35));
    assert_eq!(fit(bounds, Some((80, 7))), rect(40, 5, 60, 7));
    assert_eq!(fit(bounds, None), bounds);
}
