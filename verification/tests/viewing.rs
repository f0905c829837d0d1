use logviewer::controller::commit_search;
use logviewer::controller::jump_to_next_result;
use logviewer::controller::jump_to_previous_result;
use logviewer::display_data::highlight_cut_indices;
use logviewer::display_data::DisplayData;
use logviewer::quick::State;
use logviewer::table::max_column_widths;
use logviewer::table::ColumnLayout;
use logviewer::viewport::ViewportState;

fn corpus(rows: &[&[&str]]) -> Vec<Vec<String>> {
    rows.iter().map(|cells| cells.iter().map(|s| s.to_string()).collect()).collect()
}

#[test]
fn bottom_then_previous_reaches_top() {
    // Jump to the bottom of a ten-row corpus, then step up once per row:
    // the selection always comes to rest on row zero.
    let mut view = ViewportState::new(6);
    view.toggle_wrap(4, 3);
    view.toggle_wrap(7, 2);
    assert_eq!(3, view.height);
    view.jump_to_bottom(10);
    assert_eq!(9, view.selected_absolute());
    for _ in 0..10 {
        view.select_previous_line();
    }
    assert_eq!(0, view.selected_absolute());
}

#[test]
fn toggle_wrap_twice_restores_budget() {
    let mut view = ViewportState::new(12);
    view.toggle_wrap(5, 4);
    assert_eq!(4, view.height_at(5));
    assert_eq!(9, view.height);
    view.toggle_wrap(5, 4);
    assert_eq!(1, view.height_at(5));
    assert_eq!(12, view.height);
}

#[test]
fn select_scrolls_by_row_height() {
    let mut view = ViewportState::new(4);
    view.toggle_wrap(0, 3);
    // Expanding row zero takes two extra lines out of the budget.
    assert_eq!(2, view.height);
    // The selection advances inside the window, then scrolling skips the
    // tall row leaving at the top in one step.
    view.select_next_line(10);
    assert_eq!(1, view.selected_absolute());
    view.select_next_line(10);
    assert_eq!((3, 1), (view.vertical_offset, view.selected));
    // Saturation: the last row never scrolls past.
    let mut tail = ViewportState::new(5);
    tail.select(Some(9));
    tail.select_next_line(10);
    assert_eq!(9, tail.selected_absolute());
}

#[test]
fn select_reanchors_outside_window() {
    let mut view = ViewportState::new(5);
    view.select(Some(3));
    assert_eq!((0, 3), (view.vertical_offset, view.selected));
    view.select(Some(17));
    assert_eq!((17, 0), (view.vertical_offset, view.selected));
    view.select(None);
    assert_eq!((17, 0), (view.vertical_offset, view.selected));
}

#[test]
fn paging_walks_row_by_row() {
    let mut view = ViewportState::new(4);
    view.page_down(10);
    assert_eq!(4, view.selected_absolute());
    view.page_down(10);
    assert_eq!(8, view.selected_absolute());
    view.page_up();
    view.page_up();
    view.page_up();
    assert_eq!(0, view.selected_absolute());
    view.jump_to_top();
    assert_eq!((0, 0), (view.vertical_offset, view.selected));
}

#[test]
fn recompute_corrects_visible_heights() {
    let mut view = ViewportState::new(0);
    view.select(Some(2));
    // Rows 2..5 render 1, 3 and 2 lines tall: the budget shrinks by the
    // extra lines, stale overrides of single-line rows are dropped.
    view.toggle_wrap(2, 4);
    view.recompute_visible(6, &vec![1, 3, 2]);
    assert_eq!(1, view.height_at(2));
    assert_eq!(3, view.height_at(3));
    assert_eq!(2, view.height_at(4));
    // The fresh budget of six gains the stale override's three lines back
    // and loses the three extra lines of the two tall rows.
    assert_eq!(6, view.height);
}

#[test]
fn search_jumps_end_to_end() {
    // Ten rows; "err" matches rows 2, 5 and 9.  Committing the query from
    // row zero lands on the nearest match, stepping walks 5, 9, and stays
    // at 9 without wrapping; stepping back returns to 5.
    let texts = corpus(&[
        &["calm start"],
        &["all fine"],
        &["an error here"],
        &["ok"],
        &["ok"],
        &["errand gone wrong"],
        &["ok"],
        &["ok"],
        &["ok"],
        &["terrible end"],
    ]);
    let mut state = State::default();
    state.input_mut().push_str("err");
    let mut view = ViewportState::new(3);

    let count = commit_search(&mut state, &mut view, &texts);

    assert_eq!(3, count);
    assert_eq!(2, view.selected_absolute());
    jump_to_next_result(&mut view, state.results());
    assert_eq!(5, view.selected_absolute());
    jump_to_next_result(&mut view, state.results());
    assert_eq!(9, view.selected_absolute());
    jump_to_next_result(&mut view, state.results());
    assert_eq!(9, view.selected_absolute());
    jump_to_previous_result(&mut view, state.results());
    assert_eq!(5, view.selected_absolute());
}

#[test]
fn highlight_cuts_flatten_positions() {
    let texts = corpus(&[&["xaxxa xa"]]);
    let mut state = State::default();
    state.input_mut().push_str("xa");
    state.update(&texts);
    let line = state.results().iter()[0].clone();
    let column = &line.iter()[0];
    assert_eq!(vec![(0, 2), (3, 5), (6, 8)], column.iter().clone());
    // The final end offset is not strictly inside the text and is dropped.
    assert_eq!(vec![0, 2, 3, 5, 6], highlight_cut_indices(column, 8));
}

#[test]
fn rendered_height_follows_wrap_flag() {
    let texts = vec!["t".to_string(), "Lorem ipsum dolor sit amet".to_string()];
    let widths = vec![1, 26];
    let mut data = DisplayData::new(texts, widths);
    assert_eq!(1, data.rendered_height(10));
    data.toggle_wrap();
    assert!(data.wrapped);
    assert_eq!(3, data.rendered_height(10));
    assert_eq!(1, data.rendered_height(30));
    data.toggle_wrap();
    assert_eq!(1, data.rendered_height(10));
}

#[test]
fn column_layout_arithmetic() {
    let widths = max_column_widths(
        &vec![vec![4, 2, 2, 1, 10, 30], vec![8, 3, 1, 1, 6, 20]],
        6,
    );
    assert_eq!(vec![8, 3, 2, 1, 10, 30], widths);

    let mut layout = ColumnLayout::new(widths, 60);
    // 60 - 1 - (8 + 3 + 2 + 1 + 10) - 6 = 29
    assert_eq!(29, layout.available_message_width());
    layout.right();
    // 60 - 1 - (3 + 2 + 1 + 10) - 5 = 38
    assert_eq!(38, layout.available_message_width());
    layout.left();
    layout.left();
    assert_eq!(0, layout.column_offset);
    for _ in 0..9 {
        layout.right();
    }
    assert_eq!(5, layout.column_offset);
}
