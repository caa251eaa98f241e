use helix_addons::mouse_hover::{
    hover_popup_action, hover_server_positions, should_request_hover, HoverPopupAction, MouseHoverEvent,
    MouseHoverHandler, PendingHover,
};
use helix_addons::symbol_tree::{
    build_symbol_tree, row_line, symbol_kind_str, DocumentSymbol, DocumentSymbolResponse, LspPosition, LspRange,
    OffsetEncoding, SymbolInformation, SymbolKind, SymbolTreeNode, SymbolTreeView, TreeInput, TreeResponse,
};

fn range(start: u32, end: u32) -> LspRange {
    LspRange {
        start: LspPosition { line: start, character: 0 },
        end: LspPosition { line: end, character: 0 },
    }
}

fn sym(name: &str, kind: i32, start: u32, end: u32, children: Option<Vec<DocumentSymbol>>) -> DocumentSymbol {
    DocumentSymbol {
        name: name.to_string(),
        kind: SymbolKind(kind),
        range: range(start, end),
        selection_range: range(start, start),
        children,
    }
}

/// A struct with two methods, the second holding a local, and a free function.
fn sample_roots() -> Vec<SymbolTreeNode> {
    let response = DocumentSymbolResponse::Nested(vec![
        sym(
            "Widget",
            23,
            0,
            20,
            Some(vec![
                sym("new", 6, 2, 5, None),
                sym("draw", 6, 7, 15, Some(vec![sym("area", 13, 8, 8, None)])),
            ]),
        ),
        sym("main", 12, 22, 30, Some(vec![])),
    ]);
    build_symbol_tree(response, "/src/widget.rs".to_string(), OffsetEncoding::Utf8)
}

fn names(view: &SymbolTreeView) -> Vec<String> {
    view.shown().iter().map(|f| f.name.clone()).collect()
}

#[test]
fn nested_symbols_keep_their_nesting_and_start_unfolded() {
    let roots = sample_roots();
    assert_eq!(roots.len(), 2);
    assert_eq!(roots[0].name, "Widget");
    assert!(roots[0].expanded);
    assert!(roots[0].has_children());
    assert_eq!(roots[0].children.len(), 2);
    assert_eq!(roots[0].children[1].children[0].name, "area");
    assert_eq!(roots[0].uri, "/src/widget.rs");
    assert!(!roots[1].has_children());
}

#[test]
fn flat_symbols_become_leaves_selecting_their_range() {
    let response = DocumentSymbolResponse::Flat(vec![
        SymbolInformation { name: "a".to_string(), kind: SymbolKind(12), range: range(1, 3) },
        SymbolInformation { name: "b".to_string(), kind: SymbolKind(13), range: range(5, 5) },
    ]);
    let roots = build_symbol_tree(response, "/x.rs".to_string(), OffsetEncoding::Utf16);
    assert_eq!(roots.len(), 2);
    assert_eq!(roots[1].name, "b");
    assert_eq!(roots[1].selection_range, range(5, 5));
    assert_eq!(roots[1].offset_encoding, OffsetEncoding::Utf16);
    assert!(roots[0].children.is_empty());
    assert!(roots[0].expanded);
}

#[test]
fn shown_rows_are_the_unfolded_tree_in_order() {
    let view = SymbolTreeView::new(sample_roots(), 1, true);
    assert_eq!(names(&view), vec!["Widget", "new", "draw", "area", "main"]);
    let rows = view.shown();
    assert_eq!(rows[3].path, vec![0, 1, 0]);
    assert_eq!(rows[3].depth, 2);
    assert_eq!(rows[4].path, vec![1]);
    assert_eq!(view.cursor_row(), 0);
}

#[test]
fn new_at_position_picks_the_deepest_symbol() {
    let view = SymbolTreeView::new_at_position(sample_roots(), 1, true, Some(8));
    assert_eq!(view.cursor_row(), 3);
    let view = SymbolTreeView::new_at_position(sample_roots(), 1, true, Some(3));
    assert_eq!(view.cursor_row(), 1);
    let view = SymbolTreeView::new_at_position(sample_roots(), 1, true, Some(21));
    assert_eq!(view.cursor_row(), 0);
    let view = SymbolTreeView::new_at_position(sample_roots(), 1, true, Some(99));
    assert_eq!(view.cursor_row(), 0);
}

#[test]
fn equal_ranges_prefer_the_later_row() {
    let response = DocumentSymbolResponse::Flat(vec![
        SymbolInformation { name: "outer".to_string(), kind: SymbolKind(12), range: range(1, 4) },
        SymbolInformation { name: "twin".to_string(), kind: SymbolKind(12), range: range(2, 3) },
        SymbolInformation { name: "twin2".to_string(), kind: SymbolKind(12), range: range(2, 3) },
    ]);
    let roots = build_symbol_tree(response, "/x.rs".to_string(), OffsetEncoding::Utf8);
    let view = SymbolTreeView::new(roots, 0, false);
    assert_eq!(view.find_deepest_symbol_at_line(2), Some(2));
    assert_eq!(view.find_deepest_symbol_at_line(1), Some(0));
    assert_eq!(view.find_deepest_symbol_at_line(9), None);
}

#[test]
fn cursor_moves_stay_on_the_rows() {
    let mut view = SymbolTreeView::new(sample_roots(), 1, true);
    view.move_up();
    assert_eq!(view.cursor_row(), 0);
    for _ in 0..10 {
        view.move_down();
    }
    assert_eq!(view.cursor_row(), 4);
    view.move_up();
    assert_eq!(view.cursor_row(), 3);
}

#[test]
fn toggle_twice_restores_the_rows() {
    let mut view = SymbolTreeView::new(sample_roots(), 1, true);
    view.toggle_current();
    assert_eq!(names(&view), vec!["Widget", "main"]);
    assert!(!view.roots()[0].expanded);
    assert!(!view.shown()[0].is_expanded);
    view.toggle_current();
    assert_eq!(names(&view), vec!["Widget", "new", "draw", "area", "main"]);
    assert!(view.roots()[0].expanded);
}

#[test]
fn toggle_on_a_leaf_changes_nothing() {
    let mut view = SymbolTreeView::new(sample_roots(), 1, true);
    view.move_down();
    view.toggle_current();
    assert_eq!(names(&view), vec!["Widget", "new", "draw", "area", "main"]);
    assert_eq!(view.cursor_row(), 1);
}

#[test]
fn collapse_folds_then_goes_to_parent() {
    let mut view = SymbolTreeView::new_at_position(sample_roots(), 1, true, Some(8));
    assert_eq!(view.cursor_row(), 3);
    view.collapse_or_parent();
    assert_eq!(view.cursor_row(), 2);
    view.collapse_or_parent();
    assert_eq!(names(&view), vec!["Widget", "new", "draw", "main"]);
    assert_eq!(view.cursor_row(), 2);
    view.collapse_or_parent();
    assert_eq!(view.cursor_row(), 0);
    view.collapse_or_parent();
    assert_eq!(names(&view), vec!["Widget", "main"]);
    view.collapse_or_parent();
    assert_eq!(view.cursor_row(), 0);
}

#[test]
fn expand_unfolds_then_steps_in() {
    let mut view = SymbolTreeView::new(sample_roots(), 1, true);
    view.collapse_all();
    assert_eq!(names(&view), vec!["Widget", "main"]);
    view.expand_current();
    assert_eq!(names(&view), vec!["Widget", "new", "draw", "main"]);
    assert_eq!(view.cursor_row(), 0);
    view.expand_current();
    assert_eq!(view.cursor_row(), 1);
}

#[test]
fn collapse_all_keeps_the_cursor_on_the_rows() {
    let mut view = SymbolTreeView::new(sample_roots(), 1, true);
    for _ in 0..3 {
        view.move_down();
    }
    assert_eq!(view.cursor_row(), 3);
    view.collapse_all();
    assert_eq!(names(&view), vec!["Widget", "main"]);
    assert_eq!(view.cursor_row(), 1);
    view.expand_all();
    assert_eq!(names(&view), vec!["Widget", "new", "draw", "area", "main"]);
    assert_eq!(view.cursor_row(), 1);
}

#[test]
fn current_location_is_the_selection_of_the_cursor_row() {
    let mut view = SymbolTreeView::new(sample_roots(), 1, true);
    view.move_down();
    view.move_down();
    let (uri, sel, enc) = view.current_location().unwrap();
    assert_eq!(uri, "/src/widget.rs");
    assert_eq!(sel, range(7, 7));
    assert_eq!(enc, OffsetEncoding::Utf8);
    let empty = SymbolTreeView::new(Vec::new(), 1, true);
    assert!(empty.current_location().is_none());
    assert_eq!(empty.shown().len(), 0);
}

#[test]
fn kind_labels() {
    assert_eq!(symbol_kind_str(SymbolKind(1)), "fil");
    assert_eq!(symbol_kind_str(SymbolKind(12)), "fn");
    assert_eq!(symbol_kind_str(SymbolKind(10)), "enm");
    assert_eq!(symbol_kind_str(SymbolKind(22)), "enm");
    assert_eq!(symbol_kind_str(SymbolKind(26)), "typ");
    assert_eq!(symbol_kind_str(SymbolKind(0)), "???");
    assert_eq!(symbol_kind_str(SymbolKind(27)), "???");
}

#[test]
fn row_lines_are_indented_and_cut() {
    let mut view = SymbolTreeView::new(sample_roots(), 1, true);
    assert_eq!(row_line(&view.shown()[0], 80), "▼ stc Widget");
    assert_eq!(row_line(&view.shown()[3], 80), "      var area");
    assert_eq!(row_line(&view.shown()[2], 8), "  ▼ mth ");
    view.toggle_current();
    assert_eq!(row_line(&view.shown()[0], 80), "▶ stc Widget");
    assert_eq!(row_line(&view.shown()[1], 0), "");
}

#[test]
fn scrolling_follows_the_cursor() {
    let mut view = SymbolTreeView::new(sample_roots(), 1, true);
    for _ in 0..4 {
        view.move_down();
    }
    view.scroll_to_cursor(2);
    assert_eq!(view.scroll_offset(), 3);
    view.move_up();
    view.move_up();
    view.scroll_to_cursor(2);
    assert_eq!(view.scroll_offset(), 2);
    view.scroll_to_cursor(10);
    assert_eq!(view.scroll_offset(), 2);
}

#[test]
fn required_size_takes_a_third() {
    let right = SymbolTreeView::new(sample_roots(), 1, true);
    assert_eq!(right.required_size((120, 40)), Some((30, 40)));
    assert_eq!(right.required_size((60, 40)), Some((20, 40)));
    let bottom = SymbolTreeView::new(sample_roots(), 1, false);
    assert_eq!(bottom.required_size((120, 40)), Some((120, 13)));
}

#[test]
fn keys_drive_the_panel() {
    let mut view = SymbolTreeView::new(sample_roots(), 1, true);
    assert_eq!(view.handle_input(TreeInput::Down), TreeResponse::Consumed);
    assert_eq!(view.cursor_row(), 1);
    assert_eq!(view.handle_input(TreeInput::Tab), TreeResponse::Ignored);
    assert_eq!(view.handle_input(TreeInput::Up), TreeResponse::Consumed);
    assert_eq!(view.handle_input(TreeInput::Tab), TreeResponse::Consumed);
    assert_eq!(names(&view), vec!["Widget", "main"]);
    assert_eq!(view.handle_input(TreeInput::Right), TreeResponse::Consumed);
    assert_eq!(names(&view), vec!["Widget", "new", "draw", "area", "main"]);
    assert_eq!(view.handle_input(TreeInput::Left), TreeResponse::Consumed);
    assert_eq!(names(&view), vec!["Widget", "main"]);
    assert_eq!(view.handle_input(TreeInput::Enter), TreeResponse::Jump);
    assert_eq!(view.handle_input(TreeInput::FoldPrefix), TreeResponse::Consumed);
    assert_eq!(view.handle_input(TreeInput::Resize), TreeResponse::Consumed);
    assert_eq!(view.handle_input(TreeInput::Close), TreeResponse::Close);
    assert_eq!(view.handle_input(TreeInput::Other), TreeResponse::Ignored);
}

#[test]
fn hover_waits_once_per_place() {
    let mut h = MouseHoverHandler::new();
    let step = h.handle_event(MouseHoverEvent::Moved { view_id: 1, char_pos: 10, delay_ms: 500 });
    assert_eq!(step.timeout_ms, Some(500));
    assert!(step.cancel_requests);
    assert!(!step.close_popup);
    let again = h.handle_event(MouseHoverEvent::Moved { view_id: 1, char_pos: 10, delay_ms: 500 });
    assert_eq!(again.timeout_ms, None);
    assert!(!again.cancel_requests);
    let moved = h.handle_event(MouseHoverEvent::Moved { view_id: 1, char_pos: 11, delay_ms: 300 });
    assert_eq!(moved.timeout_ms, Some(300));
    assert_eq!(h.finish_debounce(), Some(PendingHover { view_id: 1, char_pos: 11 }));
    assert_eq!(h.finish_debounce(), None);
}

#[test]
fn hover_cancel_closes_the_popup() {
    let mut h = MouseHoverHandler::new();
    h.handle_event(MouseHoverEvent::Moved { view_id: 2, char_pos: 3, delay_ms: 100 });
    let step = h.handle_event(MouseHoverEvent::Cancel);
    assert!(step.close_popup);
    assert!(step.cancel_requests);
    assert_eq!(step.timeout_ms, None);
    assert_eq!(h.finish_debounce(), None);
    let done = h.handle_event(MouseHoverEvent::RequestComplete { open: true });
    assert!(done.cancel_requests);
    assert!(!done.close_popup);
}

#[test]
fn hover_requests_need_a_server_and_a_place() {
    assert!(should_request_hover(true, 1, 3, 10));
    assert!(!should_request_hover(false, 1, 3, 10));
    assert!(!should_request_hover(true, 0, 3, 10));
    assert!(!should_request_hover(true, 2, 10, 10));
}

#[test]
fn hover_popup_decisions() {
    assert_eq!(hover_popup_action(true, None), HoverPopupAction::Nothing);
    assert_eq!(hover_popup_action(true, Some(false)), HoverPopupAction::Remove);
    assert_eq!(hover_popup_action(true, Some(true)), HoverPopupAction::Nothing);
    assert_eq!(hover_popup_action(false, Some(true)), HoverPopupAction::Nothing);
    assert_eq!(hover_popup_action(false, Some(false)), HoverPopupAction::Show);
    assert_eq!(hover_popup_action(false, None), HoverPopupAction::Show);
}

#[test]
fn each_hover_server_is_asked_once() {
    assert_eq!(hover_server_positions(&vec![7, 3, 7, 9, 3]), vec![0, 1, 3]);
    assert_eq!(hover_server_positions(&vec![]), Vec::<usize>::new());
}

#[test]
fn tree_area_placement() {
    let right = SymbolTreeView::new(sample_roots(), 1, true);
    assert_eq!(right.tree_area(0, 0, 120, 40), (90, 0, 30, 40));
    assert_eq!(right.tree_area(10, 2, 60, 40), (50, 2, 20, 40));
    assert_eq!(right.tree_area(0, 0, 30, 10), (10, 0, 20, 10));
    let bottom = SymbolTreeView::new(sample_roots(), 1, false);
    assert_eq!(bottom.tree_area(0, 0, 120, 40), (0, 27, 120, 13));
    assert_eq!(bottom.tree_area(0, 1, 80, 9), (0, 5, 80, 5));
}
