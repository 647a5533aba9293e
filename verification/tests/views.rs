//! Views, places to go to and windows.

use helix_term::editor::{
    Action, Buffer, Context, Diagnostic, Direction, Document, Editor, Effect, IndentStyle, Key,
    Layer, Mode, NextKey, Position, RelativePath, Severity, Window,
};
use helix_term::registers::Registers;
use helix_term::selection::{Range, Selection};
use ropey::Rope;
use helix_term::lsp::{LspPosition, OffsetEncoding};
use helix_term::view::{self, Align};
use helix_term::{goto, window};

fn document(text: &str, ranges: &[(usize, usize)]) -> Document {
    Document {
        id: 7,
        text: Rope::from_str(text),
        selection: Selection {
            ranges: ranges.iter().map(|r| Range::new(r.0, r.1)).collect(),
            primary_index: 0,
        },
        mode: Mode::Normal,
        restore_cursor: false,
        indent_style: IndentStyle::Spaces(4),
        indent_unit: "    ".to_string(),
        tab_width: 4,
        diagnostics: Vec::new(),
        language_server: None,
        has_syntax: false,
        path: None,
        auto_format: false,
    }
}

fn context(text: &str, ranges: &[(usize, usize)]) -> Context {
    Context {
        selected_register: '"',
        count: None,
        editor: Editor {
            view: Window {
                id: 1,
                doc: 7,
                first_line: 0,
                first_col: 0,
                width: 80,
                height: 10,
                padding: 5,
                last_accessed_doc: None,
            },
            doc: document(text, ranges),
            registers: Registers::new(),
            selected_register: '"',
            status_msg: None,
            documents: Vec::new(),
            views: vec![1],
            effects: Vec::new(),
        },
        callback: None,
        on_next_key_callback: None,
        callbacks: Vec::new(),
    }
}

/// The selection that was asked for last, as anchors and heads.
fn selected(cx: &Context) -> Vec<(usize, usize)> {
    match cx.editor.effects.last() {
        Some(Effect::SetSelection(selection)) => {
            selection.ranges.iter().map(|r| (r.anchor, r.head)).collect()
        }
        other => panic!("no selection: {:?}", other),
    }
}

fn coords(text: &Rope, pos: usize) -> Position {
    let row = text.char_to_line(pos);
    Position { row, col: pos - text.line_to_char(row) }
}

fn at_coords(text: &Rope, position: Position) -> usize {
    text.line_to_char(position.row) + position.col
}

fn last_line(view: &Window, text: &Rope) -> usize {
    (view.first_line + view.height as usize).min(text.len_lines() - 1)
}

fn lsp_pos(text: &Rope, pos: usize, _: OffsetEncoding) -> LspPosition {
    let at = coords(text, pos);
    LspPosition { line: at.row as u32, character: at.col as u32 }
}

fn hundred_lines() -> String {
    "0123456789\n".repeat(100)
}

#[test]
fn aligned_lines_are_where_they_are_wanted() {
    let doc = document(&hundred_lines(), &[(0, 550)]);
    let mut view = context("", &[(0, 0)]).editor.view;
    view::align_view(&doc, &mut view, Align::Top);
    assert_eq!(view.first_line, 50);
    view::align_view(&doc, &mut view, Align::Center);
    assert_eq!(view.first_line, 45);
    view::align_view(&doc, &mut view, Align::Bottom);
    assert_eq!(view.first_line, 40);
    let doc = document(&hundred_lines(), &[(0, 33)]);
    view::align_view(&doc, &mut view, Align::Center);
    assert_eq!(view.first_line, 0);
}

#[test]
fn scrolling_keeps_the_cursor_in_sight() {
    let mut cx = context(&hundred_lines(), &[(0, 3)]);
    view::page_down(&mut cx, coords, at_coords, last_line);
    assert_eq!(cx.editor.view.first_line, 10);
    // five lines of margin at the top of the view
    assert_eq!(selected(&cx), vec![(15 * 11 + 3, 15 * 11 + 3)]);
    view::half_page_down(&mut cx, coords, at_coords, last_line);
    assert_eq!(cx.editor.view.first_line, 15);
    view::half_page_up(&mut cx, coords, at_coords, last_line);
    assert_eq!(cx.editor.view.first_line, 10);
    view::page_up(&mut cx, coords, at_coords, last_line);
    assert_eq!(cx.editor.view.first_line, 0);
    assert_eq!(selected(&cx), vec![(5 * 11 + 3, 5 * 11 + 3)]);
}

#[test]
fn there_is_nothing_to_scroll_to_at_the_edges() {
    let mut cx = context(&hundred_lines(), &[(0, 3)]);
    view::page_up(&mut cx, coords, at_coords, last_line);
    assert_eq!(cx.editor.effects.len(), 0);
    cx.editor.view.first_line = 95;
    view::page_down(&mut cx, coords, at_coords, last_line);
    assert_eq!(cx.editor.effects.len(), 0);
    assert_eq!(cx.editor.view.first_line, 95);
    view::scroll(&mut cx, 1000, Direction::Backward, coords, at_coords, last_line);
    assert_eq!(cx.editor.view.first_line, 0);
}

#[test]
fn view_keys_align_scroll_and_center() {
    let mut cx = context(&hundred_lines(), &[(550, 553)]);
    view::view_mode(&mut cx);
    assert_eq!(cx.on_next_key_callback, Some(NextKey::View));
    for (ch, first_line) in [('t', 50), ('z', 45), ('c', 45), ('b', 40)] {
        view::view_key(&mut cx, Key::Char(ch), coords, at_coords, last_line);
        assert_eq!(cx.editor.view.first_line, first_line);
    }
    view::view_key(&mut cx, Key::Char('j'), coords, at_coords, last_line);
    assert_eq!(cx.editor.view.first_line, 41);
    view::view_key(&mut cx, Key::Char('k'), coords, at_coords, last_line);
    assert_eq!(cx.editor.view.first_line, 40);
    let asked = cx.editor.effects.len();
    for key in [Key::Char('h'), Key::Char('l'), Key::Char('x'), Key::Enter, Key::Other] {
        view::view_key(&mut cx, key, coords, at_coords, last_line);
    }
    assert_eq!(cx.editor.effects.len(), asked);
    let mut cx = context(&"x".repeat(200), &[(0, 100)]);
    view::view_key(&mut cx, Key::Char('m'), coords, at_coords, last_line);
    assert_eq!(cx.editor.view.first_col, 100 - (80 - 7) / 2);
}

#[test]
fn going_somewhere_remembers_where_the_cursor_was() {
    let mut cx = context("a\nb\nc\n", &[(0, 1)]);
    goto::move_file_end(&mut cx);
    match &cx.editor.effects[0] {
        Effect::PushJump(doc, selection) => {
            assert_eq!(*doc, 7);
            assert_eq!((selection.ranges[0].anchor, selection.ranges[0].head), (0, 1));
        }
        other => panic!("no jump: {:?}", other),
    }
    assert_eq!(selected(&cx), vec![(4, 4)]);
    goto::move_file_start(&mut cx);
    assert_eq!(selected(&cx), vec![(0, 0)]);
    let mut cx = context("", &[(0, 0)]);
    goto::move_file_end(&mut cx);
    assert_eq!(selected(&cx), vec![(0, 0)]);
}

#[test]
fn a_count_goes_to_a_line() {
    let mut cx = context("a\nb\nc\n", &[(0, 0)]);
    cx.count = Some(2);
    goto::goto_mode(&mut cx);
    assert_eq!(selected(&cx), vec![(2, 2)]);
    cx.count = Some(90);
    goto::goto_mode(&mut cx);
    assert_eq!(selected(&cx), vec![(4, 4)]);
    cx.count = None;
    goto::goto_mode(&mut cx);
    assert_eq!(cx.on_next_key_callback, Some(NextKey::Goto));
}

#[test]
fn goto_keys_depend_on_the_mode() {
    let mut cx = context("  ab\ncd\n", &[(1, 3)]);
    goto::goto_key(&mut cx, Key::Char('h'), lsp_pos, last_line);
    assert_eq!(selected(&cx), vec![(0, 0)]);
    goto::goto_key(&mut cx, Key::Char('l'), lsp_pos, last_line);
    assert_eq!(selected(&cx), vec![(3, 3)]);
    goto::goto_key(&mut cx, Key::Char('s'), lsp_pos, last_line);
    assert_eq!(selected(&cx), vec![(2, 2)]);
    cx.editor.doc.mode = Mode::Select;
    goto::goto_key(&mut cx, Key::Char('h'), lsp_pos, last_line);
    assert_eq!(selected(&cx), vec![(1, 0)]);
    goto::goto_key(&mut cx, Key::Char('l'), lsp_pos, last_line);
    assert_eq!(selected(&cx), vec![(1, 3)]);
    goto::goto_key(&mut cx, Key::Char('s'), lsp_pos, last_line);
    assert_eq!(selected(&cx), vec![(1, 2)]);
    cx.editor.doc.mode = Mode::Insert;
    let asked = cx.editor.effects.len();
    goto::goto_key(&mut cx, Key::Char('h'), lsp_pos, last_line);
    goto::goto_key(&mut cx, Key::Char('x'), lsp_pos, last_line);
    goto::goto_key(&mut cx, Key::Enter, lsp_pos, last_line);
    assert_eq!(cx.editor.effects.len(), asked);
    goto::goto_key(&mut cx, Key::Char('e'), lsp_pos, last_line);
    assert_eq!(selected(&cx), vec![(5, 5)]);
    goto::goto_key(&mut cx, Key::Char('g'), lsp_pos, last_line);
    assert_eq!(selected(&cx), vec![(0, 0)]);
}

#[test]
fn goto_keys_go_to_lines_in_sight() {
    let mut cx = context(&hundred_lines(), &[(0, 0)]);
    cx.editor.view.first_line = 20;
    cx.editor.view.padding = 2;
    for (ch, line) in [('t', 22), ('m', 25), ('b', 28)] {
        goto::goto_key(&mut cx, Key::Char(ch), lsp_pos, last_line);
        assert_eq!(selected(&cx), vec![(line * 11, line * 11)]);
    }
}

#[test]
fn the_last_document_is_shown_again() {
    let mut cx = context("a\n", &[(0, 0)]);
    goto::goto_key(&mut cx, Key::Char('a'), lsp_pos, last_line);
    assert_eq!(
        cx.editor.status_msg,
        Some(("no last accessed buffer".to_string(), Severity::Error))
    );
    assert_eq!(cx.editor.effects.len(), 0);
    cx.editor.view.last_accessed_doc = Some(9);
    goto::switch_to_last_accessed_file(&mut cx);
    assert!(matches!(cx.editor.effects[0], Effect::Switch(9, Action::Replace)));
}

#[test]
fn remarks_are_gone_to_around_the_end() {
    let mut cx = context(&hundred_lines(), &[(0, 50)]);
    for start in [20, 50, 80] {
        cx.editor.doc.diagnostics.push(Diagnostic { start, end: start + 1 });
    }
    goto::goto_next_diag(&mut cx);
    assert_eq!(selected(&cx), vec![(80, 80)]);
    assert!(matches!(cx.editor.effects[0], Effect::PushJump(7, _)));
    assert_eq!(cx.editor.view.first_line, 2);
    goto::goto_prev_diag(&mut cx);
    assert_eq!(selected(&cx), vec![(20, 20)]);
    cx.editor.doc.selection = Selection::point(90);
    goto::goto_next_diag(&mut cx);
    assert_eq!(selected(&cx), vec![(20, 20)]);
    cx.editor.doc.selection = Selection::point(10);
    goto::goto_prev_diag(&mut cx);
    assert_eq!(selected(&cx), vec![(80, 80)]);
    goto::goto_first_diag(&mut cx);
    assert_eq!(selected(&cx), vec![(20, 20)]);
    goto::goto_last_diag(&mut cx);
    assert_eq!(selected(&cx), vec![(80, 80)]);
}

#[test]
fn next_remarks_come_in_turn() {
    let mut cx = context(&hundred_lines(), &[(50, 50)]);
    goto::goto_next_diag(&mut cx);
    assert_eq!(cx.editor.effects.len(), 0);
    for start in [20, 40, 80] {
        cx.editor.doc.diagnostics.push(Diagnostic { start, end: start + 1 });
    }
    for start in [80, 20, 40] {
        goto::goto_next_diag(&mut cx);
        assert_eq!(selected(&cx), vec![(start, start)]);
        cx.editor.doc.selection = Selection::point(start);
    }
    assert_eq!(cx.editor.effects.len(), 6);
}

#[test]
fn bracket_keys_go_to_remarks() {
    let mut cx = context(&hundred_lines(), &[(0, 50)]);
    goto::right_bracket_key(&mut cx, Key::Char('d'));
    goto::left_bracket_key(&mut cx, Key::Char('D'));
    assert_eq!(cx.editor.effects.len(), 0);
    goto::left_bracket_mode(&mut cx);
    assert_eq!(cx.on_next_key_callback, Some(NextKey::LeftBracket));
    goto::right_bracket_mode(&mut cx);
    assert_eq!(cx.on_next_key_callback, Some(NextKey::RightBracket));
    for start in [10, 20, 80, 90] {
        cx.editor.doc.diagnostics.push(Diagnostic { start, end: start });
    }
    goto::right_bracket_key(&mut cx, Key::Char('d'));
    assert_eq!(selected(&cx), vec![(80, 80)]);
    goto::right_bracket_key(&mut cx, Key::Char('D'));
    assert_eq!(selected(&cx), vec![(90, 90)]);
    goto::left_bracket_key(&mut cx, Key::Char('d'));
    assert_eq!(selected(&cx), vec![(20, 20)]);
    goto::left_bracket_key(&mut cx, Key::Char('D'));
    assert_eq!(selected(&cx), vec![(10, 10)]);
    let asked = cx.editor.effects.len();
    goto::left_bracket_key(&mut cx, Key::Char('x'));
    goto::right_bracket_key(&mut cx, Key::Other);
    assert_eq!(cx.editor.effects.len(), asked);
}

#[test]
fn remembered_places_may_be_in_other_documents() {
    let mut cx = context(&hundred_lines(), &[(0, 0)]);
    cx.count = Some(3);
    goto::jump_forward(&mut cx);
    goto::jump_backward(&mut cx);
    assert_eq!(format!("{:?}", cx.editor.effects), "[JumpForward(3), JumpBackward(3)]");
    goto::jump_to_remembered(&mut cx, 8, Selection::point(5), Direction::Forward);
    assert_eq!(cx.editor.view.doc, 8);
    assert_eq!(cx.editor.view.last_accessed_doc, None);
    goto::jump_to_remembered(&mut cx, 7, Selection::point(5), Direction::Backward);
    assert_eq!(cx.editor.view.doc, 7);
    assert_eq!(cx.editor.view.last_accessed_doc, Some(8));
    goto::jump_to_remembered(&mut cx, 7, Selection::point(5), Direction::Backward);
    assert_eq!(cx.editor.view.last_accessed_doc, Some(8));
    assert!(matches!(cx.editor.effects.last(), Some(Effect::Arrive(_))));
    goto::arrive(&mut cx, Selection::point(550));
    assert_eq!(selected(&cx), vec![(550, 550)]);
    assert_eq!(cx.editor.view.first_line, 45);
}

#[test]
fn a_split_view_shows_the_same() {
    let mut cx = context(&hundred_lines(), &[(3, 5)]);
    cx.editor.view.first_line = 12;
    window::vsplit(&mut cx);
    assert!(matches!(cx.editor.effects[0], Effect::Switch(7, Action::VerticalSplit)));
    let mut other = context(&hundred_lines(), &[(0, 0)]);
    match cx.editor.effects.pop() {
        Some(Effect::MatchView(first_line, selection)) => {
            window::match_view(&mut other, first_line, selection);
        }
        effect => panic!("no view: {:?}", effect),
    }
    assert_eq!(other.editor.view.first_line, 12);
    assert_eq!(selected(&other), vec![(3, 5)]);
}

#[test]
fn window_keys_ask_for_views() {
    let mut cx = context("a\n", &[(0, 0)]);
    window::window_mode(&mut cx);
    assert_eq!(cx.on_next_key_callback, Some(NextKey::Window));
    window::window_key(&mut cx, Key::Char('w'));
    window::window_key(&mut cx, Key::Char('q'));
    window::window_key(&mut cx, Key::Char('x'));
    window::window_key(&mut cx, Key::Enter);
    assert_eq!(format!("{:?}", cx.editor.effects), "[FocusNext, Close(1, false)]");
    window::window_key(&mut cx, Key::Char('h'));
    assert!(matches!(cx.editor.effects[2], Effect::Switch(7, Action::HorizontalSplit)));
    window::window_key(&mut cx, Key::Char('v'));
    assert!(matches!(cx.editor.effects[4], Effect::Switch(7, Action::VerticalSplit)));
}

#[test]
fn registers_are_selected_by_key() {
    let mut cx = context("a\n", &[(0, 0)]);
    window::select_register(&mut cx);
    assert_eq!(cx.on_next_key_callback, Some(NextKey::SelectRegister));
    window::register_key(&mut cx, Key::Enter);
    assert_eq!(cx.editor.selected_register, '"');
    window::register_key(&mut cx, Key::Char('k'));
    assert_eq!(cx.editor.selected_register, 'k');
    assert_eq!(cx.selected_register, '"');
}

#[test]
fn space_keys_put_pickers_up() {
    let mut cx = context("ab\n", &[(0, 1)]);
    window::space_mode(&mut cx);
    assert_eq!(cx.on_next_key_callback, Some(NextKey::Space));
    window::space_key(&mut cx, Key::Char('f'), None);
    assert!(matches!(&cx.callback, Some(Layer::FilePicker(root)) if root == "./"));
    window::space_key(&mut cx, Key::Char('f'), Some("/project".to_string()));
    assert!(matches!(&cx.callback, Some(Layer::FilePicker(root)) if root == "/project"));
    cx.editor.documents.push(Buffer {
        id: 7,
        modified: false,
        path: None,
        relative_path: Some(RelativePath { lossy: "src/a.rs".to_string(), is_utf8: true }),
    });
    cx.editor.documents.push(Buffer { id: 8, modified: false, path: None, relative_path: None });
    cx.editor.documents.push(Buffer {
        id: 9,
        modified: false,
        path: None,
        relative_path: Some(RelativePath { lossy: "\u{fffd}.rs".to_string(), is_utf8: false }),
    });
    window::space_key(&mut cx, Key::Char('b'), None);
    match &cx.callback {
        Some(Layer::BufferPicker(items, current)) => {
            assert_eq!(*current, 7);
            assert_eq!(window::buffer_label(&items[0], *current), "src/a.rs (*)");
            assert_eq!(window::buffer_label(&items[0], 8), "src/a.rs");
            assert_eq!(window::buffer_label(&items[1], *current), "[scratch buffer]");
            assert_eq!(window::buffer_label(&items[2], *current), "[scratch buffer]");
        }
        other => panic!("no picker: {:?}", other),
    }
    window::space_key(&mut cx, Key::Char('w'), None);
    assert_eq!(cx.on_next_key_callback, Some(NextKey::Window));
    window::space_key(&mut cx, Key::Char('s'), None);
    assert_eq!(cx.callbacks.len(), 0);
    window::space_key(&mut cx, Key::Char('x'), None);
    window::space_key(&mut cx, Key::Other, None);
    assert_eq!(cx.editor.effects.len(), 0);
    window::space_key(&mut cx, Key::Char(' '), None);
    assert_eq!(selected(&cx), vec![(0, 1)]);
    window::pick_buffer(&mut cx, &(8, None));
    assert!(matches!(cx.editor.effects.last(), Some(Effect::Switch(8, Action::Replace))));
}
