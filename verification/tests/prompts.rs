//! Typed commands, searches and the table of commands.

use helix_term::cmd::{self, PromptEvent};
use helix_term::command::{Command, COMMAND_LIST};
use helix_term::change::Transaction;
use helix_term::editor::{
    Action, Buffer, Context, Direction, Document, Editor, Effect, IndentStyle, Layer, Mode,
    Movement, Position, RegexPrompt, RelativePath, Severity, UndoKind, Window,
};
use helix_term::execute::Outside;
use helix_term::lsp::{LspPosition, OffsetEncoding};
use helix_term::registers::Registers;
use helix_term::selection::{Range, Selection};
use ropey::Rope;
use helix_term::typed::{self, Completer, Typed, TYPABLE_COMMAND_LIST};
use helix_term::search;

fn document(text: &str, ranges: &[(usize, usize)]) -> Document {
    Document {
        id: 7,
        text: Rope::from_str(text),
        selection: Selection {
            ranges: ranges.iter().map(|r| Range::new(r.0, r.1)).collect(),
            primary_index: 0,
        },
        mode: Mode::Normal,
        restore_cursor: false,
        indent_style: IndentStyle::Spaces(4),
        indent_unit: "    ".to_string(),
        tab_width: 4,
        diagnostics: Vec::new(),
        language_server: None,
        has_syntax: false,
        path: None,
        auto_format: false,
    }
}

fn context(text: &str, ranges: &[(usize, usize)]) -> Context {
    Context {
        selected_register: '"',
        count: None,
        editor: Editor {
            view: Window {
                id: 1,
                doc: 7,
                first_line: 0,
                first_col: 0,
                width: 80,
                height: 10,
                padding: 5,
                last_accessed_doc: None,
            },
            doc: document(text, ranges),
            registers: Registers::new(),
            selected_register: '"',
            status_msg: None,
            documents: Vec::new(),
            views: vec![1],
            effects: Vec::new(),
        },
        callback: None,
        on_next_key_callback: None,
        callbacks: Vec::new(),
    }
}

/// The selection that was asked for last, as anchors and heads.
fn selected(cx: &Context) -> Vec<(usize, usize)> {
    match cx.editor.effects.last() {
        Some(Effect::SetSelection(selection)) => {
            selection.ranges.iter().map(|r| (r.anchor, r.head)).collect()
        }
        other => panic!("no selection: {:?}", other),
    }
}

fn resolve(path: &String) -> Result<String, String> {
    if path.starts_with('!') {
        Err("no such directory".to_string())
    } else {
        Ok(format!("/root/{}", path))
    }
}

fn parse(text: &String) -> Result<UndoKind, String> {
    if text.is_empty() {
        return Ok(UndoKind::Steps(1));
    }
    text.parse().map(UndoKind::Steps).map_err(|_| format!("bad distance: {}", text))
}

fn enter(cx: &mut Context, input: &str) {
    cmd::validate(cx, input, PromptEvent::Validate, &resolve, &parse);
}

fn error(cx: &Context) -> &str {
    match &cx.editor.status_msg {
        Some((message, Severity::Error)) => message,
        other => panic!("no error: {:?}", other),
    }
}

fn buffer(id: usize, modified: bool, path: Option<&str>) -> Buffer {
    Buffer {
        id,
        modified,
        path: path.map(|path| path.to_string()),
        relative_path: path.map(|path| RelativePath {
            lossy: path.to_string(),
            is_utf8: !path.contains('\u{fffd}'),
        }),
    }
}

#[test]
fn every_command_is_found_by_its_name() {
    assert_eq!(COMMAND_LIST.len(), 107);
    for command in COMMAND_LIST {
        assert_eq!(Command::from_str(command.name()), Ok(command));
    }
    assert_eq!(Command::move_char_left.name(), "move_char_left");
    assert_eq!(
        Command::from_str("move_sideways"),
        Err("No command named 'move_sideways'".to_string())
    );
}

/// Runs a command where the editor has next to nothing to tell.
fn execute(command: Command, cx: &mut Context) {
    let outside = Outside {
        move_horizontally: |_: &Rope, range: Range, direction: Direction, n: usize, _: Movement| {
            match direction {
                Direction::Forward => Range::point(range.head + n),
                Direction::Backward => Range::point(range.head - n),
            }
        },
        move_vertically: |_: &Rope, range: Range, _: Direction, _: usize, _: Movement| range,
        move_next_word_start: |_: &Rope, range: Range, _: usize| range,
        move_prev_word_start: |_: &Rope, range: Range, _: usize| range,
        move_next_word_end: |_: &Rope, range: Range, _: usize| range,
        next_grapheme_boundary: |_: &Rope, pos: usize| pos + 1,
        prev_grapheme_boundary: |_: &Rope, pos: usize| pos - 1,
        nth_next_grapheme_boundary: |_: &Rope, pos: usize, n: usize| pos + n,
        nth_prev_grapheme_boundary: |_: &Rope, pos: usize, n: usize| pos - n,
        coords_at_pos: |_: &Rope, pos: usize| Position { row: 0, col: pos },
        pos_at_coords: |_: &Rope, coords: Position| coords.col,
        last_line_of: |_: &Window, text: &Rope| text.len_lines() - 1,
        split_on_matches: |_: &Rope, selection: &Selection, _: &str| selection.clone(),
        push: |_: &Selection, range: Range| Selection::point(range.head),
        fragment: |text: &Rope, range: Range| text.slice(range.from()..range.to() + 1).to_string(),
        suggested_indent: |_: &Rope, _: usize, _: bool| 0,
        toggle_line_comments: |_: &Rope, _: &Selection| Transaction {
            changes: Vec::new(),
            selection: None,
        },
        expand_selection: |_: &Rope, selection: &Selection| selection.clone(),
        find_matching_bracket: |_: &Rope, _: usize| None,
        pos_to_lsp_pos: |_: &Rope, _: usize, _: OffsetEncoding| LspPosition {
            line: 0,
            character: 0,
        },
        pairs: Vec::new(),
        root: Some("/project".to_string()),
    };
    command.execute(cx, outside);
}

#[test]
fn commands_are_executed() {
    let mut cx = context("one two\n", &[(0, 2)]);
    execute(Command::move_char_right, &mut cx);
    assert_eq!(selected(&cx), vec![(3, 3)]);
    execute(Command::move_line_end, &mut cx);
    assert_eq!(selected(&cx), vec![(6, 6)]);
    execute(Command::flip_selections, &mut cx);
    assert_eq!(selected(&cx), vec![(2, 0)]);
    execute(Command::yank, &mut cx);
    assert_eq!(cx.editor.registers.read('"').cloned(), Some(vec!["one".to_string()]));
    execute(Command::file_picker, &mut cx);
    assert!(matches!(&cx.callback, Some(Layer::FilePicker(root)) if root == "/project"));
    execute(Command::search_selection, &mut cx);
    assert_eq!(selected(&cx), vec![(0, 2)]);
    cx.editor.effects.clear();
    execute(Command::undo, &mut cx);
    execute(Command::wclose, &mut cx);
    assert_eq!(format!("{:?}", cx.editor.effects), "[Undo, Close(1, false)]");
}

#[test]
fn commands_only_add_effects() {
    for command in COMMAND_LIST {
        let mut cx = context("one two\nthree\n", &[(1, 2)]);
        cx.editor.effects.push(Effect::Redo);
        execute(command, &mut cx);
        assert!(matches!(cx.editor.effects[0], Effect::Redo));
        assert_eq!(cx.editor.doc.text.to_string(), "one two\nthree\n");
        assert_eq!(cx.editor.doc.selection.primary(), Range::new(1, 2));
    }
}

#[test]
fn typed_commands_are_found_by_name_and_alias() {
    assert_eq!(TYPABLE_COMMAND_LIST.len(), 16);
    for typed in TYPABLE_COMMAND_LIST {
        let command = typed.command();
        assert_eq!(command.fun, typed);
        assert_eq!(typed::get(command.name), Some(typed));
        if let Some(alias) = command.alias {
            assert_eq!(typed::get(alias), Some(typed));
        }
    }
    assert_eq!(typed::get("quit"), Some(Typed::Quit));
    assert_eq!(typed::get("wqa!"), Some(Typed::ForceWriteAllQuit));
    assert_eq!(typed::get("nonsense"), None);
    assert_eq!(Typed::Open.command().completer, Some(Completer::Filename));
    assert_eq!(Typed::Quit.command().completer, None);
    assert_eq!(Typed::SetIndentStyle.command().alias, None);
}

#[test]
fn the_prompt_is_put_up() {
    let mut cx = context("a\n", &[(0, 0)]);
    cmd::command_mode(&mut cx);
    assert!(matches!(cx.callback, Some(Layer::CommandPrompt)));
}

#[test]
fn names_are_completed_up_to_the_first_space() {
    let none = |_: &str| -> Vec<(usize, String)> { panic!("no argument yet") };
    let names: Vec<(usize, String)> = cmd::complete("quit-", none);
    let expected = ["write-quit-all", "write-quit-all!", "quit-all", "quit-all!"];
    assert_eq!(names.len(), expected.len());
    for (name, expected) in names.iter().zip(expected) {
        assert_eq!(*name, (0, expected.to_string()));
    }
    assert_eq!(cmd::complete("", none).len(), 16);
    assert_eq!(cmd::complete("zzz", none).len(), 0);
}

#[test]
fn arguments_are_completed_by_the_command() {
    let files = |part: &str| vec![(0, format!("{}ab", part)), (2, "x".to_string())];
    assert_eq!(
        cmd::complete("open é  sr", files),
        vec![(9, "srab".to_string()), (11, "x".to_string())]
    );
    assert_eq!(cmd::complete("o ", files), vec![(2, "ab".to_string()), (4, "x".to_string())]);
    assert_eq!(cmd::complete("quit a", files), Vec::new());
    assert_eq!(cmd::complete("nonsense a", files), Vec::new());
}

#[test]
fn a_command_is_explained_while_it_is_typed() {
    assert_eq!(cmd::command_doc("q! now"), Some("Close the current view."));
    assert_eq!(cmd::command_doc("fmt"), Some("Format the file using a formatter."));
    assert_eq!(cmd::command_doc(" q"), None);
    assert_eq!(cmd::command_doc(""), None);
}

#[test]
fn only_entered_input_is_obeyed() {
    let mut cx = context("a\n", &[(0, 0)]);
    cmd::validate(&mut cx, "quit", PromptEvent::Update, &resolve, &parse);
    cmd::validate(&mut cx, "quit", PromptEvent::Abort, &resolve, &parse);
    enter(&mut cx, " \t ");
    assert_eq!(cx.editor.effects.len(), 0);
    assert_eq!(cx.editor.status_msg, None);
    enter(&mut cx, " frobnicate  now");
    assert_eq!(error(&cx), "no such command: 'frobnicate'");
}

#[test]
fn the_last_view_stays_while_there_are_changes() {
    let mut cx = context("a\n", &[(0, 0)]);
    cx.editor.documents = vec![
        buffer(7, false, Some("a")),
        buffer(8, true, Some("b \"c\"")),
        buffer(9, true, None),
        buffer(10, true, Some("d\u{fffd}")),
    ];
    enter(&mut cx, "q");
    assert_eq!(cx.editor.effects.len(), 0);
    assert_eq!(
        error(&cx),
        "3 unsaved buffer(s) remaining: [\"b \\\"c\\\"\", \"[scratch]\", \"d\u{fffd}\"]"
    );
    cx.editor.views = vec![1, 2];
    enter(&mut cx, "quit");
    enter(&mut cx, "quit!");
    assert_eq!(format!("{:?}", cx.editor.effects), "[Close(1, false), Close(1, false)]");
}

#[test]
fn all_views_stay_while_there_are_changes() {
    let mut cx = context("a\n", &[(0, 0)]);
    cx.editor.views = vec![1, 4];
    cx.editor.documents = vec![buffer(8, true, Some("b"))];
    enter(&mut cx, "quit-all");
    assert_eq!(cx.editor.effects.len(), 0);
    assert_eq!(error(&cx), "1 unsaved buffer(s) remaining: [\"b\"]");
    enter(&mut cx, "qa!");
    assert_eq!(format!("{:?}", cx.editor.effects), "[Close(1, false), Close(4, false)]");
    cx.editor.effects.clear();
    cx.editor.documents.clear();
    enter(&mut cx, "qa");
    assert_eq!(cx.editor.effects.len(), 2);
}

#[test]
fn files_are_opened_by_path() {
    let mut cx = context("a\n", &[(0, 0)]);
    enter(&mut cx, "open");
    assert_eq!(error(&cx), "wrong argument count");
    enter(&mut cx, "o a/b c");
    match &cx.editor.effects[0] {
        Effect::Open(path, Action::Replace) => assert_eq!(path, "a/b"),
        other => panic!("nothing opened: {:?}", other),
    }
    enter(&mut cx, "new");
    enter(&mut cx, "format");
    assert!(matches!(cx.editor.effects[1], Effect::NewFile(Action::Replace)));
    assert!(matches!(cx.editor.effects[2], Effect::Format));
}

#[test]
fn documents_are_written_under_their_path() {
    let mut cx = context("a\n", &[(0, 0)]);
    enter(&mut cx, "w");
    assert_eq!(error(&cx), "cannot write a buffer without a filename");
    enter(&mut cx, "w !a");
    assert_eq!(error(&cx), "invalid filepath: no such directory");
    assert_eq!(cx.editor.effects.len(), 0);
    enter(&mut cx, "write a");
    assert_eq!(cx.editor.doc.path.as_deref(), Some("/root/a"));
    assert_eq!(format!("{:?}", cx.editor.effects), "[SetPath(\"/root/a\"), Write]");
    cx.editor.effects.clear();
    cx.editor.doc.auto_format = true;
    enter(&mut cx, "write");
    assert_eq!(format!("{:?}", cx.editor.effects), "[Format, Write]");
}

#[test]
fn writing_and_quitting_quits_after_writing() {
    let mut cx = context("a\n", &[(0, 0)]);
    enter(&mut cx, "wq");
    assert_eq!(error(&cx), "cannot write a buffer without a filename");
    assert_eq!(cx.editor.effects.len(), 0);
    enter(&mut cx, "wq!");
    assert_eq!(format!("{:?}", cx.editor.effects), "[Close(1, false)]");
    cx.editor.effects.clear();
    cx.editor.doc.path = Some("/a".to_string());
    enter(&mut cx, "wq");
    assert_eq!(format!("{:?}", cx.editor.effects), "[Write, Quit]");
    cx.editor.effects.clear();
    enter(&mut cx, "write-quit! b");
    assert_eq!(
        format!("{:?}", cx.editor.effects),
        "[SetPath(\"/root/b\"), Write, Close(1, false)]"
    );
}

#[test]
fn all_documents_with_a_path_are_written() {
    let mut cx = context("a\n", &[(0, 0)]);
    cx.editor.documents =
        vec![buffer(3, true, Some("a")), buffer(4, true, None), buffer(5, false, Some("b"))];
    enter(&mut cx, "wa");
    assert_eq!(error(&cx), "cannot write a buffer without a filename\n");
    assert_eq!(format!("{:?}", cx.editor.effects), "[WriteBuffer(3), WriteBuffer(5)]");
    cx.editor.effects.clear();
    cx.editor.documents.clear();
    enter(&mut cx, "wqa");
    assert_eq!(error(&cx), "");
    enter(&mut cx, "wqa!");
    assert_eq!(format!("{:?}", cx.editor.effects), "[QuitAll(false), QuitAll(true)]");
}

#[test]
fn indent_styles_are_set_and_reported() {
    let mut cx = context("a\n", &[(0, 0)]);
    for (arg, style) in [
        ("t", IndentStyle::Tabs),
        ("TAB", IndentStyle::Tabs),
        ("tabs", IndentStyle::Tabs),
        ("0", IndentStyle::Tabs),
        ("1", IndentStyle::Spaces(1)),
        ("8", IndentStyle::Spaces(8)),
        ("+3", IndentStyle::Spaces(3)),
        ("004", IndentStyle::Spaces(4)),
    ] {
        cx.editor.doc.indent_style = IndentStyle::Spaces(9);
        enter(&mut cx, &format!("indent-style {}", arg));
        assert_eq!(cx.editor.doc.indent_style, style);
    }
    assert_eq!(cx.editor.status_msg, None);
    for arg in ["tabss", "9", "256", "00", "+", "-1", "3x", "1000000000000000000000000"] {
        cx.editor.doc.indent_style = IndentStyle::Spaces(9);
        enter(&mut cx, &format!("indent-style {}", arg));
        assert_eq!(cx.editor.doc.indent_style, IndentStyle::Spaces(9));
        assert_eq!(error(&cx), format!("invalid indent style '{}'", arg));
    }
    for (style, message) in [
        (IndentStyle::Tabs, "tabs"),
        (IndentStyle::Spaces(1), "1 space"),
        (IndentStyle::Spaces(2), "2 spaces"),
        (IndentStyle::Spaces(8), "8 spaces"),
        (IndentStyle::Spaces(0), "error"),
        (IndentStyle::Spaces(12), "error"),
    ] {
        cx.editor.doc.indent_style = style;
        enter(&mut cx, "indent-style");
        assert_eq!(cx.editor.status_msg, Some((message.to_string(), Severity::Info)));
    }
    assert_eq!(cmd::parse_style(""), Some(IndentStyle::Tabs));
}

#[test]
fn the_history_is_gone_along() {
    let mut cx = context("a\n", &[(0, 0)]);
    enter(&mut cx, "earlier 3");
    enter(&mut cx, "later");
    assert_eq!(format!("{:?}", cx.editor.effects), "[Earlier(Steps(3)), Later(Steps(1))]");
    enter(&mut cx, "ear  2   days");
    assert_eq!(error(&cx), "bad distance: 2 days");
}

#[test]
fn searches_go_around_the_end() {
    let text = "é one two one\n";
    let push = |selection: &Selection, range: Range| {
        let mut ranges = selection.ranges.clone();
        ranges.push(range);
        Selection { primary_index: ranges.len() - 1, ranges }
    };
    let mut cx = context(text, &[(0, 3)]);
    search::search(&mut cx);
    assert!(matches!(cx.callback, Some(Layer::RegexPrompt(RegexPrompt::Search))));
    assert!(search::search_next(&mut cx, &push));
    assert_eq!(cx.editor.effects.len(), 0);
    assert!(search::search_regex(&mut cx, text, "o.e", &push));
    assert_eq!(selected(&cx), vec![(10, 12)]);
    assert_eq!(cx.editor.registers.read('\\').cloned(), Some(vec!["o.e".to_string()]));
    cx.editor.doc.selection = Selection::single(10, 12);
    assert!(search::search_next(&mut cx, &push));
    assert_eq!(selected(&cx), vec![(2, 4)]);
    assert!(search::extend_search_next(&mut cx, &push));
    assert_eq!(selected(&cx), vec![(10, 12), (2, 4)]);
}

#[test]
fn the_match_under_the_cursor_is_not_found_again() {
    let push = |_: &Selection, range: Range| Selection::single(range.anchor, range.head);
    let mut cx = context("a a\n", &[(0, 0)]);
    cx.editor.registers.write('\\', vec!["a".to_string()]);
    assert!(search::search_next(&mut cx, &push));
    assert_eq!(selected(&cx), vec![(2, 2)]);
    cx.editor.doc.selection = Selection::point(2);
    assert!(search::search_next(&mut cx, &push));
    assert_eq!(selected(&cx), vec![(0, 0)]);
    cx.editor.doc.selection = Selection::point(4);
    assert!(search::search_next(&mut cx, &push));
    assert_eq!(selected(&cx), vec![(0, 0)]);
}

#[test]
fn matches_center_the_view() {
    let text = format!("{}x\n", "a\n".repeat(60));
    let push = |_: &Selection, range: Range| Selection::single(range.anchor, range.head);
    let mut cx = context(&text, &[(0, 0)]);
    assert!(search::search_regex(&mut cx, &text, "x", &push));
    assert_eq!(selected(&cx), vec![(120, 120)]);
    assert_eq!(cx.editor.view.first_line, 55);
}

#[test]
fn what_is_no_regular_expression_is_not_searched_for() {
    let push = |_: &Selection, range: Range| Selection::single(range.anchor, range.head);
    let mut cx = context("a\n", &[(0, 0)]);
    assert!(!search::search_regex(&mut cx, "a\n", "(", &push));
    assert_eq!(cx.editor.effects.len(), 0);
    assert!(cx.editor.registers.read('\\').is_none());
    assert!(search::search_regex(&mut cx, "a\n", "b", &push));
    assert_eq!(cx.editor.effects.len(), 0);
}

#[test]
fn searches_ask_from_after_the_cursor_and_then_from_the_start() {
    let push = |_: &Selection, range: Range| Selection::single(range.anchor, range.head);
    let text = "é a b\n";
    let mut cx = context(text, &[(2, 2)]);
    let ahead = |_: &str, start: usize| -> Result<Option<(usize, usize)>, ()> {
        Ok(Some((start, start + 3)))
    };
    assert!(search::search_impl(&mut cx, text, &ahead, false, &push));
    assert_eq!(selected(&cx), vec![(3, 5)]);
    let around = |_: &str, start: usize| -> Result<Option<(usize, usize)>, ()> {
        if start == 4 {
            Ok(None)
        } else {
            Ok(Some((start, start + 2)))
        }
    };
    assert!(search::search_impl(&mut cx, text, &around, false, &push));
    assert_eq!(selected(&cx), vec![(0, 0)]);
    cx.editor.effects.clear();
    let nowhere = |_: &str, _: usize| -> Result<Option<(usize, usize)>, ()> { Ok(None) };
    assert!(search::search_impl(&mut cx, text, &nowhere, false, &push));
    let failing = |_: &str, _: usize| -> Result<Option<(usize, usize)>, ()> { Err(()) };
    assert!(!search::search_impl(&mut cx, text, &failing, false, &push));
    assert_eq!(cx.editor.effects.len(), 0);
}

#[test]
fn empty_matches_at_the_start_are_skipped() {
    let push = |_: &Selection, range: Range| Selection::single(range.anchor, range.head);
    let mut cx = context("ab\n", &[(0, 0)]);
    assert!(search::search_regex(&mut cx, "ab\n", "^", &push));
    assert_eq!(cx.editor.effects.len(), 0);
    search::select_match(&mut cx, Some((1, 3)), false, &push);
    assert_eq!(selected(&cx), vec![(1, 2)]);
    search::select_match(&mut cx, None, false, &push);
    assert_eq!(cx.editor.effects.len(), 1);
}

#[test]
fn a_selection_is_searched_for_as_it_stands() {
    let text = "a.b axb a.b\n";
    let push = |_: &Selection, range: Range| Selection::single(range.anchor, range.head);
    let fragment =
        |text: &Rope, range: Range| text.slice(range.from()..range.to() + 1).to_string();
    let mut cx = context(text, &[(0, 2)]);
    assert!(search::search_selection(&mut cx, fragment, &push));
    assert_eq!(cx.editor.registers.read('\\').cloned(), Some(vec!["a\\.b".to_string()]));
    assert_eq!(selected(&cx), vec![(8, 10)]);
}
