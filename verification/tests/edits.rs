//! Edits to the text and what is copied from it.

use helix_term::edit;
use helix_term::editor::{
    Context, Document, Editor, Effect, IndentStyle, Key, Mode, NextKey, Severity, Window,
};
use helix_term::registers::Registers;
use helix_term::selection::{Range, Selection};
use ropey::Rope;
use helix_term::change::{Change, Transaction};
use helix_term::{insert, lines, open};

fn document(text: &str, ranges: &[(usize, usize)]) -> Document {
    Document {
        id: 7,
        text: Rope::from_str(text),
        selection: Selection {
            ranges: ranges.iter().map(|r| Range::new(r.0, r.1)).collect(),
            primary_index: 0,
        },
        mode: Mode::Normal,
        restore_cursor: false,
        indent_style: IndentStyle::Spaces(4),
        indent_unit: "    ".to_string(),
        tab_width: 4,
        diagnostics: Vec::new(),
        language_server: None,
        has_syntax: false,
        path: None,
        auto_format: false,
    }
}

fn context(text: &str, ranges: &[(usize, usize)]) -> Context {
    Context {
        selected_register: '"',
        count: None,
        editor: Editor {
            view: Window {
                id: 1,
                doc: 7,
                first_line: 0,
                first_col: 0,
                width: 80,
                height: 10,
                padding: 5,
                last_accessed_doc: None,
            },
            doc: document(text, ranges),
            registers: Registers::new(),
            selected_register: '"',
            status_msg: None,
            documents: Vec::new(),
            views: vec![1],
            effects: Vec::new(),
        },
        callback: None,
        on_next_key_callback: None,
        callbacks: Vec::new(),
    }
}

/// The selection that was asked for last, as anchors and heads.
fn selected(cx: &Context) -> Vec<(usize, usize)> {
    match cx.editor.effects.last() {
        Some(Effect::SetSelection(selection)) => {
            selection.ranges.iter().map(|r| (r.anchor, r.head)).collect()
        }
        other => panic!("no selection: {:?}", other),
    }
}

/// The changes of the edit that was asked for first.
fn edit(cx: &Context) -> Vec<(usize, usize, Option<String>)> {
    match cx.editor.effects.first() {
        Some(Effect::Apply(transaction)) => {
            transaction.changes.iter().map(|c| (c.from, c.to, c.text.clone())).collect()
        }
        other => panic!("no edit: {:?}", other),
    }
}

/// The text after the changes.
fn apply(text: &str, changes: &[(usize, usize, Option<String>)]) -> String {
    let mut chars: Vec<char> = text.chars().collect();
    for (from, to, new) in changes.iter().rev() {
        let new: Vec<char> = new.clone().unwrap_or_default().chars().collect();
        chars.splice(*from..*to, new);
    }
    chars.into_iter().collect()
}

fn some(text: &str) -> Option<String> {
    Some(text.to_string())
}

fn fragment(text: &Rope, range: Range) -> String {
    text.slice(range.from()..(range.to() + 1).min(text.len_chars())).to_string()
}

#[test]
fn replacing_keeps_line_feeds_and_length() {
    let mut cx = context("ab\ncd\n", &[(1, 3)]);
    edit::replace(&mut cx);
    assert_eq!(cx.on_next_key_callback, Some(NextKey::Replace));
    edit::replace_key(&mut cx, Key::Char('x'));
    assert_eq!(edit(&cx), vec![(1, 4, some("x\nx"))]);
    assert_eq!(apply("ab\ncd\n", &edit(&cx)), "ax\nxd\n");
    assert!(matches!(cx.editor.effects[1], Effect::AppendChangesToHistory));
}

#[test]
fn replacing_leaves_the_last_character_of_the_text() {
    let mut cx = context("abc", &[(2, 0)]);
    edit::replace_key(&mut cx, Key::Enter);
    assert_eq!(edit(&cx), vec![(0, 2, some("\n\n"))]);
    let mut cx = context("abc", &[(2, 0)]);
    edit::replace_key(&mut cx, Key::Other);
    assert_eq!(cx.editor.effects.len(), 0);
}

#[test]
fn deleting_copies_to_the_register_and_leaves_select_mode() {
    let mut cx = context("one two\n", &[(0, 2), (4, 4)]);
    cx.editor.doc.mode = Mode::Select;
    edit::delete_selection(&mut cx, fragment);
    assert_eq!(edit(&cx), vec![(0, 3, None), (4, 5, None)]);
    assert_eq!(apply("one two\n", &edit(&cx)), " wo\n");
    assert!(matches!(cx.editor.effects[1], Effect::AppendChangesToHistory));
    assert_eq!(cx.editor.doc.mode, Mode::Normal);
    assert_eq!(
        cx.editor.registers.read('"').cloned(),
        Some(vec!["one".to_string(), "t".to_string()])
    );
    assert!(cx.editor.registers.read('a').is_none());
}

#[test]
fn deleting_leaves_no_other_mode() {
    for mode in [Mode::Normal, Mode::Insert] {
        let mut cx = context("one\n", &[(0, 0)]);
        cx.editor.doc.mode = mode;
        edit::delete_selection(&mut cx, fragment);
        assert_eq!(cx.editor.doc.mode, mode);
    }
}

#[test]
fn nothing_is_cut_out_of_the_end_of_the_text_for_nothing() {
    let mut cx = context("abc", &[(3, 3)]);
    edit::replace_key(&mut cx, Key::Other);
    edit::replace_with_yanked(&mut cx);
    assert_eq!(cx.editor.effects.len(), 0);
}

#[test]
fn changing_starts_inserting() {
    let mut cx = context("one two\n", &[(0, 2)]);
    cx.selected_register = 'x';
    edit::change_selection(&mut cx, fragment);
    assert_eq!(edit(&cx), vec![(0, 3, None)]);
    assert_eq!(cx.editor.effects.len(), 1);
    assert_eq!(cx.editor.doc.mode, Mode::Insert);
    assert_eq!(cx.editor.registers.read('x').cloned(), Some(vec!["one".to_string()]));
}

#[test]
fn what_is_yanked_is_pasted() {
    let mut cx = context("one two\n", &[(0, 2), (4, 6)]);
    edit::yank(&mut cx, fragment);
    assert_eq!(
        cx.editor.status_msg,
        Some(("yanked 2 selection(s) to register \"".to_string(), Severity::Info))
    );
    assert_eq!(cx.editor.effects.len(), 0);
    edit::paste_after(&mut cx);
    assert_eq!(edit(&cx), vec![(3, 3, some("one")), (7, 7, some("two"))]);
    assert!(matches!(cx.editor.effects[1], Effect::AppendChangesToHistory));
    cx.editor.effects.clear();
    edit::paste_before(&mut cx);
    assert_eq!(edit(&cx), vec![(0, 0, some("one")), (4, 4, some("two"))]);
}

#[test]
fn a_register_written_again_holds_the_new_values_only() {
    let mut registers = Registers::new();
    assert!(registers.read('a').is_none());
    registers.write('a', vec!["1".to_string(), "2".to_string()]);
    registers.write('b', vec!["3".to_string()]);
    registers.write('a', Vec::new());
    assert_eq!(registers.read('a').cloned(), Some(Vec::new()));
    assert_eq!(registers.read('b').cloned(), Some(vec!["3".to_string()]));
}

#[test]
fn the_last_value_is_pasted_again_where_values_run_out() {
    let mut cx = context("a b c\n", &[(0, 0), (2, 2), (4, 4)]);
    cx.editor.registers.write('"', vec!["1".to_string(), "2".to_string()]);
    edit::paste_before(&mut cx);
    assert_eq!(
        edit(&cx),
        vec![(0, 0, some("1")), (2, 2, some("2")), (4, 4, some("2"))]
    );
}

#[test]
fn whole_lines_are_pasted_between_lines() {
    let mut cx = context("ab\ncd\nef\n", &[(4, 4)]);
    cx.editor.registers.write('"', vec!["x\n".to_string()]);
    edit::paste_before(&mut cx);
    assert_eq!(edit(&cx), vec![(3, 3, some("x\n"))]);
    cx.editor.effects.clear();
    edit::paste_after(&mut cx);
    assert_eq!(edit(&cx), vec![(6, 6, some("x\n"))]);
}

#[test]
fn nothing_is_pasted_from_a_register_never_written() {
    let mut cx = context("ab\n", &[(0, 0)]);
    edit::paste_after(&mut cx);
    edit::paste_before(&mut cx);
    edit::replace_with_yanked(&mut cx);
    assert_eq!(cx.editor.effects.len(), 0);
}

#[test]
fn deleted_text_comes_back_when_it_is_pasted() {
    let text = "one two\n";
    let mut cx = context(text, &[(1, 2), (5, 4)]);
    edit::delete_selection(&mut cx, fragment);
    let after = apply(text, &edit(&cx));
    assert_eq!(after, "o o\n");
    let mut there = context(&after, &[(1, 1), (2, 2)]);
    there.editor.registers = cx.editor.registers;
    edit::paste_before(&mut there);
    assert_eq!(apply(&after, &edit(&there)), text);
}

#[test]
fn selections_are_replaced_with_the_first_value() {
    let mut cx = context("one two\n", &[(0, 2), (4, 6)]);
    cx.editor.registers.write('"', vec!["x".to_string(), "y".to_string()]);
    edit::replace_with_yanked(&mut cx);
    assert_eq!(edit(&cx), vec![(0, 3, some("x")), (4, 7, some("x"))]);
    let mut cx = context("one two\n", &[(0, 2)]);
    cx.editor.registers.write('"', Vec::new());
    edit::replace_with_yanked(&mut cx);
    assert_eq!(cx.editor.effects.len(), 0);
}

#[test]
fn history_is_left_to_the_editor() {
    let mut cx = context("ab\n", &[(0, 0)]);
    edit::undo(&mut cx);
    edit::redo(&mut cx);
    edit::save(&mut cx);
    edit::format_selections(&mut cx);
    assert_eq!(format!("{:?}", cx.editor.effects), "[Undo, Redo, Save]");
}

#[test]
fn outside_edits_are_applied_as_they_come() {
    let mut cx = context("ab\n", &[(0, 0)]);
    edit::toggle_comments(&mut cx, |_: &Rope, _: &Selection| Transaction {
        changes: vec![Change { from: 0, to: 0, text: some("// ") }],
        selection: None,
    });
    assert_eq!(edit(&cx), vec![(0, 0, some("// "))]);
    assert!(matches!(cx.editor.effects[1], Effect::AppendChangesToHistory));
}

#[test]
fn syntax_is_used_where_there_is_some() {
    let mut cx = context("(ab)\n", &[(0, 0)]);
    edit::expand_selection(&mut cx, |_: &Rope, _: &Selection| Selection::single(0, 3));
    edit::match_brackets(&mut cx, |_: &Rope, _: usize| Some(3));
    assert_eq!(cx.editor.effects.len(), 0);
    cx.editor.doc.has_syntax = true;
    edit::expand_selection(&mut cx, |_: &Rope, _: &Selection| Selection::single(0, 3));
    assert_eq!(selected(&cx), vec![(0, 3)]);
    edit::match_brackets(&mut cx, |_: &Rope, pos: usize| Some(pos + 3));
    assert_eq!(selected(&cx), vec![(3, 3)]);
    edit::match_brackets(&mut cx, |_: &Rope, _: usize| None);
    assert_eq!(cx.editor.effects.len(), 2);
}

#[test]
fn touched_lines_are_sorted_and_unique() {
    let doc = document("a\nb\nc\nd\n", &[(6, 4), (0, 3), (2, 2)]);
    assert_eq!(lines::get_lines(&doc), vec![0, 1, 2, 3]);
    let doc = document("a\nb\nc\nd\n", &[(6, 6), (0, 0), (1, 0)]);
    assert_eq!(lines::get_lines(&doc), vec![0, 3]);
}

#[test]
fn unindenting_takes_what_indenting_put_in() {
    let text = "ab\n  cd\n";
    let mut cx = context(text, &[(0, 5)]);
    cx.count = Some(2);
    lines::indent(&mut cx);
    assert_eq!(edit(&cx), vec![(0, 0, some("        ")), (3, 3, some("        "))]);
    assert!(matches!(cx.editor.effects[1], Effect::AppendChangesToHistory));
    let after = apply(text, &edit(&cx));
    let mut cx = context(&after, &[(0, 15)]);
    cx.count = Some(2);
    lines::unindent(&mut cx);
    assert_eq!(edit(&cx), vec![(0, 8, None), (11, 19, None)]);
    assert_eq!(apply(&after, &edit(&cx)), text);
}

#[test]
fn unindenting_counts_tabs_to_the_next_stop() {
    let mut cx = context("  \tx\n", &[(0, 0)]);
    lines::unindent(&mut cx);
    assert_eq!(edit(&cx), vec![(0, 3, None)]);
    let mut cx = context(" x\ny\n", &[(0, 4)]);
    lines::unindent(&mut cx);
    assert_eq!(edit(&cx), vec![(0, 1, None)]);
    let mut cx = context("\t\tx\n", &[(0, 0)]);
    lines::unindent(&mut cx);
    assert_eq!(edit(&cx), vec![(0, 1, None)]);
}

#[test]
fn joined_lines_lose_the_blanks_between_them() {
    let text = "a\n  b\n\tc\nd\n";
    let mut cx = context(text, &[(0, 8)]);
    lines::join_selections(&mut cx);
    assert_eq!(edit(&cx), vec![(1, 4, some(" ")), (5, 7, some(" "))]);
    assert_eq!(apply(text, &edit(&cx)), "a b c\nd\n");
}

#[test]
fn a_single_line_is_joined_to_the_next_and_only_once() {
    let text = "a\nb\nc\n";
    let mut cx = context(text, &[(0, 0), (1, 1)]);
    lines::join_selections(&mut cx);
    assert_eq!(edit(&cx), vec![(1, 2, some(" "))]);
    assert!(matches!(cx.editor.effects[1], Effect::AppendChangesToHistory));
}

#[test]
fn blanks_up_to_the_end_of_the_text_stay() {
    let mut cx = context("a\n  ", &[(0, 0)]);
    lines::join_selections(&mut cx);
    assert_eq!(edit(&cx), vec![(1, 2, some(" "))]);
}

#[test]
fn opened_lines_get_a_cursor_behind_their_indentation() {
    let text = "ab\ncd\n";
    let mut cx = context(text, &[(0, 0), (4, 4)]);
    cx.count = Some(2);
    open::open_below(&mut cx, |_: &Rope, pos: usize, new_line: bool| {
        assert!(new_line);
        if pos == 2 { 1 } else { 0 }
    });
    assert_eq!(cx.editor.doc.mode, Mode::Insert);
    assert_eq!(edit(&cx), vec![(2, 2, some("\n    \n    ")), (5, 5, some("\n\n"))]);
    assert_eq!(apply(text, &edit(&cx)), "ab\n    \n    \ncd\n\n\n");
    match &cx.editor.effects[0] {
        Effect::Apply(transaction) => {
            let selection = transaction.selection.as_ref().unwrap();
            let heads: Vec<usize> = selection.ranges.iter().map(|r| r.head).collect();
            assert_eq!(heads, vec![7, 12, 16, 17]);
        }
        other => panic!("no edit: {:?}", other),
    }
}

#[test]
fn a_last_line_without_an_ending_is_not_split() {
    for (text, pos, opened, head) in [
        ("ab", 0, "ab\n", 3),
        ("", 0, "\n", 1),
        ("ab\n", 3, "ab\n\n", 4),
        ("ab\ncd", 5, "ab\ncd\n", 6),
        ("ab\ncd", 1, "ab\n\ncd", 3),
    ] {
        let mut cx = context(text, &[(pos, pos)]);
        open::open_below(&mut cx, |_: &Rope, _: usize, _: bool| 0);
        assert_eq!(apply(text, &edit(&cx)), opened);
        match &cx.editor.effects[0] {
            Effect::Apply(transaction) => {
                assert_eq!(transaction.selection.as_ref().unwrap().ranges, [Range::point(head)]);
            }
            other => panic!("no edit: {:?}", other),
        }
    }
    let text = Rope::from_str("ab\ncd");
    assert_eq!(open::open_place(&text, open::Open::Below, Range::point(4)), (2, 5));
    assert_eq!(open::open_place(&text, open::Open::Above, Range::point(4)), (1, 2));
}

#[test]
fn lines_are_opened_above() {
    let mut cx = context("ab\ncd\n", &[(4, 4)]);
    open::open_above(&mut cx, |_: &Rope, _: usize, _: bool| 0);
    assert_eq!(edit(&cx), vec![(2, 2, some("\n"))]);
    let mut cx = context("ab\ncd\n", &[(0, 0)]);
    open::open_above(&mut cx, |_: &Rope, _: usize, _: bool| 0);
    assert_eq!(edit(&cx), vec![(0, 0, some("\n"))]);
    match &cx.editor.effects[0] {
        Effect::Apply(transaction) => {
            assert_eq!(transaction.selection.as_ref().unwrap().ranges[0].head, 0);
        }
        other => panic!("no edit: {:?}", other),
    }
}

#[test]
fn new_lines_split_pairs() {
    let pairs = vec![('{', '}')];
    let mut cx = context("{}\nx\n", &[(1, 1), (4, 3)]);
    insert::insert_newline(
        &mut cx,
        |_: &Rope, pos: usize, _: bool| if pos == 0 { 1 } else { 0 },
        &pairs,
    );
    assert_eq!(edit(&cx), vec![(1, 1, some("\n    \n")), (3, 3, some("\n"))]);
    let after = apply("{}\nx\n", &edit(&cx));
    assert_eq!(after, "{\n    \n}\n\nx\n");
    match &cx.editor.effects[0] {
        Effect::Apply(transaction) => {
            let ranges = &transaction.selection.as_ref().unwrap().ranges;
            assert_eq!((ranges[0].anchor, ranges[0].head), (6, 6));
            assert_eq!((ranges[1].anchor, ranges[1].head), (10, 10));
            assert_eq!(after.chars().nth(ranges[1].head), Some('x'));
        }
        other => panic!("no edit: {:?}", other),
    }
}

#[test]
fn typed_characters_go_through_the_hook() {
    let mut cx = context("ab\n", &[(0, 0), (2, 1)]);
    insert::insert_char(&mut cx, 'x', |_: &Rope, _: &Selection, _: char| None);
    assert_eq!(edit(&cx), vec![(0, 0, some("x")), (1, 1, some("x"))]);
    assert!(matches!(cx.editor.effects[1], Effect::AfterInsert('x')));
    let mut cx = context("ab\n", &[(0, 0)]);
    insert::insert_char(&mut cx, '(', |_: &Rope, _: &Selection, ch: char| {
        Some(Transaction {
            changes: vec![Change { from: 0, to: 0, text: Some(format!("{})", ch)) }],
            selection: None,
        })
    });
    assert_eq!(edit(&cx), vec![(0, 0, some("()"))]);
}

#[test]
fn a_tab_is_a_level_of_indentation() {
    let mut cx = context("ab\n", &[(2, 1)]);
    insert::insert_tab(&mut cx);
    assert_eq!(edit(&cx), vec![(1, 1, some("    "))]);
    assert_eq!(cx.editor.effects.len(), 1);
}

#[test]
fn characters_are_deleted_up_to_the_boundary() {
    let back = |_: &Rope, pos: usize, n: usize| pos.saturating_sub(n);
    let forth = |text: &Rope, pos: usize, n: usize| (pos + n).min(text.len_chars());
    let mut cx = context("abcdef\n", &[(3, 3), (5, 6)]);
    cx.count = Some(2);
    insert::delete_char_backward(&mut cx, back);
    assert_eq!(edit(&cx), vec![(1, 3, None), (4, 6, None)]);
    let mut cx = context("abcdef\n", &[(3, 3), (5, 6)]);
    insert::delete_char_forward(&mut cx, forth);
    assert_eq!(edit(&cx), vec![(3, 4, None), (6, 7, None)]);
}

#[test]
fn deleting_a_word_selects_it_first() {
    let mut cx = context("one two\n", &[(6, 6)]);
    cx.editor.doc.mode = Mode::Insert;
    insert::delete_word_backward(&mut cx, |_: &Rope, range: Range, n: usize| {
        assert_eq!(n, 1);
        Range::new(range.head, 4)
    });
    assert!(matches!(cx.editor.effects[1], Effect::DeleteSelection('"')));
    assert_eq!(cx.editor.effects.len(), 2);
    cx.editor.effects.pop();
    assert_eq!(selected(&cx), vec![(6, 4)]);
    assert_eq!(cx.editor.doc.mode, Mode::Insert);
    cx.editor.doc.selection = Selection::single(6, 4);
    cx.editor.effects.clear();
    edit::delete_selection_impl(&mut cx, '"', fragment);
    assert_eq!(edit(&cx), vec![(4, 7, None)]);
    assert_eq!(cx.editor.effects.len(), 1);
    assert_eq!(cx.editor.doc.mode, Mode::Insert);
}
