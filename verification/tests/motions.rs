//! Motions, selections and modes.

use helix_term::edit;
use helix_term::editor::{
    CharSearch, Context, Direction, Document, Editor, Effect, IndentStyle, Key, Layer, Mode, Movement, NextKey, RegexPrompt, Window,
};
use helix_term::registers::Registers;
use helix_term::selection::{Range, Selection};
use ropey::Rope;
use helix_term::{movement, select};

fn document(text: &str, ranges: &[(usize, usize)]) -> Document {
    Document {
        id: 7,
        text: Rope::from_str(text),
        selection: Selection {
            ranges: ranges.iter().map(|r| Range::new(r.0, r.1)).collect(),
            primary_index: 0,
        },
        mode: Mode::Normal,
        restore_cursor: false,
        indent_style: IndentStyle::Spaces(4),
        indent_unit: "    ".to_string(),
        tab_width: 4,
        diagnostics: Vec::new(),
        language_server: None,
        has_syntax: false,
        path: None,
        auto_format: false,
    }
}

fn context(text: &str, ranges: &[(usize, usize)]) -> Context {
    Context {
        selected_register: '"',
        count: None,
        editor: Editor {
            view: Window {
                id: 1,
                doc: 7,
                first_line: 0,
                first_col: 0,
                width: 80,
                height: 10,
                padding: 5,
                last_accessed_doc: None,
            },
            doc: document(text, ranges),
            registers: Registers::new(),
            selected_register: '"',
            status_msg: None,
            documents: Vec::new(),
            views: vec![1],
            effects: Vec::new(),
        },
        callback: None,
        on_next_key_callback: None,
        callbacks: Vec::new(),
    }
}

/// The selection that was asked for last, as anchors and heads.
fn selected(cx: &Context) -> Vec<(usize, usize)> {
    match cx.editor.effects.last() {
        Some(Effect::SetSelection(selection)) => {
            selection.ranges.iter().map(|r| (r.anchor, r.head)).collect()
        }
        other => panic!("no selection: {:?}", other),
    }
}

fn next(text: &Rope, pos: usize) -> usize {
    (pos + 1).min(text.len_chars())
}

fn prev(_text: &Rope, pos: usize) -> usize {
    pos.saturating_sub(1)
}

/// Moves by characters, without regard to lines.
fn horizontally(
    text: &Rope,
    range: Range,
    direction: Direction,
    count: usize,
    movement: Movement,
) -> Range {
    let head = match direction {
        Direction::Forward => (range.head + count).min(text.len_chars()),
        Direction::Backward => range.head.saturating_sub(count),
    };
    match movement {
        Movement::Move => Range::new(head, head),
        Movement::Extend => Range::new(range.anchor, head),
    }
}

#[test]
fn character_motions_take_the_count() {
    let mut cx = context("one two\n", &[(0, 2), (4, 4)]);
    cx.count = Some(2);
    movement::move_char_right(&mut cx, horizontally);
    assert_eq!(selected(&cx), vec![(4, 4), (6, 6)]);
    movement::extend_char_left(&mut cx, horizontally);
    assert_eq!(selected(&cx), vec![(0, 0), (4, 2)]);
}

#[test]
fn line_motions_go_up_and_down() {
    let vertically = |_: &Rope, range: Range, direction: Direction, count: usize, m: Movement| {
        assert_eq!(count, 1);
        let head = match direction {
            Direction::Forward => range.head + 10,
            Direction::Backward => range.head - 10,
        };
        Range::new(if m == Movement::Extend { range.anchor } else { head }, head)
    };
    let mut cx = context(&"x".repeat(50), &[(20, 21)]);
    movement::move_line_down(&mut cx, vertically);
    assert_eq!(selected(&cx), vec![(31, 31)]);
    movement::move_line_up(&mut cx, vertically);
    assert_eq!(selected(&cx), vec![(11, 11)]);
    movement::extend_line_down(&mut cx, vertically);
    assert_eq!(selected(&cx), vec![(20, 31)]);
    movement::extend_line_up(&mut cx, vertically);
    assert_eq!(selected(&cx), vec![(20, 11)]);
}

#[test]
fn word_motions_stretch_to_the_head_of_the_word() {
    let word = |_: &Rope, range: Range, count: usize| Range::new(range.head + 1, range.head + count);
    let mut cx = context("one two three\n", &[(3, 2)]);
    cx.count = Some(4);
    movement::move_next_word_start(&mut cx, word);
    assert_eq!(selected(&cx), vec![(3, 6)]);
    movement::extend_next_word_end(&mut cx, word);
    assert_eq!(selected(&cx), vec![(3, 6)]);
    movement::extend_prev_word_start(&mut cx, word);
    assert_eq!(selected(&cx), vec![(3, 6)]);
    let mut cx = context("one two three\n", &[(0, 2)]);
    movement::move_prev_word_start(&mut cx, word);
    assert_eq!(selected(&cx), vec![(3, 3)]);
    movement::extend_next_word_start(&mut cx, word);
    assert_eq!(selected(&cx), vec![(0, 3)]);
}

#[test]
fn line_end_is_one_before_the_ending() {
    let mut cx = context("ab\n\ncde\n", &[(0, 0)]);
    movement::move_line_end(&mut cx);
    assert_eq!(selected(&cx), vec![(1, 1)]);
    // on an empty line this is the line before
    let mut cx = context("ab\n\ncde\n", &[(3, 3)]);
    movement::move_line_end(&mut cx);
    assert_eq!(selected(&cx), vec![(2, 2)]);
    let mut cx = context("", &[(0, 0)]);
    movement::move_line_end(&mut cx);
    assert_eq!(selected(&cx), vec![(0, 0)]);
}

#[test]
fn a_last_line_without_an_ending_ends_on_its_last_character() {
    let mut cx = context("ab\nabc", &[(3, 3)]);
    movement::move_line_end(&mut cx);
    assert_eq!(selected(&cx), vec![(5, 5)]);
    movement::extend_line_end(&mut cx);
    assert_eq!(selected(&cx), vec![(3, 5)]);
    let mut cx = context("abc", &[(0, 0)]);
    movement::move_line_end(&mut cx);
    assert_eq!(selected(&cx), vec![(2, 2)]);
}

#[test]
fn wide_spaces_are_white_space() {
    let mut cx = context("\u{85}\n\u{a0}\u{2003}\u{3000}x\n\u{200b}y\n", &[(2, 2), (7, 7)]);
    movement::move_first_nonwhitespace(&mut cx);
    assert_eq!(selected(&cx), vec![(5, 5), (7, 7)]);
}

#[test]
fn lines_end_at_every_kind_of_line_break() {
    let mut cx = context("a\r\nb\u{2028}c\rd", &[(7, 7)]);
    movement::move_line_start(&mut cx);
    assert_eq!(selected(&cx), vec![(7, 7)]);
    let mut cx = context("a\r\nb\u{2028}c\rd", &[(4, 4)]);
    movement::move_line_start(&mut cx);
    assert_eq!(selected(&cx), vec![(3, 3)]);
    let mut cx = context("a\r\nb", &[(2, 2)]);
    movement::move_line_start(&mut cx);
    assert_eq!(selected(&cx), vec![(0, 0)]);
}

#[test]
fn line_start_keeps_the_anchor_when_extending() {
    let mut cx = context("ab\ncde\n", &[(4, 5), (1, 0)]);
    movement::move_line_start(&mut cx);
    assert_eq!(selected(&cx), vec![(3, 3), (0, 0)]);
    movement::extend_line_start(&mut cx);
    assert_eq!(selected(&cx), vec![(4, 3), (1, 0)]);
    movement::extend_line_end(&mut cx);
    assert_eq!(selected(&cx), vec![(4, 5), (1, 1)]);
}

#[test]
fn first_nonwhitespace_leaves_blank_lines_alone() {
    let text = "  \u{3000}x y\n   \n";
    let mut cx = context(text, &[(5, 4), (8, 9)]);
    movement::move_first_nonwhitespace(&mut cx);
    assert_eq!(selected(&cx), vec![(3, 3), (8, 9)]);
    movement::extend_first_nonwhitespace(&mut cx);
    assert_eq!(selected(&cx), vec![(5, 3), (8, 9)]);
}

#[test]
fn char_search_keeps_the_count_for_the_next_key() {
    let mut cx = context("a.b.c\n", &[(0, 0)]);
    cx.count = Some(2);
    select::find_till_char(&mut cx);
    assert_eq!(
        cx.on_next_key_callback,
        Some(NextKey::FindChar {
            search: CharSearch::NthNext,
            inclusive: false,
            extend: false,
            count: 2
        })
    );
    let runs: [(fn(&mut Context), CharSearch, bool, bool); 7] = [
        (select::find_next_char, CharSearch::NthNext, true, false),
        (select::extend_till_char, CharSearch::NthNext, false, true),
        (select::extend_next_char, CharSearch::NthNext, true, true),
        (select::till_prev_char, CharSearch::NthPrev, false, false),
        (select::find_prev_char, CharSearch::NthPrev, true, false),
        (select::extend_till_prev_char, CharSearch::NthPrev, false, true),
        (select::extend_prev_char, CharSearch::NthPrev, true, true),
    ];
    for (run, search, inclusive, extend) in runs {
        run(&mut cx);
        assert_eq!(
            cx.on_next_key_callback,
            Some(NextKey::FindChar { search, inclusive, extend, count: 2 })
        );
    }
}

#[test]
fn found_characters_are_selected_or_extended_to() {
    let find = |text: &Rope, ch: char, pos: usize, n: usize, inclusive: bool| {
        assert_eq!(n, 1);
        let found = (pos + 1..text.len_chars()).find(|i| text.char(*i) == ch)?;
        Some(if inclusive { found } else { found - 1 })
    };
    let mut cx = context("ab.cd\nef\n", &[(1, 0), (7, 7)]);
    select::find_char(&mut cx, Key::Char('.'), find, true, false, 1);
    assert_eq!(selected(&cx), vec![(0, 2), (7, 7)]);
    select::find_char(&mut cx, Key::Enter, find, false, true, 1);
    assert_eq!(selected(&cx), vec![(1, 4), (7, 7)]);
    let asked = cx.editor.effects.len();
    select::find_char(&mut cx, Key::Other, find, true, false, 1);
    assert_eq!(cx.editor.effects.len(), asked);
}

#[test]
fn whole_text_and_whole_lines_are_selected() {
    let mut cx = context("ab\ncd\nef\n", &[(4, 4)]);
    select::select_all(&mut cx);
    assert_eq!(selected(&cx), vec![(0, 8)]);
    select::select_line(&mut cx);
    assert_eq!(selected(&cx), vec![(3, 5)]);
    cx.count = Some(100);
    select::select_line(&mut cx);
    assert_eq!(selected(&cx), vec![(3, 8)]);
    let mut cx = context("", &[(0, 0)]);
    select::select_all(&mut cx);
    assert_eq!(selected(&cx), vec![(0, 0)]);
}

#[test]
fn extending_by_lines_takes_the_next_line_at_a_line_end() {
    let mut cx = context("ab\ncd\nef\n", &[(0, 1)]);
    select::extend_line(&mut cx);
    assert_eq!(selected(&cx), vec![(0, 2)]);
    let mut cx = context("ab\ncd\nef\n", &[(0, 2)]);
    select::extend_line(&mut cx);
    assert_eq!(selected(&cx), vec![(0, 5)]);
}

#[test]
fn extending_adds_a_line_each_time() {
    let mut cx = context("ab\ncd\nef\n", &[(4, 4)]);
    for reached in [5, 8, 8] {
        select::extend_line(&mut cx);
        assert_eq!(selected(&cx), vec![(3, reached)]);
        cx.editor.doc.selection = Selection::single(3, reached);
    }
}

#[test]
fn flipping_twice_gives_the_ranges_back() {
    let mut cx = context("abcdef\n", &[(1, 3), (5, 4)]);
    select::flip_selections(&mut cx);
    assert_eq!(selected(&cx), vec![(3, 1), (4, 5)]);
    let mut again = context("abcdef\n", &[(3, 1), (4, 5)]);
    select::flip_selections(&mut again);
    assert_eq!(selected(&again), vec![(1, 3), (5, 4)]);
}

#[test]
fn collapsing_leaves_the_cursors() {
    let mut cx = context("abcdef\n", &[(1, 3), (5, 4)]);
    select::collapse_selection(&mut cx);
    assert_eq!(selected(&cx), vec![(3, 3), (4, 4)]);
    let mut again = context("abcdef\n", &[(3, 3), (4, 4)]);
    select::collapse_selection(&mut again);
    assert_eq!(selected(&again), vec![(3, 3), (4, 4)]);
    select::keep_primary_selection(&mut cx);
    assert_eq!(selected(&cx), vec![(1, 3)]);
}

#[test]
fn insert_mode_puts_the_cursor_at_the_start() {
    let mut cx = context("abcdef\n", &[(1, 3), (5, 4)]);
    select::insert_mode(&mut cx);
    assert_eq!(cx.editor.doc.mode, Mode::Insert);
    assert_eq!(selected(&cx), vec![(3, 1), (5, 4)]);
}

#[test]
fn leaving_append_mode_restores_the_range() {
    let mut cx = context("abcdef\n", &[(1, 3)]);
    select::append_mode(&mut cx, next);
    assert_eq!(cx.editor.doc.mode, Mode::Insert);
    assert!(cx.editor.doc.restore_cursor);
    assert_eq!(selected(&cx), vec![(1, 4)]);
    cx.editor.doc.selection = Selection::single(1, 4);
    select::normal_mode(&mut cx, prev);
    assert_eq!(cx.editor.doc.mode, Mode::Normal);
    assert!(!cx.editor.doc.restore_cursor);
    assert_eq!(selected(&cx), vec![(1, 3)]);
    let n = cx.editor.effects.len();
    assert!(matches!(cx.editor.effects[n - 2], Effect::AppendChangesToHistory));
}

#[test]
fn appending_behind_the_text_adds_a_line_ending() {
    let mut cx = context("ab", &[(0, 1)]);
    select::append_mode(&mut cx, next);
    match &cx.editor.effects[0] {
        Effect::Apply(transaction) => {
            assert_eq!(transaction.changes.len(), 1);
            assert_eq!(transaction.changes[0].from, 2);
            assert_eq!(transaction.changes[0].text.as_deref(), Some("\n"));
        }
        other => panic!("no edit: {:?}", other),
    }
    assert_eq!(selected(&cx), vec![(0, 2)]);
}

#[test]
fn normal_mode_without_append_only_closes_the_changes() {
    let mut cx = context("ab\n", &[(0, 1)]);
    cx.editor.doc.mode = Mode::Insert;
    select::normal_mode(&mut cx, prev);
    assert_eq!(cx.editor.doc.mode, Mode::Normal);
    assert_eq!(cx.editor.effects.len(), 1);
    assert!(matches!(cx.editor.effects[0], Effect::AppendChangesToHistory));
    select::select_mode(&mut cx);
    assert_eq!(cx.editor.doc.mode, Mode::Select);
    select::exit_select_mode(&mut cx);
    assert_eq!(cx.editor.doc.mode, Mode::Normal);
}

#[test]
fn lines_are_prepended_and_appended_to() {
    let mut cx = context("  ab\ncd", &[(1, 0), (6, 6)]);
    edit::prepend_to_line(&mut cx);
    assert_eq!(cx.editor.doc.mode, Mode::Insert);
    assert_eq!(selected(&cx), vec![(2, 2), (5, 5)]);
    let mut cx = context("  ab\ncd", &[(1, 0), (6, 6)]);
    edit::append_to_line(&mut cx);
    assert_eq!(cx.editor.doc.mode, Mode::Insert);
    assert_eq!(selected(&cx), vec![(4, 4), (7, 7)]);
    for text in ["abc", "abc\n"] {
        let mut cx = context(text, &[(0, 0)]);
        edit::append_to_line(&mut cx);
        assert_eq!(selected(&cx), vec![(3, 3)]);
    }
    let mut cx = context("ab\n", &[(3, 3)]);
    edit::append_to_line(&mut cx);
    assert_eq!(selected(&cx), vec![(3, 3)]);
}

#[test]
fn regex_prompts_are_put_up() {
    let mut cx = context("ab\n", &[(0, 1)]);
    select::select_regex(&mut cx);
    assert!(matches!(cx.callback, Some(Layer::RegexPrompt(RegexPrompt::Select))));
    select::split_selection(&mut cx);
    assert!(matches!(cx.callback, Some(Layer::RegexPrompt(RegexPrompt::Split))));
    select::keep_selections(&mut cx);
    assert!(matches!(cx.callback, Some(Layer::RegexPrompt(RegexPrompt::Keep))));
    assert_eq!(select::prompt_title(RegexPrompt::Select), "select:");
    assert_eq!(select::prompt_title(RegexPrompt::Split), "split:");
    assert_eq!(select::prompt_title(RegexPrompt::Search), "search:");
    assert_eq!(select::prompt_title(RegexPrompt::Keep), "keep:");
}

#[test]
fn matches_are_selected_where_there_are_some() {
    let mut cx = context("ab\n", &[(0, 1)]);
    select::select_matches(&mut cx, "x", |_: &Rope, _: &Selection, pattern: &str| {
        assert_eq!(pattern, "x");
        None
    });
    assert_eq!(cx.editor.effects.len(), 0);
    select::select_matches(&mut cx, "b", |_: &Rope, _: &Selection, _: &str| {
        Some(Selection::single(1, 1))
    });
    assert_eq!(selected(&cx), vec![(1, 1)]);
    select::split_selection_on_newline(&mut cx, |_: &Rope, _: &Selection, pattern: &str| {
        assert_eq!(pattern, "\\n");
        Selection::single(0, 0)
    });
    assert_eq!(selected(&cx), vec![(0, 0)]);
    select::split_on(&mut cx, "a", |_: &Rope, _: &Selection, pattern: &str| {
        assert_eq!(pattern, "a");
        Selection::single(0, 1)
    });
    assert_eq!(selected(&cx), vec![(0, 1)]);
}

#[test]
fn count_is_one_unless_it_was_typed() {
    let mut cx = context("ab\n", &[(0, 0)]);
    assert_eq!(cx.count(), 1);
    cx.count = Some(3);
    assert_eq!(cx.count(), 3);
    cx.push_layer(Layer::CommandPrompt);
    assert!(matches!(cx.callback, Some(Layer::CommandPrompt)));
    cx.on_next_key(NextKey::Replace);
    assert_eq!(cx.on_next_key_callback, Some(NextKey::Replace));
}
