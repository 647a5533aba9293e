//! Where commands put the view and the cursor in it.

use crate::change::Transaction;
use crate::command::Command;
use crate::editor::{
    Context, Diagnostic, Direction, Editor, EffectView, Key, Movement, NextKey, Position, Window,
};
use crate::execute::Outside;
use crate::goto;
use crate::laws::motions::asked;
use crate::laws::remade::{self, added};
use crate::lsp::{LspPosition, OffsetEncoding};
use crate::selection::{Range, Selection, SelectionView};
use crate::text;
use crate::view::{self, Align};
use ropey::Rope;
use vstd::prelude::*;

verus! {

/// Whether a row that was at `from` is where it has to be: where it was, as long
/// as it lies `margin` lines away from the first and the last line in sight; on
/// the nearer of the lines that are that far away, where it lay outside them. In
/// a view with no such lines it is as far up as the last line asks.
pub open spec fn keeps_margin(from: int, row: int, first: int, last: int, margin: int) -> bool {
    &&& first + margin <= from <= last - margin ==> row == from
    &&& from < first + margin <= last - margin ==> row == first + margin
    &&& first + margin <= last - margin < from ==> row == last - margin
    &&& last - margin < first + margin && margin <= last ==> row == last - margin
    &&& last - margin < first + margin && last < margin ==> row == 0
}

/// A row that keeps its distance from the edges of the view is left as it is,
/// and any other comes no further than that distance from the edge.
pub proof fn rows_with_margin_stay(from: int, first: int, last: int, margin: int)
    requires
        0 <= from,
        0 <= first,
        0 <= last,
        0 <= margin,
    ensures
        keeps_margin(from, view::row_in_sight(from, first, last, margin), first, last, margin),
{
}

/// Whether the first line in sight has moved by `offset` lines, or as far as there
/// are lines.
pub open spec fn moved_by(s: Seq<char>, old: int, new: int, offset: int, direction: Direction) -> bool {
    &&& 0 <= new < text::line_count(s)
    &&& direction == Direction::Forward && old + offset < text::line_count(s) ==> new == old
        + offset
    &&& direction == Direction::Forward && old + offset >= text::line_count(s) ==> new + 1
        == text::line_count(s)
    &&& direction == Direction::Backward && old <= offset ==> new == 0
    &&& direction == Direction::Backward && offset < old && old - offset < text::line_count(s)
        ==> new == old - offset
    &&& direction == Direction::Backward && old - offset >= text::line_count(s) ==> new + 1
        == text::line_count(s)
}

/// How far the cursor stays from the edges of a view: as far as is asked for, and
/// at most half the height.
pub open spec fn distance(view: Window) -> int {
    let half = view.height as int / 2;
    if view.padding as int <= half {
        view.padding as int
    } else {
        half
    }
}

/// Whether a view has been scrolled, where the cursor was at `cursor`, comes to
/// the row `row` and with that to the position `pos`, and `last` is the last line
/// in sight then.
pub open spec fn cursor_follows<
    C: Fn(&Rope, usize) -> Position,
    P: Fn(&Rope, Position) -> usize,
    L: Fn(&Window, &Rope) -> usize,
>(
    pre: Context,
    post: Context,
    coords_at_pos: C,
    pos_at_coords: P,
    last_line_of: L,
    cursor: Position,
    last: usize,
    row: usize,
    pos: usize,
) -> bool {
    let rope = pre.editor.doc.text;
    &&& call_ensures(coords_at_pos, (&rope, pre.selection().primary().head), cursor)
    &&& call_ensures(last_line_of, (&post.editor.view, &rope), last)
    &&& keeps_margin(
        cursor.row as int,
        row as int,
        post.editor.view.first_line as int,
        last as int,
        distance(pre.editor.view),
    )
    &&& call_ensures(pos_at_coords, (&rope, Position { row, col: cursor.col }), pos)
    &&& added(pre, post) == seq![EffectView::SetSelection(asked(pre, post))]
    &&& asked(pre, post).ranges.len() == 1
    &&& asked(pre, post).primary_index == 0
    &&& asked(pre, post).ranges[0].anchor == pos
    &&& asked(pre, post).ranges[0].head == pos
}

/// Whether the view has moved by `offset` lines and the cursor with it. A view at
/// the edge of the text stays, and with it everything else.
pub open spec fn scrolled_by<
    C: Fn(&Rope, usize) -> Position,
    P: Fn(&Rope, Position) -> usize,
    L: Fn(&Window, &Rope) -> usize,
>(
    pre: Context,
    post: Context,
    offset: int,
    direction: Direction,
    coords_at_pos: C,
    pos_at_coords: P,
    last_line_of: L,
) -> bool {
    exists|last_before: usize|
        {
            &&& #[trigger] call_ensures(
                last_line_of,
                (&pre.editor.view, &pre.editor.doc.text),
                last_before,
            )
            &&& if direction == Direction::Backward && pre.editor.view.first_line == 0 || direction
                == Direction::Forward && last_before + 1 == text::line_count(pre.text()) {
                post == pre
            } else {
                &&& post.editor == (Editor {
                    effects: post.editor.effects,
                    view: Window {
                        first_line: post.editor.view.first_line,
                        ..pre.editor.view
                    },
                    ..pre.editor
                })
                &&& moved_by(
                    pre.text(),
                    pre.editor.view.first_line as int,
                    post.editor.view.first_line as int,
                    offset,
                    direction,
                )
                &&& exists|cursor: Position, last: usize, row: usize, pos: usize| #[trigger]
                    cursor_follows(
                        pre,
                        post,
                        coords_at_pos,
                        pos_at_coords,
                        last_line_of,
                        cursor,
                        last,
                        row,
                        pos,
                    )
            }
        }
}

/// Scrolling moves the view by as many lines as is asked for and as there are. The
/// cursor stays on its line as long as that keeps its distance from the edges of
/// the view, and else goes no further than it has to.
pub proof fn the_cursor_stays_while_in_sight<
    C: Fn(&Rope, usize) -> Position,
    P: Fn(&Rope, Position) -> usize,
    L: Fn(&Window, &Rope) -> usize,
>(
    pre: Context,
    post: Context,
    offset: usize,
    direction: Direction,
    coords_at_pos: C,
    pos_at_coords: P,
    last_line_of: L,
)
    requires
        pre.wf(),
        view::scrolls(
            pre,
            post,
            offset,
            direction,
            coords_at_pos,
            pos_at_coords,
            last_line_of,
        ),
        view::can_scroll(pre, offset, direction, coords_at_pos, pos_at_coords, last_line_of),
    ensures
        scrolled_by(
            pre,
            post,
            offset as int,
            direction,
            coords_at_pos,
            pos_at_coords,
            last_line_of,
        ),
{
    let s = pre.text();
    let (cursor, last_before, last, pos) = choose|
        cursor: Position,
        last_line: usize,
        next_last_line: usize,
        pos: usize,
    | #[trigger]
        view::scrolls_with(
            pre,
            post,
            offset,
            direction,
            coords_at_pos,
            pos_at_coords,
            last_line_of,
            cursor,
            last_line,
            next_last_line,
            pos,
        );
    text::lemma_fits(s);
    text::lemma_line_of_monotone(s, 0, s.len() as int);
    assert(call_ensures(last_line_of, (&pre.editor.view, &pre.editor.doc.text), last_before));
    if !view::at_edge(s, pre.editor.view, last_before, direction) {
        let first = view::scrolled(s, pre.editor.view.first_line, offset, direction);
        let row = view::row_in_sight(
            cursor.row as int,
            first,
            last as int,
            view::scroll_margin(pre.editor.view),
        );
        remade::lemma_added(
            pre,
            post,
            seq![EffectView::SetSelection(SelectionView::point(pos))],
        );
        assert(cursor_follows(
            pre,
            post,
            coords_at_pos,
            pos_at_coords,
            last_line_of,
            cursor,
            last,
            row as usize,
            pos,
        ));
    }
}

/// A view is aligned with the line of a position at its top, in its middle or at
/// its bottom. Where there are too few lines before, it starts with the first.
pub proof fn aligned_lines_are_where_they_should_be(s: Seq<char>, pos: int, height: u16)
    requires
        0 <= pos <= s.len(),
    ensures
        view::aligned(s, pos, height, Align::Top) == text::line_of(s, pos),
        ({
            let first = view::aligned(s, pos, height, Align::Center);
            let line = text::line_of(s, pos);
            &&& line >= height as int / 2 ==> line - first == height as int / 2
            &&& line < height as int / 2 ==> first == 0
        }),
        ({
            let first = view::aligned(s, pos, height, Align::Bottom);
            let line = text::line_of(s, pos);
            &&& line >= height ==> line - first == height
            &&& line < height ==> first == 0
        }),
{
    text::lemma_line_of_monotone(s, 0, pos);
}

/// A column in the middle of the view has as many columns of text before it as
/// after, give or take one. Where there are too few before, the first is in sight.
pub proof fn centered_columns_are_in_the_middle(col: usize, width: u16)
    ensures
        ({
            let first = view::centered_col(col, width);
            let columns = width - 7;
            &&& 0 <= first <= col
            &&& columns >= 0 && first > 0 ==> 2 * (col - first) <= columns < 2 * (col - first) + 2
            &&& columns >= 0 && first == 0 ==> 2 * col < columns + 2
            &&& columns < 0 ==> first == col
        }),
{
}

/// Of the keys that move the view, `z` and `c` put the cursor in its middle, `t` at
/// its top, `b` at its bottom, and `j` and `k` scroll down and up.
pub proof fn view_keys_move_the_view(ch: char)
    ensures
        view::key_align(Key::Char(ch)) == if ch == 'z' || ch == 'c' {
            Some(Align::Center)
        } else if ch == 't' {
            Some(Align::Top)
        } else if ch == 'b' {
            Some(Align::Bottom)
        } else {
            None
        },
        view::key_scroll(Key::Char(ch)) == if ch == 'j' {
            Some(Direction::Forward)
        } else if ch == 'k' {
            Some(Direction::Backward)
        } else {
            None
        },
{
}

/// The lines in sight that keys go to: the first that keeps its distance from the
/// top, the last that keeps it from the bottom, and the one in the middle, where
/// that comes before the last.
pub proof fn sight_keys_go_to_lines_in_sight(view: Window, last: usize)
    requires
        distance(view) <= last,
    ensures
        goto::sight_line(view, last, 'b') == last - distance(view),
        ({
            let top = goto::sight_line(view, last, 't');
            let lowest = last - distance(view);
            &&& view.first_line + distance(view) <= lowest ==> top == view.first_line + distance(
                view,
            )
            &&& view.first_line + distance(view) > lowest ==> top == lowest
        }),
        ({
            let middle = goto::sight_line(view, last, 'm');
            let lowest = last - distance(view);
            let half = view.height as int / 2;
            &&& view.first_line + half <= lowest ==> middle == view.first_line + half
            &&& view.first_line + half > lowest ==> middle == lowest
        }),
        forall|ch: char| #[trigger]
            goto::is_sight_key(ch) <==> ch == 't' || ch == 'm' || ch == 'b',
{
}

/// Whether a command has remembered where it was and asks for the cursor at `pos`.
pub open spec fn jumped(pre: Context, post: Context, pos: int) -> bool {
    &&& added(pre, post) == seq![
        EffectView::PushJump(pre.editor.doc.id, pre.selection()),
        EffectView::SetSelection(asked(pre, post)),
    ]
    &&& asked(pre, post).ranges.len() == 1
    &&& asked(pre, post).primary_index == 0
    &&& asked(pre, post).ranges[0].anchor == pos
    &&& asked(pre, post).ranges[0].head == pos
}

/// Whether the view has been centered on the line of `pos`, or starts with the
/// first line of the text where there are too few before it.
pub open spec fn centered_on(pre: Context, post: Context, pos: int) -> bool {
    let line = text::line_of(pre.text(), pos);
    let half = pre.editor.view.height as int / 2;
    let first = post.editor.view.first_line;
    &&& line >= half ==> line - first == half
    &&& line < half ==> first == 0
}

/// Whether `pos` is where the remark starts that is the next to come after `from`,
/// or the first of all where none comes after.
pub open spec fn starts_next(diagnostics: Seq<Diagnostic>, from: usize, pos: int) -> bool {
    exists|i: int|
        {
            &&& 0 <= i < diagnostics.len()
            &&& (#[trigger] diagnostics[i]).start == pos
            &&& pos > from ==> forall|j: int|
                0 <= j < i ==> (#[trigger] diagnostics[j]).start <= from
            &&& pos <= from ==> i == 0 && forall|j: int|
                0 <= j < diagnostics.len() ==> (#[trigger] diagnostics[j]).start <= from
        }
}

/// Whether `pos` is where the remark starts that is the last to come before `from`,
/// or the last of all where none comes before.
pub open spec fn starts_previous(diagnostics: Seq<Diagnostic>, from: usize, pos: int) -> bool {
    exists|i: int|
        {
            &&& 0 <= i < diagnostics.len()
            &&& (#[trigger] diagnostics[i]).start == pos
            &&& pos < from ==> forall|j: int|
                i < j < diagnostics.len() ==> (#[trigger] diagnostics[j]).start >= from
            &&& pos >= from ==> i == diagnostics.len() - 1 && forall|j: int|
                0 <= j < diagnostics.len() ==> (#[trigger] diagnostics[j]).start >= from
        }
}

proof fn lemma_diag_after(diagnostics: Seq<Diagnostic>, pos: usize) -> (i: int)
    ensures
        match goto::diag_after(diagnostics, pos) {
            Some(start) => {
                &&& 0 <= i < diagnostics.len()
                &&& diagnostics[i].start == start
                &&& start > pos
                &&& forall|j: int| 0 <= j < i ==> (#[trigger] diagnostics[j]).start <= pos
            },
            None => forall|j: int|
                0 <= j < diagnostics.len() ==> (#[trigger] diagnostics[j]).start <= pos,
        },
    decreases diagnostics.len(),
{
    if diagnostics.len() == 0 || diagnostics.first().start > pos {
        0
    } else {
        let rest = diagnostics.drop_first();
        let k = lemma_diag_after(rest, pos);
        assert forall|j: int| 1 <= j < diagnostics.len() implies (#[trigger] diagnostics[j])
            == rest[j - 1] by {}
        k + 1
    }
}

proof fn lemma_diag_before(diagnostics: Seq<Diagnostic>, pos: usize) -> (i: int)
    ensures
        match goto::diag_before(diagnostics, pos) {
            Some(start) => {
                &&& 0 <= i < diagnostics.len()
                &&& diagnostics[i].start == start
                &&& start < pos
                &&& forall|j: int|
                    i < j < diagnostics.len() ==> (#[trigger] diagnostics[j]).start >= pos
            },
            None => forall|j: int|
                0 <= j < diagnostics.len() ==> (#[trigger] diagnostics[j]).start >= pos,
        },
    decreases diagnostics.len(),
{
    if diagnostics.len() == 0 || diagnostics.last().start < pos {
        diagnostics.len() - 1
    } else {
        let rest = diagnostics.drop_last();
        let k = lemma_diag_before(rest, pos);
        assert forall|j: int| 0 <= j < rest.len() implies (#[trigger] diagnostics[j])
            == rest[j] by {}
        k
    }
}

/// The next remark is the first to start after the cursor, and the previous one
/// the last to start before it. After the last comes the first, and before the
/// first the last.
pub proof fn remarks_are_found_from_the_cursor(diagnostics: Seq<Diagnostic>, from: usize)
    ensures
        diagnostics.len() == 0 ==> goto::next_diag(diagnostics, from) is None && goto::prev_diag(
            diagnostics,
            from,
        ) is None && goto::first_diag(diagnostics) is None && goto::last_diag(
            diagnostics,
        ) is None,
        diagnostics.len() > 0 ==> {
            &&& goto::first_diag(diagnostics) == Some(diagnostics[0].start)
            &&& goto::last_diag(diagnostics) == Some(diagnostics[diagnostics.len() - 1].start)
            &&& goto::next_diag(diagnostics, from) matches Some(pos) && starts_next(
                diagnostics,
                from,
                pos as int,
            )
            &&& goto::prev_diag(diagnostics, from) matches Some(pos) && starts_previous(
                diagnostics,
                from,
                pos as int,
            )
        },
{
    let i = lemma_diag_after(diagnostics, from);
    let k = lemma_diag_before(diagnostics, from);
    if diagnostics.len() > 0 {
        let first = diagnostics[0];
        let last = diagnostics[diagnostics.len() - 1];
        assert(first == diagnostics.first() && last == diagnostics.last());
        if goto::diag_after(diagnostics, from) is Some {
            assert(diagnostics[i].start == goto::next_diag(diagnostics, from)->0);
        }
        if goto::diag_before(diagnostics, from) is Some {
            assert(diagnostics[k].start == goto::prev_diag(diagnostics, from)->0);
        }
    }
}

/// Keys after a bracket go to remarks: back with one bracket, on with the other.
pub proof fn bracket_keys_go_to_remarks(cx: Context, ch: char)
    ensures
        ({
            let diagnostics = cx.editor.doc.diagnostics@;
            let from = cx.selection().primary().head;
            let back = goto::left_bracket_target(cx, Key::Char(ch));
            let on = goto::right_bracket_target(cx, Key::Char(ch));
            if ch == 'd' && diagnostics.len() > 0 {
                &&& back matches Some(pos) && starts_previous(diagnostics, from, pos as int)
                &&& on matches Some(pos) && starts_next(diagnostics, from, pos as int)
            } else if ch == 'D' && diagnostics.len() > 0 {
                &&& back == Some(diagnostics[0].start)
                &&& on == Some(diagnostics[diagnostics.len() - 1].start)
            } else {
                back is None && on is None
            }
        }),
{
    remarks_are_found_from_the_cursor(
        cx.editor.doc.diagnostics@,
        cx.selection().primary().head,
    );
}

/// Going back to another document makes the one that was left the last that was
/// shown; going forward leaves that as it was.
pub proof fn going_back_remembers_the_document(view: Window, doc: usize, direction: Direction)
    ensures
        ({
            let new = goto::jumped_view(view, doc, direction);
            &&& new.doc == doc
            &&& new.first_line == view.first_line && new.first_col == view.first_col
            &&& new.height == view.height && new.width == view.width
            &&& direction == Direction::Backward && doc != view.doc ==> new.last_accessed_doc
                == Some(view.doc)
            &&& direction == Direction::Forward || doc == view.doc ==> new.last_accessed_doc
                == view.last_accessed_doc
        }),
{
}

impl<
    MH: Fn(&Rope, Range, Direction, usize, Movement) -> Range,
    MV: Fn(&Rope, Range, Direction, usize, Movement) -> Range,
    NW: Fn(&Rope, Range, usize) -> Range,
    PW: Fn(&Rope, Range, usize) -> Range,
    WE: Fn(&Rope, Range, usize) -> Range,
    NG: Fn(&Rope, usize) -> usize,
    PG: Fn(&Rope, usize) -> usize,
    NN: Fn(&Rope, usize, usize) -> usize,
    NP: Fn(&Rope, usize, usize) -> usize,
    CP: Fn(&Rope, usize) -> Position,
    PC: Fn(&Rope, Position) -> usize,
    LL: Fn(&Window, &Rope) -> usize,
    SM: Fn(&Rope, &Selection, &str) -> Selection,
    PU: Fn(&Selection, Range) -> Selection,
    FR: Fn(&Rope, Range) -> String,
    SI: Fn(&Rope, usize, bool) -> usize,
    TC: Fn(&Rope, &Selection) -> Transaction,
    ES: Fn(&Rope, &Selection) -> Selection,
    MB: Fn(&Rope, usize) -> Option<usize>,
    LP: Fn(&Rope, usize, OffsetEncoding) -> LspPosition,
> Outside<MH, MV, NW, PW, WE, NG, PG, NN, NP, CP, PC, LL, SM, PU, FR, SI, TC, ES, MB, LP> {
    /// Pages are as high as the view, and half pages half as high. Scrolling up goes
    /// back and scrolling down goes forward by that many lines.
    pub proof fn pages_are_as_high_as_the_view(self, command: Command, pre: Context, post: Context)
        requires
            pre.wf(),
            self.can_run(command, pre),
            self.runs(command, pre, post),
        ensures
            ({
                let height = pre.editor.view.height as int;
                let wanted = match command {
                    Command::page_up => Some((height, Direction::Backward)),
                    Command::page_down => Some((height, Direction::Forward)),
                    Command::half_page_up => Some((height / 2, Direction::Backward)),
                    Command::half_page_down => Some((height / 2, Direction::Forward)),
                    _ => None,
                };
                wanted matches Some(wanted) ==> scrolled_by(
                    pre,
                    post,
                    wanted.0,
                    wanted.1,
                    self.coords_at_pos,
                    self.pos_at_coords,
                    self.last_line_of,
                )
            }),
    {
        let height = pre.editor.view.height;
        let wanted = match command {
            Command::page_up => Some((height as usize, Direction::Backward)),
            Command::page_down => Some((height as usize, Direction::Forward)),
            Command::half_page_up => Some(((height / 2) as usize, Direction::Backward)),
            Command::half_page_down => Some(((height / 2) as usize, Direction::Forward)),
            _ => None,
        };
        if let Some(wanted) = wanted {
            the_cursor_stays_while_in_sight(
                pre,
                post,
                wanted.0,
                wanted.1,
                self.coords_at_pos,
                self.pos_at_coords,
                self.last_line_of,
            );
        }
    }

    /// Going to the start of the text goes to its first position, going to its end
    /// to where the last line but one starts, and a count to where the line that
    /// it counts starts, no further than that. Where the cursor was is remembered.
    pub proof fn places_are_remembered_before_leaving(
        self,
        command: Command,
        pre: Context,
        post: Context,
    )
        requires
            pre.wf(),
            self.runs(command, pre, post),
        ensures
            ({
                let s = pre.text();
                let lines = text::line_count(s);
                let end = if lines >= 2 {
                    lines - 2
                } else {
                    0
                };
                match command {
                    Command::move_file_start => jumped(pre, post, 0),
                    Command::move_file_end => jumped(pre, post, text::line_start(s, end)),
                    Command::goto_mode => match pre.count {
                        Some(count) => {
                            &&& count <= end ==> jumped(pre, post, text::line_start(s, count - 1))
                            &&& count > end ==> jumped(pre, post, text::line_start(s, end))
                        },
                        None => {
                            &&& post.editor == pre.editor
                            &&& post.on_next_key_callback == Some(NextKey::Goto)
                        },
                    },
                    _ => true,
                }
            }),
    {
        let s = pre.text();
        let lines = text::line_count(s);
        text::lemma_fits(s);
        let end = goto::last_text_line(s);
        let pos = match command {
            Command::move_file_end => text::line_start(s, end),
            Command::goto_mode if pre.count is Some => text::line_start(
                s,
                goto::counted_line(s, pre.count->0),
            ),
            _ => 0,
        };
        text::lemma_line_start(s, end);
        if command == Command::goto_mode && pre.count is Some {
            text::lemma_line_start(s, goto::counted_line(s, pre.count->0));
        }
        if command == Command::move_file_start || command == Command::move_file_end || command
            == Command::goto_mode && pre.count is Some {
            remade::lemma_added(
                pre,
                post,
                seq![
                    EffectView::PushJump(pre.editor.doc.id, pre.selection()),
                    EffectView::SetSelection(SelectionView::point(pos as usize)),
                ],
            );
        }
    }

    /// Going to a remark goes to where it starts, remembers where the cursor was and
    /// centers the view.
    pub proof fn remarks_are_gone_to(self, command: Command, pre: Context, post: Context)
        requires
            pre.wf(),
            self.can_run(command, pre),
            self.runs(command, pre, post),
            command == Command::goto_first_diag || command == Command::goto_last_diag || command
                == Command::goto_next_diag || command == Command::goto_prev_diag,
        ensures
            pre.editor.doc.diagnostics@.len() == 0 ==> post == pre,
            pre.editor.doc.diagnostics@.len() > 0 ==> {
                let diagnostics = pre.editor.doc.diagnostics@;
                let from = pre.selection().primary().head;
                let pos = asked(pre, post).ranges[0].head as int;
                &&& jumped(pre, post, pos)
                &&& centered_on(pre, post, pos)
                &&& command == Command::goto_first_diag ==> pos == diagnostics[0].start
                &&& command == Command::goto_last_diag ==> pos == diagnostics[diagnostics.len()
                    - 1].start
                &&& command == Command::goto_next_diag ==> starts_next(diagnostics, from, pos)
                &&& command == Command::goto_prev_diag ==> starts_previous(diagnostics, from, pos)
            },
    {
        let diagnostics = pre.editor.doc.diagnostics@;
        let from = pre.selection().primary().head;
        remarks_are_found_from_the_cursor(diagnostics, from);
        if diagnostics.len() > 0 {
            let pos = match command {
                Command::goto_first_diag => goto::first_diag(diagnostics)->0,
                Command::goto_last_diag => goto::last_diag(diagnostics)->0,
                Command::goto_next_diag => goto::next_diag(diagnostics, from)->0,
                _ => goto::prev_diag(diagnostics, from)->0,
            };
            remade::lemma_added(
                pre,
                post,
                seq![
                    EffectView::PushJump(pre.editor.doc.id, pre.selection()),
                    EffectView::SetSelection(SelectionView::point(pos)),
                ],
            );
            text::lemma_fits(pre.text());
            text::lemma_line_of_position(pre.text(), pos as int);
            aligned_lines_are_where_they_should_be(
                pre.text(),
                pos as int,
                pre.editor.view.height,
            );
        }
    }
}

} // verus!
