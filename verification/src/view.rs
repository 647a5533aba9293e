//! Commands that move the view over the text.

use crate::editor::{Context, Direction, Document, Editor, Key, NextKey, Position, Window};
use crate::selection::{Selection, SelectionView};
use crate::text;
use ropey::Rope;
use vstd::prelude::*;

verus! {

/// Where in the view the cursor's line is to be.
#[derive(Clone, Copy, Debug, PartialEq, Eq, Structural)]
pub enum Align {
    Top,
    Center,
    Bottom,
}

/// The first line to show so that the line of `pos` is where `align` says, or
/// as near as the start of the text lets it be.
pub open spec fn aligned(s: Seq<char>, pos: int, height: u16, align: Align) -> int {
    let relative = match align {
        Align::Center => height as int / 2,
        Align::Top => 0,
        Align::Bottom => height as int,
    };
    let line = text::line_of(s, pos);
    if line > relative {
        line - relative
    } else {
        0
    }
}

/// Moves the view so that the line of `pos` is where `align` says.
pub(crate) fn align_at(text: &Rope, pos: usize, view: &mut Window, align: Align)
    requires
        text::fits(text::rope_text(*text)),
        pos <= text::rope_text(*text).len(),
    ensures
        *final(view) == (Window { first_line: final(view).first_line, ..*old(view) }),
        final(view).first_line == aligned(
            text::rope_text(*text),
            pos as int,
            old(view).height,
            align,
        ),
{
    let line = text.char_to_line(pos);
    let relative = match align {
        Align::Center => view.height as usize / 2,
        Align::Top => 0,
        Align::Bottom => view.height as usize,
    };
    view.first_line = line.saturating_sub(relative);
}

/// Moves the view so that the cursor's line is where `align` says.
pub fn align_view(doc: &Document, view: &mut Window, align: Align)
    requires
        text::fits(text::rope_text(doc.text)),
        doc.selection@.within(text::rope_text(doc.text).len() as int),
    ensures
        *final(view) == (Window { first_line: final(view).first_line, ..*old(view) }),
        final(view).first_line == aligned(
            text::rope_text(doc.text),
            doc.selection@.primary().head as int,
            old(view).height,
            align,
        ),
{
    assert(doc.selection@.primary().within(text::rope_text(doc.text).len() as int));
    align_at(&doc.text, doc.selection.cursor(), view, align);
}

/// How many lines to keep in sight around the cursor: at most half the view.
pub open spec fn scroll_margin(view: Window) -> int {
    if view.padding <= view.height / 2 {
        view.padding as int
    } else {
        view.height as int / 2
    }
}

pub(crate) fn margin(view: &Window) -> (lines: usize)
    ensures
        lines == scroll_margin(*view),
{
    let half = view.height as usize / 2;
    if view.padding <= half {
        view.padding
    } else {
        half
    }
}

/// The first line to show after scrolling: never past the last line.
pub open spec fn scrolled(s: Seq<char>, first_line: usize, offset: usize, direction: Direction) -> int {
    let first = match direction {
        Direction::Forward => first_line + offset,
        Direction::Backward => if first_line > offset {
            first_line - offset
        } else {
            0
        },
    };
    if first < text::line_count(s) - 1 {
        first
    } else {
        text::line_count(s) - 1
    }
}

/// A row moved into the lines from `first` to `last`, `margin` away from both,
/// where that can be; otherwise as far up as the last allows.
pub open spec fn row_in_sight(row: int, first: int, last: int, margin: int) -> int {
    let lowest = first + margin;
    let highest = if last > margin {
        last - margin
    } else {
        0
    };
    let row = if row > lowest {
        row
    } else {
        lowest
    };
    if row < highest {
        row
    } else {
        highest
    }
}

/// Whether there is nothing to scroll to: the view is at the start or the end
/// of the text already.
pub open spec fn at_edge(s: Seq<char>, view: Window, last_line: usize, direction: Direction) -> bool {
    match direction {
        Direction::Backward => view.first_line == 0,
        Direction::Forward => last_line == text::line_count(s) - 1,
    }
}

/// What the scrolled view is.
pub open spec fn scrolled_view(
    s: Seq<char>,
    view: Window,
    offset: usize,
    direction: Direction,
) -> Window {
    Window { first_line: scrolled(s, view.first_line, offset, direction) as usize, ..view }
}

/// Whether `post` is `pre` scrolled, where the cursor is at `cursor`, the last
/// line in sight is `last_line` before and `next_last_line` after, and `pos` is
/// the position that the cursor comes to.
pub open spec fn scrolls_with<
    C: Fn(&Rope, usize) -> Position,
    P: Fn(&Rope, Position) -> usize,
    L: Fn(&Window, &Rope) -> usize,
>(
    pre: Context,
    post: Context,
    offset: usize,
    direction: Direction,
    coords_at_pos: C,
    pos_at_coords: P,
    last_line_of: L,
    cursor: Position,
    last_line: usize,
    next_last_line: usize,
    pos: usize,
) -> bool {
    let rope = pre.editor.doc.text;
    let s = pre.text();
    let view = pre.editor.view;
    let next = scrolled_view(s, view, offset, direction);
    &&& call_ensures(coords_at_pos, (&rope, pre.cursor()), cursor)
    &&& call_ensures(last_line_of, (&view, &rope), last_line)
    &&& if at_edge(s, view, last_line, direction) {
        post == pre
    } else {
        &&& call_ensures(last_line_of, (&next, &rope), next_last_line)
        &&& call_ensures(
            pos_at_coords,
            (
                &rope,
                Position {
                    row: row_in_sight(
                        cursor.row as int,
                        next.first_line as int,
                        next_last_line as int,
                        scroll_margin(view),
                    ) as usize,
                    col: cursor.col,
                },
            ),
            pos,
        )
        &&& post.selects(pre.showing(next.first_line), SelectionView::point(pos))
    }
}

/// Whether `post` is `pre` scrolled by `offset` lines.
pub open spec fn scrolls<
    C: Fn(&Rope, usize) -> Position,
    P: Fn(&Rope, Position) -> usize,
    L: Fn(&Window, &Rope) -> usize,
>(
    pre: Context,
    post: Context,
    offset: usize,
    direction: Direction,
    coords_at_pos: C,
    pos_at_coords: P,
    last_line_of: L,
) -> bool {
    exists|cursor: Position, last_line: usize, next_last_line: usize, pos: usize| #[trigger]
        scrolls_with(
            pre,
            post,
            offset,
            direction,
            coords_at_pos,
            pos_at_coords,
            last_line_of,
            cursor,
            last_line,
            next_last_line,
            pos,
        )
}

/// Whether scrolling can be done: what it asks can be asked, and unless the view
/// is at an edge the lines can be counted.
pub open spec fn can_scroll<
    C: Fn(&Rope, usize) -> Position,
    P: Fn(&Rope, Position) -> usize,
    L: Fn(&Window, &Rope) -> usize,
>(
    cx: Context,
    offset: usize,
    direction: Direction,
    coords_at_pos: C,
    pos_at_coords: P,
    last_line_of: L,
) -> bool {
    let rope = cx.editor.doc.text;
    &&& call_requires(coords_at_pos, (&rope, cx.cursor()))
    &&& forall|view: Window| #[trigger] call_requires(last_line_of, (&view, &rope))
    &&& forall|position: Position| #[trigger] call_requires(pos_at_coords, (&rope, position))
    &&& forall|last_line: usize|
        {
            &&& #[trigger] call_ensures(last_line_of, (&cx.editor.view, &rope), last_line)
            &&& !at_edge(cx.text(), cx.editor.view, last_line, direction)
        } ==> {
            &&& direction == Direction::Forward ==> cx.editor.view.first_line + offset <= usize::MAX
            &&& scrolled(cx.text(), cx.editor.view.first_line, offset, direction) + scroll_margin(
                cx.editor.view,
            ) <= usize::MAX
        }
}

/// Scrolls the view by `offset` lines, and moves the cursor so that it stays in
/// sight. The cursor becomes the only selection.
pub fn scroll<
    C: Fn(&Rope, usize) -> Position,
    P: Fn(&Rope, Position) -> usize,
    L: Fn(&Window, &Rope) -> usize,
>(
    cx: &mut Context,
    offset: usize,
    direction: Direction,
    coords_at_pos: C,
    pos_at_coords: P,
    last_line_of: L,
)
    requires
        old(cx).wf(),
        can_scroll(*old(cx), offset, direction, coords_at_pos, pos_at_coords, last_line_of),
    ensures
        scrolls(
            *old(cx),
            *final(cx),
            offset,
            direction,
            coords_at_pos,
            pos_at_coords,
            last_line_of,
        ),
{
    let ghost s = cx.text();
    proof {
        text::lemma_fits(s);
    }
    let cursor = coords_at_pos(&cx.editor.doc.text, cx.editor.doc.selection.cursor());
    let doc_last_line = cx.editor.doc.text.len_lines() - 1;
    let last_line = last_line_of(&cx.editor.view, &cx.editor.doc.text);
    if direction == Direction::Backward && cx.editor.view.first_line == 0 || direction
        == Direction::Forward && last_line == doc_last_line {
        assert(scrolls_with(
            *old(cx),
            *cx,
            offset,
            direction,
            coords_at_pos,
            pos_at_coords,
            last_line_of,
            cursor,
            last_line,
            0,
            0,
        ));
        return;
    }
    let scrolloff = margin(&cx.editor.view);
    let first = match direction {
        Direction::Forward => cx.editor.view.first_line + offset,
        Direction::Backward => cx.editor.view.first_line.saturating_sub(offset),
    };
    cx.editor.view.first_line = if first < doc_last_line {
        first
    } else {
        doc_last_line
    };
    assert(cx.editor.view == scrolled_view(s, old(cx).editor.view, offset, direction));
    // recalculate last line
    let next_last_line = last_line_of(&cx.editor.view, &cx.editor.doc.text);
    // clamp into viewport
    let lowest = cx.editor.view.first_line + scrolloff;
    let highest = next_last_line.saturating_sub(scrolloff);
    let row = if cursor.row > lowest {
        cursor.row
    } else {
        lowest
    };
    let row = if row < highest {
        row
    } else {
        highest
    };
    let pos = pos_at_coords(&cx.editor.doc.text, Position { row, col: cursor.col });
    cx.set_selection(Selection::point(pos));
    assert(scrolls_with(
        *old(cx),
        *cx,
        offset,
        direction,
        coords_at_pos,
        pos_at_coords,
        last_line_of,
        cursor,
        last_line,
        next_last_line,
        pos,
    ));
}

/// Scrolls up by the height of the view.
pub fn page_up<
    C: Fn(&Rope, usize) -> Position,
    P: Fn(&Rope, Position) -> usize,
    L: Fn(&Window, &Rope) -> usize,
>(cx: &mut Context, coords_at_pos: C, pos_at_coords: P, last_line_of: L)
    requires
        old(cx).wf(),
        can_scroll(
            *old(cx),
            old(cx).editor.view.height as usize,
            Direction::Backward,
            coords_at_pos,
            pos_at_coords,
            last_line_of,
        ),
    ensures
        scrolls(
            *old(cx),
            *final(cx),
            old(cx).editor.view.height as usize,
            Direction::Backward,
            coords_at_pos,
            pos_at_coords,
            last_line_of,
        ),
{
    let offset = cx.editor.view.height as usize;
    scroll(cx, offset, Direction::Backward, coords_at_pos, pos_at_coords, last_line_of);
}

/// Scrolls down by the height of the view.
pub fn page_down<
    C: Fn(&Rope, usize) -> Position,
    P: Fn(&Rope, Position) -> usize,
    L: Fn(&Window, &Rope) -> usize,
>(cx: &mut Context, coords_at_pos: C, pos_at_coords: P, last_line_of: L)
    requires
        old(cx).wf(),
        can_scroll(
            *old(cx),
            old(cx).editor.view.height as usize,
            Direction::Forward,
            coords_at_pos,
            pos_at_coords,
            last_line_of,
        ),
    ensures
        scrolls(
            *old(cx),
            *final(cx),
            old(cx).editor.view.height as usize,
            Direction::Forward,
            coords_at_pos,
            pos_at_coords,
            last_line_of,
        ),
{
    let offset = cx.editor.view.height as usize;
    scroll(cx, offset, Direction::Forward, coords_at_pos, pos_at_coords, last_line_of);
}

/// Scrolls up by half the height of the view.
pub fn half_page_up<
    C: Fn(&Rope, usize) -> Position,
    P: Fn(&Rope, Position) -> usize,
    L: Fn(&Window, &Rope) -> usize,
>(cx: &mut Context, coords_at_pos: C, pos_at_coords: P, last_line_of: L)
    requires
        old(cx).wf(),
        can_scroll(
            *old(cx),
            (old(cx).editor.view.height / 2) as usize,
            Direction::Backward,
            coords_at_pos,
            pos_at_coords,
            last_line_of,
        ),
    ensures
        scrolls(
            *old(cx),
            *final(cx),
            (old(cx).editor.view.height / 2) as usize,
            Direction::Backward,
            coords_at_pos,
            pos_at_coords,
            last_line_of,
        ),
{
    let offset = cx.editor.view.height as usize / 2;
    scroll(cx, offset, Direction::Backward, coords_at_pos, pos_at_coords, last_line_of);
}

/// Scrolls down by half the height of the view.
pub fn half_page_down<
    C: Fn(&Rope, usize) -> Position,
    P: Fn(&Rope, Position) -> usize,
    L: Fn(&Window, &Rope) -> usize,
>(cx: &mut Context, coords_at_pos: C, pos_at_coords: P, last_line_of: L)
    requires
        old(cx).wf(),
        can_scroll(
            *old(cx),
            (old(cx).editor.view.height / 2) as usize,
            Direction::Forward,
            coords_at_pos,
            pos_at_coords,
            last_line_of,
        ),
    ensures
        scrolls(
            *old(cx),
            *final(cx),
            (old(cx).editor.view.height / 2) as usize,
            Direction::Forward,
            coords_at_pos,
            pos_at_coords,
            last_line_of,
        ),
{
    let offset = cx.editor.view.height as usize / 2;
    scroll(cx, offset, Direction::Forward, coords_at_pos, pos_at_coords, last_line_of);
}

/// The width of the gutters.
pub const GUTTERS: usize = 7;

/// The first column to show so that column `col` is in the middle of the text,
/// or as near as the start of the line lets it be.
pub open spec fn centered_col(col: usize, width: u16) -> int {
    let half = if width > GUTTERS {
        (width - GUTTERS) / 2
    } else {
        0
    };
    if col > half {
        col - half
    } else {
        0
    }
}

/// Keeps the next key for moving the view.
pub fn view_mode(cx: &mut Context)
    ensures
        *final(cx) == old(cx).awaiting(NextKey::View),
{
    cx.on_next_key(NextKey::View);
}

/// Where a key puts the cursor's line, if it does.
pub open spec fn key_align(key: Key) -> Option<Align> {
    match key {
        Key::Char('z') => Some(Align::Center),
        Key::Char('c') => Some(Align::Center),
        Key::Char('t') => Some(Align::Top),
        Key::Char('b') => Some(Align::Bottom),
        _ => None,
    }
}

/// Which way a key scrolls by a line, if it does.
pub open spec fn key_scroll(key: Key) -> Option<Direction> {
    match key {
        Key::Char('j') => Some(Direction::Forward),
        Key::Char('k') => Some(Direction::Backward),
        _ => None,
    }
}

/// Moves the view as the key after `view_mode` says.
pub fn view_key<
    C: Fn(&Rope, usize) -> Position,
    P: Fn(&Rope, Position) -> usize,
    L: Fn(&Window, &Rope) -> usize,
>(cx: &mut Context, key: Key, coords_at_pos: C, pos_at_coords: P, last_line_of: L)
    requires
        old(cx).wf(),
        key == Key::Char('m') ==> call_requires(
            coords_at_pos,
            (&old(cx).editor.doc.text, old(cx).cursor()),
        ),
        key_scroll(key) matches Some(direction) ==> can_scroll(
            *old(cx),
            1,
            direction,
            coords_at_pos,
            pos_at_coords,
            last_line_of,
        ),
    ensures
        key_align(key) matches Some(align) ==> *final(cx) == old(cx).showing(
            aligned(
                old(cx).text(),
                old(cx).cursor() as int,
                old(cx).editor.view.height,
                align,
            ) as usize,
        ),
        key_scroll(key) matches Some(direction) ==> scrolls(
            *old(cx),
            *final(cx),
            1,
            direction,
            coords_at_pos,
            pos_at_coords,
            last_line_of,
        ),
        key == Key::Char('m') ==> exists|cursor: Position| #[trigger]
            call_ensures(coords_at_pos, (&old(cx).editor.doc.text, old(cx).cursor()), cursor)
                && *final(cx) == (Context {
                editor: Editor {
                    view: Window {
                        first_col: centered_col(cursor.col, old(cx).editor.view.width) as usize,
                        ..old(cx).editor.view
                    },
                    ..old(cx).editor
                },
                ..*old(cx)
            }),
        key_align(key) is None && key_scroll(key) is None && key != Key::Char('m') ==> *final(cx)
            == *old(cx),
{
    let ch = match key {
        Key::Char(ch) => ch,
        _ => return,
    };
    if ch == 'z' || ch == 'c' {
        align_view(&cx.editor.doc, &mut cx.editor.view, Align::Center);
    } else if ch == 't' {
        align_view(&cx.editor.doc, &mut cx.editor.view, Align::Top);
    } else if ch == 'b' {
        align_view(&cx.editor.doc, &mut cx.editor.view, Align::Bottom);
    } else if ch == 'm' {
        let pos = coords_at_pos(&cx.editor.doc.text, cx.editor.doc.selection.cursor());
        cx.editor.view.first_col = pos.col.saturating_sub(
            (cx.editor.view.width as usize).saturating_sub(GUTTERS) / 2,
        );
    } else if ch == 'j' {
        scroll(cx, 1, Direction::Forward, coords_at_pos, pos_at_coords, last_line_of);
    } else if ch == 'k' {
        scroll(cx, 1, Direction::Backward, coords_at_pos, pos_at_coords, last_line_of);
    }
}

} // verus!
