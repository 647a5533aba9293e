//! Commands that move the cursor or stretch the selection.

use crate::editor::{Context, Direction, Movement};
use crate::selection::{Range, Selection, SelectionView};
use crate::strings;
use crate::text;
use ropey::Rope;
use vstd::prelude::*;

verus! {

/// Whether `ranges` are what `motion` may make of the selected ranges.
pub open spec fn moved<F: Fn(&Rope, Range, Direction, usize, Movement) -> Range>(
    cx: Context,
    motion: F,
    direction: Direction,
    movement: Movement,
    ranges: Seq<Range>,
) -> bool {
    &&& ranges.len() == cx.selection().ranges.len()
    &&& forall|i: int|
        0 <= i < ranges.len() ==> call_ensures(
            motion,
            (
                &cx.editor.doc.text,
                cx.selection().ranges[i],
                direction,
                cx.times(),
                movement,
            ),
            #[trigger] ranges[i],
        )
}

/// Whether `post` is `pre` with every range moved by `motion`, as often as the
/// count says.
pub open spec fn moves<F: Fn(&Rope, Range, Direction, usize, Movement) -> Range>(
    pre: Context,
    post: Context,
    motion: F,
    direction: Direction,
    movement: Movement,
) -> bool {
    exists|ranges: Seq<Range>| #[trigger]
        moved(pre, motion, direction, movement, ranges) && post.selects(
            pre,
            SelectionView { ranges, ..pre.selection() },
        )
}

/// Whether `motion` can be asked about every range.
pub open spec fn can_move<F: Fn(&Rope, Range, Direction, usize, Movement) -> Range>(
    cx: Context,
    motion: F,
    direction: Direction,
    movement: Movement,
) -> bool {
    forall|range: Range|
        range.within(cx.text().len() as int) ==> #[trigger] call_requires(
            motion,
            (&cx.editor.doc.text, range, direction, cx.times(), movement),
        )
}

fn move_ranges<F: Fn(&Rope, Range, Direction, usize, Movement) -> Range>(
    cx: &mut Context,
    motion: F,
    direction: Direction,
    movement: Movement,
)
    requires
        old(cx).wf(),
        can_move(*old(cx), motion, direction, movement),
    ensures
        moves(*old(cx), *final(cx), motion, direction, movement),
{
    let count = cx.count();
    let text = &cx.editor.doc.text;
    let ghost wanted = cx.selection().ranges;
    let mut ranges: Vec<Range> = Vec::with_capacity(cx.editor.doc.selection.ranges.len());
    let mut i: usize = 0;
    while i < cx.editor.doc.selection.ranges.len()
        invariant
            *text == cx.editor.doc.text,
            wanted == cx.selection().ranges,
            cx.wf(),
            count == cx.times(),
            can_move(*cx, motion, direction, movement),
            i <= wanted.len(),
            ranges@.len() == i,
            forall|j: int|
                0 <= j < i ==> call_ensures(
                    motion,
                    (text, wanted[j], direction, count, movement),
                    #[trigger] ranges@[j],
                ),
        decreases wanted.len() - i,
    {
        let range = cx.editor.doc.selection.ranges[i];
        assert(wanted[i as int].within(cx.text().len() as int));
        ranges.push(motion(text, range, direction, count, movement));
        i += 1;
    }
    let primary_index = cx.editor.doc.selection.primary_index;
    let selection = Selection { ranges, primary_index };
    assert(moved(*old(cx), motion, direction, movement, selection@.ranges));
    cx.set_selection(selection);
}

/// Moves every cursor left.
pub fn move_char_left<F: Fn(&Rope, Range, Direction, usize, Movement) -> Range>(
    cx: &mut Context,
    move_horizontally: F,
)
    requires
        old(cx).wf(),
        can_move(*old(cx), move_horizontally, Direction::Backward, Movement::Move),
    ensures
        moves(*old(cx), *final(cx), move_horizontally, Direction::Backward, Movement::Move),
{
    move_ranges(cx, move_horizontally, Direction::Backward, Movement::Move);
}

/// Moves every cursor right.
pub fn move_char_right<F: Fn(&Rope, Range, Direction, usize, Movement) -> Range>(
    cx: &mut Context,
    move_horizontally: F,
)
    requires
        old(cx).wf(),
        can_move(*old(cx), move_horizontally, Direction::Forward, Movement::Move),
    ensures
        moves(*old(cx), *final(cx), move_horizontally, Direction::Forward, Movement::Move),
{
    move_ranges(cx, move_horizontally, Direction::Forward, Movement::Move);
}

/// Moves every cursor up.
pub fn move_line_up<F: Fn(&Rope, Range, Direction, usize, Movement) -> Range>(
    cx: &mut Context,
    move_vertically: F,
)
    requires
        old(cx).wf(),
        can_move(*old(cx), move_vertically, Direction::Backward, Movement::Move),
    ensures
        moves(*old(cx), *final(cx), move_vertically, Direction::Backward, Movement::Move),
{
    move_ranges(cx, move_vertically, Direction::Backward, Movement::Move);
}

/// Moves every cursor down.
pub fn move_line_down<F: Fn(&Rope, Range, Direction, usize, Movement) -> Range>(
    cx: &mut Context,
    move_vertically: F,
)
    requires
        old(cx).wf(),
        can_move(*old(cx), move_vertically, Direction::Forward, Movement::Move),
    ensures
        moves(*old(cx), *final(cx), move_vertically, Direction::Forward, Movement::Move),
{
    move_ranges(cx, move_vertically, Direction::Forward, Movement::Move);
}

/// Stretches every range to the left.
pub fn extend_char_left<F: Fn(&Rope, Range, Direction, usize, Movement) -> Range>(
    cx: &mut Context,
    move_horizontally: F,
)
    requires
        old(cx).wf(),
        can_move(*old(cx), move_horizontally, Direction::Backward, Movement::Extend),
    ensures
        moves(*old(cx), *final(cx), move_horizontally, Direction::Backward, Movement::Extend),
{
    move_ranges(cx, move_horizontally, Direction::Backward, Movement::Extend);
}

/// Stretches every range to the right.
pub fn extend_char_right<F: Fn(&Rope, Range, Direction, usize, Movement) -> Range>(
    cx: &mut Context,
    move_horizontally: F,
)
    requires
        old(cx).wf(),
        can_move(*old(cx), move_horizontally, Direction::Forward, Movement::Extend),
    ensures
        moves(*old(cx), *final(cx), move_horizontally, Direction::Forward, Movement::Extend),
{
    move_ranges(cx, move_horizontally, Direction::Forward, Movement::Extend);
}

/// Stretches every range upwards.
pub fn extend_line_up<F: Fn(&Rope, Range, Direction, usize, Movement) -> Range>(
    cx: &mut Context,
    move_vertically: F,
)
    requires
        old(cx).wf(),
        can_move(*old(cx), move_vertically, Direction::Backward, Movement::Extend),
    ensures
        moves(*old(cx), *final(cx), move_vertically, Direction::Backward, Movement::Extend),
{
    move_ranges(cx, move_vertically, Direction::Backward, Movement::Extend);
}

/// Stretches every range downwards.
pub fn extend_line_down<F: Fn(&Rope, Range, Direction, usize, Movement) -> Range>(
    cx: &mut Context,
    move_vertically: F,
)
    requires
        old(cx).wf(),
        can_move(*old(cx), move_vertically, Direction::Forward, Movement::Extend),
    ensures
        moves(*old(cx), *final(cx), move_vertically, Direction::Forward, Movement::Extend),
{
    move_ranges(cx, move_vertically, Direction::Forward, Movement::Extend);
}

/// Whether `words` are what `motion` may make of the selected ranges.
pub open spec fn moved_by_word<F: Fn(&Rope, Range, usize) -> Range>(
    cx: Context,
    motion: F,
    words: Seq<Range>,
) -> bool {
    &&& words.len() == cx.selection().ranges.len()
    &&& forall|i: int|
        0 <= i < words.len() ==> call_ensures(
            motion,
            (&cx.editor.doc.text, cx.selection().ranges[i], cx.times()),
            #[trigger] words[i],
        )
}

/// Whether `post` is `pre` with every range replaced by what `motion` makes of
/// it, or, where it extends, stretched to the head of that.
pub open spec fn moves_by_word<F: Fn(&Rope, Range, usize) -> Range>(
    pre: Context,
    post: Context,
    motion: F,
    movement: Movement,
) -> bool {
    exists|words: Seq<Range>| #[trigger]
        moved_by_word(pre, motion, words) && post.selects(
            pre,
            SelectionView {
                ranges: match movement {
                    Movement::Move => words,
                    Movement::Extend => stretched(pre.selection().ranges, words),
                },
                ..pre.selection()
            },
        )
}

/// Each range with its own anchor and the head of its word.
pub open spec fn stretched(ranges: Seq<Range>, words: Seq<Range>) -> Seq<Range> {
    Seq::new(ranges.len(), |i: int| Range::between(ranges[i].anchor, words[i].head))
}

/// Whether `motion` can be asked about every range.
pub open spec fn can_move_by_word<F: Fn(&Rope, Range, usize) -> Range>(
    cx: Context,
    motion: F,
) -> bool {
    forall|range: Range|
        range.within(cx.text().len() as int) ==> #[trigger] call_requires(
            motion,
            (&cx.editor.doc.text, range, cx.times()),
        )
}

/// What `motion` makes of every range.
pub(crate) fn words<F: Fn(&Rope, Range, usize) -> Range>(cx: &Context, motion: F) -> (selection: Selection)
    requires
        cx.wf(),
        can_move_by_word(*cx, motion),
    ensures
        selection@.primary_index == cx.selection().primary_index,
        moved_by_word(*cx, motion, selection@.ranges),
{
    let count = cx.count();
    let text = &cx.editor.doc.text;
    let ghost wanted = cx.selection().ranges;
    let mut ranges: Vec<Range> = Vec::with_capacity(cx.editor.doc.selection.ranges.len());
    let mut i: usize = 0;
    while i < cx.editor.doc.selection.ranges.len()
        invariant
            *text == cx.editor.doc.text,
            wanted == cx.selection().ranges,
            cx.wf(),
            count == cx.times(),
            can_move_by_word(*cx, motion),
            i <= wanted.len(),
            ranges@.len() == i,
            forall|j: int|
                0 <= j < i ==> call_ensures(
                    motion,
                    (text, wanted[j], count),
                    #[trigger] ranges@[j],
                ),
        decreases wanted.len() - i,
    {
        let range = cx.editor.doc.selection.ranges[i];
        assert(wanted[i as int].within(cx.text().len() as int));
        ranges.push(motion(text, range, count));
        i += 1;
    }
    Selection { ranges, primary_index: cx.editor.doc.selection.primary_index }
}

fn move_by_word<F: Fn(&Rope, Range, usize) -> Range>(
    cx: &mut Context,
    motion: F,
    movement: Movement,
)
    requires
        old(cx).wf(),
        can_move_by_word(*old(cx), motion),
    ensures
        moves_by_word(*old(cx), *final(cx), motion, movement),
{
    let mut selection = words(cx, motion);
    let ghost found = selection@.ranges;
    if let Movement::Extend = movement {
        let mut i: usize = 0;
        while i < selection.ranges.len()
            invariant
                found.len() == cx.selection().ranges.len(),
                selection@.ranges.len() == found.len(),
                selection@.primary_index == cx.selection().primary_index,
                i <= found.len(),
                forall|j: int|
                    0 <= j < i ==> #[trigger] selection@.ranges[j] == Range::between(
                        cx.selection().ranges[j].anchor,
                        found[j].head,
                    ),
                forall|j: int| i <= j < found.len() ==> #[trigger] selection@.ranges[j] == found[j],
            decreases found.len() - i,
        {
            let pos = selection.ranges[i].head;
            selection.ranges.set(i, Range::new(cx.editor.doc.selection.ranges[i].anchor, pos));
            i += 1;
        }
        assert(selection@.ranges =~= stretched(cx.selection().ranges, found));
    }
    cx.set_selection(selection);
}

/// Moves every cursor to the start of the next word.
pub fn move_next_word_start<F: Fn(&Rope, Range, usize) -> Range>(cx: &mut Context, motion: F)
    requires
        old(cx).wf(),
        can_move_by_word(*old(cx), motion),
    ensures
        moves_by_word(*old(cx), *final(cx), motion, Movement::Move),
{
    move_by_word(cx, motion, Movement::Move);
}

/// Moves every cursor to the start of the word before.
pub fn move_prev_word_start<F: Fn(&Rope, Range, usize) -> Range>(cx: &mut Context, motion: F)
    requires
        old(cx).wf(),
        can_move_by_word(*old(cx), motion),
    ensures
        moves_by_word(*old(cx), *final(cx), motion, Movement::Move),
{
    move_by_word(cx, motion, Movement::Move);
}

/// Moves every cursor to the end of the next word.
pub fn move_next_word_end<F: Fn(&Rope, Range, usize) -> Range>(cx: &mut Context, motion: F)
    requires
        old(cx).wf(),
        can_move_by_word(*old(cx), motion),
    ensures
        moves_by_word(*old(cx), *final(cx), motion, Movement::Move),
{
    move_by_word(cx, motion, Movement::Move);
}

/// Stretches every range to the start of the next word.
pub fn extend_next_word_start<F: Fn(&Rope, Range, usize) -> Range>(cx: &mut Context, motion: F)
    requires
        old(cx).wf(),
        can_move_by_word(*old(cx), motion),
    ensures
        moves_by_word(*old(cx), *final(cx), motion, Movement::Extend),
{
    move_by_word(cx, motion, Movement::Extend);
}

/// Stretches every range to the start of the word before.
pub fn extend_prev_word_start<F: Fn(&Rope, Range, usize) -> Range>(cx: &mut Context, motion: F)
    requires
        old(cx).wf(),
        can_move_by_word(*old(cx), motion),
    ensures
        moves_by_word(*old(cx), *final(cx), motion, Movement::Extend),
{
    move_by_word(cx, motion, Movement::Extend);
}

/// Stretches every range to the end of the next word.
pub fn extend_next_word_end<F: Fn(&Rope, Range, usize) -> Range>(cx: &mut Context, motion: F)
    requires
        old(cx).wf(),
        can_move_by_word(*old(cx), motion),
    ensures
        moves_by_word(*old(cx), *final(cx), motion, Movement::Extend),
{
    move_by_word(cx, motion, Movement::Extend);
}

/// The character before the end of the line of `pos`. On an empty line it is the
/// last of the line before.
pub open spec fn line_end(s: Seq<char>, pos: int) -> int {
    let end = text::line_end(s, text::line_of(s, pos));
    if end > 0 {
        end - 1
    } else {
        0
    }
}

/// The start of the line of `pos`.
pub open spec fn own_line_start(s: Seq<char>, pos: int) -> int {
    text::line_start(s, text::line_of(s, pos))
}

/// The place of the first character in `line`, from `n` on, that is not white
/// space.
pub open spec fn first_nonwhitespace(line: Seq<char>, n: int) -> Option<int>
    decreases line.len() - n,
{
    if n < 0 || n >= line.len() {
        None
    } else if strings::is_whitespace(line[n]) {
        first_nonwhitespace(line, n + 1)
    } else {
        Some(n)
    }
}

/// The position of the first character on the line of `pos` that is not white
/// space.
pub open spec fn line_first_nonwhitespace(s: Seq<char>, pos: int) -> Option<int> {
    let line = text::line_of(s, pos);
    match first_nonwhitespace(text::line_text(s, line), 0) {
        Some(n) => Some(text::line_start(s, line) + n),
        None => None,
    }
}

/// `range` with its head at `pos`: its anchor too, unless it extends.
pub open spec fn placed(range: Range, pos: int, movement: Movement) -> Range {
    match movement {
        Movement::Move => Range::between(pos as usize, pos as usize),
        Movement::Extend => Range::between(range.anchor, pos as usize),
    }
}

fn place(range: Range, pos: usize, movement: Movement) -> (r: Range)
    ensures
        r == placed(range, pos as int, movement),
{
    match movement {
        Movement::Move => Range::new(pos, pos),
        Movement::Extend => Range::new(range.anchor, pos),
    }
}

/// Every range with its head at the end of its line.
pub open spec fn at_line_ends(cx: Context, movement: Movement) -> SelectionView {
    cx.selection().mapped(
        |range: Range| placed(range, line_end(cx.text(), range.head as int), movement),
    )
}

/// Every range with its head at the start of its line.
pub open spec fn at_line_starts(cx: Context, movement: Movement) -> SelectionView {
    cx.selection().mapped(
        |range: Range| placed(range, own_line_start(cx.text(), range.head as int), movement),
    )
}

/// Every range with its head at the first character of its line that is not
/// white space. A range on a line without one stays as it is.
pub open spec fn at_first_nonwhitespace(cx: Context, movement: Movement) -> SelectionView {
    cx.selection().mapped(
        |range: Range|
            match line_first_nonwhitespace(cx.text(), range.head as int) {
                Some(pos) => placed(range, pos, movement),
                None => range,
            },
    )
}

fn to_line_end(cx: &mut Context, movement: Movement)
    requires
        old(cx).wf(),
    ensures
        final(cx).selects(*old(cx), at_line_ends(*old(cx), movement)),
        at_line_ends(*old(cx), movement).within(old(cx).text().len() as int),
{
    let text = &cx.editor.doc.text;
    let ghost s = cx.text();
    let ghost want = at_line_ends(*cx, movement);
    proof {
        text::lemma_fits(s);
    }
    let step = |range: Range| -> (r: Range)
        requires
            text::fits(text::chars(text)),
            text::line_count(text::chars(text)) <= usize::MAX,
            range.within(text::chars(text).len() as int),
        ensures
            r == placed(
                range,
                line_end(text::chars(text), range.head as int),
                movement,
            ),
            r.within(text::chars(text).len() as int),
    {
        proof {
            text::lemma_line_of_position(text::chars(text), range.head as int);
        }
        let line = text.char_to_line(range.head);
        let pos = text::end_of_line(text, line).saturating_sub(1);
        place(range, pos, movement)
    };
    let selection = cx.editor.doc.selection.transform(step);
    assert(selection@ =~= want);
    cx.set_selection(selection);
}

fn to_line_start(cx: &mut Context, movement: Movement)
    requires
        old(cx).wf(),
    ensures
        final(cx).selects(*old(cx), at_line_starts(*old(cx), movement)),
        at_line_starts(*old(cx), movement).within(old(cx).text().len() as int),
{
    let text = &cx.editor.doc.text;
    let ghost s = cx.text();
    let ghost want = at_line_starts(*cx, movement);
    let step = |range: Range| -> (r: Range)
        requires
            text::fits(text::chars(text)),
            range.within(text::chars(text).len() as int),
        ensures
            r == placed(
                range,
                own_line_start(text::chars(text), range.head as int),
                movement,
            ),
            r.within(text::chars(text).len() as int),
    {
        proof {
            text::lemma_line_of_position(text::chars(text), range.head as int);
        }
        let line = text.char_to_line(range.head);
        // adjust to start of the line
        let pos = text.line_to_char(line);
        place(range, pos, movement)
    };
    let selection = cx.editor.doc.selection.transform(step);
    assert(selection@ =~= want);
    cx.set_selection(selection);
}

/// The position of the first character on a line that is not white space.
fn find_first_nonwhitespace(text: &Rope, line_idx: usize) -> (pos: Option<usize>)
    requires
        text::fits(text::rope_text(*text)),
        line_idx < text::line_count(text::rope_text(*text)),
    ensures
        pos is Some <==> first_nonwhitespace(
            text::line_text(text::rope_text(*text), line_idx as int),
            0,
        ) is Some,
        pos matches Some(pos) ==> first_nonwhitespace(
            text::line_text(text::rope_text(*text), line_idx as int),
            0,
        ) == Some(pos - text::line_start(text::rope_text(*text), line_idx as int)) && pos
            <= text::rope_text(*text).len(),
{
    let ghost s = text::rope_text(*text);
    let ghost line = text::line_text(s, line_idx as int);
    proof {
        text::lemma_fits(s);
        text::lemma_line_start(s, line_idx as int);
        text::lemma_line_start(s, line_idx + 1);
        text::lemma_line_starts_ordered(s, line_idx as int, line_idx + 1);
    }
    let start = text.line_to_char(line_idx);
    let end = text.line_to_char(line_idx + 1);
    let mut pos = start;
    while pos < end
        invariant
            s == text::rope_text(*text),
            text::fits(s),
            line == text::line_text(s, line_idx as int),
            start == text::line_start(s, line_idx as int),
            end == text::line_start(s, line_idx + 1),
            start <= pos <= end <= s.len(),
            first_nonwhitespace(line, 0) == first_nonwhitespace(line, pos - start),
        decreases end - pos,
    {
        let ch = text.char(pos);
        assert(ch == line[pos - start]);
        if !ch.is_whitespace() {
            return Some(pos);
        }
        pos += 1;
    }
    None
}

fn to_first_nonwhitespace(cx: &mut Context, movement: Movement)
    requires
        old(cx).wf(),
    ensures
        final(cx).selects(*old(cx), at_first_nonwhitespace(*old(cx), movement)),
        at_first_nonwhitespace(*old(cx), movement).within(old(cx).text().len() as int),
{
    let text = &cx.editor.doc.text;
    let ghost s = cx.text();
    let ghost want = at_first_nonwhitespace(*cx, movement);
    let step = |range: Range| -> (r: Range)
        requires
            text::fits(text::chars(text)),
            range.within(text::chars(text).len() as int),
        ensures
            r == (match line_first_nonwhitespace(text::chars(text), range.head as int) {
                Some(pos) => placed(range, pos, movement),
                None => range,
            }),
            r.within(text::chars(text).len() as int),
    {
        proof {
            text::lemma_line_of_position(text::chars(text), range.head as int);
        }
        let line_idx = text.char_to_line(range.head);
        if let Some(pos) = find_first_nonwhitespace(text, line_idx) {
            place(range, pos, movement)
        } else {
            range
        }
    };
    let selection = cx.editor.doc.selection.transform(step);
    assert(selection@ =~= want);
    cx.set_selection(selection);
}

/// Moves every cursor to the end of its line.
pub fn move_line_end(cx: &mut Context)
    requires
        old(cx).wf(),
    ensures
        final(cx).selects(*old(cx), at_line_ends(*old(cx), Movement::Move)),
        at_line_ends(*old(cx), Movement::Move).within(old(cx).text().len() as int),
{
    to_line_end(cx, Movement::Move);
}

/// Moves every cursor to the start of its line.
pub fn move_line_start(cx: &mut Context)
    requires
        old(cx).wf(),
    ensures
        final(cx).selects(*old(cx), at_line_starts(*old(cx), Movement::Move)),
        at_line_starts(*old(cx), Movement::Move).within(old(cx).text().len() as int),
{
    to_line_start(cx, Movement::Move);
}

/// Moves every cursor to the first character of its line that is not white
/// space.
pub fn move_first_nonwhitespace(cx: &mut Context)
    requires
        old(cx).wf(),
    ensures
        final(cx).selects(*old(cx), at_first_nonwhitespace(*old(cx), Movement::Move)),
        at_first_nonwhitespace(*old(cx), Movement::Move).within(old(cx).text().len() as int),
{
    to_first_nonwhitespace(cx, Movement::Move);
}

/// Stretches every range to the end of its line.
pub fn extend_line_end(cx: &mut Context)
    requires
        old(cx).wf(),
    ensures
        final(cx).selects(*old(cx), at_line_ends(*old(cx), Movement::Extend)),
        at_line_ends(*old(cx), Movement::Extend).within(old(cx).text().len() as int),
{
    to_line_end(cx, Movement::Extend);
}

/// Stretches every range to the start of its line.
pub fn extend_line_start(cx: &mut Context)
    requires
        old(cx).wf(),
    ensures
        final(cx).selects(*old(cx), at_line_starts(*old(cx), Movement::Extend)),
        at_line_starts(*old(cx), Movement::Extend).within(old(cx).text().len() as int),
{
    to_line_start(cx, Movement::Extend);
}

/// Stretches every range to the first character of its line that is not white
/// space.
pub fn extend_first_nonwhitespace(cx: &mut Context)
    requires
        old(cx).wf(),
    ensures
        final(cx).selects(*old(cx), at_first_nonwhitespace(*old(cx), Movement::Extend)),
        at_first_nonwhitespace(*old(cx), Movement::Extend).within(old(cx).text().len() as int),
{
    to_first_nonwhitespace(cx, Movement::Extend);
}

} // verus!
