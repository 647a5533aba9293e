//! Commands that change what is selected, and the modes around them.

use crate::change::{self, Change, ChangeView, Transaction, TransactionView};
use crate::editor::{
    CharSearch, Context, Document, Editor, Effect, EffectView, Key, Layer, Mode, NextKey,
    RegexPrompt,
};
use crate::selection::{Range, Selection, SelectionView};
use crate::text;
use ropey::Rope;
use vstd::prelude::*;

verus! {

/// What the next key is for: a character to look for, as often as the count says.
pub open spec fn char_search(
    cx: Context,
    search: CharSearch,
    inclusive: bool,
    extend: bool,
) -> NextKey {
    NextKey::FindChar { search, inclusive, extend, count: cx.times() }
}

/// Keeps the next key for the character to look for.
pub fn find_char_impl(cx: &mut Context, search: CharSearch, inclusive: bool, extend: bool)
    ensures
        *final(cx) == old(cx).awaiting(char_search(*old(cx), search, inclusive, extend)),
{
    // the count is gone when the next key comes, so it is kept with it
    let count = cx.count();
    // need to wait for next key
    cx.on_next_key(NextKey::FindChar { search, inclusive, extend, count });
}

/// The character that a key stands for in a search.
pub open spec fn key_char(key: Key) -> Option<char> {
    match key {
    Key::Enter => Some('\n'),
    Key::Char(ch) => Some(ch),
    Key::Other => None,
    }
}

/// Whether `found` is what `search_fn` may say of the ranges.
pub open spec fn searched<F: Fn(&Rope, char, usize, usize, bool) -> Option<usize>>(
    cx: Context,
    search_fn: F,
    ch: char,
    count: usize,
    inclusive: bool,
    found: Seq<Option<usize>>,
) -> bool {
    &&& found.len() == cx.selection().ranges.len()
    &&& forall|i: int|
    0 <= i < found.len() ==> call_ensures(
        search_fn,
        (&cx.editor.doc.text, ch, cx.selection().ranges[i].head, count, inclusive),
        #[trigger] found[i],
    )
}

/// A range that reaches to where the character was found, from its anchor where
/// it extends and from its head otherwise. Where nothing was found it stays.
pub open spec fn reached(range: Range, found: Option<usize>, extend: bool) -> Range {
    match found {
    Some(pos) => Range::between(
        if extend {
            range.anchor
        } else {
            range.head
        },
        pos,
    ),
    None => range,
    }
}

/// Every range as far as its character was found.
pub open spec fn all_reached(
    ranges: Seq<Range>,
    found: Seq<Option<usize>>,
    extend: bool,
) -> Seq<Range> {
    Seq::new(ranges.len(), |i: int| reached(ranges[i], found[i], extend))
}

/// Whether `post` is `pre` with every range as far as `search_fn` finds `ch`.
pub open spec fn finds<F: Fn(&Rope, char, usize, usize, bool) -> Option<usize>>(
    pre: Context,
    post: Context,
    search_fn: F,
    ch: char,
    count: usize,
    inclusive: bool,
    extend: bool,
) -> bool {
    exists|found: Seq<Option<usize>>| #[trigger]
    searched(pre, search_fn, ch, count, inclusive, found) && post.selects(
        pre,
        SelectionView {
            ranges: all_reached(pre.selection().ranges, found, extend),
            ..pre.selection()
        },
    )
}

/// Looks for the character of a key from every head on, with `search_fn`.
pub fn find_char<F: Fn(&Rope, char, usize, usize, bool) -> Option<usize>>(
    cx: &mut Context,
    key: Key,
    search_fn: F,
    inclusive: bool,
    extend: bool,
    count: usize,
)
    requires
    old(cx).wf(),
    forall|ch: char, pos: usize|
        pos <= old(cx).text().len() ==> #[trigger] call_requires(
            search_fn,
            (&old(cx).editor.doc.text, ch, pos, count, inclusive),
        ),
    ensures
    key_char(key) is None ==> *final(cx) == *old(cx),
    key_char(key) matches Some(ch) ==> finds(
        *old(cx),
        *final(cx),
        search_fn,
        ch,
        count,
        inclusive,
        extend,
    ),
{
    let ch = match key {
    Key::Enter => '\n',
    Key::Char(ch) => ch,
    Key::Other => return,
    };
    let ghost wanted = cx.selection().ranges;
    let ghost mut found: Seq<Option<usize>> = Seq::empty();
    let mut ranges: Vec<Range> = Vec::with_capacity(cx.editor.doc.selection.ranges.len());
    let mut i: usize = 0;
    while i < cx.editor.doc.selection.ranges.len()
    invariant
        wanted == cx.selection().ranges,
        cx.wf(),
        forall|ch: char, pos: usize|
            pos <= cx.text().len() ==> #[trigger] call_requires(
                search_fn,
                (&cx.editor.doc.text, ch, pos, count, inclusive),
            ),
        i <= wanted.len(),
        ranges@.len() == i,
        found.len() == i,
        forall|j: int|
            0 <= j < i ==> call_ensures(
                search_fn,
                (&cx.editor.doc.text, ch, wanted[j].head, count, inclusive),
                #[trigger] found[j],
            ),
        forall|j: int|
            0 <= j < i ==> #[trigger] ranges@[j] == reached(wanted[j], found[j], extend),
    decreases wanted.len() - i,
    {
    let range = cx.editor.doc.selection.ranges[i];
    assert(wanted[i as int].within(cx.text().len() as int));
    let hit = search_fn(&cx.editor.doc.text, ch, range.head, count, inclusive);
    proof {
        found = found.push(hit);
    }
    let range = match hit {
        Some(pos) => if extend {
            Range::new(range.anchor, pos)
        } else {
            // select
            Range::new(range.head, pos)
        },
        None => range,
    };
    ranges.push(range);
    i += 1;
    }
    let primary_index = cx.editor.doc.selection.primary_index;
    assert(searched(*old(cx), search_fn, ch, count, inclusive, found));
    assert(ranges@ =~= all_reached(wanted, found, extend));
    let selection = Selection { ranges, primary_index };
    assert(selection@ == SelectionView {
    ranges: all_reached(wanted, found, extend),
    ..old(cx).selection()
    });
    cx.set_selection(selection);
}

/// Selects up to before the next occurrence of a character.
pub fn find_till_char(cx: &mut Context)
    ensures
        *final(cx) == old(cx).awaiting(
            char_search(*old(cx), CharSearch::NthNext, false, false),
        ),
{
    find_char_impl(cx, CharSearch::NthNext, false, false);
}

/// Selects up to the next occurrence of a character.
pub fn find_next_char(cx: &mut Context)
    ensures
        *final(cx) == old(cx).awaiting(
            char_search(*old(cx), CharSearch::NthNext, true, false),
        ),
{
    find_char_impl(cx, CharSearch::NthNext, true, false);
}

/// Stretches every range to before the next occurrence of a character.
pub fn extend_till_char(cx: &mut Context)
    ensures
        *final(cx) == old(cx).awaiting(
            char_search(*old(cx), CharSearch::NthNext, false, true),
        ),
{
    find_char_impl(cx, CharSearch::NthNext, false, true);
}

/// Stretches every range to the next occurrence of a character.
pub fn extend_next_char(cx: &mut Context)
    ensures
        *final(cx) == old(cx).awaiting(
            char_search(*old(cx), CharSearch::NthNext, true, true),
        ),
{
    find_char_impl(cx, CharSearch::NthNext, true, true);
}

/// Selects back to after the last occurrence of a character.
pub fn till_prev_char(cx: &mut Context)
    ensures
        *final(cx) == old(cx).awaiting(
            char_search(*old(cx), CharSearch::NthPrev, false, false),
        ),
{
    find_char_impl(cx, CharSearch::NthPrev, false, false);
}

/// Selects back to the last occurrence of a character.
pub fn find_prev_char(cx: &mut Context)
    ensures
        *final(cx) == old(cx).awaiting(
            char_search(*old(cx), CharSearch::NthPrev, true, false),
        ),
{
    find_char_impl(cx, CharSearch::NthPrev, true, false);
}

/// Stretches every range back to after the last occurrence of a character.
pub fn extend_till_prev_char(cx: &mut Context)
    ensures
        *final(cx) == old(cx).awaiting(
            char_search(*old(cx), CharSearch::NthPrev, false, true),
        ),
{
    find_char_impl(cx, CharSearch::NthPrev, false, true);
}

/// Stretches every range back to the last occurrence of a character.
pub fn extend_prev_char(cx: &mut Context)
    ensures
        *final(cx) == old(cx).awaiting(
            char_search(*old(cx), CharSearch::NthPrev, true, true),
        ),
{
    find_char_impl(cx, CharSearch::NthPrev, true, true);
}

/// The whole text, but for the position after its last character.
pub open spec fn whole_text(s: Seq<char>) -> SelectionView {
    SelectionView::single(
        0,
        (if s.len() > 0 {
            s.len() - 1
        } else {
            0
        }) as usize,
    )
}

/// Selects the whole text.
pub fn select_all(cx: &mut Context)
    requires
        old(cx).wf(),
    ensures
        final(cx).selects(*old(cx), whole_text(old(cx).text())),
{
    let end = cx.editor.doc.text.len_chars().saturating_sub(1);
    cx.set_selection(Selection::single(0, end));
}

/// The last position before line `line`, or the first of the text.
pub open spec fn before_line(s: Seq<char>, line: int) -> int {
    let start = text::line_start(s, line);
    if start > 0 {
        start - 1
    } else {
        0
    }
}

/// As many whole lines as the count says, from the cursor's line on.
pub open spec fn selected_lines(cx: Context) -> SelectionView {
    let s = cx.text();
    let line = text::line_of(s, cx.cursor() as int);
    let end = if line + cx.times() < text::line_count(s) {
        line + cx.times()
    } else {
        text::line_count(s)
    };
    SelectionView::single(text::line_start(s, line) as usize, before_line(s, end) as usize)
}

/// Selects as many lines as the count says, from the cursor's line on.
pub fn select_line(cx: &mut Context)
    requires
        old(cx).wf(),
        text::line_of(old(cx).text(), old(cx).cursor() as int) + old(cx).times() <= usize::MAX,
    ensures
        final(cx).selects(*old(cx), selected_lines(*old(cx))),
{
    let count = cx.count();
    let ghost s = cx.text();
    let pos = cx.editor.doc.selection.primary();
    proof {
        assert(cx.selection().primary().within(s.len() as int));
        text::lemma_fits(s);
        text::lemma_line_of_position(s, pos.head as int);
    }
    let text = &cx.editor.doc.text;
    let line = text.char_to_line(pos.head);
    let start = text.line_to_char(line);
    let len_lines = text.len_lines();
    let last = if line + count < len_lines {
        line + count
    } else {
        len_lines
    };
    proof {
        text::lemma_line_start(s, last as int);
    }
    let end = text.line_to_char(last).saturating_sub(1);
    cx.set_selection(Selection::single(start, end));
}

/// The line that the selection is to reach to: the cursor's, or the next where
/// the cursor is at the end of its own.
pub open spec fn extended_line(s: Seq<char>, range: Range) -> int {
    let line = text::line_of(s, range.head as int);
    if text::line_of(s, range.anchor as int) <= range.anchor && range.head == before_line(
        s,
        line + 1,
    ) {
        line + 1
    } else {
        line
    }
}

/// The lines from the anchor's to the one that is to be reached.
pub open spec fn line_extended(s: Seq<char>, range: Range) -> Range {
    Range::between(
        text::line_start(s, text::line_of(s, range.anchor as int)) as usize,
        before_line(s, extended_line(s, range) + 1) as usize,
    )
}

/// What a range becomes when it is extended by lines `k` times.
pub open spec fn line_extended_often(s: Seq<char>, range: Range, k: nat) -> Range
    decreases k,
{
    if k == 0 {
        range
    } else {
        line_extended(s, line_extended_often(s, range, (k - 1) as nat))
    }
}

/// Selects the lines from the anchor's to the cursor's, one more each time it
/// is done. On the last line of a text that does not end it, with the cursor at
/// its end, there is no further line to go to.
pub fn extend_line(cx: &mut Context)
    requires
        old(cx).wf(),
        extended_line(old(cx).text(), old(cx).selection().primary()) < text::line_count(
            old(cx).text(),
        ),
    ensures
        final(cx).selects(
            *old(cx),
            SelectionView::single(
                line_extended(old(cx).text(), old(cx).selection().primary()).anchor,
                line_extended(old(cx).text(), old(cx).selection().primary()).head,
            ),
        ),
{
    let ghost s = cx.text();
    let pos = cx.editor.doc.selection.primary();
    proof {
        assert(cx.selection().primary().within(s.len() as int));
        text::lemma_fits(s);
        text::lemma_line_of_position(s, pos.head as int);
        text::lemma_line_of_position(s, pos.anchor as int);
        text::lemma_line_start(s, text::line_of(s, pos.head as int) + 1);
    }
    let text = &cx.editor.doc.text;
    let line_start = text.char_to_line(pos.anchor);
    let mut line = text.char_to_line(pos.head);
    let line_end = text.line_to_char(line + 1).saturating_sub(1);
    if line_start <= pos.anchor && pos.head == line_end && line != text.len_lines() {
        line += 1;
    }
    proof {
        text::lemma_line_start(s, line + 1);
        text::lemma_line_start(s, line_start as int);
    }
    let start = text.line_to_char(line_start);
    let end = text.line_to_char(line + 1).saturating_sub(1);
    cx.set_selection(Selection::single(start, end));
}

/// A range with nothing left of it but its cursor.
pub open spec fn collapsed(range: Range) -> Range {
    Range::between(range.head, range.head)
}

/// A range with its ends exchanged.
pub open spec fn flipped(range: Range) -> Range {
    Range::between(range.head, range.anchor)
}

/// Leaves every range with nothing but its cursor.
pub fn collapse_selection(cx: &mut Context)
    requires
        old(cx).wf(),
    ensures
        final(cx).selects(*old(cx), old(cx).selection().mapped(|range: Range| collapsed(range))),
{
    let step = |range: Range| -> (r: Range)
        ensures
            r == collapsed(range),
    {
        Range::new(range.head, range.head)
    };
    let selection = cx.editor.doc.selection.transform(step);
    assert(selection@ =~= cx.selection().mapped(|range: Range| collapsed(range)));
    cx.set_selection(selection);
}

/// Puts the cursor of every range at its other end.
pub fn flip_selections(cx: &mut Context)
    requires
        old(cx).wf(),
    ensures
        final(cx).selects(*old(cx), old(cx).selection().mapped(|range: Range| flipped(range))),
{
    let step = |range: Range| -> (r: Range)
        ensures
            r == flipped(range),
    {
        Range::new(range.head, range.anchor)
    };
    let selection = cx.editor.doc.selection.transform(step);
    assert(selection@ =~= cx.selection().mapped(|range: Range| flipped(range)));
    cx.set_selection(selection);
}

/// Leaves only the primary range.
pub fn keep_primary_selection(cx: &mut Context)
    requires
        old(cx).wf(),
    ensures
        final(cx).selects(
            *old(cx),
            SelectionView::single(
                old(cx).selection().primary().anchor,
                old(cx).selection().primary().head,
            ),
        ),
{
    let range = cx.editor.doc.selection.primary();
    cx.set_selection(Selection::single(range.anchor, range.head));
}

pub fn enter_insert_mode(doc: &mut Document)
    ensures
        *final(doc) == (Document { mode: Mode::Insert, ..*old(doc) }),
{
    doc.mode = Mode::Insert;
}

/// A range with its cursor at the start.
pub open spec fn at_start(range: Range) -> Range {
    Range::between(range.high(), range.low())
}

/// Inserts at the start of each range.
pub fn insert_mode(cx: &mut Context)
    requires
        old(cx).wf(),
    ensures
        final(cx).selects(
            old(cx).in_mode(Mode::Insert),
            old(cx).selection().mapped(|range: Range| at_start(range)),
        ),
{
    enter_insert_mode(&mut cx.editor.doc);
    let step = |range: Range| -> (r: Range)
        ensures
            r == at_start(range),
    {
        Range::new(range.to(), range.from())
    };
    let selection = cx.editor.doc.selection.transform(step);
    assert(selection@ =~= old(cx).selection().mapped(|range: Range| at_start(range)));
    cx.set_selection(selection);
}

/// Whether `bounds` are what `boundary` may say of the larger ends of the
/// ranges.
pub open spec fn bounded<F: Fn(&Rope, usize) -> usize>(
    cx: Context,
    boundary: F,
    bounds: Seq<usize>,
) -> bool {
    &&& bounds.len() == cx.selection().ranges.len()
    &&& forall|i: int|
        0 <= i < bounds.len() ==> call_ensures(
            boundary,
            (&cx.editor.doc.text, cx.selection().ranges[i].high()),
            #[trigger] bounds[i],
        )
}

/// Every range from its smaller end to its bound.
pub open spec fn up_to(selection: SelectionView, bounds: Seq<usize>) -> SelectionView {
    SelectionView {
        ranges: Seq::new(
            selection.ranges.len(),
            |i: int| Range::between(selection.ranges[i].low(), bounds[i]),
        ),
        ..selection
    }
}

/// Whether `boundary` can be asked about every position.
pub open spec fn can_bound<F: Fn(&Rope, usize) -> usize>(cx: Context, boundary: F) -> bool {
    forall|pos: usize|
        pos <= cx.text().len() ==> #[trigger] call_requires(boundary, (&cx.editor.doc.text, pos))
}

fn ranges_up_to<F: Fn(&Rope, usize) -> usize>(cx: &Context, boundary: F) -> (r: (
    Selection,
    Ghost<Seq<usize>>,
))
    requires
        cx.wf(),
        can_bound(*cx, boundary),
    ensures
        bounded(*cx, boundary, r.1@),
        r.0@ == up_to(cx.selection(), r.1@),
{
    let ghost wanted = cx.selection().ranges;
    let ghost mut bounds: Seq<usize> = Seq::empty();
    let mut ranges: Vec<Range> = Vec::with_capacity(cx.editor.doc.selection.ranges.len());
    let mut i: usize = 0;
    while i < cx.editor.doc.selection.ranges.len()
        invariant
            wanted == cx.selection().ranges,
            cx.wf(),
            can_bound(*cx, boundary),
            i <= wanted.len(),
            ranges@.len() == i,
            bounds.len() == i,
            forall|j: int|
                0 <= j < i ==> call_ensures(
                    boundary,
                    (&cx.editor.doc.text, wanted[j].high()),
                    #[trigger] bounds[j],
                ),
            forall|j: int|
                0 <= j < i ==> #[trigger] ranges@[j] == Range::between(wanted[j].low(), bounds[j]),
        decreases wanted.len() - i,
    {
        let range = cx.editor.doc.selection.ranges[i];
        assert(wanted[i as int].within(cx.text().len() as int));
        let bound = boundary(&cx.editor.doc.text, range.to());
        proof {
            bounds = bounds.push(bound);
        }
        ranges.push(Range::new(range.from(), bound));
        i += 1;
    }
    let selection = Selection { ranges, primary_index: cx.editor.doc.selection.primary_index };
    assert(selection@ =~= up_to(cx.selection(), bounds));
    (selection, Ghost(bounds))
}

fn any_head_at(selection: &Selection, end: usize) -> (b: bool)
    ensures
        b == exists|i: int|
            0 <= i < selection@.ranges.len() && (#[trigger] selection@.ranges[i]).head == end,
{
    let mut i: usize = 0;
    while i < selection.ranges.len()
        invariant
            i <= selection@.ranges.len(),
            forall|j: int| 0 <= j < i ==> (#[trigger] selection@.ranges[j]).head != end,
        decreases selection@.ranges.len() - i,
    {
        if selection.ranges[i].head == end {
            assert(selection@.ranges[i as int].head == end);
            return true;
        }
        i += 1;
    }
    false
}

/// What appending asks for once the ranges reach to their bounds: a line ending
/// at the end of the text where a cursor would stand behind it, and the ranges.
pub open spec fn append_effects(cx: Context, bounds: Seq<usize>) -> Seq<EffectView> {
    let end = cx.text().len() as int;
    let set = EffectView::SetSelection(up_to(cx.selection(), bounds));
    if exists|i: int| 0 <= i < bounds.len() && #[trigger] bounds[i] == end {
        seq![
            EffectView::Apply(
                TransactionView::of(seq![ChangeView::insert(end, seq!['\n'])]),
            ),
            set,
        ]
    } else {
        seq![set]
    }
}

/// The same but that the cursor is to be moved back in the end.
pub open spec fn restoring(cx: Context, restore_cursor: bool) -> Context {
    Context {
        editor: Editor { doc: Document { restore_cursor, ..cx.editor.doc }, ..cx.editor },
        ..cx
    }
}

/// Whether `post` is `pre` with the ranges reaching to behind their last
/// characters, to insert there.
pub open spec fn appends<F: Fn(&Rope, usize) -> usize>(
    pre: Context,
    post: Context,
    next_grapheme_boundary: F,
) -> bool {
    exists|bounds: Seq<usize>| #[trigger]
        bounded(pre, next_grapheme_boundary, bounds) && post.asks(
            restoring(pre.in_mode(Mode::Insert), true),
            append_effects(pre, bounds),
        )
}

/// Inserts at the end of each range, behind the character that
/// `next_grapheme_boundary` says it ends with.
pub fn append_mode<F: Fn(&Rope, usize) -> usize>(cx: &mut Context, next_grapheme_boundary: F)
    requires
        old(cx).wf(),
        can_bound(*old(cx), next_grapheme_boundary),
    ensures
        appends(*old(cx), *final(cx), next_grapheme_boundary),
{
    let (selection, Ghost(bounds)) = ranges_up_to(cx, next_grapheme_boundary);
    enter_insert_mode(&mut cx.editor.doc);
    cx.editor.doc.restore_cursor = true;
    let end = cx.editor.doc.text.len_chars();
    let ghost pre = *cx;
    let ghost set = EffectView::SetSelection(selection@);
    let atend = any_head_at(&selection, end);
    proof {
        if atend {
            let i = choose|i: int|
                0 <= i < selection@.ranges.len() && (#[trigger] selection@.ranges[i]).head == end;
            assert(bounds[i] == end);
        } else {
            assert forall|i: int| 0 <= i < bounds.len() implies #[trigger] bounds[i] != end by {
                assert(selection@.ranges[i].head == bounds[i]);
            }
        }
    }
    if atend {
        let mut newline = String::new();
        newline.push('\n');
        assert(newline@ =~= seq!['\n']);
        let changes = vec![Change { from: end, to: end, text: Some(newline) }];
        assert(change::change_views(changes@) =~= seq![ChangeView::insert(end as int, seq!['\n'])]);
        cx.editor.ask(Effect::Apply(Transaction { changes, selection: None }));
    }
    cx.set_selection(selection);
    assert(cx.editor.pending() =~= pre.editor.pending() + append_effects(*old(cx), bounds));
}

/// Whether `post` is `pre` in normal mode, with the changes made since closed
/// into a step of the history and, after appending, the ranges reaching back to
/// their last characters.
pub open spec fn leaves_mode<F: Fn(&Rope, usize) -> usize>(
    pre: Context,
    post: Context,
    prev_grapheme_boundary: F,
) -> bool {
    if pre.editor.doc.restore_cursor {
        exists|bounds: Seq<usize>| #[trigger]
            bounded(pre, prev_grapheme_boundary, bounds) && post.asks(
                restoring(pre.in_mode(Mode::Normal), false),
                seq![
                    EffectView::AppendChangesToHistory,
                    EffectView::SetSelection(up_to(pre.selection(), bounds)),
                ],
            )
    } else {
        post.asks(pre.in_mode(Mode::Normal), seq![EffectView::AppendChangesToHistory])
    }
}

/// Leaves insert or select mode. The changes made since become a step of the
/// history, and after appending the cursors move back by one character, which
/// `prev_grapheme_boundary` finds.
pub fn normal_mode<F: Fn(&Rope, usize) -> usize>(cx: &mut Context, prev_grapheme_boundary: F)
    requires
        old(cx).wf(),
        can_bound(*old(cx), prev_grapheme_boundary),
    ensures
        leaves_mode(*old(cx), *final(cx), prev_grapheme_boundary),
{
    if cx.editor.doc.restore_cursor {
        // if leaving append mode, move cursor back by 1
        let (selection, Ghost(bounds)) = ranges_up_to(cx, prev_grapheme_boundary);
        cx.editor.doc.mode = Mode::Normal;
        cx.editor.doc.restore_cursor = false;
        let ghost pre = *cx;
        cx.editor.ask(Effect::AppendChangesToHistory);
        cx.set_selection(selection);
        assert(cx.editor.pending() =~= pre.editor.pending() + seq![
            EffectView::AppendChangesToHistory,
            EffectView::SetSelection(up_to(old(cx).selection(), bounds)),
        ]);
    } else {
        cx.editor.doc.mode = Mode::Normal;
        cx.editor.ask(Effect::AppendChangesToHistory);
    }
}

/// Enters select mode.
pub fn select_mode(cx: &mut Context)
    ensures
        *final(cx) == old(cx).in_mode(Mode::Select),
{
    cx.editor.doc.mode = Mode::Select;
}

/// Leaves select mode.
pub fn exit_select_mode(cx: &mut Context)
    ensures
        *final(cx) == old(cx).in_mode(Mode::Normal),
{
    cx.editor.doc.mode = Mode::Normal;
}

/// Asks for a regular expression to select the matches of.
pub fn select_regex(cx: &mut Context)
    ensures
        *final(cx) == old(cx).with_layer(Some(Layer::RegexPrompt(RegexPrompt::Select))),
{
    cx.push_layer(Layer::RegexPrompt(RegexPrompt::Select));
}

/// Asks for a regular expression to split the ranges on.
pub fn split_selection(cx: &mut Context)
    ensures
        *final(cx) == old(cx).with_layer(Some(Layer::RegexPrompt(RegexPrompt::Split))),
{
    cx.push_layer(Layer::RegexPrompt(RegexPrompt::Split));
}

/// Asks for a regular expression that the ranges to keep match.
pub fn keep_selections(cx: &mut Context)
    ensures
        *final(cx) == old(cx).with_layer(Some(Layer::RegexPrompt(RegexPrompt::Keep))),
{
    cx.push_layer(Layer::RegexPrompt(RegexPrompt::Keep));
}

/// The words that a prompt for a regular expression begins with.
pub fn prompt_title(prompt: RegexPrompt) -> (title: &'static str)
    ensures
        title@ == (match prompt {
            RegexPrompt::Select => "select:"@,
            RegexPrompt::Split => "split:"@,
            RegexPrompt::Search => "search:"@,
            RegexPrompt::Keep => "keep:"@,
        }),
{
    match prompt {
        RegexPrompt::Select => "select:",
        RegexPrompt::Split => "split:",
        RegexPrompt::Search => "search:",
        RegexPrompt::Keep => "keep:",
    }
}

/// Takes the selection that `choose_matches` makes of the regular expression,
/// if it makes one: the matches inside the ranges, or the ranges that match.
pub fn select_matches<F: Fn(&Rope, &Selection, &str) -> Option<Selection>>(
    cx: &mut Context,
    pattern: &str,
    choose_matches: F,
)
    requires
        call_requires(
            choose_matches,
            (&old(cx).editor.doc.text, &old(cx).editor.doc.selection, pattern),
        ),
    ensures
        exists|chosen: Option<Selection>| #[trigger]
            call_ensures(
                choose_matches,
                (&old(cx).editor.doc.text, &old(cx).editor.doc.selection, pattern),
                chosen,
            ) && match chosen {
                Some(selection) => final(cx).selects(*old(cx), selection@),
                None => *final(cx) == *old(cx),
            },
{
    let chosen = choose_matches(&cx.editor.doc.text, &cx.editor.doc.selection, pattern);
    if let Some(selection) = chosen {
        cx.set_selection(selection);
    }
}

/// Whether `post` is `pre` with the selection asked for that `split_on_matches`
/// makes of a regular expression.
pub open spec fn splits<F: Fn(&Rope, &Selection, &str) -> Selection>(
    pre: Context,
    post: Context,
    pattern: &str,
    split_on_matches: F,
) -> bool {
    exists|selection: Selection| #[trigger]
        call_ensures(
            split_on_matches,
            (&pre.editor.doc.text, &pre.editor.doc.selection, pattern),
            selection,
        ) && post.selects(pre, selection@)
}

/// Takes the selection that `split_on_matches` makes of the regular expression.
pub fn split_on<F: Fn(&Rope, &Selection, &str) -> Selection>(
    cx: &mut Context,
    pattern: &str,
    split_on_matches: F,
)
    requires
        call_requires(
            split_on_matches,
            (&old(cx).editor.doc.text, &old(cx).editor.doc.selection, pattern),
        ),
    ensures
        splits(*old(cx), *final(cx), pattern, split_on_matches),
{
    let selection = split_on_matches(&cx.editor.doc.text, &cx.editor.doc.selection, pattern);
    cx.set_selection(selection);
}

/// Splits the ranges at the ends of lines.
pub fn split_selection_on_newline<F: Fn(&Rope, &Selection, &str) -> Selection>(
    cx: &mut Context,
    split_on_matches: F,
)
    requires
        call_requires(
            split_on_matches,
            (&old(cx).editor.doc.text, &old(cx).editor.doc.selection, "\\n"),
        ),
    ensures
        splits(*old(cx), *final(cx), "\\n", split_on_matches),
{
    split_on(cx, "\\n", split_on_matches);
}

} // verus!
