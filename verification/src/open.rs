//! Opening new lines below or above the selected ones.

use crate::change::{self, Change, ChangeView, Transaction, TransactionView};
use crate::editor::{Context, Effect, EffectView, Mode};
use crate::selection::{Range, Selection, SelectionView};
use crate::strings;
use crate::text;
use ropey::Rope;
use vstd::prelude::*;
use vstd::string::{StrSliceExecFns, StringExecFns};

verus! {

/// Which side of a line new lines are opened on.
#[derive(Clone, Copy, Debug, PartialEq, Eq, Structural)]
pub enum Open {
    Below,
    Above,
}

/// The line before which the new lines go.
pub open spec fn open_line(s: Seq<char>, open: Open, range: Range) -> int {
    let line = text::line_of(s, range.head as int);
    match open {
        Open::Below => line + 1,
        Open::Above => line,
    }
}

/// Where the new lines are put in: at the end of the line before, or at the start
/// of the text where there is none.
pub open spec fn open_index(s: Seq<char>, open: Open, range: Range) -> int {
    let line = open_line(s, open, range);
    if line > 0 {
        text::line_end(s, line - 1)
    } else {
        0
    }
}

/// The line before which the new lines go, and where they are put in.
pub fn open_place(text: &Rope, open: Open, range: Range) -> (place: (usize, usize))
    requires
        text::fits(text::rope_text(*text)),
        range.within(text::rope_text(*text).len() as int),
    ensures
        place.0 == open_line(text::rope_text(*text), open, range),
        place.1 == open_index(text::rope_text(*text), open, range),
        place.1 <= text::rope_text(*text).len(),
{
    proof {
        text::lemma_fits(text::rope_text(*text));
        text::lemma_line_of_position(text::rope_text(*text), range.head as int);
    }
    let mut line = text.char_to_line(range.head);
    if let Open::Below = open {
        // adjust position to the end of the line
        line += 1;
    }
    // insert newlines after this index for both Above and Below variants
    let linend_index = if line > 0 {
        text::end_of_line(text, line - 1)
    } else {
        0
    };
    (line, linend_index)
}

/// A line ending and the indentation of the line that it starts.
pub open spec fn indented_line(unit: Seq<char>, level: usize) -> Seq<char> {
    seq!['\n'] + strings::repeated(unit, level as nat)
}

/// The new lines of one range.
pub open spec fn opened(unit: Seq<char>, level: usize, count: usize) -> Seq<char> {
    strings::repeated(indented_line(unit, level), count as nat)
}

/// How many characters the first `k` ranges put in.
pub open spec fn open_offset(unit: Seq<char>, levels: Seq<usize>, count: usize, k: int) -> int
    decreases k,
{
    if k <= 0 {
        0
    } else {
        open_offset(unit, levels, count, k - 1) + opened(unit, levels[k - 1], count).len()
    }
}

/// How many bytes the first `k` ranges put in.
pub open spec fn open_size(unit: Seq<char>, levels: Seq<usize>, count: usize, k: int) -> int
    decreases k,
{
    if k <= 0 {
        0
    } else {
        open_size(unit, levels, count, k - 1) + (1 + strings::bytes(unit) * levels[k - 1]) * count
    }
}

/// Where the new lines of range `i` start once all are put in.
pub open spec fn open_pos(
    s: Seq<char>,
    ranges: Seq<Range>,
    open: Open,
    unit: Seq<char>,
    levels: Seq<usize>,
    count: usize,
    i: int,
) -> int {
    if open_line(s, open, ranges[i]) == 0 {
        0
    } else {
        open_offset(unit, levels, count, i) + open_index(s, open, ranges[i]) + 1
    }
}

/// A cursor behind the indentation of each of `n` lines from `pos` on, which
/// are `indent` bytes of indentation long.
pub open spec fn line_cursors(pos: int, indent: int, n: int) -> Seq<Range> {
    Seq::new(
        n as nat,
        |j: int|
            Range::between(
                (pos + j * (1 + indent) + indent) as usize,
                (pos + j * (1 + indent) + indent) as usize,
            ),
    )
}

/// The cursors on the new lines of the first `k` ranges.
pub open spec fn open_ranges(
    s: Seq<char>,
    ranges: Seq<Range>,
    open: Open,
    unit: Seq<char>,
    levels: Seq<usize>,
    count: usize,
    k: int,
) -> Seq<Range>
    decreases k,
{
    if k <= 0 {
        Seq::empty()
    } else {
        open_ranges(s, ranges, open, unit, levels, count, k - 1) + line_cursors(
            open_pos(s, ranges, open, unit, levels, count, k - 1),
            strings::bytes(strings::repeated(unit, levels[k - 1] as nat)) as int,
            count as int,
        )
    }
}

/// The edit that opens `count` lines at each range, indented by `levels`.
pub open spec fn open_edit(
    s: Seq<char>,
    selection: SelectionView,
    open: Open,
    unit: Seq<char>,
    levels: Seq<usize>,
    count: usize,
) -> TransactionView {
    TransactionView {
        changes: Seq::new(
            selection.ranges.len(),
            |i: int|
                ChangeView::insert(
                    open_index(s, open, selection.ranges[i]),
                    opened(unit, levels[i], count),
                ),
        ),
        selection: Some(
            SelectionView {
                ranges: open_ranges(
                    s,
                    selection.ranges,
                    open,
                    unit,
                    levels,
                    count,
                    selection.ranges.len() as int,
                ),
                ..selection
            },
        ),
    }
}

proof fn lemma_opened(unit: Seq<char>, level: usize, count: usize)
    ensures
        strings::bytes(strings::repeated(unit, level as nat)) == strings::bytes(unit) * level,
        strings::bytes(indented_line(unit, level)) == 1 + strings::bytes(unit) * level,
        strings::bytes(opened(unit, level, count)) == (1 + strings::bytes(unit) * level) * count,
        opened(unit, level, count).len() <= (1 + strings::bytes(unit) * level) * count,
        0 <= strings::bytes(unit) * level,
        0 <= (1 + strings::bytes(unit) * level) * count,
{
    strings::lemma_bytes_repeated(unit, level as nat);
    strings::lemma_bytes_ascii('\n');
    strings::lemma_bytes_concat(seq!['\n'], strings::repeated(unit, level as nat));
    strings::lemma_bytes_repeated(indented_line(unit, level), count as nat);
    strings::lemma_len_in_bytes(opened(unit, level, count));
    assert(0 <= strings::bytes(unit) * level) by (nonlinear_arith);
    assert(0 <= (1 + strings::bytes(unit) * level) * count) by (nonlinear_arith)
        requires
            0 <= strings::bytes(unit) * level,
    ;
}

proof fn lemma_open_size(unit: Seq<char>, levels: Seq<usize>, count: usize, k: int, n: int)
    requires
        0 <= k <= n <= levels.len(),
    ensures
        0 <= open_offset(unit, levels, count, k) <= open_size(unit, levels, count, k),
        open_size(unit, levels, count, k) <= open_size(unit, levels, count, n),
    decreases n,
{
    if k < n {
        lemma_open_size(unit, levels, count, k, n - 1);
        lemma_opened(unit, levels[n - 1], count);
    } else if n > 0 {
        lemma_open_size(unit, levels, count, k - 1, n - 1);
        lemma_opened(unit, levels[n - 1], count);
    }
}

/// The edit that opens `count` lines at each range, indented by `levels`.
pub fn open_transaction(
    text: &Rope,
    selection: &Selection,
    open: Open,
    indent_unit: &str,
    levels: &Vec<usize>,
    count: usize,
) -> (transaction: Transaction)
    requires
        text::fits(text::rope_text(*text)),
        selection@.within(text::rope_text(*text).len() as int),
        levels@.len() == selection@.ranges.len(),
        count >= 1,
        text::rope_text(*text).len() + 1 + open_size(
            indent_unit@,
            levels@,
            count,
            levels@.len() as int,
        ) <= isize::MAX,
    ensures
        transaction@ == open_edit(
            text::rope_text(*text),
            selection@,
            open,
            indent_unit@,
            levels@,
            count,
        ),
{
    let ghost s = text::rope_text(*text);
    let ghost unit = indent_unit@;
    let ghost want = open_edit(s, selection@, open, unit, levels@, count);
    let mut ranges: Vec<Range> = Vec::with_capacity(selection.ranges.len());
    let mut changes: Vec<Change> = Vec::with_capacity(selection.ranges.len());
    let mut offs: usize = 0;
    let mut k: usize = 0;
    while k < selection.ranges.len()
        invariant
            s == text::rope_text(*text),
            unit == indent_unit@,
            want == open_edit(s, selection@, open, unit, levels@, count),
            text::fits(s),
            selection@.within(s.len() as int),
            levels@.len() == selection@.ranges.len(),
            count >= 1,
            s.len() + 1 + open_size(unit, levels@, count, levels@.len() as int) <= isize::MAX,
            k <= selection@.ranges.len(),
            offs == open_offset(unit, levels@, count, k as int),
            ranges@ == open_ranges(s, selection@.ranges, open, unit, levels@, count, k as int),
            changes@.len() == k,
            forall|j: int| 0 <= j < k ==> (#[trigger] changes@[j])@ == want.changes[j],
        decreases selection@.ranges.len() - k,
    {
        let range = selection.ranges[k];
        let level = levels[k];
        proof {
            assert(selection@.ranges[k as int].within(s.len() as int));
            lemma_opened(unit, level, count);
            lemma_open_size(unit, levels@, count, k as int, levels@.len() as int);
            lemma_open_size(unit, levels@, count, k + 1, levels@.len() as int);
        }
        let (line, linend_index) = open_place(text, open, range);
        proof {
            let size = 1 + strings::bytes(unit) * level;
            assert(size <= size * count && strings::bytes(unit) * level <= size * count)
                by (nonlinear_arith)
                requires
                    size >= 1,
                    count >= 1,
                    strings::bytes(unit) * level <= size,
            ;
        }
        let indent = indent_unit.repeat(level);
        let indent_len = indent.as_str().len();
        let mut new_line = String::new();
        new_line.push('\n');
        new_line.append(indent.as_str());
        assert(new_line@ =~= indented_line(unit, level));
        let new_lines = new_line.as_str().repeat(count);

        // calculate new selection ranges
        let pos = if line == 0 {
            0  // Required since text will have a min len of 1 (\n)

        } else {
            offs + linend_index + 1
        };
        let ghost before = ranges@;
        let mut i: usize = 0;
        assert(ranges@ =~= before + line_cursors(pos as int, indent_len as int, 0));
        while i < count
            invariant
                i <= count,
                pos + (1 + indent_len) * count <= isize::MAX,
                ranges@ == before + line_cursors(pos as int, indent_len as int, i as int),
            decreases count - i,
        {
            proof {
                assert(i * (1 + indent_len) + (1 + indent_len) <= (1 + indent_len) * count && 0 <= i
                    * (1 + indent_len)) by (nonlinear_arith)
                    requires
                        0 <= i < count,
                        0 <= indent_len,
                ;
            }
            // pos                    -> beginning of reference line,
            // + (i * (1+indent_len)) -> beginning of i'th line from pos
            // + indent_len ->        -> indent for i'th line
            ranges.push(Range::point(pos + (i * (1 + indent_len)) + indent_len));
            i += 1;
            assert(ranges@ =~= before + line_cursors(pos as int, indent_len as int, i as int));
        }
        assert(ranges@ == open_ranges(s, selection@.ranges, open, unit, levels@, count, k + 1));
        offs += new_lines.as_str().unicode_len();
        changes.push(Change { from: linend_index, to: linend_index, text: Some(new_lines) });
        k += 1;
    }
    assert(change::change_views(changes@) =~= want.changes);
    Transaction {
        changes,
        selection: Some(Selection { ranges, primary_index: selection.primary_index }),
    }
}

/// Whether `levels` are what `suggested_indent` may say of the places where the
/// new lines of the ranges go.
pub open spec fn suggested<F: Fn(&Rope, usize, bool) -> usize>(
    suggested_indent: F,
    text: Rope,
    ranges: Seq<Range>,
    open: Open,
    levels: Seq<usize>,
) -> bool {
    &&& levels.len() == ranges.len()
    &&& forall|i: int|
        0 <= i < ranges.len() ==> call_ensures(
            suggested_indent,
            (&text, open_index(text::rope_text(text), open, ranges[i]) as usize, true),
            #[trigger] levels[i],
        )
}

/// Whether lines can be opened: `suggested_indent` can be asked about every
/// position, and with what it may say the result is not too long.
pub open spec fn can_open<F: Fn(&Rope, usize, bool) -> usize>(
    cx: Context,
    open: Open,
    suggested_indent: F,
) -> bool {
    &&& forall|pos: usize|
        #[trigger] call_requires(suggested_indent, (&cx.editor.doc.text, pos, true))
    &&& forall|levels: Seq<usize>|
        #[trigger] suggested(
            suggested_indent,
            cx.editor.doc.text,
            cx.selection().ranges,
            open,
            levels,
        ) ==> cx.text().len() + 1 + open_size(
            cx.editor.doc.indent_unit@,
            levels,
            cx.times(),
            levels.len() as int,
        ) <= isize::MAX
}

/// Whether `post` is `pre` in insert mode, with the edit asked for that opens
/// as many lines as the count says, indented as `suggested_indent` says.
pub open spec fn opens<F: Fn(&Rope, usize, bool) -> usize>(
    pre: Context,
    post: Context,
    open: Open,
    suggested_indent: F,
) -> bool {
    exists|levels: Seq<usize>| #[trigger]
        suggested(
            suggested_indent,
            pre.editor.doc.text,
            pre.selection().ranges,
            open,
            levels,
        ) && post.asks(
            pre.in_mode(Mode::Insert),
            seq![
                EffectView::Apply(
                    open_edit(
                        pre.text(),
                        pre.selection(),
                        open,
                        pre.editor.doc.indent_unit@,
                        levels,
                        pre.times(),
                    ),
                ),
            ],
        )
}

/// Opens as many lines as the count says at each range, and starts inserting
/// there. `suggested_indent` says how deep a line after a position is indented.
pub fn open<F: Fn(&Rope, usize, bool) -> usize>(cx: &mut Context, open: Open, suggested_indent: F)
    requires
        old(cx).wf(),
        can_open(*old(cx), open, suggested_indent),
    ensures
        opens(*old(cx), *final(cx), open, suggested_indent),
{
    let count = cx.count();
    cx.editor.doc.mode = Mode::Insert;
    let doc = &cx.editor.doc;
    let ghost s = old(cx).text();
    let ghost wanted = old(cx).selection().ranges;
    let mut levels: Vec<usize> = Vec::with_capacity(doc.selection.ranges.len());
    let mut i: usize = 0;
    while i < doc.selection.ranges.len()
        invariant
            s == text::rope_text(doc.text),
            wanted == doc.selection@.ranges,
            text::fits(s),
            doc.selection@.within(s.len() as int),
            forall|pos: usize| #[trigger] call_requires(suggested_indent, (&doc.text, pos, true)),
            i <= wanted.len(),
            levels@.len() == i,
            forall|j: int|
                0 <= j < i ==> call_ensures(
                    suggested_indent,
                    (&doc.text, open_index(s, open, wanted[j]) as usize, true),
                    #[trigger] levels@[j],
                ),
        decreases wanted.len() - i,
    {
        let range = doc.selection.ranges[i];
        assert(wanted[i as int].within(s.len() as int));
        let (_, linend_index) = open_place(&doc.text, open, range);
        levels.push(suggested_indent(&doc.text, linend_index, true));
        i += 1;
    }
    assert(suggested(suggested_indent, doc.text, wanted, open, levels@));
    let transaction = open_transaction(
        &doc.text,
        &doc.selection,
        open,
        doc.indent_unit.as_str(),
        &levels,
        count,
    );
    cx.editor.ask(Effect::Apply(transaction));
}

/// Opens lines after each line with a selection.
pub fn open_below<F: Fn(&Rope, usize, bool) -> usize>(cx: &mut Context, suggested_indent: F)
    requires
        old(cx).wf(),
        can_open(*old(cx), Open::Below, suggested_indent),
    ensures
        opens(*old(cx), *final(cx), Open::Below, suggested_indent),
{
    open(cx, Open::Below, suggested_indent)
}

/// Opens lines before each line with a selection.
pub fn open_above<F: Fn(&Rope, usize, bool) -> usize>(cx: &mut Context, suggested_indent: F)
    requires
        old(cx).wf(),
        can_open(*old(cx), Open::Above, suggested_indent),
    ensures
        opens(*old(cx), *final(cx), Open::Above, suggested_indent),
{
    open(cx, Open::Above, suggested_indent)
}

} // verus!
