//! Commands on whole lines: indenting, unindenting and joining.

use crate::change::{self, Change, ChangeView, Transaction, TransactionView};
use crate::editor::{Context, Document, Effect, EffectView};
use crate::selection::Range;
use crate::strings;
use crate::text;
use ropey::Rope;
use vstd::prelude::*;

verus! {

/// Whether `line` is one of the lines that `range` has a character on, its end
/// counted. Where lines are to be joined, the last of them has none to be
/// joined to, unless it is the only one.
pub open spec fn spans(s: Seq<char>, range: Range, joining: bool, line: int) -> bool {
    let start = text::line_of(s, range.low() as int);
    let end = text::line_of(s, range.high() as int);
    start <= line <= end && (joining && start < end ==> line < end)
}

/// Whether some range spans line `line`.
pub open spec fn spanned(s: Seq<char>, ranges: Seq<Range>, joining: bool, line: int) -> bool {
    exists|i: int| 0 <= i < ranges.len() && spans(s, #[trigger] ranges[i], joining, line)
}

/// Whether some range has a character on line `line`, its end counted.
pub open spec fn touches(s: Seq<char>, ranges: Seq<Range>, line: int) -> bool {
    spanned(s, ranges, false, line)
}

/// The numbers below `n` that `keep` holds of, in order.
pub open spec fn kept_below(keep: spec_fn(int) -> bool, n: int) -> Seq<int>
    decreases n,
{
    if n <= 0 {
        Seq::empty()
    } else if keep(n - 1) {
        kept_below(keep, n - 1).push(n - 1)
    } else {
        kept_below(keep, n - 1)
    }
}

/// The lines that some range spans, in order, each once.
pub open spec fn spanned_lines(s: Seq<char>, ranges: Seq<Range>, joining: bool) -> Seq<int> {
    kept_below(|line: int| spanned(s, ranges, joining, line), text::line_count(s))
}

/// The lines that some range touches, in order, each once.
pub open spec fn touched_lines(s: Seq<char>, ranges: Seq<Range>) -> Seq<int> {
    spanned_lines(s, ranges, false)
}

/// The line numbers as integers.
pub open spec fn as_ints(lines: Seq<usize>) -> Seq<int> {
    lines.map_values(|line: usize| line as int)
}

/// Every line comes after the one before it.
pub open spec fn increasing(lines: Seq<usize>) -> bool {
    forall|i: int, j: int| 0 <= i < j < lines.len() ==> lines[i] < lines[j]
}

/// An ordered list of the numbers below `n` that `keep` holds of is the list
/// of them.
proof fn lemma_kept_below(lines: Seq<usize>, keep: spec_fn(int) -> bool, n: int)
    requires
        increasing(lines),
        forall|i: int| 0 <= i < lines.len() ==> keep(#[trigger] lines[i] as int) && lines[i] < n,
        forall|line: int|
            0 <= line < n && #[trigger] keep(line) ==> exists|i: int|
                0 <= i < lines.len() && lines[i] == line,
    ensures
        as_ints(lines) == kept_below(keep, n),
    decreases n,
{
    if n <= 0 {
        if lines.len() > 0 {
            assert(lines[0] < n);
        }
        assert(as_ints(lines) =~= kept_below(keep, n));
    } else if keep(n - 1) {
        let k = choose|i: int| 0 <= i < lines.len() && lines[i] == n - 1;
        assert(k == lines.len() - 1) by {
            if k < lines.len() - 1 {
                assert(lines[k] < lines[lines.len() - 1]);
            }
        }
        let rest = lines.drop_last();
        assert forall|i: int| 0 <= i < rest.len() implies keep(#[trigger] rest[i] as int) && rest[i]
            < n - 1 by {
            assert(lines[i] < lines[k]);
        }
        assert forall|line: int| 0 <= line < n - 1 && #[trigger] keep(line) implies exists|i: int|
            0 <= i < rest.len() && rest[i] == line by {
            let i = choose|i: int| 0 <= i < lines.len() && lines[i] == line;
            assert(rest[i] == line);
        }
        lemma_kept_below(rest, keep, n - 1);
        assert(as_ints(lines) =~= as_ints(rest).push(n - 1));
    } else {
        assert forall|i: int| 0 <= i < lines.len() implies keep(#[trigger] lines[i] as int)
            && lines[i] < n - 1 by {}
        lemma_kept_below(lines, keep, n - 1);
    }
}

/// Puts a line into an ordered list, unless it is there already.
fn insert_line(lines: &mut Vec<usize>, line: usize)
    requires
        increasing(old(lines)@),
    ensures
        increasing(final(lines)@),
        forall|l: usize| final(lines)@.contains(l) <==> l == line || old(lines)@.contains(l),
{
    let ghost before = lines@;
    let mut i: usize = lines.len();
    while i > 0 && lines[i - 1] > line
        invariant
            increasing(lines@),
            lines@ == before,
            i <= lines@.len(),
            forall|j: int| i <= j < lines@.len() ==> lines@[j] > line,
        decreases i,
    {
        i -= 1;
    }
    if i > 0 && lines[i - 1] == line {
        assert(before[i - 1] == line);
    } else {
        lines.insert(i, line);
        assert(lines@[i as int] == line);
        assert forall|l: usize| lines@.contains(l) <==> l == line || before.contains(l) by {
            if before.contains(l) {
                let j = choose|j: int| 0 <= j < before.len() && before[j] == l;
                if j < i {
                    assert(lines@[j] == l);
                } else {
                    assert(lines@[j + 1] == l);
                }
            }
        }
    }
}

/// The lines that the selection spans.
fn lines_spanned(doc: &Document, joining: bool) -> (lines: Vec<usize>)
    requires
        text::fits(text::rope_text(doc.text)),
        doc.selection@.within(text::rope_text(doc.text).len() as int),
    ensures
        as_ints(lines@) == spanned_lines(
            text::rope_text(doc.text),
            doc.selection@.ranges,
            joining,
        ),
        increasing(lines@),
{
    let ghost s = text::rope_text(doc.text);
    let ghost ranges = doc.selection@.ranges;
    let ghost keep = |line: int| spanned(s, ranges, joining, line);
    let mut lines: Vec<usize> = Vec::new();
    let mut i: usize = 0;
    proof {
        text::lemma_fits(s);
    }
    while i < doc.selection.ranges.len()
        invariant
            s == text::rope_text(doc.text),
            ranges == doc.selection@.ranges,
            text::fits(s),
            text::line_count(s) <= usize::MAX,
            doc.selection@.within(s.len() as int),
            i <= ranges.len(),
            increasing(lines@),
            forall|l: usize|
                lines@.contains(l) <==> #[trigger] spanned(
                    s,
                    ranges.take(i as int),
                    joining,
                    l as int,
                ),
        decreases ranges.len() - i,
    {
        let range = doc.selection.ranges[i];
        assert(ranges[i as int].within(s.len() as int));
        let start = doc.text.char_to_line(range.from());
        let end = doc.text.char_to_line(range.to());
        let ghost done = ranges.take(i as int);
        proof {
            text::lemma_line_of_monotone(s, range.low() as int, range.high() as int);
            text::lemma_line_of_position(s, range.high() as int);
        }
        let stop = if joining && start < end {
            end
        } else {
            end + 1
        };
        let mut line = start;
        while line < stop
            invariant
                start <= line <= stop,
                increasing(lines@),
                forall|l: usize|
                    lines@.contains(l) <==> (#[trigger] spanned(s, done, joining, l as int)
                        || start <= l < line),
            decreases stop - line,
        {
            insert_line(&mut lines, line);
            line += 1;
        }
        assert forall|l: usize| lines@.contains(l) <==> #[trigger] spanned(
            s,
            ranges.take(i + 1),
            joining,
            l as int,
        ) by {
            let more = ranges.take(i + 1);
            if spanned(s, done, joining, l as int) {
                let j = choose|j: int|
                    0 <= j < done.len() && spans(s, #[trigger] done[j], joining, l as int);
                assert(more[j] == done[j]);
            }
            if start <= l < stop {
                assert(more[i as int] == range);
            }
            if spanned(s, more, joining, l as int) {
                let j = choose|j: int|
                    0 <= j < more.len() && spans(s, #[trigger] more[j], joining, l as int);
                if j < i {
                    assert(done[j] == more[j]);
                }
            }
        }
        i += 1;
    }
    proof {
        assert(ranges.take(i as int) =~= ranges);
        let n = text::line_count(s);
        assert forall|j: int| 0 <= j < lines@.len() implies keep(#[trigger] lines@[j] as int)
            && lines@[j] < n by {
            assert(lines@.contains(lines@[j]));
            assert(spanned(s, ranges.take(i as int), joining, lines@[j] as int));
            let k = choose|k: int|
                0 <= k < ranges.len() && spans(s, #[trigger] ranges[k], joining, lines@[j] as int);
            assert(ranges[k].within(s.len() as int));
            text::lemma_line_of_position(s, ranges[k].high() as int);
        }
        assert forall|line: int| 0 <= line < n && #[trigger] keep(line) implies exists|j: int|
            0 <= j < lines@.len() && lines@[j] == line by {
            assert(spanned(s, ranges, joining, line as usize as int));
            assert(lines@.contains(line as usize));
        }
        lemma_kept_below(lines@, keep, n);
    }
    lines
}

/// The lines that the selection touches.
pub fn get_lines(doc: &Document) -> (lines: Vec<usize>)
    requires
        text::fits(text::rope_text(doc.text)),
        doc.selection@.within(text::rope_text(doc.text).len() as int),
    ensures
        as_ints(lines@) == touched_lines(text::rope_text(doc.text), doc.selection@.ranges),
        increasing(lines@),
{
    lines_spanned(doc, false)
}

/// `text` put in at the start of each line.
pub open spec fn indent_changes(s: Seq<char>, lines: Seq<int>, text: Seq<char>) -> Seq<ChangeView> {
    lines.map_values(|line: int| ChangeView::insert(text::line_start(s, line), text))
}

/// Puts the unit of indentation, as often as the count says, in front of each
/// line that the selection touches.
pub fn indent(cx: &mut Context)
    requires
        old(cx).wf(),
        strings::bytes(old(cx).editor.doc.indent_unit@) * old(cx).times() <= isize::MAX,
    ensures
        final(cx).asks(
            *old(cx),
            seq![
                EffectView::Apply(
                    TransactionView::of(
                        indent_changes(
                            old(cx).text(),
                            touched_lines(old(cx).text(), old(cx).selection().ranges),
                            strings::repeated(
                                old(cx).editor.doc.indent_unit@,
                                old(cx).times() as nat,
                            ),
                        ),
                    ),
                ),
                EffectView::AppendChangesToHistory,
            ],
        ),
{
    let count = cx.count();
    let doc = &cx.editor.doc;
    let lines = get_lines(doc);
    let indent = doc.indent_unit.as_str().repeat(count);
    let ghost s = cx.text();
    let ghost want = indent_changes(s, as_ints(lines@), indent@);
    let mut changes: Vec<Change> = Vec::with_capacity(lines.len());
    let mut i: usize = 0;
    while i < lines.len()
        invariant
            s == text::rope_text(doc.text),
            text::fits(s),
            i <= lines@.len(),
            want == indent_changes(s, as_ints(lines@), indent@),
            as_ints(lines@) == touched_lines(s, doc.selection@.ranges),
            changes@.len() == i,
            forall|j: int| 0 <= j < i ==> (#[trigger] changes@[j])@ == want[j],
        decreases lines@.len() - i,
    {
        proof {
            lemma_kept_bounds(
                |line: int| spanned(s, doc.selection@.ranges, false, line),
                text::line_count(s),
                i as int,
            );
            assert(as_ints(lines@)[i as int] == lines@[i as int]);
        }
        let pos = doc.text.line_to_char(lines[i]);
        changes.push(Change { from: pos, to: pos, text: Some(indent.clone()) });
        i += 1;
    }
    assert(change::change_views(changes@) =~= want);
    cx.editor.ask(Effect::Apply(Transaction { changes, selection: None }));
    cx.editor.ask(Effect::AppendChangesToHistory);
    assert(cx.editor.pending() =~= old(cx).editor.pending() + seq![
        EffectView::Apply(TransactionView::of(want)),
        EffectView::AppendChangesToHistory,
    ]);
}

/// What is kept is below the bound, and `keep` holds of it.
pub proof fn lemma_kept_bounds(keep: spec_fn(int) -> bool, n: int, i: int)
    requires
        0 <= i < kept_below(keep, n).len(),
    ensures
        0 <= kept_below(keep, n)[i] < n,
        keep(kept_below(keep, n)[i]),
    decreases n,
{
    if n > 0 && i < kept_below(keep, n - 1).len() {
        lemma_kept_bounds(keep, n - 1, i);
    }
}

/// What is kept comes in order, each once.
pub proof fn lemma_kept_in_order(keep: spec_fn(int) -> bool, n: int, i: int, j: int)
    requires
        0 <= i < j < kept_below(keep, n).len(),
    ensures
        kept_below(keep, n)[i] < kept_below(keep, n)[j],
    decreases n,
{
    if n > 0 {
        let before = kept_below(keep, n - 1);
        if j < before.len() {
            lemma_kept_in_order(keep, n - 1, i, j);
        } else {
            lemma_kept_bounds(keep, n - 1, i);
        }
    }
}

/// The lines that some range spans are lines of the text, in order, each once.
pub proof fn lemma_spanned_lines(s: Seq<char>, ranges: Seq<Range>, joining: bool)
    ensures
        forall|i: int|
            0 <= i < spanned_lines(s, ranges, joining).len() ==> 0 <= (#[trigger] spanned_lines(
                s,
                ranges,
                joining,
            )[i]) < text::line_count(s),
        forall|i: int, j: int|
            0 <= i < j < spanned_lines(s, ranges, joining).len() ==> (#[trigger] spanned_lines(
                s,
                ranges,
                joining,
            )[i]) < (#[trigger] spanned_lines(s, ranges, joining)[j]),
{
    let keep = |line: int| spanned(s, ranges, joining, line);
    let n = text::line_count(s);
    let lines = spanned_lines(s, ranges, joining);
    assert forall|i: int| 0 <= i < lines.len() implies 0 <= (#[trigger] lines[i]) < n by {
        lemma_kept_bounds(keep, n, i);
    }
    assert forall|i: int, j: int| 0 <= i < j < lines.len() implies (#[trigger] lines[i]) < (
    #[trigger] lines[j]) by {
        lemma_kept_in_order(keep, n, i, j);
    }
}

/// A character that a line can be indented with.
pub open spec fn is_blank(c: char) -> bool {
    c == ' ' || c == '\t'
}

/// How wide a stretch of spaces and tabs is. A tab reaches to the next stop.
pub open spec fn blank_width(blanks: Seq<char>, tab_width: int) -> int
    decreases blanks.len(),
{
    if blanks.len() == 0 {
        0
    } else {
        let before = blank_width(blanks.drop_last(), tab_width);
        if blanks.last() == '\t' {
            (before / tab_width + 1) * tab_width
        } else {
            before + 1
        }
    }
}

/// Counting on from `n`: how many of the blanks that start a line are taken
/// away to take `width` off it. The first is taken whatever its width.
pub open spec fn unindent_stop(line: Seq<char>, tab_width: int, width: int, n: int) -> int
    decreases line.len() - n,
{
    if 0 <= n < line.len() && is_blank(line[n]) && (n == 0 || blank_width(line.take(n), tab_width)
        < width) {
        unindent_stop(line, tab_width, width, n + 1)
    } else {
        n
    }
}

/// How many blanks unindenting takes from the start of a line.
pub open spec fn unindented(line: Seq<char>, tab_width: int, width: int) -> int {
    unindent_stop(line, tab_width, width, 0)
}

/// The blanks taken from the start of each line that has some.
pub open spec fn unindent_changes(
    s: Seq<char>,
    lines: Seq<int>,
    tab_width: int,
    width: int,
) -> Seq<ChangeView>
    decreases lines.len(),
{
    if lines.len() == 0 {
        Seq::empty()
    } else {
        let before = unindent_changes(s, lines.drop_last(), tab_width, width);
        let start = text::line_start(s, lines.last());
        let blanks = unindented(text::line_text(s, lines.last()), tab_width, width);
        if blanks > 0 {
            before.push(ChangeView { from: start, to: start + blanks, text: None })
        } else {
            before
        }
    }
}

/// How many blanks to take from the start of a line.
fn count_blanks(text: &Rope, line_idx: usize, tab_width: usize, indent_width: usize) -> (pos: usize)
    requires
        text::fits(text::rope_text(*text)),
        line_idx < text::line_count(text::rope_text(*text)),
        tab_width > 0 || !starts_with_tab(text::rope_text(*text), line_idx as int),
        exists|count: int| #[trigger] (count * tab_width) == indent_width && count >= 0,
    ensures
        pos == unindented(
            text::line_text(text::rope_text(*text), line_idx as int),
            tab_width as int,
            indent_width as int,
        ),
        pos <= text::line_text(text::rope_text(*text), line_idx as int).len(),
{
    let ghost s = text::rope_text(*text);
    let ghost line = text::line_text(s, line_idx as int);
    proof {
        text::lemma_fits(s);
        text::lemma_line_start(s, line_idx as int);
        text::lemma_line_start(s, line_idx + 1);
        text::lemma_line_starts_ordered(s, line_idx as int, line_idx + 1);
    }
    let start = text.line_to_char(line_idx);
    let len = text.line_to_char(line_idx + 1) - start;
    let mut width: usize = 0;
    let mut pos: usize = 0;
    assert(line.take(0) =~= Seq::empty());
    while pos < len
        invariant_except_break
            s == text::rope_text(*text),
            text::fits(s),
            s.len() < usize::MAX,
            line == text::line_text(s, line_idx as int),
            start == text::line_start(s, line_idx as int),
            start + len == text::line_start(s, line_idx + 1),
            start + len <= s.len(),
            pos <= len,
            tab_width > 0 || !starts_with_tab(s, line_idx as int),
            exists|count: int| #[trigger] (count * tab_width) == indent_width && count >= 0,
            width == blank_width(line.take(pos as int), tab_width as int),
            pos == 0 || width < indent_width,
            pos == 0 ==> width == 0,
            unindented(line, tab_width as int, indent_width as int) == unindent_stop(
                line,
                tab_width as int,
                indent_width as int,
                pos as int,
            ),
        ensures
            pos <= len,
            pos == unindented(line, tab_width as int, indent_width as int),
        decreases len - pos,
    {
        let ch = text.char(start + pos);
        assert(ch == line[pos as int]);
        assert(line.take(pos + 1).drop_last() =~= line.take(pos as int));
        if ch == ' ' {
            width += 1;
        } else if ch == '\t' {
            assert(tab_width > 0) by {
                if tab_width == 0 {
                    assert(indent_width == 0) by {
                        let count = choose|count: int|
                            #[trigger] (count * tab_width) == indent_width && count >= 0;
                        assert(count * 0 == 0);
                    }
                }
            }
            proof {
                let count = choose|count: int|
                    #[trigger] (count * tab_width) == indent_width && count >= 0;
                lemma_next_stop(width as int, tab_width as int, count, indent_width as int);
            }
            width = (width / tab_width + 1) * tab_width;
        } else {
            break;
        }
        pos += 1;
        assert(width == blank_width(line.take(pos as int), tab_width as int));
        assert(unindented(line, tab_width as int, indent_width as int) == unindent_stop(
            line,
            tab_width as int,
            indent_width as int,
            pos as int,
        ));
        if width >= indent_width {
            break;
        }
    }
    pos
}

/// The next tab stop after a width lies no further than the next multiple of
/// the tab width that the width is under.
proof fn lemma_next_stop(width: int, tab_width: int, count: int, limit: int)
    requires
        0 <= width <= limit,
        tab_width > 0,
        count * tab_width == limit,
    ensures
        0 <= (width / tab_width + 1) * tab_width,
        width < limit ==> (width / tab_width + 1) * tab_width <= limit,
        width == 0 ==> (width / tab_width + 1) * tab_width == tab_width,
{
    assert(0 <= (width / tab_width + 1) * tab_width && (width < limit ==> (width / tab_width + 1)
        * tab_width <= limit)) by (nonlinear_arith)
        requires
            0 <= width <= limit,
            tab_width > 0,
            count * tab_width == limit,
    ;
    assert(width == 0 ==> (width / tab_width + 1) * tab_width == tab_width) by (nonlinear_arith)
        requires
            tab_width > 0,
    ;
}

/// Whether a line begins with a tab.
pub open spec fn starts_with_tab(s: Seq<char>, line: int) -> bool {
    text::line_text(s, line).len() > 0 && text::line_text(s, line)[0] == '\t'
}

/// Whether lines can be unindented: the width to take off can be counted, and a
/// tab has a width where a line starts with one.
pub open spec fn can_unindent(cx: Context) -> bool {
    &&& cx.times() * cx.editor.doc.tab_width <= usize::MAX
    &&& cx.editor.doc.tab_width > 0 || forall|line: int|
        touches(cx.text(), cx.selection().ranges, line) ==> !#[trigger] starts_with_tab(
            cx.text(),
            line,
        )
}

/// Takes as many blanks as make up the count of tab widths from the start of
/// each line that the selection touches.
pub fn unindent(cx: &mut Context)
    requires
        old(cx).wf(),
        can_unindent(*old(cx)),
    ensures
        final(cx).asks(
            *old(cx),
            seq![
                EffectView::Apply(
                    TransactionView::of(
                        unindent_changes(
                            old(cx).text(),
                            touched_lines(old(cx).text(), old(cx).selection().ranges),
                            old(cx).editor.doc.tab_width as int,
                            old(cx).times() * old(cx).editor.doc.tab_width,
                        ),
                    ),
                ),
                EffectView::AppendChangesToHistory,
            ],
        ),
{
    let count = cx.count();
    let doc = &cx.editor.doc;
    let lines = get_lines(doc);
    let mut changes: Vec<Change> = Vec::with_capacity(lines.len());
    let tab_width = doc.tab_width;
    let indent_width = count * tab_width;
    let ghost s = cx.text();
    let ghost wanted = as_ints(lines@);
    let mut i: usize = 0;
    assert(change::change_views(changes@) =~= unindent_changes(
        s,
        wanted.take(0),
        tab_width as int,
        indent_width as int,
    ));
    while i < lines.len()
        invariant
            s == text::rope_text(doc.text),
            text::fits(s),
            indent_width == count * tab_width,
            i <= lines@.len(),
            wanted == as_ints(lines@),
            wanted == touched_lines(s, doc.selection@.ranges),
            tab_width > 0 || forall|line: int|
                touches(s, doc.selection@.ranges, line) ==> !#[trigger] starts_with_tab(s, line),
            change::change_views(changes@) == unindent_changes(
                s,
                wanted.take(i as int),
                tab_width as int,
                indent_width as int,
            ),
        decreases lines@.len() - i,
    {
        let line_idx = lines[i];
        proof {
            lemma_kept_bounds(
                |line: int| spanned(s, doc.selection@.ranges, false, line),
                text::line_count(s),
                i as int,
            );
            assert(wanted[i as int] == line_idx);
            assert(wanted.take(i + 1).drop_last() =~= wanted.take(i as int));
            text::lemma_fits(s);
            text::lemma_line_start(s, line_idx as int);
            text::lemma_line_start(s, line_idx + 1);
            text::lemma_line_starts_ordered(s, line_idx as int, line_idx + 1);
            assert(count as int * tab_width == indent_width);
        }
        let pos = count_blanks(&doc.text, line_idx, tab_width, indent_width);
        let ghost before = changes@;
        // now delete from start to first non-blank
        if pos > 0 {
            let start = doc.text.line_to_char(line_idx);
            changes.push(Change { from: start, to: start + pos, text: None });
            assert(change::change_views(changes@) =~= change::change_views(before).push(
                changes@.last()@,
            ));
        }
        i += 1;
    }
    assert(wanted.take(i as int) =~= wanted);
    let ghost want = change::change_views(changes@);
    cx.editor.ask(Effect::Apply(Transaction { changes, selection: None }));
    cx.editor.ask(Effect::AppendChangesToHistory);
    assert(cx.editor.pending() =~= old(cx).editor.pending() + seq![
        EffectView::Apply(TransactionView::of(want)),
        EffectView::AppendChangesToHistory,
    ]);
}

/// The first position at or after `pos` that holds no blank, where there is one.
pub open spec fn after_blanks(s: Seq<char>, pos: int) -> Option<int>
    decreases s.len() - pos,
{
    if pos < 0 || pos >= s.len() {
        None
    } else if is_blank(s[pos]) {
        after_blanks(s, pos + 1)
    } else {
        Some(pos)
    }
}

/// A space in place of the character that ends line `line` and the blanks that
/// the next line starts with. Blanks up to the end of the text stay.
pub open spec fn join_change(s: Seq<char>, line: int) -> ChangeView {
    let next = text::line_start(s, line + 1);
    let start = if next > 0 {
        next - 1
    } else {
        0
    };
    ChangeView {
        from: start,
        to: match after_blanks(s, start + 1) {
            Some(end) => end,
            None => start + 1,
        },
        text: Some(seq![' ']),
    }
}

/// Each line joined to the next, with no change made twice.
pub open spec fn join_changes(s: Seq<char>, lines: Seq<int>) -> Seq<ChangeView>
    decreases lines.len(),
{
    if lines.len() == 0 {
        Seq::empty()
    } else {
        let before = join_changes(s, lines.drop_last());
        let change = join_change(s, lines.last());
        if before.len() > 0 && before.last().from == change.from {
            before
        } else {
            before.push(change)
        }
    }
}

/// The first position at or after `pos` that holds no blank.
fn skip_blanks(text: &Rope, pos: usize) -> (end: Option<usize>)
    requires
        text::fits(text::rope_text(*text)),
        pos <= text::rope_text(*text).len(),
    ensures
        end is Some <==> after_blanks(text::rope_text(*text), pos as int) is Some,
        end matches Some(end) ==> after_blanks(text::rope_text(*text), pos as int) == Some(
            end as int,
        ),
{
    let len = text.len_chars();
    let mut end = pos;
    while end < len
        invariant
            text::fits(text::rope_text(*text)),
            len == text::rope_text(*text).len(),
            pos <= end <= len,
            after_blanks(text::rope_text(*text), pos as int) == after_blanks(
                text::rope_text(*text),
                end as int,
            ),
        decreases len - end,
    {
        let ch = text.char(end);
        if ch != ' ' && ch != '\t' {
            return Some(end);
        }
        end += 1;
    }
    None
}

/// Joins the lines that each range spans, or its line and the next where it
/// spans only one.
pub fn join_selections(cx: &mut Context)
    requires
        old(cx).wf(),
        old(cx).text().len() > 0,
    ensures
        final(cx).asks(
            *old(cx),
            seq![
                EffectView::Apply(
                    TransactionView::of(
                        join_changes(
                            old(cx).text(),
                            spanned_lines(old(cx).text(), old(cx).selection().ranges, true),
                        ),
                    ),
                ),
                EffectView::AppendChangesToHistory,
            ],
        ),
{
    let doc = &cx.editor.doc;
    let lines = lines_spanned(doc, true);
    let mut changes: Vec<Change> = Vec::with_capacity(lines.len());
    let ghost s = cx.text();
    let ghost wanted = as_ints(lines@);
    let mut i: usize = 0;
    assert(change::change_views(changes@) =~= join_changes(s, wanted.take(0)));
    while i < lines.len()
        invariant
            s == text::rope_text(doc.text),
            text::fits(s),
            s.len() > 0,
            i <= lines@.len(),
            wanted == as_ints(lines@),
            wanted == spanned_lines(s, doc.selection@.ranges, true),
            change::change_views(changes@) == join_changes(s, wanted.take(i as int)),
        decreases lines@.len() - i,
    {
        let line = lines[i];
        proof {
            lemma_kept_bounds(
                |line: int| spanned(s, doc.selection@.ranges, true, line),
                text::line_count(s),
                i as int,
            );
            assert(wanted[i as int] == line);
            assert(wanted.take(i + 1).drop_last() =~= wanted.take(i as int));
            text::lemma_fits(s);
            text::lemma_line_start(s, line + 1);
        }
        let start = doc.text.line_to_char(line + 1).saturating_sub(1);
        let mut end = start + 1;
        end = skip_blanks(&doc.text, end).unwrap_or(end);
        let ghost before = changes@;
        if changes.len() == 0 || changes[changes.len() - 1].from != start {
            let mut fragment = String::new();
            fragment.push(' ');
            assert(fragment@ =~= seq![' ']);
            // need to skip from start, not end
            changes.push(Change { from: start, to: end, text: Some(fragment) });
            assert(change::change_views(changes@) =~= change::change_views(before).push(
                changes@.last()@,
            ));
        }
        i += 1;
    }
    assert(wanted.take(i as int) =~= wanted);
    let ghost want = change::change_views(changes@);
    cx.editor.ask(Effect::Apply(Transaction { changes, selection: None }));
    cx.editor.ask(Effect::AppendChangesToHistory);
    assert(cx.editor.pending() =~= old(cx).editor.pending() + seq![
        EffectView::Apply(TransactionView::of(want)),
        EffectView::AppendChangesToHistory,
    ]);
}

} // verus!
