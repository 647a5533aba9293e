//! What holds of the commands that start, indent and join lines.

use crate::change::{self, ChangeView};
use crate::editor::Context;
use crate::insert;
use crate::lines;
use crate::open::{self, Open};
use crate::selection::{Range, SelectionView};
use crate::strings;
use crate::text;
use vstd::prelude::*;

verus! {

/// Where the ranges of a selection are separate, new lines are started in order.
pub proof fn newlines_are_in_order(
    cx: Context,
    unit: Seq<char>,
    levels: Seq<usize>,
    pairs: Seq<(char, char)>,
)
    requires
        cx.wf(),
        cx.selection().separated(),
    ensures
        change::in_order(
            insert::newline_edit(cx.text(), cx.selection(), unit, levels, pairs).changes,
            cx.text().len() as int,
        ),
{
    let ranges = cx.selection().ranges;
    let changes = insert::newline_edit(cx.text(), cx.selection(), unit, levels, pairs).changes;
    assert forall|i: int| 0 <= i < changes.len() implies 0 <= (#[trigger] changes[i]).from
        <= changes[i].to <= cx.text().len() by {
        assert(ranges[i].within(cx.text().len() as int));
    }
    assert forall|i: int, j: int| 0 <= i < j < changes.len() implies (#[trigger] changes[i]).to <= (
    #[trigger] changes[j]).from by {
        assert(ranges[i].high() < ranges[j].low());
    }
}

proof fn lemma_newline_offset(
    s: Seq<char>,
    selection: SelectionView,
    unit: Seq<char>,
    levels: Seq<usize>,
    pairs: Seq<(char, char)>,
    k: int,
)
    requires
        0 <= k <= selection.ranges.len(),
    ensures
        insert::newline_offset(s, selection.ranges, unit, levels, pairs, k)
            == change::inserted_before(
            insert::newline_edit(s, selection, unit, levels, pairs).changes,
            k,
        ),
    decreases k,
{
    if k > 0 {
        lemma_newline_offset(s, selection, unit, levels, pairs, k - 1);
    }
}

/// After new lines are started, the cursor of each range stands right behind the
/// ending and the indentation of its new line.
pub proof fn newline_cursor_is_behind_the_indentation(
    cx: Context,
    unit: Seq<char>,
    levels: Seq<usize>,
    pairs: Seq<(char, char)>,
    i: int,
)
    requires
        cx.wf(),
        cx.selection().separated(),
        0 <= i < cx.selection().ranges.len(),
        change::edited(
            cx.text(),
            insert::newline_edit(cx.text(), cx.selection(), unit, levels, pairs).changes,
        ).len() <= usize::MAX,
    ensures
        ({
            let edit = insert::newline_edit(cx.text(), cx.selection(), unit, levels, pairs);
            let after = change::edited(cx.text(), edit.changes);
            let line = open::indented_line(unit, levels[i]);
            let head = edit.selection->0.ranges[i].head as int;
            &&& line.len() <= head <= after.len()
            &&& after.subrange(head - line.len(), head) == line
        }),
{
    let s = cx.text();
    let selection = cx.selection();
    let edit = insert::newline_edit(s, selection, unit, levels, pairs);
    let after = change::edited(s, edit.changes);
    let line = open::indented_line(unit, levels[i]);
    newlines_are_in_order(cx, unit, levels, pairs);
    lemma_newline_offset(s, selection, unit, levels, pairs, i);
    change::lemma_inserted_at(s, edit.changes, i);
    let at = edit.changes[i].from + change::inserted_before(edit.changes, i);
    let put_in = edit.changes[i].inserted();
    assert(put_in.subrange(0, line.len() as int) =~= line);
    assert(after.subrange(at, at + line.len()) =~= after.subrange(at, at + put_in.len()).subrange(
        0,
        line.len() as int,
    ));
}

/// Where the ranges of a selection are separate, lines are opened in order.
pub proof fn opening_is_in_order(
    cx: Context,
    side: Open,
    unit: Seq<char>,
    levels: Seq<usize>,
    count: usize,
)
    requires
        cx.wf(),
        cx.selection().separated(),
    ensures
        change::in_order(
            open::open_edit(cx.text(), cx.selection(), side, unit, levels, count).changes,
            cx.text().len() as int,
        ),
{
    let s = cx.text();
    let ranges = cx.selection().ranges;
    let changes = open::open_edit(s, cx.selection(), side, unit, levels, count).changes;
    assert forall|i: int| 0 <= i < changes.len() implies 0 <= (#[trigger] changes[i]).from
        <= changes[i].to <= s.len() by {
        assert(ranges[i].within(s.len() as int));
        text::lemma_line_of_monotone(s, 0, ranges[i].head as int);
        text::lemma_line_start(s, open::open_line(s, side, ranges[i]));
    }
    assert forall|i: int, j: int| 0 <= i < j < changes.len() implies (#[trigger] changes[i]).to <= (
    #[trigger] changes[j]).from by {
        assert(ranges[i].high() < ranges[j].low());
        text::lemma_line_of_monotone(s, 0, ranges[i].head as int);
        text::lemma_line_of_monotone(s, ranges[i].head as int, ranges[j].head as int);
        text::lemma_line_starts_ordered(
            s,
            open::open_line(s, side, ranges[i]),
            open::open_line(s, side, ranges[j]),
        );
    }
}

proof fn lemma_open_offset(
    s: Seq<char>,
    selection: SelectionView,
    side: Open,
    unit: Seq<char>,
    levels: Seq<usize>,
    count: usize,
    k: int,
)
    requires
        0 <= k <= selection.ranges.len(),
    ensures
        open::open_offset(unit, levels, count, k) == change::inserted_before(
            open::open_edit(s, selection, side, unit, levels, count).changes,
            k,
        ),
    decreases k,
{
    if k > 0 {
        lemma_open_offset(s, selection, side, unit, levels, count, k - 1);
    }
}

proof fn lemma_copy_of_repeated(unit: Seq<char>, n: nat, j: int)
    requires
        0 <= j < n,
    ensures
        0 <= j * unit.len() <= (j + 1) * unit.len() <= strings::repeated(unit, n).len(),
        (j + 1) * unit.len() == j * unit.len() + unit.len(),
        strings::repeated(unit, n).subrange(j * unit.len(), (j + 1) * unit.len()) == unit,
    decreases n,
{
    let before = strings::repeated(unit, (n - 1) as nat);
    strings::lemma_bytes_repeated(unit, (n - 1) as nat);
    strings::lemma_bytes_repeated(unit, n);
    let len = unit.len() as int;
    assert((j + 1) * len == j * len + len && 0 <= j * len) by (nonlinear_arith)
        requires
            0 <= j,
            0 <= len,
    ;
    assert((n - 1) * len + len == n * len) by (nonlinear_arith);
    if j < n - 1 {
        lemma_copy_of_repeated(unit, (n - 1) as nat, j);
        assert(strings::repeated(unit, n).subrange(j * len, (j + 1) * len) =~= before.subrange(
            j * len,
            (j + 1) * len,
        ));
    } else {
        assert(before.len() == j * len) by (nonlinear_arith)
            requires
                before.len() == len * (n - 1),
                j == n - 1,
        ;
        assert(strings::repeated(unit, n).subrange(j * len, (j + 1) * len) =~= unit);
    }
}

/// A part of a part of a text is a part of the text.
proof fn lemma_part_of_part(
    text: Seq<char>,
    at: int,
    part: Seq<char>,
    start: int,
    inner: Seq<char>,
)
    requires
        0 <= at <= text.len() - part.len(),
        text.subrange(at, at + part.len()) == part,
        0 <= start <= part.len() - inner.len(),
        part.subrange(start, start + inner.len()) == inner,
    ensures
        text.subrange(at + start, at + start + inner.len()) == inner,
{
    assert(text.subrange(at + start, at + start + inner.len()) =~= text.subrange(
        at,
        at + part.len(),
    ).subrange(start, start + inner.len()));
}

/// The copies of a line that stand in a text one after the other.
proof fn lemma_copy_in_text(text: Seq<char>, at: int, line: Seq<char>, count: nat, j: int)
    requires
        0 <= j < count,
        0 <= at <= text.len() - strings::repeated(line, count).len(),
        text.subrange(at, at + strings::repeated(line, count).len()) == strings::repeated(
            line,
            count,
        ),
    ensures
        0 <= j * line.len(),
        at + j * line.len() + line.len() <= text.len(),
        text.subrange(at + j * line.len(), at + j * line.len() + line.len()) == line,
{
    let start = j * line.len();
    lemma_copy_of_repeated(line, count, j);
    lemma_part_of_part(text, at, strings::repeated(line, count), start, line);
}

/// After lines are opened, a cursor stands right behind the ending and the
/// indentation of each new line. Above the first line, and where a character of
/// the indentation takes more than a byte, it does not.
pub proof fn open_cursor_is_behind_the_indentation(
    cx: Context,
    side: Open,
    unit: Seq<char>,
    levels: Seq<usize>,
    count: usize,
    i: int,
    j: int,
)
    requires
        cx.wf(),
        cx.selection().separated(),
        strings::bytes(unit) == unit.len(),
        0 <= i < cx.selection().ranges.len(),
        0 <= j < count,
        open::open_line(cx.text(), side, cx.selection().ranges[i]) > 0,
        change::edited(
            cx.text(),
            open::open_edit(cx.text(), cx.selection(), side, unit, levels, count).changes,
        ).len() <= usize::MAX,
    ensures
        ({
            let s = cx.text();
            let ranges = cx.selection().ranges;
            let edit = open::open_edit(s, cx.selection(), side, unit, levels, count);
            let after = change::edited(s, edit.changes);
            let line = open::indented_line(unit, levels[i]);
            let cursors = open::line_cursors(
                open::open_pos(s, ranges, side, unit, levels, count, i),
                strings::bytes(strings::repeated(unit, levels[i] as nat)) as int,
                count as int,
            );
            let head = cursors[j].head as int;
            &&& line.len() <= head <= after.len()
            &&& after.subrange(head - line.len(), head) == line
        }),
{
    let s = cx.text();
    let selection = cx.selection();
    let ranges = selection.ranges;
    let edit = open::open_edit(s, selection, side, unit, levels, count);
    let after = change::edited(s, edit.changes);
    let line = open::indented_line(unit, levels[i]);
    let indent = strings::bytes(strings::repeated(unit, levels[i] as nat)) as int;
    let pos = open::open_pos(s, ranges, side, unit, levels, count, i);
    let at = edit.changes[i].from + change::inserted_before(edit.changes, i);
    opening_is_in_order(cx, side, unit, levels, count);
    lemma_open_offset(s, selection, side, unit, levels, count, i);
    change::lemma_inserted_at(s, edit.changes, i);
    assert(edit.changes[i].inserted() == strings::repeated(line, count as nat));
    lemma_copy_in_text(after, at, line, count as nat, j);
    assert(line.len() == 1 + indent) by {
        strings::lemma_bytes_repeated(unit, levels[i] as nat);
    }
    assert(pos == at + 1) by {
        text::lemma_line_start(s, 0);
    }
    let head = at + j * line.len() + line.len();
    assert(head == pos + j * (1 + indent) + indent) by (nonlinear_arith)
        requires
            head == at + j * line.len() + line.len(),
            line.len() == 1 + indent,
            pos == at + 1,
    ;
    assert(open::line_cursors(pos, indent, count as int)[j].head == head);
}

/// Lines are indented in order.
pub proof fn indenting_is_in_order(cx: Context, inserted: Seq<char>)
    ensures
        change::in_order(
            lines::indent_changes(
                cx.text(),
                lines::touched_lines(cx.text(), cx.selection().ranges),
                inserted,
            ),
            cx.text().len() as int,
        ),
{
    let s = cx.text();
    let touched = lines::touched_lines(s, cx.selection().ranges);
    let changes = lines::indent_changes(s, touched, inserted);
    lines::lemma_spanned_lines(s, cx.selection().ranges, false);
    assert forall|i: int| 0 <= i < changes.len() implies 0 <= (#[trigger] changes[i]).from
        <= changes[i].to <= s.len() by {
        assert(0 <= touched[i]);
        text::lemma_line_start(s, touched[i]);
    }
    assert forall|i: int, j: int| 0 <= i < j < changes.len() implies (#[trigger] changes[i]).to <= (
    #[trigger] changes[j]).from by {
        assert(touched[i] < touched[j]);
        text::lemma_line_starts_ordered(s, touched[i], touched[j]);
    }
}

proof fn lemma_unindent_stop(line: Seq<char>, tab_width: int, width: int, n: int)
    requires
        0 <= n <= line.len(),
    ensures
        n <= lines::unindent_stop(line, tab_width, width, n) <= line.len(),
    decreases line.len() - n,
{
    if n < line.len() && lines::is_blank(line[n]) && (n == 0 || lines::blank_width(
        line.take(n),
        tab_width,
    ) < width) {
        lemma_unindent_stop(line, tab_width, width, n + 1);
    }
}

proof fn lemma_unindent_in_order(
    s: Seq<char>,
    list: Seq<int>,
    tab_width: int,
    width: int,
    bound: int,
)
    requires
        forall|i: int| 0 <= i < list.len() ==> 0 <= (#[trigger] list[i]) < bound,
        forall|i: int, j: int|
            0 <= i < j < list.len() ==> (#[trigger] list[i]) < (#[trigger] list[j]),
        0 <= bound,
    ensures
        change::in_order(
            lines::unindent_changes(s, list, tab_width, width),
            text::line_start(s, bound),
        ),
    decreases list.len(),
{
    let changes = lines::unindent_changes(s, list, tab_width, width);
    text::lemma_line_start(s, bound);
    if list.len() > 0 {
        let last = list[list.len() - 1];
        let before = list.drop_last();
        assert forall|i: int| 0 <= i < before.len() implies 0 <= (#[trigger] before[i]) < last by {
            assert(list[i] < list[list.len() - 1]);
        }
        lemma_unindent_in_order(s, before, tab_width, width, last);
        text::lemma_line_start(s, last);
        text::lemma_line_starts_ordered(s, last, bound);
        text::lemma_line_starts_ordered(s, last, last + 1);
        text::lemma_line_starts_ordered(s, last + 1, bound);
        text::lemma_line_start(s, last + 1);
        let line = text::line_text(s, last);
        lemma_unindent_stop(line, tab_width, width, 0);
        let done = lines::unindent_changes(s, before, tab_width, width);
        assert forall|i: int| 0 <= i < changes.len() implies 0 <= (#[trigger] changes[i]).from
            <= changes[i].to <= text::line_start(s, bound) by {
            if i < done.len() {
                assert(changes[i] == done[i]);
            }
        }
        assert forall|i: int, j: int| 0 <= i < j < changes.len() implies (#[trigger] changes[i]).to
            <= (#[trigger] changes[j]).from by {
            assert(changes[i] == done[i]);
            if j < done.len() {
                assert(changes[j] == done[j]);
            }
        }
    }
}

/// Lines are unindented in order.
pub proof fn unindenting_is_in_order(cx: Context, tab_width: int, width: int)
    ensures
        change::in_order(
            lines::unindent_changes(
                cx.text(),
                lines::touched_lines(cx.text(), cx.selection().ranges),
                tab_width,
                width,
            ),
            cx.text().len() as int,
        ),
{
    let s = cx.text();
    let touched = lines::touched_lines(s, cx.selection().ranges);
    let n = text::line_count(s);
    text::lemma_line_of_monotone(s, 0, s.len() as int);
    text::lemma_line_start(s, n);
    lines::lemma_spanned_lines(s, cx.selection().ranges, false);
    assert forall|i: int| 0 <= i < touched.len() implies 0 <= (#[trigger] touched[i]) < n by {}
    assert forall|i: int, j: int| 0 <= i < j < touched.len() implies (#[trigger] touched[i]) < (
    #[trigger] touched[j]) by {}
    lemma_unindent_in_order(s, touched, tab_width, width, n);
}

/// Whether a unit of indentation is as wide as a tab: a tab itself, or that many
/// spaces.
pub open spec fn is_tab_wide(unit: Seq<char>, tab_width: nat) -> bool {
    unit == seq!['\t'] || unit == Seq::new(tab_width, |i: int| ' ')
}

proof fn lemma_blank_at(unit: Seq<char>, count: nat, i: int)
    requires
        forall|k: int| 0 <= k < unit.len() ==> #[trigger] unit[k] == unit[0],
        0 <= i < strings::repeated(unit, count).len(),
    ensures
        unit.len() > 0,
        strings::repeated(unit, count)[i] == unit[0],
    decreases count,
{
    let before = strings::repeated(unit, (count - 1) as nat);
    if i < before.len() {
        lemma_blank_at(unit, (count - 1) as nat, i);
    } else {
        assert(strings::repeated(unit, count)[i] == unit[i - before.len()]);
    }
}

proof fn lemma_width_of_spaces(blanks: Seq<char>, tab_width: int)
    requires
        forall|k: int| 0 <= k < blanks.len() ==> #[trigger] blanks[k] == ' ',
    ensures
        lines::blank_width(blanks, tab_width) == blanks.len(),
    decreases blanks.len(),
{
    if blanks.len() > 0 {
        lemma_width_of_spaces(blanks.drop_last(), tab_width);
    }
}

proof fn lemma_width_of_tabs(blanks: Seq<char>, tab_width: int)
    requires
        forall|k: int| 0 <= k < blanks.len() ==> #[trigger] blanks[k] == '\t',
        tab_width > 0,
    ensures
        lines::blank_width(blanks, tab_width) == blanks.len() * tab_width,
    decreases blanks.len(),
{
    if blanks.len() > 0 {
        let n = blanks.len() - 1;
        lemma_width_of_tabs(blanks.drop_last(), tab_width);
        assert(n * tab_width / tab_width == n) by (nonlinear_arith)
            requires
                tab_width > 0,
                n >= 0,
        ;
    } else {
        assert(0 * tab_width == 0);
    }
}

proof fn lemma_unindent_reaches(
    line: Seq<char>,
    unit: Seq<char>,
    count: nat,
    tab_width: nat,
    n: int,
)
    requires
        is_tab_wide(unit, tab_width),
        tab_width > 0,
        0 <= n <= strings::repeated(unit, count).len(),
        count > 0,
    ensures
        lines::unindent_stop(
            strings::repeated(unit, count) + line,
            tab_width as int,
            (count * tab_width) as int,
            n,
        ) == strings::repeated(unit, count).len(),
    decreases strings::repeated(unit, count).len() - n,
{
    let indent = strings::repeated(unit, count);
    let all = indent + line;
    let width = (count * tab_width) as int;
    strings::lemma_bytes_repeated(unit, count);
    assert(all.take(n) =~= indent.take(n));
    assert forall|k: int| 0 <= k < n implies #[trigger] all.take(n)[k] == unit[0] by {
        lemma_blank_at(unit, count, k);
    }
    if unit == seq!['\t'] {
        lemma_width_of_tabs(all.take(n), tab_width as int);
        assert(n < count ==> n * tab_width < width) by (nonlinear_arith)
            requires
                tab_width > 0,
                width == count * tab_width,
        ;
        assert(indent.len() == count) by (nonlinear_arith)
            requires
                indent.len() == unit.len() * count,
                unit.len() == 1,
        ;
    } else {
        lemma_width_of_spaces(all.take(n), tab_width as int);
        assert(indent.len() == width) by (nonlinear_arith)
            requires
                indent.len() == unit.len() * count,
                unit.len() == tab_width,
                width == count * tab_width,
        ;
    }
    if n < indent.len() {
        lemma_blank_at(unit, count, n);
        lemma_unindent_reaches(line, unit, count, tab_width, n + 1);
    } else {
        assert(width > 0) by (nonlinear_arith)
            requires
                tab_width > 0,
                count > 0,
                width == count * tab_width,
        ;
    }
}

/// Where a unit of indentation is as wide as a tab, unindenting a line takes from
/// it just what indenting it as often put in front.
pub proof fn unindenting_undoes_indenting(
    line: Seq<char>,
    unit: Seq<char>,
    count: nat,
    tab_width: nat,
)
    requires
        is_tab_wide(unit, tab_width),
        tab_width > 0,
        count > 0,
    ensures
        ({
            let indent = strings::repeated(unit, count);
            let taken = lines::unindented(indent + line, tab_width as int, (count * tab_width) as int);
            (indent + line).skip(taken) == line
        }),
{
    let indent = strings::repeated(unit, count);
    lemma_unindent_reaches(line, unit, count, tab_width, 0);
    assert((indent + line).skip(indent.len() as int) =~= line);
}

/// Whether a text is made up of blanks alone.
pub open spec fn is_blanks(blanks: Seq<char>) -> bool {
    forall|k: int| 0 <= k < blanks.len() ==> lines::is_blank(#[trigger] blanks[k])
}

/// A text with blanks put in front of one of its lines.
spec fn with_line_indented(s: Seq<char>, line: int, blanks: Seq<char>) -> Seq<char> {
    change::spliced(s, ChangeView::insert(text::line_start(s, line), blanks))
}

proof fn lemma_line_of_indented(s: Seq<char>, line: int, blanks: Seq<char>, q: int)
    requires
        0 <= line < text::line_count(s),
        is_blanks(blanks),
        0 <= q <= s.len() + blanks.len(),
    ensures
        ({
            let p = text::line_start(s, line);
            text::line_of(with_line_indented(s, line, blanks), q) == text::line_of(
                s,
                if q <= p {
                    q
                } else if q <= p + blanks.len() {
                    p
                } else {
                    q - blanks.len()
                },
            )
        }),
    decreases q,
{
    let p = text::line_start(s, line);
    let n = blanks.len() as int;
    let t = with_line_indented(s, line, blanks);
    text::lemma_line_start(s, line);
    if q > 0 {
        lemma_line_of_indented(s, line, blanks, q - 1);
        if q < p {
            assert(t[q - 1] == s[q - 1] && t[q] == s[q]);
        } else if q == p {
            assert(t[q - 1] == s[q - 1]);
            assert(text::line_of(s, p - 1) < line);
            if n > 0 {
                assert(t[q] == blanks[0]);
            } else {
                assert(t =~= s);
            }
        } else if q <= p + n {
            assert(t[q - 1] == blanks[q - 1 - p]);
        } else {
            assert(t[q - 1] == s[q - 1 - n]);
            if q < t.len() {
                assert(t[q] == s[q - n]);
            }
        }
    }
}

/// There is one place where a line starts.
proof fn lemma_line_starts_here(s: Seq<char>, line: int, x: int)
    requires
        0 <= line < text::line_count(s),
        0 <= x <= s.len(),
        text::line_of(s, x) == line,
        forall|q: int| 0 <= q < x ==> text::line_of(s, q) < line,
    ensures
        text::line_start(s, line) == x,
{
    text::lemma_line_start(s, line);
    let y = text::line_start(s, line);
    if y < x {
        assert(text::line_of(s, y) < line);
    }
    if x < y {
        assert(text::line_of(s, x) < line);
    }
}

/// Blanks in front of a line leave the lines as they are, but that those after it
/// start so much later.
proof fn lemma_lines_of_indented(s: Seq<char>, line: int, blanks: Seq<char>, k: int)
    requires
        0 <= line < text::line_count(s),
        is_blanks(blanks),
        0 <= k,
    ensures
        text::line_count(with_line_indented(s, line, blanks)) == text::line_count(s),
        text::line_start(with_line_indented(s, line, blanks), k) == text::line_start(s, k) + if k
            <= line {
            0int
        } else {
            blanks.len() as int
        },
{
    let p = text::line_start(s, line);
    let n = blanks.len() as int;
    let t = with_line_indented(s, line, blanks);
    text::lemma_line_start(s, line);
    text::lemma_line_start(s, k);
    text::lemma_line_start(t, k);
    assert(t.len() == s.len() + n);
    lemma_line_of_indented(s, line, blanks, t.len() as int);
    if p == s.len() {
        assert(text::line_of(t, t.len() as int) == text::line_of(s, s.len() as int));
    }
    let x = text::line_start(s, k);
    if k < text::line_count(s) {
        if k <= line {
            text::lemma_line_starts_ordered(s, k, line);
            lemma_line_of_indented(s, line, blanks, x);
            assert forall|q: int| 0 <= q < x implies text::line_of(t, q) < k by {
                lemma_line_of_indented(s, line, blanks, q);
                assert(text::line_of(s, q) < k);
            }
            lemma_line_starts_here(t, k, x);
        } else {
            text::lemma_line_starts_ordered(s, line, k);
            lemma_line_of_indented(s, line, blanks, x + n);
            assert forall|q: int| 0 <= q < x + n implies text::line_of(t, q) < k by {
                lemma_line_of_indented(s, line, blanks, q);
                if q > p + n {
                    assert(text::line_of(s, q - n) < k);
                } else if q <= p {
                    text::lemma_line_of_monotone(s, q, p);
                }
            }
            lemma_line_starts_here(t, k, x + n);
        }
    }
}

/// The lines of a list are lines of the text, in order.
spec fn are_lines(s: Seq<char>, list: Seq<int>) -> bool {
    &&& forall|i: int| 0 <= i < list.len() ==> 0 <= (#[trigger] list[i]) < text::line_count(s)
    &&& forall|i: int, j: int|
        0 <= i < j < list.len() ==> (#[trigger] list[i]) < (#[trigger] list[j])
}

spec fn indented_text(s: Seq<char>, list: Seq<int>, blanks: Seq<char>) -> Seq<char> {
    change::edited(s, lines::indent_changes(s, list, blanks))
}

proof fn lemma_are_lines_before(s: Seq<char>, list: Seq<int>)
    requires
        are_lines(s, list),
        list.len() > 0,
    ensures
        are_lines(s, list.drop_last()),
        forall|i: int| 0 <= i < list.len() - 1 ==> (#[trigger] list.drop_last()[i]) < list.last(),
{
    let before = list.drop_last();
    assert forall|i: int| 0 <= i < before.len() implies 0 <= (#[trigger] before[i])
        < text::line_count(s) by {
        assert(before[i] == list[i]);
    }
    assert forall|i: int, j: int| 0 <= i < j < before.len() implies (#[trigger] before[i]) < (
    #[trigger] before[j]) by {
        assert(list[i] < list[j]);
    }
    assert forall|i: int| 0 <= i < before.len() implies (#[trigger] before[i]) < list.last() by {
        assert(list[i] < list[list.len() - 1]);
    }
}

proof fn lemma_indenting_in_order(s: Seq<char>, list: Seq<int>, blanks: Seq<char>)
    requires
        are_lines(s, list),
    ensures
        change::in_order(lines::indent_changes(s, list, blanks), s.len() as int),
        change::only_inserts(lines::indent_changes(s, list, blanks)),
{
    let changes = lines::indent_changes(s, list, blanks);
    assert forall|i: int| 0 <= i < changes.len() implies 0 <= (#[trigger] changes[i]).from
        <= changes[i].to <= s.len() by {
        assert(0 <= list[i]);
        text::lemma_line_start(s, list[i]);
    }
    assert forall|i: int, j: int| 0 <= i < j < changes.len() implies (#[trigger] changes[i]).to <= (
    #[trigger] changes[j]).from by {
        assert(list[i] < list[j]);
        text::lemma_line_starts_ordered(s, list[i], list[j]);
    }
}

/// Indenting lines is indenting all but the last, and then the last.
proof fn lemma_indented_last(s: Seq<char>, list: Seq<int>, blanks: Seq<char>, k: int)
    requires
        are_lines(s, list),
        is_blanks(blanks),
        0 <= k,
        forall|i: int| 0 <= i < list.len() ==> (#[trigger] list[i]) < k,
    ensures
        text::line_count(indented_text(s, list, blanks)) == text::line_count(s),
        text::line_start(indented_text(s, list, blanks), k) == text::line_start(s, k) + list.len()
            * blanks.len(),
        list.len() > 0 ==> indented_text(s, list, blanks) == with_line_indented(
            indented_text(s, list.drop_last(), blanks),
            list.last(),
            blanks,
        ),
    decreases list.len(),
{
    let changes = lines::indent_changes(s, list, blanks);
    let n = blanks.len() as int;
    if list.len() > 0 {
        let last = list.last();
        let before = list.drop_last();
        let early = lines::indent_changes(s, before, blanks);
        let p = text::line_start(s, last);
        let earlier = indented_text(s, before, blanks);
        lemma_are_lines_before(s, list);
        assert(last == list[list.len() - 1]);
        lemma_indented_last(s, before, blanks, last);
        lemma_indented_last(s, before, blanks, k);
        lemma_indenting_in_order(s, list, blanks);
        lemma_indenting_in_order(s, before, blanks);
        assert(changes.drop_last() =~= early);
        assert(changes.last() == ChangeView::insert(p, blanks));
        text::lemma_line_start(s, last);
        change::lemma_edited_last(s, changes);
        let left = change::edited(s.take(p), early);
        assert(s =~= s.take(p) + s.skip(p));
        change::lemma_edited_apart(s.take(p), s.skip(p), early);
        assert(earlier == left + s.skip(p));
        change::lemma_inserted_at(s, early, early.len() as int);
        lemma_inserted_alike(s, before, blanks, early.len() as int);
        assert(left.len() == p + before.len() * n);
        assert(with_line_indented(earlier, last, blanks) =~= indented_text(s, list, blanks));
        lemma_lines_of_indented(earlier, last, blanks, k);
        assert(before.len() * n + n == list.len() * n) by (nonlinear_arith)
            requires
                list.len() == before.len() + 1,
        ;
    } else {
        assert(changes =~= Seq::empty());
        assert(list.len() * n == 0) by (nonlinear_arith)
            requires
                list.len() == 0,
        ;
    }
}

proof fn lemma_inserted_alike(s: Seq<char>, list: Seq<int>, blanks: Seq<char>, k: int)
    requires
        0 <= k <= list.len(),
    ensures
        change::inserted_before(lines::indent_changes(s, list, blanks), k) == k * blanks.len(),
    decreases k,
{
    if k > 0 {
        lemma_inserted_alike(s, list, blanks, k - 1);
        assert((k - 1) * blanks.len() + blanks.len() == k * blanks.len()) by (nonlinear_arith);
    } else {
        assert(0 * blanks.len() == 0);
    }
}

/// Unindenting lines before one that is indented is as if it were not.
proof fn lemma_unindent_before(
    s: Seq<char>,
    line: int,
    blanks: Seq<char>,
    list: Seq<int>,
    tab_width: int,
    width: int,
)
    requires
        0 <= line < text::line_count(s),
        is_blanks(blanks),
        forall|i: int| 0 <= i < list.len() ==> 0 <= (#[trigger] list[i]) < line,
    ensures
        lines::unindent_changes(with_line_indented(s, line, blanks), list, tab_width, width)
            == lines::unindent_changes(s, list, tab_width, width),
    decreases list.len(),
{
    let t = with_line_indented(s, line, blanks);
    if list.len() > 0 {
        let last = list[list.len() - 1];
        let before = list.drop_last();
        assert forall|i: int| 0 <= i < before.len() implies 0 <= (#[trigger] before[i]) < line by {
            assert(before[i] == list[i]);
        }
        lemma_unindent_before(s, line, blanks, before, tab_width, width);
        lemma_lines_of_indented(s, line, blanks, last);
        lemma_lines_of_indented(s, line, blanks, last + 1);
        text::lemma_line_start(s, last);
        text::lemma_line_start(s, line);
        text::lemma_line_starts_ordered(s, last, last + 1);
        text::lemma_line_starts_ordered(s, last + 1, line);
        assert(text::line_text(t, last) =~= text::line_text(s, last));
    }
}

proof fn lemma_unindented_again(
    s: Seq<char>,
    list: Seq<int>,
    unit: Seq<char>,
    count: nat,
    tab_width: nat,
)
    requires
        are_lines(s, list),
        is_tab_wide(unit, tab_width),
        tab_width > 0,
        count > 0,
    ensures
        ({
            let t = indented_text(s, list, strings::repeated(unit, count));
            let width = (count * tab_width) as int;
            change::edited(t, lines::unindent_changes(t, list, tab_width as int, width)) == s
        }),
    decreases list.len(),
{
    let blanks = strings::repeated(unit, count);
    let width = (count * tab_width) as int;
    let t = indented_text(s, list, blanks);
    let changes = lines::unindent_changes(t, list, tab_width as int, width);
    assert(is_blanks(blanks)) by {
        assert forall|k: int| 0 <= k < blanks.len() implies lines::is_blank(
            #[trigger] blanks[k],
        ) by {
            lemma_blank_at(unit, count, k);
        }
    }
    if list.len() > 0 {
        let last = list[list.len() - 1];
        let before = list.drop_last();
        let u = indented_text(s, before, blanks);
        lemma_are_lines_before(s, list);
        lemma_indented_last(s, list, blanks, last + 1);
        lemma_indented_last(s, before, blanks, last);
        assert(t == with_line_indented(u, last, blanks));
        lemma_unindented_again(s, before, unit, count, tab_width);
        lemma_unindent_before(u, last, blanks, before, tab_width as int, width);
        lemma_lines_of_indented(u, last, blanks, last);
        lemma_lines_of_indented(u, last, blanks, last + 1);
        text::lemma_line_start(u, last);
        text::lemma_line_start(u, last + 1);
        text::lemma_line_starts_ordered(u, last, last + 1);
        let start = text::line_start(u, last);
        let line = text::line_text(u, last);
        assert(text::line_text(t, last) =~= blanks + line);
        lemma_unindent_reaches(line, unit, count, tab_width, 0);
        strings::lemma_bytes_repeated(unit, count);
        assert(blanks.len() > 0) by (nonlinear_arith)
            requires
                blanks.len() == unit.len() * count,
                unit.len() > 0,
                count > 0,
        ;
        assert(changes.last() == ChangeView {
            from: start,
            to: start + blanks.len(),
            text: None,
        });
        assert(changes.drop_last() =~= lines::unindent_changes(
            u,
            before,
            tab_width as int,
            width,
        ));
        assert(change::spliced(t, changes.last()) =~= u);
    } else {
        assert(lines::indent_changes(s, list, blanks) =~= Seq::empty());
    }
}

/// How much the changes put in before `pos`, or with `at` also at it.
pub open spec fn put_in(changes: Seq<ChangeView>, pos: int, at: bool) -> int
    decreases changes.len(),
{
    if changes.len() == 0 {
        0
    } else {
        put_in(changes.drop_last(), pos, at) + if changes.last().from < pos || at
            && changes.last().from == pos {
            changes.last().inserted().len() as int
        } else {
            0int
        }
    }
}

/// Whether changes that only put text in may carry a position along to `to`:
/// behind all that is put in before it, and to either side of what is put in at
/// it.
pub open spec fn carried(changes: Seq<ChangeView>, pos: int, to: int) -> bool {
    pos + put_in(changes, pos, false) <= to <= pos + put_in(changes, pos, true)
}

/// Whether the changes may carry the ranges along to `to`.
pub open spec fn ranges_carried(changes: Seq<ChangeView>, ranges: Seq<Range>, to: Seq<Range>) -> bool {
    &&& to.len() == ranges.len()
    &&& forall|i: int|
        0 <= i < ranges.len() ==> carried(
            changes,
            (#[trigger] ranges[i]).anchor as int,
            to[i].anchor as int,
        ) && carried(changes, ranges[i].head as int, to[i].head as int)
}

proof fn lemma_put_in(s: Seq<char>, list: Seq<int>, blanks: Seq<char>, pos: int)
    ensures
        ({
            let changes = lines::indent_changes(s, list, blanks);
            let all = list.len() * blanks.len();
            &&& 0 <= put_in(changes, pos, false) <= put_in(changes, pos, true) <= all
            &&& (forall|i: int|
                0 <= i < list.len() ==> text::line_start(s, #[trigger] list[i]) < pos)
                ==> put_in(changes, pos, false) == all
        }),
    decreases list.len(),
{
    let changes = lines::indent_changes(s, list, blanks);
    let n = blanks.len() as int;
    if list.len() > 0 {
        let before = list.drop_last();
        lemma_put_in(s, before, blanks, pos);
        assert(changes.drop_last() =~= lines::indent_changes(s, before, blanks));
        assert(changes.last() == ChangeView::insert(
            text::line_start(s, list[list.len() - 1]),
            blanks,
        ));
        assert(before.len() * n + n == list.len() * n) by (nonlinear_arith)
            requires
                list.len() == before.len() + 1,
        ;
        if forall|i: int| 0 <= i < list.len() ==> text::line_start(s, #[trigger] list[i]) < pos {
            assert forall|i: int| 0 <= i < before.len() implies text::line_start(
                s,
                #[trigger] before[i],
            ) < pos by {
                assert(before[i] == list[i]);
            }
        }
    } else {
        assert(list.len() * n == 0) by (nonlinear_arith)
            requires
                list.len() == 0,
        ;
    }
}

/// A position that is carried along by indenting stays on its line.
proof fn lemma_line_of_carried(s: Seq<char>, list: Seq<int>, blanks: Seq<char>, pos: int, to: int)
    requires
        are_lines(s, list),
        is_blanks(blanks),
        0 <= pos <= s.len(),
        carried(lines::indent_changes(s, list, blanks), pos, to),
    ensures
        text::line_of(indented_text(s, list, blanks), to) == text::line_of(s, pos),
        0 <= to <= indented_text(s, list, blanks).len(),
    decreases list.len(),
{
    let changes = lines::indent_changes(s, list, blanks);
    let n = blanks.len() as int;
    if list.len() > 0 {
        let last = list[list.len() - 1];
        let before = list.drop_last();
        let early = lines::indent_changes(s, before, blanks);
        let u = indented_text(s, before, blanks);
        let start = text::line_start(s, last);
        let all = before.len() * n;
        lemma_are_lines_before(s, list);
        lemma_indented_last(s, list, blanks, last + 1);
        lemma_indented_last(s, before, blanks, last);
        lemma_indented_last(s, before, blanks, text::line_count(s));
        text::lemma_line_start(s, text::line_count(s));
        text::lemma_line_start(u, text::line_count(s));
        assert(u.len() == s.len() + all);
        assert(changes.drop_last() =~= early);
        assert(changes.last() == ChangeView::insert(start, blanks));
        text::lemma_line_start(s, last);
        text::lemma_line_start(u, last);
        assert(text::line_start(u, last) == start + all);
        lemma_put_in(s, before, blanks, pos);
        if pos >= start {
            assert forall|i: int| 0 <= i < before.len() implies text::line_start(
                s,
                #[trigger] before[i],
            ) < pos by {
                assert(before[i] < last);
                text::lemma_line_starts_ordered(s, before[i], last);
            }
        }
        if pos < start {
            lemma_line_of_carried(s, before, blanks, pos, to);
        } else if pos > start {
            lemma_line_of_carried(s, before, blanks, pos, to - n);
        }
        lemma_line_of_indented(u, last, blanks, to);
    } else {
        assert(changes =~= Seq::empty());
    }
}

/// Ranges that are carried along by indenting touch the same lines.
proof fn lemma_touched_carried(
    s: Seq<char>,
    list: Seq<int>,
    blanks: Seq<char>,
    ranges: Seq<Range>,
    to: Seq<Range>,
)
    requires
        are_lines(s, list),
        is_blanks(blanks),
        forall|i: int| 0 <= i < ranges.len() ==> (#[trigger] ranges[i]).within(s.len() as int),
        ranges_carried(lines::indent_changes(s, list, blanks), ranges, to),
    ensures
        lines::touched_lines(indented_text(s, list, blanks), to) == lines::touched_lines(s, ranges),
{
    let t = indented_text(s, list, blanks);
    text::lemma_line_of_monotone(s, 0, s.len() as int);
    lemma_indented_last(s, list, blanks, text::line_count(s));
    assert forall|i: int, line: int| 0 <= i < ranges.len() implies #[trigger] lines::spans(
        t,
        to[i],
        false,
        line,
    ) == lines::spans(s, ranges[i], false, line) by {
        let range = ranges[i];
        let later = to[i];
        lemma_line_of_carried(s, list, blanks, range.anchor as int, later.anchor as int);
        lemma_line_of_carried(s, list, blanks, range.head as int, later.head as int);
        text::lemma_line_of_monotone(s, range.low() as int, range.high() as int);
        text::lemma_line_of_monotone(t, later.low() as int, later.high() as int);
    }
    assert forall|line: int| lines::spanned(t, to, false, line) == lines::spanned(
        s,
        ranges,
        false,
        line,
    ) by {
        if lines::spanned(s, ranges, false, line) {
            let i = choose|i: int|
                0 <= i < ranges.len() && lines::spans(s, #[trigger] ranges[i], false, line);
            assert(lines::spans(t, to[i], false, line));
        }
        if lines::spanned(t, to, false, line) {
            let i = choose|i: int|
                0 <= i < to.len() && lines::spans(t, #[trigger] to[i], false, line);
            assert(lines::spans(s, ranges[i], false, line));
        }
    }
    assert((|line: int| lines::spanned(t, to, false, line)) =~= (|line: int|
        lines::spanned(s, ranges, false, line)));
}

/// Where a unit of indentation is as wide as a tab, unindenting what was just
/// indented, as often, gives the text back, with the ranges as the edit may carry
/// them along.
pub proof fn unindenting_gives_the_text_back(
    s: Seq<char>,
    ranges: Seq<Range>,
    later: Seq<Range>,
    unit: Seq<char>,
    count: nat,
    tab_width: nat,
)
    requires
        is_tab_wide(unit, tab_width),
        tab_width > 0,
        count > 0,
        forall|i: int| 0 <= i < ranges.len() ==> (#[trigger] ranges[i]).within(s.len() as int),
        ranges_carried(
            lines::indent_changes(
                s,
                lines::touched_lines(s, ranges),
                strings::repeated(unit, count),
            ),
            ranges,
            later,
        ),
    ensures
        ({
            let touched = lines::touched_lines(s, ranges);
            let indent = strings::repeated(unit, count);
            let indented = change::edited(s, lines::indent_changes(s, touched, indent));
            let width = (count * tab_width) as int;
            change::edited(
                indented,
                lines::unindent_changes(
                    indented,
                    lines::touched_lines(indented, later),
                    tab_width as int,
                    width,
                ),
            ) == s
        }),
{
    lines::lemma_spanned_lines(s, ranges, false);
    let touched = lines::touched_lines(s, ranges);
    let indent = strings::repeated(unit, count);
    assert forall|i: int| 0 <= i < touched.len() implies 0 <= (#[trigger] touched[i])
        < text::line_count(s) by {}
    assert forall|i: int, j: int| 0 <= i < j < touched.len() implies (#[trigger] touched[i]) < (
    #[trigger] touched[j]) by {}
    assert forall|k: int| 0 <= k < indent.len() implies lines::is_blank(#[trigger] indent[k]) by {
        lemma_blank_at(unit, count, k);
    }
    lemma_touched_carried(s, touched, indent, ranges, later);
    lemma_unindented_again(s, touched, unit, count, tab_width);
}

proof fn lemma_after_blanks(s: Seq<char>, pos: int, stop: int)
    requires
        0 <= pos <= stop < s.len(),
        !lines::is_blank(s[stop]),
    ensures
        lines::after_blanks(s, pos) matches Some(end) && pos <= end <= stop,
    decreases stop - pos,
{
    if lines::is_blank(s[pos]) {
        lemma_after_blanks(s, pos + 1, stop);
    }
}

proof fn lemma_after_blanks_inside(s: Seq<char>, pos: int)
    requires
        0 <= pos <= s.len(),
    ensures
        lines::after_blanks(s, pos) matches Some(end) ==> pos <= end < s.len(),
    decreases s.len() - pos,
{
    if pos < s.len() && lines::is_blank(s[pos]) {
        lemma_after_blanks_inside(s, pos + 1);
    }
}

/// The character before the start of a line ends the line before.
proof fn lemma_line_ending(s: Seq<char>, line: int)
    requires
        0 < line < text::line_count(s),
    ensures
        0 < text::line_start(s, line),
        !lines::is_blank(s[text::line_start(s, line) - 1]),
{
    text::lemma_line_start(s, line);
    text::lemma_line_start(s, 0);
    let start = text::line_start(s, line);
    assert(start > 0) by {
        if start == 0 {
            assert(text::line_of(s, 0) == 0);
        }
    }
    assert(text::line_of(s, start - 1) < line);
    assert(text::line_of(s, start) == line);
}

proof fn lemma_join_change(s: Seq<char>, line: int, later: int)
    requires
        s.len() > 0,
        0 <= line < later < text::line_count(s),
    ensures
        0 <= lines::join_change(s, line).from < lines::join_change(s, line).to,
        lines::join_change(s, line).from == lines::join_change(s, later).from
            || lines::join_change(s, line).to <= lines::join_change(s, later).from,
{
    let next = text::line_start(s, line + 1);
    lemma_line_ending(s, line + 1);
    text::lemma_line_start(s, line + 1);
    text::lemma_line_start(s, later + 1);
    text::lemma_line_starts_ordered(s, line + 1, later + 1);
    lemma_after_blanks_inside(s, next);
    let stop = text::line_start(s, later + 1) - 1;
    if later + 1 < text::line_count(s) {
        lemma_line_ending(s, later + 1);
        text::lemma_line_starts_ordered(s, line + 1, later + 1);
        assert(next <= stop);
        lemma_after_blanks(s, next, stop);
    }
}

pub(crate) proof fn lemma_join_in_order(s: Seq<char>, list: Seq<int>)
    requires
        s.len() > 0,
        forall|i: int| 0 <= i < list.len() ==> 0 <= (#[trigger] list[i]) < text::line_count(s),
        forall|i: int, j: int|
            0 <= i < j < list.len() ==> (#[trigger] list[i]) < (#[trigger] list[j]),
    ensures
        change::in_order(lines::join_changes(s, list), s.len() as int),
        list.len() > 0 ==> {
            let changes = lines::join_changes(s, list);
            &&& changes.len() > 0
            &&& changes.last().from == lines::join_change(s, list.last()).from
            &&& exists|k: int|
                0 <= k < list.len() && changes.last() == lines::join_change(s, #[trigger] list[k])
        },
    decreases list.len(),
{
    let changes = lines::join_changes(s, list);
    if list.len() > 0 {
        let n = list.len() - 1;
        let last = list[n];
        let before = list.drop_last();
        assert forall|i: int| 0 <= i < before.len() implies 0 <= (#[trigger] before[i])
            < text::line_count(s) by {
            assert(before[i] == list[i]);
        }
        assert forall|i: int, j: int| 0 <= i < j < before.len() implies (#[trigger] before[i]) < (
        #[trigger] before[j]) by {
            assert(list[i] < list[j]);
        }
        lemma_join_in_order(s, before);
        let done = lines::join_changes(s, before);
        let change = lines::join_change(s, last);
        text::lemma_line_start(s, last + 1);
        let start = change.from;
        assert(0 <= start < s.len()) by {
            if text::line_start(s, last + 1) == 0 {
                text::lemma_line_start(s, 0);
            }
        }
        lemma_after_blanks_inside(s, start + 1);
        assert(0 <= change.from <= change.to <= s.len());
        if done.len() > 0 {
            assert(before.len() > 0);
            let k = choose|k: int|
                0 <= k < before.len() && done.last() == lines::join_change(s, #[trigger] before[k]);
            assert(before[k] == list[k]);
            lemma_join_change(s, list[k], last);
            if done.last().from == change.from {
                assert(changes == done);
                assert(changes.last() == lines::join_change(s, list[k]));
            } else {
                assert(changes == done.push(change));
                assert forall|i: int| 0 <= i < changes.len() implies 0 <= (
                #[trigger] changes[i]).from <= changes[i].to <= s.len() by {
                    if i < done.len() {
                        assert(changes[i] == done[i]);
                    }
                }
                assert forall|i: int, j: int| 0 <= i < j < changes.len() implies (
                #[trigger] changes[i]).to <= (#[trigger] changes[j]).from by {
                    assert(changes[i] == done[i]);
                    if j < done.len() {
                        assert(changes[j] == done[j]);
                    } else if i < done.len() - 1 {
                        assert(done[i].to <= done[done.len() - 1].from);
                    }
                }
                assert(changes.last() == lines::join_change(s, list[n]));
            }
        } else {
            assert(changes =~= seq![change]);
            assert(changes.last() == lines::join_change(s, list[n]));
        }
    }
}

/// Lines are joined in order, and no two changes touch the same characters.
pub proof fn joining_is_in_order(cx: Context)
    requires
        cx.text().len() > 0,
    ensures
        change::in_order(
            lines::join_changes(
                cx.text(),
                lines::spanned_lines(cx.text(), cx.selection().ranges, true),
            ),
            cx.text().len() as int,
        ),
{
    let s = cx.text();
    let list = lines::spanned_lines(s, cx.selection().ranges, true);
    lines::lemma_spanned_lines(s, cx.selection().ranges, true);
    assert forall|i: int| 0 <= i < list.len() implies 0 <= (#[trigger] list[i]) < text::line_count(
        s,
    ) by {}
    assert forall|i: int, j: int| 0 <= i < j < list.len() implies (#[trigger] list[i]) < (
    #[trigger] list[j]) by {}
    lemma_join_in_order(s, list);
}

} // verus!
