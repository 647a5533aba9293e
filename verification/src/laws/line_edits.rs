//! What commands on lines make of the text, told character by character.

use crate::change::{self, ChangeView, Transaction};
use crate::command::Command;
use crate::editor::{Context, Direction, EffectView, Mode, Movement, Position, Window};
use crate::execute::Outside;
use crate::insert;
use crate::laws::edits::first_makes;
use crate::laws::remade::{added, remade, retold};
use crate::laws::remade;
use crate::line_laws;
use crate::lines;
use crate::lsp::{LspPosition, OffsetEncoding};
use crate::open::{self, Open};
use crate::selection::{Range, Selection};
use crate::strings;
use crate::text;
use ropey::Rope;
use vstd::prelude::*;

verus! {

/// The line on which a range starts.
pub open spec fn top(s: Seq<char>, range: Range) -> int {
    text::line_of(
        s,
        if range.anchor <= range.head {
            range.anchor as int
        } else {
            range.head as int
        },
    )
}

/// The line on which a range ends.
pub open spec fn bottom(s: Seq<char>, range: Range) -> int {
    text::line_of(
        s,
        if range.anchor <= range.head {
            range.head as int
        } else {
            range.anchor as int
        },
    )
}

/// Whether a range lies on line `line`, wholly or in part.
pub open spec fn touched(cx: Context, line: int) -> bool {
    exists|i: int|
        0 <= i < cx.selection().ranges.len() && top(cx.text(), #[trigger] cx.selection().ranges[i])
            <= line <= bottom(cx.text(), cx.selection().ranges[i])
}

/// Whether a line is to be joined to the next: a range goes on to the next line,
/// or lies on this one alone.
pub open spec fn joined_on(cx: Context, line: int) -> bool {
    exists|i: int|
        0 <= i < cx.selection().ranges.len() && top(cx.text(), #[trigger] cx.selection().ranges[i])
            <= line && (line < bottom(cx.text(), cx.selection().ranges[i]) || top(
            cx.text(),
            cx.selection().ranges[i],
        ) == line == bottom(cx.text(), cx.selection().ranges[i]))
}

/// Whether a line starts at `pos`.
pub open spec fn starts_line(s: Seq<char>, pos: int) -> bool {
    pos == 0 || text::line_of(s, pos - 1) < text::line_of(s, pos)
}

/// Whether the character at `pos` is the last of its line.
pub open spec fn last_of_line(s: Seq<char>, pos: int) -> bool {
    pos + 1 == s.len() || text::line_of(s, pos) < text::line_of(s, pos + 1)
}

/// Where a line ends: where its ending is, or at the end of the text.
pub open spec fn ending(s: Seq<char>, line: int) -> int {
    if line + 1 < text::line_count(s) {
        text::line_start(s, line + 1) - 1
    } else {
        s.len() as int
    }
}

proof fn lemma_kept(keep: spec_fn(int) -> bool, n: int, x: int)
    ensures
        lines::kept_below(keep, n).contains(x) <==> 0 <= x < n && keep(x),
    decreases n,
{
    let kept = lines::kept_below(keep, n);
    if n > 0 {
        let before = lines::kept_below(keep, n - 1);
        lemma_kept(keep, n - 1, x);
        if before.contains(x) {
            let i = choose|i: int| 0 <= i < before.len() && before[i] == x;
            assert(kept[i] == x);
        }
        if keep(n - 1) {
            assert(kept[kept.len() - 1] == n - 1);
        }
        if kept.contains(x) {
            let i = choose|i: int| 0 <= i < kept.len() && kept[i] == x;
            if i < before.len() {
                assert(before[i] == x);
            }
        }
    }
}

proof fn lemma_touched(cx: Context, line: int)
    ensures
        lines::touched_lines(cx.text(), cx.selection().ranges).contains(line) <==> 0 <= line
            < text::line_count(cx.text()) && touched(cx, line),
        lines::spanned_lines(cx.text(), cx.selection().ranges, true).contains(line) <==> 0 <= line
            < text::line_count(cx.text()) && joined_on(cx, line),
{
    let s = cx.text();
    let ranges = cx.selection().ranges;
    lemma_kept(|l: int| lines::spanned(s, ranges, false, l), text::line_count(s), line);
    lemma_kept(|l: int| lines::spanned(s, ranges, true, l), text::line_count(s), line);
    if touched(cx, line) {
        let i = choose|i: int|
            0 <= i < ranges.len() && top(s, #[trigger] ranges[i]) <= line <= bottom(s, ranges[i]);
        assert(lines::spans(s, ranges[i], false, line));
    }
    if lines::spanned(s, ranges, false, line) {
        let i = choose|i: int|
            0 <= i < ranges.len() && lines::spans(s, #[trigger] ranges[i], false, line);
        assert(top(s, ranges[i]) <= line <= bottom(s, ranges[i]));
    }
    if joined_on(cx, line) {
        let i = choose|i: int|
            0 <= i < ranges.len() && top(s, #[trigger] ranges[i]) <= line && (line < bottom(
                s,
                ranges[i],
            ) || top(s, ranges[i]) == line == bottom(s, ranges[i]));
        assert(lines::spans(s, ranges[i], true, line));
    }
    if lines::spanned(s, ranges, true, line) {
        let i = choose|i: int|
            0 <= i < ranges.len() && lines::spans(s, #[trigger] ranges[i], true, line);
        assert(top(s, ranges[i]) <= line);
    }
}

pub(crate) proof fn lemma_starts_line(s: Seq<char>, pos: int)
    requires
        0 <= pos <= s.len(),
    ensures
        0 <= text::line_of(s, pos) < text::line_count(s),
        starts_line(s, pos) <==> text::line_start(s, text::line_of(s, pos)) == pos,
{
    let line = text::line_of(s, pos);
    text::lemma_line_of_position(s, pos);
    text::lemma_line_start(s, line);
    let start = text::line_start(s, line);
    if starts_line(s, pos) && start < pos {
        text::lemma_line_of_monotone(s, start, pos - 1);
    }
    if start == pos && pos > 0 {
        assert(text::line_of(s, pos - 1) < line);
    }
}

proof fn lemma_line_start_starts(s: Seq<char>, line: int)
    requires
        0 <= line < text::line_count(s),
    ensures
        0 <= text::line_start(s, line) <= s.len(),
        text::line_of(s, text::line_start(s, line)) == line,
        starts_line(s, text::line_start(s, line)),
{
    text::lemma_line_start(s, line);
    lemma_starts_line(s, text::line_start(s, line));
}

/// Indenting puts text in at the start of every line that a range touches, and
/// nowhere else.
pub proof fn indentation_goes_in_where_touched_lines_start(cx: Context, inserted: Seq<char>)
    ensures
        change::edited(
            cx.text(),
            lines::indent_changes(
                cx.text(),
                lines::touched_lines(cx.text(), cx.selection().ranges),
                inserted,
            ),
        ) == retold(
            cx.text(),
            |pos: int|
                if starts_line(cx.text(), pos) && touched(cx, text::line_of(cx.text(), pos)) {
                    inserted
                } else {
                    Seq::empty()
                },
            |pos: int| false,
        ),
{
    let s = cx.text();
    let list = lines::touched_lines(s, cx.selection().ranges);
    let changes = lines::indent_changes(s, list, inserted);
    let put = |pos: int|
        if starts_line(s, pos) && touched(cx, text::line_of(s, pos)) {
            inserted
        } else {
            Seq::empty()
        };
    let gone = |pos: int| false;
    line_laws::indenting_is_in_order(cx, inserted);
    lines::lemma_spanned_lines(s, cx.selection().ranges, false);
    assert forall|i: int, j: int| 0 <= i < j < changes.len() implies (#[trigger] changes[i]).from
        < (#[trigger] changes[j]).from by {
        assert(list[i] < list[j]);
        text::lemma_line_starts_ordered(s, list[i], list[j]);
    }
    assert forall|i: int| 0 <= i < changes.len() implies (#[trigger] changes[i]).inserted() == put(
        changes[i].from,
    ) by {
        assert(0 <= list[i] < text::line_count(s));
        assert(list.contains(list[i]));
        lemma_touched(cx, list[i]);
        lemma_line_start_starts(s, list[i]);
    }
    assert forall|p: int|
        0 <= p <= s.len() && (forall|i: int|
            0 <= i < changes.len() ==> (#[trigger] changes[i]).from != p) implies #[trigger] put(p)
        == Seq::<char>::empty() by {
        if starts_line(s, p) && touched(cx, text::line_of(s, p)) {
            lemma_starts_line(s, p);
            lemma_touched(cx, text::line_of(s, p));
            let i = choose|i: int| 0 <= i < list.len() && list[i] == text::line_of(s, p);
            assert(changes[i].from == p);
        }
    }
    remade::lemma_retold(s, changes, put, gone);
}

/// The columns that blanks take up: a space one more, a tab up to the next column
/// that is a multiple of the tab width.
pub proof fn tabs_reach_to_the_next_stop(blanks: Seq<char>, tab_width: int)
    requires
        tab_width > 0,
    ensures
        blanks.len() == 0 ==> lines::blank_width(blanks, tab_width) == 0,
        lines::blank_width(blanks.push(' '), tab_width) == lines::blank_width(blanks, tab_width)
            + 1,
        lines::blank_width(blanks.push('\t'), tab_width) % tab_width == 0,
        lines::blank_width(blanks, tab_width) < lines::blank_width(blanks.push('\t'), tab_width)
            <= lines::blank_width(blanks, tab_width) + tab_width,
        0 <= lines::blank_width(blanks, tab_width),
    decreases blanks.len(),
{
    let width = lines::blank_width(blanks, tab_width);
    assert(blanks.push(' ').drop_last() =~= blanks);
    assert(blanks.push('\t').drop_last() =~= blanks);
    if blanks.len() > 0 {
        tabs_reach_to_the_next_stop(blanks.drop_last(), tab_width);
        if blanks.last() == '\t' {
            assert(blanks.drop_last().push('\t') =~= blanks);
        }
    }
    let next = (width / tab_width + 1) * tab_width;
    assert(next % tab_width == 0 && width < next <= width + tab_width) by (nonlinear_arith)
        requires
            next == (width / tab_width + 1) * tab_width,
            tab_width > 0,
            0 <= width,
    ;
}

proof fn lemma_wider(line: Seq<char>, tab_width: int, j: int, k: int)
    requires
        tab_width > 0,
        0 <= j <= k <= line.len(),
    ensures
        lines::blank_width(line.take(j), tab_width) <= lines::blank_width(line.take(k), tab_width),
    decreases k - j,
{
    if j < k {
        lemma_wider(line, tab_width, j, k - 1);
        let before = line.take(k - 1);
        assert(line.take(k).drop_last() =~= before);
        tabs_reach_to_the_next_stop(before, tab_width);
        if line[k - 1] == '\t' {
            assert(before.push('\t') =~= line.take(k));
        }
    }
}

/// Whether unindenting takes the character at `pos` of a line: it and all before
/// it are blanks, and those before it take up less than `width` columns. A first
/// blank is always taken.
pub open spec fn loses(line: Seq<char>, tab_width: int, width: int, pos: int) -> bool {
    &&& 0 <= pos < line.len()
    &&& forall|j: int| 0 <= j <= pos ==> (#[trigger] line[j]) == ' ' || line[j] == '\t'
    &&& pos == 0 || lines::blank_width(line.take(pos), tab_width) < width
}

proof fn lemma_loses(line: Seq<char>, tab_width: int, width: int, n: int, pos: int)
    requires
        tab_width > 0,
        0 <= n <= line.len(),
        forall|k: int| 0 <= k < n ==> loses(line, tab_width, width, k),
        0 <= pos < line.len(),
    ensures
        pos < lines::unindent_stop(line, tab_width, width, n) <==> pos < n || loses(
            line,
            tab_width,
            width,
            pos,
        ),
        n <= lines::unindent_stop(line, tab_width, width, n) <= line.len(),
    decreases line.len() - n,
{
    if n < line.len() && lines::is_blank(line[n]) && (n == 0 || lines::blank_width(
        line.take(n),
        tab_width,
    ) < width) {
        assert(loses(line, tab_width, width, n)) by {
            assert forall|j: int| 0 <= j <= n implies (#[trigger] line[j]) == ' ' || line[j]
                == '\t' by {
                if j < n {
                    assert(loses(line, tab_width, width, n - 1));
                }
            }
        }
        lemma_loses(line, tab_width, width, n + 1, pos);
    } else if n <= pos && loses(line, tab_width, width, pos) {
        assert(line[n] == ' ' || line[n] == '\t');
        lemma_wider(line, tab_width, n, pos);
    }
}

proof fn lemma_unindent_change(
    s: Seq<char>,
    list: Seq<int>,
    tab_width: int,
    width: int,
    i: int,
) -> (k: int)
    requires
        0 <= i < lines::unindent_changes(s, list, tab_width, width).len(),
    ensures
        0 <= k < list.len(),
        takes_from(
            s,
            lines::unindent_changes(s, list, tab_width, width)[i],
            list[k],
            tab_width,
            width,
        ),
        lines::unindent_changes(s, list, tab_width, width)[i].text is None,
    decreases list.len(),
{
    let before = list.drop_last();
    if i < lines::unindent_changes(s, before, tab_width, width).len() {
        lemma_unindent_change(s, before, tab_width, width, i)
    } else {
        list.len() - 1
    }
}

proof fn lemma_unindent_line(
    s: Seq<char>,
    list: Seq<int>,
    tab_width: int,
    width: int,
    k: int,
) -> (i: int)
    requires
        0 <= k < list.len(),
        lines::unindented(text::line_text(s, list[k]), tab_width, width) > 0,
    ensures
        0 <= i < lines::unindent_changes(s, list, tab_width, width).len(),
        takes_from(
            s,
            lines::unindent_changes(s, list, tab_width, width)[i],
            list[k],
            tab_width,
            width,
        ),
    decreases list.len(),
{
    let before = list.drop_last();
    if k < before.len() {
        lemma_unindent_line(s, before, tab_width, width, k)
    } else {
        lines::unindent_changes(s, before, tab_width, width).len() as int
    }
}

/// Whether unindenting takes the character at `pos` of a text.
pub open spec fn text_loses(cx: Context, tab_width: int, width: int, pos: int) -> bool {
    let line = text::line_of(cx.text(), pos);
    touched(cx, line) && loses(
        text::line_text(cx.text(), line),
        tab_width,
        width,
        pos - text::line_start(cx.text(), line),
    )
}

spec fn takes_from(s: Seq<char>, change: ChangeView, line: int, tab_width: int, width: int) -> bool {
    &&& change.from == text::line_start(s, line)
    &&& change.to == text::line_start(s, line) + lines::unindented(
        text::line_text(s, line),
        tab_width,
        width,
    )
}

proof fn lemma_taken_is_lost(
    cx: Context,
    change: ChangeView,
    line: int,
    tab_width: int,
    width: int,
    p: int,
)
    requires
        tab_width > 0,
        0 <= line < text::line_count(cx.text()),
        touched(cx, line),
        takes_from(cx.text(), change, line, tab_width, width),
        change.from <= p < change.to,
        0 <= p < cx.text().len(),
    ensures
        text_loses(cx, tab_width, width, p),
{
    let s = cx.text();
    let own = text::line_text(s, line);
    text::lemma_line_start(s, line);
    text::lemma_line_start(s, line + 1);
    text::lemma_line_starts_ordered(s, line, line + 1);
    if own.len() > 0 {
        lemma_loses(own, tab_width, width, 0, 0);
    }
    assert(p < text::line_start(s, line + 1));
    assert(text::line_of(s, p) < line + 1);
    text::lemma_line_of_monotone(s, text::line_start(s, line), p);
    lemma_loses(own, tab_width, width, 0, p - text::line_start(s, line));
}

proof fn lemma_lost_is_taken(cx: Context, tab_width: int, width: int, p: int)
    requires
        tab_width > 0,
        0 <= p < cx.text().len(),
        text_loses(cx, tab_width, width, p),
    ensures
        ({
            let line = text::line_of(cx.text(), p);
            &&& 0 <= line < text::line_count(cx.text())
            &&& p < text::line_start(cx.text(), line) + lines::unindented(
                text::line_text(cx.text(), line),
                tab_width,
                width,
            )
            &&& text::line_start(cx.text(), line) <= p
        }),
{
    let s = cx.text();
    let line = text::line_of(s, p);
    text::lemma_line_of_position(s, p);
    lemma_loses(
        text::line_text(s, line),
        tab_width,
        width,
        0,
        p - text::line_start(s, line),
    );
}

/// Unindenting takes blanks away from the start of every line that a range
/// touches, as long as those before take up less than the width, and nothing
/// else.
pub proof fn unindenting_takes_blanks_up_to_the_width(cx: Context, tab_width: int, width: int)
    requires
        tab_width > 0,
    ensures
        change::edited(
            cx.text(),
            lines::unindent_changes(
                cx.text(),
                lines::touched_lines(cx.text(), cx.selection().ranges),
                tab_width,
                width,
            ),
        ) == remade::left(cx.text(), |pos: int| text_loses(cx, tab_width, width, pos)),
{
    let s = cx.text();
    let list = lines::touched_lines(s, cx.selection().ranges);
    let changes = lines::unindent_changes(s, list, tab_width, width);
    let gone = |pos: int| text_loses(cx, tab_width, width, pos);
    line_laws::unindenting_is_in_order(cx, tab_width, width);
    lines::lemma_spanned_lines(s, cx.selection().ranges, false);
    assert forall|i: int| 0 <= i < list.len() implies 0 <= (#[trigger] list[i]) < text::line_count(
        s,
    ) by {}
    assert forall|i: int| 0 <= i < changes.len() implies (#[trigger] changes[i]).text is None by {
        lemma_unindent_change(s, list, tab_width, width, i);
    }
    assert forall|p: int| 0 <= p < s.len() implies #[trigger] gone(p) == exists|i: int|
        0 <= i < changes.len() && (#[trigger] changes[i]).from <= p < changes[i].to by {
        if gone(p) {
            let line = text::line_of(s, p);
            lemma_lost_is_taken(cx, tab_width, width, p);
            lemma_touched(cx, line);
            let k = choose|k: int| 0 <= k < list.len() && list[k] == line;
            let i = lemma_unindent_line(s, list, tab_width, width, k);
            assert(changes[i].from <= p < changes[i].to);
        }
        if exists|i: int|
            0 <= i < changes.len() && (#[trigger] changes[i]).from <= p < changes[i].to {
            let i = choose|i: int|
                0 <= i < changes.len() && (#[trigger] changes[i]).from <= p < changes[i].to;
            let k = lemma_unindent_change(s, list, tab_width, width, i);
            assert(list.contains(list[k]));
            lemma_touched(cx, list[k]);
            lemma_taken_is_lost(cx, changes[i], list[k], tab_width, width, p);
        }
    }
    remade::lemma_left(s, changes, gone);
}

/// Whether a character is a space or a tab.
pub open spec fn blank(c: char) -> bool {
    c == ' ' || c == '\t'
}

/// Whether lines are joined at `pos`: it is the last character of a line that is
/// to be joined to the next. The last line of all may have no character of its
/// own; then it is the last one of the text.
pub open spec fn is_joint(cx: Context, pos: int) -> bool {
    let s = cx.text();
    &&& 0 <= pos < s.len()
    &&& last_of_line(s, pos)
    &&& joined_on(cx, text::line_of(s, pos)) || pos + 1 == s.len() && joined_on(
        cx,
        text::line_count(s) - 1,
    )
}

/// Whether the character at `pos` gives way to the space between joined lines:
/// lines are joined there, or it is one of the blanks that follow, unless they go
/// on to the end of the text.
pub open spec fn gives_way(cx: Context, pos: int) -> bool {
    let s = cx.text();
    is_joint(cx, pos) || exists|q: int|
        {
            &&& #[trigger] is_joint(cx, q)
            &&& q < pos
            &&& forall|j: int| q < j <= pos ==> blank(#[trigger] s[j])
            &&& exists|r: int| pos < r < s.len() && !blank(#[trigger] s[r])
        }
}

proof fn lemma_after_blanks(s: Seq<char>, pos: int)
    requires
        0 <= pos,
    ensures
        match lines::after_blanks(s, pos) {
            Some(end) => {
                &&& pos <= end < s.len()
                &&& !blank(s[end])
                &&& forall|j: int| pos <= j < end ==> blank(#[trigger] s[j])
            },
            None => forall|j: int| pos <= j < s.len() ==> blank(#[trigger] s[j]),
        },
    decreases s.len() - pos,
{
    if pos < s.len() && lines::is_blank(s[pos]) {
        lemma_after_blanks(s, pos + 1);
    }
}

pub(crate) proof fn lemma_line_break(s: Seq<char>, line: int)
    requires
        0 <= line < text::line_count(s) - 1,
    ensures
        0 < text::line_start(s, line + 1) <= s.len(),
        text::line_of(s, text::line_start(s, line + 1) - 1) == line,
        text::line_of(s, text::line_start(s, line + 1)) == line + 1,
        text::ends_line(s, text::line_start(s, line + 1) - 1),
{
    let next = text::line_start(s, line + 1);
    text::lemma_line_start(s, line + 1);
    assert(text::line_of(s, 0) == 0);
    assert(text::line_of(s, next - 1) < line + 1);
    text::lemma_line_of_monotone(s, next - 1, next);
}

proof fn lemma_joint_of_line(cx: Context, line: int)
    requires
        cx.text().len() > 0,
        0 <= line < text::line_count(cx.text()),
        joined_on(cx, line),
    ensures
        is_joint(cx, lines::join_change(cx.text(), line).from),
{
    let s = cx.text();
    text::lemma_line_start(s, line + 1);
    if line + 1 < text::line_count(s) {
        lemma_line_break(s, line);
    }
}

proof fn lemma_line_of_joint(cx: Context, pos: int) -> (line: int)
    requires
        is_joint(cx, pos),
    ensures
        0 <= line < text::line_count(cx.text()),
        joined_on(cx, line),
        lines::join_change(cx.text(), line).from == pos,
{
    let s = cx.text();
    let own = text::line_of(s, pos);
    let last = text::line_count(s) - 1;
    text::lemma_line_of_position(s, pos);
    text::lemma_line_start(s, own + 1);
    text::lemma_line_start(s, last + 1);
    if joined_on(cx, own) {
        if pos + 1 == s.len() {
            assert(text::line_start(s, own + 1) <= s.len());
            assert(pos < text::line_start(s, own + 1));
        } else {
            text::lemma_line_of_monotone(s, pos, pos + 1);
            lemma_starts_line(s, pos + 1);
        }
        own
    } else {
        last
    }
}

proof fn lemma_join_member(s: Seq<char>, list: Seq<int>, i: int) -> (k: int)
    requires
        0 <= i < lines::join_changes(s, list).len(),
    ensures
        0 <= k < list.len(),
        lines::join_changes(s, list)[i] == lines::join_change(s, list[k]),
    decreases list.len(),
{
    let before = list.drop_last();
    if i < lines::join_changes(s, before).len() {
        lemma_join_member(s, before, i)
    } else {
        list.len() - 1
    }
}

proof fn lemma_join_line(s: Seq<char>, list: Seq<int>, k: int) -> (i: int)
    requires
        0 <= k < list.len(),
    ensures
        0 <= i < lines::join_changes(s, list).len(),
        lines::join_changes(s, list)[i] == lines::join_change(s, list[k]),
    decreases list.len(),
{
    let before = list.drop_last();
    let done = lines::join_changes(s, before);
    if k < before.len() {
        lemma_join_line(s, before, k)
    } else {
        let change = lines::join_change(s, list.last());
        if done.len() > 0 && done.last().from == change.from {
            let j = lemma_join_member(s, before, done.len() - 1);
            assert(done.last() == lines::join_change(s, before[j]));
            done.len() - 1
        } else {
            done.len() as int
        }
    }
}

/// Joining puts a space in wherever a range goes on to the next line, or where the
/// line of a range that lies on one line ends, in place of the ending and of the
/// blanks behind it. All else stays.
pub proof fn joining_puts_spaces_between_lines(cx: Context)
    requires
        cx.text().len() > 0,
    ensures
        change::edited(
            cx.text(),
            lines::join_changes(
                cx.text(),
                lines::spanned_lines(cx.text(), cx.selection().ranges, true),
            ),
        ) == retold(
            cx.text(),
            |pos: int|
                if is_joint(cx, pos) {
                    seq![' ']
                } else {
                    Seq::empty()
                },
            |pos: int| gives_way(cx, pos),
        ),
{
    let s = cx.text();
    let list = lines::spanned_lines(s, cx.selection().ranges, true);
    let changes = lines::join_changes(s, list);
    let put = |pos: int|
        if is_joint(cx, pos) {
            seq![' ']
        } else {
            Seq::<char>::empty()
        };
    let gone = |pos: int| gives_way(cx, pos);
    line_laws::joining_is_in_order(cx);
    lines::lemma_spanned_lines(s, cx.selection().ranges, true);
    assert forall|i: int| 0 <= i < changes.len() implies {
        &&& is_joint(cx, (#[trigger] changes[i]).from)
        &&& changes[i].inserted() == seq![' ']
        &&& changes[i].from < changes[i].to
    } by {
        let k = lemma_join_member(s, list, i);
        assert(list.contains(list[k]));
        lemma_touched(cx, list[k]);
        lemma_joint_of_line(cx, list[k]);
        lemma_after_blanks(s, changes[i].from + 1);
    }
    assert forall|i: int, j: int| 0 <= i < j < changes.len() implies (#[trigger] changes[i]).from
        < (#[trigger] changes[j]).from by {
        assert(changes[i].to <= changes[j].from);
    }
    assert forall|p: int|
        0 <= p <= s.len() && (forall|i: int|
            0 <= i < changes.len() ==> (#[trigger] changes[i]).from != p) implies #[trigger] put(p)
        == Seq::<char>::empty() by {
        if is_joint(cx, p) {
            let i = lemma_change_at_joint(cx, p);
            assert(changes[i].from == p);
        }
    }
    assert forall|p: int| 0 <= p < s.len() implies #[trigger] gone(p) == exists|i: int|
        0 <= i < changes.len() && (#[trigger] changes[i]).from <= p < changes[i].to by {
        if gone(p) {
            let i = lemma_change_over(cx, p);
            assert(changes[i].from <= p < changes[i].to);
        }
        if exists|i: int|
            0 <= i < changes.len() && (#[trigger] changes[i]).from <= p < changes[i].to {
            let i = choose|i: int|
                0 <= i < changes.len() && (#[trigger] changes[i]).from <= p < changes[i].to;
            let q = changes[i].from;
            assert(is_joint(cx, q));
            if q < p {
                let k = lemma_join_member(s, list, i);
                lemma_after_blanks(s, q + 1);
                assert(changes[i].to < s.len() && !blank(s[changes[i].to]));
            }
        }
    }
    remade::lemma_retold(s, changes, put, gone);
}

proof fn lemma_change_at_joint(cx: Context, pos: int) -> (i: int)
    requires
        is_joint(cx, pos),
    ensures
        ({
            let s = cx.text();
            let changes = lines::join_changes(
                s,
                lines::spanned_lines(s, cx.selection().ranges, true),
            );
            &&& 0 <= i < changes.len()
            &&& changes[i].from == pos
            &&& changes[i].to == match lines::after_blanks(s, pos + 1) {
                Some(end) => end,
                None => pos + 1,
            }
        }),
{
    let s = cx.text();
    let list = lines::spanned_lines(s, cx.selection().ranges, true);
    let line = lemma_line_of_joint(cx, pos);
    lemma_touched(cx, line);
    let k = choose|k: int| 0 <= k < list.len() && list[k] == line;
    lemma_join_line(s, list, k)
}

proof fn lemma_change_over(cx: Context, pos: int) -> (i: int)
    requires
        0 <= pos < cx.text().len(),
        gives_way(cx, pos),
    ensures
        ({
            let s = cx.text();
            let changes = lines::join_changes(
                s,
                lines::spanned_lines(s, cx.selection().ranges, true),
            );
            &&& 0 <= i < changes.len()
            &&& changes[i].from <= pos < changes[i].to
        }),
{
    let s = cx.text();
    if is_joint(cx, pos) {
        lemma_after_blanks(s, pos + 1);
        lemma_change_at_joint(cx, pos)
    } else {
        let q = choose|q: int|
            {
                &&& #[trigger] is_joint(cx, q)
                &&& q < pos
                &&& forall|j: int| q < j <= pos ==> blank(#[trigger] s[j])
                &&& exists|r: int| pos < r < s.len() && !blank(#[trigger] s[r])
            };
        let r = choose|r: int| pos < r < s.len() && !blank(#[trigger] s[r]);
        lemma_after_blanks(s, q + 1);
        assert(blank(s[r]) ==> false);
        lemma_change_at_joint(cx, q)
    }
}

spec fn breaks(s: Seq<char>) -> int {
    text::line_of(s, s.len() as int)
}

proof fn lemma_breaks_before(x: Seq<char>, y: Seq<char>, n: int)
    requires
        !(x.len() > 0 && y.len() > 0 && x.last() == '\r' && y[0] == '\n'),
        0 <= n <= x.len(),
    ensures
        text::line_of(x + y, n) == text::line_of(x, n),
    decreases n,
{
    if n > 0 {
        lemma_breaks_before(x, y, n - 1);
        assert((x + y)[n - 1] == x[n - 1]);
        if n < x.len() {
            assert((x + y)[n] == x[n]);
        } else if y.len() > 0 {
            assert((x + y)[n] == y[0]);
        }
    }
}

proof fn lemma_breaks_after(x: Seq<char>, y: Seq<char>, n: int)
    requires
        !(x.len() > 0 && y.len() > 0 && x.last() == '\r' && y[0] == '\n'),
        0 <= n <= y.len(),
    ensures
        text::line_of(x + y, x.len() + n) == breaks(x) + text::line_of(y, n),
    decreases n,
{
    if n > 0 {
        lemma_breaks_after(x, y, n - 1);
        assert((x + y)[x.len() + n - 1] == y[n - 1]);
        if n < y.len() {
            assert((x + y)[x.len() + n] == y[n]);
        }
    } else {
        lemma_breaks_before(x, y, x.len() as int);
    }
}

/// A text put together of two has the line endings of both, unless a carriage
/// return and a line feed meet.
proof fn lemma_breaks(x: Seq<char>, y: Seq<char>)
    requires
        !(x.len() > 0 && y.len() > 0 && x.last() == '\r' && y[0] == '\n'),
    ensures
        breaks(x + y) == breaks(x) + breaks(y),
{
    lemma_breaks_after(x, y, y.len() as int);
}

proof fn lemma_no_breaks(x: Seq<char>, n: int)
    requires
        forall|j: int| 0 <= j < x.len() ==> blank(#[trigger] x[j]),
        0 <= n <= x.len(),
    ensures
        text::line_of(x, n) == 0,
    decreases n,
{
    if n > 0 {
        lemma_no_breaks(x, n - 1);
        assert(blank(x[n - 1]));
    }
}

/// Whether a line has an ending that is one character.
pub open spec fn ends_in_one(s: Seq<char>, line: int) -> bool {
    let end = text::line_start(s, line + 1) - 1;
    &&& 0 <= line < text::line_count(s) - 1
    &&& !(end > 0 && s[end - 1] == '\r' && s[end] == '\n')
}

spec fn joined(s: Seq<char>, list: Seq<int>) -> Seq<char> {
    change::edited(s, lines::join_changes(s, list))
}

proof fn lemma_join_order(s: Seq<char>, list: Seq<int>)
    requires
        s.len() > 0,
        forall|i: int| 0 <= i < list.len() ==> ends_in_one(s, #[trigger] list[i]),
        forall|i: int, j: int|
            0 <= i < j < list.len() ==> (#[trigger] list[i]) < (#[trigger] list[j]),
    ensures
        change::in_order(lines::join_changes(s, list), s.len() as int),
        lines::join_changes(s, list).len() == list.len(),
        forall|i: int|
            0 <= i < list.len() ==> (#[trigger] lines::join_changes(s, list)[i])
                == lines::join_change(s, list[i]),
        list.len() > 0 ==> {
            &&& lines::join_changes(s, list).drop_last() == lines::join_changes(
                s,
                list.drop_last(),
            )
            &&& lines::join_changes(s, list).last() == lines::join_change(s, list.last())
        },
    decreases list.len(),
{
    line_laws::lemma_join_in_order(s, list);
    if list.len() > 0 {
        let before = list.drop_last();
        let done = lines::join_changes(s, before);
        assert forall|i: int| 0 <= i < before.len() implies ends_in_one(
            s,
            #[trigger] before[i],
        ) by {
            assert(before[i] == list[i]);
        }
        assert forall|i: int, j: int| 0 <= i < j < before.len() implies (#[trigger] before[i]) < (
        #[trigger] before[j]) by {
            assert(list[i] < list[j]);
        }
        lemma_join_order(s, before);
        if done.len() > 0 {
            let k = lemma_join_member(s, before, done.len() - 1);
            assert(list[k] < list[list.len() - 1]);
            assert(ends_in_one(s, list[k]) && ends_in_one(s, list[list.len() - 1]));
            lemma_line_break(s, list[k]);
            lemma_line_break(s, list.last());
            text::lemma_line_starts_ordered(s, list[k] + 1, list.last() + 1);
        }
        assert(lines::join_changes(s, list).drop_last() =~= done);
        assert forall|i: int| 0 <= i < list.len() implies (
        #[trigger] lines::join_changes(s, list)[i]) == lines::join_change(s, list[i]) by {
            if i < before.len() {
                assert(lines::join_changes(s, list)[i] == done[i]);
                assert(before[i] == list[i]);
            }
        }
    }
}

proof fn lemma_one_joined(s: Seq<char>, left: Seq<char>, f: int, to: int)
    requires
        0 <= f < to <= s.len(),
        text::ends_line(s, f),
        !(f > 0 && s[f - 1] == '\r' && s[f] == '\n'),
        forall|j: int| f < j < to ==> blank(#[trigger] s[j]),
        left.len() > 0 ==> left.last() == ' ' || f > 0 && left.last() == s[f - 1],
    ensures
        breaks(left + seq![' '] + s.skip(to)) == breaks(left + s.skip(f)) - 1,
{
    let own = s.subrange(f, to);
    let rest = s.skip(to);
    let blanks = s.subrange(f + 1, to);
    assert(s.skip(f) =~= own + rest);
    assert(s.skip(f)[0] == s[f]);
    lemma_breaks(left, s.skip(f));
    assert(own.last() == s[to - 1]);
    if to > f + 1 {
        assert(blank(s[to - 1]));
    }
    if rest.len() > 0 {
        assert(rest[0] == s[to]);
    }
    lemma_breaks(own, rest);
    assert(own =~= seq![s[f]] + blanks);
    if blanks.len() > 0 {
        assert(blank(s[f + 1]));
        assert(blanks[0] == s[f + 1]);
    }
    lemma_breaks(seq![s[f]], blanks);
    assert forall|j: int| 0 <= j < blanks.len() implies blank(#[trigger] blanks[j]) by {
        assert(blank(s[f + 1 + j]));
    }
    lemma_no_breaks(blanks, blanks.len() as int);
    assert(text::line_of(seq![s[f]], 0) == 0);
    assert(text::ends_line(seq![s[f]], 0));
    lemma_breaks(left, seq![' ']);
    assert((left + seq![' ']).last() == ' ');
    lemma_breaks(left + seq![' '], rest);
    lemma_no_breaks(seq![' '], 1);
}

/// The text has as many lines fewer as are joined to the next.
proof fn lemma_joined(s: Seq<char>, list: Seq<int>)
    requires
        s.len() > 0,
        forall|i: int| 0 <= i < list.len() ==> ends_in_one(s, #[trigger] list[i]),
        forall|i: int, j: int|
            0 <= i < j < list.len() ==> (#[trigger] list[i]) < (#[trigger] list[j]),
    ensures
        breaks(joined(s, list)) == breaks(s) - list.len(),
    decreases list.len(),
{
    if list.len() > 0 {
        let line = list.last();
        let before = list.drop_last();
        assert(line == list[list.len() - 1]);
        assert(ends_in_one(s, line));
        assert forall|i: int| 0 <= i < before.len() implies ends_in_one(
            s,
            #[trigger] before[i],
        ) by {
            assert(before[i] == list[i]);
        }
        assert forall|i: int, j: int| 0 <= i < j < before.len() implies (#[trigger] before[i]) < (
        #[trigger] before[j]) by {
            assert(list[i] < list[j]);
        }
        lemma_joined(s, before);
        lemma_join_order(s, list);
        lemma_join_order(s, before);
        let changes = lines::join_changes(s, list);
        let early = lines::join_changes(s, before);
        let change = changes.last();
        let f = change.from;
        let to = change.to;
        lemma_line_break(s, line);
        lemma_after_blanks(s, f + 1);
        change::lemma_edited_last(s, changes);
        assert(early == changes.drop_last());
        let left = change::edited(s.take(f), early);
        assert(s.take(f) + s.skip(f) =~= s);
        change::lemma_edited_apart(s.take(f), s.skip(f), early);
        assert(joined(s, before) == left + s.skip(f));
        assert(left.len() > 0 ==> left.last() == ' ' || f > 0 && left.last() == s[f - 1]) by {
            if early.len() > 0 {
                change::lemma_edited_last(s.take(f), early);
                let k = lemma_join_member(s, before, early.len() - 1);
                assert(early.last().inserted() == seq![' ']);
            } else {
                assert(left == s.take(f));
            }
        }
        let rest = s.skip(to);
        assert forall|j: int| f < j < to implies blank(#[trigger] s[j]) by {}
        lemma_one_joined(s, left, f, to);
        assert(joined(s, list) =~= left + seq![' '] + rest);
    } else {
        assert(lines::join_changes(s, list) =~= Seq::empty());
    }
}

/// Joining the lines of one range takes the endings between its first line and its
/// last one away, or that of its line where it has but one, so that the text has
/// as many lines fewer. What stands from the end of the last of the lines on, and
/// what stands before the first ending, is left as it is. Endings that are two
/// characters are left out: the carriage return of such a one stays.
pub proof fn joined_lines_are_one_line(cx: Context)
    requires
        cx.wf(),
        cx.selection().ranges.len() == 1,
        ({
            let s = cx.text();
            let first = top(s, cx.selection().ranges[0]);
            let last = bottom(s, cx.selection().ranges[0]);
            forall|line: int|
                first <= line < last || line == first == last ==> #[trigger] ends_in_one(s, line)
        }),
    ensures
        ({
            let s = cx.text();
            let first = top(s, cx.selection().ranges[0]);
            let last = bottom(s, cx.selection().ranges[0]);
            let fewer = if first < last {
                last - first
            } else {
                1
            };
            let t = change::edited(
                s,
                lines::join_changes(s, lines::spanned_lines(s, cx.selection().ranges, true)),
            );
            let end = ending(s, first + fewer);
            let start = text::line_start(s, first + 1) - 1;
            &&& text::line_count(t) == text::line_count(s) - fewer
            &&& t.len() >= s.len() - end
            &&& t.skip(t.len() - (s.len() - end)) == s.skip(end)
            &&& 0 <= start < t.len()
            &&& t.take(start) == s.take(start)
            &&& t[start] == ' '
        }),
{
    let s = cx.text();
    let range = cx.selection().ranges[0];
    let first = top(s, range);
    let last = bottom(s, range);
    let list = lines::spanned_lines(s, cx.selection().ranges, true);
    assert(range.within(s.len() as int));
    text::lemma_line_of_monotone(s, 0, range.low() as int);
    text::lemma_line_of_monotone(s, range.low() as int, range.high() as int);
    let fewer = if first < last {
        last - first
    } else {
        1
    };
    assert(ends_in_one(s, first));
    lemma_line_break(s, first);
    assert forall|line: int| #[trigger] joined_on(cx, line) == (first <= line < first + fewer) by {
        if first <= line < first + fewer {
            assert(top(s, cx.selection().ranges[0]) <= line);
        }
    }
    lines::lemma_spanned_lines(s, cx.selection().ranges, true);
    assert forall|i: int| 0 <= i < list.len() implies ends_in_one(s, #[trigger] list[i]) && first
        <= list[i] < first + fewer by {
        assert(list.contains(list[i]));
        lemma_touched(cx, list[i]);
    }
    assert(ends_in_one(s, first + fewer - 1));
    lemma_run(cx, list, first, first + fewer, fewer);
    lemma_joined(s, list);
    lemma_join_order(s, list);
    let changes = lines::join_changes(s, list);
    let t = change::edited(s, changes);
    // the end of the text
    let change = changes.last();
    assert(list.last() == first + fewer - 1);
    lemma_line_break(s, first + fewer - 1);
    lemma_after_blanks(s, change.from + 1);
    change::lemma_edited_last(s, changes);
    let end = ending(s, first + fewer);
    let left = change::edited(s.take(change.from), changes.drop_last()) + change.inserted();
    assert(change.to <= end <= s.len()) by {
        text::lemma_line_start(s, first + fewer + 1);
        text::lemma_line_starts_ordered(s, first + fewer, first + fewer + 1);
        if first + fewer + 1 < text::line_count(s) {
            lemma_line_break(s, first + fewer);
            assert(text::ends_line(s, end));
            assert(!blank(s[end]));
        }
    }
    assert(t =~= left + s.skip(change.to));
    assert(t.skip(t.len() - (s.len() - end)) =~= s.skip(end));
    // the start of the text
    let start = text::line_start(s, first + 1) - 1;
    assert(list[0] == first);
    assert(changes[0] == lines::join_change(s, list[0]));
    lemma_first_change(s, changes, start);
}

/// A run of lines is the list of them.
proof fn lemma_run(cx: Context, list: Seq<int>, first: int, stop: int, n: int)
    requires
        list == lines::spanned_lines(cx.text(), cx.selection().ranges, true),
        forall|line: int| #[trigger] joined_on(cx, line) == (first <= line < stop),
        0 <= first < stop < text::line_count(cx.text()),
        n == stop - first,
    ensures
        list.len() == n,
        list[0] == first,
        list.last() == stop - 1,
{
    let s = cx.text();
    lines::lemma_spanned_lines(s, cx.selection().ranges, true);
    lemma_touched(cx, first);
    lemma_touched(cx, stop - 1);
    assert forall|i: int| 0 <= i < list.len() implies first <= #[trigger] list[i] < stop by {
        assert(list.contains(list[i]));
        lemma_touched(cx, list[i]);
    }
    let a = choose|a: int| 0 <= a < list.len() && list[a] == first;
    if a > 0 {
        assert(list[0] < list[a]);
    }
    let b = choose|b: int| 0 <= b < list.len() && list[b] == stop - 1;
    if b < list.len() - 1 {
        assert(list[b] < list[list.len() - 1]);
    }
    assert forall|i: int| 0 <= i < list.len() implies #[trigger] list[i] == first + i by {
        lemma_run_at(cx, list, first, stop, i);
    }
    assert(list[list.len() - 1] == first + list.len() - 1);
}

proof fn lemma_run_at(cx: Context, list: Seq<int>, first: int, stop: int, i: int)
    requires
        list == lines::spanned_lines(cx.text(), cx.selection().ranges, true),
        forall|line: int| #[trigger] joined_on(cx, line) == (first <= line < stop),
        0 <= first < stop < text::line_count(cx.text()),
        0 <= i < list.len(),
        list[0] == first,
        forall|j: int| 0 <= j < list.len() ==> first <= #[trigger] list[j] < stop,
    ensures
        list[i] == first + i,
    decreases i,
{
    lines::lemma_spanned_lines(cx.text(), cx.selection().ranges, true);
    if i > 0 {
        lemma_run_at(cx, list, first, stop, i - 1);
        assert(list[i - 1] < list[i]);
        if list[i] > first + i {
            lemma_touched(cx, first + i);
            let k = choose|k: int| 0 <= k < list.len() && list[k] == first + i;
            if k < i - 1 {
                assert(list[k] < list[i - 1]);
            } else if k > i {
                assert(list[i] < list[k]);
            }
        }
    }
}

/// A text is left as it is before the first change, which stands there.
proof fn lemma_first_change(s: Seq<char>, changes: Seq<ChangeView>, start: int)
    requires
        change::in_order(changes, s.len() as int),
        changes.len() > 0,
        changes[0].from == start,
        changes[0].inserted() == seq![' '],
    ensures
        0 <= start < change::edited(s, changes).len(),
        change::edited(s, changes).take(start) == s.take(start),
        change::edited(s, changes)[start] == ' ',
    decreases changes.len(),
{
    change::lemma_edited_last(s, changes);
    let last = changes.last();
    let before = changes.drop_last();
    let t = change::edited(s, changes);
    if changes.len() == 1 {
        assert(before =~= Seq::empty());
        assert(change::edited(s.take(last.from), before) == s.take(last.from));
        assert(t.take(start) =~= s.take(start));
    } else {
        assert(before[0] == changes[0]);
        assert(changes[0].to <= changes[changes.len() - 1].from);
        lemma_first_change(s.take(last.from), before, start);
        let u = change::edited(s.take(last.from), before);
        assert(t.take(start) =~= u.take(start));
        assert(s.take(last.from).take(start) =~= s.take(start));
    }
}

/// How long the first `n` values are together.
pub open spec fn lengths(value: spec_fn(int) -> Seq<char>, n: int) -> int
    decreases n,
{
    if n <= 0 {
        0
    } else {
        lengths(value, n - 1) + value(n - 1).len()
    }
}

/// Where lines are opened for a range: at the end of the line of its cursor, or of
/// the line before it, or else at the start of the text.
pub open spec fn opened_at(s: Seq<char>, below: bool, range: Range) -> int {
    let line = text::line_of(s, range.head as int);
    if below {
        ending(s, line)
    } else if line > 0 {
        ending(s, line - 1)
    } else {
        0
    }
}

/// A line feed and indentation.
pub open spec fn fresh_line(unit: Seq<char>, level: usize) -> Seq<char> {
    seq!['\n'] + strings::repeated(unit, level as nat)
}

proof fn lemma_open_index(s: Seq<char>, below: bool, range: Range)
    requires
        range.within(s.len() as int),
    ensures
        open::open_index(
            s,
            if below {
                Open::Below
            } else {
                Open::Above
            },
            range,
        ) == opened_at(s, below, range),
        0 <= opened_at(s, below, range) <= s.len(),
{
    let line = text::line_of(s, range.head as int);
    text::lemma_line_of_position(s, range.head as int);
    text::lemma_line_start(s, line);
    text::lemma_line_start(s, line + 1);
    if line + 1 < text::line_count(s) {
        lemma_line_break(s, line);
    }
    if line > 0 {
        lemma_line_break(s, line - 1);
    }
}

proof fn lemma_open_lengths(unit: Seq<char>, levels: Seq<usize>, count: usize, n: int)
    ensures
        open::open_offset(unit, levels, count, n) == lengths(
            |i: int| strings::repeated(fresh_line(unit, levels[i]), count as nat),
            n,
        ),
    decreases n,
{
    if n > 0 {
        lemma_open_lengths(unit, levels, count, n - 1);
    }
}

proof fn lemma_open_cursor(
    s: Seq<char>,
    ranges: Seq<Range>,
    side: Open,
    unit: Seq<char>,
    levels: Seq<usize>,
    count: usize,
    n: int,
    i: int,
    j: int,
)
    requires
        0 <= i < n,
        0 <= j < count,
    ensures
        open::open_ranges(s, ranges, side, unit, levels, count, n).len() == n * count,
        0 <= i * count + j < n * count,
        open::open_ranges(s, ranges, side, unit, levels, count, n)[i * count + j]
            == open::line_cursors(
            open::open_pos(s, ranges, side, unit, levels, count, i),
            strings::bytes(strings::repeated(unit, levels[i] as nat)) as int,
            count as int,
        )[j],
    decreases n,
{
    assert(n * count == (n - 1) * count + count) by (nonlinear_arith);
    assert(0 <= i * count && i * count + j < n * count) by (nonlinear_arith)
        requires
            0 <= i < n,
            0 <= j < count,
    ;
    if i < n - 1 {
        lemma_open_cursor(s, ranges, side, unit, levels, count, n - 1, i, j);
    } else if n > 1 {
        lemma_open_cursor(s, ranges, side, unit, levels, count, n - 1, n - 2, j);
    } else {
        assert(0 * count == 0);
        assert(open::open_ranges(s, ranges, side, unit, levels, count, 0).len() == 0);
    }
}

/// Whether a new line that is started at `pos` parts a pair of characters that
/// belong together. Before the first character stands a space.
pub open spec fn parts_pair(s: Seq<char>, pos: int, pairs: Seq<(char, char)>) -> bool {
    exists|i: int|
        0 <= i < pairs.len() && (#[trigger] pairs[i]).1 == s[pos] && pairs[i].0 == if pos == 0 {
            ' '
        } else {
            s[pos - 1]
        }
}

/// What is put in to start a line: a line feed and indentation, and where a pair
/// is parted a further line with one level less for its second half.
pub open spec fn started_line(
    s: Seq<char>,
    pos: int,
    unit: Seq<char>,
    level: usize,
    pairs: Seq<(char, char)>,
) -> Seq<char> {
    if parts_pair(s, pos, pairs) {
        fresh_line(unit, level) + fresh_line(
            unit,
            if level == 0 {
                0
            } else {
                (level - 1) as usize
            },
        )
    } else {
        fresh_line(unit, level)
    }
}

proof fn lemma_started_line(
    s: Seq<char>,
    pos: int,
    unit: Seq<char>,
    level: usize,
    pairs: Seq<(char, char)>,
)
    ensures
        insert::newline(s, pos, unit, level, pairs) == started_line(s, pos, unit, level, pairs),
{
    let prev = if pos == 0 {
        ' '
    } else {
        s[pos - 1]
    };
    if parts_pair(s, pos, pairs) {
        let i = choose|i: int|
            0 <= i < pairs.len() && (#[trigger] pairs[i]).1 == s[pos] && pairs[i].0 == prev;
        assert(pairs[i] == (prev, s[pos]));
    }
    if insert::between_pair(s, pos, pairs) {
        let i = choose|i: int| 0 <= i < pairs.len() && pairs[i] == (prev, s[pos]);
        assert(pairs[i].1 == s[pos]);
    }
    assert(insert::newline(s, pos, unit, level, pairs) =~= started_line(
        s,
        pos,
        unit,
        level,
        pairs,
    ));
}

proof fn lemma_newline_lengths(
    s: Seq<char>,
    ranges: Seq<Range>,
    unit: Seq<char>,
    levels: Seq<usize>,
    pairs: Seq<(char, char)>,
    n: int,
)
    ensures
        insert::newline_offset(s, ranges, unit, levels, pairs, n) == lengths(
            |i: int| started_line(s, ranges[i].head as int, unit, levels[i], pairs),
            n,
        ),
    decreases n,
{
    if n > 0 {
        lemma_newline_lengths(s, ranges, unit, levels, pairs, n - 1);
        lemma_started_line(s, ranges[n - 1].head as int, unit, levels[n - 1], pairs);
    }
}

impl<
    MH: Fn(&Rope, Range, Direction, usize, Movement) -> Range,
    MV: Fn(&Rope, Range, Direction, usize, Movement) -> Range,
    NW: Fn(&Rope, Range, usize) -> Range,
    PW: Fn(&Rope, Range, usize) -> Range,
    WE: Fn(&Rope, Range, usize) -> Range,
    NG: Fn(&Rope, usize) -> usize,
    PG: Fn(&Rope, usize) -> usize,
    NN: Fn(&Rope, usize, usize) -> usize,
    NP: Fn(&Rope, usize, usize) -> usize,
    CP: Fn(&Rope, usize) -> Position,
    PC: Fn(&Rope, Position) -> usize,
    LL: Fn(&Window, &Rope) -> usize,
    SM: Fn(&Rope, &Selection, &str) -> Selection,
    PU: Fn(&Selection, Range) -> Selection,
    FR: Fn(&Rope, Range) -> String,
    SI: Fn(&Rope, usize, bool) -> usize,
    TC: Fn(&Rope, &Selection) -> Transaction,
    ES: Fn(&Rope, &Selection) -> Selection,
    MB: Fn(&Rope, usize) -> Option<usize>,
    LP: Fn(&Rope, usize, OffsetEncoding) -> LspPosition,
> Outside<MH, MV, NW, PW, WE, NG, PG, NN, NP, CP, PC, LL, SM, PU, FR, SI, TC, ES, MB, LP> {
    /// Indenting puts as many units as the count says in at the start of every line
    /// that a range touches, as a step of the history.
    pub proof fn touched_lines_are_indented(self, pre: Context, post: Context)
        requires
            self.runs(Command::indent, pre, post),
        ensures
            first_makes(
                pre,
                post,
                retold(
                    pre.text(),
                    |pos: int|
                        if starts_line(pre.text(), pos) && touched(
                            pre,
                            text::line_of(pre.text(), pos),
                        ) {
                            strings::repeated(pre.editor.doc.indent_unit@, pre.times() as nat)
                        } else {
                            Seq::empty()
                        },
                    |pos: int| false,
                ),
            ),
            added(pre, post) == seq![added(pre, post)[0], EffectView::AppendChangesToHistory],
    {
        let inserted = strings::repeated(pre.editor.doc.indent_unit@, pre.times() as nat);
        indentation_goes_in_where_touched_lines_start(pre, inserted);
        self.lemma_asked(Command::indent, pre, post);
    }

    proof fn lemma_asked(self, command: Command, pre: Context, post: Context)
        requires
            self.runs(command, pre, post),
            command == Command::indent || command == Command::unindent || command
                == Command::join_selections,
        ensures
            added(pre, post) == seq![
                EffectView::Apply(
                    change::TransactionView::of(
                        if command == Command::indent {
                            lines::indent_changes(
                                pre.text(),
                                lines::touched_lines(pre.text(), pre.selection().ranges),
                                strings::repeated(
                                    pre.editor.doc.indent_unit@,
                                    pre.times() as nat,
                                ),
                            )
                        } else if command == Command::unindent {
                            lines::unindent_changes(
                                pre.text(),
                                lines::touched_lines(pre.text(), pre.selection().ranges),
                                pre.editor.doc.tab_width as int,
                                pre.times() * pre.editor.doc.tab_width,
                            )
                        } else {
                            lines::join_changes(
                                pre.text(),
                                lines::spanned_lines(pre.text(), pre.selection().ranges, true),
                            )
                        },
                    ),
                ),
                EffectView::AppendChangesToHistory,
            ],
    {
        let asked = seq![
            EffectView::Apply(
                change::TransactionView::of(
                    if command == Command::indent {
                        lines::indent_changes(
                            pre.text(),
                            lines::touched_lines(pre.text(), pre.selection().ranges),
                            strings::repeated(pre.editor.doc.indent_unit@, pre.times() as nat),
                        )
                    } else if command == Command::unindent {
                        lines::unindent_changes(
                            pre.text(),
                            lines::touched_lines(pre.text(), pre.selection().ranges),
                            pre.editor.doc.tab_width as int,
                            pre.times() * pre.editor.doc.tab_width,
                        )
                    } else {
                        lines::join_changes(
                            pre.text(),
                            lines::spanned_lines(pre.text(), pre.selection().ranges, true),
                        )
                    },
                ),
            ),
            EffectView::AppendChangesToHistory,
        ];
        remade::lemma_added(pre, post, asked);
    }

    /// Unindenting takes blanks from the start of every line that a range touches,
    /// up to as many tab widths as the count says, as a step of the history.
    pub proof fn touched_lines_are_unindented(self, pre: Context, post: Context)
        requires
            self.runs(Command::unindent, pre, post),
            pre.editor.doc.tab_width > 0,
        ensures
            first_makes(
                pre,
                post,
                remade::left(
                    pre.text(),
                    |pos: int|
                        text_loses(
                            pre,
                            pre.editor.doc.tab_width as int,
                            pre.times() * pre.editor.doc.tab_width,
                            pos,
                        ),
                ),
            ),
            added(pre, post) == seq![added(pre, post)[0], EffectView::AppendChangesToHistory],
    {
        unindenting_takes_blanks_up_to_the_width(
            pre,
            pre.editor.doc.tab_width as int,
            pre.times() * pre.editor.doc.tab_width,
        );
        self.lemma_asked(Command::unindent, pre, post);
    }

    /// Joining lines puts spaces between them and takes their endings away, as a
    /// step of the history.
    pub proof fn selected_lines_are_joined(self, pre: Context, post: Context)
        requires
            self.can_run(Command::join_selections, pre),
            self.runs(Command::join_selections, pre, post),
        ensures
            first_makes(
                pre,
                post,
                retold(
                    pre.text(),
                    |pos: int|
                        if is_joint(pre, pos) {
                            seq![' ']
                        } else {
                            Seq::empty()
                        },
                    |pos: int| gives_way(pre, pos),
                ),
            ),
            added(pre, post) == seq![added(pre, post)[0], EffectView::AppendChangesToHistory],
    {
        joining_puts_spaces_between_lines(pre);
        self.lemma_asked(Command::join_selections, pre, post);
    }

    /// Whether the levels are what is suggested for the lines opened for the ranges.
    pub open spec fn levels_for_opening(self, cx: Context, below: bool, levels: Seq<usize>) -> bool {
        &&& levels.len() == cx.selection().ranges.len()
        &&& forall|i: int|
            0 <= i < levels.len() ==> call_ensures(
                self.suggested_indent,
                (
                    &cx.editor.doc.text,
                    opened_at(cx.text(), below, cx.selection().ranges[i]) as usize,
                    true,
                ),
                #[trigger] levels[i],
            )
    }

    /// Whether an edit opens as many lines as the count says for each range, and
    /// leaves a cursor behind the indentation of every one of them.
    pub open spec fn opens_lines(
        self,
        cx: Context,
        below: bool,
        levels: Seq<usize>,
        edit: change::TransactionView,
    ) -> bool {
        let s = cx.text();
        let ranges = cx.selection().ranges;
        let unit = cx.editor.doc.indent_unit@;
        let count = cx.times();
        let place = |i: int| opened_at(s, below, ranges[i]);
        let value = |i: int| strings::repeated(fresh_line(unit, levels[i]), count as nat);
        &&& change::edited(s, edit.changes) == remade(
            s,
            ranges.len() as int,
            place,
            value,
            |pos: int| false,
        )
        &&& edit.selection matches Some(selection) && {
            &&& selection.ranges.len() == ranges.len() * count
            &&& selection.primary_index == cx.selection().primary_index
            &&& forall|i: int, j: int|
                0 <= i < ranges.len() && 0 <= j < count ==> {
                    let cursor = #[trigger] selection.ranges[i * count + j];
                    let indent = strings::bytes(strings::repeated(unit, levels[i] as nat));
                    let line = if !below && text::line_of(s, ranges[i].head as int) == 0 {
                        0
                    } else {
                        place(i) + lengths(value, i) + 1
                    };
                    cursor == Range::between(
                        (line + j * (1 + indent) + indent) as usize,
                        (line + j * (1 + indent) + indent) as usize,
                    )
                }
        }
    }

    /// Opening lines puts them in at the end of each line with a cursor, or of the
    /// line before it, and goes on in insert mode.
    pub proof fn lines_are_opened_beside_the_cursors(
        self,
        below: bool,
        pre: Context,
        post: Context,
    )
        requires
            pre.wf(),
            pre.selection().separated(),
            below ==> self.can_run(Command::open_below, pre) && self.runs(
                Command::open_below,
                pre,
                post,
            ),
            !below ==> self.can_run(Command::open_above, pre) && self.runs(
                Command::open_above,
                pre,
                post,
            ),
        ensures
            post.editor.doc.mode == Mode::Insert,
            added(pre, post).len() == 1,
            exists|levels: Seq<usize>|
                #[trigger] self.levels_for_opening(pre, below, levels) && (added(
                    pre,
                    post,
                )[0] matches EffectView::Apply(edit) && self.opens_lines(
                    pre,
                    below,
                    levels,
                    edit,
                )),
    {
        let s = pre.text();
        let ranges = pre.selection().ranges;
        let side = if below {
            Open::Below
        } else {
            Open::Above
        };
        let unit = pre.editor.doc.indent_unit@;
        let count = pre.times();
        let levels = choose|levels: Seq<usize>|
            #[trigger] open::suggested(
                self.suggested_indent,
                pre.editor.doc.text,
                ranges,
                side,
                levels,
            ) && post.asks(
                pre.in_mode(Mode::Insert),
                seq![
                    EffectView::Apply(
                        open::open_edit(s, pre.selection(), side, unit, levels, count),
                    ),
                ],
            );
        let edit = open::open_edit(s, pre.selection(), side, unit, levels, count);
        let place = |i: int| opened_at(s, below, ranges[i]);
        let value = |i: int| strings::repeated(fresh_line(unit, levels[i]), count as nat);
        remade::lemma_added(pre, post, seq![EffectView::Apply(edit)]);
        assert forall|i: int| 0 <= i < ranges.len() implies open::open_index(
            s,
            side,
            #[trigger] ranges[i],
        ) == place(i) by {
            assert(ranges[i].within(s.len() as int));
            lemma_open_index(s, below, ranges[i]);
        }
        assert forall|i: int| 0 <= i < levels.len() implies call_ensures(
            self.suggested_indent,
            (&pre.editor.doc.text, opened_at(s, below, ranges[i]) as usize, true),
            #[trigger] levels[i],
        ) by {
            assert(open::open_index(s, side, ranges[i]) == place(i));
        }
        assert(self.levels_for_opening(pre, below, levels));
        line_laws::opening_is_in_order(pre, side, unit, levels, count);
        assert forall|i: int| 0 <= i < edit.changes.len() implies (
        #[trigger] edit.changes[i]).from == place(i) && edit.changes[i].inserted() == value(
            i,
        ) by {
            assert(open::open_index(s, side, ranges[i]) == place(i));
            assert(open::indented_line(unit, levels[i]) == fresh_line(unit, levels[i]));
        }
        remade::lemma_remade(s, edit.changes, place, value, |pos: int| false);
        let selection = edit.selection->0;
        assert(ranges.len() > 0);
        lemma_open_cursor(s, ranges, side, unit, levels, count, ranges.len() as int, 0, 0);
        assert forall|i: int, j: int| 0 <= i < ranges.len() && 0 <= j < count implies {
            let cursor = #[trigger] selection.ranges[i * count + j];
            let indent = strings::bytes(strings::repeated(unit, levels[i] as nat));
            let line = if !below && text::line_of(s, ranges[i].head as int) == 0 {
                0
            } else {
                place(i) + lengths(value, i) + 1
            };
            cursor == Range::between(
                (line + j * (1 + indent) + indent) as usize,
                (line + j * (1 + indent) + indent) as usize,
            )
        } by {
            lemma_open_cursor(s, ranges, side, unit, levels, count, ranges.len() as int, i, j);
            lemma_open_lengths(unit, levels, count, i);
            assert(open::open_index(s, side, ranges[i]) == place(i));
            assert(ranges[i].within(s.len() as int));
            text::lemma_line_of_position(s, ranges[i].head as int);
        }
        assert(self.opens_lines(pre, below, levels, edit));
    }

    /// Whether the levels are what is suggested for the lines started at the
    /// cursors: after the character before each.
    pub open spec fn levels_for_starting(self, cx: Context, levels: Seq<usize>) -> bool {
        &&& levels.len() == cx.selection().ranges.len()
        &&& forall|i: int|
            0 <= i < levels.len() ==> call_ensures(
                self.suggested_indent,
                (
                    &cx.editor.doc.text,
                    if cx.selection().ranges[i].head == 0 {
                        0
                    } else {
                        (cx.selection().ranges[i].head - 1) as usize
                    },
                    true,
                ),
                #[trigger] levels[i],
            )
    }

    /// Whether an edit starts a line at each cursor and leaves the cursor behind its
    /// indentation. The other end of a range moves on by as much as is put in
    /// before the range.
    pub open spec fn starts_new_lines(
        self,
        cx: Context,
        levels: Seq<usize>,
        edit: change::TransactionView,
    ) -> bool {
        let s = cx.text();
        let ranges = cx.selection().ranges;
        let unit = cx.editor.doc.indent_unit@;
        let value = |i: int| started_line(s, ranges[i].head as int, unit, levels[i], self.pairs@);
        &&& change::edited(s, edit.changes) == remade(
            s,
            ranges.len() as int,
            |i: int| ranges[i].head as int,
            value,
            |pos: int| false,
        )
        &&& edit.selection matches Some(selection) && {
            &&& selection.ranges.len() == ranges.len()
            &&& selection.primary_index == cx.selection().primary_index
            &&& forall|i: int|
                0 <= i < ranges.len() ==> {
                    let before = lengths(value, i);
                    let head = (ranges[i].head + before + fresh_line(unit, levels[i]).len()) as usize;
                    (#[trigger] selection.ranges[i]) == if ranges[i].anchor == ranges[i].head {
                        Range::between(head, head)
                    } else {
                        Range::between((ranges[i].anchor + before) as usize, head)
                    }
                }
        }
    }

    /// The enter key starts a line at each cursor.
    pub proof fn lines_are_started_at_the_cursors(self, pre: Context, post: Context)
        requires
            pre.wf(),
            pre.selection().separated(),
            self.can_run(Command::insert_newline, pre),
            self.runs(Command::insert_newline, pre, post),
        ensures
            post.editor.doc == pre.editor.doc,
            added(pre, post).len() == 1,
            exists|levels: Seq<usize>|
                #[trigger] self.levels_for_starting(pre, levels) && (
                added(pre, post)[0] matches EffectView::Apply(edit) && self.starts_new_lines(
                    pre,
                    levels,
                    edit,
                )),
    {
        let s = pre.text();
        let ranges = pre.selection().ranges;
        let unit = pre.editor.doc.indent_unit@;
        let pairs = self.pairs@;
        let levels = choose|levels: Seq<usize>|
            #[trigger] insert::suggested(
                self.suggested_indent,
                pre.editor.doc.text,
                ranges,
                levels,
            ) && post.asks(
                pre,
                seq![
                    EffectView::Apply(
                        insert::newline_edit(s, pre.selection(), unit, levels, pairs),
                    ),
                ],
            );
        let edit = insert::newline_edit(s, pre.selection(), unit, levels, pairs);
        let value = |i: int| started_line(s, ranges[i].head as int, unit, levels[i], pairs);
        let place = |i: int| ranges[i].head as int;
        remade::lemma_added(pre, post, seq![EffectView::Apply(edit)]);
        assert forall|i: int| 0 <= i < levels.len() implies call_ensures(
            self.suggested_indent,
            (
                &pre.editor.doc.text,
                if ranges[i].head == 0 {
                    0
                } else {
                    (ranges[i].head - 1) as usize
                },
                true,
            ),
            #[trigger] levels[i],
        ) by {
            assert(ranges[i].within(s.len() as int));
        }
        assert(self.levels_for_starting(pre, levels));
        line_laws::newlines_are_in_order(pre, unit, levels, pairs);
        assert forall|i: int| 0 <= i < edit.changes.len() implies (
        #[trigger] edit.changes[i]).from == place(i) && edit.changes[i].inserted() == value(
            i,
        ) by {
            lemma_started_line(s, ranges[i].head as int, unit, levels[i], pairs);
        }
        remade::lemma_remade(s, edit.changes, place, value, |pos: int| false);
        let selection = edit.selection->0;
        assert forall|i: int| 0 <= i < ranges.len() implies {
            let before = lengths(value, i);
            let head = (ranges[i].head + before + fresh_line(unit, levels[i]).len()) as usize;
            (#[trigger] selection.ranges[i]) == if ranges[i].anchor == ranges[i].head {
                Range::between(head, head)
            } else {
                Range::between((ranges[i].anchor + before) as usize, head)
            }
        } by {
            lemma_newline_lengths(s, ranges, unit, levels, pairs, i);
        }
        assert(self.starts_new_lines(pre, levels, edit));
    }
}

} // verus!
