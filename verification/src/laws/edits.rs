//! What commands make of the text, told character by character.

use crate::change::{self, Transaction};
use crate::command::Command;
use crate::edit::{self, Paste};
use crate::editor::{Context, Direction, EffectView, Mode, Movement, Position, Window};
use crate::execute::Outside;
use crate::insert;
use crate::laws;
use crate::laws::remade::{added, held, holds, left, remade};
use crate::laws::remade;
use crate::lsp::{LspPosition, OffsetEncoding};
use crate::selection::{Range, Selection};
use crate::strings;
use crate::text;
use ropey::Rope;
use vstd::prelude::*;

verus! {

/// Whether what was asked for first is an edit that makes `t` of the text, with
/// the ranges left to follow it.
pub open spec fn first_makes(pre: Context, post: Context, t: Seq<char>) -> bool {
    &&& added(pre, post).len() > 0
    &&& added(pre, post)[0] matches EffectView::Apply(edit) && change::edited(
        pre.text(),
        edit.changes,
    ) == t && edit.selection is None
}

/// Whether some range holds the character at `pos`, and it is not the last of the
/// text.
pub open spec fn taken_up(cx: Context, pos: int) -> bool {
    pos + 1 < cx.text().len() && held(cx.selection().ranges, pos)
}

proof fn lemma_taken_up(cx: Context, pos: int)
    requires
        cx.wf(),
        edit::spans(cx),
        0 <= pos < cx.text().len(),
    ensures
        taken_up(cx, pos) == exists|i: int|
            0 <= i < cx.selection().ranges.len() && (#[trigger] cx.selection().ranges[i]).low()
                <= pos < edit::span_end(cx.text().len() as int, cx.selection().ranges[i]),
{
    let ranges = cx.selection().ranges;
    let len = cx.text().len() as int;
    if taken_up(cx, pos) {
        let i = choose|i: int| 0 <= i < ranges.len() && holds(#[trigger] ranges[i], pos);
        assert(ranges[i].low() <= pos < edit::span_end(len, ranges[i]));
    }
    if exists|i: int|
        0 <= i < ranges.len() && (#[trigger] ranges[i]).low() <= pos < edit::span_end(
            len,
            ranges[i],
        ) {
        let i = choose|i: int|
            0 <= i < ranges.len() && (#[trigger] ranges[i]).low() <= pos < edit::span_end(
                len,
                ranges[i],
            );
        assert(holds(ranges[i], pos));
    }
}

/// Replacing by a character puts it in place of every character that a range
/// holds but for the line feeds and the last character of the text. All others
/// stay, and each stays in its place.
pub proof fn replacing_changes_what_is_held(cx: Context, ch: char)
    requires
        cx.wf(),
        cx.selection().separated(),
        edit::spans(cx),
    ensures
        ({
            let s = cx.text();
            let t = change::edited(
                s,
                edit::replacement(s, cx.selection().ranges, ch).changes,
            );
            &&& t.len() == s.len()
            &&& forall|pos: int|
                0 <= pos < s.len() ==> #[trigger] t[pos] == if taken_up(cx, pos) && s[pos] != '\n' {
                    ch
                } else {
                    s[pos]
                }
        }),
        edit::replacement(cx.text(), cx.selection().ranges, ch).selection is None,
{
    let s = cx.text();
    let ranges = cx.selection().ranges;
    let changes = edit::replacement(s, ranges, ch).changes;
    laws::replacement_is_in_order(cx, ch);
    assert forall|i: int| 0 <= i < changes.len() implies (#[trigger] changes[i]).inserted().len()
        == changes[i].to - changes[i].from by {
        assert(ranges[i].within(s.len() as int));
        assert(ranges[i].low() <= edit::span_end(s.len() as int, ranges[i]));
    }
    remade::lemma_in_place(s, changes);
    let t = change::edited(s, changes);
    assert forall|pos: int| 0 <= pos < s.len() implies #[trigger] t[pos] == if taken_up(cx, pos)
        && s[pos] != '\n' {
        ch
    } else {
        s[pos]
    } by {
        lemma_taken_up(cx, pos);
        if taken_up(cx, pos) {
            let i = choose|i: int|
                0 <= i < ranges.len() && (#[trigger] ranges[i]).low() <= pos < edit::span_end(
                    s.len() as int,
                    ranges[i],
                );
            assert(changes[i].from <= pos < changes[i].to);
            assert(t[pos] == changes[i].inserted()[pos - changes[i].from]);
        } else {
            assert forall|i: int| 0 <= i < changes.len() implies !((#[trigger] changes[i]).from
                <= pos < changes[i].to) by {
                assert(changes[i].from == ranges[i].low());
            }
        }
    }
}

/// Text put in at cursors stands before what was under each cursor, further on by
/// as much as the cursors before put in, and what was there is there still.
pub proof fn text_goes_in_at_the_cursors(cx: Context, inserted: Seq<char>)
    requires
        cx.wf(),
        cx.selection().separated(),
    ensures
        ({
            let s = cx.text();
            let ranges = cx.selection().ranges;
            let edit = insert::inserts(ranges, inserted);
            let t = change::edited(s, edit.changes);
            &&& edit.selection is None
            &&& t == remade(
                s,
                ranges.len() as int,
                |i: int| ranges[i].head as int,
                |i: int| inserted,
                |pos: int| false,
            )
            &&& forall|i: int|
                0 <= i < ranges.len() ==> {
                    let at = (#[trigger] ranges[i]).head + i * inserted.len();
                    &&& 0 <= at <= t.len() - inserted.len()
                    &&& t.subrange(at, at + inserted.len()) == inserted
                }
        }),
{
    let s = cx.text();
    let ranges = cx.selection().ranges;
    let changes = insert::inserts(ranges, inserted).changes;
    laws::insertion_is_in_order(cx, inserted);
    remade::lemma_remade(
        s,
        changes,
        |i: int| ranges[i].head as int,
        |i: int| inserted,
        |pos: int| false,
    );
    let t = change::edited(s, changes);
    assert forall|i: int| 0 <= i < ranges.len() implies {
        let at = (#[trigger] ranges[i]).head + i * inserted.len();
        &&& 0 <= at <= t.len() - inserted.len()
        &&& t.subrange(at, at + inserted.len()) == inserted
    } by {
        change::lemma_inserted_at(s, changes, i);
        lemma_inserted_alike(ranges, inserted, i);
        assert(changes[i].from == ranges[i].head);
    }
}

proof fn lemma_inserted_alike(ranges: Seq<Range>, inserted: Seq<char>, k: int)
    requires
        0 <= k <= ranges.len(),
    ensures
        change::inserted_before(insert::inserts(ranges, inserted).changes, k) == k * inserted.len(),
    decreases k,
{
    if k > 0 {
        lemma_inserted_alike(ranges, inserted, k - 1);
        assert((k - 1) * inserted.len() + inserted.len() == k * inserted.len())
            by (nonlinear_arith);
    } else {
        assert(0 * inserted.len() == 0);
    }
}

/// A character that is typed with no hook to say otherwise goes in at every
/// cursor: behind what a range holds where its head is its larger end.
pub proof fn typing_goes_in_at_the_cursors<
    H: Fn(&Rope, &Selection, char) -> Option<Transaction>,
>(pre: Context, post: Context, ch: char, hook: H, i: int)
    requires
        pre.wf(),
        pre.selection().separated(),
        insert::types(pre, post, ch, hook),
        forall|hooked: Option<Transaction>| #[trigger]
            call_ensures(
                hook,
                (&pre.editor.doc.text, &pre.editor.doc.selection, ch),
                hooked,
            ) ==> hooked is None,
        0 <= i < pre.selection().ranges.len(),
    ensures
        ({
            let s = pre.text();
            let ranges = pre.selection().ranges;
            let range = ranges[i];
            let t = remade(
                s,
                ranges.len() as int,
                |j: int| ranges[j].head as int,
                |j: int| seq![ch],
                |pos: int| false,
            );
            &&& first_makes(pre, post, t)
            &&& added(pre, post) == seq![added(pre, post)[0], EffectView::AfterInsert(ch)]
            &&& range.head + i < t.len()
            &&& t[range.head + i] == ch
            &&& t.len() == s.len() + ranges.len()
            &&& forall|pos: int|
                (if i == 0 {
                    0
                } else {
                    ranges[i - 1].head as int
                }) <= pos < range.head ==> #[trigger] s[pos] == t[pos + i]
        }),
{
    let s = pre.text();
    let ranges = pre.selection().ranges;
    let hooked = choose|hooked: Option<Transaction>|
        #[trigger] insert::types_with(pre, post, ch, hook, hooked);
    assert(hooked is None);
    let edit = insert::inserts(ranges, seq![ch]);
    remade::lemma_added(pre, post, seq![EffectView::Apply(edit), EffectView::AfterInsert(ch)]);
    text_goes_in_at_the_cursors(pre, seq![ch]);
    let t = change::edited(s, edit.changes);
    laws::insertion_is_in_order(pre, seq![ch]);
    change::lemma_inserted_at(s, edit.changes, 0);
    lemma_inserted_alike(ranges, seq![ch], ranges.len() as int);
    assert(t.subrange(ranges[i].head + i * 1, ranges[i].head + i * 1 + 1)[0] == ch);
    assert forall|pos: int|
        (if i == 0 {
            0
        } else {
            ranges[i - 1].head as int
        }) <= pos < ranges[i].head implies #[trigger] s[pos] == t[pos + i] by {
        lemma_between_cursors(pre, seq![ch], i, pos);
    }
}

proof fn lemma_between_cursors(cx: Context, inserted: Seq<char>, i: int, pos: int)
    requires
        cx.wf(),
        cx.selection().separated(),
        0 <= i < cx.selection().ranges.len(),
        (if i == 0 {
            0
        } else {
            cx.selection().ranges[i - 1].head as int
        }) <= pos < cx.selection().ranges[i].head,
    ensures
        ({
            let t = change::edited(
                cx.text(),
                insert::inserts(cx.selection().ranges, inserted).changes,
            );
            &&& 0 <= pos + i * inserted.len() < t.len()
            &&& t[pos + i * inserted.len()] == cx.text()[pos]
        }),
{
    let ranges = cx.selection().ranges;
    laws::insertion_is_in_order(cx, inserted);
    assert(ranges[i].within(cx.text().len() as int));
    lemma_kept_between(
        cx.text(),
        insert::inserts(ranges, inserted).changes,
        ranges,
        inserted,
        ranges.len() as int,
        i,
        pos,
    );
    assert(insert::inserts(ranges, inserted).changes.take(ranges.len() as int)
        =~= insert::inserts(ranges, inserted).changes);
}

proof fn lemma_kept_between(
    s: Seq<char>,
    changes: Seq<change::ChangeView>,
    ranges: Seq<Range>,
    inserted: Seq<char>,
    n: int,
    i: int,
    pos: int,
)
    requires
        changes == insert::inserts(ranges, inserted).changes,
        change::in_order(changes.take(n), s.len() as int),
        0 <= i <= n <= ranges.len(),
        0 <= pos < s.len(),
        i < n ==> pos < ranges[i].head,
        i > 0 ==> ranges[i - 1].head <= pos,
    ensures
        0 <= pos + i * inserted.len() < change::edited(s, changes.take(n)).len(),
        change::edited(s, changes.take(n))[pos + i * inserted.len()] == s[pos],
    decreases n,
{
    let first = changes.take(n);
    if n > 0 {
        let last = first.last();
        let before = first.drop_last();
        assert(before =~= changes.take(n - 1));
        assert(last == changes[n - 1]);
        change::lemma_edited_last(s, first);
        let start = s.take(last.from);
        let u = change::edited(start, before);
        change::lemma_inserted_at(start, before, 0);
        lemma_inserted_first(ranges, inserted, n - 1, n - 1);
        assert((n - 1) * inserted.len() + inserted.len() == n * inserted.len())
            by (nonlinear_arith);
        if i < n {
            if i < n - 1 {
                assert(first[i].to <= first[n - 1].from);
            }
            assert(pos < last.from);
            lemma_kept_between(start, changes, ranges, inserted, n - 1, i, pos);
        } else {
            assert(ranges[n - 1].head <= pos);
        }
    } else {
        assert(first =~= Seq::empty());
        assert(0 * inserted.len() == 0);
    }
}

proof fn lemma_inserted_first(ranges: Seq<Range>, inserted: Seq<char>, n: int, k: int)
    requires
        0 <= k <= n <= ranges.len(),
    ensures
        change::inserted_before(insert::inserts(ranges, inserted).changes.take(n), k) == k
            * inserted.len(),
        change::only_inserts(insert::inserts(ranges, inserted).changes.take(n)),
    decreases k,
{
    if k > 0 {
        lemma_inserted_first(ranges, inserted, n, k - 1);
        assert((k - 1) * inserted.len() + inserted.len() == k * inserted.len())
            by (nonlinear_arith);
    } else {
        assert(0 * inserted.len() == 0);
    }
}

/// Where a value is pasted beside a range: before the first character or after
/// the last one that it holds; for whole lines, where its first line starts or
/// where the line after its last one does.
pub open spec fn paste_place(s: Seq<char>, range: Range, after: bool, lines: bool) -> int {
    let first = if range.anchor <= range.head {
        range.anchor as int
    } else {
        range.head as int
    };
    let last = if range.anchor <= range.head {
        range.head as int
    } else {
        range.anchor as int
    };
    if lines && after {
        text::line_start(s, text::line_of(s, last) + 1)
    } else if lines {
        text::line_start(s, text::line_of(s, first))
    } else if after {
        last + 1
    } else {
        first
    }
}

proof fn lemma_removals_in_order(cx: Context, ends: Seq<usize>, backward: bool, k: int)
    requires
        cx.wf(),
        0 <= k <= cx.selection().ranges.len(),
        ends.len() == cx.selection().ranges.len(),
        forall|i: int|
            0 <= i < cx.selection().ranges.len() ==> if backward {
                (#[trigger] ends[i]) <= cx.selection().ranges[i].head && (i > 0
                    ==> cx.selection().ranges[i - 1].head <= ends[i])
            } else {
                cx.selection().ranges[i].head <= ends[i] <= cx.text().len() && (i > 0 ==> ends[i
                    - 1] <= cx.selection().ranges[i].head)
            },
    ensures
        change::in_order(
            insert::removals(cx.selection().ranges, ends, backward).changes.take(k),
            cx.text().len() as int,
        ),
        k == cx.selection().ranges.len() ==> change::in_order(
            insert::removals(cx.selection().ranges, ends, backward).changes,
            cx.text().len() as int,
        ),
    decreases k,
{
    let ranges = cx.selection().ranges;
    let changes = insert::removals(ranges, ends, backward).changes;
    if k > 0 {
        lemma_removals_in_order(cx, ends, backward, k - 1);
        let before = changes.take(k - 1);
        let first = changes.take(k);
        assert(ranges[k - 1].within(cx.text().len() as int));
        assert(ends[k - 1] == ends[k - 1]);
        assert forall|i: int| 0 <= i < first.len() implies 0 <= (#[trigger] first[i]).from
            <= first[i].to <= cx.text().len() by {
            if i < k - 1 {
                assert(before[i] == first[i]);
            }
        }
        assert forall|i: int, j: int| 0 <= i < j < first.len() implies (#[trigger] first[i]).to <= (
        #[trigger] first[j]).from by {
            assert(before[i] == first[i]);
            if j < k - 1 {
                assert(before[j] == first[j]);
            } else {
                assert(ends[k - 2] == ends[k - 2]);
                if i < k - 2 {
                    assert(before[i].to <= before[k - 2].from);
                    assert(before[k - 2].from <= before[k - 2].to);
                }
                assert(first[k - 2].to <= first[k - 1].from);
            }
        }
    }
    if k == ranges.len() {
        assert(changes.take(k) =~= changes);
    }
}

impl<
    MH: Fn(&Rope, Range, Direction, usize, Movement) -> Range,
    MV: Fn(&Rope, Range, Direction, usize, Movement) -> Range,
    NW: Fn(&Rope, Range, usize) -> Range,
    PW: Fn(&Rope, Range, usize) -> Range,
    WE: Fn(&Rope, Range, usize) -> Range,
    NG: Fn(&Rope, usize) -> usize,
    PG: Fn(&Rope, usize) -> usize,
    NN: Fn(&Rope, usize, usize) -> usize,
    NP: Fn(&Rope, usize, usize) -> usize,
    CP: Fn(&Rope, usize) -> Position,
    PC: Fn(&Rope, Position) -> usize,
    LL: Fn(&Window, &Rope) -> usize,
    SM: Fn(&Rope, &Selection, &str) -> Selection,
    PU: Fn(&Selection, Range) -> Selection,
    FR: Fn(&Rope, Range) -> String,
    SI: Fn(&Rope, usize, bool) -> usize,
    TC: Fn(&Rope, &Selection) -> Transaction,
    ES: Fn(&Rope, &Selection) -> Selection,
    MB: Fn(&Rope, usize) -> Option<usize>,
    LP: Fn(&Rope, usize, OffsetEncoding) -> LspPosition,
> Outside<MH, MV, NW, PW, WE, NG, PG, NN, NP, CP, PC, LL, SM, PU, FR, SI, TC, ES, MB, LP> {
    /// Deleting or changing what is selected takes what the ranges hold out of the
    /// text, all but the last character of it, and keeps a copy of each range in
    /// the chosen register. Deleting is a step of the history, changing goes on in
    /// insert mode.
    pub proof fn deleting_takes_what_is_held(self, command: Command, pre: Context, post: Context)
        requires
            pre.wf(),
            pre.selection().separated(),
            self.can_run(command, pre),
            self.runs(command, pre, post),
            command == Command::delete_selection || command == Command::change_selection,
        ensures
            first_makes(pre, post, left(pre.text(), |pos: int| taken_up(pre, pos))),
            if command == Command::delete_selection {
                &&& added(pre, post) == seq![
                    added(pre, post)[0],
                    EffectView::AppendChangesToHistory,
                ]
                &&& post.editor.doc.mode == if pre.editor.doc.mode == Mode::Select {
                    Mode::Normal
                } else {
                    pre.editor.doc.mode
                }
            } else {
                &&& added(pre, post).len() == 1
                &&& post.editor.doc.mode == Mode::Insert
            },
            self.copied(pre, post),
    {
        let s = pre.text();
        let ranges = pre.selection().ranges;
        let edit = edit::deletion(s, ranges);
        let gone = |pos: int| taken_up(pre, pos);
        laws::deletion_is_in_order(pre);
        assert forall|pos: int| 0 <= pos < s.len() implies #[trigger] gone(pos) == exists|i: int|
            0 <= i < edit.changes.len() && (#[trigger] edit.changes[i]).from <= pos
                < edit.changes[i].to by {
            lemma_taken_up(pre, pos);
            if taken_up(pre, pos) {
                let i = choose|i: int|
                    0 <= i < ranges.len() && (#[trigger] ranges[i]).low() <= pos < edit::span_end(
                        s.len() as int,
                        ranges[i],
                    );
                assert(edit.changes[i].from <= pos < edit.changes[i].to);
            }
            if exists|i: int|
                0 <= i < edit.changes.len() && (#[trigger] edit.changes[i]).from <= pos
                    < edit.changes[i].to {
                let i = choose|i: int|
                    0 <= i < edit.changes.len() && (#[trigger] edit.changes[i]).from <= pos
                        < edit.changes[i].to;
                assert(ranges[i].low() <= pos < edit::span_end(s.len() as int, ranges[i]));
            }
        }
        remade::lemma_left(s, edit.changes, gone);
        if command == Command::delete_selection {
            remade::lemma_added(pre, post, edit::edit_step(edit));
            self.lemma_copied(pre, pre.out_of_select_mode(), post, edit::edit_step(edit));
        } else {
            remade::lemma_added(pre, post, seq![EffectView::Apply(edit)]);
            self.lemma_copied(
                pre,
                pre.in_mode(Mode::Insert),
                post,
                seq![EffectView::Apply(edit)],
            );
        }
    }

    /// Whether the values are what `fragment` says of the ranges, in order.
    pub open spec fn copies_of(self, cx: Context, values: Seq<String>) -> bool {
        &&& values.len() == cx.selection().ranges.len()
        &&& forall|i: int|
            0 <= i < values.len() ==> call_ensures(
                self.fragment,
                (&cx.editor.doc.text, cx.selection().ranges[i]),
                #[trigger] values[i],
            )
    }

    /// Whether the chosen register holds a copy of every range, and the other
    /// registers hold what they held.
    pub open spec fn copied(self, pre: Context, post: Context) -> bool {
        exists|values: Seq<String>|
            {
                &&& #[trigger] self.copies_of(pre, values)
                &&& post.editor.registers@ == pre.editor.registers@.insert(
                    pre.selected_register,
                    strings::string_views(values),
                )
            }
    }

    proof fn lemma_copied(
        self,
        pre: Context,
        base: Context,
        post: Context,
        asked: Seq<EffectView>,
    )
        requires
            edit::copies_and_asks(base, post, pre.selected_register, self.fragment, asked),
            base.editor.doc.text == pre.editor.doc.text,
            base.editor.doc.selection == pre.editor.doc.selection,
            base.editor.registers == pre.editor.registers,
        ensures
            self.copied(pre, post),
    {
        let values = choose|values: Seq<String>|
            {
                &&& #[trigger] edit::fragments(base, self.fragment, values)
                &&& post.editor.registers@ == base.editor.registers@.insert(
                    pre.selected_register,
                    strings::string_views(values),
                )
                &&& post.asks(base.with_registers(post.editor.registers), asked)
            };
        assert(self.copies_of(pre, values));
    }

    /// Yanking keeps a copy of each range in the chosen register and asks for
    /// nothing.
    pub proof fn yanking_copies_what_is_held(self, pre: Context, post: Context)
        requires
            self.runs(Command::yank, pre, post),
        ensures
            self.copied(pre, post),
            added(pre, post).len() == 0,
            post.editor.doc == pre.editor.doc,
    {
        remade::lemma_added(pre, post, Seq::empty());
        self.lemma_copied(pre, pre.saying(post.editor.status_msg), post, Seq::empty());
    }

    /// Replacing what is selected with what was yanked puts the first value of the
    /// chosen register in place of what each range holds. Without a value nothing
    /// is asked for.
    pub proof fn yanked_text_takes_the_place_of_what_is_held(self, pre: Context, post: Context)
        requires
            pre.wf(),
            pre.selection().separated(),
            self.can_run(Command::replace_with_yanked, pre),
            self.runs(Command::replace_with_yanked, pre, post),
        ensures
            ({
                let registers = pre.editor.registers@;
                let name = pre.selected_register;
                let ranges = pre.selection().ranges;
                if registers.contains_key(name) && registers[name].len() > 0 {
                    &&& first_makes(
                        pre,
                        post,
                        remade(
                            pre.text(),
                            ranges.len() as int,
                            |i: int|
                                if ranges[i].anchor <= ranges[i].head {
                                    ranges[i].anchor as int
                                } else {
                                    ranges[i].head as int
                                },
                            |i: int| registers[name][0],
                            |pos: int| taken_up(pre, pos),
                        ),
                    )
                    &&& added(pre, post) == seq![
                        added(pre, post)[0],
                        EffectView::AppendChangesToHistory,
                    ]
                } else {
                    post == pre
                }
            }),
    {
        let s = pre.text();
        let ranges = pre.selection().ranges;
        let name = pre.selected_register;
        let registers = pre.editor.registers@;
        if registers.contains_key(name) && registers[name].len() > 0 {
            let value = registers[name][0];
            let edit = edit::pasting_over(s, ranges, value);
            let gone = |pos: int| taken_up(pre, pos);
            laws::pasting_over_is_in_order(pre, value);
            assert forall|pos: int| 0 <= pos < s.len() implies #[trigger] gone(pos) == exists|
                i: int,
            |
                0 <= i < edit.changes.len() && (#[trigger] edit.changes[i]).from <= pos
                    < edit.changes[i].to by {
                lemma_taken_up(pre, pos);
                if taken_up(pre, pos) {
                    let i = choose|i: int|
                        0 <= i < ranges.len() && (#[trigger] ranges[i]).low() <= pos
                            < edit::span_end(s.len() as int, ranges[i]);
                    assert(edit.changes[i].from <= pos < edit.changes[i].to);
                }
                if exists|i: int|
                    0 <= i < edit.changes.len() && (#[trigger] edit.changes[i]).from <= pos
                        < edit.changes[i].to {
                    let i = choose|i: int|
                        0 <= i < edit.changes.len() && (#[trigger] edit.changes[i]).from <= pos
                            < edit.changes[i].to;
                    assert(ranges[i].low() <= pos < edit::span_end(s.len() as int, ranges[i]));
                }
            }
            let place = |i: int|
                if ranges[i].anchor <= ranges[i].head {
                    ranges[i].anchor as int
                } else {
                    ranges[i].head as int
                };
            remade::lemma_remade(s, edit.changes, place, |i: int| value, gone);
            remade::lemma_added(pre, post, edit::edit_step(edit));
        }
    }

    /// Pasting puts the values of the chosen register in, one for each range and
    /// the last for all further ones: before the first character or after the last
    /// one that a range holds, or before its first line or after its last one
    /// where some value ends a line.
    pub proof fn values_are_pasted_beside_what_is_held(
        self,
        command: Command,
        pre: Context,
        post: Context,
    )
        requires
            pre.wf(),
            pre.selection().separated(),
            self.can_run(command, pre),
            self.runs(command, pre, post),
            command == Command::paste_before || command == Command::paste_after,
            pre.editor.registers@.contains_key(pre.selected_register),
        ensures
            ({
                let s = pre.text();
                let ranges = pre.selection().ranges;
                let values = pre.editor.registers@[pre.selected_register];
                let lines = exists|j: int|
                    0 <= j < values.len() && (#[trigger] values[j]).len() > 0 && values[j].last()
                        == '\n';
                &&& first_makes(
                    pre,
                    post,
                    remade(
                        s,
                        ranges.len() as int,
                        |i: int| paste_place(s, ranges[i], command == Command::paste_after, lines),
                        |i: int|
                            if i < values.len() {
                                values[i]
                            } else {
                                values[values.len() - 1]
                            },
                        |pos: int| false,
                    ),
                )
                &&& added(pre, post) == seq![
                    added(pre, post)[0],
                    EffectView::AppendChangesToHistory,
                ]
            }),
    {
        let s = pre.text();
        let ranges = pre.selection().ranges;
        let values = pre.editor.registers@[pre.selected_register];
        let action = if command == Command::paste_after {
            Paste::After
        } else {
            Paste::Before
        };
        let lines = exists|j: int|
            0 <= j < values.len() && (#[trigger] values[j]).len() > 0 && values[j].last() == '\n';
        let edit = edit::pasting(s, ranges, values, action);
        laws::pasting_is_in_order(pre, values, action);
        let place = |i: int| paste_place(s, ranges[i], command == Command::paste_after, lines);
        let value = |i: int|
            if i < values.len() {
                values[i]
            } else {
                values[values.len() - 1]
            };
        let gone = |pos: int| false;
        remade::lemma_remade(s, edit.changes, place, value, gone);
        remade::lemma_added(pre, post, edit::edit_step(edit));
    }

    /// The tab key puts a unit of indentation in at every cursor.
    pub proof fn a_tab_goes_in_at_the_cursors(self, pre: Context, post: Context)
        requires
            pre.wf(),
            pre.selection().separated(),
            self.runs(Command::insert_tab, pre, post),
        ensures
            ({
                let ranges = pre.selection().ranges;
                first_makes(
                    pre,
                    post,
                    remade(
                        pre.text(),
                        ranges.len() as int,
                        |i: int| ranges[i].head as int,
                        |i: int| pre.editor.doc.indent_unit@,
                        |pos: int| false,
                    ),
                )
            }),
            added(pre, post).len() == 1,
    {
        let unit = pre.editor.doc.indent_unit@;
        text_goes_in_at_the_cursors(pre, unit);
        remade::lemma_added(
            pre,
            post,
            seq![EffectView::Apply(insert::inserts(pre.selection().ranges, unit))],
        );
    }

    /// Deleting characters takes away what lies between each cursor and where the
    /// boundary is said to be: before the cursor or after it.
    pub proof fn characters_are_deleted_up_to_the_boundary(
        self,
        command: Command,
        pre: Context,
        post: Context,
    )
        requires
            pre.wf(),
            self.runs(command, pre, post),
            command == Command::delete_char_backward || command == Command::delete_char_forward,
        ensures
            exists|ends: Seq<usize>|
                {
                    let ranges = pre.selection().ranges;
                    let backward = command == Command::delete_char_backward;
                    &&& #[trigger] ends.len() == ranges.len()
                    &&& forall|i: int|
                        0 <= i < ranges.len() ==> if backward {
                            call_ensures(
                                self.nth_prev_grapheme_boundary,
                                (&pre.editor.doc.text, ranges[i].head, pre.times()),
                                #[trigger] ends[i],
                            )
                        } else {
                            call_ensures(
                                self.nth_next_grapheme_boundary,
                                (&pre.editor.doc.text, ranges[i].head, pre.times()),
                                ends[i],
                            )
                        }
                    &&& (forall|i: int|
                        0 <= i < ranges.len() ==> if backward {
                            (#[trigger] ends[i]) <= ranges[i].head && (i > 0 ==> ranges[i - 1].head
                                <= ends[i])
                        } else {
                            ranges[i].head <= ends[i] <= pre.text().len() && (i > 0 ==> ends[i - 1]
                                <= ranges[i].head)
                        }) ==> first_makes(
                        pre,
                        post,
                        left(
                            pre.text(),
                            |pos: int|
                                exists|i: int|
                                    0 <= i < ranges.len() && if backward {
                                        (#[trigger] ends[i]) <= pos < ranges[i].head
                                    } else {
                                        ranges[i].head <= pos < ends[i]
                                    },
                        ),
                    )
                    &&& added(pre, post).len() == 1
                },
    {
        let s = pre.text();
        let ranges = pre.selection().ranges;
        let backward = command == Command::delete_char_backward;
        let ends = if backward {
            choose|ends: Seq<usize>|
                #[trigger] insert::bounded(pre, self.nth_prev_grapheme_boundary, ends) && post.asks(
                    pre,
                    seq![EffectView::Apply(insert::removals(ranges, ends, true))],
                )
        } else {
            choose|ends: Seq<usize>|
                #[trigger] insert::bounded(pre, self.nth_next_grapheme_boundary, ends) && post.asks(
                    pre,
                    seq![EffectView::Apply(insert::removals(ranges, ends, false))],
                )
        };
        let edit = insert::removals(ranges, ends, backward);
        remade::lemma_added(pre, post, seq![EffectView::Apply(edit)]);
        let gone = |pos: int|
            exists|i: int|
                0 <= i < ranges.len() && if backward {
                    (#[trigger] ends[i]) <= pos < ranges[i].head
                } else {
                    ranges[i].head <= pos < ends[i]
                };
        if forall|i: int|
            0 <= i < ranges.len() ==> if backward {
                (#[trigger] ends[i]) <= ranges[i].head && (i > 0 ==> ranges[i - 1].head <= ends[i])
            } else {
                ranges[i].head <= ends[i] <= pre.text().len() && (i > 0 ==> ends[i - 1]
                    <= ranges[i].head)
            } {
            lemma_removals_in_order(pre, ends, backward, ranges.len() as int);
            assert forall|pos: int| 0 <= pos < s.len() implies #[trigger] gone(pos) == exists|
                i: int,
            |
                0 <= i < edit.changes.len() && (#[trigger] edit.changes[i]).from <= pos
                    < edit.changes[i].to by {
                if gone(pos) {
                    let i = choose|i: int|
                        0 <= i < ranges.len() && if backward {
                            (#[trigger] ends[i]) <= pos < ranges[i].head
                        } else {
                            ranges[i].head <= pos < ends[i]
                        };
                    assert(edit.changes[i].from <= pos < edit.changes[i].to);
                }
                if exists|i: int|
                    0 <= i < edit.changes.len() && (#[trigger] edit.changes[i]).from <= pos
                        < edit.changes[i].to {
                    let i = choose|i: int|
                        0 <= i < edit.changes.len() && (#[trigger] edit.changes[i]).from <= pos
                            < edit.changes[i].to;
                    assert(0 <= i < ranges.len() && (ends[i] <= pos || ends[i] > pos));
                }
            }
            remade::lemma_left(s, edit.changes, gone);
        }
        assert(ends.len() == ranges.len());
    }
}

} // verus!
