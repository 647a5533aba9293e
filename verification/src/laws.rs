//! What holds of the commands taken together.

use crate::change::{self, ChangeView, Transaction};
use crate::cmd;
use crate::command::Command;
use crate::edit::{self, Paste};
use crate::editor::{
    Action, Buffer, Context, Diagnostic, Direction, EffectView, Movement, Position, Window,
};
use crate::execute::Outside;
use crate::goto;
use crate::insert;
use crate::lsp::{
    self, DocumentSymbol, LspPosition, OffsetEncoding, SymbolInformationView,
    TextDocumentIdentifier,
};
use crate::movement;
use crate::search;
use crate::select;
use crate::selection::{Range, Selection, SelectionView};
use crate::strings;
use crate::text;
use crate::typed;
use crate::view::{self, Align};
use crate::window;
use ropey::Rope;
use vstd::prelude::*;

pub mod edits;
pub mod line_edits;
pub mod motions;
pub mod prompts;
pub mod remade;
pub mod requests;
pub mod views;

verus! {

/// Where the ranges of a selection are separate, the changes that remove what
/// they hold can be made together.
pub proof fn deletion_is_in_order(cx: Context)
    requires
        cx.wf(),
        cx.selection().separated(),
        edit::spans(cx),
    ensures
        change::in_order(
            edit::deletion(cx.text(), cx.selection().ranges).changes,
            cx.text().len() as int,
        ),
{
    let changes = edit::deletion(cx.text(), cx.selection().ranges).changes;
    let ranges = cx.selection().ranges;
    assert forall|i: int| 0 <= i < changes.len() implies 0 <= (#[trigger] changes[i]).from
        <= changes[i].to <= cx.text().len() by {
        assert(ranges[i].within(cx.text().len() as int));
        assert(ranges[i].low() <= edit::span_end(cx.text().len() as int, ranges[i]));
    }
    assert forall|i: int, j: int| 0 <= i < j < changes.len() implies (#[trigger] changes[i]).to <= (
    #[trigger] changes[j]).from by {
        assert(ranges[i].high() < ranges[j].low());
    }
}

/// Where the ranges of a selection are separate, the changes that replace what
/// they hold by a character can be made together.
pub proof fn replacement_is_in_order(cx: Context, ch: char)
    requires
        cx.wf(),
        cx.selection().separated(),
        edit::spans(cx),
    ensures
        change::in_order(
            edit::replacement(cx.text(), cx.selection().ranges, ch).changes,
            cx.text().len() as int,
        ),
{
    let changes = edit::replacement(cx.text(), cx.selection().ranges, ch).changes;
    let deleted = edit::deletion(cx.text(), cx.selection().ranges).changes;
    deletion_is_in_order(cx);
    assert forall|i: int| 0 <= i < changes.len() implies 0 <= (#[trigger] changes[i]).from
        <= changes[i].to <= cx.text().len() by {
        assert(deleted[i].from == changes[i].from && deleted[i].to == changes[i].to);
    }
    assert forall|i: int, j: int| 0 <= i < j < changes.len() implies (#[trigger] changes[i]).to <= (
    #[trigger] changes[j]).from by {
        assert(deleted[i].to == changes[i].to && deleted[j].from == changes[j].from);
    }
}

/// Where the ranges of a selection are separate, the changes that put a value in
/// place of what they hold can be made together.
pub proof fn pasting_over_is_in_order(cx: Context, value: Seq<char>)
    requires
        cx.wf(),
        cx.selection().separated(),
        edit::spans(cx),
    ensures
        change::in_order(
            edit::pasting_over(cx.text(), cx.selection().ranges, value).changes,
            cx.text().len() as int,
        ),
{
    let changes = edit::pasting_over(cx.text(), cx.selection().ranges, value).changes;
    let deleted = edit::deletion(cx.text(), cx.selection().ranges).changes;
    deletion_is_in_order(cx);
    assert forall|i: int| 0 <= i < changes.len() implies 0 <= (#[trigger] changes[i]).from
        <= changes[i].to <= cx.text().len() by {
        assert(deleted[i].from == changes[i].from && deleted[i].to == changes[i].to);
    }
    assert forall|i: int, j: int| 0 <= i < j < changes.len() implies (#[trigger] changes[i]).to <= (
    #[trigger] changes[j]).from by {
        assert(deleted[i].to == changes[i].to && deleted[j].from == changes[j].from);
    }
}

/// Where the ranges of a selection are separate, values that can be pasted are
/// pasted in order.
pub proof fn pasting_is_in_order(cx: Context, values: Seq<Seq<char>>, action: Paste)
    requires
        cx.wf(),
        cx.selection().separated(),
        edit::can_paste(cx.text(), cx.selection().ranges, values, action),
    ensures
        change::in_order(
            edit::pasting(cx.text(), cx.selection().ranges, values, action).changes,
            cx.text().len() as int,
        ),
{
    let s = cx.text();
    let ranges = cx.selection().ranges;
    let changes = edit::pasting(s, ranges, values, action).changes;
    assert forall|i: int| 0 <= i < changes.len() implies 0 <= (#[trigger] changes[i]).from
        <= changes[i].to <= s.len() by {
        assert(ranges[i].within(s.len() as int));
        text::lemma_line_of_position(s, ranges[i].low() as int);
        text::lemma_line_of_position(s, ranges[i].high() as int);
        text::lemma_line_start(s, text::line_of(s, ranges[i].low() as int));
        text::lemma_line_start(s, text::line_of(s, ranges[i].high() as int) + 1);
    }
    assert forall|i: int, j: int| 0 <= i < j < changes.len() implies (#[trigger] changes[i]).to <= (
    #[trigger] changes[j]).from by {
        assert(ranges[i].within(s.len() as int));
        assert(ranges[i].high() < ranges[j].low());
        text::lemma_line_of_monotone(s, 0, ranges[i].low() as int);
        text::lemma_line_of_monotone(s, 0, ranges[i].high() as int);
        text::lemma_line_of_monotone(s, ranges[i].low() as int, ranges[j].low() as int);
        text::lemma_line_of_monotone(s, ranges[i].high() as int, ranges[j].high() as int);
        text::lemma_line_starts_ordered(
            s,
            text::line_of(s, ranges[i].low() as int),
            text::line_of(s, ranges[j].low() as int),
        );
        text::lemma_line_starts_ordered(
            s,
            text::line_of(s, ranges[i].high() as int) + 1,
            text::line_of(s, ranges[j].high() as int) + 1,
        );
    }
}

/// Where the ranges of a selection are separate, a text is put in at their heads
/// in order.
pub proof fn insertion_is_in_order(cx: Context, inserted: Seq<char>)
    requires
        cx.wf(),
        cx.selection().separated(),
    ensures
        change::in_order(
            insert::inserts(cx.selection().ranges, inserted).changes,
            cx.text().len() as int,
        ),
{
    let ranges = cx.selection().ranges;
    let changes = insert::inserts(ranges, inserted).changes;
    assert forall|i: int| 0 <= i < changes.len() implies 0 <= (#[trigger] changes[i]).from
        <= changes[i].to <= cx.text().len() by {
        assert(ranges[i].within(cx.text().len() as int));
    }
    assert forall|i: int, j: int| 0 <= i < j < changes.len() implies (#[trigger] changes[i]).to <= (
    #[trigger] changes[j]).from by {
        assert(ranges[i].high() < ranges[j].low());
    }
}

/// Replacing characters keeps the text as long as it is and keeps its line
/// feeds, and puts in no other line feed unless that is what is put in.
pub proof fn replacing_keeps_lines(cx: Context, ch: char)
    requires
        cx.wf(),
        cx.selection().separated(),
        edit::spans(cx),
    ensures
        ({
            let changes = edit::replacement(cx.text(), cx.selection().ranges, ch).changes;
            let after = change::edited(cx.text(), changes);
            &&& after.len() == cx.text().len()
            &&& forall|p: int|
                0 <= p < cx.text().len() && cx.text()[p] == '\n' ==> #[trigger] after[p] == '\n'
            &&& ch != '\n' ==> forall|p: int|
                0 <= p < cx.text().len() && #[trigger] after[p] == '\n' ==> cx.text()[p] == '\n'
        }),
{
    let s = cx.text();
    let ranges = cx.selection().ranges;
    let changes = edit::replacement(s, ranges, ch).changes;
    let keep = |before: char, after: char|
        (before == '\n' ==> after == '\n') && (ch != '\n' && after == '\n' ==> before == '\n');
    replacement_is_in_order(cx, ch);
    assert(change::rewrites(s, changes, keep)) by {
        assert forall|i: int| 0 <= i < changes.len() implies {
            &&& (#[trigger] changes[i]).inserted().len() == changes[i].to - changes[i].from
            &&& forall|k: int|
                0 <= k < changes[i].inserted().len() ==> keep(
                    s[changes[i].from + k],
                    #[trigger] changes[i].inserted()[k],
                )
        } by {
            let change = changes[i];
            assert(0 <= change.from <= change.to <= s.len());
            assert(change == edit::overwriting(s, ranges[i], ch));
        }
    }
    change::lemma_rewritten(s, changes, keep);
    let after = change::edited(s, changes);
    assert forall|p: int| 0 <= p < s.len() && s[p] == '\n' implies #[trigger] after[p] == '\n' by {
        assert(keep(s[p], after[p]));
    }
    if ch != '\n' {
        assert forall|p: int| 0 <= p < s.len() && #[trigger] after[p] == '\n' implies s[p]
            == '\n' by {
            assert(keep(s[p], after[p]));
        }
    }
}

/// What is copied to the selected register is what a paste finds there.
pub proof fn paste_finds_what_was_yanked<F: Fn(&Rope, Range) -> String>(
    pre: Context,
    post: Context,
    fragment: F,
    added: Seq<EffectView>,
)
    requires
        edit::copies_and_asks(pre, post, pre.selected_register, fragment, added),
    ensures
        exists|values: Seq<String>| #[trigger]
            edit::fragments(pre, fragment, values) && edit::selected_values(post) == Some(
                strings::string_views(values),
            ),
{
    let values = choose|values: Seq<String>|
        {
            &&& #[trigger] edit::fragments(pre, fragment, values)
            &&& post.editor.registers@ == pre.editor.registers@.insert(
                pre.selected_register,
                strings::string_views(values),
            )
            &&& post.asks(pre.with_registers(post.editor.registers), added)
        };
    assert(edit::fragments(pre, fragment, values));
    assert(post.selected_register == pre.selected_register);
}

/// What each range holds of the text, as deleting takes it away.
pub open spec fn held(s: Seq<char>, ranges: Seq<Range>) -> Seq<Seq<char>> {
    Seq::new(
        ranges.len(),
        |i: int| s.subrange(ranges[i].low() as int, edit::span_end(s.len() as int, ranges[i])),
    )
}

/// Where each range stands once what all of them hold is deleted.
pub open spec fn places_left(s: Seq<char>, ranges: Seq<Range>) -> Seq<Range> {
    Seq::new(
        ranges.len(),
        |i: int|
            {
                let pos = change::place_after(edit::deletion(s, ranges).changes, i) as usize;
                Range::between(pos, pos)
            },
    )
}

/// What was deleted comes back when it is pasted before the places where it was.
/// Whole lines come back where these are the starts of lines.
pub proof fn paste_brings_back_what_was_deleted(cx: Context)
    requires
        cx.wf(),
        cx.selection().separated(),
        edit::spans(cx),
        ({
            let s = cx.text();
            let ranges = cx.selection().ranges;
            let after = change::edited(s, edit::deletion(s, ranges).changes);
            edit::linewise(held(s, ranges)) ==> forall|i: int|
                0 <= i < ranges.len() ==> {
                    let pos = (#[trigger] places_left(s, ranges)[i]).low() as int;
                    text::line_start(after, text::line_of(after, pos)) == pos
                }
        }),
    ensures
        ({
            let s = cx.text();
            let ranges = cx.selection().ranges;
            let after = change::edited(s, edit::deletion(s, ranges).changes);
            change::edited(
                after,
                edit::pasting(
                    after,
                    places_left(s, ranges),
                    held(s, ranges),
                    Paste::Before,
                ).changes,
            ) == s
        }),
{
    let s = cx.text();
    let ranges = cx.selection().ranges;
    let deleted = edit::deletion(s, ranges).changes;
    let after = change::edited(s, deleted);
    let places = places_left(s, ranges);
    let pasted = edit::pasting(after, places, held(s, ranges), Paste::Before).changes;
    let back = change::restored(s, deleted);
    deletion_is_in_order(cx);
    change::lemma_restored(s, deleted);
    text::lemma_fits(s);
    assert forall|i: int| 0 <= i < pasted.len() implies #[trigger] pasted[i] == back[i] by {
        assert(0 <= back[i].from <= back[i].to <= after.len());
        lemma_removed_is_counted(deleted, s.len() as int, deleted.len() as int);
        assert(places[i].low() == back[i].from);
    }
    assert(pasted =~= back);
}

proof fn lemma_removed_is_counted(changes: Seq<ChangeView>, len: int, k: int)
    requires
        change::in_order(changes, len),
        0 <= k <= changes.len(),
    ensures
        0 <= change::removed_before(changes, k),
    decreases k,
{
    if k > 0 {
        lemma_removed_is_counted(changes, len, k - 1);
        assert(changes[k - 1].from <= changes[k - 1].to);
    }
}

/// Flipping the ranges twice leaves both ends of each where they were, and once
/// leaves what it covers.
pub proof fn flipping_twice_changes_nothing(selection: SelectionView, i: int)
    requires
        0 <= i < selection.ranges.len(),
    ensures
        ({
            let range = selection.ranges[i];
            let once = selection.mapped(|range: Range| select::flipped(range));
            let twice = once.mapped(|range: Range| select::flipped(range));
            &&& twice.ranges[i] == Range::between(range.anchor, range.head)
            &&& once.ranges[i].low() == range.low()
            &&& once.ranges[i].high() == range.high()
        }),
{
}

/// Collapsing what is collapsed changes nothing, and a collapsed range is empty
/// and has the same cursor.
pub proof fn collapsing_twice_is_collapsing(selection: SelectionView, i: int)
    requires
        0 <= i < selection.ranges.len(),
    ensures
        ({
            let once = selection.mapped(|range: Range| select::collapsed(range));
            let twice = once.mapped(|range: Range| select::collapsed(range));
            &&& twice.ranges == once.ranges
            &&& once.ranges[i].head == selection.ranges[i].head
            &&& once.ranges[i].anchor == selection.ranges[i].head
        }),
{
    let once = selection.mapped(|range: Range| select::collapsed(range));
    let twice = once.mapped(|range: Range| select::collapsed(range));
    assert(twice.ranges =~= once.ranges);
}

/// Motions inside a line that extend leave the anchors where they are, and put
/// the cursors where the same motions put them that do not.
pub proof fn extending_keeps_anchors(cx: Context, i: int)
    requires
        0 <= i < cx.selection().ranges.len(),
    ensures
        ({
            let range = cx.selection().ranges[i];
            let to_start = movement::at_line_starts(cx, Movement::Extend).ranges[i];
            let to_end = movement::at_line_ends(cx, Movement::Extend).ranges[i];
            &&& to_start.anchor == range.anchor
            &&& to_start.head == movement::at_line_starts(cx, Movement::Move).ranges[i].head
            &&& to_end.anchor == range.anchor
            &&& to_end.head == movement::at_line_ends(cx, Movement::Move).ranges[i].head
        }),
{
}

/// The selections that are asked for where nothing outside is asked lie inside
/// the text.
pub proof fn selections_stay_inside(cx: Context)
    requires
        cx.wf(),
    ensures
        ({
            let len = cx.text().len() as int;
            let primary = cx.selection().primary();
            &&& cx.selection().mapped(|range: Range| select::flipped(range)).within(len)
            &&& cx.selection().mapped(|range: Range| select::collapsed(range)).within(len)
            &&& cx.selection().mapped(|range: Range| select::at_start(range)).within(len)
            &&& SelectionView::single(primary.anchor, primary.head).within(len)
            &&& select::selected_lines(cx).within(len)
        }),
{
    let s = cx.text();
    let len = s.len() as int;
    let ranges = cx.selection().ranges;
    assert forall|i: int| 0 <= i < ranges.len() implies {
        &&& select::flipped(ranges[i]).within(len)
        &&& select::collapsed(ranges[i]).within(len)
        &&& select::at_start(#[trigger] ranges[i]).within(len)
    } by {
        assert(ranges[i].within(len));
    }
    assert(cx.selection().primary().within(len));
    text::lemma_fits(s);
    text::lemma_line_of_position(s, cx.cursor() as int);
    let line = text::line_of(s, cx.cursor() as int);
    text::lemma_line_start(s, line);
    text::lemma_line_start(
        s,
        if line + cx.times() < text::line_count(s) {
            line + cx.times()
        } else {
            text::line_count(s)
        },
    );
}

/// Wherever the cursor's line is aligned to, it is in sight: not above the first
/// line of the view, and no more than its height below.
pub proof fn aligned_line_is_in_sight(s: Seq<char>, pos: int, height: u16, align: Align)
    requires
        0 <= pos <= s.len(),
    ensures
        0 <= view::aligned(s, pos, height, align) <= text::line_of(s, pos),
        text::line_of(s, pos) <= view::aligned(s, pos, height, align) + height,
{
    text::lemma_line_of_monotone(s, 0, pos);
}

/// A view that is scrolled still starts on a line of the text.
pub proof fn scrolled_view_starts_on_a_line(
    s: Seq<char>,
    first_line: usize,
    offset: usize,
    direction: Direction,
)
    ensures
        0 <= view::scrolled(s, first_line, offset, direction) < text::line_count(s),
{
    text::lemma_line_of_monotone(s, 0, s.len() as int);
}

/// The row of the cursor after scrolling is never below the last line in sight,
/// and where the view is high enough, at its margin or inside it.
pub proof fn scrolled_row_is_in_sight(row: int, first: int, last: int, margin: int)
    requires
        0 <= margin,
        0 <= first <= last,
    ensures
        view::row_in_sight(row, first, last, margin) <= last,
        first + margin <= last - margin ==> first + margin <= view::row_in_sight(
            row,
            first,
            last,
            margin,
        ) <= last - margin,
{
}

/// The places that going to a line goes to are inside the text.
pub proof fn line_targets_are_inside(s: Seq<char>, count: usize)
    requires
        count > 0,
    ensures
        0 <= text::line_start(s, goto::last_text_line(s)) <= s.len(),
        0 <= text::line_start(s, goto::counted_line(s, count)) <= s.len(),
        text::line_start(s, goto::counted_line(s, count)) <= text::line_start(
            s,
            goto::last_text_line(s),
        ),
{
    text::lemma_line_start(s, goto::last_text_line(s));
    text::lemma_line_start(s, goto::counted_line(s, count));
    text::lemma_line_starts_ordered(s, goto::counted_line(s, count), goto::last_text_line(s));
}

/// The line in sight that a key goes to is never past the last one in sight.
pub proof fn sight_line_is_in_sight(view: Window, last_line: usize, ch: char)
    ensures
        0 <= goto::sight_line(view, last_line, ch) <= last_line,
{
}

/// A document with changes is one of those with changes.
pub proof fn changed_documents_are_unsaved(documents: Seq<Buffer>, i: int)
    requires
        0 <= i < documents.len(),
        documents[i].modified,
    ensures
        cmd::unsaved(documents).contains(cmd::unsaved_name(documents[i].relative_path)),
        cmd::unsaved(documents).len() > 0,
    decreases documents.len(),
{
    let name = cmd::unsaved_name(documents[i].relative_path);
    let before = cmd::unsaved(documents.drop_last());
    if i < documents.len() - 1 {
        assert(documents.drop_last()[i] == documents[i]);
        changed_documents_are_unsaved(documents.drop_last(), i);
        let k = choose|k: int| 0 <= k < before.len() && before[k] == name;
        assert(cmd::unsaved(documents)[k] == name);
    } else {
        assert(cmd::unsaved(documents).last() == name);
    }
}

/// The last view is not closed while a document has changes: nothing is asked of
/// the editor, and the message line reports an error.
pub proof fn last_view_stays_while_changes_would_be_lost(pre: Context, post: Context, i: int)
    requires
        cmd::quits(pre, post),
        pre.editor.views@.len() == 1,
        0 <= i < pre.editor.documents@.len(),
        pre.editor.documents@[i].modified,
    ensures
        post.editor.effects == pre.editor.effects,
        post.editor.message() is Some,
{
    changed_documents_are_unsaved(pre.editor.documents@, i);
}

/// Not all views are closed while a document has changes, unless it is forced.
pub proof fn views_stay_while_changes_would_be_lost(pre: Context, post: Context, i: int)
    requires
        cmd::quits_all(pre, post, false),
        0 <= i < pre.editor.documents@.len(),
        pre.editor.documents@[i].modified,
    ensures
        post.editor.effects == pre.editor.effects,
        post.editor.message() is Some,
{
    changed_documents_are_unsaved(pre.editor.documents@, i);
}

/// A document that has no path and gets none is never written.
pub proof fn nothing_is_written_without_a_path(
    pre: Context,
    post: Context,
    result: Result<(), String>,
)
    requires
        cmd::writes_at(pre, post, None, result),
        pre.editor.doc.path is None,
    ensures
        post == pre,
        result is Err,
{
}

/// The commands offered for what was typed of a name are those with that in
/// their name, and all of them.
pub proof fn offered_names_are_the_matching_ones(input: Seq<char>, typed: typed::Typed)
    ensures
        strings::occurs(typed.named(), input) <==> cmd::name_completions(
            input,
            typed::TYPABLE_COMMAND_LIST@.len() as int,
        ).contains((0usize, typed.named())),
{
    let n = typed::TYPABLE_COMMAND_LIST@.len() as int;
    typed.lemma_listed();
    if strings::occurs(typed.named(), input) {
        lemma_offered(input, typed.index(), n);
    }
    let all = cmd::name_completions(input, n);
    if all.contains((0usize, typed.named())) {
        let k = choose|k: int| 0 <= k < all.len() && all[k] == (0usize, typed.named());
        lemma_offers_match(input, n, k);
    }
}

proof fn lemma_offered(input: Seq<char>, i: int, n: int)
    requires
        0 <= i < n <= typed::TYPABLE_COMMAND_LIST@.len(),
        strings::occurs(typed::TYPABLE_COMMAND_LIST@[i].named(), input),
    ensures
        cmd::name_completions(input, n).contains(
            (0usize, typed::TYPABLE_COMMAND_LIST@[i].named()),
        ),
    decreases n,
{
    let item = (0usize, typed::TYPABLE_COMMAND_LIST@[i].named());
    let before = cmd::name_completions(input, n - 1);
    if i < n - 1 {
        lemma_offered(input, i, n - 1);
        let k = choose|k: int| 0 <= k < before.len() && before[k] == item;
        assert(cmd::name_completions(input, n)[k] == item);
    } else {
        assert(cmd::name_completions(input, n).last() == item);
    }
}

proof fn lemma_offers_match(input: Seq<char>, n: int, k: int)
    requires
        0 <= n <= typed::TYPABLE_COMMAND_LIST@.len(),
        0 <= k < cmd::name_completions(input, n).len(),
    ensures
        strings::occurs(cmd::name_completions(input, n)[k].1, input),
    decreases n,
{
    if n > 0 {
        let before = cmd::name_completions(input, n - 1);
        if k < before.len() {
            lemma_offers_match(input, n - 1, k);
        }
    }
}

/// A match that starts with character `a` and ends before character `b` selects
/// just these, with the cursor on the last of them.
pub proof fn match_selects_its_characters(s: Seq<char>, mat: (usize, usize), a: int, b: int)
    requires
        0 <= a <= b <= s.len(),
        0 < b <= usize::MAX,
        mat.0 == strings::bytes(s.take(a)),
        mat.1 == strings::bytes(s.take(b)),
    ensures
        search::match_range(s, mat) == Some(Range::between(a as usize, (b - 1) as usize)),
{
    text::lemma_char_of_own_byte(s, a);
    text::lemma_char_of_own_byte(s, b);
}

/// What means nothing in a regular expression is searched for as it is.
pub proof fn plain_text_is_not_escaped(s: Seq<char>)
    requires
        forall|i: int| 0 <= i < s.len() ==> !search::is_meta_character(#[trigger] s[i]),
    ensures
        search::escaped(s) == s,
    decreases s.len(),
{
    if s.len() > 0 {
        assert forall|i: int| 0 <= i < s.len() - 1 implies !search::is_meta_character(
            #[trigger] s.drop_last()[i],
        ) by {
            assert(s.drop_last()[i] == s[i]);
        }
        plain_text_is_not_escaped(s.drop_last());
        assert(!search::is_meta_character(s[s.len() - 1]));
        assert(search::escaped(s) =~= s);
    } else {
        assert(search::escaped(s) =~= s);
    }
}

/// A view that is split off shows the same lines and the same selection: `asked`
/// is what splitting makes of `pre`, and `post` what the last of its effects,
/// with its lines and its selection, makes of `apart`.
pub proof fn split_view_shows_the_same(
    pre: Context,
    asked: Context,
    action: Action,
    apart: Context,
    post: Context,
    first_line: usize,
    selection: SelectionView,
)
    requires
        asked.asks(pre, window::split_effects(pre, action)),
        asked.editor.pending().last() == EffectView::MatchView(first_line, selection),
        post.selects(apart.showing(first_line), selection),
    ensures
        post.editor.view.first_line == pre.editor.view.first_line,
        post.editor.pending().last() == EffectView::SetSelection(pre.selection()),
{
    let n = window::split_effects(pre, action).len() as int;
    assert(asked.editor.pending().last() == window::split_effects(pre, action)[n - 1]);
}

/// Appending and leaving insert mode again leaves both ends of the ranges where
/// they were, where the boundary before the one after a range is its end.
pub proof fn leaving_append_mode_restores_ranges(
    selection: SelectionView,
    after: Seq<usize>,
    before: Seq<usize>,
    i: int,
)
    requires
        0 <= i < selection.ranges.len(),
        after.len() == selection.ranges.len(),
        before.len() == selection.ranges.len(),
        selection.ranges[i].high() <= after[i],
        before[i] == selection.ranges[i].high(),
    ensures
        select::up_to(select::up_to(selection, after), before).ranges[i] == Range::between(
            selection.ranges[i].low(),
            selection.ranges[i].high(),
        ),
{
}

/// Whether the symbols are listed as symbols of a file that stand by themselves.
pub open spec fn listed_in(
    symbols: Seq<SymbolInformationView>,
    file: TextDocumentIdentifier,
) -> bool {
    forall|i: int|
        0 <= i < symbols.len() ==> {
            &&& (#[trigger] symbols[i]).location.uri == file.uri@
            &&& symbols[i].container_name is None
        }
}

/// Symbols that hold others are listed with them as symbols of the document's
/// file, the outermost first.
pub proof fn nested_symbols_are_listed_in_the_file(
    file: TextDocumentIdentifier,
    symbol: DocumentSymbol,
)
    ensures
        listed_in(lsp::flattened(file, symbol), file),
        lsp::flattened(file, symbol).len() > 0,
        lsp::flattened(file, symbol)[0] == lsp::symbol_alone(file, symbol),
    decreases symbol,
{
    if let Some(children) = symbol.children {
        assert(decreases_to!(symbol => symbol.children->0@));
        lemma_all_listed(file, children@);
    }
}

proof fn lemma_all_listed(file: TextDocumentIdentifier, symbols: Seq<DocumentSymbol>)
    ensures
        listed_in(lsp::all_flattened(file, symbols), file),
    decreases symbols,
{
    if symbols.len() > 0 {
        lemma_all_listed(file, symbols.drop_last());
        nested_symbols_are_listed_in_the_file(file, symbols.last());
    }
}

/// A command leaves the text and the selection to the effects: it only adds to
/// those, at the end, and the state stays valid.
#[verifier::spinoff_prover]
pub proof fn commands_only_add_effects<
    MH: Fn(&Rope, Range, Direction, usize, Movement) -> Range,
    MV: Fn(&Rope, Range, Direction, usize, Movement) -> Range,
    NW: Fn(&Rope, Range, usize) -> Range,
    PW: Fn(&Rope, Range, usize) -> Range,
    WE: Fn(&Rope, Range, usize) -> Range,
    NG: Fn(&Rope, usize) -> usize,
    PG: Fn(&Rope, usize) -> usize,
    NN: Fn(&Rope, usize, usize) -> usize,
    NP: Fn(&Rope, usize, usize) -> usize,
    CP: Fn(&Rope, usize) -> Position,
    PC: Fn(&Rope, Position) -> usize,
    LL: Fn(&Window, &Rope) -> usize,
    SM: Fn(&Rope, &Selection, &str) -> Selection,
    PU: Fn(&Selection, Range) -> Selection,
    FR: Fn(&Rope, Range) -> String,
    SI: Fn(&Rope, usize, bool) -> usize,
    TC: Fn(&Rope, &Selection) -> Transaction,
    ES: Fn(&Rope, &Selection) -> Selection,
    MB: Fn(&Rope, usize) -> Option<usize>,
    LP: Fn(&Rope, usize, OffsetEncoding) -> LspPosition,
>(
    outside: Outside<MH, MV, NW, PW, WE, NG, PG, NN, NP, CP, PC, LL, SM, PU, FR, SI, TC, ES, MB, LP>,
    command: Command,
    pre: Context,
    post: Context,
)
    requires
        pre.wf(),
        outside.runs(command, pre, post),
    ensures
        post.wf(),
        post.text() == pre.text(),
        post.selection() == pre.selection(),
        pre.editor.pending().is_prefix_of(post.editor.pending()),
{
}

/// The remarks start one after the other.
pub open spec fn ascending(diagnostics: Seq<Diagnostic>) -> bool {
    forall|i: int, j: int|
        0 <= i < j < diagnostics.len() ==> (#[trigger] diagnostics[i]).start < (
        #[trigger] diagnostics[j]).start
}

/// The first remark from the one at `from` on that starts after `pos`, or the
/// first of all.
pub open spec fn remark_after(diagnostics: Seq<Diagnostic>, pos: usize, from: int) -> int
    decreases diagnostics.len() - from,
{
    if from >= diagnostics.len() {
        0
    } else if diagnostics[from].start > pos {
        from
    } else {
        remark_after(diagnostics, pos, from + 1)
    }
}

/// The remark `k` places after the one at `first`, around the end.
pub open spec fn in_turn(diagnostics: Seq<Diagnostic>, first: int, k: int) -> Diagnostic {
    let i = first + k;
    if i < diagnostics.len() {
        diagnostics[i]
    } else {
        diagnostics[i - diagnostics.len()]
    }
}

proof fn lemma_remark_after(diagnostics: Seq<Diagnostic>, pos: usize, from: int)
    requires
        0 <= from <= diagnostics.len(),
        diagnostics.len() > 0,
    ensures
        0 <= remark_after(diagnostics, pos, from) < diagnostics.len(),
        match goto::diag_after(diagnostics.skip(from), pos) {
            Some(start) => start == diagnostics[remark_after(diagnostics, pos, from)].start,
            None => remark_after(diagnostics, pos, from) == 0,
        },
    decreases diagnostics.len() - from,
{
    if from < diagnostics.len() {
        assert(diagnostics.skip(from).drop_first() =~= diagnostics.skip(from + 1));
        lemma_remark_after(diagnostics, pos, from + 1);
    }
}

proof fn lemma_next_remark(diagnostics: Seq<Diagnostic>, i: int, from: int)
    requires
        ascending(diagnostics),
        0 <= i < diagnostics.len(),
        0 <= from <= i + 1,
    ensures
        remark_after(diagnostics, diagnostics[i].start, from) == if i + 1 < diagnostics.len() {
            i + 1
        } else {
            0
        },
    decreases i + 1 - from,
{
    if from <= i {
        lemma_next_remark(diagnostics, i, from + 1);
    }
}

/// Going to the next remark over and over comes to every remark in turn, each
/// once in as many steps as there are remarks: first to the one after the cursor,
/// then on in order, and around the end.
pub proof fn next_remarks_come_in_turn(diagnostics: Seq<Diagnostic>, pos: usize, k: nat)
    requires
        ascending(diagnostics),
        1 <= k <= diagnostics.len(),
    ensures
        0 <= remark_after(diagnostics, pos, 0) < diagnostics.len(),
        goto::next_diag_often(diagnostics, pos, k) == in_turn(
            diagnostics,
            remark_after(diagnostics, pos, 0),
            k - 1,
        ).start,
        forall|j: nat|
            1 <= j < k ==> #[trigger] goto::next_diag_often(diagnostics, pos, j)
                != goto::next_diag_often(diagnostics, pos, k),
    decreases k,
{
    let first = remark_after(diagnostics, pos, 0);
    let n = diagnostics.len() as int;
    let before = goto::next_diag_often(diagnostics, pos, (k - 1) as nat);
    assert(diagnostics.skip(0) =~= diagnostics);
    lemma_remark_after(diagnostics, pos, 0);
    lemma_remark_after(diagnostics, before, 0);
    if k > 1 {
        next_remarks_come_in_turn(diagnostics, pos, (k - 1) as nat);
        let i = if first + k - 2 < n {
            first + k - 2
        } else {
            first + k - 2 - n
        };
        assert(before == diagnostics[i].start);
        lemma_next_remark(diagnostics, i, 0);
    }
    assert forall|j: nat| 1 <= j < k implies #[trigger] goto::next_diag_often(diagnostics, pos, j)
        != goto::next_diag_often(diagnostics, pos, k) by {
        next_remarks_come_in_turn(diagnostics, pos, j);
    }
}

/// The character before the start of the next line is the last of a line, and
/// ends it.
proof fn lemma_last_of_line(s: Seq<char>, line: int)
    requires
        0 <= line < text::line_count(s) - 1,
    ensures
        0 < text::line_start(s, line + 1),
        text::line_of(s, text::line_start(s, line + 1) - 1) == line,
        text::ends_line(s, text::line_start(s, line + 1) - 1),
{
    let next = text::line_start(s, line + 1);
    text::lemma_line_start(s, line + 1);
    assert(text::line_of(s, 0) == 0);
    assert(text::line_of(s, next - 1) < line + 1);
    text::lemma_line_of_monotone(s, next - 1, next);
}

/// In a text whose last line is ended, extending by lines over and over selects
/// the line of the cursor, then one line more each time, until the last.
pub proof fn extending_adds_a_line_each_time(s: Seq<char>, pos: usize, k: nat)
    requires
        text::fits(s),
        pos < s.len(),
        !text::ends_line(s, pos as int),
        text::ends_line(s, s.len() - 1),
        k >= 1,
    ensures
        ({
            let line = text::line_of(s, pos as int);
            let ended = text::line_count(s) - 1;
            let reached = if line + k < ended {
                line + k
            } else {
                ended
            };
            let range = select::line_extended_often(s, Range::between(pos, pos), k);
            &&& range == Range::between(
                text::line_start(s, line) as usize,
                (text::line_start(s, reached) - 1) as usize,
            )
            &&& 0 < text::line_start(s, reached)
            &&& select::extended_line(s, range) < text::line_count(s)
        }),
        select::extended_line(s, Range::between(pos, pos)) < text::line_count(s),
    decreases k,
{
    let line = text::line_of(s, pos as int);
    let ended = text::line_count(s) - 1;
    let reached = if line + k < ended {
        line + k
    } else {
        ended
    };
    text::lemma_fits(s);
    text::lemma_line_of_position(s, pos as int);
    text::lemma_line_of_monotone(s, pos as int, s.len() - 1);
    assert(line < ended);
    text::lemma_line_start(s, ended);
    text::lemma_line_start(s, ended + 1);
    assert(text::line_start(s, ended) == s.len()) by {
        if text::line_start(s, ended) < s.len() {
            text::lemma_line_of_monotone(s, text::line_start(s, ended), s.len() - 1);
        }
    }
    lemma_last_of_line(s, line);
    lemma_last_of_line(s, reached - 1);
    text::lemma_line_start(s, line);
    text::lemma_line_start(s, reached);
    text::lemma_line_start(s, reached + 1);
    let start = text::line_start(s, line);
    text::lemma_line_of_monotone(s, 0, start);
    text::lemma_line_of_monotone(s, 0, pos as int);
    if k > 1 {
        extending_adds_a_line_each_time(s, pos, (k - 1) as nat);
        let earlier = if line + k - 1 < ended {
            line + k - 1
        } else {
            ended
        };
        let range = select::line_extended_often(s, Range::between(pos, pos), (k - 1) as nat);
        lemma_last_of_line(s, earlier - 1);
        text::lemma_line_start(s, earlier);
        text::lemma_line_start(s, earlier + 1);
        assert(select::extended_line(s, range) == earlier);
    } else {
        assert(select::line_extended_often(s, Range::between(pos, pos), 0) == Range::between(
            pos,
            pos,
        ));
    }
}

} // verus!
