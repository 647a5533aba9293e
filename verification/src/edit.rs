//! Commands that change the text, and those that copy it.

use crate::change::{self, Change, ChangeView, Transaction, TransactionView};
use crate::editor::{
    Context, Document, Effect, EffectView, Key, Mode, Movement, NextKey, Severity,
};
use crate::movement;
use crate::select;
use crate::selection::{Range, Selection, SelectionView};
use crate::strings;
use crate::text;
use ropey::Rope;
use vstd::prelude::*;
use vstd::string::StringExecFns;

verus! {

/// Where a range ends when the character under its larger end counts as part of
/// it. The last character of the text is never part of a range.
pub open spec fn span_end(len: int, range: Range) -> int {
    let max = if len > 0 {
        len - 1
    } else {
        0
    };
    if max < range.high() + 1 {
        max
    } else {
        range.high() + 1
    }
}

/// Whether every range starts no later than it ends.
pub open spec fn spans(cx: Context) -> bool {
    forall|i: int|
        0 <= i < cx.selection().ranges.len() ==> (#[trigger] cx.selection().ranges[i]).low()
            <= span_end(cx.text().len() as int, cx.selection().ranges[i])
}

fn end_of_span(text: &Rope, range: &Range) -> (to: usize)
    requires
        text::fits(text::rope_text(*text)),
        range.within(text::rope_text(*text).len() as int),
    ensures
        to == span_end(text::rope_text(*text).len() as int, *range),
        to <= text::rope_text(*text).len(),
{
    proof {
        text::lemma_fits(text::rope_text(*text));
    }
    let max_to = text.len_chars().saturating_sub(1);
    let to = range.to() + 1;
    if max_to < to {
        max_to
    } else {
        to
    }
}

/// Lets the next key say what to replace the characters with.
pub fn replace(cx: &mut Context)
    ensures
        *final(cx) == old(cx).awaiting(NextKey::Replace),
{
    cx.on_next_key(NextKey::Replace);
}

/// Every character replaced by `ch`, but for the line feeds.
pub open spec fn overwritten(s: Seq<char>, ch: char) -> Seq<char> {
    s.map_values(
        |c: char|
            if c == '\n' {
                '\n'
            } else {
                ch
            },
    )
}

/// The change that replaces the characters of a range by `ch`.
pub open spec fn overwriting(s: Seq<char>, range: Range, ch: char) -> ChangeView {
    let to = span_end(s.len() as int, range);
    ChangeView {
        from: range.low() as int,
        to,
        text: Some(overwritten(s.subrange(range.low() as int, to), ch)),
    }
}

/// The edit that replaces the characters of every range by `ch`.
pub open spec fn replacement(s: Seq<char>, ranges: Seq<Range>, ch: char) -> TransactionView {
    TransactionView::of(Seq::new(ranges.len(), |i: int| overwriting(s, ranges[i], ch)))
}

fn overwrite(text: &Rope, from: usize, to: usize, ch: char) -> (new_text: String)
    requires
        text::fits(text::rope_text(*text)),
        from <= to <= text::rope_text(*text).len(),
    ensures
        new_text@ == overwritten(text::rope_text(*text).subrange(from as int, to as int), ch),
{
    let ghost s = text::rope_text(*text);
    let mut new_text = String::new();
    let mut i: usize = from;
    assert(s.subrange(from as int, from as int) =~= Seq::empty());
    assert(new_text@ =~= overwritten(s.subrange(from as int, i as int), ch));
    while i < to
        invariant
            s == text::rope_text(*text),
            text::fits(s),
            from <= i <= to <= s.len(),
            new_text@ == overwritten(s.subrange(from as int, i as int), ch),
        decreases to - i,
    {
        let c = text.char(i);
        new_text.push(
            if c == '\n' {
                '\n'
            } else {
                ch
            },
        );
        assert(s.subrange(from as int, i + 1) =~= s.subrange(from as int, i as int).push(c));
        assert(new_text@ =~= overwritten(s.subrange(from as int, i + 1), ch));
        i += 1;
    }
    new_text
}

/// What an edit that is a step of the history by itself asks for.
pub open spec fn edit_step(transaction: TransactionView) -> Seq<EffectView> {
    seq![EffectView::Apply(transaction), EffectView::AppendChangesToHistory]
}

fn apply_step(cx: &mut Context, transaction: Transaction)
    ensures
        final(cx).asks(*old(cx), edit_step(transaction@)),
{
    let ghost edit = transaction@;
    cx.editor.ask(Effect::Apply(transaction));
    cx.editor.ask(Effect::AppendChangesToHistory);
    assert(cx.editor.pending() =~= old(cx).editor.pending() + edit_step(edit));
}

/// Replaces the characters of every range by the one of the key after `replace`,
/// a line feed for the enter key. Line feeds stay. Another key does nothing.
pub fn replace_key(cx: &mut Context, key: Key)
    requires
        old(cx).wf(),
        select::key_char(key) is Some ==> spans(*old(cx)),
    ensures
        match select::key_char(key) {
            Some(ch) => final(cx).asks(
                *old(cx),
                edit_step(replacement(old(cx).text(), old(cx).selection().ranges, ch)),
            ),
            None => *final(cx) == *old(cx),
        },
{
    let ch = match key {
        Key::Char(ch) => ch,
        Key::Enter => '\n',
        Key::Other => return,
    };
    let ghost s = cx.text();
    let ghost wanted = cx.selection().ranges;
    let ghost want = replacement(s, wanted, ch);
    let mut changes: Vec<Change> = Vec::with_capacity(cx.editor.doc.selection.ranges.len());
    let mut i: usize = 0;
    while i < cx.editor.doc.selection.ranges.len()
        invariant
            *cx == *old(cx),
            cx.wf(),
            spans(*cx),
            s == cx.text(),
            wanted == cx.selection().ranges,
            want == replacement(s, wanted, ch),
            i <= wanted.len(),
            changes@.len() == i,
            forall|j: int| 0 <= j < i ==> (#[trigger] changes@[j])@ == want.changes[j],
        decreases wanted.len() - i,
    {
        let range = cx.editor.doc.selection.ranges[i];
        assert(wanted[i as int].within(s.len() as int));
        let text = &cx.editor.doc.text;
        let from = range.from();
        let to = end_of_span(text, &range);
        let new_text = overwrite(text, from, to, ch);
        changes.push(Change { from, to, text: Some(new_text) });
        i += 1;
    }
    assert(change::change_views(changes@) =~= want.changes);
    apply_step(cx, Transaction { changes, selection: None });
}

/// Whether `values` are what `fragment` may say that the ranges hold.
pub open spec fn fragments<F: Fn(&Rope, Range) -> String>(
    cx: Context,
    fragment: F,
    values: Seq<String>,
) -> bool {
    &&& values.len() == cx.selection().ranges.len()
    &&& forall|i: int|
        0 <= i < values.len() ==> call_ensures(
            fragment,
            (&cx.editor.doc.text, cx.selection().ranges[i]),
            #[trigger] values[i],
        )
}

/// Whether `fragment` can be asked about every range.
pub open spec fn can_copy<F: Fn(&Rope, Range) -> String>(cx: Context, fragment: F) -> bool {
    forall|i: int|
        0 <= i < cx.selection().ranges.len() ==> call_requires(
            fragment,
            (&cx.editor.doc.text, #[trigger] cx.selection().ranges[i]),
        )
}

/// What every range holds.
fn copies<F: Fn(&Rope, Range) -> String>(cx: &Context, fragment: F) -> (values: Vec<String>)
    requires
        can_copy(*cx, fragment),
    ensures
        fragments(*cx, fragment, values@),
{
    let ghost wanted = cx.selection().ranges;
    let mut values: Vec<String> = Vec::with_capacity(cx.editor.doc.selection.ranges.len());
    let mut i: usize = 0;
    while i < cx.editor.doc.selection.ranges.len()
        invariant
            wanted == cx.selection().ranges,
            can_copy(*cx, fragment),
            i <= wanted.len(),
            values@.len() == i,
            forall|j: int|
                0 <= j < i ==> call_ensures(
                    fragment,
                    (&cx.editor.doc.text, wanted[j]),
                    #[trigger] values@[j],
                ),
        decreases wanted.len() - i,
    {
        let range = cx.editor.doc.selection.ranges[i];
        assert(call_requires(fragment, (&cx.editor.doc.text, cx.selection().ranges[i as int])));
        values.push(fragment(&cx.editor.doc.text, range));
        i += 1;
    }
    values
}

/// The edit that removes what every range holds.
pub open spec fn deletion(s: Seq<char>, ranges: Seq<Range>) -> TransactionView {
    TransactionView::of(
        Seq::new(
            ranges.len(),
            |i: int|
                ChangeView {
                    from: ranges[i].low() as int,
                    to: span_end(s.len() as int, ranges[i]),
                    text: None,
                },
        ),
    )
}

/// The edit that removes what every range holds, or puts `text` in its place.
fn span_transaction(text: &Rope, selection: &Selection, new_text: Option<&String>) -> (transaction:
    Transaction)
    requires
        text::fits(text::rope_text(*text)),
        selection@.within(text::rope_text(*text).len() as int),
    ensures
        transaction@ == match new_text {
            Some(new_text) => pasting_over(text::rope_text(*text), selection@.ranges, new_text@),
            None => deletion(text::rope_text(*text), selection@.ranges),
        },
{
    let ghost s = text::rope_text(*text);
    let ghost wanted = selection@.ranges;
    let ghost want = match new_text {
        Some(new_text) => pasting_over(s, wanted, new_text@),
        None => deletion(s, wanted),
    };
    let mut changes: Vec<Change> = Vec::with_capacity(selection.ranges.len());
    let mut i: usize = 0;
    while i < selection.ranges.len()
        invariant
            s == text::rope_text(*text),
            text::fits(s),
            wanted == selection@.ranges,
            selection@.within(s.len() as int),
            want == (match new_text {
                Some(new_text) => pasting_over(s, wanted, new_text@),
                None => deletion(s, wanted),
            }),
            i <= wanted.len(),
            changes@.len() == i,
            forall|j: int| 0 <= j < i ==> (#[trigger] changes@[j])@ == want.changes[j],
        decreases wanted.len() - i,
    {
        let range = selection.ranges[i];
        assert(wanted[i as int].within(s.len() as int));
        let to = end_of_span(text, &range);
        changes.push(
            Change {
                from: range.from(),
                to,
                text: match new_text {
                    Some(new_text) => Some(new_text.clone()),
                    None => None,
                },
            },
        );
        i += 1;
    }
    assert(change::change_views(changes@) =~= want.changes);
    Transaction { changes, selection: None }
}

/// Whether `post` is `pre` with what every range holds copied to a register, and
/// then the effects asked for.
pub open spec fn copies_and_asks<F: Fn(&Rope, Range) -> String>(
    pre: Context,
    post: Context,
    name: char,
    fragment: F,
    added: Seq<EffectView>,
) -> bool {
    exists|values: Seq<String>|
        {
            &&& #[trigger] fragments(pre, fragment, values)
            &&& post.editor.registers@ == pre.editor.registers@.insert(
                name,
                strings::string_views(values),
            )
            &&& post.asks(pre.with_registers(post.editor.registers), added)
        }
}

/// Copies what every range holds to a register, then removes it.
pub fn delete_selection_impl<F: Fn(&Rope, Range) -> String>(
    cx: &mut Context,
    name: char,
    fragment: F,
)
    requires
        old(cx).wf(),
        spans(*old(cx)),
        can_copy(*old(cx), fragment),
    ensures
        copies_and_asks(
            *old(cx),
            *final(cx),
            name,
            fragment,
            seq![EffectView::Apply(deletion(old(cx).text(), old(cx).selection().ranges))],
        ),
{
    // first yank the selection
    let values = copies(cx, fragment);
    assert(fragments(*old(cx), fragment, values@));
    cx.editor.registers.write(name, values);
    // then delete
    let transaction = span_transaction(&cx.editor.doc.text, &cx.editor.doc.selection, None);
    cx.editor.ask(Effect::Apply(transaction));
}

/// Deletes what is selected, after copying it to the selected register, and
/// leaves select mode where that is the mode.
pub fn delete_selection<F: Fn(&Rope, Range) -> String>(cx: &mut Context, fragment: F)
    requires
        old(cx).wf(),
        spans(*old(cx)),
        can_copy(*old(cx), fragment),
    ensures
        copies_and_asks(
            old(cx).out_of_select_mode(),
            *final(cx),
            old(cx).selected_register,
            fragment,
            edit_step(deletion(old(cx).text(), old(cx).selection().ranges)),
        ),
{
    let name = cx.selected_register;
    let ghost edit = deletion(cx.text(), cx.selection().ranges);
    delete_selection_impl(cx, name, fragment);
    let ghost values = choose|values: Seq<String>|
        {
            &&& #[trigger] fragments(*old(cx), fragment, values)
            &&& cx.editor.registers@ == old(cx).editor.registers@.insert(
                name,
                strings::string_views(values),
            )
        };
    cx.editor.ask(Effect::AppendChangesToHistory);
    assert(cx.editor.pending() =~= old(cx).editor.pending() + edit_step(edit));
    // exit select mode, if currently in select mode
    if cx.editor.doc.mode == Mode::Select {
        select::exit_select_mode(cx);
    }
    assert(fragments(old(cx).out_of_select_mode(), fragment, values));
}

/// Deletes what is selected, after copying it to the selected register, and
/// starts inserting in its place.
pub fn change_selection<F: Fn(&Rope, Range) -> String>(cx: &mut Context, fragment: F)
    requires
        old(cx).wf(),
        spans(*old(cx)),
        can_copy(*old(cx), fragment),
    ensures
        copies_and_asks(
            old(cx).in_mode(Mode::Insert),
            *final(cx),
            old(cx).selected_register,
            fragment,
            seq![EffectView::Apply(deletion(old(cx).text(), old(cx).selection().ranges))],
        ),
{
    let name = cx.selected_register;
    delete_selection_impl(cx, name, fragment);
    let ghost values = choose|values: Seq<String>|
        {
            &&& #[trigger] fragments(*old(cx), fragment, values)
            &&& cx.editor.registers@ == old(cx).editor.registers@.insert(
                name,
                strings::string_views(values),
            )
        };
    select::enter_insert_mode(&mut cx.editor.doc);
    assert(fragments(old(cx).in_mode(Mode::Insert), fragment, values));
}

/// What the message line says after copying `n` ranges to a register.
pub open spec fn yank_message(n: nat, name: char) -> Seq<char> {
    "yanked "@ + strings::decimal(n) + " selection(s) to register "@ + seq![name]
}

/// Copies what is selected to the selected register.
pub fn yank<F: Fn(&Rope, Range) -> String>(cx: &mut Context, fragment: F)
    requires
        can_copy(*old(cx), fragment),
    ensures
        copies_and_asks(
            old(cx).saying(final(cx).editor.status_msg),
            *final(cx),
            old(cx).selected_register,
            fragment,
            Seq::empty(),
        ),
        final(cx).editor.message() == Some(
            (
                yank_message(old(cx).selection().ranges.len(), old(cx).selected_register),
                Severity::Info,
            ),
        ),
{
    let values = copies(cx, fragment);
    let name = cx.selected_register;
    let mut msg = "yanked ".to_owned();
    strings::push_decimal(&mut msg, values.len());
    msg.append(" selection(s) to register ");
    msg.push(name);
    assert(msg@ =~= yank_message(values@.len(), name));
    let ghost copied = values@;
    cx.editor.registers.write(name, values);
    cx.editor.set_status(msg);
    assert(fragments(old(cx).saying(cx.editor.status_msg), fragment, copied));
    assert(cx.editor.pending() =~= old(cx).editor.pending() + Seq::<EffectView>::empty());
}

/// On which side of the ranges to paste.
#[derive(Clone, Copy, Debug, PartialEq, Eq, Structural)]
pub enum Paste {
    Before,
    After,
}

/// Whether whole lines are pasted: one of the values ends in a line feed.
pub open spec fn linewise(values: Seq<Seq<char>>) -> bool {
    exists|i: int|
        0 <= i < values.len() && (#[trigger] values[i]).len() > 0 && values[i].last() == '\n'
}

/// Where a range gets its value: at its side of the range, or at the start of
/// its line or of the next one.
pub open spec fn paste_pos(s: Seq<char>, range: Range, action: Paste, lines: bool) -> int {
    match action {
        Paste::Before => if lines {
            text::line_start(s, text::line_of(s, range.low() as int))
        } else {
            range.low() as int
        },
        Paste::After => if lines {
            text::line_start(s, text::line_of(s, range.high() as int) + 1)
        } else {
            range.high() + 1
        },
    }
}

/// What the range at `i` gets: the value at `i`, and the last one again where
/// there are fewer values than ranges.
pub open spec fn value_for(values: Seq<Seq<char>>, i: int) -> Seq<char> {
    if i < values.len() {
        values[i]
    } else {
        values.last()
    }
}

/// The edit that pastes the values.
pub open spec fn pasting(
    s: Seq<char>,
    ranges: Seq<Range>,
    values: Seq<Seq<char>>,
    action: Paste,
) -> TransactionView {
    TransactionView::of(
        Seq::new(
            ranges.len(),
            |i: int|
                ChangeView::insert(
                    paste_pos(s, ranges[i], action, linewise(values)),
                    value_for(values, i),
                ),
        ),
    )
}

/// Whether there is something to paste, and no value comes to lie past the end
/// of the text.
pub open spec fn can_paste(
    s: Seq<char>,
    ranges: Seq<Range>,
    values: Seq<Seq<char>>,
    action: Paste,
) -> bool {
    &&& values.len() > 0
    &&& forall|i: int|
        0 <= i < ranges.len() ==> paste_pos(s, #[trigger] ranges[i], action, linewise(values))
            <= s.len()
}

fn any_line(values: &Vec<String>) -> (b: bool)
    ensures
        b == linewise(strings::string_views(values@)),
{
    let ghost views = strings::string_views(values@);
    let mut i: usize = 0;
    while i < values.len()
        invariant
            views == strings::string_views(values@),
            i <= views.len(),
            forall|j: int|
                0 <= j < i ==> !((#[trigger] views[j]).len() > 0 && views[j].last() == '\n'),
        decreases views.len() - i,
    {
        assert(views[i as int] == values@[i as int]@);
        if strings::ends_with(values[i].as_str(), '\n') {
            return true;
        }
        i += 1;
    }
    false
}

/// The edit that pastes `values` at the ranges of the document.
pub fn paste_impl(values: &Vec<String>, doc: &Document, action: Paste) -> (transaction: Option<
    Transaction,
>)
    requires
        text::fits(text::rope_text(doc.text)),
        doc.selection@.within(text::rope_text(doc.text).len() as int),
        can_paste(
            text::rope_text(doc.text),
            doc.selection@.ranges,
            strings::string_views(values@),
            action,
        ),
    ensures
        transaction matches Some(transaction) && transaction@ == pasting(
            text::rope_text(doc.text),
            doc.selection@.ranges,
            strings::string_views(values@),
            action,
        ),
{
    let ghost s = text::rope_text(doc.text);
    let ghost wanted = doc.selection@.ranges;
    let ghost views = strings::string_views(values@);
    let ghost want = pasting(s, wanted, views, action);
    // if any of values ends \n it's linewise paste
    let lines = any_line(values);
    let text = &doc.text;
    let mut changes: Vec<Change> = Vec::with_capacity(doc.selection.ranges.len());
    let mut i: usize = 0;
    while i < doc.selection.ranges.len()
        invariant
            *text == doc.text,
            s == text::rope_text(*text),
            text::fits(s),
            wanted == doc.selection@.ranges,
            doc.selection@.within(s.len() as int),
            views == strings::string_views(values@),
            values@.len() > 0,
            lines == linewise(views),
            want == pasting(s, wanted, views, action),
            i <= wanted.len(),
            changes@.len() == i,
            forall|j: int| 0 <= j < i ==> (#[trigger] changes@[j])@ == want.changes[j],
        decreases wanted.len() - i,
    {
        let range = doc.selection.ranges[i];
        proof {
            assert(wanted[i as int].within(s.len() as int));
            text::lemma_fits(s);
            text::lemma_line_of_position(s, range.low() as int);
            text::lemma_line_of_position(s, range.high() as int);
        }
        let pos = match action {
            Paste::Before => if lines {
                // paste linewise before
                text.line_to_char(text.char_to_line(range.from()))
            } else {
                // paste insert
                range.from()
            },
            Paste::After => if lines {
                // paste linewise after
                text.line_to_char(text.char_to_line(range.to()) + 1)
            } else {
                // paste append
                range.to() + 1
            },
        };
        let value = if i < values.len() {
            values[i].clone()
        } else {
            values[values.len() - 1].clone()
        };
        assert(value@ == value_for(views, i as int));
        changes.push(Change { from: pos, to: pos, text: Some(value) });
        i += 1;
    }
    assert(change::change_views(changes@) =~= want.changes);
    Some(Transaction { changes, selection: None })
}

/// What is in the selected register.
pub open spec fn selected_values(cx: Context) -> Option<Seq<Seq<char>>> {
    if cx.editor.registers@.contains_key(cx.selected_register) {
        Some(cx.editor.registers@[cx.selected_register])
    } else {
        None
    }
}

/// Whether what is in the selected register can be pasted.
pub open spec fn can_paste_selected(cx: Context, action: Paste) -> bool {
    selected_values(cx) matches Some(values) ==> can_paste(
        cx.text(),
        cx.selection().ranges,
        values,
        action,
    )
}

/// Whether `post` is `pre` with the selected register pasted. Nothing changes
/// where it was never written.
pub open spec fn pastes(pre: Context, post: Context, action: Paste) -> bool {
    match selected_values(pre) {
        Some(values) => post.asks(
            pre,
            edit_step(pasting(pre.text(), pre.selection().ranges, values, action)),
        ),
        None => post == pre,
    }
}

fn paste(cx: &mut Context, action: Paste)
    requires
        old(cx).wf(),
        can_paste_selected(*old(cx), action),
    ensures
        pastes(*old(cx), *final(cx), action),
{
    let transaction = match cx.editor.registers.read(cx.selected_register) {
        Some(values) => paste_impl(values, &cx.editor.doc, action),
        None => None,
    };
    if let Some(transaction) = transaction {
        apply_step(cx, transaction);
    }
}

/// Pastes the selected register after the ranges.
pub fn paste_after(cx: &mut Context)
    requires
        old(cx).wf(),
        can_paste_selected(*old(cx), Paste::After),
    ensures
        pastes(*old(cx), *final(cx), Paste::After),
{
    paste(cx, Paste::After);
}

/// Pastes the selected register before the ranges.
pub fn paste_before(cx: &mut Context)
    requires
        old(cx).wf(),
        can_paste_selected(*old(cx), Paste::Before),
    ensures
        pastes(*old(cx), *final(cx), Paste::Before),
{
    paste(cx, Paste::Before);
}

/// The edit that puts `value` in place of what every range holds.
pub open spec fn pasting_over(s: Seq<char>, ranges: Seq<Range>, value: Seq<char>) -> TransactionView {
    TransactionView::of(
        Seq::new(
            ranges.len(),
            |i: int|
                ChangeView {
                    from: ranges[i].low() as int,
                    to: span_end(s.len() as int, ranges[i]),
                    text: Some(value),
                },
        ),
    )
}

/// Whether `post` is `pre` with the first value of the selected register in place
/// of what every range holds. Nothing changes where there is none.
pub open spec fn pastes_over(pre: Context, post: Context) -> bool {
    match selected_values(pre) {
        Some(values) => if values.len() > 0 {
            post.asks(pre, edit_step(pasting_over(pre.text(), pre.selection().ranges, values[0])))
        } else {
            post == pre
        },
        None => post == pre,
    }
}

/// Whether what the ranges hold can be cut out for a value of the selected
/// register, where there is one.
pub open spec fn can_paste_over(cx: Context) -> bool {
    selected_values(cx) matches Some(values) ==> values.len() > 0 ==> spans(cx)
}

/// Puts the first value of the selected register in place of what every range
/// holds.
pub fn replace_with_yanked(cx: &mut Context)
    requires
        old(cx).wf(),
        can_paste_over(*old(cx)),
    ensures
        pastes_over(*old(cx), *final(cx)),
{
    let transaction = match cx.editor.registers.read(cx.selected_register) {
        Some(values) => if values.len() > 0 {
            assert(strings::string_views(values@)[0] == values@[0]@);
            Some(
                span_transaction(
                    &cx.editor.doc.text,
                    &cx.editor.doc.selection,
                    Some(&values[0]),
                ),
            )
        } else {
            None
        },
        None => None,
    };
    if let Some(transaction) = transaction {
        apply_step(cx, transaction);
    }
}

/// Takes back the last step of the history.
pub fn undo(cx: &mut Context)
    ensures
        final(cx).asks(*old(cx), seq![EffectView::Undo]),
{
    cx.editor.ask(Effect::Undo);
}

/// Makes the step of the history again that was taken back last.
pub fn redo(cx: &mut Context)
    ensures
        final(cx).asks(*old(cx), seq![EffectView::Redo]),
{
    cx.editor.ask(Effect::Redo);
}

/// Writes the document to disk without waiting for it.
pub fn save(cx: &mut Context)
    ensures
        final(cx).asks(*old(cx), seq![EffectView::Save]),
{
    cx.editor.ask(Effect::Save);
}

/// Whether `post` is `pre` with the edit asked for, as a step of the history,
/// that `toggle_line_comments` gives.
pub open spec fn comments<F: Fn(&Rope, &Selection) -> Transaction>(
    pre: Context,
    post: Context,
    toggle_line_comments: F,
) -> bool {
    exists|transaction: Transaction| #[trigger]
        call_ensures(
            toggle_line_comments,
            (&pre.editor.doc.text, &pre.editor.doc.selection),
            transaction,
        ) && post.asks(pre, edit_step(transaction@))
}

/// Turns the selected lines into comments, or back.
pub fn toggle_comments<F: Fn(&Rope, &Selection) -> Transaction>(
    cx: &mut Context,
    toggle_line_comments: F,
)
    requires
        call_requires(
            toggle_line_comments,
            (&old(cx).editor.doc.text, &old(cx).editor.doc.selection),
        ),
    ensures
        comments(*old(cx), *final(cx), toggle_line_comments),
{
    let transaction = toggle_line_comments(&cx.editor.doc.text, &cx.editor.doc.selection);
    apply_step(cx, transaction);
}

/// Whether `post` is `pre` with the selection asked for that `expand` gives.
pub open spec fn expands<F: Fn(&Rope, &Selection) -> Selection>(
    pre: Context,
    post: Context,
    expand: F,
) -> bool {
    exists|selection: Selection| #[trigger]
        call_ensures(expand, (&pre.editor.doc.text, &pre.editor.doc.selection), selection)
            && post.selects(pre, selection@)
}

/// Whether `post` is `pre` with every range grown to the syntax around it. Nothing
/// changes where the document has no syntax.
pub open spec fn expands_syntax<F: Fn(&Rope, &Selection) -> Selection>(
    pre: Context,
    post: Context,
    expand: F,
) -> bool {
    if pre.editor.doc.has_syntax {
        expands(pre, post, expand)
    } else {
        post == pre
    }
}

/// Grows every range to the syntax around it, as `expand` says.
pub fn expand_selection<F: Fn(&Rope, &Selection) -> Selection>(cx: &mut Context, expand: F)
    requires
        old(cx).editor.doc.has_syntax ==> call_requires(
            expand,
            (&old(cx).editor.doc.text, &old(cx).editor.doc.selection),
        ),
    ensures
        expands_syntax(*old(cx), *final(cx), expand),
{
    if cx.editor.doc.has_syntax {
        let selection = expand(&cx.editor.doc.text, &cx.editor.doc.selection);
        cx.set_selection(selection);
    }
}

/// Whether `post` is what comes of `pre` where `pos` is the place of the other
/// bracket.
pub open spec fn at_bracket(pre: Context, post: Context, pos: Option<usize>) -> bool {
    match pos {
        Some(pos) => post.selects(pre, SelectionView::point(pos)),
        None => post == pre,
    }
}

/// Whether `post` is `pre` with the cursor asked for where `find` says that the
/// other bracket is. Nothing changes where the document has no syntax.
pub open spec fn matches_bracket<F: Fn(&Rope, usize) -> Option<usize>>(
    pre: Context,
    post: Context,
    find: F,
) -> bool {
    if pre.editor.doc.has_syntax {
        exists|pos: Option<usize>| #[trigger]
            call_ensures(find, (&pre.editor.doc.text, pre.cursor()), pos) && at_bracket(
                pre,
                post,
                pos,
            )
    } else {
        post == pre
    }
}

/// Goes to the bracket that belongs to the one under the cursor, where `find`
/// finds one.
pub fn match_brackets<F: Fn(&Rope, usize) -> Option<usize>>(cx: &mut Context, find: F)
    requires
        old(cx).wf(),
        old(cx).editor.doc.has_syntax ==> call_requires(
            find,
            (&old(cx).editor.doc.text, old(cx).cursor()),
        ),
    ensures
        matches_bracket(*old(cx), *final(cx), find),
{
    if cx.editor.doc.has_syntax {
        let pos = find(&cx.editor.doc.text, cx.editor.doc.selection.cursor());
        if let Some(pos) = pos {
            cx.set_selection(Selection::point(pos));
        }
        assert(at_bracket(*old(cx), *cx, pos));
    }
}

/// Whether `post` is `pre` with the changes made so far closed into a step of the
/// history, where there is a language server.
pub open spec fn closes_changes(pre: Context, post: Context) -> bool {
    match pre.editor.doc.language_server {
        Some(_) => post.asks(pre, seq![EffectView::AppendChangesToHistory]),
        None => post == pre,
    }
}

/// Closes the changes made so far into a step of the history where there is a
/// language server; the server is not asked to format anything.
pub fn format_selections(cx: &mut Context)
    ensures
        closes_changes(*old(cx), *final(cx)),
{
    if cx.editor.doc.language_server.is_none() {
        return;
    }
    cx.editor.ask(Effect::AppendChangesToHistory);
}

/// Starts inserting at the first character of each line that is not white space.
pub fn prepend_to_line(cx: &mut Context)
    requires
        old(cx).wf(),
    ensures
        final(cx).selects(
            old(cx).in_mode(Mode::Insert),
            movement::at_first_nonwhitespace(*old(cx), Movement::Move),
        ),
{
    movement::move_first_nonwhitespace(cx);
    select::enter_insert_mode(&mut cx.editor.doc);
}

/// A cursor at the end of the line of each head.
pub open spec fn at_line_ends(cx: Context) -> SelectionView {
    cx.selection().mapped(
        |range: Range|
            Range::between(
                text::line_end(cx.text(), text::line_of(cx.text(), range.head as int)) as usize,
                text::line_end(cx.text(), text::line_of(cx.text(), range.head as int)) as usize,
            ),
    )
}

/// Starts inserting at the end of each line.
pub fn append_to_line(cx: &mut Context)
    requires
        old(cx).wf(),
    ensures
        final(cx).selects(old(cx).in_mode(Mode::Insert), at_line_ends(*old(cx))),
        at_line_ends(*old(cx)).within(old(cx).text().len() as int),
{
    select::enter_insert_mode(&mut cx.editor.doc);
    let text = &cx.editor.doc.text;
    let ghost s = cx.text();
    let ghost want = at_line_ends(*old(cx));
    proof {
        text::lemma_fits(s);
    }
    let step = |range: Range| -> (r: Range)
        requires
            text::fits(text::chars(text)),
            range.within(text::chars(text).len() as int),
        ensures
            r.head == text::line_end(
                text::chars(text),
                text::line_of(text::chars(text), range.head as int),
            ),
            r == Range::between(r.head, r.head),
            r.within(text::chars(text).len() as int),
    {
        proof {
            text::lemma_line_of_position(text::chars(text), range.head as int);
        }
        let line = text.char_to_line(range.head);
        let pos = text::end_of_line(text, line);
        Range::new(pos, pos)
    };
    let selection = cx.editor.doc.selection.transform(step);
    assert(selection@.ranges =~= want.ranges);
    cx.set_selection(selection);
}

} // verus!
