//! Commands of insert mode.
//!
//! Edits made here become a step of the history when insert mode is left.

use crate::change::{self, Change, ChangeView, Transaction, TransactionView};
use crate::editor::{Context, Effect, EffectView};
use crate::language::{self, Topic};
use crate::lsp::{LspPosition, OffsetEncoding};
use crate::movement;
use crate::open;
use crate::selection::{Range, Selection, SelectionView};
use crate::strings;
use crate::text;
use ropey::Rope;
use vstd::prelude::*;
use vstd::string::{StrSliceExecFns, StringExecFns};

verus! {

/// Whether `pos` lies between the two characters of a pair. Before the text
/// there is taken to be a space.
pub open spec fn between_pair(s: Seq<char>, pos: int, pairs: Seq<(char, char)>) -> bool {
    let prev = if pos == 0 {
        ' '
    } else {
        s[pos - 1]
    };
    pairs.contains((prev, s[pos]))
}

/// What a new line at `pos` puts in: the line's ending and its indentation,
/// and between a pair another, for the closing character, one level less deep.
pub open spec fn newline(
    s: Seq<char>,
    pos: int,
    unit: Seq<char>,
    level: usize,
    pairs: Seq<(char, char)>,
) -> Seq<char> {
    open::indented_line(unit, level) + if between_pair(s, pos, pairs) {
        open::indented_line(
            unit,
            if level > 0 {
                (level - 1) as usize
            } else {
                0
            },
        )
    } else {
        Seq::empty()
    }
}

/// How many characters the new lines of the first `k` ranges put in.
pub open spec fn newline_offset(
    s: Seq<char>,
    ranges: Seq<Range>,
    unit: Seq<char>,
    levels: Seq<usize>,
    pairs: Seq<(char, char)>,
    k: int,
) -> int
    decreases k,
{
    if k <= 0 {
        0
    } else {
        newline_offset(s, ranges, unit, levels, pairs, k - 1) + newline(
            s,
            ranges[k - 1].head as int,
            unit,
            levels[k - 1],
            pairs,
        ).len()
    }
}

/// A bound on the bytes that the new lines of the first `k` ranges put in.
pub open spec fn newline_size(unit: Seq<char>, levels: Seq<usize>, k: int) -> int
    decreases k,
{
    if k <= 0 {
        0
    } else {
        newline_size(unit, levels, k - 1) + 2 * (1 + strings::bytes(unit) * levels[k - 1])
    }
}

/// Where range `i` lies after the new lines are put in: its head on the new
/// line behind the indentation, an empty range with it.
pub open spec fn newline_range(
    s: Seq<char>,
    ranges: Seq<Range>,
    unit: Seq<char>,
    levels: Seq<usize>,
    pairs: Seq<(char, char)>,
    i: int,
) -> Range {
    let offs = newline_offset(s, ranges, unit, levels, pairs, i);
    let head = (ranges[i].head + offs + open::indented_line(unit, levels[i]).len()) as usize;
    if ranges[i].anchor == ranges[i].head {
        Range::between(head, head)
    } else {
        Range::between((ranges[i].anchor + offs) as usize, head)
    }
}

/// The edit that starts a new line at the head of each range.
pub open spec fn newline_edit(
    s: Seq<char>,
    selection: SelectionView,
    unit: Seq<char>,
    levels: Seq<usize>,
    pairs: Seq<(char, char)>,
) -> TransactionView {
    TransactionView {
        changes: Seq::new(
            selection.ranges.len(),
            |i: int|
                ChangeView::insert(
                    selection.ranges[i].head as int,
                    newline(s, selection.ranges[i].head as int, unit, levels[i], pairs),
                ),
        ),
        selection: Some(
            SelectionView {
                ranges: Seq::new(
                    selection.ranges.len(),
                    |i: int| newline_range(s, selection.ranges, unit, levels, pairs, i),
                ),
                ..selection
            },
        ),
    }
}

proof fn lemma_newline(
    s: Seq<char>,
    pos: int,
    unit: Seq<char>,
    level: usize,
    pairs: Seq<(char, char)>,
)
    ensures
        newline(s, pos, unit, level, pairs).len() <= 2 * (1 + strings::bytes(unit) * level),
        open::indented_line(unit, level).len() <= newline(s, pos, unit, level, pairs).len(),
        0 <= strings::bytes(unit) * level,
        level > 0 ==> strings::bytes(unit) * (level - 1) <= strings::bytes(unit) * level,
{
    let less = if level > 0 {
        (level - 1) as usize
    } else {
        0
    };
    strings::lemma_bytes_repeated(unit, level as nat);
    strings::lemma_len_in_bytes(strings::repeated(unit, level as nat));
    strings::lemma_bytes_repeated(unit, less as nat);
    strings::lemma_len_in_bytes(strings::repeated(unit, less as nat));
    assert(0 <= strings::bytes(unit) * less <= strings::bytes(unit) * level) by (nonlinear_arith)
        requires
            0 <= less <= level,
    ;
}

proof fn lemma_newline_size(
    s: Seq<char>,
    ranges: Seq<Range>,
    unit: Seq<char>,
    levels: Seq<usize>,
    pairs: Seq<(char, char)>,
    k: int,
    n: int,
)
    requires
        0 <= k <= n <= levels.len(),
    ensures
        0 <= newline_offset(s, ranges, unit, levels, pairs, k) <= newline_size(unit, levels, k),
        newline_size(unit, levels, k) <= newline_size(unit, levels, n),
    decreases n,
{
    if n > 0 {
        lemma_newline(s, ranges[n - 1].head as int, unit, levels[n - 1], pairs);
        if k < n {
            lemma_newline_size(s, ranges, unit, levels, pairs, k, n - 1);
        } else {
            lemma_newline_size(s, ranges, unit, levels, pairs, k - 1, n - 1);
        }
    }
}

fn has_pair(pairs: &Vec<(char, char)>, prev: char, curr: char) -> (b: bool)
    ensures
        b == pairs@.contains((prev, curr)),
{
    let mut i: usize = 0;
    while i < pairs.len()
        invariant
            i <= pairs@.len(),
            forall|j: int| 0 <= j < i ==> pairs@[j] != (prev, curr),
        decreases pairs@.len() - i,
    {
        if pairs[i].0 == prev && pairs[i].1 == curr {
            assert(pairs@[i as int] == (prev, curr));
            return true;
        }
        i += 1;
    }
    false
}

/// The edit that starts a new line at the head of each range, indented by
/// `levels`.
pub fn newline_transaction(
    text: &Rope,
    selection: &Selection,
    indent_unit: &str,
    levels: &Vec<usize>,
    pairs: &Vec<(char, char)>,
) -> (transaction: Transaction)
    requires
        text::fits(text::rope_text(*text)),
        selection@.within(text::rope_text(*text).len() as int),
        forall|i: int|
            0 <= i < selection@.ranges.len() ==> (#[trigger] selection@.ranges[i]).head
                < text::rope_text(*text).len(),
        levels@.len() == selection@.ranges.len(),
        text::rope_text(*text).len() + newline_size(indent_unit@, levels@, levels@.len() as int)
            <= isize::MAX,
    ensures
        transaction@ == newline_edit(
            text::rope_text(*text),
            selection@,
            indent_unit@,
            levels@,
            pairs@,
        ),
{
    let ghost s = text::rope_text(*text);
    let ghost unit = indent_unit@;
    let ghost wanted = selection@.ranges;
    let ghost want = newline_edit(s, selection@, unit, levels@, pairs@);
    let mut ranges: Vec<Range> = Vec::with_capacity(selection.ranges.len());
    let mut changes: Vec<Change> = Vec::with_capacity(selection.ranges.len());
    let mut offs: usize = 0;
    let mut i: usize = 0;
    while i < selection.ranges.len()
        invariant
            s == text::rope_text(*text),
            unit == indent_unit@,
            wanted == selection@.ranges,
            want == newline_edit(s, selection@, unit, levels@, pairs@),
            text::fits(s),
            selection@.within(s.len() as int),
            forall|j: int| 0 <= j < wanted.len() ==> (#[trigger] wanted[j]).head < s.len(),
            levels@.len() == wanted.len(),
            s.len() + newline_size(unit, levels@, levels@.len() as int) <= isize::MAX,
            i <= wanted.len(),
            offs == newline_offset(s, wanted, unit, levels@, pairs@, i as int),
            ranges@.len() == i,
            changes@.len() == i,
            forall|j: int|
                0 <= j < i ==> #[trigger] ranges@[j] == newline_range(
                    s,
                    wanted,
                    unit,
                    levels@,
                    pairs@,
                    j,
                ),
            forall|j: int| 0 <= j < i ==> (#[trigger] changes@[j])@ == want.changes[j],
        decreases wanted.len() - i,
    {
        let range = selection.ranges[i];
        let level = levels[i];
        let pos = range.head;
        proof {
            assert(wanted[i as int].within(s.len() as int));
            assert(wanted[i as int].head < s.len());
            text::lemma_fits(s);
            lemma_newline(s, pos as int, unit, level, pairs@);
            lemma_newline_size(s, wanted, unit, levels@, pairs@, i as int, levels@.len() as int);
            lemma_newline_size(s, wanted, unit, levels@, pairs@, i + 1, levels@.len() as int);
        }
        let prev = if pos == 0 {
            ' '
        } else {
            text.char(pos - 1)
        };
        let curr = text.char(pos);
        let indent = indent_unit.repeat(level);
        let mut new_text = String::new();
        new_text.push('\n');
        new_text.append(indent.as_str());
        assert(new_text@ =~= open::indented_line(unit, level));
        let head = pos + offs + new_text.as_str().unicode_len();
        ranges.push(
            Range::new(
                if range.is_empty() {
                    head
                } else {
                    range.anchor + offs
                },
                head,
            ),
        );
        // if between a bracket pair
        if has_pair(pairs, prev, curr) {
            // another newline, indent the end bracket one level less
            let less = level.saturating_sub(1);
            let outer = indent_unit.repeat(less);
            new_text.push('\n');
            new_text.append(outer.as_str());
            assert(new_text@ =~= open::indented_line(unit, level) + open::indented_line(unit, less));
        }
        assert(new_text@ =~= newline(s, pos as int, unit, level, pairs@));
        offs += new_text.as_str().unicode_len();
        changes.push(Change { from: pos, to: pos, text: Some(new_text) });
        i += 1;
    }
    assert(change::change_views(changes@) =~= want.changes);
    assert(ranges@ =~= want.selection->0.ranges);
    Transaction {
        changes,
        selection: Some(Selection { ranges, primary_index: selection.primary_index }),
    }
}

/// The position whose surroundings say how deep the new line at `pos` goes.
pub open spec fn newline_index(pos: usize) -> usize {
    if pos > 0 {
        (pos - 1) as usize
    } else {
        0
    }
}

/// Whether `levels` are what `suggested_indent` may say of the places where the
/// new lines of the ranges go.
pub open spec fn suggested<F: Fn(&Rope, usize, bool) -> usize>(
    suggested_indent: F,
    text: Rope,
    ranges: Seq<Range>,
    levels: Seq<usize>,
) -> bool {
    &&& levels.len() == ranges.len()
    &&& forall|i: int|
        0 <= i < ranges.len() ==> call_ensures(
            suggested_indent,
            (&text, newline_index(ranges[i].head), true),
            #[trigger] levels[i],
        )
}

/// Whether new lines can be started: no cursor is past the last character,
/// `suggested_indent` can be asked about every position, and with what it may
/// say the result is not too long.
pub open spec fn can_start_lines<F: Fn(&Rope, usize, bool) -> usize>(
    cx: Context,
    suggested_indent: F,
) -> bool {
    &&& forall|i: int|
        0 <= i < cx.selection().ranges.len() ==> (#[trigger] cx.selection().ranges[i]).head
            < cx.text().len()
    &&& forall|pos: usize|
        #[trigger] call_requires(suggested_indent, (&cx.editor.doc.text, pos, true))
    &&& forall|levels: Seq<usize>|
        #[trigger] suggested(
            suggested_indent,
            cx.editor.doc.text,
            cx.selection().ranges,
            levels,
        ) ==> cx.text().len() + newline_size(
            cx.editor.doc.indent_unit@,
            levels,
            levels.len() as int,
        ) <= isize::MAX
}

/// Whether `post` is `pre` with the edit asked for that starts a new line at
/// each cursor, indented as `suggested_indent` says.
pub open spec fn starts_lines<F: Fn(&Rope, usize, bool) -> usize>(
    pre: Context,
    post: Context,
    suggested_indent: F,
    pairs: Seq<(char, char)>,
) -> bool {
    exists|levels: Seq<usize>| #[trigger]
        suggested(suggested_indent, pre.editor.doc.text, pre.selection().ranges, levels)
            && post.asks(
            pre,
            seq![
                EffectView::Apply(
                    newline_edit(
                        pre.text(),
                        pre.selection(),
                        pre.editor.doc.indent_unit@,
                        levels,
                        pairs,
                    ),
                ),
            ],
        )
}

/// Starts a new line at each cursor. `suggested_indent` says how deep a line
/// after a position is indented; between two characters of one of the `pairs`
/// the second gets a line of its own.
pub fn insert_newline<F: Fn(&Rope, usize, bool) -> usize>(
    cx: &mut Context,
    suggested_indent: F,
    pairs: &Vec<(char, char)>,
)
    requires
        old(cx).wf(),
        can_start_lines(*old(cx), suggested_indent),
    ensures
        starts_lines(*old(cx), *final(cx), suggested_indent, pairs@),
{
    let ghost wanted = cx.selection().ranges;
    let mut levels: Vec<usize> = Vec::with_capacity(cx.editor.doc.selection.ranges.len());
    let mut i: usize = 0;
    while i < cx.editor.doc.selection.ranges.len()
        invariant
            *cx == *old(cx),
            wanted == cx.selection().ranges,
            can_start_lines(*cx, suggested_indent),
            i <= wanted.len(),
            levels@.len() == i,
            forall|j: int|
                0 <= j < i ==> call_ensures(
                    suggested_indent,
                    (&cx.editor.doc.text, newline_index(wanted[j].head), true),
                    #[trigger] levels@[j],
                ),
        decreases wanted.len() - i,
    {
        let pos = cx.editor.doc.selection.ranges[i].head.saturating_sub(1);
        assert(pos == newline_index(wanted[i as int].head));
        levels.push(suggested_indent(&cx.editor.doc.text, pos, true));
        i += 1;
    }
    assert(suggested(suggested_indent, cx.editor.doc.text, wanted, levels@));
    let transaction = newline_transaction(
        &cx.editor.doc.text,
        &cx.editor.doc.selection,
        cx.editor.doc.indent_unit.as_str(),
        &levels,
        pairs,
    );
    cx.editor.ask(Effect::Apply(transaction));
}

/// The edit that puts `text` in at the head of each range.
pub open spec fn inserts(ranges: Seq<Range>, text: Seq<char>) -> TransactionView {
    TransactionView::of(
        Seq::new(ranges.len(), |i: int| ChangeView::insert(ranges[i].head as int, text)),
    )
}

fn insert_text(selection: &Selection, text: &String) -> (transaction: Transaction)
    ensures
        transaction@ == inserts(selection@.ranges, text@),
{
    let ghost want = inserts(selection@.ranges, text@);
    let mut changes: Vec<Change> = Vec::with_capacity(selection.ranges.len());
    let mut i: usize = 0;
    while i < selection.ranges.len()
        invariant
            want == inserts(selection@.ranges, text@),
            i <= selection.ranges@.len(),
            changes@.len() == i,
            forall|j: int| 0 <= j < i ==> (#[trigger] changes@[j])@ == want.changes[j],
        decreases selection.ranges@.len() - i,
    {
        let head = selection.ranges[i].head;
        changes.push(Change { from: head, to: head, text: Some(text.clone()) });
        i += 1;
    }
    assert(change::change_views(changes@) =~= want.changes);
    Transaction { changes, selection: None }
}

/// Puts one level of indentation in at each cursor.
pub fn insert_tab(cx: &mut Context)
    ensures
        final(cx).asks(
            *old(cx),
            seq![
                EffectView::Apply(
                    inserts(old(cx).selection().ranges, old(cx).editor.doc.indent_unit@),
                ),
            ],
        ),
{
    let transaction = insert_text(&cx.editor.doc.selection, &cx.editor.doc.indent_unit);
    cx.editor.ask(Effect::Apply(transaction));
}

/// The default hook: the edit that puts the character in at each cursor.
pub fn insert(_text: &Rope, selection: &Selection, ch: char) -> (transaction: Option<Transaction>)
    ensures
        transaction matches Some(transaction) && transaction@ == inserts(
            selection@.ranges,
            seq![ch],
        ),
{
    let mut text = String::new();
    text.push(ch);
    assert(text@ =~= seq![ch]);
    Some(insert_text(selection, &text))
}

/// The edit that typing a character makes: the one that the hook gives, and
/// where it gives none, the character put in at each cursor.
pub open spec fn typed(
    ranges: Seq<Range>,
    ch: char,
    hooked: Option<TransactionView>,
) -> TransactionView {
    match hooked {
        Some(transaction) => transaction,
        None => inserts(ranges, seq![ch]),
    }
}

/// Whether `post` is `pre` with a character typed, for which the hook gave
/// `hooked`: the edit asked for, and then what follows the character.
pub open spec fn types_with<H: Fn(&Rope, &Selection, char) -> Option<Transaction>>(
    pre: Context,
    post: Context,
    ch: char,
    hook: H,
    hooked: Option<Transaction>,
) -> bool {
    &&& call_ensures(hook, (&pre.editor.doc.text, &pre.editor.doc.selection, ch), hooked)
    &&& post.asks(
        pre,
        seq![
            EffectView::Apply(
                typed(pre.selection().ranges, ch, change::option_view(hooked)),
            ),
            EffectView::AfterInsert(ch),
        ],
    )
}

/// Whether `post` is `pre` with a character typed.
pub open spec fn types<H: Fn(&Rope, &Selection, char) -> Option<Transaction>>(
    pre: Context,
    post: Context,
    ch: char,
    hook: H,
) -> bool {
    exists|hooked: Option<Transaction>| #[trigger] types_with(pre, post, ch, hook, hooked)
}

/// Types a character. `hook` may give the edit for it.
pub fn insert_char<H: Fn(&Rope, &Selection, char) -> Option<Transaction>>(
    cx: &mut Context,
    c: char,
    hook: H,
)
    requires
        call_requires(hook, (&old(cx).editor.doc.text, &old(cx).editor.doc.selection, c)),
    ensures
        types(*old(cx), *final(cx), c, hook),
{
    // run through insert hooks, stopping on the first one that returns Some(t)
    let hooked = hook(&cx.editor.doc.text, &cx.editor.doc.selection, c);
    let ghost given = hooked;
    let transaction = match hooked {
        Some(transaction) => Some(transaction),
        None => insert(&cx.editor.doc.text, &cx.editor.doc.selection, c),
    };
    if let Some(transaction) = transaction {
        let ghost edit = typed(cx.selection().ranges, c, change::option_view(given));
        assert(transaction@ == edit);
        cx.editor.ask(Effect::Apply(transaction));
        cx.editor.ask(Effect::AfterInsert(c));
        assert(cx.editor.pending() =~= old(cx).editor.pending() + seq![
            EffectView::Apply(edit),
            EffectView::AfterInsert(c),
        ]);
        assert(types_with(*old(cx), *cx, c, hook, given));
    }
}

/// Whether one of the strings holds the character.
pub open spec fn holds_char(strings: Seq<Seq<char>>, ch: char) -> bool {
    exists|i: int| 0 <= i < strings.len() && (#[trigger] strings[i]).contains(ch)
}

/// Whether there are strings and one of them holds the character.
pub open spec fn triggers(list: Option<Vec<String>>, ch: char) -> bool {
    match list {
        Some(list) => holds_char(strings::string_views(list@), ch),
        None => false,
    }
}

fn is_trigger(list: &Option<Vec<String>>, ch: char) -> (b: bool)
    ensures
        b == triggers(*list, ch),
{
    match list {
        Some(strings) => {
            let mut i: usize = 0;
            while i < strings.len()
                invariant
                    *list == Some(*strings),
                    i <= strings@.len(),
                    forall|j: int|
                        0 <= j < i ==> !(#[trigger] strings::string_views(strings@)[j]).contains(ch),
                decreases strings@.len() - i,
            {
                if strings::contains_char(strings[i].as_str(), ch) {
                    assert(strings::string_views(strings@)[i as int].contains(ch));
                    return true;
                }
                i += 1;
            }
            false
        },
        None => false,
    }
}

/// Whether a character calls for completion.
pub open spec fn calls_completion(cx: Context, ch: char) -> bool {
    match cx.editor.doc.language_server {
        Some(server) => triggers(server.completion_triggers, ch),
        None => false,
    }
}

/// Whether a character calls for the signature of a call.
pub open spec fn calls_signature_help(cx: Context, ch: char) -> bool {
    match cx.editor.doc.language_server {
        Some(server) => triggers(server.signature_help_triggers, ch),
        None => false,
    }
}

/// Asks for completion where the character that was typed calls for it.
pub fn completion<P: Fn(&Rope, usize, OffsetEncoding) -> LspPosition>(
    cx: &mut Context,
    ch: char,
    pos_to_lsp_pos: &P,
)
    requires
        old(cx).wf(),
        language::can_ask(*old(cx), *pos_to_lsp_pos),
    ensures
        if calls_completion(*old(cx), ch) {
            language::asked(*old(cx), *final(cx), Topic::Completion, *pos_to_lsp_pos)
        } else {
            *final(cx) == *old(cx)
        },
{
    // if ch matches completion char, trigger completion
    let called = match &cx.editor.doc.language_server {
        Some(language_server) => is_trigger(&language_server.completion_triggers, ch),
        None => return,
    };
    if called {
        language::ask(cx, Topic::Completion, pos_to_lsp_pos);
    }
}

/// Asks for the signature of a call where the character that was typed calls
/// for it.
pub fn signature_help<P: Fn(&Rope, usize, OffsetEncoding) -> LspPosition>(
    cx: &mut Context,
    ch: char,
    pos_to_lsp_pos: &P,
)
    requires
        old(cx).wf(),
        language::can_ask(*old(cx), *pos_to_lsp_pos),
    ensures
        if calls_signature_help(*old(cx), ch) {
            language::asked(*old(cx), *final(cx), Topic::SignatureHelp, *pos_to_lsp_pos)
        } else {
            *final(cx) == *old(cx)
        },
{
    // if ch matches signature_help char, trigger
    let called = match &cx.editor.doc.language_server {
        Some(language_server) => is_trigger(&language_server.signature_help_triggers, ch),
        None => return,
    };
    if called {
        language::ask(cx, Topic::SignatureHelp, pos_to_lsp_pos);
    }
}

/// Whether `post` is `pre` with the question asked where `called` says so.
pub open spec fn asked_if<P: Fn(&Rope, usize, OffsetEncoding) -> LspPosition>(
    pre: Context,
    post: Context,
    called: bool,
    topic: Topic,
    pos_to_lsp_pos: P,
) -> bool {
    if called {
        language::asked(pre, post, topic, pos_to_lsp_pos)
    } else {
        post == pre
    }
}

/// Does what follows a character that was typed: asks the language server for
/// completion, then for a signature, where the character calls for them.
pub fn after_insert<P: Fn(&Rope, usize, OffsetEncoding) -> LspPosition>(
    cx: &mut Context,
    ch: char,
    pos_to_lsp_pos: P,
)
    requires
        old(cx).wf(),
        language::can_ask(*old(cx), pos_to_lsp_pos),
    ensures
        exists|between: Context|
            {
                &&& #[trigger] asked_if(
                    *old(cx),
                    between,
                    calls_completion(*old(cx), ch),
                    Topic::Completion,
                    pos_to_lsp_pos,
                )
                &&& asked_if(
                    between,
                    *final(cx),
                    calls_signature_help(*old(cx), ch),
                    Topic::SignatureHelp,
                    pos_to_lsp_pos,
                )
            },
{
    completion(cx, ch, &pos_to_lsp_pos);
    let ghost between = *cx;
    assert(asked_if(
        *old(cx),
        between,
        calls_completion(*old(cx), ch),
        Topic::Completion,
        pos_to_lsp_pos,
    ));
    signature_help(cx, ch, &pos_to_lsp_pos);
    assert(asked_if(
        between,
        *cx,
        calls_signature_help(*old(cx), ch),
        Topic::SignatureHelp,
        pos_to_lsp_pos,
    ));
}

/// The change that removes the characters from one end to the other.
pub open spec fn removal(from: usize, to: usize) -> ChangeView {
    ChangeView { from: from as int, to: to as int, text: None }
}

/// Whether `ends` are where `boundary` may say that so many characters before or
/// after each head end.
pub open spec fn bounded<F: Fn(&Rope, usize, usize) -> usize>(
    cx: Context,
    boundary: F,
    ends: Seq<usize>,
) -> bool {
    &&& ends.len() == cx.selection().ranges.len()
    &&& forall|i: int|
        0 <= i < ends.len() ==> call_ensures(
            boundary,
            (&cx.editor.doc.text, cx.selection().ranges[i].head, cx.times()),
            #[trigger] ends[i],
        )
}

/// Whether `boundary` can be asked about every position.
pub open spec fn can_bound<F: Fn(&Rope, usize, usize) -> usize>(cx: Context, boundary: F) -> bool {
    forall|pos: usize|
        pos <= cx.text().len() ==> #[trigger] call_requires(
            boundary,
            (&cx.editor.doc.text, pos, cx.times()),
        )
}

/// Where the boundary lies of each head.
fn boundaries<F: Fn(&Rope, usize, usize) -> usize>(cx: &Context, boundary: F) -> (ends: Vec<usize>)
    requires
        cx.wf(),
        can_bound(*cx, boundary),
    ensures
        bounded(*cx, boundary, ends@),
{
    let count = cx.count();
    let ghost wanted = cx.selection().ranges;
    let mut ends: Vec<usize> = Vec::with_capacity(cx.editor.doc.selection.ranges.len());
    let mut i: usize = 0;
    while i < cx.editor.doc.selection.ranges.len()
        invariant
            wanted == cx.selection().ranges,
            cx.wf(),
            count == cx.times(),
            can_bound(*cx, boundary),
            i <= wanted.len(),
            ends@.len() == i,
            forall|j: int|
                0 <= j < i ==> call_ensures(
                    boundary,
                    (&cx.editor.doc.text, wanted[j].head, count),
                    #[trigger] ends@[j],
                ),
        decreases wanted.len() - i,
    {
        assert(wanted[i as int].within(cx.text().len() as int));
        let head = cx.editor.doc.selection.ranges[i].head;
        ends.push(boundary(&cx.editor.doc.text, head, count));
        i += 1;
    }
    ends
}

/// The edit that removes what lies between each head and where it ends.
pub open spec fn removals(ranges: Seq<Range>, ends: Seq<usize>, backward: bool) -> TransactionView {
    TransactionView::of(
        Seq::new(
            ranges.len(),
            |i: int|
                if backward {
                    removal(ends[i], ranges[i].head)
                } else {
                    removal(ranges[i].head, ends[i])
                },
        ),
    )
}

/// The edit that removes, at each range, what lies between its head and its end.
pub fn removal_transaction(
    selection: &Selection,
    ends: &Vec<usize>,
    backward: bool,
) -> (transaction: Transaction)
    requires
        ends@.len() == selection@.ranges.len(),
    ensures
        transaction@ == removals(selection@.ranges, ends@, backward),
{
    let ghost want = removals(selection@.ranges, ends@, backward);
    let mut changes: Vec<Change> = Vec::with_capacity(ends.len());
    let mut i: usize = 0;
    while i < selection.ranges.len()
        invariant
            ends@.len() == selection@.ranges.len(),
            want == removals(selection@.ranges, ends@, backward),
            i <= selection.ranges@.len(),
            changes@.len() == i,
            forall|j: int| 0 <= j < i ==> (#[trigger] changes@[j])@ == want.changes[j],
        decreases selection.ranges@.len() - i,
    {
        let head = selection.ranges[i].head;
        let end = ends[i];
        changes.push(
            if backward {
                Change { from: end, to: head, text: None }
            } else {
                Change { from: head, to: end, text: None }
            },
        );
        i += 1;
    }
    assert(change::change_views(changes@) =~= want.changes);
    Transaction { changes, selection: None }
}

/// Whether `post` is `pre` with the edit asked for that removes what lies
/// between each head and the boundary.
pub open spec fn removes<F: Fn(&Rope, usize, usize) -> usize>(
    pre: Context,
    post: Context,
    boundary: F,
    backward: bool,
) -> bool {
    exists|ends: Seq<usize>| #[trigger]
        bounded(pre, boundary, ends) && post.asks(
            pre,
            seq![EffectView::Apply(removals(pre.selection().ranges, ends, backward))],
        )
}

/// Deletes as many characters before each cursor as the count says.
/// `nth_prev_grapheme_boundary` says where so many characters before a position
/// start.
pub fn delete_char_backward<F: Fn(&Rope, usize, usize) -> usize>(
    cx: &mut Context,
    nth_prev_grapheme_boundary: F,
)
    requires
        old(cx).wf(),
        can_bound(*old(cx), nth_prev_grapheme_boundary),
    ensures
        removes(*old(cx), *final(cx), nth_prev_grapheme_boundary, true),
{
    let ends = boundaries(cx, nth_prev_grapheme_boundary);
    let transaction = removal_transaction(&cx.editor.doc.selection, &ends, true);
    cx.editor.ask(Effect::Apply(transaction));
}

/// Deletes as many characters after each cursor as the count says.
/// `nth_next_grapheme_boundary` says where so many characters after a position
/// end.
pub fn delete_char_forward<F: Fn(&Rope, usize, usize) -> usize>(
    cx: &mut Context,
    nth_next_grapheme_boundary: F,
)
    requires
        old(cx).wf(),
        can_bound(*old(cx), nth_next_grapheme_boundary),
    ensures
        removes(*old(cx), *final(cx), nth_next_grapheme_boundary, false),
{
    let ends = boundaries(cx, nth_next_grapheme_boundary);
    let transaction = removal_transaction(&cx.editor.doc.selection, &ends, false);
    cx.editor.ask(Effect::Apply(transaction));
}

/// Whether `post` is `pre` with the words selected that `motion` goes over, and
/// then copied to the selected register and deleted.
pub open spec fn deletes_words<F: Fn(&Rope, Range, usize) -> Range>(
    pre: Context,
    post: Context,
    motion: F,
) -> bool {
    exists|words: Seq<Range>| #[trigger]
        movement::moved_by_word(pre, motion, words) && post.asks(
            pre,
            seq![
                EffectView::SetSelection(SelectionView { ranges: words, ..pre.selection() }),
                EffectView::DeleteSelection(pre.selected_register),
            ],
        )
}

/// Deletes back to the start of a word, as often as the count says. The mode
/// stays, and the change is part of the step of the history that is open.
pub fn delete_word_backward<F: Fn(&Rope, Range, usize) -> Range>(
    cx: &mut Context,
    move_prev_word_start: F,
)
    requires
        old(cx).wf(),
        movement::can_move_by_word(*old(cx), move_prev_word_start),
    ensures
        deletes_words(*old(cx), *final(cx), move_prev_word_start),
{
    let selection = movement::words(cx, move_prev_word_start);
    let ghost words = selection@.ranges;
    cx.set_selection(selection);
    cx.editor.ask(Effect::DeleteSelection(cx.selected_register));
    assert(movement::moved_by_word(*old(cx), move_prev_word_start, words));
    assert(cx.editor.pending() =~= old(cx).editor.pending() + seq![
        EffectView::SetSelection(SelectionView { ranges: words, ..old(cx).selection() }),
        EffectView::DeleteSelection(old(cx).selected_register),
    ]);
}

} // verus!
