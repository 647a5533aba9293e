//! Commands that go to another place in the text.

use crate::editor::{
    Action, Context, Diagnostic, Direction, Editor, Effect, EffectView, Key, Mode, Movement,
    NextKey, Severity, Window,
};
use crate::language::{self, Topic};
use crate::lsp::{LspPosition, OffsetEncoding};
use crate::movement;
use crate::selection::{Selection, SelectionView};
use crate::text;
use crate::view::{self, Align};
use ropey::Rope;
use vstd::prelude::*;

verus! {

/// What remembers where the cursor is.
pub open spec fn jump_here(cx: Context) -> EffectView {
    EffectView::PushJump(cx.editor.doc.id, cx.selection())
}

/// Remembers where the cursor is.
pub fn push_jump(cx: &mut Context)
    ensures
        final(cx).asks(*old(cx), seq![jump_here(*old(cx))]),
{
    let selection = cx.editor.doc.selection.clone();
    cx.editor.ask(Effect::PushJump(cx.editor.doc.id, selection));
}

/// Whether `post` is `pre` with `selection` asked for and the view centered on
/// its cursor.
pub open spec fn centers(pre: Context, post: Context, selection: SelectionView) -> bool {
    post.selects(
        pre.showing(
            view::aligned(
                pre.text(),
                selection.primary().head as int,
                pre.editor.view.height,
                Align::Center,
            ) as usize,
        ),
        selection,
    )
}

/// Selects something and centers the view on its cursor.
pub fn arrive(cx: &mut Context, selection: Selection)
    requires
        old(cx).wf(),
        selection@.within(old(cx).text().len() as int),
    ensures
        centers(*old(cx), *final(cx), selection@),
{
    assert(selection@.primary().within(cx.text().len() as int));
    let pos = selection.cursor();
    cx.set_selection(selection);
    view::align_at(&cx.editor.doc.text, pos, &mut cx.editor.view, Align::Center);
}

/// Whether `post` is `pre` with the cursor asked for at `pos`, and where it was
/// remembered.
pub open spec fn jumps(pre: Context, post: Context, pos: int) -> bool {
    post.asks(
        pre,
        seq![jump_here(pre), EffectView::SetSelection(SelectionView::point(pos as usize))],
    )
}

fn jump(cx: &mut Context, pos: usize)
    ensures
        jumps(*old(cx), *final(cx), pos as int),
{
    push_jump(cx);
    cx.set_selection(Selection::point(pos));
    assert(cx.editor.pending() =~= old(cx).editor.pending() + seq![
        jump_here(*old(cx)),
        EffectView::SetSelection(SelectionView::point(pos)),
    ]);
}

/// The line before the last one, where a text that ends in a line break has its
/// last characters; the first line where there is none before the last.
pub open spec fn last_text_line(s: Seq<char>) -> int {
    if text::line_count(s) > 2 {
        text::line_count(s) - 2
    } else {
        0
    }
}

/// Goes to the start of the text.
pub fn move_file_start(cx: &mut Context)
    ensures
        jumps(*old(cx), *final(cx), 0),
{
    jump(cx, 0);
}

/// Goes to the start of the line before the last one.
pub fn move_file_end(cx: &mut Context)
    requires
        old(cx).wf(),
    ensures
        jumps(
            *old(cx),
            *final(cx),
            text::line_start(old(cx).text(), last_text_line(old(cx).text())),
        ),
{
    proof {
        text::lemma_fits(cx.text());
        text::lemma_line_start(cx.text(), last_text_line(cx.text()));
    }
    let text = &cx.editor.doc.text;
    let last_line = text.line_to_char(text.len_lines().saturating_sub(2));
    jump(cx, last_line);
}

/// Whether `post` is `pre` with the document asked for that the view showed
/// before. Where there is none, the message line says so.
pub open spec fn switches_back(pre: Context, post: Context) -> bool {
    match pre.editor.view.last_accessed_doc {
        Some(doc) => post.asks(pre, seq![EffectView::Switch(doc, Action::Replace)]),
        None => {
            &&& post == pre.saying(post.editor.status_msg)
            &&& post.editor.message() == Some(("no last accessed buffer"@, Severity::Error))
        },
    }
}

/// Shows the document that the view showed before.
pub fn switch_to_last_accessed_file(cx: &mut Context)
    ensures
        switches_back(*old(cx), *final(cx)),
{
    match cx.editor.view.last_accessed_doc {
        Some(doc) => cx.editor.ask(Effect::Switch(doc, Action::Replace)),
        None => cx.editor.set_error("no last accessed buffer".to_owned()),
    }
}

/// The line that a count goes to: counted from one, and no further than the
/// line before the last.
pub open spec fn counted_line(s: Seq<char>, count: usize) -> int {
    if count - 1 < last_text_line(s) {
        count - 1
    } else {
        last_text_line(s)
    }
}

/// Whether `post` is `pre` gone to the line that the count says. Without a count
/// the next key says where to go.
pub open spec fn goes_to_line(pre: Context, post: Context) -> bool {
    match pre.count {
        Some(count) => jumps(
            pre,
            post,
            text::line_start(pre.text(), counted_line(pre.text(), count)),
        ),
        None => post == pre.awaiting(NextKey::Goto),
    }
}

/// Goes to the line that the count says, or waits for the next key.
pub fn goto_mode(cx: &mut Context)
    requires
        old(cx).wf(),
    ensures
        goes_to_line(*old(cx), *final(cx)),
{
    if let Some(count) = cx.count {
        proof {
            text::lemma_fits(cx.text());
            text::lemma_line_start(cx.text(), counted_line(cx.text(), count));
        }
        let text = &cx.editor.doc.text;
        let last_line = text.len_lines().saturating_sub(2);
        let line = if count - 1 < last_line {
            count - 1
        } else {
            last_line
        };
        let pos = text.line_to_char(line);
        jump(cx, pos);
        return;
    }
    cx.on_next_key(NextKey::Goto);
}

/// Whether a key after `goto_mode` goes to a line in sight.
pub open spec fn is_sight_key(ch: char) -> bool {
    ch == 't' || ch == 'm' || ch == 'b'
}

/// The line in sight that a key asks for: the first, the middle or the last one,
/// where the view keeps its margin, and never past the last.
pub open spec fn sight_line(view: Window, last_line: usize, ch: char) -> int {
    let margin = view::scroll_margin(view);
    let lowest = if last_line > margin {
        last_line - margin
    } else {
        0
    };
    let line = if ch == 't' {
        view.first_line + margin
    } else if ch == 'm' {
        view.first_line + view.height as int / 2
    } else {
        lowest
    };
    if line < lowest {
        line
    } else {
        lowest
    }
}

/// Whether the line in sight that a key asks for can be gone to: `last_line_of`
/// can be asked, with what it says the line is not past the end of the text, and
/// the lines down to it can be counted.
pub open spec fn can_see<L: Fn(&Window, &Rope) -> usize>(
    cx: Context,
    ch: char,
    last_line_of: L,
) -> bool {
    let view = cx.editor.view;
    &&& call_requires(last_line_of, (&view, &cx.editor.doc.text))
    &&& forall|last_line: usize| #[trigger]
        call_ensures(last_line_of, (&view, &cx.editor.doc.text), last_line) ==> sight_line(
            view,
            last_line,
            ch,
        ) <= text::line_count(cx.text())
    &&& ch == 't' ==> view.first_line + view::scroll_margin(view) <= usize::MAX
    &&& ch == 'm' ==> view.first_line + view.height as int / 2 <= usize::MAX
}

/// Whether `post` is `pre` with the cursor asked for on a line in sight.
pub open spec fn sees<L: Fn(&Window, &Rope) -> usize>(
    pre: Context,
    post: Context,
    ch: char,
    last_line_of: L,
) -> bool {
    exists|last_line: usize| #[trigger]
        call_ensures(last_line_of, (&pre.editor.view, &pre.editor.doc.text), last_line)
            && post.selects(
            pre,
            SelectionView::point(
                text::line_start(pre.text(), sight_line(pre.editor.view, last_line, ch)) as usize,
            ),
        )
}

fn see<L: Fn(&Window, &Rope) -> usize>(cx: &mut Context, ch: char, last_line_of: L)
    requires
        old(cx).wf(),
        can_see(*old(cx), ch, last_line_of),
        is_sight_key(ch),
    ensures
        sees(*old(cx), *final(cx), ch, last_line_of),
{
    let view = &cx.editor.view;
    let half = view.height as usize / 2;
    let scrolloff = view::margin(view);
    let last_line = last_line_of(&cx.editor.view, &cx.editor.doc.text);
    let lowest = last_line.saturating_sub(scrolloff);
    let line = if ch == 't' {
        view.first_line + scrolloff
    } else if ch == 'm' {
        view.first_line + half
    } else {
        lowest
    };
    let line = if line < lowest {
        line
    } else {
        lowest
    };
    assert(line == sight_line(cx.editor.view, last_line, ch));
    proof {
        text::lemma_line_start(cx.text(), line as int);
    }
    let pos = cx.editor.doc.text.line_to_char(line);
    cx.set_selection(Selection::point(pos));
}

/// The motion that a key after `goto_mode` asks for, and whether it extends.
/// Which of the two depends on the mode; insert mode has neither.
pub open spec fn goto_movement(mode: Mode) -> Option<Movement> {
    match mode {
        Mode::Normal => Some(Movement::Move),
        Mode::Select => Some(Movement::Extend),
        Mode::Insert => None,
    }
}

/// What a key after `goto_mode` asks the language server about.
pub open spec fn goto_topic(ch: char) -> Option<Topic> {
    if ch == 'd' {
        Some(Topic::Definition)
    } else if ch == 'y' {
        Some(Topic::TypeDefinition)
    } else if ch == 'r' {
        Some(Topic::References)
    } else if ch == 'i' {
        Some(Topic::Implementation)
    } else {
        None
    }
}

/// Whether `post` is what a character after `goto_mode` makes of `pre`.
pub open spec fn goes<
    P: Fn(&Rope, usize, OffsetEncoding) -> LspPosition,
    L: Fn(&Window, &Rope) -> usize,
>(pre: Context, post: Context, ch: char, pos_to_lsp_pos: P, last_line_of: L) -> bool {
    if ch == 'g' {
        jumps(pre, post, 0)
    } else if ch == 'e' {
        jumps(pre, post, text::line_start(pre.text(), last_text_line(pre.text())))
    } else if ch == 'a' {
        switches_back(pre, post)
    } else if ch == 'h' || ch == 'l' || ch == 's' {
        match goto_movement(pre.editor.doc.mode) {
            Some(movement) => post.selects(
                pre,
                if ch == 'h' {
                    movement::at_line_starts(pre, movement)
                } else if ch == 'l' {
                    movement::at_line_ends(pre, movement)
                } else {
                    movement::at_first_nonwhitespace(pre, movement)
                },
            ),
            None => post == pre,
        }
    } else if is_sight_key(ch) {
        sees(pre, post, ch, last_line_of)
    } else {
        match goto_topic(ch) {
            Some(topic) => language::asked(pre, post, topic, pos_to_lsp_pos),
            None => post == pre,
        }
    }
}

/// Goes where the key after `goto_mode` says.
pub fn goto_key<
    P: Fn(&Rope, usize, OffsetEncoding) -> LspPosition,
    L: Fn(&Window, &Rope) -> usize,
>(cx: &mut Context, key: Key, pos_to_lsp_pos: P, last_line_of: L)
    requires
        old(cx).wf(),
        key matches Key::Char(ch) ==> goto_topic(ch) is Some ==> language::can_ask(
            *old(cx),
            pos_to_lsp_pos,
        ),
        key matches Key::Char(ch) ==> is_sight_key(ch) ==> can_see(*old(cx), ch, last_line_of),
    ensures
        match key {
            Key::Char(ch) => goes(*old(cx), *final(cx), ch, pos_to_lsp_pos, last_line_of),
            _ => *final(cx) == *old(cx),
        },
{
    let ch = match key {
        Key::Char(ch) => ch,
        _ => return,
    };
    let mode = cx.editor.doc.mode;
    if ch == 'g' {
        move_file_start(cx);
    } else if ch == 'e' {
        move_file_end(cx);
    } else if ch == 'a' {
        switch_to_last_accessed_file(cx);
    } else if ch == 'h' {
        match mode {
            Mode::Normal => movement::move_line_start(cx),
            Mode::Select => movement::extend_line_start(cx),
            Mode::Insert => {},
        }
    } else if ch == 'l' {
        match mode {
            Mode::Normal => movement::move_line_end(cx),
            Mode::Select => movement::extend_line_end(cx),
            Mode::Insert => {},
        }
    } else if ch == 's' {
        match mode {
            Mode::Normal => movement::move_first_nonwhitespace(cx),
            Mode::Select => movement::extend_first_nonwhitespace(cx),
            Mode::Insert => {},
        }
    } else if ch == 'd' {
        language::goto_definition(cx, pos_to_lsp_pos);
    } else if ch == 'y' {
        language::goto_type_definition(cx, pos_to_lsp_pos);
    } else if ch == 'r' {
        language::goto_reference(cx, pos_to_lsp_pos);
    } else if ch == 'i' {
        language::goto_implementation(cx, pos_to_lsp_pos);
    } else if ch == 't' || ch == 'm' || ch == 'b' {
        see(cx, ch, last_line_of);
    }
}

/// Whether `post` is `pre` with the cursor asked for at `pos`, in the middle of
/// the view, and where it was remembered. Without a position nothing changes.
pub open spec fn goes_to(pre: Context, post: Context, pos: Option<usize>) -> bool {
    match pos {
        Some(pos) => post.asks(
            pre.showing(
                view::aligned(
                    pre.text(),
                    pos as int,
                    pre.editor.view.height,
                    Align::Center,
                ) as usize,
            ),
            seq![jump_here(pre), EffectView::SetSelection(SelectionView::point(pos))],
        ),
        None => post == pre,
    }
}

/// Goes to a position and puts it in the middle of the view.
pub fn goto_pos(cx: &mut Context, pos: usize)
    requires
        old(cx).wf(),
        pos <= old(cx).text().len(),
    ensures
        goes_to(*old(cx), *final(cx), Some(pos)),
{
    push_jump(cx);
    arrive(cx, Selection::point(pos));
    assert(cx.editor.pending() =~= old(cx).editor.pending() + seq![
        jump_here(*old(cx)),
        EffectView::SetSelection(SelectionView::point(pos)),
    ]);
}

/// Where the first remark starts.
pub open spec fn first_diag(diagnostics: Seq<Diagnostic>) -> Option<usize> {
    if diagnostics.len() > 0 {
        Some(diagnostics.first().start)
    } else {
        None
    }
}

/// Where the last remark starts.
pub open spec fn last_diag(diagnostics: Seq<Diagnostic>) -> Option<usize> {
    if diagnostics.len() > 0 {
        Some(diagnostics.last().start)
    } else {
        None
    }
}

/// Where the first remark starts that starts after `pos`.
pub open spec fn diag_after(diagnostics: Seq<Diagnostic>, pos: usize) -> Option<usize>
    decreases diagnostics.len(),
{
    if diagnostics.len() == 0 {
        None
    } else if diagnostics.first().start > pos {
        Some(diagnostics.first().start)
    } else {
        diag_after(diagnostics.drop_first(), pos)
    }
}

/// Where the last remark starts that starts before `pos`.
pub open spec fn diag_before(diagnostics: Seq<Diagnostic>, pos: usize) -> Option<usize>
    decreases diagnostics.len(),
{
    if diagnostics.len() == 0 {
        None
    } else if diagnostics.last().start < pos {
        Some(diagnostics.last().start)
    } else {
        diag_before(diagnostics.drop_last(), pos)
    }
}

/// Where the next remark starts, the first one again after the last.
pub open spec fn next_diag(diagnostics: Seq<Diagnostic>, pos: usize) -> Option<usize> {
    match diag_after(diagnostics, pos) {
        Some(start) => Some(start),
        None => first_diag(diagnostics),
    }
}

/// Where going to the next remark comes to from `pos` when it is done `k` times.
pub open spec fn next_diag_often(diagnostics: Seq<Diagnostic>, pos: usize, k: nat) -> usize
    decreases k,
{
    if k == 0 {
        pos
    } else {
        let before = next_diag_often(diagnostics, pos, (k - 1) as nat);
        match next_diag(diagnostics, before) {
            Some(start) => start,
            None => before,
        }
    }
}

/// Where the previous remark starts, the last one again before the first.
pub open spec fn prev_diag(diagnostics: Seq<Diagnostic>, pos: usize) -> Option<usize> {
    match diag_before(diagnostics, pos) {
        Some(start) => Some(start),
        None => last_diag(diagnostics),
    }
}

/// Goes to the first remark of the language server.
pub fn goto_first_diag(cx: &mut Context)
    requires
        old(cx).wf(),
        first_diag(old(cx).editor.doc.diagnostics@) matches Some(pos) ==> pos
            <= old(cx).text().len(),
    ensures
        goes_to(*old(cx), *final(cx), first_diag(old(cx).editor.doc.diagnostics@)),
{
    if cx.editor.doc.diagnostics.len() == 0 {
        return;
    }
    let pos = cx.editor.doc.diagnostics[0].start;
    goto_pos(cx, pos);
}

/// Goes to the last remark of the language server.
pub fn goto_last_diag(cx: &mut Context)
    requires
        old(cx).wf(),
        last_diag(old(cx).editor.doc.diagnostics@) matches Some(pos) ==> pos
            <= old(cx).text().len(),
    ensures
        goes_to(*old(cx), *final(cx), last_diag(old(cx).editor.doc.diagnostics@)),
{
    let len = cx.editor.doc.diagnostics.len();
    if len == 0 {
        return;
    }
    let pos = cx.editor.doc.diagnostics[len - 1].start;
    goto_pos(cx, pos);
}

/// Goes to the next remark of the language server, and after the last to the
/// first.
pub fn goto_next_diag(cx: &mut Context)
    requires
        old(cx).wf(),
        next_diag(old(cx).editor.doc.diagnostics@, old(cx).cursor()) matches Some(pos) ==> pos
            <= old(cx).text().len(),
    ensures
        goes_to(
            *old(cx),
            *final(cx),
            next_diag(old(cx).editor.doc.diagnostics@, old(cx).cursor()),
        ),
{
    let cursor_pos = cx.editor.doc.selection.cursor();
    let ghost all = cx.editor.doc.diagnostics@;
    let mut i: usize = 0;
    assert(all.skip(0) =~= all);
    while i < cx.editor.doc.diagnostics.len()
        invariant
            *cx == *old(cx),
            cx.wf(),
            all == cx.editor.doc.diagnostics@,
            cursor_pos == cx.cursor(),
            next_diag(all, cursor_pos) matches Some(pos) ==> pos <= cx.text().len(),
            i <= all.len(),
            diag_after(all, cursor_pos) == diag_after(all.skip(i as int), cursor_pos),
        decreases all.len() - i,
    {
        let pos = cx.editor.doc.diagnostics[i].start;
        if pos > cursor_pos {
            goto_pos(cx, pos);
            return;
        }
        assert(all.skip(i as int).drop_first() =~= all.skip(i + 1));
        i += 1;
    }
    goto_first_diag(cx);
}

/// Goes to the previous remark of the language server, and before the first to
/// the last.
pub fn goto_prev_diag(cx: &mut Context)
    requires
        old(cx).wf(),
        prev_diag(old(cx).editor.doc.diagnostics@, old(cx).cursor()) matches Some(pos) ==> pos
            <= old(cx).text().len(),
    ensures
        goes_to(
            *old(cx),
            *final(cx),
            prev_diag(old(cx).editor.doc.diagnostics@, old(cx).cursor()),
        ),
{
    let cursor_pos = cx.editor.doc.selection.cursor();
    let ghost all = cx.editor.doc.diagnostics@;
    let mut i: usize = cx.editor.doc.diagnostics.len();
    assert(all.take(i as int) =~= all);
    while i > 0
        invariant
            *cx == *old(cx),
            cx.wf(),
            all == cx.editor.doc.diagnostics@,
            cursor_pos == cx.cursor(),
            prev_diag(all, cursor_pos) matches Some(pos) ==> pos <= cx.text().len(),
            i <= all.len(),
            diag_before(all, cursor_pos) == diag_before(all.take(i as int), cursor_pos),
        decreases i,
    {
        let pos = cx.editor.doc.diagnostics[i - 1].start;
        if pos < cursor_pos {
            goto_pos(cx, pos);
            return;
        }
        assert(all.take(i as int).drop_last() =~= all.take(i - 1));
        i -= 1;
    }
    goto_last_diag(cx);
}

/// Lets the next key say where to go back to.
pub fn left_bracket_mode(cx: &mut Context)
    ensures
        *final(cx) == old(cx).awaiting(NextKey::LeftBracket),
{
    cx.on_next_key(NextKey::LeftBracket);
}

/// Lets the next key say where to go on to.
pub fn right_bracket_mode(cx: &mut Context)
    ensures
        *final(cx) == old(cx).awaiting(NextKey::RightBracket),
{
    cx.on_next_key(NextKey::RightBracket);
}

/// Where a key after `left_bracket_mode` goes back to.
pub open spec fn left_bracket_target(cx: Context, key: Key) -> Option<usize> {
    if key == Key::Char('d') {
        prev_diag(cx.editor.doc.diagnostics@, cx.cursor())
    } else if key == Key::Char('D') {
        first_diag(cx.editor.doc.diagnostics@)
    } else {
        None
    }
}

/// Where a key after `right_bracket_mode` goes on to.
pub open spec fn right_bracket_target(cx: Context, key: Key) -> Option<usize> {
    if key == Key::Char('d') {
        next_diag(cx.editor.doc.diagnostics@, cx.cursor())
    } else if key == Key::Char('D') {
        last_diag(cx.editor.doc.diagnostics@)
    } else {
        None
    }
}

/// Goes back to where the key after `left_bracket_mode` says.
pub fn left_bracket_key(cx: &mut Context, key: Key)
    requires
        old(cx).wf(),
        left_bracket_target(*old(cx), key) matches Some(pos) ==> pos <= old(cx).text().len(),
    ensures
        goes_to(*old(cx), *final(cx), left_bracket_target(*old(cx), key)),
{
    match key {
        Key::Char(ch) => if ch == 'd' {
            goto_prev_diag(cx);
        } else if ch == 'D' {
            goto_first_diag(cx);
        },
        _ => {},
    }
}

/// Goes on to where the key after `right_bracket_mode` says.
pub fn right_bracket_key(cx: &mut Context, key: Key)
    requires
        old(cx).wf(),
        right_bracket_target(*old(cx), key) matches Some(pos) ==> pos <= old(cx).text().len(),
    ensures
        goes_to(*old(cx), *final(cx), right_bracket_target(*old(cx), key)),
{
    match key {
        Key::Char(ch) => if ch == 'd' {
            goto_next_diag(cx);
        } else if ch == 'D' {
            goto_last_diag(cx);
        },
        _ => {},
    }
}

/// Goes forward among the places that were remembered, as often as the count
/// says.
pub fn jump_forward(cx: &mut Context)
    ensures
        final(cx).asks(*old(cx), seq![EffectView::JumpForward(old(cx).times())]),
{
    let count = cx.count();
    cx.editor.ask(Effect::JumpForward(count));
}

/// Goes back among the places that were remembered, as often as the count says.
pub fn jump_backward(cx: &mut Context)
    ensures
        final(cx).asks(*old(cx), seq![EffectView::JumpBackward(old(cx).times())]),
{
    let count = cx.count();
    cx.editor.ask(Effect::JumpBackward(count));
}

/// What the view is once it has gone to a remembered place in `doc`. Going back
/// to another document makes the one left the last that was shown.
pub open spec fn jumped_view(view: Window, doc: usize, direction: Direction) -> Window {
    Window {
        doc,
        last_accessed_doc: if direction == Direction::Backward && view.doc != doc {
            Some(view.doc)
        } else {
            view.last_accessed_doc
        },
        ..view
    }
}

/// Goes to a remembered place. What is selected there is asked for once the
/// document is the one in the view.
pub fn jump_to_remembered(cx: &mut Context, doc: usize, selection: Selection, direction: Direction)
    ensures
        final(cx).asks(
            (Context {
                editor: Editor {
                    view: jumped_view(old(cx).editor.view, doc, direction),
                    ..old(cx).editor
                },
                ..*old(cx)
            }),
            seq![EffectView::Arrive(selection@)],
        ),
{
    if direction == Direction::Backward && cx.editor.view.doc != doc {
        cx.editor.view.last_accessed_doc = Some(cx.editor.view.doc);
    }
    cx.editor.view.doc = doc;
    cx.editor.ask(Effect::Arrive(selection));
}

} // verus!
