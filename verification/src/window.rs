//! Commands on views, registers and documents as a whole.

use crate::editor::{
    Action, Buffer, Context, Editor, Effect, EffectView, Key, Layer, LayerView, NextKey,
};
use crate::language;
use crate::select;
use crate::selection::{Selection, SelectionView};
use crate::strings;
use vstd::prelude::*;
use vstd::string::StringExecFns;

verus! {

/// Lets the next key say what to do with the views.
pub fn window_mode(cx: &mut Context)
    ensures
        *final(cx) == old(cx).awaiting(NextKey::Window),
{
    cx.on_next_key(NextKey::Window);
}

/// Goes to the next view.
pub fn rotate_view(cx: &mut Context)
    ensures
        final(cx).asks(*old(cx), seq![EffectView::FocusNext]),
{
    cx.editor.ask(Effect::FocusNext);
}

/// What splitting asks for: the same document in another view, and then the
/// lines and the selection there that this view has.
pub open spec fn split_effects(cx: Context, action: Action) -> Seq<EffectView> {
    seq![
        EffectView::Switch(cx.editor.doc.id, action),
        EffectView::MatchView(cx.editor.view.first_line, cx.selection()),
    ]
}

/// Shows the document in another view as it is shown in this one.
pub fn split(cx: &mut Context, action: Action)
    ensures
        final(cx).asks(*old(cx), split_effects(*old(cx), action)),
{
    let id = cx.editor.doc.id;
    let selection = cx.editor.doc.selection.clone();
    let first_line = cx.editor.view.first_line;
    cx.editor.ask(Effect::Switch(id, action));
    // match the selection in the previous view
    cx.editor.ask(Effect::MatchView(first_line, selection));
    assert(cx.editor.pending() =~= old(cx).editor.pending() + split_effects(*old(cx), action));
}

/// Shows in the focused view what the one that was split showed.
pub fn match_view(cx: &mut Context, first_line: usize, selection: Selection)
    ensures
        final(cx).selects(old(cx).showing(first_line), selection@),
{
    cx.editor.view.first_line = first_line;
    cx.set_selection(selection);
}

/// Splits the view, the new one below.
pub fn hsplit(cx: &mut Context)
    ensures
        final(cx).asks(*old(cx), split_effects(*old(cx), Action::HorizontalSplit)),
{
    split(cx, Action::HorizontalSplit);
}

/// Splits the view, the new one beside it.
pub fn vsplit(cx: &mut Context)
    ensures
        final(cx).asks(*old(cx), split_effects(*old(cx), Action::VerticalSplit)),
{
    split(cx, Action::VerticalSplit);
}

/// Closes the view and leaves its document open.
pub fn wclose(cx: &mut Context)
    ensures
        final(cx).asks(*old(cx), seq![EffectView::Close(old(cx).editor.view.id, false)]),
{
    // close current split
    cx.editor.ask(Effect::Close(cx.editor.view.id, /* close_buffer */ false));
}

/// What a key after `window_mode` asks for.
pub open spec fn window_effects(cx: Context, key: Key) -> Seq<EffectView> {
    if key == Key::Char('w') {
        seq![EffectView::FocusNext]
    } else if key == Key::Char('h') {
        split_effects(cx, Action::HorizontalSplit)
    } else if key == Key::Char('v') {
        split_effects(cx, Action::VerticalSplit)
    } else if key == Key::Char('q') {
        seq![EffectView::Close(cx.editor.view.id, false)]
    } else {
        Seq::empty()
    }
}

/// Does with the views what the key after `window_mode` says.
pub fn window_key(cx: &mut Context, key: Key)
    ensures
        final(cx).asks(*old(cx), window_effects(*old(cx), key)),
{
    assert(cx.editor.pending() =~= cx.editor.pending() + Seq::<EffectView>::empty());
    let ch = match key {
        Key::Char(ch) => ch,
        _ => return,
    };
    if ch == 'w' {
        rotate_view(cx);
    } else if ch == 'h' {
        hsplit(cx);
    } else if ch == 'v' {
        vsplit(cx);
    } else if ch == 'q' {
        wclose(cx);
    }
}

/// Lets the next key name the register for the next command.
pub fn select_register(cx: &mut Context)
    ensures
        *final(cx) == old(cx).awaiting(NextKey::SelectRegister),
{
    cx.on_next_key(NextKey::SelectRegister);
}

/// Takes the register that the key after `select_register` names. A key without
/// a character names none.
pub fn register_key(cx: &mut Context, key: Key)
    ensures
        *final(cx) == match key {
            Key::Char(ch) => Context {
                editor: Editor { selected_register: ch, ..old(cx).editor },
                ..*old(cx)
            },
            _ => *old(cx),
        },
{
    match key {
        Key::Char(ch) => {
            cx.editor.selected_register = ch;
        },
        _ => {},
    }
}

/// The directory that files are looked for in: the root of the project, or the
/// current directory where there is none.
pub open spec fn picker_root(root: Option<String>) -> Seq<char> {
    match root {
        Some(root) => root@,
        None => "./"@,
    }
}

/// Puts the files below the root up for choice.
pub fn file_picker(cx: &mut Context, root: Option<String>)
    ensures
        *final(cx) == old(cx).with_layer(final(cx).callback),
        final(cx).layer() == Some(LayerView::FilePicker(picker_root(root))),
{
    let root = match root {
        Some(root) => root,
        None => "./".to_owned(),
    };
    cx.push_layer(Layer::FilePicker(root));
}

/// The path that a document is listed by, where it is UTF-8.
pub open spec fn listed_path(doc: Buffer) -> Option<Seq<char>> {
    match doc.relative_path {
        Some(path) => path.exact(),
        None => None,
    }
}

/// The documents with their paths, as they are put up for choice.
pub open spec fn buffer_items(documents: Seq<Buffer>) -> Seq<(usize, Option<Seq<char>>)> {
    documents.map_values(|doc: Buffer| (doc.id, listed_path(doc)))
}

/// Puts the open documents up for choice.
pub fn buffer_picker(cx: &mut Context)
    ensures
        *final(cx) == old(cx).with_layer(final(cx).callback),
        final(cx).layer() == Some(
            LayerView::BufferPicker(
                buffer_items(old(cx).editor.documents@),
                old(cx).editor.view.doc,
            ),
        ),
{
    let current = cx.editor.view.doc;
    let ghost want = buffer_items(cx.editor.documents@);
    let mut items: Vec<(usize, Option<String>)> = Vec::with_capacity(cx.editor.documents.len());
    let mut i: usize = 0;
    while i < cx.editor.documents.len()
        invariant
            *cx == *old(cx),
            want == buffer_items(cx.editor.documents@),
            i <= cx.editor.documents@.len(),
            items@.len() == i,
            forall|j: int|
                0 <= j < i ==> ((#[trigger] items@[j]).0, strings::option_view(items@[j].1))
                    == want[j],
        decreases cx.editor.documents@.len() - i,
    {
        let doc = &cx.editor.documents[i];
        let path = match &doc.relative_path {
            Some(path) => if path.is_utf8 {
                Some(path.lossy.clone())
            } else {
                None
            },
            None => None,
        };
        items.push((doc.id, path));
        i += 1;
    }
    let layer = Layer::BufferPicker(items, current);
    assert(layer@ =~= LayerView::BufferPicker(want, current));
    cx.push_layer(layer);
}

/// How a document is listed: by its path, with a mark on the current one. One
/// without a path that can be written down is listed as a scratch buffer.
pub open spec fn buffer_name(id: usize, path: Option<Seq<char>>, current: usize) -> Seq<char> {
    match path {
        Some(path) => if id == current {
            path + " (*)"@
        } else {
            path
        },
        None => "[scratch buffer]"@,
    }
}

/// How a document is listed.
pub fn buffer_label(item: &(usize, Option<String>), current: usize) -> (label: String)
    ensures
        label@ == buffer_name(item.0, strings::option_view(item.1), current),
{
    match &item.1 {
        Some(path) => {
            let mut label = path.clone();
            if item.0 == current {
                label.append(" (*)");
            }
            label
        },
        None => "[scratch buffer]".to_owned(),
    }
}

/// Shows the document that was chosen.
pub fn pick_buffer(cx: &mut Context, item: &(usize, Option<String>))
    ensures
        final(cx).asks(*old(cx), seq![EffectView::Switch(item.0, Action::Replace)]),
{
    cx.editor.ask(Effect::Switch(item.0, Action::Replace));
}

/// Lets the next key say what to put up.
pub fn space_mode(cx: &mut Context)
    ensures
        *final(cx) == old(cx).awaiting(NextKey::Space),
{
    cx.on_next_key(NextKey::Space);
}

/// Whether `post` is what a character after `space_mode` makes of `pre`.
pub open spec fn puts_up(pre: Context, post: Context, ch: char, root: Option<String>) -> bool {
    if ch == 'f' {
        &&& post == pre.with_layer(post.callback)
        &&& post.layer() == Some(LayerView::FilePicker(picker_root(root)))
    } else if ch == 'b' {
        &&& post == pre.with_layer(post.callback)
        &&& post.layer() == Some(
            LayerView::BufferPicker(buffer_items(pre.editor.documents@), pre.editor.view.doc),
        )
    } else if ch == 's' {
        language::asked_for_symbols(pre, post)
    } else if ch == 'w' {
        post == pre.awaiting(NextKey::Window)
    } else if ch == ' ' {
        post.selects(
            pre,
            SelectionView::single(pre.selection().primary().anchor, pre.selection().primary().head),
        )
    } else {
        post == pre
    }
}

/// Puts up what the key after `space_mode` says.
pub fn space_key(cx: &mut Context, key: Key, root: Option<String>)
    requires
        old(cx).wf(),
    ensures
        match key {
            Key::Char(ch) => puts_up(*old(cx), *final(cx), ch, root),
            _ => *final(cx) == *old(cx),
        },
{
    let ch = match key {
        Key::Char(ch) => ch,
        _ => return,
    };
    if ch == 'f' {
        file_picker(cx, root);
    } else if ch == 'b' {
        buffer_picker(cx);
    } else if ch == 's' {
        language::symbol_picker(cx);
    } else if ch == 'w' {
        window_mode(cx);
    } else if ch == ' ' {
        select::keep_primary_selection(cx);
    }
}

} // verus!
