//! What the typed commands do, and the prompt that they are typed at.

use crate::editor::{
    Action, Buffer, Context, Document, Editor, Effect, EffectView, IndentStyle, Layer, RelativePath,
    Severity, UndoKind,
};
use crate::strings;
use crate::typed::{self, Completer, Typed};
use vstd::prelude::*;
use vstd::string::StringExecFns;

verus! {

/// What happened at a prompt.
#[derive(Clone, Copy, Debug, PartialEq, Eq, Structural)]
pub enum PromptEvent {
    Update,
    Validate,
    Abort,
}

/// Whether `post` is `pre` with the message line reporting an error.
pub open spec fn reports(pre: Context, post: Context, error: Seq<char>) -> bool {
    &&& post == pre.saying(post.editor.status_msg)
    &&& post.editor.message() == Some((error, Severity::Error))
}

/// The documents with changes that are not on disk, by path.
pub open spec fn unsaved(documents: Seq<Buffer>) -> Seq<Seq<char>>
    decreases documents.len(),
{
    if documents.len() == 0 {
        Seq::empty()
    } else {
        let before = unsaved(documents.drop_last());
        if documents.last().modified {
            before.push(unsaved_name(documents.last().relative_path))
        } else {
            before
        }
    }
}

/// What a document with changes is called.
pub open spec fn unsaved_name(path: Option<RelativePath>) -> Seq<char> {
    match path {
        Some(path) => path.lossy@,
        None => "[scratch]"@,
    }
}

/// What the message line says of documents with changes.
pub open spec fn unsaved_message(names: Seq<Seq<char>>) -> Seq<char> {
    strings::decimal(names.len()) + " unsaved buffer(s) remaining: "@ + strings::debug_list(names)
}

/// Whether there are documents with changes. If so, the message line says which.
pub fn buffers_remaining_impl(cx: &mut Context) -> (remaining: bool)
    ensures
        remaining == (unsaved(old(cx).editor.documents@).len() > 0),
        if remaining {
            reports(*old(cx), *final(cx), unsaved_message(unsaved(old(cx).editor.documents@)))
        } else {
            *final(cx) == *old(cx)
        },
{
    let ghost documents = cx.editor.documents@;
    let mut modified: Vec<String> = Vec::new();
    let mut i: usize = 0;
    assert(strings::string_views(modified@) =~= unsaved(documents.take(0)));
    while i < cx.editor.documents.len()
        invariant
            *cx == *old(cx),
            documents == cx.editor.documents@,
            i <= documents.len(),
            strings::string_views(modified@) == unsaved(documents.take(i as int)),
        decreases documents.len() - i,
    {
        let doc = &cx.editor.documents[i];
        assert(documents.take(i + 1).drop_last() =~= documents.take(i as int));
        assert(documents.take(i + 1).last() == documents[i as int]);
        if doc.modified {
            let ghost before = strings::string_views(modified@);
            let name = match &doc.relative_path {
                Some(path) => path.lossy.clone(),
                None => "[scratch]".to_owned(),
            };
            let ghost named = name@;
            modified.push(name);
            assert(strings::string_views(modified@) =~= before.push(named));
        }
        i += 1;
    }
    assert(documents.take(i as int) =~= documents);
    if modified.len() > 0 {
        let mut err = String::new();
        strings::push_decimal(&mut err, modified.len());
        err.append(" unsaved buffer(s) remaining: ");
        strings::push_debug(&mut err, &modified);
        assert(err@ =~= unsaved_message(unsaved(documents)));
        cx.editor.set_error(err);
        true
    } else {
        false
    }
}

/// Whether `post` is what closing the view makes of `pre`. The last view is not
/// closed while there are documents with changes.
pub open spec fn quits(pre: Context, post: Context) -> bool {
    if pre.editor.views@.len() == 1 && unsaved(pre.editor.documents@).len() > 0 {
        reports(pre, post, unsaved_message(unsaved(pre.editor.documents@)))
    } else {
        closes(pre, post)
    }
}

/// Whether `post` is `pre` with the view asked to be closed.
pub open spec fn closes(pre: Context, post: Context) -> bool {
    post.asks(pre, seq![EffectView::Close(pre.editor.view.id, false)])
}

/// Closes the view, unless it is the last and changes would be lost.
pub fn quit(cx: &mut Context)
    ensures
        quits(*old(cx), *final(cx)),
{
    // last view and we have unsaved changes
    if cx.editor.views.len() == 1 && buffers_remaining_impl(cx) {
        return;
    }
    cx.editor.ask(Effect::Close(cx.editor.view.id, /* close_buffer */ false));
}

/// Closes the view.
pub fn force_quit(cx: &mut Context)
    ensures
        closes(*old(cx), *final(cx)),
{
    cx.editor.ask(Effect::Close(cx.editor.view.id, /* close_buffer */ false));
}

/// Whether `post` is what opening the file that the first argument names makes
/// of `pre`.
pub open spec fn opens(pre: Context, post: Context, args: Seq<String>) -> bool {
    if args.len() > 0 {
        post.asks(pre, seq![EffectView::Open(args[0]@, Action::Replace)])
    } else {
        reports(pre, post, "wrong argument count"@)
    }
}

/// Opens the file that the first argument names.
pub fn open(cx: &mut Context, args: &Vec<String>)
    ensures
        opens(*old(cx), *final(cx), args@),
{
    if args.len() > 0 {
        cx.editor.ask(Effect::Open(args[0].clone(), Action::Replace));
    } else {
        cx.editor.set_error("wrong argument count".to_owned());
    }
}

/// What writing the document asks for: formatting first, where it is wanted.
pub open spec fn write_effects(doc: Document) -> Seq<EffectView> {
    if doc.auto_format {
        seq![EffectView::Format, EffectView::Write]
    } else {
        seq![EffectView::Write]
    }
}

/// Whether writing makes `post` of `pre` and comes to `result`, where the new
/// path is `resolved`. Without a path of its own or a new one, a document is not
/// written.
pub open spec fn writes_at(
    pre: Context,
    post: Context,
    resolved: Option<Result<String, String>>,
    result: Result<(), String>,
) -> bool {
    match resolved {
        Some(Ok(path)) => {
            &&& result is Ok
            &&& post.asks(
                pre.at_path(Some(path)),
                seq![EffectView::SetPath(path@)] + write_effects(pre.editor.doc),
            )
        },
        Some(Err(error)) => {
            &&& result matches Err(message) && message@ == "invalid filepath: "@ + error@
            &&& post == pre
        },
        None => if pre.editor.doc.path is Some {
            &&& result is Ok
            &&& post.asks(pre, write_effects(pre.editor.doc))
        } else {
            &&& result matches Err(message) && message@
                == "cannot write a buffer without a filename"@
            &&& post == pre
        },
    }
}

/// Whether writing makes `post` of `pre` and comes to `result`, where the first
/// argument is the new path if there is one, as `resolve` makes it out.
pub open spec fn writes<R: Fn(&String) -> Result<String, String>>(
    pre: Context,
    post: Context,
    args: Seq<String>,
    resolve: R,
    result: Result<(), String>,
) -> bool {
    if args.len() > 0 {
        exists|resolved: Result<String, String>| #[trigger]
            call_ensures(resolve, (&args[0],), resolved) && writes_at(
                pre,
                post,
                Some(resolved),
                result,
            )
    } else {
        writes_at(pre, post, None, result)
    }
}

/// Writes the document, under the path that the first argument names if there is
/// one. `resolve` makes out the path, or says why there is no such path.
pub fn write_impl<R: Fn(&String) -> Result<String, String>>(
    cx: &mut Context,
    args: &Vec<String>,
    resolve: &R,
) -> (result: Result<(), String>)
    requires
        args@.len() > 0 ==> call_requires(*resolve, (&args@[0],)),
    ensures
        writes(*old(cx), *final(cx), args@, *resolve, result),
{
    let ghost mut resolved_path: Option<Result<String, String>> = None;
    if args.len() > 0 {
        let resolved = resolve(&args[0]);
        proof {
            resolved_path = Some(resolved);
        }
        match resolved {
            Ok(path) => {
                cx.editor.doc.path = Some(path.clone());
                cx.editor.ask(Effect::SetPath(path));
            },
            Err(err) => {
                let mut message = "invalid filepath: ".to_owned();
                message.append(err.as_str());
                assert(writes_at(*old(cx), *cx, resolved_path, Err(message)));
                return Err(message);
            },
        }
    }
    if cx.editor.doc.path.is_none() {
        return Err("cannot write a buffer without a filename".to_owned());
    }
    if cx.editor.doc.auto_format {
        cx.editor.ask(Effect::Format);
    }
    cx.editor.ask(Effect::Write);
    proof {
        let added = match resolved_path {
            Some(Ok(path)) => seq![EffectView::SetPath(path@)] + write_effects(old(cx).editor.doc),
            _ => write_effects(old(cx).editor.doc),
        };
        assert(cx.editor.pending() =~= old(cx).editor.pending() + added);
        assert(writes_at(*old(cx), *cx, resolved_path, Ok(())));
    }
    Ok(())
}

/// Whether `post` is what reporting the outcome makes of `pre`.
pub open spec fn outcome_reported(pre: Context, post: Context, result: Result<(), String>) -> bool {
    match result {
        Ok(_) => post == pre,
        Err(message) => reports(pre, post, message@),
    }
}

/// Whether `post` is what writing and reporting the outcome makes of `pre`.
pub open spec fn writes_and_reports<R: Fn(&String) -> Result<String, String>>(
    pre: Context,
    post: Context,
    args: Seq<String>,
    resolve: R,
) -> bool {
    exists|written: Context, result: Result<(), String>| #[trigger]
        writes(pre, written, args, resolve, result) && outcome_reported(written, post, result)
}

/// Writes the document.
pub fn write<R: Fn(&String) -> Result<String, String>>(
    cx: &mut Context,
    args: &Vec<String>,
    resolve: &R,
)
    requires
        args@.len() > 0 ==> call_requires(*resolve, (&args@[0],)),
    ensures
        writes_and_reports(*old(cx), *final(cx), args@, *resolve),
{
    let result = write_impl(cx, args, resolve);
    let ghost written = *cx;
    let ghost came_to = result;
    if let Err(e) = result {
        cx.editor.set_error(e);
    }
    assert(outcome_reported(written, *cx, came_to));
}

/// Opens an empty document.
pub fn new_file(cx: &mut Context)
    ensures
        final(cx).asks(*old(cx), seq![EffectView::NewFile(Action::Replace)]),
{
    cx.editor.ask(Effect::NewFile(Action::Replace));
}

/// Has the document formatted.
pub fn format(cx: &mut Context)
    ensures
        final(cx).asks(*old(cx), seq![EffectView::Format]),
{
    cx.editor.ask(Effect::Format);
}

/// What the message line says of an indentation style.
pub open spec fn style_message(style: IndentStyle) -> Seq<char> {
    match style {
        IndentStyle::Tabs => "tabs"@,
        IndentStyle::Spaces(n) => if n == 1 {
            "1 space"@
        } else if 2 <= n <= 8 {
            strings::decimal(n as nat) + " spaces"@
        } else {
            "error"@
        },
    }
}

/// The indentation style that an argument names: tabs by the start of the word,
/// in either case, or by a zero, spaces by their number.
pub open spec fn style_named(arg: Seq<char>) -> Option<IndentStyle> {
    if strings::lowercase(arg).is_prefix_of("tabs"@) || arg == "0"@ {
        Some(IndentStyle::Tabs)
    } else {
        match strings::byte_value(arg) {
            Some(n) => if 1 <= n <= 8 {
                Some(IndentStyle::Spaces(n))
            } else {
                None
            },
            None => None,
        }
    }
}

/// Whether `post` is what setting the indentation style makes of `pre`. Without
/// an argument the message line says what the style is.
pub open spec fn sets_style(pre: Context, post: Context, args: Seq<String>) -> bool {
    if args.len() == 0 {
        &&& post == pre.saying(post.editor.status_msg)
        &&& post.editor.message() == Some(
            (style_message(pre.editor.doc.indent_style), Severity::Info),
        )
    } else {
        match style_named(args[0]@) {
            Some(indent_style) => post == (Context {
                editor: Editor {
                    doc: Document { indent_style, ..pre.editor.doc },
                    ..pre.editor
                },
                ..pre
            }),
            None => reports(pre, post, "invalid indent style '"@ + args[0]@ + "'"@),
        }
    }
}

/// The indentation style that an argument names.
pub fn parse_style(arg: &str) -> (style: Option<IndentStyle>)
    ensures
        style == style_named(arg@),
{
    if strings::starts_with("tabs", arg.to_lowercase().as_str()) || strings::same(arg, "0") {
        return Some(IndentStyle::Tabs);
    }
    match strings::parse_byte(arg) {
        Some(n) => if 1 <= n && n <= 8 {
            Some(IndentStyle::Spaces(n))
        } else {
            None
        },
        None => None,
    }
}

/// Sets the indentation style, or says what it is.
pub fn set_indent_style(cx: &mut Context, args: &Vec<String>)
    ensures
        sets_style(*old(cx), *final(cx), args@),
{
    // If no argument, report current indent style.
    if args.len() == 0 {
        let status = match cx.editor.doc.indent_style {
            IndentStyle::Tabs => "tabs".to_owned(),
            IndentStyle::Spaces(n) => if n == 1 {
                "1 space".to_owned()
            } else if 2 <= n && n <= 8 {
                let mut status = String::new();
                strings::push_decimal(&mut status, n as usize);
                status.append(" spaces");
                assert(status@ =~= style_message(IndentStyle::Spaces(n)));
                status
            } else {
                "error".to_owned()
            },
        };
        cx.editor.set_status(status);
        return;
    }
    // Attempt to parse argument as an indent style.
    match parse_style(args[0].as_str()) {
        Some(style) => {
            cx.editor.doc.indent_style = style;
        },
        None => {
            // Invalid argument.
            let mut error = "invalid indent style '".to_owned();
            error.append(args[0].as_str());
            error.append("'");
            cx.editor.set_error(error);
        },
    }
}

/// Whether `post` is what going along the history makes of `pre`, where the
/// arguments say how far.
pub open spec fn goes_along(
    pre: Context,
    post: Context,
    kind: Result<UndoKind, String>,
    back: bool,
) -> bool {
    match kind {
        Ok(kind) => post.asks(
            pre,
            seq![
                if back {
                    EffectView::Earlier(kind)
                } else {
                    EffectView::Later(kind)
                },
            ],
        ),
        Err(message) => reports(pre, post, message@),
    }
}

/// Whether `post` is what going along the history makes of `pre`, as far as
/// `parse` makes out of the arguments with spaces between them.
pub open spec fn goes_as_said<U: Fn(&String) -> Result<UndoKind, String>>(
    pre: Context,
    post: Context,
    args: Seq<String>,
    parse: U,
    back: bool,
) -> bool {
    exists|text: String, kind: Result<UndoKind, String>|
        {
            &&& text@ == strings::joined(strings::string_views(args), " "@)
            &&& #[trigger] call_ensures(parse, (&text,), kind)
            &&& goes_along(pre, post, kind, back)
        }
}

fn go_along<U: Fn(&String) -> Result<UndoKind, String>>(
    cx: &mut Context,
    args: &Vec<String>,
    parse: &U,
    back: bool,
)
    requires
        forall|text: String| #[trigger] call_requires(*parse, (&text,)),
    ensures
        goes_as_said(*old(cx), *final(cx), args@, *parse, back),
{
    let text = strings::join(args, " ");
    let kind = parse(&text);
    let ghost said = kind;
    match kind {
        Ok(kind) => {
            if back {
                cx.editor.ask(Effect::Earlier(kind));
            } else {
                cx.editor.ask(Effect::Later(kind));
            }
        },
        Err(msg) => cx.editor.set_error(msg),
    }
    assert(call_ensures(*parse, (&text,), said));
    assert(goes_along(*old(cx), *cx, said, back));
}

/// Goes back in the history as far as the arguments say.
pub fn earlier<U: Fn(&String) -> Result<UndoKind, String>>(
    cx: &mut Context,
    args: &Vec<String>,
    parse: &U,
)
    requires
        forall|text: String| #[trigger] call_requires(*parse, (&text,)),
    ensures
        goes_as_said(*old(cx), *final(cx), args@, *parse, true),
{
    go_along(cx, args, parse, true);
}

/// Goes forward in the history as far as the arguments say.
pub fn later<U: Fn(&String) -> Result<UndoKind, String>>(
    cx: &mut Context,
    args: &Vec<String>,
    parse: &U,
)
    requires
        forall|text: String| #[trigger] call_requires(*parse, (&text,)),
    ensures
        goes_as_said(*old(cx), *final(cx), args@, *parse, false),
{
    go_along(cx, args, parse, false);
}

/// Whether `post` is what comes of `pre` once the document was written: the view
/// asked to be closed, or the error reported.
pub open spec fn quits_after(pre: Context, post: Context, result: Result<(), String>) -> bool {
    match result {
        Ok(_) => post.asks(pre, seq![EffectView::Quit]),
        Err(message) => reports(pre, post, message@),
    }
}

/// Whether `post` is what writing the document and closing the view makes of
/// `pre`.
pub open spec fn writes_and_quits<R: Fn(&String) -> Result<String, String>>(
    pre: Context,
    post: Context,
    args: Seq<String>,
    resolve: R,
) -> bool {
    exists|written: Context, result: Result<(), String>| #[trigger]
        writes(pre, written, args, resolve, result) && quits_after(written, post, result)
}

/// Writes the document and closes the view. A document that cannot be written
/// stays in the view.
pub fn write_quit<R: Fn(&String) -> Result<String, String>>(
    cx: &mut Context,
    args: &Vec<String>,
    resolve: &R,
)
    requires
        args@.len() > 0 ==> call_requires(*resolve, (&args@[0],)),
    ensures
        writes_and_quits(*old(cx), *final(cx), args@, *resolve),
{
    let result = write_impl(cx, args, resolve);
    let ghost written = *cx;
    let ghost came_to = result;
    match result {
        Ok(_) => cx.editor.ask(Effect::Quit),
        Err(e) => cx.editor.set_error(e),
    }
    assert(quits_after(written, *cx, came_to));
}

/// Whether `post` is what writing the document and closing the view in any case
/// makes of `pre`.
pub open spec fn writes_and_closes<R: Fn(&String) -> Result<String, String>>(
    pre: Context,
    post: Context,
    args: Seq<String>,
    resolve: R,
) -> bool {
    exists|written: Context| #[trigger]
        writes_and_reports(pre, written, args, resolve) && closes(written, post)
}

/// Writes the document and closes the view, though it could not be written.
pub fn force_write_quit<R: Fn(&String) -> Result<String, String>>(
    cx: &mut Context,
    args: &Vec<String>,
    resolve: &R,
)
    requires
        args@.len() > 0 ==> call_requires(*resolve, (&args@[0],)),
    ensures
        writes_and_closes(*old(cx), *final(cx), args@, *resolve),
{
    write(cx, args, resolve);
    assert(writes_and_reports(*old(cx), *cx, args@, *resolve));
    force_quit(cx);
}

/// What writing all documents asks for: to write each one with a path.
pub open spec fn write_all_effects(documents: Seq<Buffer>) -> Seq<EffectView>
    decreases documents.len(),
{
    if documents.len() == 0 {
        Seq::empty()
    } else {
        let before = write_all_effects(documents.drop_last());
        if documents.last().path is Some {
            before.push(EffectView::WriteBuffer(documents.last().id))
        } else {
            before
        }
    }
}

/// What writing all documents reports: a line for each one without a path.
pub open spec fn write_all_errors(documents: Seq<Buffer>) -> Seq<char>
    decreases documents.len(),
{
    if documents.len() == 0 {
        Seq::empty()
    } else {
        let before = write_all_errors(documents.drop_last());
        if documents.last().path is Some {
            before
        } else {
            before + "cannot write a buffer without a filename\n"@
        }
    }
}

/// Whether `post` is what writing all documents makes of `pre`. The message line
/// gets the report, though it be empty.
pub open spec fn writes_all(pre: Context, post: Context, quit: bool, force: bool) -> bool {
    &&& post.asks(
        pre.saying(post.editor.status_msg),
        write_all_effects(pre.editor.documents@) + if quit {
            seq![EffectView::QuitAll(force)]
        } else {
            Seq::empty()
        },
    )
    &&& post.editor.message() == Some(
        (write_all_errors(pre.editor.documents@), Severity::Error),
    )
}

/// Writes all documents, and closes all views where `quit` says so.
pub fn write_all_impl(cx: &mut Context, quit: bool, force: bool)
    ensures
        writes_all(*old(cx), *final(cx), quit, force),
{
    let ghost documents = cx.editor.documents@;
    let ghost before = cx.editor.pending();
    let mut errors = String::new();
    // save all documents
    let mut i: usize = 0;
    assert(cx.editor.pending() =~= before + write_all_effects(documents.take(0)));
    assert(errors@ =~= write_all_errors(documents.take(0)));
    while i < cx.editor.documents.len()
        invariant
            *cx == (Context { editor: cx.editor, ..*old(cx) }),
            cx.editor.keeps(old(cx).editor),
            documents == cx.editor.documents@,
            i <= documents.len(),
            cx.editor.pending() == before + write_all_effects(documents.take(i as int)),
            errors@ == write_all_errors(documents.take(i as int)),
        decreases documents.len() - i,
    {
        assert(documents.take(i + 1).drop_last() =~= documents.take(i as int));
        assert(documents.take(i + 1).last() == documents[i as int]);
        if cx.editor.documents[i].path.is_none() {
            errors.append("cannot write a buffer without a filename\n");
        } else {
            let id = cx.editor.documents[i].id;
            cx.editor.ask(Effect::WriteBuffer(id));
            assert(cx.editor.pending() =~= before + write_all_effects(documents.take(i + 1)));
        }
        i += 1;
    }
    assert(documents.take(i as int) =~= documents);
    cx.editor.set_error(errors);
    if quit {
        cx.editor.ask(Effect::QuitAll(force));
    }
    assert(cx.editor.pending() =~= before + (write_all_effects(documents) + if quit {
        seq![EffectView::QuitAll(force)]
    } else {
        Seq::empty()
    }));
}

/// Writes all documents.
pub fn write_all(cx: &mut Context)
    ensures
        writes_all(*old(cx), *final(cx), false, false),
{
    write_all_impl(cx, false, false);
}

/// Writes all documents and closes all views, unless changes would be lost.
pub fn write_all_quit(cx: &mut Context)
    ensures
        writes_all(*old(cx), *final(cx), true, false),
{
    write_all_impl(cx, true, false);
}

/// Writes all documents and closes all views.
pub fn force_write_all_quit(cx: &mut Context)
    ensures
        writes_all(*old(cx), *final(cx), true, true),
{
    write_all_impl(cx, true, true);
}

/// What closing all views asks for.
pub open spec fn close_all(views: Seq<usize>) -> Seq<EffectView> {
    views.map_values(|view: usize| EffectView::Close(view, false))
}

/// Whether `post` is what closing all views makes of `pre`. Unless it is forced,
/// they stay while there are documents with changes.
pub open spec fn quits_all(pre: Context, post: Context, force: bool) -> bool {
    if !force && unsaved(pre.editor.documents@).len() > 0 {
        reports(pre, post, unsaved_message(unsaved(pre.editor.documents@)))
    } else {
        post.asks(pre, close_all(pre.editor.views@))
    }
}

/// Closes all views, unless changes would be lost and it is not forced.
pub fn quit_all_impl(cx: &mut Context, force: bool)
    ensures
        quits_all(*old(cx), *final(cx), force),
{
    if !force && buffers_remaining_impl(cx) {
        return;
    }
    // close all views
    let ghost views = cx.editor.views@;
    let ghost before = cx.editor.pending();
    let mut i: usize = 0;
    assert(cx.editor.pending() =~= before + close_all(views.take(0)));
    while i < cx.editor.views.len()
        invariant
            *cx == (Context { editor: cx.editor, ..*old(cx) }),
            cx.editor.keeps(old(cx).editor),
            views == cx.editor.views@,
            i <= views.len(),
            cx.editor.pending() == before + close_all(views.take(i as int)),
        decreases views.len() - i,
    {
        let view_id = cx.editor.views[i];
        cx.editor.ask(Effect::Close(view_id, false));
        assert(cx.editor.pending() =~= before + close_all(views.take(i + 1)));
        i += 1;
    }
    assert(views.take(i as int) =~= views);
}

/// Closes all views, unless changes would be lost.
pub fn quit_all(cx: &mut Context)
    ensures
        quits_all(*old(cx), *final(cx), false),
{
    quit_all_impl(cx, false);
}

/// Closes all views.
pub fn force_quit_all(cx: &mut Context)
    ensures
        quits_all(*old(cx), *final(cx), true),
{
    quit_all_impl(cx, true);
}

/// Whether `post` is what a typed command makes of `pre`.
pub open spec fn runs<
    R: Fn(&String) -> Result<String, String>,
    U: Fn(&String) -> Result<UndoKind, String>,
>(pre: Context, post: Context, typed: Typed, args: Seq<String>, resolve: R, parse: U) -> bool {
    match typed {
        Typed::Quit => quits(pre, post),
        Typed::ForceQuit => closes(pre, post),
        Typed::Open => opens(pre, post, args),
        Typed::Write => writes_and_reports(pre, post, args, resolve),
        Typed::NewFile => post.asks(pre, seq![EffectView::NewFile(Action::Replace)]),
        Typed::Format => post.asks(pre, seq![EffectView::Format]),
        Typed::SetIndentStyle => sets_style(pre, post, args),
        Typed::Earlier => goes_as_said(pre, post, args, parse, true),
        Typed::Later => goes_as_said(pre, post, args, parse, false),
        Typed::WriteQuit => writes_and_quits(pre, post, args, resolve),
        Typed::ForceWriteQuit => writes_and_closes(pre, post, args, resolve),
        Typed::WriteAll => writes_all(pre, post, false, false),
        Typed::WriteAllQuit => writes_all(pre, post, true, false),
        Typed::ForceWriteAllQuit => writes_all(pre, post, true, true),
        Typed::QuitAll => quits_all(pre, post, false),
        Typed::ForceQuitAll => quits_all(pre, post, true),
    }
}

/// Runs a typed command. `resolve` makes out paths, `parse` distances in the
/// history.
pub fn run<
    R: Fn(&String) -> Result<String, String>,
    U: Fn(&String) -> Result<UndoKind, String>,
>(cx: &mut Context, typed: Typed, args: &Vec<String>, resolve: &R, parse: &U)
    requires
        forall|path: String| #[trigger] call_requires(*resolve, (&path,)),
        forall|text: String| #[trigger] call_requires(*parse, (&text,)),
    ensures
        runs(*old(cx), *final(cx), typed, args@, *resolve, *parse),
{
    match typed {
        Typed::Quit => quit(cx),
        Typed::ForceQuit => force_quit(cx),
        Typed::Open => open(cx, args),
        Typed::Write => write(cx, args, resolve),
        Typed::NewFile => new_file(cx),
        Typed::Format => format(cx),
        Typed::SetIndentStyle => set_indent_style(cx, args),
        Typed::Earlier => earlier(cx, args, parse),
        Typed::Later => later(cx, args, parse),
        Typed::WriteQuit => write_quit(cx, args, resolve),
        Typed::ForceWriteQuit => force_write_quit(cx, args, resolve),
        Typed::WriteAll => write_all(cx),
        Typed::WriteAllQuit => write_all_quit(cx),
        Typed::ForceWriteAllQuit => force_write_all_quit(cx),
        Typed::QuitAll => quit_all(cx),
        Typed::ForceQuitAll => force_quit_all(cx),
    }
}

/// Puts the prompt for typed commands up.
pub fn command_mode(cx: &mut Context)
    ensures
        *final(cx) == old(cx).with_layer(Some(Layer::CommandPrompt)),
{
    cx.push_layer(Layer::CommandPrompt);
}

/// What a completion puts in, and from which byte of the input on.
pub open spec fn completion_views(completions: Seq<(usize, String)>) -> Seq<(usize, Seq<char>)> {
    completions.map_values(|completion: (usize, String)| (completion.0, completion.1@))
}

/// The first `n` commands as completions of what was typed of a name: those with
/// that somewhere in their name.
pub open spec fn name_completions(input: Seq<char>, n: int) -> Seq<(usize, Seq<char>)>
    decreases n,
{
    if n <= 0 {
        Seq::empty()
    } else {
        let before = name_completions(input, n - 1);
        let name = typed::TYPABLE_COMMAND_LIST@[n - 1].named();
        if strings::occurs(name, input) {
            before.push((0usize, name))
        } else {
            before
        }
    }
}

/// The byte of the input at which its last part starts.
pub open spec fn argument_offset(input: Seq<char>) -> int {
    strings::bytes(input) - strings::bytes(strings::after_space(input))
}

/// Completions of the last part of the input, placed in the whole of it.
pub open spec fn placed(
    input: Seq<char>,
    completions: Seq<(usize, Seq<char>)>,
) -> Seq<(usize, Seq<char>)> {
    completions.map_values(
        |completion: (usize, Seq<char>)|
            ((completion.0 + argument_offset(input)) as usize, completion.1),
    )
}

/// What completes the arguments in the input: what the command before the first
/// space says.
pub open spec fn argument_completer(input: Seq<char>) -> Option<Completer> {
    match typed::command_called(strings::before_space(input)) {
        Some(typed) => typed.completed(),
        None => None,
    }
}

/// Whether `completions` are those of the input. Up to the first space it is a
/// name that is completed; after it, an argument, as `filename` says, where the
/// command takes files.
pub open spec fn completes<F: Fn(&str) -> Vec<(usize, String)>>(
    input: Seq<char>,
    filename: F,
    completions: Seq<(usize, Seq<char>)>,
) -> bool {
    if !input.contains(' ') {
        completions == name_completions(input, typed::TYPABLE_COMMAND_LIST@.len() as int)
    } else if argument_completer(input) is Some {
        filenames_complete(input, filename, completions)
    } else {
        completions.len() == 0
    }
}

/// Whether `completions` are those that `filename` gives for the last part of
/// the input, placed in the whole of it.
pub open spec fn filenames_complete<F: Fn(&str) -> Vec<(usize, String)>>(
    input: Seq<char>,
    filename: F,
    completions: Seq<(usize, Seq<char>)>,
) -> bool {
    exists|part: &str, found: Vec<(usize, String)>|
        {
            &&& part@ == strings::after_space(input)
            &&& #[trigger] call_ensures(filename, (part,), found)
            &&& completions == placed(input, completion_views(found@))
        }
}

/// Whether completions can be asked for: `filename` can be asked, and what it
/// says can be placed in the input.
pub open spec fn can_complete<F: Fn(&str) -> Vec<(usize, String)>>(
    input: Seq<char>,
    filename: F,
) -> bool {
    &&& forall|part: &str| #[trigger] call_requires(filename, (part,))
    &&& forall|part: &str, found: Vec<(usize, String)>, i: int|
        #[trigger] call_ensures(filename, (part,), found) && 0 <= i < found@.len() ==> (
        #[trigger] found@[i]).0 + argument_offset(input) <= usize::MAX
}

fn complete_name(input: &str) -> (completions: Vec<(usize, String)>)
    ensures
        completion_views(completions@) == name_completions(
            input@,
            typed::TYPABLE_COMMAND_LIST@.len() as int,
        ),
{
    let mut completions: Vec<(usize, String)> = Vec::new();
    let mut i: usize = 0;
    assert(completion_views(completions@) =~= name_completions(input@, 0));
    while i < typed::TYPABLE_COMMAND_LIST.len()
        invariant
            i <= typed::TYPABLE_COMMAND_LIST@.len(),
            completion_views(completions@) == name_completions(input@, i as int),
        decreases typed::TYPABLE_COMMAND_LIST@.len() - i,
    {
        let name = typed::TYPABLE_COMMAND_LIST[i].command().name;
        if strings::contains(name, input) {
            let ghost before = completion_views(completions@);
            completions.push((0, name.to_owned()));
            assert(completion_views(completions@) =~= before.push((0usize, name@)));
        }
        i += 1;
    }
    completions
}

/// The completions of what was typed at the prompt.
pub fn complete<F: Fn(&str) -> Vec<(usize, String)>>(
    input: &str,
    filename: F,
) -> (completions: Vec<(usize, String)>)
    requires
        can_complete(input@, filename),
    ensures
        completes(input@, filename, completion_views(completions@)),
{
    // simple heuristic: if there's just one part, complete command name.
    // if there's a space, per command completion kicks in.
    if !strings::contains_char(input, ' ') {
        return complete_name(input);
    }
    let completer = match typed::get(strings::first_part(input)) {
        Some(typed) => typed.command().completer,
        None => None,
    };
    if completer.is_none() {
        return Vec::new();
    }
    let part = strings::last_part(input);
    proof {
        let n = input@.len() - part@.len();
        assert(input@ =~= input@.take(n) + part@);
        strings::lemma_bytes_concat(input@.take(n), part@);
    }
    let offset = strings::byte_len(input) - strings::byte_len(part);
    let found = filename(part);
    let ghost want = placed(input@, completion_views(found@));
    let mut completions: Vec<(usize, String)> = Vec::with_capacity(found.len());
    let mut i: usize = 0;
    while i < found.len()
        invariant
            can_complete(input@, filename),
            call_ensures(filename, (part,), found),
            part@ == strings::after_space(input@),
            offset == argument_offset(input@),
            want == placed(input@, completion_views(found@)),
            i <= found@.len(),
            completions@.len() == i,
            forall|j: int|
                0 <= j < i ==> ((#[trigger] completions@[j]).0, completions@[j].1@) == want[j],
        decreases found@.len() - i,
    {
        // offset ranges to input
        assert(found@[i as int].0 + argument_offset(input@) <= usize::MAX);
        let (start, file) = (found[i].0, found[i].1.clone());
        completions.push((start + offset, file));
        i += 1;
    }
    assert(completion_views(completions@) =~= want);
    assert(filenames_complete(input@, filename, completion_views(completions@)));
    completions
}

/// What is said of the command that stands before the first space, if there is
/// such a command.
pub fn command_doc(input: &str) -> (doc: Option<&'static str>)
    ensures
        match typed::command_called(strings::before_space(input@)) {
            Some(typed) => doc matches Some(doc) && doc@ == typed.documented(),
            None => doc is None,
        },
{
    match typed::get(strings::first_part(input)) {
        Some(typed) => Some(typed.command().doc),
        None => None,
    }
}

/// Whether `post` is what the input makes of `pre`: nothing where it holds no
/// word, an error where the first word is no command, and otherwise what the
/// command makes of it, with the other words as arguments.
pub open spec fn obeys<
    R: Fn(&String) -> Result<String, String>,
    U: Fn(&String) -> Result<UndoKind, String>,
>(pre: Context, post: Context, input: Seq<char>, resolve: R, parse: U) -> bool {
    let words = strings::words(input);
    if words.len() == 0 {
        post == pre
    } else {
        match typed::command_called(words[0]) {
            Some(typed) => runs_on(pre, post, typed, words.skip(1), resolve, parse),
            None => reports(pre, post, "no such command: '"@ + words[0] + "'"@),
        }
    }
}

/// Whether `post` is what a typed command makes of `pre` with these words as
/// arguments.
pub open spec fn runs_on<
    R: Fn(&String) -> Result<String, String>,
    U: Fn(&String) -> Result<UndoKind, String>,
>(
    pre: Context,
    post: Context,
    typed: Typed,
    words: Seq<Seq<char>>,
    resolve: R,
    parse: U,
) -> bool {
    exists|args: Seq<String>| #[trigger]
        runs(pre, post, typed, args, resolve, parse) && strings::string_views(args) == words
}

/// Does what was typed at the prompt, once it is entered.
pub fn validate<
    R: Fn(&String) -> Result<String, String>,
    U: Fn(&String) -> Result<UndoKind, String>,
>(cx: &mut Context, input: &str, event: PromptEvent, resolve: &R, parse: &U)
    requires
        forall|path: String| #[trigger] call_requires(*resolve, (&path,)),
        forall|text: String| #[trigger] call_requires(*parse, (&text,)),
    ensures
        if event == PromptEvent::Validate {
            obeys(*old(cx), *final(cx), input@, *resolve, *parse)
        } else {
            *final(cx) == *old(cx)
        },
{
    if event != PromptEvent::Validate {
        return;
    }
    let parts = strings::split_whitespace(input);
    let ghost words = strings::string_views(parts@);
    if parts.len() == 0 {
        return;
    }
    assert(words[0] == parts@[0]@);
    match typed::get(parts[0].as_str()) {
        Some(typed) => {
            let mut args: Vec<String> = Vec::with_capacity(parts.len() - 1);
            let mut i: usize = 1;
            while i < parts.len()
                invariant
                    words == strings::string_views(parts@),
                    1 <= i <= words.len(),
                    args@.len() == i - 1,
                    forall|j: int| 0 <= j < i - 1 ==> (#[trigger] args@[j])@ == words[j + 1],
                decreases words.len() - i,
            {
                args.push(parts[i].clone());
                i += 1;
            }
            assert(strings::string_views(args@) =~= words.skip(1));
            run(cx, typed, &args, resolve, parse);
            assert(runs_on(*old(cx), *cx, typed, words.skip(1), *resolve, *parse));
        },
        None => {
            let mut error = "no such command: '".to_owned();
            error.append(parts[0].as_str());
            error.append("'");
            cx.editor.set_error(error);
        },
    }
}

} // verus!
