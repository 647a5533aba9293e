//! Commands that ask the language server, and what is done with its answers.

use crate::editor::{
    Action, Call, Context, Effect, EffectView, Layer, LayerView, Request, Severity,
};
use crate::goto;
use crate::lsp::{
    self, CompletionResponse, DocumentSymbolResponse, GotoDefinitionResponse, HoverContents,
    Location, LocationView, LspPosition, LspRange, OffsetEncoding, SymbolInformation,
    TextDocumentIdentifier,
};
use crate::selection::{Range, Selection, SelectionView};
use crate::strings;
use crate::view::{self, Align};
use ropey::Rope;
use vstd::prelude::*;

verus! {

/// What a question at the cursor is about.
#[derive(Clone, Copy, Debug, PartialEq, Eq, Structural)]
pub enum Topic {
    Definition,
    TypeDefinition,
    Implementation,
    References,
    SignatureHelp,
    Hover,
    Completion,
}

impl Topic {
    /// The question about a place, asked with the cursor at `cursor`.
    pub open spec fn request(self, position: LspPosition, cursor: usize) -> Request {
        match self {
            Topic::Definition => Request::Definition(position),
            Topic::TypeDefinition => Request::TypeDefinition(position),
            Topic::Implementation => Request::Implementation(position),
            Topic::References => Request::References(position),
            Topic::SignatureHelp => Request::SignatureHelp(position),
            Topic::Hover => Request::Hover(position),
            Topic::Completion => Request::Completion(position, cursor),
        }
    }
}

/// Whether `post` is `pre` with the question put to the language server: about
/// the cursor, at the place that `pos_to_lsp_pos` makes of it. Without a server
/// nothing changes.
pub open spec fn asked<P: Fn(&Rope, usize, OffsetEncoding) -> LspPosition>(
    pre: Context,
    post: Context,
    topic: Topic,
    pos_to_lsp_pos: P,
) -> bool {
    match pre.editor.doc.language_server {
        None => post == pre,
        Some(server) => {
            &&& post == (Context { callbacks: post.callbacks, ..pre })
            &&& exists|position: LspPosition|
                #![trigger topic.request(position, pre.cursor())]
                {
                    &&& call_ensures(
                        pos_to_lsp_pos,
                        (&pre.editor.doc.text, pre.cursor(), server.offset_encoding),
                        position,
                    )
                    &&& post.callbacks@ == pre.callbacks@.push(
                        Call {
                            request: topic.request(position, pre.cursor()),
                            document: pre.editor.doc.id,
                            offset_encoding: server.offset_encoding,
                        },
                    )
                }
        },
    }
}

/// Whether `pos_to_lsp_pos` can be asked about the cursor.
pub open spec fn can_ask<P: Fn(&Rope, usize, OffsetEncoding) -> LspPosition>(
    cx: Context,
    pos_to_lsp_pos: P,
) -> bool {
    cx.editor.doc.language_server matches Some(server) ==> call_requires(
        pos_to_lsp_pos,
        (&cx.editor.doc.text, cx.cursor(), server.offset_encoding),
    )
}

/// Puts a question about the cursor to the language server.
pub(crate) fn ask<P: Fn(&Rope, usize, OffsetEncoding) -> LspPosition>(
    cx: &mut Context,
    topic: Topic,
    pos_to_lsp_pos: &P,
)
    requires
        old(cx).wf(),
        can_ask(*old(cx), *pos_to_lsp_pos),
    ensures
        asked(*old(cx), *final(cx), topic, *pos_to_lsp_pos),
{
    let offset_encoding = match &cx.editor.doc.language_server {
        Some(language_server) => language_server.offset_encoding,
        None => return,
    };
    let cursor = cx.editor.doc.selection.cursor();
    let position = pos_to_lsp_pos(&cx.editor.doc.text, cursor, offset_encoding);
    let request = match topic {
        Topic::Definition => Request::Definition(position),
        Topic::TypeDefinition => Request::TypeDefinition(position),
        Topic::Implementation => Request::Implementation(position),
        Topic::References => Request::References(position),
        Topic::SignatureHelp => Request::SignatureHelp(position),
        Topic::Hover => Request::Hover(position),
        Topic::Completion => Request::Completion(position, cursor),
    };
    assert(request == topic.request(position, cursor));
    let document = cx.editor.doc.id;
    cx.callback(Call { request, document, offset_encoding });
}

/// Asks where what is under the cursor is defined.
pub fn goto_definition<P: Fn(&Rope, usize, OffsetEncoding) -> LspPosition>(
    cx: &mut Context,
    pos_to_lsp_pos: P,
)
    requires
        old(cx).wf(),
        can_ask(*old(cx), pos_to_lsp_pos),
    ensures
        asked(*old(cx), *final(cx), Topic::Definition, pos_to_lsp_pos),
{
    ask(cx, Topic::Definition, &pos_to_lsp_pos);
}

/// Asks where the type of what is under the cursor is defined.
pub fn goto_type_definition<P: Fn(&Rope, usize, OffsetEncoding) -> LspPosition>(
    cx: &mut Context,
    pos_to_lsp_pos: P,
)
    requires
        old(cx).wf(),
        can_ask(*old(cx), pos_to_lsp_pos),
    ensures
        asked(*old(cx), *final(cx), Topic::TypeDefinition, pos_to_lsp_pos),
{
    ask(cx, Topic::TypeDefinition, &pos_to_lsp_pos);
}

/// Asks where what is under the cursor is implemented.
pub fn goto_implementation<P: Fn(&Rope, usize, OffsetEncoding) -> LspPosition>(
    cx: &mut Context,
    pos_to_lsp_pos: P,
)
    requires
        old(cx).wf(),
        can_ask(*old(cx), pos_to_lsp_pos),
    ensures
        asked(*old(cx), *final(cx), Topic::Implementation, pos_to_lsp_pos),
{
    ask(cx, Topic::Implementation, &pos_to_lsp_pos);
}

/// Asks where what is under the cursor is referred to.
pub fn goto_reference<P: Fn(&Rope, usize, OffsetEncoding) -> LspPosition>(
    cx: &mut Context,
    pos_to_lsp_pos: P,
)
    requires
        old(cx).wf(),
        can_ask(*old(cx), pos_to_lsp_pos),
    ensures
        asked(*old(cx), *final(cx), Topic::References, pos_to_lsp_pos),
{
    ask(cx, Topic::References, &pos_to_lsp_pos);
}

/// Asks for the signature of the call around the cursor.
pub fn signature_help<P: Fn(&Rope, usize, OffsetEncoding) -> LspPosition>(
    cx: &mut Context,
    pos_to_lsp_pos: P,
)
    requires
        old(cx).wf(),
        can_ask(*old(cx), pos_to_lsp_pos),
    ensures
        asked(*old(cx), *final(cx), Topic::SignatureHelp, pos_to_lsp_pos),
{
    ask(cx, Topic::SignatureHelp, &pos_to_lsp_pos);
}

/// Asks how what stands before the cursor may go on.
pub fn completion<P: Fn(&Rope, usize, OffsetEncoding) -> LspPosition>(
    cx: &mut Context,
    pos_to_lsp_pos: P,
)
    requires
        old(cx).wf(),
        can_ask(*old(cx), pos_to_lsp_pos),
    ensures
        asked(*old(cx), *final(cx), Topic::Completion, pos_to_lsp_pos),
{
    ask(cx, Topic::Completion, &pos_to_lsp_pos);
}

/// Asks what there is to know of what is under the cursor.
pub fn hover<P: Fn(&Rope, usize, OffsetEncoding) -> LspPosition>(
    cx: &mut Context,
    pos_to_lsp_pos: P,
)
    requires
        old(cx).wf(),
        can_ask(*old(cx), pos_to_lsp_pos),
    ensures
        asked(*old(cx), *final(cx), Topic::Hover, pos_to_lsp_pos),
{
    ask(cx, Topic::Hover, &pos_to_lsp_pos);
}

/// Whether `post` is `pre` with the question for the symbols of the document put
/// to the language server. Without a server nothing changes.
pub open spec fn asked_for_symbols(pre: Context, post: Context) -> bool {
    match pre.editor.doc.language_server {
        None => post == pre,
        Some(server) => {
            &&& post == (Context { callbacks: post.callbacks, ..pre })
            &&& post.callbacks@ == pre.callbacks@.push(
                Call {
                    request: Request::DocumentSymbols,
                    document: pre.editor.doc.id,
                    offset_encoding: server.offset_encoding,
                },
            )
        },
    }
}

/// Asks for the symbols of the document.
pub fn symbol_picker(cx: &mut Context)
    ensures
        asked_for_symbols(*old(cx), *final(cx)),
{
    let offset_encoding = match &cx.editor.doc.language_server {
        Some(language_server) => language_server.offset_encoding,
        None => return,
    };
    let document = cx.editor.doc.id;
    cx.callback(Call { request: Request::DocumentSymbols, document, offset_encoding });
}

/// What going to a location asks for: to open its file, and to go to where it
/// starts there.
pub open spec fn jump_effects(
    location: LocationView,
    offset_encoding: OffsetEncoding,
    action: Action,
) -> Seq<EffectView> {
    seq![
        EffectView::Open(location.uri.path, action),
        EffectView::JumpTo(location.range.start, offset_encoding),
    ]
}

/// Goes to a location.
pub fn jump_to(
    cx: &mut Context,
    location: &Location,
    offset_encoding: OffsetEncoding,
    action: Action,
)
    ensures
        final(cx).asks(*old(cx), jump_effects(location@, offset_encoding, action)),
{
    cx.editor.ask(Effect::Open(location.uri.path().to_owned(), action));
    cx.editor.ask(Effect::JumpTo(location.range.start, offset_encoding));
    assert(cx.editor.pending() =~= old(cx).editor.pending() + jump_effects(
        location@,
        offset_encoding,
        action,
    ));
}

/// Whether `post` is what coming to a place of a document that was just opened
/// makes of `pre`: the cursor there, in the middle of the view, or nothing where
/// the place is not in the text.
pub open spec fn arrived<F: Fn(&Rope, LspPosition, OffsetEncoding) -> Option<usize>>(
    pre: Context,
    post: Context,
    position: LspPosition,
    offset_encoding: OffsetEncoding,
    lsp_pos_to_pos: F,
) -> bool {
    exists|pos: Option<usize>|
        {
            &&& #[trigger] call_ensures(
                lsp_pos_to_pos,
                (&pre.editor.doc.text, position, offset_encoding),
                pos,
            )
            &&& match pos {
                Some(pos) => goto::centers(pre, post, SelectionView::point(pos)),
                None => post == pre,
            }
        }
}

/// Comes to a place of the document that was just opened.
pub fn jump_to_position<F: Fn(&Rope, LspPosition, OffsetEncoding) -> Option<usize>>(
    cx: &mut Context,
    position: LspPosition,
    offset_encoding: OffsetEncoding,
    lsp_pos_to_pos: F,
)
    requires
        old(cx).wf(),
        call_requires(lsp_pos_to_pos, (&old(cx).editor.doc.text, position, offset_encoding)),
        forall|pos: usize|
            call_ensures(
                lsp_pos_to_pos,
                (&old(cx).editor.doc.text, position, offset_encoding),
                Some(pos),
            ) ==> pos <= old(cx).text().len(),
    ensures
        arrived(*old(cx), *final(cx), position, offset_encoding, lsp_pos_to_pos),
{
    match lsp_pos_to_pos(&cx.editor.doc.text, position, offset_encoding) {
        Some(pos) => goto::arrive(cx, Selection::point(pos)),
        None => {},
    }
}

/// Whether `post` is what going to one of some locations makes of `pre`. Where
/// the cursor was is remembered. A single location is gone to; several are put
/// up for choice; where there is none, the message line says so.
pub open spec fn went(
    pre: Context,
    post: Context,
    locations: Seq<LocationView>,
    offset_encoding: OffsetEncoding,
) -> bool {
    let jump = seq![EffectView::PushJump(pre.editor.doc.id, pre.selection())];
    if locations.len() == 1 {
        post.asks(pre, jump + jump_effects(locations[0], offset_encoding, Action::Replace))
    } else if locations.len() == 0 {
        &&& post.asks(pre.saying(post.editor.status_msg), jump)
        &&& post.editor.message() == Some(("No definition found."@, Severity::Error))
    } else {
        &&& post.asks(pre.with_layer(post.callback), jump)
        &&& post.layer() == Some(LayerView::LocationPicker(locations, offset_encoding))
    }
}

/// Goes to one of some locations.
pub fn goto_impl(cx: &mut Context, locations: Vec<Location>, offset_encoding: OffsetEncoding)
    ensures
        went(*old(cx), *final(cx), lsp::location_views(locations@), offset_encoding),
{
    let ghost views = lsp::location_views(locations@);
    goto::push_jump(cx);
    if locations.len() == 1 {
        assert(views[0] == locations@[0]@);
        jump_to(cx, &locations[0], offset_encoding, Action::Replace);
        assert(cx.editor.pending() =~= old(cx).editor.pending() + (seq![
            EffectView::PushJump(old(cx).editor.doc.id, old(cx).selection()),
        ] + jump_effects(views[0], offset_encoding, Action::Replace)));
    } else if locations.len() == 0 {
        cx.editor.set_error("No definition found.".to_owned());
    } else {
        cx.push_layer(Layer::LocationPicker(locations, offset_encoding));
    }
}

/// Goes to one of the locations that answer a question for a definition, a
/// type's definition or an implementation.
pub fn goto_response(
    cx: &mut Context,
    response: Option<GotoDefinitionResponse>,
    offset_encoding: OffsetEncoding,
)
    ensures
        went(*old(cx), *final(cx), lsp::response_locations(response), offset_encoding),
{
    let items = lsp::goto_locations(response);
    goto_impl(cx, items, offset_encoding);
}

/// Goes to one of the locations that answer a question for references.
pub fn reference_response(
    cx: &mut Context,
    items: Option<Vec<Location>>,
    offset_encoding: OffsetEncoding,
)
    ensures
        went(
            *old(cx),
            *final(cx),
            match items {
                Some(items) => lsp::location_views(items@),
                None => Seq::empty(),
            },
            offset_encoding,
        ),
{
    match items {
        Some(items) => goto_impl(cx, items, offset_encoding),
        None => {
            let items: Vec<Location> = Vec::new();
            assert(lsp::location_views(items@) =~= Seq::empty());
            goto_impl(cx, items, offset_encoding);
        },
    }
}

/// How a location is listed: its file, a colon and its line.
pub fn location_label(location: &Location) -> (label: String)
    ensures
        label@ == location@.uri.address.push(':') + strings::decimal(location@.range.start.line as nat),
{
    let mut label = location.uri.as_str().to_owned();
    label.push(':');
    strings::push_decimal(&mut label, location.range.start.line as usize);
    label
}

/// The items of an answer to a question for completion; none where there is
/// nothing to offer.
pub fn completion_items<T>(response: Option<CompletionResponse<T>>) -> (items: Option<Vec<T>>)
    ensures
        match response {
            Some(CompletionResponse::Array(offered)) => items == if offered@.len() > 0 {
                Some(offered)
            } else {
                None
            },
            Some(CompletionResponse::List { items: offered, .. }) => items == if offered@.len() > 0 {
                Some(offered)
            } else {
                None
            },
            None => items is None,
        },
{
    let items = match response {
        Some(CompletionResponse::Array(items)) => items,
        Some(CompletionResponse::List { is_incomplete: _, items }) => items,
        None => return None,
    };
    if items.len() == 0 {
        return None;
    }
    Some(items)
}

/// Shows the answer to a question for what there is to know: text with markup
/// in a popup. Other forms of an answer are not shown.
pub fn hover_response(cx: &mut Context, response: Option<HoverContents>)
    ensures
        match response {
            Some(HoverContents::Markup(value)) => *final(cx) == old(cx).with_layer(
                Some(Layer::Popup(value)),
            ),
            _ => *final(cx) == *old(cx),
        },
{
    match response {
        Some(HoverContents::Markup(value)) => cx.push_layer(Layer::Popup(value)),
        Some(HoverContents::Scalar) => {},
        Some(HoverContents::Array) => {},
        None => {},
    }
}

/// Puts the symbols of the document in `file` up for choice. Without an answer
/// nothing changes.
pub fn symbols_response(
    cx: &mut Context,
    file: &TextDocumentIdentifier,
    response: Option<DocumentSymbolResponse>,
    offset_encoding: OffsetEncoding,
)
    ensures
        match response {
            Some(response) => {
                &&& *final(cx) == old(cx).with_layer(final(cx).callback)
                &&& final(cx).layer() == Some(
                    LayerView::SymbolPicker(lsp::response_symbols(*file, response), offset_encoding),
                )
            },
            None => *final(cx) == *old(cx),
        },
{
    match response {
        Some(response) => {
            let symbols = lsp::flat_symbols(file, response);
            cx.push_layer(Layer::SymbolPicker(symbols, offset_encoding));
        },
        None => {},
    }
}

/// How a symbol is listed: by its name.
pub fn symbol_label(symbol: &SymbolInformation) -> (label: String)
    ensures
        label@ == symbol@.name,
{
    symbol.name.clone()
}

/// Whether `post` is what choosing a symbol makes of `pre`. Where the cursor was
/// is remembered. Then the symbol is selected, with the cursor at its start and
/// in the middle of the view, where it is in the text.
pub open spec fn picked<F: Fn(&Rope, LspRange, OffsetEncoding) -> Option<Range>>(
    pre: Context,
    post: Context,
    range: LspRange,
    offset_encoding: OffsetEncoding,
    lsp_range_to_range: F,
) -> bool {
    exists|found: Option<Range>|
        {
            &&& #[trigger] call_ensures(
                lsp_range_to_range,
                (&pre.editor.doc.text, range, offset_encoding),
                found,
            )
            &&& match found {
                Some(found) => post.asks(
                    pre.showing(
                        view::aligned(
                            pre.text(),
                            found.low() as int,
                            pre.editor.view.height,
                            Align::Center,
                        ) as usize,
                    ),
                    seq![
                        EffectView::PushJump(pre.editor.doc.id, pre.selection()),
                        EffectView::SetSelection(SelectionView::single(found.high(), found.low())),
                    ],
                ),
                None => post.asks(
                    pre,
                    seq![EffectView::PushJump(pre.editor.doc.id, pre.selection())],
                ),
            }
        }
}

/// Goes to a symbol that was chosen.
pub fn pick_symbol<F: Fn(&Rope, LspRange, OffsetEncoding) -> Option<Range>>(
    cx: &mut Context,
    symbol: &SymbolInformation,
    offset_encoding: OffsetEncoding,
    lsp_range_to_range: F,
)
    requires
        old(cx).wf(),
        call_requires(
            lsp_range_to_range,
            (&old(cx).editor.doc.text, symbol.location.range, offset_encoding),
        ),
        forall|found: Range|
            call_ensures(
                lsp_range_to_range,
                (&old(cx).editor.doc.text, symbol.location.range, offset_encoding),
                Some(found),
            ) ==> found.within(old(cx).text().len() as int),
    ensures
        picked(
            *old(cx),
            *final(cx),
            symbol@.location.range,
            offset_encoding,
            lsp_range_to_range,
        ),
{
    goto::push_jump(cx);
    match lsp_range_to_range(&cx.editor.doc.text, symbol.location.range, offset_encoding) {
        Some(found) => {
            assert(found.within(cx.text().len() as int));
            goto::arrive(cx, Selection::single(found.to(), found.from()));
            assert(cx.editor.pending() =~= old(cx).editor.pending() + seq![
                EffectView::PushJump(old(cx).editor.doc.id, old(cx).selection()),
                EffectView::SetSelection(SelectionView::single(found.high(), found.low())),
            ]);
        },
        None => {},
    }
}

} // verus!
