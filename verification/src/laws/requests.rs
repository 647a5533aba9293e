//! What commands ask the editor and the language server for.

use crate::change::Transaction;
use crate::command::Command;
use crate::editor::{
    Action, Buffer, Call, Context, Direction, EffectView, Key, Layer, LayerView, Mode, Movement,
    NextKey, Position, RegexPrompt, Request, Severity, Window,
};
use crate::execute::Outside;
use crate::goto;
use crate::insert;
use crate::language::{self, Topic};
use crate::laws::motions::{self, all_put_at_nonblanks, asked, at_line_start, before_line_end};
use crate::laws::remade::{self, added};
use crate::laws::views::{self, centered_on};
use crate::lsp::{
    self, DocumentSymbol, GotoDefinitionResponse, LocationView, LspPosition, LspRange,
    OffsetEncoding, TextDocumentIdentifier,
};
use crate::movement;
use crate::search;
use crate::selection::{Range, Selection, SelectionView};
use crate::strings;
use crate::text;
use crate::window;
use ropey::Rope;
use vstd::prelude::*;

verus! {

/// Whether the language server has been asked something about the cursor, and
/// nothing else has changed. Without a server nothing has.
pub open spec fn put_to_server<P: Fn(&Rope, usize, OffsetEncoding) -> LspPosition>(
    pre: Context,
    post: Context,
    pos_to_lsp_pos: P,
    request: spec_fn(LspPosition) -> Request,
) -> bool {
    match pre.editor.doc.language_server {
        None => post == pre,
        Some(server) => {
            let calls = post.callbacks@;
            let cursor = pre.selection().primary().head;
            &&& post == (Context { callbacks: post.callbacks, ..pre })
            &&& calls.len() == pre.callbacks@.len() + 1
            &&& calls.drop_last() == pre.callbacks@
            &&& calls.last().document == pre.editor.doc.id
            &&& calls.last().offset_encoding == server.offset_encoding
            &&& exists|place: LspPosition| #[trigger]
                call_ensures(
                    pos_to_lsp_pos,
                    (&pre.editor.doc.text, cursor, server.offset_encoding),
                    place,
                ) && calls.last().request == request(place)
        },
    }
}

/// A question to the language server is about the place of the cursor, and each
/// topic has a question of its own.
pub proof fn questions_are_about_the_cursor<P: Fn(&Rope, usize, OffsetEncoding) -> LspPosition>(
    pre: Context,
    post: Context,
    topic: Topic,
    pos_to_lsp_pos: P,
)
    requires
        language::asked(pre, post, topic, pos_to_lsp_pos),
    ensures
        put_to_server(
            pre,
            post,
            pos_to_lsp_pos,
            |place: LspPosition|
                match topic {
                    Topic::Definition => Request::Definition(place),
                    Topic::TypeDefinition => Request::TypeDefinition(place),
                    Topic::Implementation => Request::Implementation(place),
                    Topic::References => Request::References(place),
                    Topic::SignatureHelp => Request::SignatureHelp(place),
                    Topic::Hover => Request::Hover(place),
                    Topic::Completion => Request::Completion(
                        place,
                        pre.selection().primary().head,
                    ),
                },
        ),
{
    if let Some(server) = pre.editor.doc.language_server {
        let place = choose|place: LspPosition|
            #![trigger topic.request(place, pre.cursor())]
            {
                &&& call_ensures(
                    pos_to_lsp_pos,
                    (&pre.editor.doc.text, pre.cursor(), server.offset_encoding),
                    place,
                )
                &&& post.callbacks@ == pre.callbacks@.push(
                    Call {
                        request: topic.request(place, pre.cursor()),
                        document: pre.editor.doc.id,
                        offset_encoding: server.offset_encoding,
                    },
                )
            };
        assert(post.callbacks@.drop_last() =~= pre.callbacks@);
        assert(call_ensures(
            pos_to_lsp_pos,
            (&pre.editor.doc.text, pre.selection().primary().head, server.offset_encoding),
            place,
        ));
    }
}

/// Whether a character stands anywhere in some strings.
pub open spec fn stands_in(list: Seq<String>, ch: char) -> bool {
    exists|i: int, k: int|
        0 <= i < list.len() && 0 <= k < list[i]@.len() && #[trigger] list[i]@[k] == ch
}

/// A character calls for completion, or for the signature of a call, where one of
/// the strings that the server names for that holds it, and not without a server.
pub proof fn triggers_are_what_the_server_names(cx: Context, ch: char)
    ensures
        insert::calls_completion(cx, ch) <==> {
            &&& cx.editor.doc.language_server is Some
            &&& cx.editor.doc.language_server->0.completion_triggers is Some
            &&& stands_in(cx.editor.doc.language_server->0.completion_triggers->0@, ch)
        },
        insert::calls_signature_help(cx, ch) <==> {
            &&& cx.editor.doc.language_server is Some
            &&& cx.editor.doc.language_server->0.signature_help_triggers is Some
            &&& stands_in(cx.editor.doc.language_server->0.signature_help_triggers->0@, ch)
        },
{
    if let Some(server) = cx.editor.doc.language_server {
        lemma_triggers(server.completion_triggers, ch);
        lemma_triggers(server.signature_help_triggers, ch);
    }
}

proof fn lemma_triggers(strings: Option<Vec<String>>, ch: char)
    ensures
        insert::triggers(strings, ch) <==> strings is Some && stands_in(strings->0@, ch),
{
    if let Some(list) = strings {
        let views = strings::string_views(list@);
        if insert::triggers(strings, ch) {
            let i = choose|i: int| 0 <= i < views.len() && (#[trigger] views[i]).contains(ch);
            let k = choose|k: int| 0 <= k < views[i].len() && views[i][k] == ch;
            assert(list@[i]@[k] == ch);
        }
        assert forall|i: int, k: int|
            0 <= i < list@.len() && 0 <= k < list@[i]@.len() && #[trigger] list@[i]@[k]
                == ch implies insert::triggers(strings, ch) by {
            assert(views[i] == list@[i]@);
            assert(views[i].contains(ch));
        }
    }
}

/// Going to one of some locations remembers where the cursor was. The only location
/// is opened and gone to, several are put up for choice, and that there is none is
/// reported.
pub proof fn only_locations_are_gone_to(
    pre: Context,
    post: Context,
    locations: Seq<LocationView>,
    offset_encoding: OffsetEncoding,
)
    requires
        language::went(pre, post, locations, offset_encoding),
    ensures
        added(pre, post).len() > 0,
        added(pre, post)[0] == EffectView::PushJump(pre.editor.doc.id, pre.selection()),
        locations.len() == 1 ==> added(pre, post) == seq![
            EffectView::PushJump(pre.editor.doc.id, pre.selection()),
            EffectView::Open(locations[0].uri.path, Action::Replace),
            EffectView::JumpTo(locations[0].range.start, offset_encoding),
        ],
        locations.len() != 1 ==> added(pre, post).len() == 1,
        locations.len() == 0 ==> {
            &&& post.editor.message() matches Some(message)
            &&& message.1 == Severity::Error
        },
        locations.len() > 1 ==> post.layer() == Some(
            LayerView::LocationPicker(locations, offset_encoding),
        ),
{
    let jump = seq![EffectView::PushJump(pre.editor.doc.id, pre.selection())];
    if locations.len() == 1 {
        remade::lemma_added(
            pre,
            post,
            jump + language::jump_effects(locations[0], offset_encoding, Action::Replace),
        );
    } else {
        remade::lemma_added(pre, post, jump);
    }
}

/// An answer names a location itself, every location of a list, or the target of
/// every link, in their order.
pub proof fn answers_name_locations(response: GotoDefinitionResponse, i: int)
    requires
        match response {
            GotoDefinitionResponse::Scalar(_) => i == 0,
            GotoDefinitionResponse::Array(locations) => 0 <= i < locations@.len(),
            GotoDefinitionResponse::Link(links) => 0 <= i < links@.len(),
        },
    ensures
        ({
            let found = lsp::response_locations(Some(response));
            match response {
                GotoDefinitionResponse::Scalar(location) => found.len() == 1 && found[0]
                    == location@,
                GotoDefinitionResponse::Array(locations) => found.len() == locations@.len()
                    && found[i] == locations@[i]@,
                GotoDefinitionResponse::Link(links) => {
                    &&& found.len() == links@.len()
                    &&& found[i].uri == links@[i].target_uri@
                    &&& found[i].range == links@[i].target_range
                },
            }
        }),
        lsp::response_locations(None).len() == 0,
{
}

/// A symbol is listed by its name, where its name stands, and what it holds comes
/// after it.
pub proof fn symbols_are_listed_before_what_they_hold(
    file: TextDocumentIdentifier,
    symbol: DocumentSymbol,
)
    ensures
        ({
            let list = lsp::flattened(file, symbol);
            &&& list.len() > 0
            &&& list[0].name == symbol.name@
            &&& list[0].kind == symbol.kind
            &&& list[0].deprecated == symbol.deprecated
            &&& list[0].location.uri == file.uri@
            &&& list[0].location.range == symbol.selection_range
            &&& list[0].container_name is None
            &&& symbol.children is None ==> list.len() == 1
            &&& symbol.children matches Some(children) ==> list.drop_first()
                == lsp::all_flattened(file, children@)
        }),
{
    let list = lsp::flattened(file, symbol);
    if let Some(children) = symbol.children {
        assert(list.drop_first() =~= lsp::all_flattened(file, children@));
    }
}

/// Lists of symbols are listed one after the other.
pub proof fn lists_of_symbols_follow_each_other(
    file: TextDocumentIdentifier,
    first: Seq<DocumentSymbol>,
    second: Seq<DocumentSymbol>,
)
    ensures
        lsp::all_flattened(file, first + second) == lsp::all_flattened(file, first)
            + lsp::all_flattened(file, second),
        first.len() == 1 ==> lsp::all_flattened(file, first) == lsp::flattened(file, first[0]),
    decreases second.len(),
{
    if first.len() == 1 {
        assert(lsp::all_flattened(file, first.drop_last()) =~= Seq::empty());
        assert(lsp::all_flattened(file, first) =~= lsp::flattened(file, first[0]));
    }
    if second.len() == 0 {
        assert(first + second =~= first);
        assert(lsp::all_flattened(file, second) =~= Seq::empty());
        assert(lsp::all_flattened(file, first) + lsp::all_flattened(file, second)
            =~= lsp::all_flattened(file, first));
    } else {
        lists_of_symbols_follow_each_other(file, first, second.drop_last());
        assert((first + second).drop_last() =~= first + second.drop_last());
        assert((first + second).last() == second.last());
        assert(lsp::all_flattened(file, first + second) =~= lsp::all_flattened(file, first)
            + lsp::all_flattened(file, second));
    }
}

/// A symbol that is chosen is selected with the cursor at its start, in the middle
/// of the view, and where the cursor was is remembered.
pub proof fn chosen_symbols_are_selected<F: Fn(&Rope, LspRange, OffsetEncoding) -> Option<Range>>(
    pre: Context,
    post: Context,
    range: LspRange,
    offset_encoding: OffsetEncoding,
    lsp_range_to_range: F,
)
    requires
        pre.wf(),
        language::picked(pre, post, range, offset_encoding, lsp_range_to_range),
        forall|found: Range|
            call_ensures(
                lsp_range_to_range,
                (&pre.editor.doc.text, range, offset_encoding),
                Some(found),
            ) ==> found.within(pre.text().len() as int),
    ensures
        exists|found: Option<Range>|
            {
                &&& #[trigger] call_ensures(
                    lsp_range_to_range,
                    (&pre.editor.doc.text, range, offset_encoding),
                    found,
                )
                &&& match found {
                    Some(found) => {
                        let new = asked(pre, post).ranges[0];
                        &&& added(pre, post) == seq![
                            EffectView::PushJump(pre.editor.doc.id, pre.selection()),
                            EffectView::SetSelection(asked(pre, post)),
                        ]
                        &&& asked(pre, post).ranges.len() == 1
                        &&& asked(pre, post).primary_index == 0
                        &&& new.head <= new.anchor
                        &&& new.head == found.anchor && new.anchor == found.head || new.head
                            == found.head && new.anchor == found.anchor
                        &&& centered_on(pre, post, new.head as int)
                    },
                    None => added(pre, post) == seq![
                        EffectView::PushJump(pre.editor.doc.id, pre.selection()),
                    ],
                }
            },
{
    let found = choose|found: Option<Range>|
        {
            &&& #[trigger] call_ensures(
                lsp_range_to_range,
                (&pre.editor.doc.text, range, offset_encoding),
                found,
            )
            &&& match found {
                Some(found) => post.asks(
                    pre.showing(
                        crate::view::aligned(
                            pre.text(),
                            found.low() as int,
                            pre.editor.view.height,
                            crate::view::Align::Center,
                        ) as usize,
                    ),
                    seq![
                        EffectView::PushJump(pre.editor.doc.id, pre.selection()),
                        EffectView::SetSelection(SelectionView::single(found.high(), found.low())),
                    ],
                ),
                None => post.asks(
                    pre,
                    seq![EffectView::PushJump(pre.editor.doc.id, pre.selection())],
                ),
            }
        };
    match found {
        Some(found) => {
            remade::lemma_added(
                pre,
                post,
                seq![
                    EffectView::PushJump(pre.editor.doc.id, pre.selection()),
                    EffectView::SetSelection(SelectionView::single(found.high(), found.low())),
                ],
            );
            assert(call_ensures(
                lsp_range_to_range,
                (&pre.editor.doc.text, range, offset_encoding),
                Some(found),
            ));
            assert(found.within(pre.text().len() as int));
            text::lemma_fits(pre.text());
            text::lemma_line_of_position(pre.text(), found.low() as int);
            views::aligned_lines_are_where_they_should_be(
                pre.text(),
                found.low() as int,
                pre.editor.view.height,
            );
        },
        None => {
            remade::lemma_added(
                pre,
                post,
                seq![EffectView::PushJump(pre.editor.doc.id, pre.selection())],
            );
        },
    }
}

/// Keys for windows go to the next view, split it either way, or close it, and no
/// other asks for anything.
pub proof fn window_keys_split_and_close(cx: Context, ch: char)
    ensures
        ({
            let shown = EffectView::MatchView(cx.editor.view.first_line, cx.selection());
            window::window_effects(cx, Key::Char(ch)) == if ch == 'w' {
                seq![EffectView::FocusNext]
            } else if ch == 'h' {
                seq![EffectView::Switch(cx.editor.doc.id, Action::HorizontalSplit), shown]
            } else if ch == 'v' {
                seq![EffectView::Switch(cx.editor.doc.id, Action::VerticalSplit), shown]
            } else if ch == 'q' {
                seq![EffectView::Close(cx.editor.view.id, false)]
            } else {
                Seq::empty()
            }
        }),
{
}

/// Documents are put up with the path that they can be listed by, in their order.
/// The current one has a mark behind its path, and one without a path is listed as
/// a scratch buffer.
pub proof fn documents_are_listed_by_path(documents: Seq<Buffer>, i: int, current: usize)
    requires
        0 <= i < documents.len(),
    ensures
        ({
            let item = window::buffer_items(documents)[i];
            let doc = documents[i];
            let name = window::buffer_name(item.0, item.1, current);
            &&& window::buffer_items(documents).len() == documents.len()
            &&& item.0 == doc.id
            &&& doc.relative_path is Some && doc.relative_path->0.is_utf8 ==> {
                &&& item.1 == Some(doc.relative_path->0.lossy@)
                &&& doc.id != current ==> name == doc.relative_path->0.lossy@
                &&& doc.id == current ==> name == doc.relative_path->0.lossy@ + seq![
                    ' ',
                    '(',
                    '*',
                    ')',
                ]
            }
            &&& doc.relative_path is None || !doc.relative_path->0.is_utf8 ==> {
                &&& item.1 is None
                &&& name == "[scratch buffer]"@
            }
        }),
{
    reveal_strlit(" (*)");
    assert(" (*)"@ =~= seq![' ', '(', '*', ')']);
}

/// Whether the view is centered on the cursor of the selection that was asked for.
pub open spec fn selected_and_centered(pre: Context, post: Context) -> bool {
    let new = asked(pre, post);
    &&& added(pre, post) == seq![EffectView::SetSelection(new)]
    &&& centered_on(pre, post, new.ranges[new.primary_index].head as int)
}

proof fn lemma_centers(pre: Context, post: Context, selection: SelectionView)
    requires
        pre.wf(),
        goto::centers(pre, post, selection),
        selection.within(pre.text().len() as int),
    ensures
        asked(pre, post) == selection,
        selected_and_centered(pre, post),
{
    let pos = selection.primary().head as int;
    assert(selection.primary().within(pre.text().len() as int));
    remade::lemma_added(pre, post, seq![EffectView::SetSelection(selection)]);
    text::lemma_fits(pre.text());
    text::lemma_line_of_position(pre.text(), pos);
    views::aligned_lines_are_where_they_should_be(pre.text(), pos, pre.editor.view.height);
}

/// Where a search that wraps around comes to: the first match at or after the byte
/// behind the character under the cursor, or else the first of the text.
pub open spec fn comes_to(cx: Context, contents: Seq<char>, pattern: Seq<char>) -> Option<
    (usize, usize),
> {
    let cursor = cx.selection().primary().head as int;
    let from = if cursor < cx.text().len() {
        strings::bytes(cx.text().take(cursor + 1))
    } else {
        strings::bytes(cx.text())
    };
    if search::found(pattern, contents, from) is Some {
        search::found(pattern, contents, from)
    } else {
        search::found(pattern, contents, 0)
    }
}

/// A search goes on behind the cursor and starts over at the end of the text. The
/// match is selected, by itself or as one more range, and the view centered on it.
pub proof fn searches_go_on_behind_the_cursor<M: Fn(&Selection, Range) -> Selection>(
    pre: Context,
    post: Context,
    contents: Seq<char>,
    pattern: Seq<char>,
    extend: bool,
    push: M,
)
    requires
        pre.wf(),
        search::searches(pre, post, contents, pattern, extend, push),
        search::can_push(pre, push),
        comes_to(pre, contents, pattern) matches Some(mat) ==> mat.0 <= mat.1 <= strings::bytes(
            pre.text(),
        ),
    ensures
        match comes_to(pre, contents, pattern) {
            None => post == pre,
            Some(mat) => {
                let start = text::char_at_byte(pre.text(), mat.0 as int);
                let end = text::char_at_byte(pre.text(), mat.1 as int);
                if end == 0 {
                    post == pre
                } else {
                    &&& selected_and_centered(pre, post)
                    &&& !extend ==> asked(pre, post).ranges.len() == 1 && asked(
                        pre,
                        post,
                    ).ranges[0].anchor == start && asked(pre, post).ranges[0].head == end - 1
                    &&& extend ==> exists|selection: Selection|
                        {
                            &&& #[trigger] call_ensures(
                                push,
                                (
                                    &pre.editor.doc.selection,
                                    Range::between(start as usize, (end - 1) as usize),
                                ),
                                selection,
                            )
                            &&& asked(pre, post) == selection@
                        }
                }
            },
        },
{
    let s = pre.text();
    let cursor = pre.cursor() as int;
    assert(pre.selection().primary().within(s.len() as int));
    assert(cursor >= s.len() ==> s.take(s.len() as int) =~= s);
    if let Some(mat) = comes_to(pre, contents, pattern) {
        text::lemma_fits(s);
        text::lemma_char_at_byte(s, mat.0 as int, mat.1 as int);
        if let Some(range) = search::match_range(s, mat) {
            assert(range.within(s.len() as int));
            if extend {
                let selection = choose|selection: Selection| #[trigger]
                    call_ensures(push, (&pre.editor.doc.selection, range), selection)
                        && goto::centers(pre, post, selection@);
                assert(call_requires(push, (&pre.editor.doc.selection, range)));
                assert(selection@.within(s.len() as int));
                lemma_centers(pre, post, selection@);
            } else {
                lemma_centers(pre, post, SelectionView::single(range.anchor, range.head));
            }
        }
    }
}

/// Keys after `goto` go to the start and the end of the text, and to places on
/// the lines of the cursors, which extend the ranges in select mode.
pub proof fn goto_keys_go_to_places<
    P: Fn(&Rope, usize, OffsetEncoding) -> LspPosition,
    L: Fn(&Window, &Rope) -> usize,
>(pre: Context, post: Context, ch: char, pos_to_lsp_pos: P, last_line_of: L, i: int)
    requires
        pre.wf(),
        goto::goes(pre, post, ch, pos_to_lsp_pos, last_line_of),
        0 <= i < pre.selection().ranges.len(),
    ensures
        ({
            let s = pre.text();
            let range = pre.selection().ranges[i];
            let new = asked(pre, post).ranges[i];
            let mode = pre.editor.doc.mode;
            let lines = text::line_count(s);
            &&& ch == 'g' ==> views::jumped(pre, post, 0)
            &&& ch == 'e' ==> views::jumped(
                pre,
                post,
                text::line_start(
                    s,
                    if lines >= 2 {
                        lines - 2
                    } else {
                        0
                    },
                ),
            )
            &&& (ch == 'h' || ch == 'l') && mode == Mode::Insert ==> post == pre
            &&& (ch == 'h' || ch == 'l') && mode != Mode::Insert ==> {
                &&& added(pre, post) == seq![EffectView::SetSelection(asked(pre, post))]
                &&& ch == 'h' ==> at_line_start(s, range.head as int, new.head as int)
                &&& ch == 'l' ==> before_line_end(s, range.head as int, new.head as int)
                &&& mode == Mode::Normal ==> new.anchor == new.head
                &&& mode == Mode::Select ==> new.anchor == range.anchor
            }
            &&& ch == 's' && mode == Mode::Insert ==> post == pre
            &&& ch == 's' && mode != Mode::Insert ==> all_put_at_nonblanks(
                pre,
                post,
                mode == Mode::Select,
            )
            &&& goto::goto_topic(ch) == if ch == 'd' {
                Some(Topic::Definition)
            } else if ch == 'y' {
                Some(Topic::TypeDefinition)
            } else if ch == 'r' {
                Some(Topic::References)
            } else if ch == 'i' {
                Some(Topic::Implementation)
            } else {
                None
            }
        }),
{
    let s = pre.text();
    let range = pre.selection().ranges[i];
    text::lemma_fits(s);
    assert(range.within(s.len() as int));
    motions::lemma_line_start_right(s, range.head as int);
    motions::lemma_line_end_right(s, range.head as int);
    text::lemma_line_start(s, goto::last_text_line(s));
    if ch == 'g' || ch == 'e' {
        let pos = if ch == 'g' {
            0
        } else {
            text::line_start(s, goto::last_text_line(s))
        };
        remade::lemma_added(
            pre,
            post,
            seq![
                EffectView::PushJump(pre.editor.doc.id, pre.selection()),
                EffectView::SetSelection(SelectionView::point(pos as usize)),
            ],
        );
    } else if ch == 's' && pre.editor.doc.mode != Mode::Insert {
        let movement = if pre.editor.doc.mode == Mode::Normal {
            Movement::Move
        } else {
            Movement::Extend
        };
        motions::lemma_all_put_at_nonblanks(pre, pre, post, movement);
    } else if (ch == 'h' || ch == 'l') && pre.editor.doc.mode != Mode::Insert {
        let movement = if pre.editor.doc.mode == Mode::Normal {
            Movement::Move
        } else {
            Movement::Extend
        };
        let new = if ch == 'h' {
            movement::at_line_starts(pre, movement)
        } else {
            movement::at_line_ends(pre, movement)
        };
        remade::lemma_added(pre, post, seq![EffectView::SetSelection(new)]);
    }
}

/// Searching from the prompt keeps what was searched for, and searching again
/// searches for the same.
pub proof fn patterns_are_kept_for_searching_again<M: Fn(&Selection, Range) -> Selection>(
    pre: Context,
    post: Context,
    contents: Seq<char>,
    pattern: Seq<char>,
    push: M,
    searched: bool,
)
    requires
        search::searches_and_keeps(pre, post, contents, pattern, push, searched),
    ensures
        !searched ==> post == pre,
        searched ==> {
            &&& post.editor.registers@.contains_key('\\')
            &&& post.editor.registers@['\\'] == seq![pattern]
            &&& search::last_pattern(post) == Some(pattern)
            &&& forall|name: char|
                name != '\\' ==> (#[trigger] post.editor.registers@.contains_key(name)
                    == pre.editor.registers@.contains_key(name))
        },
        searched ==> exists|between: Context|
            {
                &&& #[trigger] search::searches(pre, between, contents, pattern, false, push)
                &&& post.editor.effects == between.editor.effects
                &&& post.editor.view == between.editor.view
            },
{
    if searched {
        let between = choose|between: Context|
            {
                &&& search::searches(pre, between, contents, pattern, false, push)
                &&& #[trigger] search::keeps_pattern(between, post, pattern)
            };
        assert(between.editor.registers == pre.editor.registers);
        assert(search::searches(pre, between, contents, pattern, false, push));
    }
}

/// Searching again does nothing where nothing was ever searched for.
pub proof fn nothing_is_searched_for_again_at_first<M: Fn(&Selection, Range) -> Selection>(
    pre: Context,
    post: Context,
    extend: bool,
    push: M,
    searched: bool,
)
    requires
        search::searches_again(pre, post, extend, push, searched),
    ensures
        !pre.editor.registers@.contains_key('\\') ==> post == pre,
        !searched ==> post == pre,
        searched && pre.editor.registers@.contains_key('\\') ==> search::searches(
            pre,
            post,
            pre.text(),
            pre.editor.registers@['\\'][0],
            extend,
            push,
        ),
{
}

/// Keys that go to a line in sight put the cursor where that line starts, and the
/// key for the last document shows that, or reports that there is none.
pub proof fn sight_keys_put_the_cursor<
    P: Fn(&Rope, usize, OffsetEncoding) -> LspPosition,
    L: Fn(&Window, &Rope) -> usize,
>(pre: Context, post: Context, ch: char, pos_to_lsp_pos: P, last_line_of: L)
    requires
        pre.wf(),
        goto::goes(pre, post, ch, pos_to_lsp_pos, last_line_of),
        goto::is_sight_key(ch) ==> goto::can_see(pre, ch, last_line_of),
    ensures
        ch == 't' || ch == 'm' || ch == 'b' ==> exists|last: usize|
            {
                &&& #[trigger] call_ensures(
                    last_line_of,
                    (&pre.editor.view, &pre.editor.doc.text),
                    last,
                )
                &&& added(pre, post) == seq![EffectView::SetSelection(asked(pre, post))]
                &&& asked(pre, post).ranges.len() == 1
                &&& asked(pre, post).ranges[0].head == text::line_start(
                    pre.text(),
                    goto::sight_line(pre.editor.view, last, ch),
                )
                &&& asked(pre, post).ranges[0].anchor == asked(pre, post).ranges[0].head
            },
        ch == 'a' ==> match pre.editor.view.last_accessed_doc {
            Some(doc) => added(pre, post) == seq![EffectView::Switch(doc, Action::Replace)],
            None => {
                &&& added(pre, post).len() == 0
                &&& post.editor.message() matches Some(message)
                &&& message.1 == Severity::Error
            },
        },
{
    if ch == 't' || ch == 'm' || ch == 'b' {
        let last = choose|last: usize| #[trigger]
            call_ensures(last_line_of, (&pre.editor.view, &pre.editor.doc.text), last)
                && post.selects(
                pre,
                SelectionView::point(
                    text::line_start(
                        pre.text(),
                        goto::sight_line(pre.editor.view, last, ch),
                    ) as usize,
                ),
            );
        let line = goto::sight_line(pre.editor.view, last, ch);
        text::lemma_fits(pre.text());
        text::lemma_line_start(pre.text(), line);
        remade::lemma_added(
            pre,
            post,
            seq![
                EffectView::SetSelection(
                    SelectionView::point(text::line_start(pre.text(), line) as usize),
                ),
            ],
        );
    } else if ch == 'a' {
        match pre.editor.view.last_accessed_doc {
            Some(doc) => {
                remade::lemma_added(pre, post, seq![EffectView::Switch(doc, Action::Replace)]);
            },
            None => {
                assert(post.editor.pending() =~= pre.editor.pending()
                    + Seq::<EffectView>::empty());
                remade::lemma_added(pre, post, Seq::empty());
            },
        }
    }
}

/// Keys after `space` put up files or documents, ask for symbols, wait for a key for
/// windows or keep the primary range alone; no other does anything.
pub proof fn space_keys_put_things_up(pre: Context, post: Context, ch: char, root: Option<String>)
    requires
        window::puts_up(pre, post, ch, root),
    ensures
        ch == 'f' ==> post.layer() == Some(
            LayerView::FilePicker(
                match root {
                    Some(root) => root@,
                    None => seq!['.', '/'],
                },
            ),
        ),
        ch == 'b' ==> {
            &&& post.layer() matches Some(LayerView::BufferPicker(items, current))
            &&& current == pre.editor.view.doc
            &&& items.len() == pre.editor.documents@.len()
            &&& forall|i: int|
                0 <= i < items.len() ==> (#[trigger] items[i]).0 == pre.editor.documents@[i].id
        },
        ch == 'f' || ch == 'b' ==> post == (Context { callback: post.callback, ..pre }),
        ch == 's' ==> asked_symbols(pre, post),
        ch == 'w' ==> post == (Context { on_next_key_callback: Some(NextKey::Window), ..pre }),
        ch == ' ' ==> {
            let primary = pre.selection().ranges[pre.selection().primary_index];
            &&& added(pre, post) == seq![EffectView::SetSelection(asked(pre, post))]
            &&& asked(pre, post).ranges.len() == 1 && asked(pre, post).primary_index == 0
            &&& asked(pre, post).ranges[0].anchor == primary.anchor
            &&& asked(pre, post).ranges[0].head == primary.head
        },
        ch != 'f' && ch != 'b' && ch != 's' && ch != 'w' && ch != ' ' ==> post == pre,
{
    reveal_strlit("./");
    assert("./"@ =~= seq!['.', '/']);
    if ch == ' ' {
        let primary = pre.selection().primary();
        remade::lemma_added(
            pre,
            post,
            seq![EffectView::SetSelection(SelectionView::single(primary.anchor, primary.head))],
        );
    }
}

/// Whether the language server has been asked for the symbols of the document, and
/// nothing else has changed. Without a server nothing has.
pub open spec fn asked_symbols(pre: Context, post: Context) -> bool {
    match pre.editor.doc.language_server {
        None => post == pre,
        Some(server) => {
            &&& post == (Context { callbacks: post.callbacks, ..pre })
            &&& post.callbacks@.len() == pre.callbacks@.len() + 1
            &&& post.callbacks@.last().request == Request::DocumentSymbols
            &&& post.callbacks@.last().document == pre.editor.doc.id
            &&& post.callbacks@.last().offset_encoding == server.offset_encoding
        },
    }
}

/// A place in a document that was opened is gone to where it is in the text, and the
/// view centered on it.
pub proof fn opened_places_are_centered<
    F: Fn(&Rope, LspPosition, OffsetEncoding) -> Option<usize>,
>(
    pre: Context,
    post: Context,
    position: LspPosition,
    offset_encoding: OffsetEncoding,
    lsp_pos_to_pos: F,
)
    requires
        pre.wf(),
        language::arrived(pre, post, position, offset_encoding, lsp_pos_to_pos),
        forall|pos: usize|
            call_ensures(
                lsp_pos_to_pos,
                (&pre.editor.doc.text, position, offset_encoding),
                Some(pos),
            ) ==> pos <= pre.text().len(),
    ensures
        exists|found: Option<usize>|
            {
                &&& #[trigger] call_ensures(
                    lsp_pos_to_pos,
                    (&pre.editor.doc.text, position, offset_encoding),
                    found,
                )
                &&& match found {
                    Some(pos) => {
                        &&& selected_and_centered(pre, post)
                        &&& asked(pre, post).ranges.len() == 1
                        &&& asked(pre, post).ranges[0].anchor == pos
                        &&& asked(pre, post).ranges[0].head == pos
                    },
                    None => post == pre,
                }
            },
{
    let found = choose|found: Option<usize>|
        {
            &&& #[trigger] call_ensures(
                lsp_pos_to_pos,
                (&pre.editor.doc.text, position, offset_encoding),
                found,
            )
            &&& match found {
                Some(pos) => goto::centers(pre, post, SelectionView::point(pos)),
                None => post == pre,
            }
        };
    if let Some(pos) = found {
        assert(call_ensures(
            lsp_pos_to_pos,
            (&pre.editor.doc.text, position, offset_encoding),
            Some(pos),
        ));
        lemma_centers(pre, post, SelectionView::point(pos));
    }
}

/// Typing asks for the edit that the hook gives where it gives one, and for what
/// follows the character after the edit.
pub proof fn hooks_come_before_typing<H: Fn(&Rope, &Selection, char) -> Option<Transaction>>(
    pre: Context,
    post: Context,
    ch: char,
    hook: H,
)
    requires
        insert::types(pre, post, ch, hook),
    ensures
        added(pre, post).len() == 2,
        added(pre, post)[0] is Apply,
        added(pre, post)[1] == EffectView::AfterInsert(ch),
        exists|hooked: Option<Transaction>|
            {
                &&& #[trigger] call_ensures(
                    hook,
                    (&pre.editor.doc.text, &pre.editor.doc.selection, ch),
                    hooked,
                )
                &&& hooked matches Some(edit) ==> added(pre, post)[0] == EffectView::Apply(edit@)
            },
{
    let hooked = choose|hooked: Option<Transaction>| #[trigger]
        insert::types_with(pre, post, ch, hook, hooked);
    remade::lemma_added(
        pre,
        post,
        seq![
            EffectView::Apply(
                insert::typed(
                    pre.selection().ranges,
                    ch,
                    crate::change::option_view(hooked),
                ),
            ),
            EffectView::AfterInsert(ch),
        ],
    );
}

impl<
    MH: Fn(&Rope, Range, Direction, usize, Movement) -> Range,
    MV: Fn(&Rope, Range, Direction, usize, Movement) -> Range,
    NW: Fn(&Rope, Range, usize) -> Range,
    PW: Fn(&Rope, Range, usize) -> Range,
    WE: Fn(&Rope, Range, usize) -> Range,
    NG: Fn(&Rope, usize) -> usize,
    PG: Fn(&Rope, usize) -> usize,
    NN: Fn(&Rope, usize, usize) -> usize,
    NP: Fn(&Rope, usize, usize) -> usize,
    CP: Fn(&Rope, usize) -> Position,
    PC: Fn(&Rope, Position) -> usize,
    LL: Fn(&Window, &Rope) -> usize,
    SM: Fn(&Rope, &Selection, &str) -> Selection,
    PU: Fn(&Selection, Range) -> Selection,
    FR: Fn(&Rope, Range) -> String,
    SI: Fn(&Rope, usize, bool) -> usize,
    TC: Fn(&Rope, &Selection) -> Transaction,
    ES: Fn(&Rope, &Selection) -> Selection,
    MB: Fn(&Rope, usize) -> Option<usize>,
    LP: Fn(&Rope, usize, OffsetEncoding) -> LspPosition,
> Outside<MH, MV, NW, PW, WE, NG, PG, NN, NP, CP, PC, LL, SM, PU, FR, SI, TC, ES, MB, LP> {
    /// Commands that only ask for something ask for that and change nothing.
    pub proof fn plain_commands_only_ask(self, command: Command, pre: Context, post: Context)
        requires
            self.runs(command, pre, post),
        ensures
            ({
                let shown = EffectView::MatchView(pre.editor.view.first_line, pre.selection());
                let times = match pre.count {
                    Some(count) => count,
                    None => 1usize,
                };
                let wanted = match command {
                    Command::undo => Some(seq![EffectView::Undo]),
                    Command::redo => Some(seq![EffectView::Redo]),
                    Command::save => Some(seq![EffectView::Save]),
                    Command::jump_forward => Some(seq![EffectView::JumpForward(times)]),
                    Command::jump_backward => Some(seq![EffectView::JumpBackward(times)]),
                    Command::rotate_view => Some(seq![EffectView::FocusNext]),
                    Command::hsplit => Some(
                        seq![
                            EffectView::Switch(pre.editor.doc.id, Action::HorizontalSplit),
                            shown,
                        ],
                    ),
                    Command::vsplit => Some(
                        seq![
                            EffectView::Switch(pre.editor.doc.id, Action::VerticalSplit),
                            shown,
                        ],
                    ),
                    Command::wclose => Some(seq![EffectView::Close(pre.editor.view.id, false)]),
                    _ => None,
                };
                wanted matches Some(wanted) ==> {
                    &&& added(pre, post) == wanted
                    &&& post == (Context { editor: post.editor, ..pre })
                    &&& post.editor == (crate::editor::Editor {
                        effects: post.editor.effects,
                        ..pre.editor
                    })
                }
            }),
    {
        let shown = EffectView::MatchView(pre.editor.view.first_line, pre.selection());
        match command {
            Command::undo => remade::lemma_added(pre, post, seq![EffectView::Undo]),
            Command::redo => remade::lemma_added(pre, post, seq![EffectView::Redo]),
            Command::save => remade::lemma_added(pre, post, seq![EffectView::Save]),
            Command::jump_forward => remade::lemma_added(
                pre,
                post,
                seq![EffectView::JumpForward(pre.times())],
            ),
            Command::jump_backward => remade::lemma_added(
                pre,
                post,
                seq![EffectView::JumpBackward(pre.times())],
            ),
            Command::rotate_view => remade::lemma_added(pre, post, seq![EffectView::FocusNext]),
            Command::hsplit => remade::lemma_added(
                pre,
                post,
                seq![EffectView::Switch(pre.editor.doc.id, Action::HorizontalSplit), shown],
            ),
            Command::vsplit => remade::lemma_added(
                pre,
                post,
                seq![EffectView::Switch(pre.editor.doc.id, Action::VerticalSplit), shown],
            ),
            Command::wclose => remade::lemma_added(
                pre,
                post,
                seq![EffectView::Close(pre.editor.view.id, false)],
            ),
            _ => {},
        }
    }

    /// Commands that wait for a key wait for that key, those that put something up
    /// put that up, and those that change the mode change only that.
    pub proof fn keys_and_prompts_are_waited_for(
        self,
        command: Command,
        pre: Context,
        post: Context,
    )
        requires
            self.runs(command, pre, post),
        ensures
            ({
                let key = match command {
                    Command::replace => Some(NextKey::Replace),
                    Command::window_mode => Some(NextKey::Window),
                    Command::select_register => Some(NextKey::SelectRegister),
                    Command::space_mode => Some(NextKey::Space),
                    Command::view_mode => Some(NextKey::View),
                    Command::left_bracket_mode => Some(NextKey::LeftBracket),
                    Command::right_bracket_mode => Some(NextKey::RightBracket),
                    _ => None,
                };
                key matches Some(key) ==> post == (Context {
                    on_next_key_callback: Some(key),
                    ..pre
                })
            }),
            ({
                let layer = match command {
                    Command::select_regex => Some(Layer::RegexPrompt(RegexPrompt::Select)),
                    Command::split_selection => Some(Layer::RegexPrompt(RegexPrompt::Split)),
                    Command::keep_selections => Some(Layer::RegexPrompt(RegexPrompt::Keep)),
                    Command::search => Some(Layer::RegexPrompt(RegexPrompt::Search)),
                    Command::command_mode => Some(Layer::CommandPrompt),
                    _ => None,
                };
                layer matches Some(layer) ==> post == (Context { callback: Some(layer), ..pre })
            }),
            command == Command::file_picker ==> {
                &&& post == (Context { callback: post.callback, ..pre })
                &&& post.layer() == Some(
                    LayerView::FilePicker(
                        match self.root {
                            Some(root) => root@,
                            None => seq!['.', '/'],
                        },
                    ),
                )
            },
            command == Command::select_mode ==> post.editor.doc.mode == Mode::Select && added(
                pre,
                post,
            ).len() == 0,
            command == Command::exit_select_mode ==> post.editor.doc.mode == Mode::Normal && added(
                pre,
                post,
            ).len() == 0,
    {
        reveal_strlit("./");
        assert("./"@ =~= seq!['.', '/']);
        if command == Command::select_mode || command == Command::exit_select_mode {
            assert(post.editor.pending() =~= pre.editor.pending() + Seq::<EffectView>::empty());
            remade::lemma_added(pre, post, Seq::empty());
        }
    }

    /// Commands with a question for the language server put that question.
    pub proof fn commands_put_their_questions(self, command: Command, pre: Context, post: Context)
        requires
            self.runs(command, pre, post),
        ensures
            match command {
                Command::goto_definition => put_to_server(
                    pre,
                    post,
                    self.pos_to_lsp_pos,
                    |place: LspPosition| Request::Definition(place),
                ),
                Command::goto_type_definition => put_to_server(
                    pre,
                    post,
                    self.pos_to_lsp_pos,
                    |place: LspPosition| Request::TypeDefinition(place),
                ),
                Command::goto_implementation => put_to_server(
                    pre,
                    post,
                    self.pos_to_lsp_pos,
                    |place: LspPosition| Request::Implementation(place),
                ),
                Command::goto_reference => put_to_server(
                    pre,
                    post,
                    self.pos_to_lsp_pos,
                    |place: LspPosition| Request::References(place),
                ),
                Command::signature_help => put_to_server(
                    pre,
                    post,
                    self.pos_to_lsp_pos,
                    |place: LspPosition| Request::SignatureHelp(place),
                ),
                Command::hover => put_to_server(
                    pre,
                    post,
                    self.pos_to_lsp_pos,
                    |place: LspPosition| Request::Hover(place),
                ),
                Command::completion => put_to_server(
                    pre,
                    post,
                    self.pos_to_lsp_pos,
                    |place: LspPosition|
                        Request::Completion(place, pre.selection().primary().head),
                ),
                _ => true,
            },
    {
        let topic = match command {
            Command::goto_definition => Some(Topic::Definition),
            Command::goto_type_definition => Some(Topic::TypeDefinition),
            Command::goto_implementation => Some(Topic::Implementation),
            Command::goto_reference => Some(Topic::References),
            Command::signature_help => Some(Topic::SignatureHelp),
            Command::hover => Some(Topic::Hover),
            Command::completion => Some(Topic::Completion),
            _ => None,
        };
        if let Some(topic) = topic {
            questions_are_about_the_cursor(pre, post, topic, self.pos_to_lsp_pos);
        }
    }

    /// Going to the other bracket goes to where the editor finds it, and nowhere
    /// where it finds none or the document has no syntax.
    pub proof fn brackets_are_gone_to(self, pre: Context, post: Context)
        requires
            self.runs(Command::match_brackets, pre, post),
        ensures
            !pre.editor.doc.has_syntax ==> post == pre,
            pre.editor.doc.has_syntax ==> exists|found: Option<usize>|
                {
                    &&& #[trigger] call_ensures(
                        self.find_matching_bracket,
                        (&pre.editor.doc.text, pre.selection().primary().head),
                        found,
                    )
                    &&& match found {
                        Some(pos) => {
                            &&& added(pre, post) == seq![EffectView::SetSelection(asked(pre, post))]
                            &&& asked(pre, post).ranges.len() == 1
                            &&& asked(pre, post).primary_index == 0
                            &&& asked(pre, post).ranges[0].anchor == pos
                            &&& asked(pre, post).ranges[0].head == pos
                        },
                        None => post == pre,
                    }
                },
    {
        if pre.editor.doc.has_syntax {
            let found = choose|found: Option<usize>| #[trigger]
                call_ensures(
                    self.find_matching_bracket,
                    (&pre.editor.doc.text, pre.cursor()),
                    found,
                ) && crate::edit::at_bracket(pre, post, found);
            if let Some(pos) = found {
                remade::lemma_added(
                    pre,
                    post,
                    seq![EffectView::SetSelection(SelectionView::point(pos))],
                );
            }
        }
    }

    /// Deleting back over words selects what the motion goes over, as often as the
    /// count says, and then deletes what is selected.
    pub proof fn words_are_deleted_back(self, pre: Context, post: Context)
        requires
            self.runs(Command::delete_word_backward, pre, post),
        ensures
            post.editor.doc == pre.editor.doc,
            added(pre, post).len() == 2,
            added(pre, post)[1] == EffectView::DeleteSelection(pre.selected_register),
            added(pre, post)[0] matches EffectView::SetSelection(words) && {
                let count = match pre.count {
                    Some(count) => count,
                    None => 1usize,
                };
                &&& words.primary_index == pre.selection().primary_index
                &&& words.ranges.len() == pre.selection().ranges.len()
                &&& forall|i: int|
                    0 <= i < words.ranges.len() ==> call_ensures(
                        self.move_prev_word_start,
                        (&pre.editor.doc.text, pre.selection().ranges[i], count),
                        #[trigger] words.ranges[i],
                    )
            },
    {
        let words = choose|words: Seq<Range>| #[trigger]
            movement::moved_by_word(pre, self.move_prev_word_start, words) && post.asks(
                pre,
                seq![
                    EffectView::SetSelection(SelectionView { ranges: words, ..pre.selection() }),
                    EffectView::DeleteSelection(pre.selected_register),
                ],
            );
        remade::lemma_added(
            pre,
            post,
            seq![
                EffectView::SetSelection(SelectionView { ranges: words, ..pre.selection() }),
                EffectView::DeleteSelection(pre.selected_register),
            ],
        );
    }

    /// Turning lines into comments asks for the edit that the editor gives, as a step
    /// of the history; growing the selection, for the selection that it gives, where
    /// the document has syntax; and formatting closes a step where there is a server.
    pub proof fn edits_of_the_editor_are_asked_for(
        self,
        command: Command,
        pre: Context,
        post: Context,
    )
        requires
            self.runs(command, pre, post),
        ensures
            command == Command::toggle_comments ==> exists|edit: Transaction|
                {
                    &&& #[trigger] call_ensures(
                        self.toggle_line_comments,
                        (&pre.editor.doc.text, &pre.editor.doc.selection),
                        edit,
                    )
                    &&& added(pre, post) == seq![
                        EffectView::Apply(edit@),
                        EffectView::AppendChangesToHistory,
                    ]
                },
            command == Command::expand_selection && !pre.editor.doc.has_syntax ==> post == pre,
            command == Command::expand_selection && pre.editor.doc.has_syntax ==> exists|
                selection: Selection,
            |
                {
                    &&& #[trigger] call_ensures(
                        self.expand_selection,
                        (&pre.editor.doc.text, &pre.editor.doc.selection),
                        selection,
                    )
                    &&& added(pre, post) == seq![EffectView::SetSelection(selection@)]
                },
            command == Command::split_selection_on_newline ==> exists|selection: Selection|
                {
                    &&& #[trigger] call_ensures(
                        self.split_on_matches,
                        (&pre.editor.doc.text, &pre.editor.doc.selection, "\\n"),
                        selection,
                    )
                    &&& added(pre, post) == seq![EffectView::SetSelection(selection@)]
                },
            command == Command::format_selections ==> match pre.editor.doc.language_server {
                Some(_) => added(pre, post) == seq![EffectView::AppendChangesToHistory],
                None => post == pre,
            },
            command == Command::symbol_picker ==> asked_symbols(pre, post),
            command == Command::buffer_picker ==> {
                &&& post.layer() matches Some(LayerView::BufferPicker(items, current))
                &&& current == pre.editor.view.doc
                &&& items.len() == pre.editor.documents@.len()
                &&& forall|i: int|
                    0 <= i < items.len() ==> (#[trigger] items[i]).0
                        == pre.editor.documents@[i].id
            },
    {
        match command {
            Command::toggle_comments => {
                let edit = choose|edit: Transaction| #[trigger]
                    call_ensures(
                        self.toggle_line_comments,
                        (&pre.editor.doc.text, &pre.editor.doc.selection),
                        edit,
                    ) && post.asks(pre, crate::edit::edit_step(edit@));
                remade::lemma_added(
                    pre,
                    post,
                    seq![EffectView::Apply(edit@), EffectView::AppendChangesToHistory],
                );
            },
            Command::expand_selection if pre.editor.doc.has_syntax => {
                let selection = choose|selection: Selection| #[trigger]
                    call_ensures(
                        self.expand_selection,
                        (&pre.editor.doc.text, &pre.editor.doc.selection),
                        selection,
                    ) && post.selects(pre, selection@);
                remade::lemma_added(pre, post, seq![EffectView::SetSelection(selection@)]);
            },
            Command::split_selection_on_newline => {
                let selection = choose|selection: Selection| #[trigger]
                    call_ensures(
                        self.split_on_matches,
                        (&pre.editor.doc.text, &pre.editor.doc.selection, "\\n"),
                        selection,
                    ) && post.selects(pre, selection@);
                remade::lemma_added(pre, post, seq![EffectView::SetSelection(selection@)]);
            },
            Command::format_selections if pre.editor.doc.language_server is Some => {
                remade::lemma_added(pre, post, seq![EffectView::AppendChangesToHistory]);
            },
            _ => {},
        }
    }
}

} // verus!
