//! Questions to the language server and its answers.

use helix_term::editor::{
    Action, Call, Context, Document, Editor, Effect, IndentStyle, Key, LanguageServer, Layer, Mode, Request, Severity, Window,
};
use helix_term::registers::Registers;
use helix_term::selection::{Range, Selection};
use ropey::Rope;
use helix_term::lsp::{
    self, CompletionResponse, DocumentSymbol, DocumentSymbolResponse, GotoDefinitionResponse,
    HoverContents, Location, LocationLink, LspPosition, LspRange, OffsetEncoding,
    SymbolInformation, TextDocumentIdentifier, Uri,
};
use helix_term::{goto, insert, language};

fn document(text: &str, ranges: &[(usize, usize)]) -> Document {
    Document {
        id: 7,
        text: Rope::from_str(text),
        selection: Selection {
            ranges: ranges.iter().map(|r| Range::new(r.0, r.1)).collect(),
            primary_index: 0,
        },
        mode: Mode::Normal,
        restore_cursor: false,
        indent_style: IndentStyle::Spaces(4),
        indent_unit: "    ".to_string(),
        tab_width: 4,
        diagnostics: Vec::new(),
        language_server: None,
        has_syntax: false,
        path: None,
        auto_format: false,
    }
}

fn context(text: &str, ranges: &[(usize, usize)]) -> Context {
    Context {
        selected_register: '"',
        count: None,
        editor: Editor {
            view: Window {
                id: 1,
                doc: 7,
                first_line: 0,
                first_col: 0,
                width: 80,
                height: 10,
                padding: 5,
                last_accessed_doc: None,
            },
            doc: document(text, ranges),
            registers: Registers::new(),
            selected_register: '"',
            status_msg: None,
            documents: Vec::new(),
            views: vec![1],
            effects: Vec::new(),
        },
        callback: None,
        on_next_key_callback: None,
        callbacks: Vec::new(),
    }
}

/// The selection that was asked for last, as anchors and heads.
fn selected(cx: &Context) -> Vec<(usize, usize)> {
    match cx.editor.effects.last() {
        Some(Effect::SetSelection(selection)) => {
            selection.ranges.iter().map(|r| (r.anchor, r.head)).collect()
        }
        other => panic!("no selection: {:?}", other),
    }
}

fn lsp_pos(text: &Rope, pos: usize, _: OffsetEncoding) -> LspPosition {
    let line = text.char_to_line(pos);
    LspPosition { line: line as u32, character: (pos - text.line_to_char(line)) as u32 }
}

fn span(line: u32) -> LspRange {
    LspRange {
        start: LspPosition { line, character: 1 },
        end: LspPosition { line, character: 4 },
    }
}

fn uri(address: &str) -> Uri {
    Uri::parse(address).unwrap()
}

fn location(file: &str, line: u32) -> Location {
    Location { uri: uri(&format!("file://{}", file)), range: span(line) }
}

fn with_server(text: &str, ranges: &[(usize, usize)]) -> Context {
    let mut cx = context(text, ranges);
    cx.editor.doc.language_server = Some(LanguageServer {
        offset_encoding: OffsetEncoding::Utf16,
        completion_triggers: Some(vec!["::".to_string(), ".".to_string()]),
        signature_help_triggers: Some(vec!["(".to_string(), ".".to_string()]),
    });
    cx
}

fn asked(cx: &Context) -> Request {
    let call: &Call = cx.callbacks.last().unwrap();
    assert_eq!(call.document, 7);
    assert_eq!(call.offset_encoding, OffsetEncoding::Utf16);
    call.request
}

#[test]
fn without_a_server_nothing_is_asked() {
    let mut cx = context("ab\n", &[(0, 0)]);
    language::goto_definition(&mut cx, lsp_pos);
    language::completion(&mut cx, lsp_pos);
    language::hover(&mut cx, lsp_pos);
    language::symbol_picker(&mut cx);
    insert::after_insert(&mut cx, '.', lsp_pos);
    assert_eq!(cx.callbacks.len(), 0);
}

#[test]
fn questions_are_about_the_cursor() {
    let mut cx = with_server("ab\ncd\n", &[(0, 4)]);
    let at = LspPosition { line: 1, character: 1 };
    language::goto_definition(&mut cx, lsp_pos);
    assert_eq!(asked(&cx), Request::Definition(at));
    language::goto_type_definition(&mut cx, lsp_pos);
    assert_eq!(asked(&cx), Request::TypeDefinition(at));
    language::goto_implementation(&mut cx, lsp_pos);
    assert_eq!(asked(&cx), Request::Implementation(at));
    language::goto_reference(&mut cx, lsp_pos);
    assert_eq!(asked(&cx), Request::References(at));
    language::signature_help(&mut cx, lsp_pos);
    assert_eq!(asked(&cx), Request::SignatureHelp(at));
    language::hover(&mut cx, lsp_pos);
    assert_eq!(asked(&cx), Request::Hover(at));
    language::completion(&mut cx, lsp_pos);
    assert_eq!(asked(&cx), Request::Completion(at, 4));
    language::symbol_picker(&mut cx);
    assert_eq!(asked(&cx), Request::DocumentSymbols);
    assert_eq!(cx.callbacks.len(), 8);
}

#[test]
fn goto_keys_ask_the_server() {
    let mut cx = with_server("ab\n", &[(0, 1)]);
    let at = LspPosition { line: 0, character: 1 };
    let last_line = |_: &Window, text: &Rope| text.len_lines() - 1;
    for (ch, request) in [
        ('d', Request::Definition(at)),
        ('y', Request::TypeDefinition(at)),
        ('r', Request::References(at)),
        ('i', Request::Implementation(at)),
    ] {
        goto::goto_key(&mut cx, Key::Char(ch), lsp_pos, last_line);
        assert_eq!(asked(&cx), request);
    }
}

#[test]
fn typed_characters_trigger_questions() {
    let mut cx = with_server("ab\n", &[(0, 1)]);
    insert::after_insert(&mut cx, 'x', lsp_pos);
    assert_eq!(cx.callbacks.len(), 0);
    insert::after_insert(&mut cx, ':', lsp_pos);
    assert_eq!(cx.callbacks.len(), 1);
    assert!(matches!(asked(&cx), Request::Completion(_, 1)));
    insert::after_insert(&mut cx, '(', lsp_pos);
    assert_eq!(cx.callbacks.len(), 2);
    assert!(matches!(asked(&cx), Request::SignatureHelp(_)));
    insert::after_insert(&mut cx, '.', lsp_pos);
    assert_eq!(cx.callbacks.len(), 4);
    assert!(matches!(cx.callbacks[2].request, Request::Completion(_, _)));
    assert!(matches!(asked(&cx), Request::SignatureHelp(_)));
    cx.editor.doc.language_server.as_mut().unwrap().completion_triggers = None;
    insert::after_insert(&mut cx, ':', lsp_pos);
    assert_eq!(cx.callbacks.len(), 4);
}

#[test]
fn a_single_location_is_gone_to() {
    let mut cx = context("ab\n", &[(0, 1)]);
    let response = Some(GotoDefinitionResponse::Scalar(location("/a", 3)));
    language::goto_response(&mut cx, response, OffsetEncoding::Utf8);
    assert!(matches!(cx.editor.effects[0], Effect::PushJump(7, _)));
    assert!(matches!(&cx.editor.effects[1], Effect::Open(path, Action::Replace) if path == "/a"));
    match cx.editor.effects[2] {
        Effect::JumpTo(position, encoding) => {
            assert_eq!(position, LspPosition { line: 3, character: 1 });
            assert_eq!(encoding, OffsetEncoding::Utf8);
        }
        _ => panic!("no jump"),
    }
}

#[test]
fn the_path_of_an_address_is_opened() {
    let address = uri("file://host/a%20b/c d.rs?x=1#2");
    assert_eq!(address.as_str(), "file://host/a%20b/c%20d.rs?x=1#2");
    assert_eq!(address.path(), "/a%20b/c%20d.rs");
    assert_eq!(address.clone().path(), address.path());
    assert!(Uri::parse("/a").is_none());
    let place = Location { uri: address, range: span(3) };
    assert_eq!(language::location_label(&place), "file://host/a%20b/c%20d.rs?x=1#2:3");
    let mut cx = context("ab\n", &[(0, 1)]);
    language::jump_to(&mut cx, &place, OffsetEncoding::Utf8, Action::Replace);
    assert!(matches!(&cx.editor.effects[0], Effect::Open(path, _) if path == "/a%20b/c%20d.rs"));
}

#[test]
fn no_location_is_an_error() {
    let mut cx = context("ab\n", &[(0, 1)]);
    language::goto_response(&mut cx, None, OffsetEncoding::Utf8);
    assert_eq!(
        cx.editor.status_msg,
        Some(("No definition found.".to_string(), Severity::Error))
    );
    assert_eq!(cx.editor.effects.len(), 1);
    language::reference_response(&mut cx, None, OffsetEncoding::Utf8);
    assert_eq!(cx.editor.effects.len(), 2);
    assert!(cx.callback.is_none());
}

#[test]
fn several_locations_are_put_up_for_choice() {
    let mut cx = context("ab\n", &[(0, 1)]);
    let links = (1..3)
        .map(|line| LocationLink {
            target_uri: uri("file:///a"),
            target_range: span(line),
            target_selection_range: span(90),
        })
        .collect();
    let response = Some(GotoDefinitionResponse::Link(links));
    language::goto_response(&mut cx, response, OffsetEncoding::Utf16);
    assert_eq!(cx.editor.effects.len(), 1);
    match cx.callback.take() {
        Some(Layer::LocationPicker(locations, OffsetEncoding::Utf16)) => {
            assert_eq!(language::location_label(&locations[0]), "file:///a:1");
            assert_eq!(language::location_label(&locations[1]), "file:///a:2");
            language::jump_to(
                &mut cx,
                &locations[1],
                OffsetEncoding::Utf16,
                Action::VerticalSplit,
            );
        }
        other => panic!("no picker: {:?}", other),
    }
    assert!(matches!(cx.editor.effects[1], Effect::Open(_, Action::VerticalSplit)));
    let items = Some(vec![location("/b", 10), location("/c", 4294967295)]);
    language::reference_response(&mut cx, items, OffsetEncoding::Utf8);
    match &cx.callback {
        Some(Layer::LocationPicker(locations, _)) => {
            assert_eq!(language::location_label(&locations[0]), "file:///b:10");
            assert_eq!(language::location_label(&locations[1]), "file:///c:4294967295");
        }
        other => panic!("no picker: {:?}", other),
    }
    let response = Some(GotoDefinitionResponse::Array(vec![location("/b", 1)]));
    assert_eq!(lsp::goto_locations(response).len(), 1);
}

#[test]
fn places_that_are_not_in_the_text_are_not_come_to() {
    let mut cx = context(&"a\n".repeat(50), &[(0, 0)]);
    let at = LspPosition { line: 40, character: 0 };
    let none = |_: &Rope, _: LspPosition, _: OffsetEncoding| None;
    language::jump_to_position(&mut cx, at, OffsetEncoding::Utf8, none);
    assert_eq!(cx.editor.effects.len(), 0);
    let found = |text: &Rope, position: LspPosition, _: OffsetEncoding| {
        Some(text.line_to_char(position.line as usize))
    };
    language::jump_to_position(&mut cx, at, OffsetEncoding::Utf8, found);
    assert_eq!(selected(&cx), vec![(80, 80)]);
    assert_eq!(cx.editor.view.first_line, 35);
}

#[test]
fn empty_completions_are_not_shown() {
    assert_eq!(language::completion_items::<u8>(None), None);
    assert_eq!(
        language::completion_items(Some(CompletionResponse::<u8>::Array(Vec::new()))),
        None
    );
    assert_eq!(
        language::completion_items(Some(CompletionResponse::Array(vec![1, 2]))),
        Some(vec![1, 2])
    );
    assert_eq!(
        language::completion_items(Some(CompletionResponse::List {
            is_incomplete: true,
            items: vec![3]
        })),
        Some(vec![3])
    );
}

#[test]
fn only_markup_is_shown_in_a_popup() {
    let mut cx = context("ab\n", &[(0, 0)]);
    language::hover_response(&mut cx, None);
    language::hover_response(&mut cx, Some(HoverContents::Scalar));
    language::hover_response(&mut cx, Some(HoverContents::Array));
    assert!(cx.callback.is_none());
    language::hover_response(&mut cx, Some(HoverContents::Markup("*x*".to_string())));
    assert!(matches!(&cx.callback, Some(Layer::Popup(contents)) if contents == "*x*"));
}

fn symbol(name: &str, line: u32, children: Option<Vec<DocumentSymbol>>) -> DocumentSymbol {
    DocumentSymbol {
        name: name.to_string(),
        kind: 5,
        tags: Some(vec![1]),
        deprecated: None,
        range: span(90),
        selection_range: span(line),
        children,
    }
}

#[test]
fn nested_symbols_are_listed_outermost_first() {
    let file = TextDocumentIdentifier { uri: uri("file:///a") };
    let nested = vec![
        symbol("a", 1, Some(vec![symbol("b", 2, Some(vec![symbol("c", 3, None)])), symbol("d", 4, None)])),
        symbol("e", 5, Some(Vec::new())),
    ];
    let mut cx = context("ab\n", &[(0, 0)]);
    language::symbols_response(&mut cx, &file, None, OffsetEncoding::Utf8);
    assert!(cx.callback.is_none());
    language::symbols_response(
        &mut cx,
        &file,
        Some(DocumentSymbolResponse::Nested(nested)),
        OffsetEncoding::Utf8,
    );
    match &cx.callback {
        Some(Layer::SymbolPicker(symbols, OffsetEncoding::Utf8)) => {
            let names: Vec<String> = symbols.iter().map(language::symbol_label).collect();
            assert_eq!(names.concat(), "abcde");
            for (symbol, line) in symbols.iter().zip(1..) {
                assert_eq!(symbol.location.uri.as_str(), "file:///a");
                assert_eq!(symbol.location.range, span(line));
                assert_eq!(symbol.container_name, None);
                assert_eq!(symbol.kind, 5);
                assert_eq!(symbol.tags, Some(vec![1]));
            }
        }
        other => panic!("no picker: {:?}", other),
    }
}

#[test]
fn a_chosen_symbol_is_selected() {
    let chosen = SymbolInformation {
        name: "f".to_string(),
        kind: 1,
        tags: None,
        deprecated: Some(true),
        location: location("/a", 0),
        container_name: Some("m".to_string()),
    };
    let mut cx = context("abcdef\n", &[(0, 0)]);
    let none = |_: &Rope, _: LspRange, _: OffsetEncoding| None;
    language::pick_symbol(&mut cx, &chosen, OffsetEncoding::Utf8, none);
    assert_eq!(cx.editor.effects.len(), 1);
    let found = |_: &Rope, range: LspRange, _: OffsetEncoding| {
        Some(Range::new(range.start.character as usize, range.end.character as usize))
    };
    language::pick_symbol(&mut cx, &chosen, OffsetEncoding::Utf8, found);
    assert_eq!(cx.editor.effects.len(), 3);
    assert_eq!(selected(&cx), vec![(4, 1)]);
    let file = TextDocumentIdentifier { uri: uri("file:///a") };
    let flat = lsp::flat_symbols(&file, DocumentSymbolResponse::Flat(vec![chosen]));
    assert_eq!(flat[0].container_name, Some("m".to_string()));
}
