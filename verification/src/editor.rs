//! The state that commands read and write, and what they ask of the editor.
//!
//! A command runs on a `Context`: the focused view and its document, the
//! registers and the message line, as plain values. What it changes there it
//! changes at once. What only the running editor can do, such as applying an
//! edit or switching to another document, it adds to a list of effects, which
//! the editor carries out in order once the command is done.

use crate::change::{Transaction, TransactionView};
use crate::lsp::{
    Location, LocationView, LspPosition, OffsetEncoding, SymbolInformation, SymbolInformationView,
};
use crate::registers::Registers;
use crate::selection::{Selection, SelectionView};
use crate::strings;
use crate::text;
use crate::{lsp, selection};
use ropey::Rope;
use vstd::prelude::*;

verus! {

#[derive(Clone, Copy, Debug, PartialEq, Eq, Structural)]
pub enum Mode {
    Normal,
    Select,
    Insert,
}

/// What a level of indentation is written with.
#[derive(Clone, Copy, Debug, PartialEq, Eq, Structural)]
pub enum IndentStyle {
    Tabs,
    Spaces(u8),
}

#[derive(Clone, Copy, Debug, PartialEq, Eq, Structural)]
pub enum Direction {
    Forward,
    Backward,
}

/// Whether a motion carries the anchor along or leaves it behind.
#[derive(Clone, Copy, Debug, PartialEq, Eq, Structural)]
pub enum Movement {
    Extend,
    Move,
}

/// Where a document is shown.
#[derive(Clone, Copy, Debug, PartialEq, Eq, Structural)]
pub enum Action {
    Replace,
    HorizontalSplit,
    VerticalSplit,
}

#[derive(Clone, Copy, Debug, PartialEq, Eq, Structural)]
pub enum Severity {
    Info,
    Error,
}

/// How far to go in the history of a document.
#[derive(Clone, Copy, Debug, PartialEq, Eq, Structural)]
pub enum UndoKind {
    Steps(usize),
    TimePeriod { seconds: u64, nanoseconds: u32 },
}

/// A row and a column, both counted from zero.
#[derive(Clone, Copy, Debug, PartialEq, Eq, Structural)]
pub struct Position {
    pub row: usize,
    pub col: usize,
}

/// A key press, as far as commands tell keys apart.
#[derive(Clone, Copy, Debug, PartialEq, Eq, Structural)]
pub enum Key {
    Char(char),
    Enter,
    Other,
}

/// A window onto a document.
#[derive(Clone, Copy, Debug, PartialEq, Eq, Structural)]
pub struct Window {
    pub id: usize,
    pub doc: usize,
    pub first_line: usize,
    pub first_col: usize,
    pub width: u16,
    pub height: u16,
    /// How many lines to keep in sight around the cursor.
    pub padding: usize,
    pub last_accessed_doc: Option<usize>,
}

/// A remark of the language server on a stretch of text.
#[derive(Clone, Copy, Debug, PartialEq, Eq, Structural)]
pub struct Diagnostic {
    pub start: usize,
    pub end: usize,
}

/// The language server of a document, with the strings that call for it.
#[derive(Debug)]
pub struct LanguageServer {
    pub offset_encoding: OffsetEncoding,
    pub completion_triggers: Option<Vec<String>>,
    pub signature_help_triggers: Option<Vec<String>>,
}

/// The document in the focused view.
#[derive(Debug)]
pub struct Document {
    pub id: usize,
    pub text: Rope,
    pub selection: Selection,
    pub mode: Mode,
    /// Whether leaving insert mode moves the cursor back.
    pub restore_cursor: bool,
    pub indent_style: IndentStyle,
    /// What one level of indentation is.
    pub indent_unit: String,
    pub tab_width: usize,
    pub diagnostics: Vec<Diagnostic>,
    pub language_server: Option<LanguageServer>,
    pub has_syntax: bool,
    pub path: Option<String>,
    pub auto_format: bool,
}

/// A path from the working directory on.
#[derive(Debug)]
pub struct RelativePath {
    /// The path, with a replacement character for whatever in it is not UTF-8.
    pub lossy: String,
    /// Whether the path is UTF-8, so that nothing had to be replaced.
    pub is_utf8: bool,
}

impl RelativePath {
    /// The path as it is, where it is UTF-8.
    pub open spec fn exact(self) -> Option<Seq<char>> {
        if self.is_utf8 {
            Some(self.lossy@)
        } else {
            None
        }
    }
}

/// Any of the open documents, as far as commands on all of them look at it.
#[derive(Debug)]
pub struct Buffer {
    pub id: usize,
    pub modified: bool,
    pub path: Option<String>,
    pub relative_path: Option<RelativePath>,
}

/// Something that only the running editor can do.
#[derive(Debug)]
pub enum Effect {
    /// Give the focused view's document this selection.
    SetSelection(Selection),
    /// Apply an edit to the document.
    Apply(Transaction),
    /// Close the changes made so far into one step of the history.
    AppendChangesToHistory,
    /// Remember a place, the document and what was selected there.
    PushJump(usize, Selection),
    Undo,
    Redo,
    Earlier(UndoKind),
    Later(UndoKind),
    /// Have the document formatted.
    Format,
    /// Write the document to disk, and wait for it.
    Write,
    /// Write the document with this id to disk, and wait for it.
    WriteBuffer(usize),
    /// Write the document to disk without waiting.
    Save,
    /// Give the document another path.
    SetPath(String),
    Open(String, Action),
    Switch(usize, Action),
    NewFile(Action),
    /// Close a view; its document too where the flag says so.
    Close(usize, bool),
    FocusNext,
    /// Copy what is then selected to a register and delete it. The mode stays, and
    /// the step of the history stays open.
    DeleteSelection(char),
    /// Do what follows the insertion of a character.
    AfterInsert(char),
    /// Go to a place in the document that was just opened.
    JumpTo(LspPosition, OffsetEncoding),
    /// Show in the new view what the old one showed.
    MatchView(usize, Selection),
    /// Go so many places forward among those remembered.
    JumpForward(usize),
    /// Go so many places back among those remembered.
    JumpBackward(usize),
    /// Select this in the document that the view has come to.
    Arrive(Selection),
    /// Close the view, unless changes would be lost, on the state as it then is.
    Quit,
    /// Close all views, where the flag says so even if changes are lost, on the
    /// state as it then is.
    QuitAll(bool),
}

/// What an effect is.
#[verifier::ext_equal]
pub enum EffectView {
    SetSelection(SelectionView),
    Apply(TransactionView),
    AppendChangesToHistory,
    PushJump(usize, SelectionView),
    Undo,
    Redo,
    Earlier(UndoKind),
    Later(UndoKind),
    Format,
    Write,
    WriteBuffer(usize),
    Save,
    SetPath(Seq<char>),
    Open(Seq<char>, Action),
    Switch(usize, Action),
    NewFile(Action),
    Close(usize, bool),
    FocusNext,
    DeleteSelection(char),
    AfterInsert(char),
    JumpTo(LspPosition, OffsetEncoding),
    MatchView(usize, SelectionView),
    JumpForward(usize),
    JumpBackward(usize),
    Arrive(SelectionView),
    Quit,
    QuitAll(bool),
}

impl View for Effect {
    type V = EffectView;

    open spec fn view(&self) -> EffectView {
        match *self {
            Effect::SetSelection(selection) => EffectView::SetSelection(selection@),
            Effect::Apply(transaction) => EffectView::Apply(transaction@),
            Effect::AppendChangesToHistory => EffectView::AppendChangesToHistory,
            Effect::PushJump(doc, selection) => EffectView::PushJump(doc, selection@),
            Effect::Undo => EffectView::Undo,
            Effect::Redo => EffectView::Redo,
            Effect::Earlier(kind) => EffectView::Earlier(kind),
            Effect::Later(kind) => EffectView::Later(kind),
            Effect::Format => EffectView::Format,
            Effect::Write => EffectView::Write,
            Effect::WriteBuffer(id) => EffectView::WriteBuffer(id),
            Effect::Save => EffectView::Save,
            Effect::SetPath(path) => EffectView::SetPath(path@),
            Effect::Open(path, action) => EffectView::Open(path@, action),
            Effect::Switch(doc, action) => EffectView::Switch(doc, action),
            Effect::NewFile(action) => EffectView::NewFile(action),
            Effect::Close(view, close_buffer) => EffectView::Close(view, close_buffer),
            Effect::FocusNext => EffectView::FocusNext,
            Effect::DeleteSelection(register) => EffectView::DeleteSelection(register),
            Effect::AfterInsert(c) => EffectView::AfterInsert(c),
            Effect::JumpTo(position, encoding) => EffectView::JumpTo(position, encoding),
            Effect::MatchView(first_line, selection) => EffectView::MatchView(
                first_line,
                selection@,
            ),
            Effect::JumpForward(count) => EffectView::JumpForward(count),
            Effect::JumpBackward(count) => EffectView::JumpBackward(count),
            Effect::Arrive(selection) => EffectView::Arrive(selection@),
            Effect::Quit => EffectView::Quit,
            Effect::QuitAll(force) => EffectView::QuitAll(force),
        }
    }
}

/// The editor around the focused view.
pub struct Editor {
    pub view: Window,
    pub doc: Document,
    pub registers: Registers,
    /// The register that was chosen for the next command.
    pub selected_register: char,
    /// The message line.
    pub status_msg: Option<(String, Severity)>,
    /// Every open document.
    pub documents: Vec<Buffer>,
    /// Every view, by id.
    pub views: Vec<usize>,
    /// What the editor is to do, in this order.
    pub effects: Vec<Effect>,
}

impl Editor {
    /// What the editor is to do.
    pub open spec fn pending(self) -> Seq<EffectView> {
        self.effects@.map_values(|effect: Effect| effect@)
    }

    /// What the message line says.
    pub open spec fn message(self) -> Option<(Seq<char>, Severity)> {
        match self.status_msg {
            Some((message, severity)) => Some((message@, severity)),
            None => None,
        }
    }

    /// The same as before but for the list of effects.
    pub open spec fn keeps(self, pre: Editor) -> bool {
        self == (Editor { effects: self.effects, ..pre })
    }

    /// The same as before but for the list of effects, which has `added` at
    /// its end.
    pub open spec fn asks(self, pre: Editor, added: Seq<EffectView>) -> bool {
        &&& self.keeps(pre)
        &&& self.pending() == pre.pending() + added
    }

    pub(crate) fn ask(&mut self, effect: Effect)
        ensures
            final(self).asks(*old(self), seq![effect@]),
    {
        self.effects.push(effect);
        assert(self.pending() =~= old(self).pending() + seq![effect@]);
    }

    pub fn set_status(&mut self, status: String)
        ensures
            *final(self) == (Editor { status_msg: final(self).status_msg, ..*old(self) }),
            final(self).message() == Some((status@, Severity::Info)),
    {
        self.status_msg = Some((status, Severity::Info));
    }

    pub fn set_error(&mut self, error: String)
        ensures
            *final(self) == (Editor { status_msg: final(self).status_msg, ..*old(self) }),
            final(self).message() == Some((error@, Severity::Error)),
    {
        self.status_msg = Some((error, Severity::Error));
    }
}

/// Which regular expression a prompt asks for.
#[derive(Clone, Copy, Debug, PartialEq, Eq, Structural)]
pub enum RegexPrompt {
    Select,
    Split,
    Search,
    Keep,
}

/// A component to put on top of the screen.
#[derive(Debug)]
pub enum Layer {
    RegexPrompt(RegexPrompt),
    CommandPrompt,
    /// A picker of files below a directory.
    FilePicker(String),
    /// A picker of documents; the number is the one in the focused view.
    BufferPicker(Vec<(usize, Option<String>)>, usize),
    SymbolPicker(Vec<SymbolInformation>, OffsetEncoding),
    LocationPicker(Vec<Location>, OffsetEncoding),
    /// A popup with rendered text.
    Popup(String),
}

/// What a component shows.
#[verifier::ext_equal]
pub enum LayerView {
    RegexPrompt(RegexPrompt),
    CommandPrompt,
    FilePicker(Seq<char>),
    BufferPicker(Seq<(usize, Option<Seq<char>>)>, usize),
    SymbolPicker(Seq<SymbolInformationView>, OffsetEncoding),
    LocationPicker(Seq<LocationView>, OffsetEncoding),
    Popup(Seq<char>),
}

impl View for Layer {
    type V = LayerView;

    open spec fn view(&self) -> LayerView {
        match *self {
            Layer::RegexPrompt(prompt) => LayerView::RegexPrompt(prompt),
            Layer::CommandPrompt => LayerView::CommandPrompt,
            Layer::FilePicker(root) => LayerView::FilePicker(root@),
            Layer::BufferPicker(items, current) => LayerView::BufferPicker(
                items@.map_values(
                    |item: (usize, Option<String>)| (item.0, strings::option_view(item.1)),
                ),
                current,
            ),
            Layer::SymbolPicker(symbols, encoding) => LayerView::SymbolPicker(
                lsp::symbol_views(symbols@),
                encoding,
            ),
            Layer::LocationPicker(locations, encoding) => LayerView::LocationPicker(
                lsp::location_views(locations@),
                encoding,
            ),
            Layer::Popup(contents) => LayerView::Popup(contents@),
        }
    }
}

/// Which way a character is searched for.
#[derive(Clone, Copy, Debug, PartialEq, Eq, Structural)]
pub enum CharSearch {
    NthNext,
    NthPrev,
}

/// What the next key is for.
#[derive(Clone, Copy, Debug, PartialEq, Eq, Structural)]
pub enum NextKey {
    FindChar { search: CharSearch, inclusive: bool, extend: bool, count: usize },
    Replace,
    Goto,
    Window,
    SelectRegister,
    Space,
    View,
    LeftBracket,
    RightBracket,
}

/// A question for the language server.
#[derive(Clone, Copy, Debug, PartialEq, Eq, Structural)]
pub enum Request {
    Definition(LspPosition),
    TypeDefinition(LspPosition),
    Implementation(LspPosition),
    References(LspPosition),
    SignatureHelp(LspPosition),
    Hover(LspPosition),
    /// The place, and the cursor's position in the text when it was asked.
    Completion(LspPosition, usize),
    DocumentSymbols,
}

/// A question that waits for its answer.
#[derive(Clone, Copy, Debug, PartialEq, Eq, Structural)]
pub struct Call {
    pub request: Request,
    pub document: usize,
    pub offset_encoding: OffsetEncoding,
}

/// What a command runs on.
pub struct Context {
    /// The register that was chosen for this command.
    pub selected_register: char,
    /// The count that was typed before the command; never zero.
    pub count: Option<usize>,
    pub editor: Editor,
    /// The component to put on top of the screen.
    pub callback: Option<Layer>,
    /// What the next key is for, where it is for something.
    pub on_next_key_callback: Option<NextKey>,
    /// Questions to the language server.
    pub callbacks: Vec<Call>,
}

impl Context {
    /// The characters of the document.
    pub open spec fn text(self) -> Seq<char> {
        text::rope_text(self.editor.doc.text)
    }

    /// What is selected.
    pub open spec fn selection(self) -> SelectionView {
        self.editor.doc.selection@
    }

    /// The position of the cursor.
    pub open spec fn cursor(self) -> usize {
        self.selection().primary().head
    }

    /// How often to do it: once where no count was typed.
    pub open spec fn times(self) -> usize {
        match self.count {
            Some(count) => count,
            None => 1,
        }
    }

    /// The text can be counted, the selection lies inside it, and a count is
    /// not zero.
    pub open spec fn wf(self) -> bool {
        &&& text::fits(self.text())
        &&& self.selection().within(self.text().len() as int)
        &&& self.count != Some(0usize)
    }

    /// The same but for the mode of the document.
    pub open spec fn in_mode(self, mode: Mode) -> Context {
        Context {
            editor: Editor { doc: Document { mode, ..self.editor.doc }, ..self.editor },
            ..self
        }
    }

    /// The same but out of select mode.
    pub open spec fn out_of_select_mode(self) -> Context {
        if self.editor.doc.mode == Mode::Select {
            self.in_mode(Mode::Normal)
        } else {
            self
        }
    }

    /// The same but for the path of the document.
    pub open spec fn at_path(self, path: Option<String>) -> Context {
        Context {
            editor: Editor { doc: Document { path, ..self.editor.doc }, ..self.editor },
            ..self
        }
    }

    /// The same but for what the registers hold.
    pub open spec fn with_registers(self, registers: Registers) -> Context {
        Context { editor: Editor { registers, ..self.editor }, ..self }
    }

    /// The same but for the message line.
    pub open spec fn saying(self, status_msg: Option<(String, Severity)>) -> Context {
        Context { editor: Editor { status_msg, ..self.editor }, ..self }
    }

    /// The same but for what the next key is for.
    pub open spec fn awaiting(self, next_key: NextKey) -> Context {
        Context { on_next_key_callback: Some(next_key), ..self }
    }

    /// The same but for the component to put on top of the screen.
    pub open spec fn with_layer(self, callback: Option<Layer>) -> Context {
        Context { callback, ..self }
    }

    /// What is to be put on top of the screen.
    pub open spec fn layer(self) -> Option<LayerView> {
        match self.callback {
            Some(layer) => Some(layer@),
            None => None,
        }
    }

    /// The same but for the first line that the view shows.
    pub open spec fn showing(self, first_line: usize) -> Context {
        Context {
            editor: Editor { view: Window { first_line, ..self.editor.view }, ..self.editor },
            ..self
        }
    }

    /// The same as before but for the effects, which have `added` at their end.
    pub open spec fn asks(self, pre: Context, added: Seq<EffectView>) -> bool {
        &&& self == (Context { editor: self.editor, ..pre })
        &&& self.editor.asks(pre.editor, added)
    }

    /// The same as before but that the document is to have `selection`.
    pub open spec fn selects(self, pre: Context, selection: SelectionView) -> bool {
        self.asks(pre, seq![EffectView::SetSelection(selection)])
    }

    /// Puts a component on top of the screen.
    pub fn push_layer(&mut self, layer: Layer)
        ensures
            *final(self) == (Context { callback: Some(layer), ..*old(self) }),
    {
        self.callback = Some(layer);
    }

    /// Keeps the next key for something.
    pub fn on_next_key(&mut self, next_key: NextKey)
        ensures
            *final(self) == (Context { on_next_key_callback: Some(next_key), ..*old(self) }),
    {
        self.on_next_key_callback = Some(next_key);
    }

    /// Asks the language server something.
    pub fn callback(&mut self, call: Call)
        ensures
            *final(self) == (Context { callbacks: final(self).callbacks, ..*old(self) }),
            final(self).callbacks@ == old(self).callbacks@.push(call),
    {
        self.callbacks.push(call);
    }

    /// Returns 1 if no explicit count was provided.
    pub fn count(&self) -> (count: usize)
        ensures
            count == self.times(),
            self.count != Some(0usize) ==> count >= 1,
    {
        match self.count {
            Some(count) => count,
            None => 1,
        }
    }

    pub(crate) fn set_selection(&mut self, selection: Selection)
        ensures
            final(self).selects(*old(self), selection@),
    {
        self.editor.ask(Effect::SetSelection(selection));
    }
}

} // verus!
