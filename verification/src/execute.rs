//! Commands by name: what each is handed, and what it does with it.

use crate::change::{Transaction, TransactionView};
use crate::command::Command;
use crate::editor::{
    Action, CharSearch, Context, Direction, EffectView, Layer, LayerView, Mode, Movement, NextKey,
    Position, RegexPrompt, Severity, Window,
};
use crate::lsp::{LspPosition, OffsetEncoding};
use crate::selection::{Range, Selection, SelectionView};
use crate::{
    cmd, edit, goto, insert, language, lines, movement, open, search, select, strings, text, view,
    window,
};
use ropey::Rope;
use vstd::prelude::*;

verus! {

/// What commands are told by the editor around them.
pub struct Outside<
    MH,
    MV,
    NW,
    PW,
    WE,
    NG,
    PG,
    NN,
    NP,
    CP,
    PC,
    LL,
    SM,
    PU,
    FR,
    SI,
    TC,
    ES,
    MB,
    LP,
> {
    /// Moves a range along its line.
    pub move_horizontally: MH,
    /// Moves a range to another line.
    pub move_vertically: MV,
    /// Moves a range to the start of a later word.
    pub move_next_word_start: NW,
    /// Moves a range to the start of an earlier word.
    pub move_prev_word_start: PW,
    /// Moves a range to the end of a later word.
    pub move_next_word_end: WE,
    /// Where the character after a position ends.
    pub next_grapheme_boundary: NG,
    /// Where the character before a position starts.
    pub prev_grapheme_boundary: PG,
    /// Where so many characters after a position end.
    pub nth_next_grapheme_boundary: NN,
    /// Where so many characters before a position start.
    pub nth_prev_grapheme_boundary: NP,
    /// The row and the column of a position.
    pub coords_at_pos: CP,
    /// The position at a row and a column.
    pub pos_at_coords: PC,
    /// The last line in sight.
    pub last_line_of: LL,
    /// Splits ranges on the matches of a regular expression.
    pub split_on_matches: SM,
    /// Adds a range to a selection.
    pub push: PU,
    /// What a range holds.
    pub fragment: FR,
    /// How deep a line after a position is indented.
    pub suggested_indent: SI,
    /// The edit that turns lines into comments, or back.
    pub toggle_line_comments: TC,
    /// Grows ranges to the syntax around them.
    pub expand_selection: ES,
    /// Where the other bracket is.
    pub find_matching_bracket: MB,
    /// A position as language servers write it.
    pub pos_to_lsp_pos: LP,
    /// The characters that come in pairs.
    pub pairs: Vec<(char, char)>,
    /// The root of the project.
    pub root: Option<String>,
}

impl<
    MH: Fn(&Rope, Range, Direction, usize, Movement) -> Range,
    MV: Fn(&Rope, Range, Direction, usize, Movement) -> Range,
    NW: Fn(&Rope, Range, usize) -> Range,
    PW: Fn(&Rope, Range, usize) -> Range,
    WE: Fn(&Rope, Range, usize) -> Range,
    NG: Fn(&Rope, usize) -> usize,
    PG: Fn(&Rope, usize) -> usize,
    NN: Fn(&Rope, usize, usize) -> usize,
    NP: Fn(&Rope, usize, usize) -> usize,
    CP: Fn(&Rope, usize) -> Position,
    PC: Fn(&Rope, Position) -> usize,
    LL: Fn(&Window, &Rope) -> usize,
    SM: Fn(&Rope, &Selection, &str) -> Selection,
    PU: Fn(&Selection, Range) -> Selection,
    FR: Fn(&Rope, Range) -> String,
    SI: Fn(&Rope, usize, bool) -> usize,
    TC: Fn(&Rope, &Selection) -> Transaction,
    ES: Fn(&Rope, &Selection) -> Selection,
    MB: Fn(&Rope, usize) -> Option<usize>,
    LP: Fn(&Rope, usize, OffsetEncoding) -> LspPosition,
> Outside<MH, MV, NW, PW, WE, NG, PG, NN, NP, CP, PC, LL, SM, PU, FR, SI, TC, ES, MB, LP> {
    /// Whether a command can be run: what it asks can be asked, and what it
    /// writes is not too long.
    pub open spec fn can_run(self, command: Command, pre: Context) -> bool {
        match command {
            Command::move_char_left => movement::can_move(
                pre,
                self.move_horizontally,
                Direction::Backward,
                Movement::Move,
            ),
            Command::move_char_right => movement::can_move(
                pre,
                self.move_horizontally,
                Direction::Forward,
                Movement::Move,
            ),
            Command::move_line_up => movement::can_move(
                pre,
                self.move_vertically,
                Direction::Backward,
                Movement::Move,
            ),
            Command::move_line_down => movement::can_move(
                pre,
                self.move_vertically,
                Direction::Forward,
                Movement::Move,
            ),
            Command::move_next_word_start => movement::can_move_by_word(
                pre,
                self.move_next_word_start,
            ),
            Command::move_prev_word_start => movement::can_move_by_word(
                pre,
                self.move_prev_word_start,
            ),
            Command::move_next_word_end => movement::can_move_by_word(pre, self.move_next_word_end),
            Command::extend_next_word_start => movement::can_move_by_word(
                pre,
                self.move_next_word_start,
            ),
            Command::extend_prev_word_start => movement::can_move_by_word(
                pre,
                self.move_prev_word_start,
            ),
            Command::extend_next_word_end => movement::can_move_by_word(
                pre,
                self.move_next_word_end,
            ),
            Command::page_up => view::can_scroll(
                pre,
                pre.editor.view.height as usize,
                Direction::Backward,
                self.coords_at_pos,
                self.pos_at_coords,
                self.last_line_of,
            ),
            Command::page_down => view::can_scroll(
                pre,
                pre.editor.view.height as usize,
                Direction::Forward,
                self.coords_at_pos,
                self.pos_at_coords,
                self.last_line_of,
            ),
            Command::half_page_up => view::can_scroll(
                pre,
                (pre.editor.view.height / 2) as usize,
                Direction::Backward,
                self.coords_at_pos,
                self.pos_at_coords,
                self.last_line_of,
            ),
            Command::half_page_down => view::can_scroll(
                pre,
                (pre.editor.view.height / 2) as usize,
                Direction::Forward,
                self.coords_at_pos,
                self.pos_at_coords,
                self.last_line_of,
            ),
            Command::extend_char_left => movement::can_move(
                pre,
                self.move_horizontally,
                Direction::Backward,
                Movement::Extend,
            ),
            Command::extend_char_right => movement::can_move(
                pre,
                self.move_horizontally,
                Direction::Forward,
                Movement::Extend,
            ),
            Command::extend_line_up => movement::can_move(
                pre,
                self.move_vertically,
                Direction::Backward,
                Movement::Extend,
            ),
            Command::extend_line_down => movement::can_move(
                pre,
                self.move_vertically,
                Direction::Forward,
                Movement::Extend,
            ),
            Command::split_selection_on_newline => call_requires(
                self.split_on_matches,
                (&pre.editor.doc.text, &pre.editor.doc.selection, "\\n"),
            ),
            Command::search_next => search::pattern_kept(pre),
            Command::extend_search_next => {
                &&& search::pattern_kept(pre)
                &&& search::can_push(pre, self.push)
            },
            Command::search_selection => call_requires(
                self.fragment,
                (&pre.editor.doc.text, pre.selection().primary()),
            ),
            Command::select_line => text::line_of(
                pre.text(),
                pre.cursor() as int,
            ) + pre.times() <= usize::MAX,
            Command::extend_line => select::extended_line(
                pre.text(),
                pre.selection().primary(),
            ) < text::line_count(pre.text()),
            Command::delete_selection => {
                &&& edit::spans(pre)
                &&& edit::can_copy(pre, self.fragment)
            },
            Command::change_selection => {
                &&& edit::spans(pre)
                &&& edit::can_copy(pre, self.fragment)
            },
            Command::append_mode => select::can_bound(pre, self.next_grapheme_boundary),
            Command::open_below => open::can_open(pre, open::Open::Below, self.suggested_indent),
            Command::open_above => open::can_open(pre, open::Open::Above, self.suggested_indent),
            Command::normal_mode => select::can_bound(pre, self.prev_grapheme_boundary),
            Command::goto_definition => language::can_ask(pre, self.pos_to_lsp_pos),
            Command::goto_type_definition => language::can_ask(pre, self.pos_to_lsp_pos),
            Command::goto_implementation => language::can_ask(pre, self.pos_to_lsp_pos),
            Command::goto_reference => language::can_ask(pre, self.pos_to_lsp_pos),
            Command::goto_first_diag => goto::first_diag(
                pre.editor.doc.diagnostics@,
            ) matches Some(pos) ==> pos <= pre.text().len(),
            Command::goto_last_diag => goto::last_diag(
                pre.editor.doc.diagnostics@,
            ) matches Some(pos) ==> pos <= pre.text().len(),
            Command::goto_next_diag => goto::next_diag(
                pre.editor.doc.diagnostics@,
                pre.cursor(),
            ) matches Some(pos) ==> pos <= pre.text().len(),
            Command::goto_prev_diag => goto::prev_diag(
                pre.editor.doc.diagnostics@,
                pre.cursor(),
            ) matches Some(pos) ==> pos <= pre.text().len(),
            Command::signature_help => language::can_ask(pre, self.pos_to_lsp_pos),
            Command::insert_newline => insert::can_start_lines(pre, self.suggested_indent),
            Command::delete_char_backward => insert::can_bound(
                pre,
                self.nth_prev_grapheme_boundary,
            ),
            Command::delete_char_forward => insert::can_bound(pre, self.nth_next_grapheme_boundary),
            Command::delete_word_backward => movement::can_move_by_word(
                pre,
                self.move_prev_word_start,
            ),
            Command::yank => edit::can_copy(pre, self.fragment),
            Command::replace_with_yanked => edit::can_paste_over(pre),
            Command::paste_after => edit::can_paste_selected(pre, edit::Paste::After),
            Command::paste_before => edit::can_paste_selected(pre, edit::Paste::Before),
            Command::indent => strings::bytes(
                pre.editor.doc.indent_unit@,
            ) * pre.times() <= isize::MAX,
            Command::unindent => lines::can_unindent(pre),
            Command::join_selections => pre.text().len() > 0,
            Command::completion => language::can_ask(pre, self.pos_to_lsp_pos),
            Command::hover => language::can_ask(pre, self.pos_to_lsp_pos),
            Command::toggle_comments => call_requires(
                self.toggle_line_comments,
                (&pre.editor.doc.text, &pre.editor.doc.selection),
            ),
            Command::expand_selection => pre.editor.doc.has_syntax ==> call_requires(
                self.expand_selection,
                (&pre.editor.doc.text, &pre.editor.doc.selection),
            ),
            Command::match_brackets => pre.editor.doc.has_syntax ==> call_requires(
                self.find_matching_bracket,
                (&pre.editor.doc.text, pre.cursor()),
            ),
            _ => true,
        }
    }

    /// Whether `post` is what a command makes of `pre`.
    pub open spec fn runs(self, command: Command, pre: Context, post: Context) -> bool {
        match command {
            Command::move_char_left => movement::moves(
                pre,
                post,
                self.move_horizontally,
                Direction::Backward,
                Movement::Move,
            ),
            Command::move_char_right => movement::moves(
                pre,
                post,
                self.move_horizontally,
                Direction::Forward,
                Movement::Move,
            ),
            Command::move_line_up => movement::moves(
                pre,
                post,
                self.move_vertically,
                Direction::Backward,
                Movement::Move,
            ),
            Command::move_line_down => movement::moves(
                pre,
                post,
                self.move_vertically,
                Direction::Forward,
                Movement::Move,
            ),
            Command::move_line_end => post.selects(
                pre,
                movement::at_line_ends(pre, Movement::Move),
            ),
            Command::move_line_start => post.selects(
                pre,
                movement::at_line_starts(pre, Movement::Move),
            ),
            Command::move_first_nonwhitespace => post.selects(
                pre,
                movement::at_first_nonwhitespace(pre, Movement::Move),
            ),
            Command::move_next_word_start => movement::moves_by_word(
                pre,
                post,
                self.move_next_word_start,
                Movement::Move,
            ),
            Command::move_prev_word_start => movement::moves_by_word(
                pre,
                post,
                self.move_prev_word_start,
                Movement::Move,
            ),
            Command::move_next_word_end => movement::moves_by_word(
                pre,
                post,
                self.move_next_word_end,
                Movement::Move,
            ),
            Command::move_file_start => goto::jumps(pre, post, 0),
            Command::move_file_end => goto::jumps(
                pre,
                post,
                text::line_start(pre.text(), goto::last_text_line(pre.text())),
            ),
            Command::extend_next_word_start => movement::moves_by_word(
                pre,
                post,
                self.move_next_word_start,
                Movement::Extend,
            ),
            Command::extend_prev_word_start => movement::moves_by_word(
                pre,
                post,
                self.move_prev_word_start,
                Movement::Extend,
            ),
            Command::extend_next_word_end => movement::moves_by_word(
                pre,
                post,
                self.move_next_word_end,
                Movement::Extend,
            ),
            Command::find_till_char => post == pre.awaiting(
                select::char_search(pre, CharSearch::NthNext, false, false),
            ),
            Command::find_next_char => post == pre.awaiting(
                select::char_search(pre, CharSearch::NthNext, true, false),
            ),
            Command::extend_till_char => post == pre.awaiting(
                select::char_search(pre, CharSearch::NthNext, false, true),
            ),
            Command::extend_next_char => post == pre.awaiting(
                select::char_search(pre, CharSearch::NthNext, true, true),
            ),
            Command::till_prev_char => post == pre.awaiting(
                select::char_search(pre, CharSearch::NthPrev, false, false),
            ),
            Command::find_prev_char => post == pre.awaiting(
                select::char_search(pre, CharSearch::NthPrev, true, false),
            ),
            Command::extend_till_prev_char => post == pre.awaiting(
                select::char_search(pre, CharSearch::NthPrev, false, true),
            ),
            Command::extend_prev_char => post == pre.awaiting(
                select::char_search(pre, CharSearch::NthPrev, true, true),
            ),
            Command::extend_first_nonwhitespace => post.selects(
                pre,
                movement::at_first_nonwhitespace(pre, Movement::Extend),
            ),
            Command::replace => post == pre.awaiting(NextKey::Replace),
            Command::page_up => view::scrolls(
                pre,
                post,
                pre.editor.view.height as usize,
                Direction::Backward,
                self.coords_at_pos,
                self.pos_at_coords,
                self.last_line_of,
            ),
            Command::page_down => view::scrolls(
                pre,
                post,
                pre.editor.view.height as usize,
                Direction::Forward,
                self.coords_at_pos,
                self.pos_at_coords,
                self.last_line_of,
            ),
            Command::half_page_up => view::scrolls(
                pre,
                post,
                (pre.editor.view.height / 2) as usize,
                Direction::Backward,
                self.coords_at_pos,
                self.pos_at_coords,
                self.last_line_of,
            ),
            Command::half_page_down => view::scrolls(
                pre,
                post,
                (pre.editor.view.height / 2) as usize,
                Direction::Forward,
                self.coords_at_pos,
                self.pos_at_coords,
                self.last_line_of,
            ),
            Command::extend_char_left => movement::moves(
                pre,
                post,
                self.move_horizontally,
                Direction::Backward,
                Movement::Extend,
            ),
            Command::extend_char_right => movement::moves(
                pre,
                post,
                self.move_horizontally,
                Direction::Forward,
                Movement::Extend,
            ),
            Command::extend_line_up => movement::moves(
                pre,
                post,
                self.move_vertically,
                Direction::Backward,
                Movement::Extend,
            ),
            Command::extend_line_down => movement::moves(
                pre,
                post,
                self.move_vertically,
                Direction::Forward,
                Movement::Extend,
            ),
            Command::extend_line_end => post.selects(
                pre,
                movement::at_line_ends(pre, Movement::Extend),
            ),
            Command::extend_line_start => post.selects(
                pre,
                movement::at_line_starts(pre, Movement::Extend),
            ),
            Command::select_all => post.selects(pre, select::whole_text(pre.text())),
            Command::select_regex => post == pre.with_layer(
                Some(Layer::RegexPrompt(RegexPrompt::Select)),
            ),
            Command::split_selection => post == pre.with_layer(
                Some(Layer::RegexPrompt(RegexPrompt::Split)),
            ),
            Command::split_selection_on_newline => select::splits(
                pre,
                post,
                "\\n",
                self.split_on_matches,
            ),
            Command::search => post == pre.with_layer(
                Some(Layer::RegexPrompt(RegexPrompt::Search)),
            ),
            Command::search_next => exists|searched: bool| #[trigger] search::searches_again(
                pre,
                post,
                false,
                self.push,
                searched,
            ),
            Command::extend_search_next => exists|searched: bool| #[trigger] search::searches_again(
                pre,
                post,
                true,
                self.push,
                searched,
            ),
            Command::search_selection => exists|searched: bool| #[trigger] search::searches_for_selection(
                pre,
                post,
                self.fragment,
                self.push,
                searched,
            ),
            Command::select_line => post.selects(pre, select::selected_lines(pre)),
            Command::extend_line => post.selects(
                pre,
                SelectionView::single(
                    text::line_start(
                        pre.text(),
                        text::line_of(pre.text(), pre.selection().primary().anchor as int),
                    ) as usize,
                    select::before_line(
                        pre.text(),
                        select::extended_line(pre.text(), pre.selection().primary()) + 1,
                    ) as usize,
                ),
            ),
            Command::delete_selection => edit::copies_and_asks(
                pre.out_of_select_mode(),
                post,
                pre.selected_register,
                self.fragment,
                edit::edit_step(edit::deletion(pre.text(), pre.selection().ranges)),
            ),
            Command::change_selection => edit::copies_and_asks(
                pre.in_mode(Mode::Insert),
                post,
                pre.selected_register,
                self.fragment,
                seq![EffectView::Apply(edit::deletion(pre.text(), pre.selection().ranges))],
            ),
            Command::collapse_selection => post.selects(
                pre,
                pre.selection().mapped(|range: Range| select::collapsed(range)),
            ),
            Command::flip_selections => post.selects(
                pre,
                pre.selection().mapped(|range: Range| select::flipped(range)),
            ),
            Command::insert_mode => post.selects(
                pre.in_mode(Mode::Insert),
                pre.selection().mapped(|range: Range| select::at_start(range)),
            ),
            Command::append_mode => select::appends(pre, post, self.next_grapheme_boundary),
            Command::command_mode => post == pre.with_layer(Some(Layer::CommandPrompt)),
            Command::file_picker => {
                &&& post == pre.with_layer(post.callback)
                &&& post.layer() == Some(LayerView::FilePicker(window::picker_root(self.root)))
            },
            Command::buffer_picker => {
                &&& post == pre.with_layer(post.callback)
                &&& post.layer() == Some(
                    LayerView::BufferPicker(
                        window::buffer_items(pre.editor.documents@),
                        pre.editor.view.doc,
                    ),
                )
            },
            Command::symbol_picker => language::asked_for_symbols(pre, post),
            Command::prepend_to_line => post.selects(
                pre.in_mode(Mode::Insert),
                movement::at_first_nonwhitespace(pre, Movement::Move),
            ),
            Command::append_to_line => post.selects(
                pre.in_mode(Mode::Insert),
                edit::at_line_ends(pre),
            ),
            Command::open_below => open::opens(pre, post, open::Open::Below, self.suggested_indent),
            Command::open_above => open::opens(pre, post, open::Open::Above, self.suggested_indent),
            Command::normal_mode => select::leaves_mode(pre, post, self.prev_grapheme_boundary),
            Command::goto_mode => goto::goes_to_line(pre, post),
            Command::select_mode => post == pre.in_mode(Mode::Select),
            Command::exit_select_mode => post == pre.in_mode(Mode::Normal),
            Command::goto_definition => language::asked(
                pre,
                post,
                language::Topic::Definition,
                self.pos_to_lsp_pos,
            ),
            Command::goto_type_definition => language::asked(
                pre,
                post,
                language::Topic::TypeDefinition,
                self.pos_to_lsp_pos,
            ),
            Command::goto_implementation => language::asked(
                pre,
                post,
                language::Topic::Implementation,
                self.pos_to_lsp_pos,
            ),
            Command::goto_reference => language::asked(
                pre,
                post,
                language::Topic::References,
                self.pos_to_lsp_pos,
            ),
            Command::goto_first_diag => goto::goes_to(
                pre,
                post,
                goto::first_diag(pre.editor.doc.diagnostics@),
            ),
            Command::goto_last_diag => goto::goes_to(
                pre,
                post,
                goto::last_diag(pre.editor.doc.diagnostics@),
            ),
            Command::goto_next_diag => goto::goes_to(
                pre,
                post,
                goto::next_diag(pre.editor.doc.diagnostics@, pre.cursor()),
            ),
            Command::goto_prev_diag => goto::goes_to(
                pre,
                post,
                goto::prev_diag(pre.editor.doc.diagnostics@, pre.cursor()),
            ),
            Command::signature_help => language::asked(
                pre,
                post,
                language::Topic::SignatureHelp,
                self.pos_to_lsp_pos,
            ),
            Command::insert_tab => post.asks(
                pre,
                seq![
                    EffectView::Apply(
                        insert::inserts(pre.selection().ranges, pre.editor.doc.indent_unit@),
                    ),
                ],
            ),
            Command::insert_newline => insert::starts_lines(
                pre,
                post,
                self.suggested_indent,
                self.pairs@,
            ),
            Command::delete_char_backward => insert::removes(
                pre,
                post,
                self.nth_prev_grapheme_boundary,
                true,
            ),
            Command::delete_char_forward => insert::removes(
                pre,
                post,
                self.nth_next_grapheme_boundary,
                false,
            ),
            Command::delete_word_backward => insert::deletes_words(
                pre,
                post,
                self.move_prev_word_start,
            ),
            Command::undo => post.asks(pre, seq![EffectView::Undo]),
            Command::redo => post.asks(pre, seq![EffectView::Redo]),
            Command::yank => {
                &&& edit::copies_and_asks(
                    pre.saying(post.editor.status_msg),
                    post,
                    pre.selected_register,
                    self.fragment,
                    Seq::empty(),
                )
                &&& post.editor.message() == Some(
                    (
                        edit::yank_message(pre.selection().ranges.len(), pre.selected_register),
                        Severity::Info,
                    ),
                )
            },
            Command::replace_with_yanked => edit::pastes_over(pre, post),
            Command::paste_after => edit::pastes(pre, post, edit::Paste::After),
            Command::paste_before => edit::pastes(pre, post, edit::Paste::Before),
            Command::indent => post.asks(
                pre,
                seq![
                    EffectView::Apply(
                        TransactionView::of(
                            lines::indent_changes(
                                pre.text(),
                                lines::touched_lines(pre.text(), pre.selection().ranges),
                                strings::repeated(pre.editor.doc.indent_unit@, pre.times() as nat),
                            ),
                        ),
                    ),
                    EffectView::AppendChangesToHistory,
                ],
            ),
            Command::unindent => post.asks(
                pre,
                seq![
                    EffectView::Apply(
                        TransactionView::of(
                            lines::unindent_changes(
                                pre.text(),
                                lines::touched_lines(pre.text(), pre.selection().ranges),
                                pre.editor.doc.tab_width as int,
                                pre.times() * pre.editor.doc.tab_width,
                            ),
                        ),
                    ),
                    EffectView::AppendChangesToHistory,
                ],
            ),
            Command::format_selections => edit::closes_changes(pre, post),
            Command::join_selections => post.asks(
                pre,
                seq![
                    EffectView::Apply(
                        TransactionView::of(
                            lines::join_changes(
                                pre.text(),
                                lines::spanned_lines(pre.text(), pre.selection().ranges, true),
                            ),
                        ),
                    ),
                    EffectView::AppendChangesToHistory,
                ],
            ),
            Command::keep_selections => post == pre.with_layer(
                Some(Layer::RegexPrompt(RegexPrompt::Keep)),
            ),
            Command::keep_primary_selection => post.selects(
                pre,
                SelectionView::single(
                    pre.selection().primary().anchor,
                    pre.selection().primary().head,
                ),
            ),
            Command::save => post.asks(pre, seq![EffectView::Save]),
            Command::completion => language::asked(
                pre,
                post,
                language::Topic::Completion,
                self.pos_to_lsp_pos,
            ),
            Command::hover => language::asked(
                pre,
                post,
                language::Topic::Hover,
                self.pos_to_lsp_pos,
            ),
            Command::toggle_comments => edit::comments(pre, post, self.toggle_line_comments),
            Command::expand_selection => edit::expands_syntax(pre, post, self.expand_selection),
            Command::match_brackets => edit::matches_bracket(pre, post, self.find_matching_bracket),
            Command::jump_forward => post.asks(pre, seq![EffectView::JumpForward(pre.times())]),
            Command::jump_backward => post.asks(pre, seq![EffectView::JumpBackward(pre.times())]),
            Command::window_mode => post == pre.awaiting(NextKey::Window),
            Command::rotate_view => post.asks(pre, seq![EffectView::FocusNext]),
            Command::hsplit => post.asks(pre, window::split_effects(pre, Action::HorizontalSplit)),
            Command::vsplit => post.asks(pre, window::split_effects(pre, Action::VerticalSplit)),
            Command::wclose => post.asks(pre, seq![EffectView::Close(pre.editor.view.id, false)]),
            Command::select_register => post == pre.awaiting(NextKey::SelectRegister),
            Command::space_mode => post == pre.awaiting(NextKey::Space),
            Command::view_mode => post == pre.awaiting(NextKey::View),
            Command::left_bracket_mode => post == pre.awaiting(NextKey::LeftBracket),
            Command::right_bracket_mode => post == pre.awaiting(NextKey::RightBracket),
        }
    }
}

impl Command {
    /// Runs the command with what the editor tells it.
    pub fn execute<
        MH: Fn(&Rope, Range, Direction, usize, Movement) -> Range,
        MV: Fn(&Rope, Range, Direction, usize, Movement) -> Range,
        NW: Fn(&Rope, Range, usize) -> Range,
        PW: Fn(&Rope, Range, usize) -> Range,
        WE: Fn(&Rope, Range, usize) -> Range,
        NG: Fn(&Rope, usize) -> usize,
        PG: Fn(&Rope, usize) -> usize,
        NN: Fn(&Rope, usize, usize) -> usize,
        NP: Fn(&Rope, usize, usize) -> usize,
        CP: Fn(&Rope, usize) -> Position,
        PC: Fn(&Rope, Position) -> usize,
        LL: Fn(&Window, &Rope) -> usize,
        SM: Fn(&Rope, &Selection, &str) -> Selection,
        PU: Fn(&Selection, Range) -> Selection,
        FR: Fn(&Rope, Range) -> String,
        SI: Fn(&Rope, usize, bool) -> usize,
        TC: Fn(&Rope, &Selection) -> Transaction,
        ES: Fn(&Rope, &Selection) -> Selection,
        MB: Fn(&Rope, usize) -> Option<usize>,
        LP: Fn(&Rope, usize, OffsetEncoding) -> LspPosition,
    >(
        &self,
        cx: &mut Context,
        outside: Outside<
            MH,
            MV,
            NW,
            PW,
            WE,
            NG,
            PG,
            NN,
            NP,
            CP,
            PC,
            LL,
            SM,
            PU,
            FR,
            SI,
            TC,
            ES,
            MB,
            LP,
        >,
    )
        requires
            old(cx).wf(),
            outside.can_run(*self, *old(cx)),
        ensures
            outside.runs(*self, *old(cx), *final(cx)),
    {
        match *self {
            Command::move_char_left => movement::move_char_left(cx, outside.move_horizontally),
            Command::move_char_right => movement::move_char_right(cx, outside.move_horizontally),
            Command::move_line_up => movement::move_line_up(cx, outside.move_vertically),
            Command::move_line_down => movement::move_line_down(cx, outside.move_vertically),
            Command::move_line_end => movement::move_line_end(cx),
            Command::move_line_start => movement::move_line_start(cx),
            Command::move_first_nonwhitespace => movement::move_first_nonwhitespace(cx),
            Command::move_next_word_start => movement::move_next_word_start(
                cx,
                outside.move_next_word_start,
            ),
            Command::move_prev_word_start => movement::move_prev_word_start(
                cx,
                outside.move_prev_word_start,
            ),
            Command::move_next_word_end => movement::move_next_word_end(
                cx,
                outside.move_next_word_end,
            ),
            Command::move_file_start => goto::move_file_start(cx),
            Command::move_file_end => goto::move_file_end(cx),
            Command::extend_next_word_start => movement::extend_next_word_start(
                cx,
                outside.move_next_word_start,
            ),
            Command::extend_prev_word_start => movement::extend_prev_word_start(
                cx,
                outside.move_prev_word_start,
            ),
            Command::extend_next_word_end => movement::extend_next_word_end(
                cx,
                outside.move_next_word_end,
            ),
            Command::find_till_char => select::find_till_char(cx),
            Command::find_next_char => select::find_next_char(cx),
            Command::extend_till_char => select::extend_till_char(cx),
            Command::extend_next_char => select::extend_next_char(cx),
            Command::till_prev_char => select::till_prev_char(cx),
            Command::find_prev_char => select::find_prev_char(cx),
            Command::extend_till_prev_char => select::extend_till_prev_char(cx),
            Command::extend_prev_char => select::extend_prev_char(cx),
            Command::extend_first_nonwhitespace => movement::extend_first_nonwhitespace(cx),
            Command::replace => edit::replace(cx),
            Command::page_up => view::page_up(
                cx,
                outside.coords_at_pos,
                outside.pos_at_coords,
                outside.last_line_of,
            ),
            Command::page_down => view::page_down(
                cx,
                outside.coords_at_pos,
                outside.pos_at_coords,
                outside.last_line_of,
            ),
            Command::half_page_up => view::half_page_up(
                cx,
                outside.coords_at_pos,
                outside.pos_at_coords,
                outside.last_line_of,
            ),
            Command::half_page_down => view::half_page_down(
                cx,
                outside.coords_at_pos,
                outside.pos_at_coords,
                outside.last_line_of,
            ),
            Command::extend_char_left => movement::extend_char_left(cx, outside.move_horizontally),
            Command::extend_char_right => movement::extend_char_right(
                cx,
                outside.move_horizontally,
            ),
            Command::extend_line_up => movement::extend_line_up(cx, outside.move_vertically),
            Command::extend_line_down => movement::extend_line_down(cx, outside.move_vertically),
            Command::extend_line_end => movement::extend_line_end(cx),
            Command::extend_line_start => movement::extend_line_start(cx),
            Command::select_all => select::select_all(cx),
            Command::select_regex => select::select_regex(cx),
            Command::split_selection => select::split_selection(cx),
            Command::split_selection_on_newline => select::split_selection_on_newline(
                cx,
                outside.split_on_matches,
            ),
            Command::search => search::search(cx),
            Command::search_next => {
                let _ = search::search_next(cx, &outside.push);
            },
            Command::extend_search_next => {
                let _ = search::extend_search_next(cx, &outside.push);
            },
            Command::search_selection => {
                let _ = search::search_selection(cx, outside.fragment, &outside.push);
            },
            Command::select_line => select::select_line(cx),
            Command::extend_line => select::extend_line(cx),
            Command::delete_selection => edit::delete_selection(cx, outside.fragment),
            Command::change_selection => edit::change_selection(cx, outside.fragment),
            Command::collapse_selection => select::collapse_selection(cx),
            Command::flip_selections => select::flip_selections(cx),
            Command::insert_mode => select::insert_mode(cx),
            Command::append_mode => select::append_mode(cx, outside.next_grapheme_boundary),
            Command::command_mode => cmd::command_mode(cx),
            Command::file_picker => window::file_picker(cx, outside.root),
            Command::buffer_picker => window::buffer_picker(cx),
            Command::symbol_picker => language::symbol_picker(cx),
            Command::prepend_to_line => edit::prepend_to_line(cx),
            Command::append_to_line => edit::append_to_line(cx),
            Command::open_below => open::open_below(cx, outside.suggested_indent),
            Command::open_above => open::open_above(cx, outside.suggested_indent),
            Command::normal_mode => select::normal_mode(cx, outside.prev_grapheme_boundary),
            Command::goto_mode => goto::goto_mode(cx),
            Command::select_mode => select::select_mode(cx),
            Command::exit_select_mode => select::exit_select_mode(cx),
            Command::goto_definition => language::goto_definition(cx, outside.pos_to_lsp_pos),
            Command::goto_type_definition => language::goto_type_definition(
                cx,
                outside.pos_to_lsp_pos,
            ),
            Command::goto_implementation => language::goto_implementation(
                cx,
                outside.pos_to_lsp_pos,
            ),
            Command::goto_reference => language::goto_reference(cx, outside.pos_to_lsp_pos),
            Command::goto_first_diag => goto::goto_first_diag(cx),
            Command::goto_last_diag => goto::goto_last_diag(cx),
            Command::goto_next_diag => goto::goto_next_diag(cx),
            Command::goto_prev_diag => goto::goto_prev_diag(cx),
            Command::signature_help => language::signature_help(cx, outside.pos_to_lsp_pos),
            Command::insert_tab => insert::insert_tab(cx),
            Command::insert_newline => insert::insert_newline(
                cx,
                outside.suggested_indent,
                &outside.pairs,
            ),
            Command::delete_char_backward => insert::delete_char_backward(
                cx,
                outside.nth_prev_grapheme_boundary,
            ),
            Command::delete_char_forward => insert::delete_char_forward(
                cx,
                outside.nth_next_grapheme_boundary,
            ),
            Command::delete_word_backward => insert::delete_word_backward(
                cx,
                outside.move_prev_word_start,
            ),
            Command::undo => edit::undo(cx),
            Command::redo => edit::redo(cx),
            Command::yank => edit::yank(cx, outside.fragment),
            Command::replace_with_yanked => edit::replace_with_yanked(cx),
            Command::paste_after => edit::paste_after(cx),
            Command::paste_before => edit::paste_before(cx),
            Command::indent => lines::indent(cx),
            Command::unindent => lines::unindent(cx),
            Command::format_selections => edit::format_selections(cx),
            Command::join_selections => lines::join_selections(cx),
            Command::keep_selections => select::keep_selections(cx),
            Command::keep_primary_selection => select::keep_primary_selection(cx),
            Command::save => edit::save(cx),
            Command::completion => language::completion(cx, outside.pos_to_lsp_pos),
            Command::hover => language::hover(cx, outside.pos_to_lsp_pos),
            Command::toggle_comments => edit::toggle_comments(cx, outside.toggle_line_comments),
            Command::expand_selection => edit::expand_selection(cx, outside.expand_selection),
            Command::match_brackets => edit::match_brackets(cx, outside.find_matching_bracket),
            Command::jump_forward => goto::jump_forward(cx),
            Command::jump_backward => goto::jump_backward(cx),
            Command::window_mode => window::window_mode(cx),
            Command::rotate_view => window::rotate_view(cx),
            Command::hsplit => window::hsplit(cx),
            Command::vsplit => window::vsplit(cx),
            Command::wclose => window::wclose(cx),
            Command::select_register => window::select_register(cx),
            Command::space_mode => window::space_mode(cx),
            Command::view_mode => view::view_mode(cx),
            Command::left_bracket_mode => goto::left_bracket_mode(cx),
            Command::right_bracket_mode => goto::right_bracket_mode(cx),
        }
    }
}

} // verus!
