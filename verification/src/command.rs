//! The commands by name.

use crate::strings;
use vstd::prelude::*;
use vstd::string::StringExecFns;

verus! {

/// A command that a key can be bound to.
#[allow(non_camel_case_types)]
#[derive(Clone, Copy, Debug, PartialEq, Eq, Structural)]
pub enum Command {
    move_char_left,
    move_char_right,
    move_line_up,
    move_line_down,
    move_line_end,
    move_line_start,
    move_first_nonwhitespace,
    move_next_word_start,
    move_prev_word_start,
    move_next_word_end,
    move_file_start,
    move_file_end,
    extend_next_word_start,
    extend_prev_word_start,
    extend_next_word_end,
    find_till_char,
    find_next_char,
    extend_till_char,
    extend_next_char,
    till_prev_char,
    find_prev_char,
    extend_till_prev_char,
    extend_prev_char,
    extend_first_nonwhitespace,
    replace,
    page_up,
    page_down,
    half_page_up,
    half_page_down,
    extend_char_left,
    extend_char_right,
    extend_line_up,
    extend_line_down,
    extend_line_end,
    extend_line_start,
    select_all,
    select_regex,
    split_selection,
    split_selection_on_newline,
    search,
    search_next,
    extend_search_next,
    search_selection,
    select_line,
    extend_line,
    delete_selection,
    change_selection,
    collapse_selection,
    flip_selections,
    insert_mode,
    append_mode,
    command_mode,
    file_picker,
    buffer_picker,
    symbol_picker,
    prepend_to_line,
    append_to_line,
    open_below,
    open_above,
    normal_mode,
    goto_mode,
    select_mode,
    exit_select_mode,
    goto_definition,
    goto_type_definition,
    goto_implementation,
    goto_reference,
    goto_first_diag,
    goto_last_diag,
    goto_next_diag,
    goto_prev_diag,
    signature_help,
    insert_tab,
    insert_newline,
    delete_char_backward,
    delete_char_forward,
    delete_word_backward,
    undo,
    redo,
    yank,
    replace_with_yanked,
    paste_after,
    paste_before,
    indent,
    unindent,
    format_selections,
    join_selections,
    keep_selections,
    keep_primary_selection,
    save,
    completion,
    hover,
    toggle_comments,
    expand_selection,
    match_brackets,
    jump_forward,
    jump_backward,
    window_mode,
    rotate_view,
    hsplit,
    vsplit,
    wclose,
    select_register,
    space_mode,
    view_mode,
    left_bracket_mode,
    right_bracket_mode,
}

/// Every command, in the order in which they are listed.
pub const COMMAND_LIST: [Command; 107] = [
    Command::move_char_left,
    Command::move_char_right,
    Command::move_line_up,
    Command::move_line_down,
    Command::move_line_end,
    Command::move_line_start,
    Command::move_first_nonwhitespace,
    Command::move_next_word_start,
    Command::move_prev_word_start,
    Command::move_next_word_end,
    Command::move_file_start,
    Command::move_file_end,
    Command::extend_next_word_start,
    Command::extend_prev_word_start,
    Command::extend_next_word_end,
    Command::find_till_char,
    Command::find_next_char,
    Command::extend_till_char,
    Command::extend_next_char,
    Command::till_prev_char,
    Command::find_prev_char,
    Command::extend_till_prev_char,
    Command::extend_prev_char,
    Command::extend_first_nonwhitespace,
    Command::replace,
    Command::page_up,
    Command::page_down,
    Command::half_page_up,
    Command::half_page_down,
    Command::extend_char_left,
    Command::extend_char_right,
    Command::extend_line_up,
    Command::extend_line_down,
    Command::extend_line_end,
    Command::extend_line_start,
    Command::select_all,
    Command::select_regex,
    Command::split_selection,
    Command::split_selection_on_newline,
    Command::search,
    Command::search_next,
    Command::extend_search_next,
    Command::search_selection,
    Command::select_line,
    Command::extend_line,
    Command::delete_selection,
    Command::change_selection,
    Command::collapse_selection,
    Command::flip_selections,
    Command::insert_mode,
    Command::append_mode,
    Command::command_mode,
    Command::file_picker,
    Command::buffer_picker,
    Command::symbol_picker,
    Command::prepend_to_line,
    Command::append_to_line,
    Command::open_below,
    Command::open_above,
    Command::normal_mode,
    Command::goto_mode,
    Command::select_mode,
    Command::exit_select_mode,
    Command::goto_definition,
    Command::goto_type_definition,
    Command::goto_implementation,
    Command::goto_reference,
    Command::goto_first_diag,
    Command::goto_last_diag,
    Command::goto_next_diag,
    Command::goto_prev_diag,
    Command::signature_help,
    Command::insert_tab,
    Command::insert_newline,
    Command::delete_char_backward,
    Command::delete_char_forward,
    Command::delete_word_backward,
    Command::undo,
    Command::redo,
    Command::yank,
    Command::replace_with_yanked,
    Command::paste_after,
    Command::paste_before,
    Command::indent,
    Command::unindent,
    Command::format_selections,
    Command::join_selections,
    Command::keep_selections,
    Command::keep_primary_selection,
    Command::save,
    Command::completion,
    Command::hover,
    Command::toggle_comments,
    Command::expand_selection,
    Command::match_brackets,
    Command::jump_forward,
    Command::jump_backward,
    Command::window_mode,
    Command::rotate_view,
    Command::hsplit,
    Command::vsplit,
    Command::wclose,
    Command::select_register,
    Command::space_mode,
    Command::view_mode,
    Command::left_bracket_mode,
    Command::right_bracket_mode,
];

impl Command {
    /// The name under which a command is known.
    pub open spec fn named(self) -> Seq<char> {
        match self {
            Command::move_char_left => "move_char_left"@,
            Command::move_char_right => "move_char_right"@,
            Command::move_line_up => "move_line_up"@,
            Command::move_line_down => "move_line_down"@,
            Command::move_line_end => "move_line_end"@,
            Command::move_line_start => "move_line_start"@,
            Command::move_first_nonwhitespace => "move_first_nonwhitespace"@,
            Command::move_next_word_start => "move_next_word_start"@,
            Command::move_prev_word_start => "move_prev_word_start"@,
            Command::move_next_word_end => "move_next_word_end"@,
            Command::move_file_start => "move_file_start"@,
            Command::move_file_end => "move_file_end"@,
            Command::extend_next_word_start => "extend_next_word_start"@,
            Command::extend_prev_word_start => "extend_prev_word_start"@,
            Command::extend_next_word_end => "extend_next_word_end"@,
            Command::find_till_char => "find_till_char"@,
            Command::find_next_char => "find_next_char"@,
            Command::extend_till_char => "extend_till_char"@,
            Command::extend_next_char => "extend_next_char"@,
            Command::till_prev_char => "till_prev_char"@,
            Command::find_prev_char => "find_prev_char"@,
            Command::extend_till_prev_char => "extend_till_prev_char"@,
            Command::extend_prev_char => "extend_prev_char"@,
            Command::extend_first_nonwhitespace => "extend_first_nonwhitespace"@,
            Command::replace => "replace"@,
            Command::page_up => "page_up"@,
            Command::page_down => "page_down"@,
            Command::half_page_up => "half_page_up"@,
            Command::half_page_down => "half_page_down"@,
            Command::extend_char_left => "extend_char_left"@,
            Command::extend_char_right => "extend_char_right"@,
            Command::extend_line_up => "extend_line_up"@,
            Command::extend_line_down => "extend_line_down"@,
            Command::extend_line_end => "extend_line_end"@,
            Command::extend_line_start => "extend_line_start"@,
            Command::select_all => "select_all"@,
            Command::select_regex => "select_regex"@,
            Command::split_selection => "split_selection"@,
            Command::split_selection_on_newline => "split_selection_on_newline"@,
            Command::search => "search"@,
            Command::search_next => "search_next"@,
            Command::extend_search_next => "extend_search_next"@,
            Command::search_selection => "search_selection"@,
            Command::select_line => "select_line"@,
            Command::extend_line => "extend_line"@,
            Command::delete_selection => "delete_selection"@,
            Command::change_selection => "change_selection"@,
            Command::collapse_selection => "collapse_selection"@,
            Command::flip_selections => "flip_selections"@,
            Command::insert_mode => "insert_mode"@,
            Command::append_mode => "append_mode"@,
            Command::command_mode => "command_mode"@,
            Command::file_picker => "file_picker"@,
            Command::buffer_picker => "buffer_picker"@,
            Command::symbol_picker => "symbol_picker"@,
            Command::prepend_to_line => "prepend_to_line"@,
            Command::append_to_line => "append_to_line"@,
            Command::open_below => "open_below"@,
            Command::open_above => "open_above"@,
            Command::normal_mode => "normal_mode"@,
            Command::goto_mode => "goto_mode"@,
            Command::select_mode => "select_mode"@,
            Command::exit_select_mode => "exit_select_mode"@,
            Command::goto_definition => "goto_definition"@,
            Command::goto_type_definition => "goto_type_definition"@,
            Command::goto_implementation => "goto_implementation"@,
            Command::goto_reference => "goto_reference"@,
            Command::goto_first_diag => "goto_first_diag"@,
            Command::goto_last_diag => "goto_last_diag"@,
            Command::goto_next_diag => "goto_next_diag"@,
            Command::goto_prev_diag => "goto_prev_diag"@,
            Command::signature_help => "signature_help"@,
            Command::insert_tab => "insert_tab"@,
            Command::insert_newline => "insert_newline"@,
            Command::delete_char_backward => "delete_char_backward"@,
            Command::delete_char_forward => "delete_char_forward"@,
            Command::delete_word_backward => "delete_word_backward"@,
            Command::undo => "undo"@,
            Command::redo => "redo"@,
            Command::yank => "yank"@,
            Command::replace_with_yanked => "replace_with_yanked"@,
            Command::paste_after => "paste_after"@,
            Command::paste_before => "paste_before"@,
            Command::indent => "indent"@,
            Command::unindent => "unindent"@,
            Command::format_selections => "format_selections"@,
            Command::join_selections => "join_selections"@,
            Command::keep_selections => "keep_selections"@,
            Command::keep_primary_selection => "keep_primary_selection"@,
            Command::save => "save"@,
            Command::completion => "completion"@,
            Command::hover => "hover"@,
            Command::toggle_comments => "toggle_comments"@,
            Command::expand_selection => "expand_selection"@,
            Command::match_brackets => "match_brackets"@,
            Command::jump_forward => "jump_forward"@,
            Command::jump_backward => "jump_backward"@,
            Command::window_mode => "window_mode"@,
            Command::rotate_view => "rotate_view"@,
            Command::hsplit => "hsplit"@,
            Command::vsplit => "vsplit"@,
            Command::wclose => "wclose"@,
            Command::select_register => "select_register"@,
            Command::space_mode => "space_mode"@,
            Command::view_mode => "view_mode"@,
            Command::left_bracket_mode => "left_bracket_mode"@,
            Command::right_bracket_mode => "right_bracket_mode"@,
        }
    }

    /// Where a command stands in the list.
    pub open spec fn index(self) -> int {
        match self {
            Command::move_char_left => 0,
            Command::move_char_right => 1,
            Command::move_line_up => 2,
            Command::move_line_down => 3,
            Command::move_line_end => 4,
            Command::move_line_start => 5,
            Command::move_first_nonwhitespace => 6,
            Command::move_next_word_start => 7,
            Command::move_prev_word_start => 8,
            Command::move_next_word_end => 9,
            Command::move_file_start => 10,
            Command::move_file_end => 11,
            Command::extend_next_word_start => 12,
            Command::extend_prev_word_start => 13,
            Command::extend_next_word_end => 14,
            Command::find_till_char => 15,
            Command::find_next_char => 16,
            Command::extend_till_char => 17,
            Command::extend_next_char => 18,
            Command::till_prev_char => 19,
            Command::find_prev_char => 20,
            Command::extend_till_prev_char => 21,
            Command::extend_prev_char => 22,
            Command::extend_first_nonwhitespace => 23,
            Command::replace => 24,
            Command::page_up => 25,
            Command::page_down => 26,
            Command::half_page_up => 27,
            Command::half_page_down => 28,
            Command::extend_char_left => 29,
            Command::extend_char_right => 30,
            Command::extend_line_up => 31,
            Command::extend_line_down => 32,
            Command::extend_line_end => 33,
            Command::extend_line_start => 34,
            Command::select_all => 35,
            Command::select_regex => 36,
            Command::split_selection => 37,
            Command::split_selection_on_newline => 38,
            Command::search => 39,
            Command::search_next => 40,
            Command::extend_search_next => 41,
            Command::search_selection => 42,
            Command::select_line => 43,
            Command::extend_line => 44,
            Command::delete_selection => 45,
            Command::change_selection => 46,
            Command::collapse_selection => 47,
            Command::flip_selections => 48,
            Command::insert_mode => 49,
            Command::append_mode => 50,
            Command::command_mode => 51,
            Command::file_picker => 52,
            Command::buffer_picker => 53,
            Command::symbol_picker => 54,
            Command::prepend_to_line => 55,
            Command::append_to_line => 56,
            Command::open_below => 57,
            Command::open_above => 58,
            Command::normal_mode => 59,
            Command::goto_mode => 60,
            Command::select_mode => 61,
            Command::exit_select_mode => 62,
            Command::goto_definition => 63,
            Command::goto_type_definition => 64,
            Command::goto_implementation => 65,
            Command::goto_reference => 66,
            Command::goto_first_diag => 67,
            Command::goto_last_diag => 68,
            Command::goto_next_diag => 69,
            Command::goto_prev_diag => 70,
            Command::signature_help => 71,
            Command::insert_tab => 72,
            Command::insert_newline => 73,
            Command::delete_char_backward => 74,
            Command::delete_char_forward => 75,
            Command::delete_word_backward => 76,
            Command::undo => 77,
            Command::redo => 78,
            Command::yank => 79,
            Command::replace_with_yanked => 80,
            Command::paste_after => 81,
            Command::paste_before => 82,
            Command::indent => 83,
            Command::unindent => 84,
            Command::format_selections => 85,
            Command::join_selections => 86,
            Command::keep_selections => 87,
            Command::keep_primary_selection => 88,
            Command::save => 89,
            Command::completion => 90,
            Command::hover => 91,
            Command::toggle_comments => 92,
            Command::expand_selection => 93,
            Command::match_brackets => 94,
            Command::jump_forward => 95,
            Command::jump_backward => 96,
            Command::window_mode => 97,
            Command::rotate_view => 98,
            Command::hsplit => 99,
            Command::vsplit => 100,
            Command::wclose => 101,
            Command::select_register => 102,
            Command::space_mode => 103,
            Command::view_mode => 104,
            Command::left_bracket_mode => 105,
            Command::right_bracket_mode => 106,
        }
    }

    pub fn name(&self) -> (name: &'static str)
        ensures
            name@ == self.named(),
    {
        match self {
            Command::move_char_left => "move_char_left",
            Command::move_char_right => "move_char_right",
            Command::move_line_up => "move_line_up",
            Command::move_line_down => "move_line_down",
            Command::move_line_end => "move_line_end",
            Command::move_line_start => "move_line_start",
            Command::move_first_nonwhitespace => "move_first_nonwhitespace",
            Command::move_next_word_start => "move_next_word_start",
            Command::move_prev_word_start => "move_prev_word_start",
            Command::move_next_word_end => "move_next_word_end",
            Command::move_file_start => "move_file_start",
            Command::move_file_end => "move_file_end",
            Command::extend_next_word_start => "extend_next_word_start",
            Command::extend_prev_word_start => "extend_prev_word_start",
            Command::extend_next_word_end => "extend_next_word_end",
            Command::find_till_char => "find_till_char",
            Command::find_next_char => "find_next_char",
            Command::extend_till_char => "extend_till_char",
            Command::extend_next_char => "extend_next_char",
            Command::till_prev_char => "till_prev_char",
            Command::find_prev_char => "find_prev_char",
            Command::extend_till_prev_char => "extend_till_prev_char",
            Command::extend_prev_char => "extend_prev_char",
            Command::extend_first_nonwhitespace => "extend_first_nonwhitespace",
            Command::replace => "replace",
            Command::page_up => "page_up",
            Command::page_down => "page_down",
            Command::half_page_up => "half_page_up",
            Command::half_page_down => "half_page_down",
            Command::extend_char_left => "extend_char_left",
            Command::extend_char_right => "extend_char_right",
            Command::extend_line_up => "extend_line_up",
            Command::extend_line_down => "extend_line_down",
            Command::extend_line_end => "extend_line_end",
            Command::extend_line_start => "extend_line_start",
            Command::select_all => "select_all",
            Command::select_regex => "select_regex",
            Command::split_selection => "split_selection",
            Command::split_selection_on_newline => "split_selection_on_newline",
            Command::search => "search",
            Command::search_next => "search_next",
            Command::extend_search_next => "extend_search_next",
            Command::search_selection => "search_selection",
            Command::select_line => "select_line",
            Command::extend_line => "extend_line",
            Command::delete_selection => "delete_selection",
            Command::change_selection => "change_selection",
            Command::collapse_selection => "collapse_selection",
            Command::flip_selections => "flip_selections",
            Command::insert_mode => "insert_mode",
            Command::append_mode => "append_mode",
            Command::command_mode => "command_mode",
            Command::file_picker => "file_picker",
            Command::buffer_picker => "buffer_picker",
            Command::symbol_picker => "symbol_picker",
            Command::prepend_to_line => "prepend_to_line",
            Command::append_to_line => "append_to_line",
            Command::open_below => "open_below",
            Command::open_above => "open_above",
            Command::normal_mode => "normal_mode",
            Command::goto_mode => "goto_mode",
            Command::select_mode => "select_mode",
            Command::exit_select_mode => "exit_select_mode",
            Command::goto_definition => "goto_definition",
            Command::goto_type_definition => "goto_type_definition",
            Command::goto_implementation => "goto_implementation",
            Command::goto_reference => "goto_reference",
            Command::goto_first_diag => "goto_first_diag",
            Command::goto_last_diag => "goto_last_diag",
            Command::goto_next_diag => "goto_next_diag",
            Command::goto_prev_diag => "goto_prev_diag",
            Command::signature_help => "signature_help",
            Command::insert_tab => "insert_tab",
            Command::insert_newline => "insert_newline",
            Command::delete_char_backward => "delete_char_backward",
            Command::delete_char_forward => "delete_char_forward",
            Command::delete_word_backward => "delete_word_backward",
            Command::undo => "undo",
            Command::redo => "redo",
            Command::yank => "yank",
            Command::replace_with_yanked => "replace_with_yanked",
            Command::paste_after => "paste_after",
            Command::paste_before => "paste_before",
            Command::indent => "indent",
            Command::unindent => "unindent",
            Command::format_selections => "format_selections",
            Command::join_selections => "join_selections",
            Command::keep_selections => "keep_selections",
            Command::keep_primary_selection => "keep_primary_selection",
            Command::save => "save",
            Command::completion => "completion",
            Command::hover => "hover",
            Command::toggle_comments => "toggle_comments",
            Command::expand_selection => "expand_selection",
            Command::match_brackets => "match_brackets",
            Command::jump_forward => "jump_forward",
            Command::jump_backward => "jump_backward",
            Command::window_mode => "window_mode",
            Command::rotate_view => "rotate_view",
            Command::hsplit => "hsplit",
            Command::vsplit => "vsplit",
            Command::wclose => "wclose",
            Command::select_register => "select_register",
            Command::space_mode => "space_mode",
            Command::view_mode => "view_mode",
            Command::left_bracket_mode => "left_bracket_mode",
            Command::right_bracket_mode => "right_bracket_mode",
        }
    }

    /// A number that tells the names apart: the length, and the first eight
    /// characters weighed by their places.
    spec fn key(name: Seq<char>) -> int {
        name.len() + Command::weighed(name, 0) + Command::weighed(name, 1) + Command::weighed(name, 2)
            + Command::weighed(name, 3) + Command::weighed(name, 4) + Command::weighed(name, 5)
            + Command::weighed(name, 6) + Command::weighed(name, 7)
    }

    spec fn weighed(name: Seq<char>, i: int) -> int {
        if i < name.len() {
            (1 + 18 * i) * (name[i] as int)
        } else {
            0
        }
    }

    spec fn key_of(self) -> int {
        match self {
            Command::move_char_left => 51752,
            Command::move_char_right => 51753,
            Command::move_line_up => 54329,
            Command::move_line_down => 54331,
            Command::move_line_end => 54330,
            Command::move_line_start => 54332,
            Command::move_first_nonwhitespace => 54303,
            Command::move_next_word_start => 55353,
            Command::move_prev_word_start => 54539,
            Command::move_next_word_end => 55351,
            Command::move_file_start => 53532,
            Command::move_file_end => 53530,
            Command::extend_next_word_start => 53705,
            Command::extend_prev_word_start => 53959,
            Command::extend_next_word_end => 53703,
            Command::find_till_char => 54333,
            Command::find_next_char => 54875,
            Command::extend_till_char => 54461,
            Command::extend_next_char => 53699,
            Command::till_prev_char => 54441,
            Command::find_prev_char => 54061,
            Command::extend_till_prev_char => 54466,
            Command::extend_prev_char => 53953,
            Command::extend_first_nonwhitespace => 52693,
            Command::replace => 39223,
            Command::page_up => 41118,
            Command::page_down => 54577,
            Command::half_page_up => 52346,
            Command::half_page_down => 52348,
            Command::extend_char_left => 52302,
            Command::extend_char_right => 52303,
            Command::extend_line_up => 53443,
            Command::extend_line_down => 53445,
            Command::extend_line_end => 53444,
            Command::extend_line_start => 53446,
            Command::select_all => 52052,
            Command::select_regex => 54213,
            Command::split_selection => 54504,
            Command::split_selection_on_newline => 54515,
            Command::search => 28590,
            Command::search_next => 52920,
            Command::extend_search_next => 54336,
            Command::search_selection => 53560,
            Command::select_line => 53450,
            Command::extend_line => 53440,
            Command::delete_selection => 54205,
            Command::change_selection => 53400,
            Command::collapse_selection => 54797,
            Command::flip_selections => 54339,
            Command::insert_mode => 55092,
            Command::append_mode => 53263,
            Command::command_mode => 52304,
            Command::file_picker => 52804,
            Command::buffer_picker => 54044,
            Command::symbol_picker => 54360,
            Command::prepend_to_line => 52538,
            Command::append_to_line => 54155,
            Command::open_below => 52614,
            Command::open_above => 52577,
            Command::normal_mode => 53550,
            Command::goto_mode => 54271,
            Command::select_mode => 53577,
            Command::exit_select_mode => 54787,
            Command::goto_definition => 52622,
            Command::goto_type_definition => 57533,
            Command::goto_implementation => 55223,
            Command::goto_reference => 53895,
            Command::goto_first_diag => 54764,
            Command::goto_last_diag => 54564,
            Command::goto_next_diag => 55817,
            Command::goto_prev_diag => 55003,
            Command::signature_help => 56853,
            Command::insert_tab => 55980,
            Command::insert_newline => 55222,
            Command::delete_char_backward => 52177,
            Command::delete_char_forward => 52176,
            Command::delete_word_backward => 54717,
            Command::undo => 12016,
            Command::redo => 11842,
            Command::yank => 11923,
            Command::replace_with_yanked => 51300,
            Command::paste_after => 52146,
            Command::paste_before => 52129,
            Command::indent => 30042,
            Command::unindent => 55363,
            Command::format_selections => 55038,
            Command::join_selections => 54290,
            Command::keep_selections => 54063,
            Command::keep_primary_selection => 54833,
            Command::save => 11883,
            Command::completion => 55465,
            Command::hover => 20461,
            Command::toggle_comments => 51719,
            Command::expand_selection => 53966,
            Command::match_brackets => 53100,
            Command::jump_forward => 55328,
            Command::jump_backward => 51534,
            Command::window_mode => 54825,
            Command::rotate_view => 54861,
            Command::hsplit => 30600,
            Command::vsplit => 30614,
            Command::wclose => 29693,
            Command::select_register => 54216,
            Command::space_mode => 53283,
            Command::view_mode => 54057,
            Command::left_bracket_mode => 52796,
            Command::right_bracket_mode => 53931,
        }
    }

    spec fn with_key(key: int) -> Command {
        if key == 51753 {
            Command::move_char_right
        } else if key == 54329 {
            Command::move_line_up
        } else if key == 54331 {
            Command::move_line_down
        } else if key == 54330 {
            Command::move_line_end
        } else if key == 54332 {
            Command::move_line_start
        } else if key == 54303 {
            Command::move_first_nonwhitespace
        } else if key == 55353 {
            Command::move_next_word_start
        } else if key == 54539 {
            Command::move_prev_word_start
        } else if key == 55351 {
            Command::move_next_word_end
        } else if key == 53532 {
            Command::move_file_start
        } else if key == 53530 {
            Command::move_file_end
        } else if key == 53705 {
            Command::extend_next_word_start
        } else if key == 53959 {
            Command::extend_prev_word_start
        } else if key == 53703 {
            Command::extend_next_word_end
        } else if key == 54333 {
            Command::find_till_char
        } else if key == 54875 {
            Command::find_next_char
        } else if key == 54461 {
            Command::extend_till_char
        } else if key == 53699 {
            Command::extend_next_char
        } else if key == 54441 {
            Command::till_prev_char
        } else if key == 54061 {
            Command::find_prev_char
        } else if key == 54466 {
            Command::extend_till_prev_char
        } else if key == 53953 {
            Command::extend_prev_char
        } else if key == 52693 {
            Command::extend_first_nonwhitespace
        } else if key == 39223 {
            Command::replace
        } else if key == 41118 {
            Command::page_up
        } else if key == 54577 {
            Command::page_down
        } else if key == 52346 {
            Command::half_page_up
        } else if key == 52348 {
            Command::half_page_down
        } else if key == 52302 {
            Command::extend_char_left
        } else if key == 52303 {
            Command::extend_char_right
        } else if key == 53443 {
            Command::extend_line_up
        } else if key == 53445 {
            Command::extend_line_down
        } else if key == 53444 {
            Command::extend_line_end
        } else if key == 53446 {
            Command::extend_line_start
        } else if key == 52052 {
            Command::select_all
        } else if key == 54213 {
            Command::select_regex
        } else if key == 54504 {
            Command::split_selection
        } else if key == 54515 {
            Command::split_selection_on_newline
        } else if key == 28590 {
            Command::search
        } else if key == 52920 {
            Command::search_next
        } else if key == 54336 {
            Command::extend_search_next
        } else if key == 53560 {
            Command::search_selection
        } else if key == 53450 {
            Command::select_line
        } else if key == 53440 {
            Command::extend_line
        } else if key == 54205 {
            Command::delete_selection
        } else if key == 53400 {
            Command::change_selection
        } else if key == 54797 {
            Command::collapse_selection
        } else if key == 54339 {
            Command::flip_selections
        } else if key == 55092 {
            Command::insert_mode
        } else if key == 53263 {
            Command::append_mode
        } else if key == 52304 {
            Command::command_mode
        } else if key == 52804 {
            Command::file_picker
        } else if key == 54044 {
            Command::buffer_picker
        } else if key == 54360 {
            Command::symbol_picker
        } else if key == 52538 {
            Command::prepend_to_line
        } else if key == 54155 {
            Command::append_to_line
        } else if key == 52614 {
            Command::open_below
        } else if key == 52577 {
            Command::open_above
        } else if key == 53550 {
            Command::normal_mode
        } else if key == 54271 {
            Command::goto_mode
        } else if key == 53577 {
            Command::select_mode
        } else if key == 54787 {
            Command::exit_select_mode
        } else if key == 52622 {
            Command::goto_definition
        } else if key == 57533 {
            Command::goto_type_definition
        } else if key == 55223 {
            Command::goto_implementation
        } else if key == 53895 {
            Command::goto_reference
        } else if key == 54764 {
            Command::goto_first_diag
        } else if key == 54564 {
            Command::goto_last_diag
        } else if key == 55817 {
            Command::goto_next_diag
        } else if key == 55003 {
            Command::goto_prev_diag
        } else if key == 56853 {
            Command::signature_help
        } else if key == 55980 {
            Command::insert_tab
        } else if key == 55222 {
            Command::insert_newline
        } else if key == 52177 {
            Command::delete_char_backward
        } else if key == 52176 {
            Command::delete_char_forward
        } else if key == 54717 {
            Command::delete_word_backward
        } else if key == 12016 {
            Command::undo
        } else if key == 11842 {
            Command::redo
        } else if key == 11923 {
            Command::yank
        } else if key == 51300 {
            Command::replace_with_yanked
        } else if key == 52146 {
            Command::paste_after
        } else if key == 52129 {
            Command::paste_before
        } else if key == 30042 {
            Command::indent
        } else if key == 55363 {
            Command::unindent
        } else if key == 55038 {
            Command::format_selections
        } else if key == 54290 {
            Command::join_selections
        } else if key == 54063 {
            Command::keep_selections
        } else if key == 54833 {
            Command::keep_primary_selection
        } else if key == 11883 {
            Command::save
        } else if key == 55465 {
            Command::completion
        } else if key == 20461 {
            Command::hover
        } else if key == 51719 {
            Command::toggle_comments
        } else if key == 53966 {
            Command::expand_selection
        } else if key == 53100 {
            Command::match_brackets
        } else if key == 55328 {
            Command::jump_forward
        } else if key == 51534 {
            Command::jump_backward
        } else if key == 54825 {
            Command::window_mode
        } else if key == 54861 {
            Command::rotate_view
        } else if key == 30600 {
            Command::hsplit
        } else if key == 30614 {
            Command::vsplit
        } else if key == 29693 {
            Command::wclose
        } else if key == 54216 {
            Command::select_register
        } else if key == 53283 {
            Command::space_mode
        } else if key == 54057 {
            Command::view_mode
        } else if key == 52796 {
            Command::left_bracket_mode
        } else if key == 53931 {
            Command::right_bracket_mode
        } else {
            Command::move_char_left
        }
    }

    proof fn lemma_key(self)
        ensures
            Command::key(self.named()) == self.key_of(),
            Command::with_key(self.key_of()) == self,
    {
        match self {
            Command::move_char_left => {
                reveal_strlit("move_char_left");
            },
            Command::move_char_right => {
                reveal_strlit("move_char_right");
            },
            Command::move_line_up => {
                reveal_strlit("move_line_up");
            },
            Command::move_line_down => {
                reveal_strlit("move_line_down");
            },
            Command::move_line_end => {
                reveal_strlit("move_line_end");
            },
            Command::move_line_start => {
                reveal_strlit("move_line_start");
            },
            Command::move_first_nonwhitespace => {
                reveal_strlit("move_first_nonwhitespace");
            },
            Command::move_next_word_start => {
                reveal_strlit("move_next_word_start");
            },
            Command::move_prev_word_start => {
                reveal_strlit("move_prev_word_start");
            },
            Command::move_next_word_end => {
                reveal_strlit("move_next_word_end");
            },
            Command::move_file_start => {
                reveal_strlit("move_file_start");
            },
            Command::move_file_end => {
                reveal_strlit("move_file_end");
            },
            Command::extend_next_word_start => {
                reveal_strlit("extend_next_word_start");
            },
            Command::extend_prev_word_start => {
                reveal_strlit("extend_prev_word_start");
            },
            Command::extend_next_word_end => {
                reveal_strlit("extend_next_word_end");
            },
            Command::find_till_char => {
                reveal_strlit("find_till_char");
            },
            Command::find_next_char => {
                reveal_strlit("find_next_char");
            },
            Command::extend_till_char => {
                reveal_strlit("extend_till_char");
            },
            Command::extend_next_char => {
                reveal_strlit("extend_next_char");
            },
            Command::till_prev_char => {
                reveal_strlit("till_prev_char");
            },
            Command::find_prev_char => {
                reveal_strlit("find_prev_char");
            },
            Command::extend_till_prev_char => {
                reveal_strlit("extend_till_prev_char");
            },
            Command::extend_prev_char => {
                reveal_strlit("extend_prev_char");
            },
            Command::extend_first_nonwhitespace => {
                reveal_strlit("extend_first_nonwhitespace");
            },
            Command::replace => {
                reveal_strlit("replace");
            },
            Command::page_up => {
                reveal_strlit("page_up");
            },
            Command::page_down => {
                reveal_strlit("page_down");
            },
            Command::half_page_up => {
                reveal_strlit("half_page_up");
            },
            Command::half_page_down => {
                reveal_strlit("half_page_down");
            },
            Command::extend_char_left => {
                reveal_strlit("extend_char_left");
            },
            Command::extend_char_right => {
                reveal_strlit("extend_char_right");
            },
            Command::extend_line_up => {
                reveal_strlit("extend_line_up");
            },
            Command::extend_line_down => {
                reveal_strlit("extend_line_down");
            },
            Command::extend_line_end => {
                reveal_strlit("extend_line_end");
            },
            Command::extend_line_start => {
                reveal_strlit("extend_line_start");
            },
            Command::select_all => {
                reveal_strlit("select_all");
            },
            Command::select_regex => {
                reveal_strlit("select_regex");
            },
            Command::split_selection => {
                reveal_strlit("split_selection");
            },
            Command::split_selection_on_newline => {
                reveal_strlit("split_selection_on_newline");
            },
            Command::search => {
                reveal_strlit("search");
            },
            Command::search_next => {
                reveal_strlit("search_next");
            },
            Command::extend_search_next => {
                reveal_strlit("extend_search_next");
            },
            Command::search_selection => {
                reveal_strlit("search_selection");
            },
            Command::select_line => {
                reveal_strlit("select_line");
            },
            Command::extend_line => {
                reveal_strlit("extend_line");
            },
            Command::delete_selection => {
                reveal_strlit("delete_selection");
            },
            Command::change_selection => {
                reveal_strlit("change_selection");
            },
            Command::collapse_selection => {
                reveal_strlit("collapse_selection");
            },
            Command::flip_selections => {
                reveal_strlit("flip_selections");
            },
            Command::insert_mode => {
                reveal_strlit("insert_mode");
            },
            Command::append_mode => {
                reveal_strlit("append_mode");
            },
            Command::command_mode => {
                reveal_strlit("command_mode");
            },
            Command::file_picker => {
                reveal_strlit("file_picker");
            },
            Command::buffer_picker => {
                reveal_strlit("buffer_picker");
            },
            Command::symbol_picker => {
                reveal_strlit("symbol_picker");
            },
            Command::prepend_to_line => {
                reveal_strlit("prepend_to_line");
            },
            Command::append_to_line => {
                reveal_strlit("append_to_line");
            },
            Command::open_below => {
                reveal_strlit("open_below");
            },
            Command::open_above => {
                reveal_strlit("open_above");
            },
            Command::normal_mode => {
                reveal_strlit("normal_mode");
            },
            Command::goto_mode => {
                reveal_strlit("goto_mode");
            },
            Command::select_mode => {
                reveal_strlit("select_mode");
            },
            Command::exit_select_mode => {
                reveal_strlit("exit_select_mode");
            },
            Command::goto_definition => {
                reveal_strlit("goto_definition");
            },
            Command::goto_type_definition => {
                reveal_strlit("goto_type_definition");
            },
            Command::goto_implementation => {
                reveal_strlit("goto_implementation");
            },
            Command::goto_reference => {
                reveal_strlit("goto_reference");
            },
            Command::goto_first_diag => {
                reveal_strlit("goto_first_diag");
            },
            Command::goto_last_diag => {
                reveal_strlit("goto_last_diag");
            },
            Command::goto_next_diag => {
                reveal_strlit("goto_next_diag");
            },
            Command::goto_prev_diag => {
                reveal_strlit("goto_prev_diag");
            },
            Command::signature_help => {
                reveal_strlit("signature_help");
            },
            Command::insert_tab => {
                reveal_strlit("insert_tab");
            },
            Command::insert_newline => {
                reveal_strlit("insert_newline");
            },
            Command::delete_char_backward => {
                reveal_strlit("delete_char_backward");
            },
            Command::delete_char_forward => {
                reveal_strlit("delete_char_forward");
            },
            Command::delete_word_backward => {
                reveal_strlit("delete_word_backward");
            },
            Command::undo => {
                reveal_strlit("undo");
            },
            Command::redo => {
                reveal_strlit("redo");
            },
            Command::yank => {
                reveal_strlit("yank");
            },
            Command::replace_with_yanked => {
                reveal_strlit("replace_with_yanked");
            },
            Command::paste_after => {
                reveal_strlit("paste_after");
            },
            Command::paste_before => {
                reveal_strlit("paste_before");
            },
            Command::indent => {
                reveal_strlit("indent");
            },
            Command::unindent => {
                reveal_strlit("unindent");
            },
            Command::format_selections => {
                reveal_strlit("format_selections");
            },
            Command::join_selections => {
                reveal_strlit("join_selections");
            },
            Command::keep_selections => {
                reveal_strlit("keep_selections");
            },
            Command::keep_primary_selection => {
                reveal_strlit("keep_primary_selection");
            },
            Command::save => {
                reveal_strlit("save");
            },
            Command::completion => {
                reveal_strlit("completion");
            },
            Command::hover => {
                reveal_strlit("hover");
            },
            Command::toggle_comments => {
                reveal_strlit("toggle_comments");
            },
            Command::expand_selection => {
                reveal_strlit("expand_selection");
            },
            Command::match_brackets => {
                reveal_strlit("match_brackets");
            },
            Command::jump_forward => {
                reveal_strlit("jump_forward");
            },
            Command::jump_backward => {
                reveal_strlit("jump_backward");
            },
            Command::window_mode => {
                reveal_strlit("window_mode");
            },
            Command::rotate_view => {
                reveal_strlit("rotate_view");
            },
            Command::hsplit => {
                reveal_strlit("hsplit");
            },
            Command::vsplit => {
                reveal_strlit("vsplit");
            },
            Command::wclose => {
                reveal_strlit("wclose");
            },
            Command::select_register => {
                reveal_strlit("select_register");
            },
            Command::space_mode => {
                reveal_strlit("space_mode");
            },
            Command::view_mode => {
                reveal_strlit("view_mode");
            },
            Command::left_bracket_mode => {
                reveal_strlit("left_bracket_mode");
            },
            Command::right_bracket_mode => {
                reveal_strlit("right_bracket_mode");
            },
        }
    }

    /// No two commands have the same name.
    pub proof fn names_are_distinct(a: Command, b: Command)
        requires
            a.named() == b.named(),
        ensures
            a == b,
    {
        a.lemma_key();
        b.lemma_key();
    }

    /// Every command stands in the list, at its index.
    proof fn lemma_listed(self)
        ensures
            0 <= self.index() < COMMAND_LIST@.len(),
            COMMAND_LIST@[self.index()] == self,
    {
    }

    /// The command of that name, or a message where there is none.
    pub fn from_str(s: &str) -> (result: Result<Command, String>)
        ensures
            match result {
                Ok(command) => command.named() == s@,
                Err(message) => {
                    &&& message@ == "No command named '"@ + s@ + "'"@
                    &&& forall|command: Command| (#[trigger] command.named()) != s@
                },
            },
            forall|command: Command| (#[trigger] command.named()) == s@ ==> result == Ok::<
                Command,
                String,
            >(command),
    {
        let mut i: usize = 0;
        while i < COMMAND_LIST.len()
            invariant
                i <= COMMAND_LIST@.len(),
                forall|j: int| 0 <= j < i ==> (#[trigger] COMMAND_LIST@[j]).named() != s@,
            decreases COMMAND_LIST@.len() - i,
        {
            let command = COMMAND_LIST[i];
            if strings::same(command.name(), s) {
                assert forall|other: Command| (#[trigger] other.named()) == s@ implies other
                    == command by {
                    Command::names_are_distinct(other, command);
                }
                return Ok(command);
            }
            i += 1;
        }
        assert forall|command: Command| (#[trigger] command.named()) != s@ by {
            command.lemma_listed();
        }
        let mut message = "No command named '".to_owned();
        message.append(s);
        message.append("'");
        Err(message)
    }
}

} // verus!
