//! Where commands put the cursors and the ranges.

use crate::change::{ChangeView, Transaction, TransactionView};
use crate::command::Command;
use crate::editor::{
    CharSearch, Context, Direction, EffectView, Mode, Movement, NextKey, Position, Window,
};
use crate::execute::Outside;
use crate::laws::line_edits::{self, ending, last_of_line, starts_line};
use crate::laws::remade::{self, added};
use crate::lsp::{LspPosition, OffsetEncoding};
use crate::movement;
use crate::select;
use crate::selection::{Range, Selection, SelectionView};
use crate::strings;
use crate::text;
use ropey::Rope;
use vstd::prelude::*;

verus! {

/// The selection that a command has asked for, where it asked for one last.
pub open spec fn asked(pre: Context, post: Context) -> SelectionView {
    match added(pre, post).last() {
        EffectView::SetSelection(selection) => selection,
        _ => arbitrary(),
    }
}

/// Whether a command has asked for as many ranges as there are, with the same one
/// as the primary, and for nothing else; and has changed nothing itself.
pub open spec fn asks_for_ranges(pre: Context, post: Context) -> bool {
    &&& added(pre, post) == seq![EffectView::SetSelection(asked(pre, post))]
    &&& asked(pre, post).ranges.len() == pre.selection().ranges.len()
    &&& asked(pre, post).primary_index == pre.selection().primary_index
    &&& post.editor == (crate::editor::Editor { effects: post.editor.effects, ..pre.editor })
}

/// Whether every range becomes what `motion` answers, when it is asked to go as
/// often as the count says.
pub open spec fn all_moved<F: Fn(&Rope, Range, Direction, usize, Movement) -> Range>(
    pre: Context,
    post: Context,
    motion: F,
    direction: Direction,
    movement: Movement,
) -> bool {
    &&& asks_for_ranges(pre, post)
    &&& forall|i: int|
        0 <= i < pre.selection().ranges.len() ==> call_ensures(
            motion,
            (
                &pre.editor.doc.text,
                pre.selection().ranges[i],
                direction,
                match pre.count {
                    Some(count) => count,
                    None => 1usize,
                },
                movement,
            ),
            #[trigger] asked(pre, post).ranges[i],
        )
}

/// Whether a range becomes the word that `motion` answers, or keeps its anchor and
/// takes the head of the word.
pub open spec fn moved_by_word<F: Fn(&Rope, Range, usize) -> Range>(
    cx: Context,
    motion: F,
    extend: bool,
    range: Range,
    new: Range,
    count: usize,
) -> bool {
    exists|word: Range| #[trigger]
        call_ensures(motion, (&cx.editor.doc.text, range, count), word) && new.head == word.head
            && new.anchor == if extend {
            range.anchor
        } else {
            word.anchor
        }
}

/// Whether every range is moved to what `motion` answers, when it is asked to go
/// as often as the count says.
pub open spec fn all_moved_by_word<F: Fn(&Rope, Range, usize) -> Range>(
    pre: Context,
    post: Context,
    motion: F,
    extend: bool,
) -> bool {
    let count = match pre.count {
        Some(count) => count,
        None => 1usize,
    };
    &&& asks_for_ranges(pre, post)
    &&& forall|i: int|
        0 <= i < pre.selection().ranges.len() ==> moved_by_word(
            pre,
            motion,
            extend,
            pre.selection().ranges[i],
            #[trigger] asked(pre, post).ranges[i],
            count,
        )
}

/// Whether every head comes to a place that `right` holds of, and the anchor with
/// it unless the range is extended.
pub open spec fn all_put(
    pre: Context,
    post: Context,
    extend: bool,
    right: spec_fn(Range, int) -> bool,
) -> bool {
    &&& asks_for_ranges(pre, post)
    &&& forall|i: int|
        0 <= i < pre.selection().ranges.len() ==> {
            let range = pre.selection().ranges[i];
            let new = #[trigger] asked(pre, post).ranges[i];
            &&& right(range, new.head as int)
            &&& new.anchor == if extend {
                range.anchor
            } else {
                new.head
            }
        }
}

/// Whether `pos` is where the line of a position starts.
pub open spec fn at_line_start(s: Seq<char>, of: int, pos: int) -> bool {
    0 <= pos <= of && text::line_of(s, pos) == text::line_of(s, of) && starts_line(s, pos)
}

/// Whether `pos` is one before the end of the line of a position.
pub open spec fn before_line_end(s: Seq<char>, of: int, pos: int) -> bool {
    let end = ending(s, text::line_of(s, of));
    pos == if end == 0 {
        0
    } else {
        end - 1
    }
}

/// Whether `pos` holds the first character of the line of a position that is not
/// white space.
pub open spec fn at_first_nonblank(s: Seq<char>, of: int, pos: int) -> bool {
    &&& 0 <= pos < s.len()
    &&& text::line_of(s, pos) == text::line_of(s, of)
    &&& !strings::is_whitespace(s[pos])
    &&& forall|q: int|
        0 <= q < pos && text::line_of(s, q) == text::line_of(s, of) ==> strings::is_whitespace(
            #[trigger] s[q],
        )
}

/// Whether the line of a position holds nothing but white space.
pub open spec fn on_blank_line(s: Seq<char>, of: int) -> bool {
    forall|q: int|
        0 <= q < s.len() && text::line_of(s, q) == text::line_of(s, of) ==> strings::is_whitespace(
            #[trigger] s[q],
        )
}

pub(crate) proof fn lemma_line_start_right(s: Seq<char>, of: int)
    requires
        0 <= of <= s.len(),
    ensures
        at_line_start(s, of, movement::own_line_start(s, of)),
{
    text::lemma_line_of_position(s, of);
    text::lemma_line_start(s, text::line_of(s, of));
    line_edits::lemma_starts_line(s, movement::own_line_start(s, of));
}

pub(crate) proof fn lemma_line_end_right(s: Seq<char>, of: int)
    requires
        0 <= of <= s.len(),
    ensures
        before_line_end(s, of, movement::line_end(s, of)),
        0 <= movement::line_end(s, of) <= s.len(),
        0 <= ending(s, text::line_of(s, of)) <= s.len(),
{
    let line = text::line_of(s, of);
    text::lemma_line_of_position(s, of);
    text::lemma_line_start(s, line + 1);
    if line + 1 < text::line_count(s) {
        line_edits::lemma_line_break(s, line);
    }
}

proof fn lemma_first_nonblank(line: Seq<char>, n: int)
    requires
        0 <= n <= line.len(),
        forall|k: int| 0 <= k < n ==> strings::is_whitespace(#[trigger] line[k]),
    ensures
        match movement::first_nonwhitespace(line, n) {
            Some(k) => {
                &&& n <= k < line.len()
                &&& !strings::is_whitespace(line[k])
                &&& forall|j: int| 0 <= j < k ==> strings::is_whitespace(#[trigger] line[j])
            },
            None => forall|j: int|
                0 <= j < line.len() ==> strings::is_whitespace(#[trigger] line[j]),
        },
    decreases line.len() - n,
{
    if n < line.len() && strings::is_whitespace(line[n]) {
        lemma_first_nonblank(line, n + 1);
    }
}

proof fn lemma_nonblank_right(s: Seq<char>, of: int)
    requires
        0 <= of <= s.len(),
    ensures
        match movement::line_first_nonwhitespace(s, of) {
            Some(pos) => at_first_nonblank(s, of, pos),
            None => on_blank_line(s, of),
        },
{
    let line = text::line_of(s, of);
    let start = text::line_start(s, line);
    let next = text::line_start(s, line + 1);
    let own = text::line_text(s, line);
    text::lemma_line_of_position(s, of);
    text::lemma_line_start(s, line);
    text::lemma_line_start(s, line + 1);
    text::lemma_line_starts_ordered(s, line, line + 1);
    lemma_first_nonblank(own, 0);
    assert forall|q: int| 0 <= q < s.len() && #[trigger] text::line_of(s, q) == line implies start
        <= q < next && s[q] == own[q - start] by {
        if q < start {
            assert(text::line_of(s, q) < line);
        }
        if q >= next {
            if line + 1 < text::line_count(s) {
                text::lemma_line_of_monotone(s, next, q);
            }
        }
    }
    match movement::line_first_nonwhitespace(s, of) {
        Some(pos) => {
            text::lemma_line_of_monotone(s, start, pos);
            assert(text::line_of(s, pos) < line + 1);
            assert(s[pos] == own[pos - start]);
            assert forall|q: int|
                0 <= q < pos && text::line_of(s, q) == line implies strings::is_whitespace(
                #[trigger] s[q],
            ) by {
                assert(strings::is_whitespace(own[q - start]));
            }
        },
        None => {
            assert forall|q: int|
                0 <= q < s.len() && text::line_of(s, q) == line implies strings::is_whitespace(
                #[trigger] s[q],
            ) by {
                assert(strings::is_whitespace(own[q - start]));
            }
        },
    }
}

/// Whether the heads come to the first character of their lines that is not white
/// space, and the anchors with them unless the ranges are extended. A range on a
/// line without one stays.
pub open spec fn all_put_at_nonblanks(pre: Context, post: Context, extend: bool) -> bool {
    let s = pre.text();
    &&& asked(pre, post).ranges.len() == pre.selection().ranges.len()
    &&& asked(pre, post).primary_index == pre.selection().primary_index
    &&& added(pre, post) == seq![EffectView::SetSelection(asked(pre, post))]
    &&& forall|i: int|
        0 <= i < pre.selection().ranges.len() ==> {
            let range = pre.selection().ranges[i];
            let new = #[trigger] asked(pre, post).ranges[i];
            if on_blank_line(s, range.head as int) {
                new == range
            } else {
                &&& at_first_nonblank(s, range.head as int, new.head as int)
                &&& new.anchor == if extend {
                    range.anchor
                } else {
                    new.head
                }
            }
        }
}

pub(crate) proof fn lemma_all_put_at_nonblanks(pre: Context, base: Context, post: Context, movement: Movement)
    requires
        pre.wf(),
        base.editor.pending() == pre.editor.pending(),
        post.selects(base, movement::at_first_nonwhitespace(pre, movement)),
    ensures
        all_put_at_nonblanks(pre, post, movement == Movement::Extend),
{
    let s = pre.text();
    let new = movement::at_first_nonwhitespace(pre, movement);
    let ranges = pre.selection().ranges;
    remade::lemma_added(pre, post, seq![EffectView::SetSelection(new)]);
    assert forall|i: int| 0 <= i < ranges.len() implies {
        if on_blank_line(s, ranges[i].head as int) {
            (#[trigger] new.ranges[i]) == ranges[i]
        } else {
            &&& at_first_nonblank(s, ranges[i].head as int, new.ranges[i].head as int)
            &&& new.ranges[i].anchor == if movement == Movement::Extend {
                ranges[i].anchor
            } else {
                new.ranges[i].head
            }
        }
    } by {
        assert(ranges[i].within(s.len() as int));
        lemma_nonblank_right(s, ranges[i].head as int);
        text::lemma_fits(s);
        match movement::line_first_nonwhitespace(s, ranges[i].head as int) {
            Some(pos) => {
                assert(!strings::is_whitespace(s[pos]));
            },
            None => {},
        }
    }
}

/// Looking for a character takes every cursor to where it is found, and what lies
/// between the cursor and there is selected, or all from the anchor on where the
/// range is extended. A range from which it is not found stays.
pub proof fn cursors_go_to_the_characters_found<
    F: Fn(&Rope, char, usize, usize, bool) -> Option<usize>,
>(
    pre: Context,
    post: Context,
    search: F,
    ch: char,
    count: usize,
    inclusive: bool,
    extend: bool,
    i: int,
)
    requires
        select::finds(pre, post, search, ch, count, inclusive, extend),
        0 <= i < pre.selection().ranges.len(),
    ensures
        asks_for_ranges(pre, post),
        ({
            let range = pre.selection().ranges[i];
            let new = asked(pre, post).ranges[i];
            exists|found: Option<usize>| #[trigger]
                call_ensures(
                    search,
                    (&pre.editor.doc.text, ch, range.head, count, inclusive),
                    found,
                ) && match found {
                    Some(pos) => {
                        &&& new.head == pos
                        &&& new.anchor == if extend {
                            range.anchor
                        } else {
                            range.head
                        }
                    },
                    None => new == range,
                }
        }),
{
    let ranges = pre.selection().ranges;
    let found = choose|found: Seq<Option<usize>>|
        #[trigger] select::searched(pre, search, ch, count, inclusive, found) && post.selects(
            pre,
            SelectionView {
                ranges: select::all_reached(ranges, found, extend),
                ..pre.selection()
            },
        );
    let new = SelectionView {
        ranges: select::all_reached(ranges, found, extend),
        ..pre.selection()
    };
    remade::lemma_added(pre, post, seq![EffectView::SetSelection(new)]);
    let one = found[i];
    assert(call_ensures(
        search,
        (&pre.editor.doc.text, ch, ranges[i].head, count, inclusive),
        one,
    ));
}

/// Whether a range holds the characters of the lines from `first` up to `stop`,
/// all of them and no others, with its head at the end.
pub open spec fn holds_lines(s: Seq<char>, range: Range, first: int, stop: int) -> bool {
    forall|pos: int|
        0 <= pos < s.len() ==> (range.anchor <= pos <= range.head <==> first
            <= #[trigger] text::line_of(s, pos) < stop)
}

proof fn lemma_holds_lines(s: Seq<char>, first: int, stop: int)
    requires
        0 <= first < stop,
        first < text::line_count(s),
        text::fits(s),
    ensures
        holds_lines(
            s,
            Range::between(
                text::line_start(s, first) as usize,
                select::before_line(s, stop) as usize,
            ),
            first,
            stop,
        ),
        starts_line(s, text::line_start(s, first)),
{
    let start = text::line_start(s, first);
    let end = text::line_start(s, stop);
    text::lemma_fits(s);
    text::lemma_line_start(s, first);
    text::lemma_line_start(s, stop);
    line_edits::lemma_starts_line(s, start);
    assert forall|pos: int| 0 <= pos < s.len() implies (start <= pos <= select::before_line(
        s,
        stop,
    ) <==> first <= #[trigger] text::line_of(s, pos) < stop) by {
        if pos < start {
            assert(text::line_of(s, pos) < first);
        } else {
            text::lemma_line_of_monotone(s, start, pos);
        }
        if pos < end {
            assert(text::line_of(s, pos) < stop);
        } else if stop < text::line_count(s) {
            text::lemma_line_of_monotone(s, end, pos);
        }
        if end == 0 {
            assert(text::line_of(s, 0) == 0);
            if stop < text::line_count(s) {
                assert(stop == 0);
            }
        }
    }
}

proof fn lemma_all_moved<F: Fn(&Rope, Range, Direction, usize, Movement) -> Range>(
    pre: Context,
    post: Context,
    motion: F,
    direction: Direction,
    movement: Movement,
)
    requires
        movement::moves(pre, post, motion, direction, movement),
    ensures
        all_moved(pre, post, motion, direction, movement),
{
    let ranges = choose|ranges: Seq<Range>|
        #[trigger] movement::moved(pre, motion, direction, movement, ranges) && post.selects(
            pre,
            SelectionView { ranges, ..pre.selection() },
        );
    remade::lemma_added(
        pre,
        post,
        seq![EffectView::SetSelection(SelectionView { ranges, ..pre.selection() })],
    );
    assert(asked(pre, post).ranges == ranges);
}

proof fn lemma_all_moved_by_word<F: Fn(&Rope, Range, usize) -> Range>(
    pre: Context,
    post: Context,
    motion: F,
    movement: Movement,
)
    requires
        movement::moves_by_word(pre, post, motion, movement),
    ensures
        all_moved_by_word(pre, post, motion, movement == Movement::Extend),
{
    let words = choose|words: Seq<Range>|
        #[trigger] movement::moved_by_word(pre, motion, words) && post.selects(
            pre,
            SelectionView {
                ranges: match movement {
                    Movement::Move => words,
                    Movement::Extend => movement::stretched(pre.selection().ranges, words),
                },
                ..pre.selection()
            },
        );
    let new = SelectionView {
        ranges: match movement {
            Movement::Move => words,
            Movement::Extend => movement::stretched(pre.selection().ranges, words),
        },
        ..pre.selection()
    };
    remade::lemma_added(pre, post, seq![EffectView::SetSelection(new)]);
    assert(asked(pre, post) == new);
    assert forall|i: int| 0 <= i < words.len() implies moved_by_word(
        pre,
        motion,
        movement == Movement::Extend,
        pre.selection().ranges[i],
        #[trigger] asked(pre, post).ranges[i],
        pre.times(),
    ) by {
        let word = words[i];
        assert(call_ensures(
            motion,
            (&pre.editor.doc.text, pre.selection().ranges[i], pre.times()),
            word,
        ));
    }
}

impl<
    MH: Fn(&Rope, Range, Direction, usize, Movement) -> Range,
    MV: Fn(&Rope, Range, Direction, usize, Movement) -> Range,
    NW: Fn(&Rope, Range, usize) -> Range,
    PW: Fn(&Rope, Range, usize) -> Range,
    WE: Fn(&Rope, Range, usize) -> Range,
    NG: Fn(&Rope, usize) -> usize,
    PG: Fn(&Rope, usize) -> usize,
    NN: Fn(&Rope, usize, usize) -> usize,
    NP: Fn(&Rope, usize, usize) -> usize,
    CP: Fn(&Rope, usize) -> Position,
    PC: Fn(&Rope, Position) -> usize,
    LL: Fn(&Window, &Rope) -> usize,
    SM: Fn(&Rope, &Selection, &str) -> Selection,
    PU: Fn(&Selection, Range) -> Selection,
    FR: Fn(&Rope, Range) -> String,
    SI: Fn(&Rope, usize, bool) -> usize,
    TC: Fn(&Rope, &Selection) -> Transaction,
    ES: Fn(&Rope, &Selection) -> Selection,
    MB: Fn(&Rope, usize) -> Option<usize>,
    LP: Fn(&Rope, usize, OffsetEncoding) -> LspPosition,
> Outside<MH, MV, NW, PW, WE, NG, PG, NN, NP, CP, PC, LL, SM, PU, FR, SI, TC, ES, MB, LP> {
    /// Motions by characters and lines take every range where the editor says, in
    /// their direction, and extend it or not.
    pub proof fn ranges_move_as_told(self, command: Command, pre: Context, post: Context)
        requires
            self.runs(command, pre, post),
        ensures
            match command {
                Command::move_char_left => all_moved(
                    pre,
                    post,
                    self.move_horizontally,
                    Direction::Backward,
                    Movement::Move,
                ),
                Command::move_char_right => all_moved(
                    pre,
                    post,
                    self.move_horizontally,
                    Direction::Forward,
                    Movement::Move,
                ),
                Command::move_line_up => all_moved(
                    pre,
                    post,
                    self.move_vertically,
                    Direction::Backward,
                    Movement::Move,
                ),
                Command::move_line_down => all_moved(
                    pre,
                    post,
                    self.move_vertically,
                    Direction::Forward,
                    Movement::Move,
                ),
                Command::extend_char_left => all_moved(
                    pre,
                    post,
                    self.move_horizontally,
                    Direction::Backward,
                    Movement::Extend,
                ),
                Command::extend_char_right => all_moved(
                    pre,
                    post,
                    self.move_horizontally,
                    Direction::Forward,
                    Movement::Extend,
                ),
                Command::extend_line_up => all_moved(
                    pre,
                    post,
                    self.move_vertically,
                    Direction::Backward,
                    Movement::Extend,
                ),
                Command::extend_line_down => all_moved(
                    pre,
                    post,
                    self.move_vertically,
                    Direction::Forward,
                    Movement::Extend,
                ),
                Command::move_next_word_start => all_moved_by_word(
                    pre,
                    post,
                    self.move_next_word_start,
                    false,
                ),
                Command::move_prev_word_start => all_moved_by_word(
                    pre,
                    post,
                    self.move_prev_word_start,
                    false,
                ),
                Command::move_next_word_end => all_moved_by_word(
                    pre,
                    post,
                    self.move_next_word_end,
                    false,
                ),
                Command::extend_next_word_start => all_moved_by_word(
                    pre,
                    post,
                    self.move_next_word_start,
                    true,
                ),
                Command::extend_prev_word_start => all_moved_by_word(
                    pre,
                    post,
                    self.move_prev_word_start,
                    true,
                ),
                Command::extend_next_word_end => all_moved_by_word(
                    pre,
                    post,
                    self.move_next_word_end,
                    true,
                ),
                _ => true,
            },
    {
        match command {
            Command::move_char_left => lemma_all_moved(
                pre,
                post,
                self.move_horizontally,
                Direction::Backward,
                Movement::Move,
            ),
            Command::move_char_right => lemma_all_moved(
                pre,
                post,
                self.move_horizontally,
                Direction::Forward,
                Movement::Move,
            ),
            Command::move_line_up => lemma_all_moved(
                pre,
                post,
                self.move_vertically,
                Direction::Backward,
                Movement::Move,
            ),
            Command::move_line_down => lemma_all_moved(
                pre,
                post,
                self.move_vertically,
                Direction::Forward,
                Movement::Move,
            ),
            Command::extend_char_left => lemma_all_moved(
                pre,
                post,
                self.move_horizontally,
                Direction::Backward,
                Movement::Extend,
            ),
            Command::extend_char_right => lemma_all_moved(
                pre,
                post,
                self.move_horizontally,
                Direction::Forward,
                Movement::Extend,
            ),
            Command::extend_line_up => lemma_all_moved(
                pre,
                post,
                self.move_vertically,
                Direction::Backward,
                Movement::Extend,
            ),
            Command::extend_line_down => lemma_all_moved(
                pre,
                post,
                self.move_vertically,
                Direction::Forward,
                Movement::Extend,
            ),
            Command::move_next_word_start => lemma_all_moved_by_word(
                pre,
                post,
                self.move_next_word_start,
                Movement::Move,
            ),
            Command::move_prev_word_start => lemma_all_moved_by_word(
                pre,
                post,
                self.move_prev_word_start,
                Movement::Move,
            ),
            Command::move_next_word_end => lemma_all_moved_by_word(
                pre,
                post,
                self.move_next_word_end,
                Movement::Move,
            ),
            Command::extend_next_word_start => lemma_all_moved_by_word(
                pre,
                post,
                self.move_next_word_start,
                Movement::Extend,
            ),
            Command::extend_prev_word_start => lemma_all_moved_by_word(
                pre,
                post,
                self.move_prev_word_start,
                Movement::Extend,
            ),
            Command::extend_next_word_end => lemma_all_moved_by_word(
                pre,
                post,
                self.move_next_word_end,
                Movement::Extend,
            ),
            _ => {},
        }
    }

    /// Motions to the start and the end of a line, and to the first character on it
    /// that is not white space, take every head there.
    pub proof fn heads_go_to_places_on_their_lines(
        self,
        command: Command,
        pre: Context,
        post: Context,
    )
        requires
            pre.wf(),
            self.runs(command, pre, post),
        ensures
            ({
                let s = pre.text();
                let extend = command == Command::extend_line_start || command
                    == Command::extend_line_end || command == Command::extend_first_nonwhitespace;
                match command {
                    Command::move_line_start | Command::extend_line_start => all_put(
                        pre,
                        post,
                        extend,
                        |range: Range, pos: int| at_line_start(s, range.head as int, pos),
                    ),
                    Command::move_line_end | Command::extend_line_end => all_put(
                        pre,
                        post,
                        extend,
                        |range: Range, pos: int| before_line_end(s, range.head as int, pos),
                    ),
                    Command::move_first_nonwhitespace
                    | Command::extend_first_nonwhitespace => all_put_at_nonblanks(
                        pre,
                        post,
                        extend,
                    ),
                    Command::prepend_to_line => all_put_at_nonblanks(pre, post, false)
                        && post.editor.doc.mode == Mode::Insert,
                    _ => true,
                }
            }),
    {
        let s = pre.text();
        let ranges = pre.selection().ranges;
        text::lemma_fits(s);
        let extend = command == Command::extend_line_start || command == Command::extend_line_end
            || command == Command::extend_first_nonwhitespace;
        let movement = if extend {
            Movement::Extend
        } else {
            Movement::Move
        };
        match command {
            Command::move_line_start | Command::extend_line_start => {
                let new = movement::at_line_starts(pre, movement);
                remade::lemma_added(pre, post, seq![EffectView::SetSelection(new)]);
                assert forall|i: int| 0 <= i < ranges.len() implies at_line_start(
                    s,
                    ranges[i].head as int,
                    (#[trigger] new.ranges[i]).head as int,
                ) by {
                    assert(ranges[i].within(s.len() as int));
                    lemma_line_start_right(s, ranges[i].head as int);
                }
            },
            Command::move_line_end | Command::extend_line_end => {
                let new = movement::at_line_ends(pre, movement);
                remade::lemma_added(pre, post, seq![EffectView::SetSelection(new)]);
                assert forall|i: int| 0 <= i < ranges.len() implies before_line_end(
                    s,
                    ranges[i].head as int,
                    (#[trigger] new.ranges[i]).head as int,
                ) by {
                    assert(ranges[i].within(s.len() as int));
                    lemma_line_end_right(s, ranges[i].head as int);
                }
            },
            Command::move_first_nonwhitespace | Command::extend_first_nonwhitespace => {
                lemma_all_put_at_nonblanks(pre, pre, post, movement);
            },
            Command::prepend_to_line => {
                lemma_all_put_at_nonblanks(pre, pre.in_mode(Mode::Insert), post, Movement::Move);
            },
            _ => {},
        }
    }

    /// Appending to lines goes on in insert mode at the end of each line with a
    /// cursor.
    pub proof fn appending_to_lines_goes_on_at_their_ends(self, pre: Context, post: Context)
        requires
            pre.wf(),
            self.runs(Command::append_to_line, pre, post),
        ensures
            post.editor.doc.mode == Mode::Insert,
            added(pre, post) == seq![EffectView::SetSelection(asked(pre, post))],
            asked(pre, post).ranges.len() == pre.selection().ranges.len(),
            asked(pre, post).primary_index == pre.selection().primary_index,
            forall|i: int|
                0 <= i < pre.selection().ranges.len() ==> {
                    let end = ending(
                        pre.text(),
                        text::line_of(pre.text(), pre.selection().ranges[i].head as int),
                    );
                    let new = #[trigger] asked(pre, post).ranges[i];
                    new.anchor == end && new.head == end
                },
    {
        let s = pre.text();
        let ranges = pre.selection().ranges;
        text::lemma_fits(s);
        let new = crate::edit::at_line_ends(pre);
        remade::lemma_added(pre, post, seq![EffectView::SetSelection(new)]);
        assert forall|i: int| 0 <= i < ranges.len() implies {
            let end = ending(s, text::line_of(s, ranges[i].head as int));
            (#[trigger] new.ranges[i]).anchor == end && new.ranges[i].head == end
        } by {
            assert(ranges[i].within(s.len() as int));
            lemma_line_end_right(s, ranges[i].head as int);
        }
    }

    /// Commands that look for a character wait for it, and look for it in their
    /// direction, up to it or onto it, as often as the count says.
    pub proof fn searches_for_a_character_wait_for_it(
        self,
        command: Command,
        pre: Context,
        post: Context,
    )
        requires
            self.runs(command, pre, post),
        ensures
            ({
                let wanted = match command {
                    Command::find_till_char => Some((CharSearch::NthNext, false, false)),
                    Command::find_next_char => Some((CharSearch::NthNext, true, false)),
                    Command::extend_till_char => Some((CharSearch::NthNext, false, true)),
                    Command::extend_next_char => Some((CharSearch::NthNext, true, true)),
                    Command::till_prev_char => Some((CharSearch::NthPrev, false, false)),
                    Command::find_prev_char => Some((CharSearch::NthPrev, true, false)),
                    Command::extend_till_prev_char => Some((CharSearch::NthPrev, false, true)),
                    Command::extend_prev_char => Some((CharSearch::NthPrev, true, true)),
                    _ => None,
                };
                wanted matches Some(wanted) ==> {
                    &&& post.editor == pre.editor
                    &&& post.on_next_key_callback == Some(
                        NextKey::FindChar {
                            search: wanted.0,
                            inclusive: wanted.1,
                            extend: wanted.2,
                            count: match pre.count {
                                Some(count) => count,
                                None => 1,
                            },
                        },
                    )
                }
            }),
    {
    }

    /// Selecting everything selects every character; selecting lines selects every
    /// character of as many lines as the count says, from that of the cursor on,
    /// and no other.
    pub proof fn whole_lines_are_selected(self, command: Command, pre: Context, post: Context)
        requires
            pre.wf(),
            self.runs(command, pre, post),
            command == Command::select_all || command == Command::select_line,
        ensures
            added(pre, post) == seq![EffectView::SetSelection(asked(pre, post))],
            asked(pre, post).ranges.len() == 1,
            asked(pre, post).primary_index == 0,
            ({
                let s = pre.text();
                let range = asked(pre, post).ranges[0];
                if command == Command::select_all {
                    &&& range.anchor == 0
                    &&& s.len() > 0 ==> range.head + 1 == s.len()
                    &&& s.len() == 0 ==> range.head == 0
                } else {
                    let line = text::line_of(s, pre.cursor() as int);
                    &&& holds_lines(s, range, line, line + pre.times())
                    &&& at_line_start(s, pre.cursor() as int, range.anchor as int)
                }
            }),
    {
        let s = pre.text();
        text::lemma_fits(s);
        assert(pre.selection().primary().within(s.len() as int));
        if command == Command::select_all {
            remade::lemma_added(
                pre,
                post,
                seq![EffectView::SetSelection(select::whole_text(s))],
            );
        } else {
            let line = text::line_of(s, pre.cursor() as int);
            let new = select::selected_lines(pre);
            remade::lemma_added(pre, post, seq![EffectView::SetSelection(new)]);
            text::lemma_line_of_position(s, pre.cursor() as int);
            lemma_line_start_right(s, pre.cursor() as int);
            let stop = if line + pre.times() < text::line_count(s) {
                line + pre.times()
            } else {
                text::line_count(s)
            };
            lemma_holds_lines(s, line, stop);
            assert forall|pos: int| 0 <= pos < s.len() implies (
            #[trigger] text::line_of(s, pos) < stop <==> text::line_of(s, pos) < line
                + pre.times()) by {
                text::lemma_line_of_position(s, pos);
            }
        }
    }

    /// Extending by lines selects every character of the lines from that of the
    /// anchor on to that of the cursor, or to the next where the cursor is on the
    /// last character of its line, and no other.
    pub proof fn lines_are_extended_over(self, pre: Context, post: Context)
        requires
            pre.wf(),
            self.can_run(Command::extend_line, pre),
            self.runs(Command::extend_line, pre, post),
        ensures
            added(pre, post) == seq![EffectView::SetSelection(asked(pre, post))],
            asked(pre, post).ranges.len() == 1,
            asked(pre, post).primary_index == 0,
            ({
                let s = pre.text();
                let old = pre.selection().primary();
                let first = text::line_of(s, old.anchor as int);
                let line = text::line_of(s, old.head as int);
                let reached = if old.head < s.len() && last_of_line(s, old.head as int) {
                    line + 1
                } else {
                    line
                };
                let range = asked(pre, post).ranges[0];
                &&& first <= reached ==> holds_lines(s, range, first, reached + 1)
                &&& at_line_start(s, old.anchor as int, range.anchor as int)
            }),
    {
        let s = pre.text();
        let old = pre.selection().primary();
        let first = text::line_of(s, old.anchor as int);
        let line = text::line_of(s, old.head as int);
        let reached = if old.head < s.len() && last_of_line(s, old.head as int) {
            line + 1
        } else {
            line
        };
        assert(old.within(s.len() as int));
        text::lemma_fits(s);
        text::lemma_line_of_position(s, old.anchor as int);
        text::lemma_line_of_position(s, old.head as int);
        text::lemma_line_of_monotone(s, 0, old.anchor as int);
        lemma_line_start_right(s, old.anchor as int);
        let new = select::line_extended(s, old);
        remade::lemma_added(
            pre,
            post,
            seq![EffectView::SetSelection(SelectionView::single(new.anchor, new.head))],
        );
        assert(select::extended_line(s, old) == reached) by {
            text::lemma_line_start(s, line + 1);
            if old.head < s.len() {
                text::lemma_line_of_monotone(s, old.head as int, old.head + 1);
                if last_of_line(s, old.head as int) {
                    if old.head + 1 < s.len() {
                        line_edits::lemma_starts_line(s, old.head + 1);
                    }
                    assert(text::line_start(s, line + 1) == old.head + 1);
                } else {
                    assert(text::line_of(s, old.head + 1) == line);
                    if text::line_start(s, line + 1) == old.head + 1 {
                        if line + 1 < text::line_count(s) {
                            assert(false);
                        }
                    }
                }
            }
        }
        if first <= reached {
            lemma_holds_lines(s, first, reached + 1);
        }
    }

    /// Collapsing leaves the cursor of every range, flipping exchanges its ends,
    /// inserting before puts its cursor on its first character, and keeping the
    /// primary range keeps that one alone.
    pub proof fn ranges_are_turned(self, command: Command, pre: Context, post: Context)
        requires
            pre.wf(),
            self.runs(command, pre, post),
        ensures
            ({
                let ranges = pre.selection().ranges;
                let new = asked(pre, post);
                match command {
                    Command::collapse_selection => asks_for_ranges(pre, post) && forall|i: int|
                        0 <= i < ranges.len() ==> (#[trigger] new.ranges[i]).anchor
                            == ranges[i].head && new.ranges[i].head == ranges[i].head,
                    Command::flip_selections => asks_for_ranges(pre, post) && forall|i: int|
                        0 <= i < ranges.len() ==> (#[trigger] new.ranges[i]).anchor
                            == ranges[i].head && new.ranges[i].head == ranges[i].anchor,
                    Command::insert_mode => {
                        &&& post.editor.doc.mode == Mode::Insert
                        &&& added(pre, post) == seq![EffectView::SetSelection(new)]
                        &&& new.primary_index == pre.selection().primary_index
                        &&& new.ranges.len() == ranges.len()
                        &&& forall|i: int|
                            0 <= i < ranges.len() ==> {
                                let range = #[trigger] new.ranges[i];
                                &&& range.head <= range.anchor
                                &&& range.head == ranges[i].anchor && range.anchor == ranges[i].head
                                    || range.head == ranges[i].head && range.anchor
                                    == ranges[i].anchor
                            }
                    },
                    Command::keep_primary_selection => {
                        &&& added(pre, post) == seq![EffectView::SetSelection(new)]
                        &&& new.ranges.len() == 1 && new.primary_index == 0
                        &&& new.ranges[0].anchor == ranges[pre.selection().primary_index].anchor
                        &&& new.ranges[0].head == ranges[pre.selection().primary_index].head
                    },
                    _ => true,
                }
            }),
    {
        let ranges = pre.selection().ranges;
        match command {
            Command::collapse_selection => {
                let new = pre.selection().mapped(|range: Range| select::collapsed(range));
                remade::lemma_added(pre, post, seq![EffectView::SetSelection(new)]);
            },
            Command::flip_selections => {
                let new = pre.selection().mapped(|range: Range| select::flipped(range));
                remade::lemma_added(pre, post, seq![EffectView::SetSelection(new)]);
            },
            Command::insert_mode => {
                let new = pre.selection().mapped(|range: Range| select::at_start(range));
                remade::lemma_added(pre, post, seq![EffectView::SetSelection(new)]);
            },
            Command::keep_primary_selection => {
                let primary = pre.selection().primary();
                remade::lemma_added(
                    pre,
                    post,
                    seq![
                        EffectView::SetSelection(
                            SelectionView::single(primary.anchor, primary.head),
                        ),
                    ],
                );
            },
            _ => {},
        }
    }

    /// Whether the bounds are what is said of the larger ends of the ranges.
    pub open spec fn next_of_larger_ends(self, cx: Context, bounds: Seq<usize>) -> bool {
        &&& bounds.len() == cx.selection().ranges.len()
        &&& forall|i: int|
            0 <= i < bounds.len() ==> {
                let range = cx.selection().ranges[i];
                call_ensures(
                    self.next_grapheme_boundary,
                    (
                        &cx.editor.doc.text,
                        if range.anchor <= range.head {
                            range.head
                        } else {
                            range.anchor
                        },
                    ),
                    #[trigger] bounds[i],
                )
            }
    }

    /// Appending goes on in insert mode with every cursor behind what its range
    /// holds. Where that is the end of the text, a line feed is put in there first.
    pub proof fn appending_goes_on_behind_what_is_held(self, pre: Context, post: Context)
        requires
            pre.wf(),
            self.runs(Command::append_mode, pre, post),
        ensures
            post.editor.doc.mode == Mode::Insert,
            post.editor.doc.restore_cursor,
            exists|bounds: Seq<usize>|
                {
                    let ranges = pre.selection().ranges;
                    let new = asked(pre, post);
                    let at_end = exists|i: int|
                        0 <= i < bounds.len() && #[trigger] bounds[i] == pre.text().len();
                    &&& #[trigger] self.next_of_larger_ends(pre, bounds)
                    &&& new.ranges.len() == ranges.len()
                    &&& new.primary_index == pre.selection().primary_index
                    &&& forall|i: int|
                        0 <= i < ranges.len() ==> (#[trigger] new.ranges[i]).head == bounds[i]
                            && new.ranges[i].anchor == if ranges[i].anchor <= ranges[i].head {
                            ranges[i].anchor
                        } else {
                            ranges[i].head
                        }
                    &&& added(pre, post) == if at_end {
                        seq![
                            EffectView::Apply(
                                TransactionView {
                                    changes: seq![
                                        ChangeView {
                                            from: pre.text().len() as int,
                                            to: pre.text().len() as int,
                                            text: Some(seq!['\n']),
                                        },
                                    ],
                                    selection: None,
                                },
                            ),
                            EffectView::SetSelection(new),
                        ]
                    } else {
                        seq![EffectView::SetSelection(new)]
                    }
                },
    {
        let bounds = choose|bounds: Seq<usize>|
            #[trigger] select::bounded(pre, self.next_grapheme_boundary, bounds) && post.asks(
                select::restoring(pre.in_mode(Mode::Insert), true),
                select::append_effects(pre, bounds),
            );
        remade::lemma_added(pre, post, select::append_effects(pre, bounds));
        assert(self.next_of_larger_ends(pre, bounds));
        assert(asked(pre, post) == select::up_to(pre.selection(), bounds));
    }

    /// Normal mode closes a step of the history. Where insert mode was entered to
    /// append, every cursor goes back to where the character before it starts.
    pub proof fn normal_mode_closes_a_step(self, pre: Context, post: Context)
        requires
            pre.wf(),
            self.runs(Command::normal_mode, pre, post),
        ensures
            post.editor.doc.mode == Mode::Normal,
            !post.editor.doc.restore_cursor,
            added(pre, post).len() > 0,
            added(pre, post)[0] == EffectView::AppendChangesToHistory,
            if pre.editor.doc.restore_cursor {
                let ranges = pre.selection().ranges;
                let new = asked(pre, post);
                &&& added(pre, post) == seq![
                    EffectView::AppendChangesToHistory,
                    EffectView::SetSelection(new),
                ]
                &&& new.ranges.len() == ranges.len()
                &&& new.primary_index == pre.selection().primary_index
                &&& forall|i: int|
                    0 <= i < ranges.len() ==> {
                        let range = #[trigger] new.ranges[i];
                        &&& range.anchor == if ranges[i].anchor <= ranges[i].head {
                            ranges[i].anchor
                        } else {
                            ranges[i].head
                        }
                        &&& call_ensures(
                            self.prev_grapheme_boundary,
                            (
                                &pre.editor.doc.text,
                                if ranges[i].anchor <= ranges[i].head {
                                    ranges[i].head
                                } else {
                                    ranges[i].anchor
                                },
                            ),
                            range.head,
                        )
                    }
            } else {
                added(pre, post).len() == 1
            },
    {
        if pre.editor.doc.restore_cursor {
            let bounds = choose|bounds: Seq<usize>|
                #[trigger] select::bounded(pre, self.prev_grapheme_boundary, bounds) && post.asks(
                    select::restoring(pre.in_mode(Mode::Normal), false),
                    seq![
                        EffectView::AppendChangesToHistory,
                        EffectView::SetSelection(select::up_to(pre.selection(), bounds)),
                    ],
                );
            remade::lemma_added(
                pre,
                post,
                seq![
                    EffectView::AppendChangesToHistory,
                    EffectView::SetSelection(select::up_to(pre.selection(), bounds)),
                ],
            );
            assert forall|i: int| 0 <= i < pre.selection().ranges.len() implies (
            #[trigger] asked(pre, post).ranges[i]).head == bounds[i] by {}
        } else {
            remade::lemma_added(pre, post, seq![EffectView::AppendChangesToHistory]);
        }
    }
}

} // verus!
