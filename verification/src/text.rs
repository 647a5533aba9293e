//! Text as the commands see it: a rope of characters, cut into lines.
//!
//! A document's text is a `ropey::Rope`. Its characters are named by
//! `rope_text`, and the specifications below say how they are cut into lines.

use crate::strings;
use ropey::Rope;
use vstd::prelude::*;

verus! {

/// `ropey::Rope`, carried through as an opaque value.
#[verifier::external_type_specification]
#[verifier::external_body]
pub struct ExRope(Rope);

/// The characters that a rope holds.
pub uninterp spec fn rope_text(rope: Rope) -> Seq<char>;

/// The characters that a borrowed rope holds.
pub open spec fn chars(rope: &Rope) -> Seq<char> {
    rope_text(*rope)
}

/// Whether a text is short enough for its bytes, characters and lines to be
/// counted in a `usize`.
pub open spec fn fits(s: Seq<char>) -> bool {
    strings::bytes(s) < usize::MAX
}

/// Whether `c` always ends a line when it occurs. A carriage return is not
/// among these: it ends a line only where no line feed follows.
pub open spec fn is_line_break(c: char) -> bool {
    c == '\n' || c == '\u{b}' || c == '\u{c}' || c == '\u{85}' || c == '\u{2028}' || c == '\u{2029}'
}

/// Whether the character at `i` is the last one of its line's ending.
pub open spec fn ends_line(s: Seq<char>, i: int) -> bool {
    is_line_break(s[i]) || (s[i] == '\r' && !(i + 1 < s.len() && s[i + 1] == '\n'))
}

/// The number of lines that end before position `n`.
pub open spec fn line_of(s: Seq<char>, n: int) -> int
    decreases n,
{
    if n <= 0 {
        0
    } else {
        line_of(s, n - 1) + if ends_line(s, n - 1) {
            1int
        } else {
            0int
        }
    }
}

/// The number of lines: one more than the number of line endings.
pub open spec fn line_count(s: Seq<char>) -> int {
    line_of(s, s.len() as int) + 1
}

/// The first position in `0..=n` that lies on line `line` or after it, or `n`.
pub open spec fn first_on_line(s: Seq<char>, line: int, n: int) -> int
    decreases n,
{
    if n <= 0 {
        0
    } else if line_of(s, n - 1) >= line {
        first_on_line(s, line, n - 1)
    } else {
        n
    }
}

/// The position at which line `line` starts; the end of the text for a line
/// past the last one.
pub open spec fn line_start(s: Seq<char>, line: int) -> int {
    first_on_line(s, line, s.len() as int)
}

/// The characters of line `line`, its ending included.
pub open spec fn line_text(s: Seq<char>, line: int) -> Seq<char> {
    s.subrange(line_start(s, line), line_start(s, line + 1))
}

/// Where line `line` ends: at its ending, or at the end of the text where the
/// last line has none.
pub open spec fn line_end(s: Seq<char>, line: int) -> int {
    if line + 1 < line_count(s) {
        line_start(s, line + 1) - 1
    } else {
        s.len() as int
    }
}

/// `Rope::len_chars`: the number of characters in the rope.
pub assume_specification[ Rope::len_chars ](rope: &Rope) -> (n: usize)
    requires
        fits(rope_text(*rope)),
    ensures
        n == rope_text(*rope).len(),
;

/// `Rope::len_lines`: the number of line endings in the rope, plus one. A
/// carriage return with a line feed behind it is one ending.
pub assume_specification[ Rope::len_lines ](rope: &Rope) -> (n: usize)
    requires
        fits(rope_text(*rope)),
    ensures
        n == line_count(rope_text(*rope)),
;

/// `Rope::char_to_line`: the number of line endings before a character. It
/// panics past the end of the rope.
pub assume_specification[ Rope::char_to_line ](rope: &Rope, char_idx: usize) -> (line: usize)
    requires
        fits(rope_text(*rope)),
        char_idx <= rope_text(*rope).len(),
    ensures
        line == line_of(rope_text(*rope), char_idx as int),
;

/// `Rope::line_to_char`: the position of a line's first character. One line
/// past the last is the end of the rope; it panics beyond that.
pub assume_specification[ Rope::line_to_char ](rope: &Rope, line_idx: usize) -> (pos: usize)
    requires
        fits(rope_text(*rope)),
        line_idx <= line_count(rope_text(*rope)),
    ensures
        pos == line_start(rope_text(*rope), line_idx as int),
;

/// `Rope::char`: the character at a position. It panics past the end.
pub assume_specification[ Rope::char ](rope: &Rope, char_idx: usize) -> (c: char)
    requires
        fits(rope_text(*rope)),
        char_idx < rope_text(*rope).len(),
    ensures
        c == rope_text(*rope)[char_idx as int],
;

/// The character that byte `byte` belongs to: the number of characters that end
/// at that byte or before it.
pub open spec fn char_at_byte(s: Seq<char>, byte: int) -> int
    decreases s.len(),
{
    if s.len() == 0 || strings::bytes(s) <= byte {
        s.len() as int
    } else {
        char_at_byte(s.drop_last(), byte)
    }
}

/// `Rope::char_to_byte`: the number of bytes before a character. It panics past
/// the end of the rope.
pub assume_specification[ Rope::char_to_byte ](rope: &Rope, char_idx: usize) -> (byte: usize)
    requires
        fits(rope_text(*rope)),
        char_idx <= rope_text(*rope).len(),
    ensures
        byte == strings::bytes(rope_text(*rope).take(char_idx as int)),
;

/// `Rope::byte_to_char`: the character that a byte belongs to. It panics past
/// the end of the rope.
pub assume_specification[ Rope::byte_to_char ](rope: &Rope, byte_idx: usize) -> (pos: usize)
    requires
        fits(rope_text(*rope)),
        byte_idx <= strings::bytes(rope_text(*rope)),
    ensures
        pos == char_at_byte(rope_text(*rope), byte_idx as int),
;

/// `String::from` on a borrowed rope: a string with the characters of the rope.
#[verifier::external_body]
pub(crate) fn to_string(rope: &Rope) -> (s: String)
    ensures
        s@ == rope_text(*rope),
{
    String::from(rope)
}

/// A text has at most as many lines before a position as it has characters,
/// and moving on never lowers the line.
pub proof fn lemma_line_of_monotone(s: Seq<char>, a: int, b: int)
    requires
        0 <= a <= b,
    ensures
        line_of(s, a) <= line_of(s, b) <= line_of(s, a) + (b - a),
    decreases b - a,
{
    if a < b {
        lemma_line_of_monotone(s, a, b - 1);
    }
}

proof fn lemma_first_on_line(s: Seq<char>, line: int, n: int)
    requires
        0 <= n,
        0 <= line,
    ensures
        0 <= first_on_line(s, line, n) <= n,
        forall|q: int| 0 <= q < first_on_line(s, line, n) ==> line_of(s, q) < line,
        line <= line_of(s, n) ==> line_of(s, first_on_line(s, line, n)) == line,
        line > line_of(s, n) ==> first_on_line(s, line, n) == n,
    decreases n,
{
    if n > 0 {
        lemma_first_on_line(s, line, n - 1);
        assert forall|q: int| 0 <= q < first_on_line(s, line, n) implies line_of(s, q) < line by {
            lemma_line_of_monotone(s, q, n - 1);
        }
    }
}

/// Where a line starts: inside the text, on that line, with every earlier
/// position on an earlier line. A line past the last starts at the end.
pub proof fn lemma_line_start(s: Seq<char>, line: int)
    requires
        0 <= line,
    ensures
        0 <= line_start(s, line) <= s.len(),
        line < line_count(s) ==> line_of(s, line_start(s, line)) == line,
        line >= line_count(s) ==> line_start(s, line) == s.len(),
        forall|q: int| 0 <= q < line_start(s, line) ==> line_of(s, q) < line,
        line == 0 ==> line_start(s, line) == 0,
{
    lemma_first_on_line(s, line, s.len() as int);
    if line == 0 && line_start(s, line) > 0 {
        assert(line_of(s, 0) < line);
    }
}

/// A position lies between the start of its own line and that of the next.
pub proof fn lemma_line_of_position(s: Seq<char>, pos: int)
    requires
        0 <= pos <= s.len(),
    ensures
        0 <= line_of(s, pos) < line_count(s),
        line_start(s, line_of(s, pos)) <= pos <= line_start(s, line_of(s, pos) + 1),
        pos < s.len() ==> pos < line_start(s, line_of(s, pos) + 1),
{
    lemma_line_of_monotone(s, 0, pos);
    lemma_line_of_monotone(s, pos, s.len() as int);
    let line = line_of(s, pos);
    lemma_line_start(s, line);
    lemma_line_start(s, line + 1);
    if line + 1 < line_count(s) {
        let next = line_start(s, line + 1);
        if next <= pos {
            lemma_line_of_monotone(s, next, pos);
        }
    }
}

/// Where a line ends.
pub(crate) fn end_of_line(rope: &Rope, line: usize) -> (pos: usize)
    requires
        fits(rope_text(*rope)),
        line < line_count(rope_text(*rope)),
    ensures
        pos == line_end(rope_text(*rope), line as int),
        line_start(rope_text(*rope), line as int) <= pos <= rope_text(*rope).len(),
{
    let ghost s = rope_text(*rope);
    proof {
        lemma_fits(s);
        lemma_line_start(s, line as int);
        lemma_line_start(s, line + 1);
        lemma_line_starts_ordered(s, line as int, line + 1);
    }
    if line + 1 < rope.len_lines() {
        rope.line_to_char(line + 1) - 1
    } else {
        rope.len_chars()
    }
}

/// Later lines start no earlier, and each line but the last holds at least its
/// own ending.
pub proof fn lemma_line_starts_ordered(s: Seq<char>, a: int, b: int)
    requires
        0 <= a <= b,
    ensures
        line_start(s, a) <= line_start(s, b),
        a < b && a < line_count(s) && (b < line_count(s) || line_start(s, a) < s.len())
            ==> line_start(s, a) < line_start(s, b),
{
    lemma_line_start(s, a);
    lemma_line_start(s, b);
    if line_start(s, b) < line_start(s, a) {
        assert(line_of(s, line_start(s, b)) < a);
        if b >= line_count(s) {
            assert(false);
        }
    }
}

/// A text that fits has countable characters and lines.
pub proof fn lemma_fits(s: Seq<char>)
    requires
        fits(s),
    ensures
        s.len() < usize::MAX,
        1 <= line_count(s) <= s.len() + 1,
        line_count(s) <= usize::MAX,
{
    strings::lemma_len_in_bytes(s);
    lemma_line_of_monotone(s, 0, s.len() as int);
}

/// A byte belongs to a character of the text or to its end, and a later byte to
/// no earlier one.
pub proof fn lemma_char_at_byte(s: Seq<char>, a: int, b: int)
    requires
        a <= b,
    ensures
        0 <= char_at_byte(s, a) <= char_at_byte(s, b) <= s.len(),
    decreases s.len(),
{
    if s.len() > 0 {
        lemma_char_at_byte(s.drop_last(), a, b);
    }
}

/// The bytes before a character are no more than those of the text.
pub proof fn lemma_bytes_before(s: Seq<char>, n: int)
    requires
        0 <= n <= s.len(),
    ensures
        strings::bytes(s.take(n)) <= strings::bytes(s),
{
    assert(s =~= s.take(n) + s.skip(n));
    strings::lemma_bytes_concat(s.take(n), s.skip(n));
}

/// A character belongs to the byte at which it starts.
pub proof fn lemma_char_of_own_byte(s: Seq<char>, n: int)
    requires
        0 <= n <= s.len(),
    ensures
        char_at_byte(s, strings::bytes(s.take(n)) as int) == n,
    decreases s.len(),
{
    if n == s.len() {
        assert(s.take(n) =~= s);
    } else {
        assert(s.drop_last().take(n) =~= s.take(n));
        lemma_char_of_own_byte(s.drop_last(), n);
        lemma_bytes_before(s.drop_last(), n);
        assert(s =~= s.drop_last() + seq![s.last()]);
        strings::lemma_bytes_concat(s.drop_last(), seq![s.last()]);
        strings::lemma_len_in_bytes(seq![s.last()]);
    }
}

} // verus!
