//! Strings as sequences of characters.

use vstd::prelude::*;
use vstd::string::{StrSliceExecFns, StringExecFns};

verus! {

/// The characters of each string.
pub open spec fn string_views(strings: Seq<String>) -> Seq<Seq<char>> {
    strings.map_values(|s: String| s@)
}

/// The characters of an optional string.
pub open spec fn option_view(s: Option<String>) -> Option<Seq<char>> {
    match s {
        Some(s) => Some(s@),
        None => None,
    }
}

/// How many bytes the characters take.
pub open spec fn bytes(s: Seq<char>) -> nat {
    vstd::utf8::encode_utf8(s).len()
}

/// `text` written `n` times over.
pub open spec fn repeated(text: Seq<char>, n: nat) -> Seq<char>
    decreases n,
{
    if n == 0 {
        Seq::empty()
    } else {
        repeated(text, (n - 1) as nat) + text
    }
}

/// `String::push`: one character added at the end.
pub assume_specification[ String::push ](s: &mut String, c: char)
    ensures
        final(s)@ == old(s)@.push(c),
;

/// `str::repeat`: the string written `n` times over. It panics where the
/// length of the result is more than an allocation can have.
pub assume_specification[ str::repeat ](s: &str, n: usize) -> (r: String)
    requires
        bytes(s@) * n <= isize::MAX,
    ensures
        r@ == repeated(s@, n as nat),
;

/// How many bytes a string takes.
pub fn byte_len(s: &str) -> (n: usize)
    ensures
        n == bytes(s@),
{
    s.as_bytes().len()
}

/// Whether two strings hold the same characters.
pub fn same(a: &str, b: &str) -> (r: bool)
    ensures
        r == (a@ == b@),
{
    a.to_owned() == b.to_owned()
}

/// Every character takes at least one byte.
pub proof fn lemma_len_in_bytes(s: Seq<char>)
    ensures
        s.len() <= bytes(s),
    decreases s.len(),
{
    if s.len() > 0 {
        lemma_len_in_bytes(s.drop_first());
    }
}

/// Strings put together take the bytes of both.
pub proof fn lemma_bytes_concat(a: Seq<char>, b: Seq<char>)
    ensures
        bytes(a + b) == bytes(a) + bytes(b),
    decreases a.len(),
{
    if a.len() == 0 {
        assert(a + b =~= b);
    } else {
        assert((a + b).drop_first() =~= a.drop_first() + b);
        lemma_bytes_concat(a.drop_first(), b);
    }
}

/// A string written `n` times over takes its bytes `n` times.
pub proof fn lemma_bytes_repeated(s: Seq<char>, n: nat)
    ensures
        bytes(repeated(s, n)) == bytes(s) * n,
        repeated(s, n).len() == s.len() * n,
    decreases n,
{
    if n > 0 {
        lemma_bytes_repeated(s, (n - 1) as nat);
        lemma_bytes_concat(repeated(s, (n - 1) as nat), s);
        assert(bytes(s) * (n - 1) + bytes(s) == bytes(s) * n) by (nonlinear_arith);
        assert(s.len() * (n - 1) + s.len() == s.len() * n) by (nonlinear_arith);
    } else {
        assert(bytes(s) * n == 0) by (nonlinear_arith)
            requires
                n == 0,
        ;
        assert(s.len() * n == 0) by (nonlinear_arith)
            requires
                n == 0,
        ;
    }
}

/// An ASCII character takes one byte.
pub proof fn lemma_bytes_ascii(c: char)
    requires
        c as int <= 0x7f,
    ensures
        bytes(seq![c]) == 1,
{
    let s = seq![c];
    assert(vstd::utf8::is_ascii_chars(s));
    vstd::utf8::is_ascii_chars_encode_utf8(s);
}

/// The digit for a number below ten.
pub open spec fn digit(d: int) -> char {
    (0x30 + d) as char
}

/// A number written in decimal digits.
pub open spec fn decimal(n: nat) -> Seq<char>
    decreases n,
{
    if n < 10 {
        seq![digit(n as int)]
    } else {
        decimal(n / 10).push(digit((n % 10) as int))
    }
}

/// Writes a number in decimal digits.
pub fn push_decimal(s: &mut String, n: usize)
    ensures
        final(s)@ == old(s)@ + decimal(n as nat),
    decreases n,
{
    if n >= 10 {
        push_decimal(s, n / 10);
    }
    let d = (n % 10) as u8;
    s.push((0x30u8 + d) as char);
    assert(s@ =~= old(s)@ + decimal(n as nat));
}

/// Whether a string ends with a character.
pub fn ends_with(s: &str, c: char) -> (b: bool)
    ensures
        b == (s@.len() > 0 && s@.last() == c),
{
    let len = s.unicode_len();
    len > 0 && s.get_char(len - 1) == c
}

/// Whether a character occurs in a string.
pub fn contains_char(s: &str, c: char) -> (b: bool)
    ensures
        b == s@.contains(c),
{
    let len = s.unicode_len();
    let mut i: usize = 0;
    while i < len
        invariant
            len == s@.len(),
            i <= len,
            forall|j: int| 0 <= j < i ==> s@[j] != c,
        decreases len - i,
    {
        if s.get_char(i) == c {
            return true;
        }
        i += 1;
    }
    false
}

/// Whether `needle` stands in `s` from `at` on.
pub open spec fn stands_at(s: Seq<char>, needle: Seq<char>, at: int) -> bool {
    0 <= at <= s.len() - needle.len() && s.subrange(at, at + needle.len()) == needle
}

/// Whether `needle` stands somewhere in `s`.
pub open spec fn occurs(s: Seq<char>, needle: Seq<char>) -> bool {
    exists|at: int| stands_at(s, needle, at)
}

/// Whether `needle` stands somewhere in `s`.
pub fn contains(s: &str, needle: &str) -> (b: bool)
    ensures
        b == occurs(s@, needle@),
{
    let len = s.unicode_len();
    let n = needle.unicode_len();
    if n == 0 {
        assert(s@.subrange(0, 0) =~= needle@);
        assert(stands_at(s@, needle@, 0));
        return true;
    }
    if n > len {
        return false;
    }
    let places = len - n + 1;
    let mut at: usize = 0;
    while at < places
        invariant
            len == s@.len(),
            n == needle@.len(),
            places == len - n + 1,
            at <= places,
            1 <= n <= len,
            forall|before: int| 0 <= before < at ==> !stands_at(s@, needle@, before),
        decreases places - at,
    {
        let part = s.substring_char(at, at + n);
        if same(part, needle) {
            assert(stands_at(s@, needle@, at as int));
            return true;
        }
        at += 1;
    }
    false
}

/// Whether `s` starts with `prefix`.
pub fn starts_with(s: &str, prefix: &str) -> (b: bool)
    ensures
        b == prefix@.is_prefix_of(s@),
{
    let n = prefix.unicode_len();
    if n > s.unicode_len() {
        return false;
    }
    let start = s.substring_char(0, n);
    same(start, prefix)
}

/// The strings one after the other, with `separator` between them.
pub open spec fn joined(strings: Seq<Seq<char>>, separator: Seq<char>) -> Seq<char>
    decreases strings.len(),
{
    if strings.len() == 0 {
        Seq::empty()
    } else if strings.len() == 1 {
        strings[0]
    } else {
        joined(strings.drop_last(), separator) + separator + strings.last()
    }
}

/// The strings one after the other, with `separator` between them.
pub fn join(strings: &Vec<String>, separator: &str) -> (r: String)
    ensures
        r@ == joined(string_views(strings@), separator@),
{
    let ghost views = string_views(strings@);
    let mut r = String::new();
    let mut i: usize = 0;
    assert(r@ =~= joined(views.take(0), separator@));
    while i < strings.len()
        invariant
            views == string_views(strings@),
            i <= views.len(),
            r@ == joined(views.take(i as int), separator@),
        decreases views.len() - i,
    {
        let ghost before = r@;
        if i > 0 {
            r.append(separator);
        }
        r.append(strings[i].as_str());
        assert(views.take(i + 1).drop_last() =~= views.take(i as int));
        assert(views.take(i + 1).last() == strings@[i as int]@);
        assert(r@ =~= joined(views.take(i + 1), separator@));
        i += 1;
    }
    assert(views.take(i as int) =~= views);
    r
}

/// Whether a character is white space: a space, one of the controls from the tab
/// to the carriage return, the next-line control, or one of the wider spaces and
/// separators.
pub open spec fn is_whitespace(c: char) -> bool {
    ||| '\t' <= c <= '\r'
    ||| c == ' '
    ||| c == '\u{85}'
    ||| c == '\u{a0}'
    ||| c == '\u{1680}'
    ||| '\u{2000}' <= c <= '\u{200a}'
    ||| c == '\u{2028}'
    ||| c == '\u{2029}'
    ||| c == '\u{202f}'
    ||| c == '\u{205f}'
    ||| c == '\u{3000}'
}

/// `char::is_whitespace`: whether the character has the Unicode property
/// `White_Space`, which the characters above have and no others.
pub assume_specification[ char::is_whitespace ](c: char) -> (b: bool)
    ensures
        b == is_whitespace(c),
;

/// The words of a string: its longest stretches without white space.
pub open spec fn words(s: Seq<char>) -> Seq<Seq<char>>
    decreases s.len(),
{
    if s.len() == 0 {
        Seq::empty()
    } else {
        let before = words(s.drop_last());
        if is_whitespace(s.last()) {
            before
        } else if s.len() > 1 && !is_whitespace(s[s.len() - 2]) {
            before.drop_last().push(before.last().push(s.last()))
        } else {
            before.push(seq![s.last()])
        }
    }
}

/// The words of a string.
pub fn split_whitespace(s: &str) -> (list: Vec<String>)
    ensures
        string_views(list@) == words(s@),
{
    let len = s.unicode_len();
    let mut list: Vec<String> = Vec::new();
    let mut current = String::new();
    let mut open = false;
    let mut i: usize = 0;
    assert(string_views(list@) =~= words(s@.take(0)));
    while i < len
        invariant
            len == s@.len(),
            i <= len,
            open == (i > 0 && !is_whitespace(s@[i - 1])),
            if open {
                words(s@.take(i as int)) == string_views(list@).push(current@)
            } else {
                words(s@.take(i as int)) == string_views(list@) && current@.len() == 0
            },
        decreases len - i,
    {
        let c = s.get_char(i);
        let ghost done = string_views(list@);
        let ghost so_far = current@;
        assert(s@.take(i + 1).drop_last() =~= s@.take(i as int));
        assert(s@.take(i + 1).last() == c);
        if c.is_whitespace() {
            if open {
                list.push(current);
                current = String::new();
                assert(string_views(list@) =~= done.push(so_far));
            }
            open = false;
        } else {
            current.push(c);
            if open {
                assert(done.push(so_far).drop_last() =~= done);
            } else {
                assert(current@ =~= seq![c]);
            }
            open = true;
            assert(words(s@.take(i + 1)) =~= string_views(list@).push(current@));
        }
        i += 1;
    }
    assert(s@.take(i as int) =~= s@);
    if open {
        let ghost done = string_views(list@);
        let ghost so_far = current@;
        list.push(current);
        assert(string_views(list@) =~= done.push(so_far));
    }
    list
}

/// What stands before the first space.
pub open spec fn before_space(s: Seq<char>) -> Seq<char>
    decreases s.len(),
{
    if s.len() == 0 || s[0] == ' ' {
        Seq::empty()
    } else {
        seq![s[0]] + before_space(s.drop_first())
    }
}

/// What stands after the last space.
pub open spec fn after_space(s: Seq<char>) -> Seq<char>
    decreases s.len(),
{
    if s.len() == 0 || s.last() == ' ' {
        Seq::empty()
    } else {
        after_space(s.drop_last()).push(s.last())
    }
}

/// What stands before the first space.
pub fn first_part(s: &str) -> (part: &str)
    ensures
        part@ == before_space(s@),
{
    let len = s.unicode_len();
    let mut i: usize = 0;
    assert(s@.skip(0) =~= s@);
    assert(s@.take(0) + before_space(s@) =~= before_space(s@));
    while i < len && s.get_char(i) != ' '
        invariant
            len == s@.len(),
            i <= len,
            before_space(s@) == s@.take(i as int) + before_space(s@.skip(i as int)),
        decreases len - i,
    {
        assert(s@.skip(i as int).drop_first() =~= s@.skip(i + 1));
        assert(s@.take(i + 1) =~= s@.take(i as int).push(s@[i as int]));
        assert(before_space(s@) =~= s@.take(i + 1) + before_space(s@.skip(i + 1)));
        i += 1;
    }
    assert(before_space(s@.skip(i as int)) =~= Seq::empty());
    assert(before_space(s@) =~= s@.subrange(0, i as int));
    s.substring_char(0, i)
}

/// What stands after the last space.
pub fn last_part(s: &str) -> (part: &str)
    ensures
        part@ == after_space(s@),
        s@.len() - part@.len() >= 0,
        part@ == s@.skip(s@.len() - part@.len()),
{
    let len = s.unicode_len();
    let mut i: usize = len;
    assert(s@.take(len as int) =~= s@);
    assert(after_space(s@) + s@.skip(len as int) =~= after_space(s@));
    while i > 0 && s.get_char(i - 1) != ' '
        invariant
            len == s@.len(),
            i <= len,
            after_space(s@) == after_space(s@.take(i as int)) + s@.skip(i as int),
        decreases i,
    {
        assert(s@.take(i as int).drop_last() =~= s@.take(i - 1));
        assert(s@.skip(i - 1) =~= seq![s@[i - 1]] + s@.skip(i as int));
        assert(after_space(s@) =~= after_space(s@.take(i - 1)) + s@.skip(i - 1));
        i -= 1;
    }
    assert(after_space(s@.take(i as int)) =~= Seq::empty());
    assert(after_space(s@) =~= s@.subrange(i as int, len as int));
    assert(s@.subrange(i as int, len as int) =~= s@.skip(i as int));
    s.substring_char(i, len)
}

/// The number that a digit stands for.
pub open spec fn digit_value(c: char) -> Option<nat> {
    if '0' <= c && c <= '9' {
        Some((c as int - 0x30) as nat)
    } else {
        None
    }
}

/// The number that a string of digits stands for, leading zeros allowed.
pub open spec fn digits_value(s: Seq<char>) -> Option<nat>
    decreases s.len(),
{
    if s.len() == 0 {
        Some(0)
    } else {
        match (digits_value(s.drop_last()), digit_value(s.last())) {
            (Some(before), Some(digit)) => Some(before * 10 + digit),
            _ => None,
        }
    }
}

/// The byte that a string stands for: digits, a plus sign before them allowed,
/// at least one of them, and a number that a byte can hold.
pub open spec fn byte_value(s: Seq<char>) -> Option<u8> {
    let digits = if s.len() > 0 && s[0] == '+' {
        s.drop_first()
    } else {
        s
    };
    match digits_value(digits) {
        Some(n) => if digits.len() > 0 && n <= 0xff {
            Some(n as u8)
        } else {
            None
        },
        None => None,
    }
}

proof fn lemma_digits_grow(s: Seq<char>, i: int)
    requires
        0 <= i <= s.len(),
    ensures
        digits_value(s) is Some ==> {
            &&& digits_value(s.take(i)) is Some
            &&& digits_value(s.take(i))->0 <= digits_value(s)->0
        },
    decreases s.len() - i,
{
    if i < s.len() {
        lemma_digits_grow(s, i + 1);
        assert(s.take(i + 1).drop_last() =~= s.take(i));
    } else {
        assert(s.take(i) =~= s);
    }
}

/// The byte that a string stands for.
pub fn parse_byte(s: &str) -> (n: Option<u8>)
    ensures
        n == byte_value(s@),
{
    let len = s.unicode_len();
    let start: usize = if len > 0 && s.get_char(0) == '+' {
        1
    } else {
        0
    };
    let ghost digits = s@.skip(start as int);
    assert(start == 1 ==> digits =~= s@.drop_first());
    assert(start == 0 ==> digits =~= s@);
    if start == len {
        return None;
    }
    let mut value: u32 = 0;
    let mut i: usize = start;
    assert(digits.take(0) =~= Seq::empty());
    while i < len
        invariant
            len == s@.len(),
            start <= i <= len,
            start < len,
            digits == s@.skip(start as int),
            byte_value(s@) == (match digits_value(digits) {
                Some(n) => if n <= 0xff {
                    Some(n as u8)
                } else {
                    None
                },
                None => None,
            }),
            value <= 0xff,
            digits_value(digits.take(i - start)) == Some(value as nat),
        decreases len - i,
    {
        let c = s.get_char(i);
        proof {
            lemma_digits_grow(digits, i - start + 1);
            assert(digits.take(i - start + 1).drop_last() =~= digits.take(i - start));
            assert(digits.take(i - start + 1).last() == c);
        }
        if !('0' <= c && c <= '9') {
            return None;
        }
        value = value * 10 + (c as u32 - 0x30);
        if value > 0xff {
            return None;
        }
        i += 1;
    }
    assert(digits.take(i - start) =~= digits);
    Some(value as u8)
}

/// What a string with characters outside ASCII is in lower case.
pub uninterp spec fn wide_lowercase(s: Seq<char>) -> Seq<char>;

/// An ASCII character in lower case.
pub open spec fn ascii_lowercase(c: char) -> char {
    if 'A' <= c <= 'Z' {
        (c as u32 + 0x20) as char
    } else {
        c
    }
}

/// What a string is in lower case.
pub open spec fn lowercase(s: Seq<char>) -> Seq<char> {
    if vstd::utf8::is_ascii_chars(s) {
        s.map_values(|c: char| ascii_lowercase(c))
    } else {
        wide_lowercase(s)
    }
}

/// `str::to_lowercase`: the string in lower case, as the Unicode property
/// `Lowercase` and its mappings say. Of ASCII strings that is each capital letter
/// replaced by its small one; the mappings of others are not restated here.
pub assume_specification[ str::to_lowercase ](s: &str) -> (r: String)
    ensures
        r@ == if vstd::utf8::is_ascii_chars(s@) {
            s@.map_values(|c: char| ascii_lowercase(c))
        } else {
            wide_lowercase(s@)
        },
;

/// How a list of strings is written for inspection.
pub uninterp spec fn debug_list(strings: Seq<Seq<char>>) -> Seq<char>;

/// `Debug` on a `Vec<String>`: the strings in quotes and brackets, with what
/// cannot be shown as it is escaped. The escapes are not restated here.
#[verifier::external_body]
fn debug_strings(strings: &Vec<String>) -> (r: String)
    ensures
        r@ == debug_list(string_views(strings@)),
{
    format!("{:?}", strings)
}

/// Writes a list of strings for inspection.
pub fn push_debug(s: &mut String, strings: &Vec<String>)
    ensures
        final(s)@ == old(s)@ + debug_list(string_views(strings@)),
{
    s.append(debug_strings(strings).as_str());
}

} // verus!
