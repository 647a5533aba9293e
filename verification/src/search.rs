//! Commands that search for a regular expression.
//!
//! A regular expression stands here as the string that it was written as. The
//! one last searched for is kept in a register.

use crate::editor::{Context, Layer, RegexPrompt};
use crate::goto;
use crate::selection::{Range, Selection, SelectionView};
use crate::strings;
use crate::text;
use regex::Regex;
use ropey::Rope;
use vstd::prelude::*;

verus! {

/// `regex::Error`, carried through as an opaque value.
#[verifier::external_type_specification]
#[verifier::external_body]
pub struct ExRegexError(regex::Error);

/// The first match of a regular expression in a string, from byte `start` on: at
/// which byte it starts and at which it ends.
pub uninterp spec fn found(pattern: Seq<char>, haystack: Seq<char>, start: nat) -> Option<
    (usize, usize),
>;

/// `Regex::find_at` for the expression that `Regex::new` makes of the pattern.
/// What matches is not restated here: where the expression can be made, the
/// result is a function of the three arguments, and a match starts at `start` or
/// after it, ends no earlier than it starts, and lies inside the string. Which
/// expressions can be made is left open: one that takes up too much memory is
/// refused too. `Regex::find_at` panics where `start` is past the end of the
/// string.
#[verifier::external_body]
fn find_at(pattern: &str, haystack: &str, start: usize) -> (result: Result<
    Option<(usize, usize)>,
    regex::Error,
>)
    requires
        start <= strings::bytes(haystack@),
    ensures
        result matches Ok(found_at) ==> found_at == found(pattern@, haystack@, start as nat),
        result matches Ok(Some(found_at)) ==> start <= found_at.0 <= found_at.1 <= strings::bytes(
            haystack@,
        ),
{
    let regex = Regex::new(pattern)?;
    Ok(regex.find_at(haystack, start).map(|mat| (mat.start(), mat.end())))
}

/// Whether a character means something in a regular expression.
pub open spec fn is_meta_character(c: char) -> bool {
    c == '\\' || c == '.' || c == '+' || c == '*' || c == '?' || c == '(' || c == ')' || c == '|'
        || c == '[' || c == ']' || c == '{' || c == '}' || c == '^' || c == '$' || c == '#' || c
        == '&' || c == '-' || c == '~'
}

/// A string with a backslash before every character that means something in a
/// regular expression.
pub open spec fn escaped(s: Seq<char>) -> Seq<char>
    decreases s.len(),
{
    if s.len() == 0 {
        Seq::empty()
    } else {
        let before = escaped(s.drop_last());
        if is_meta_character(s.last()) {
            before.push('\\').push(s.last())
        } else {
            before.push(s.last())
        }
    }
}

/// `regex::escape`: the string with a backslash before every character that
/// means something in a regular expression.
pub assume_specification[ regex::escape ](pattern: &str) -> (r: String)
    ensures
        r@ == escaped(pattern@),
;

/// The first match in a string that starts at byte `start` or after it, or else
/// the first one of the string.
pub open spec fn next_match(pattern: Seq<char>, contents: Seq<char>, start: nat) -> Option<
    (usize, usize),
> {
    match found(pattern, contents, start) {
        Some(mat) => Some(mat),
        None => found(pattern, contents, 0),
    }
}

/// The position after the character under the cursor, or the end of the text.
pub open spec fn after_cursor(cx: Context) -> int {
    if cx.cursor() < cx.text().len() {
        cx.cursor() + 1
    } else {
        cx.text().len() as int
    }
}

/// The byte of the text from which a search starts: the one after the cursor.
pub open spec fn search_start(cx: Context) -> nat {
    strings::bytes(cx.text().take(after_cursor(cx)))
}

/// The characters of a match, with the cursor on the last. An empty match at the
/// start of the text has none.
pub open spec fn match_range(s: Seq<char>, mat: (usize, usize)) -> Option<Range> {
    let start = text::char_at_byte(s, mat.0 as int);
    let end = text::char_at_byte(s, mat.1 as int);
    if end == 0 {
        None
    } else {
        Some(Range::between(start as usize, (end - 1) as usize))
    }
}

/// Whether `post` is `pre` with a match selected and the view centered on it: as
/// one more range, as `push` adds it, where it extends, otherwise by itself.
pub open spec fn takes<M: Fn(&Selection, Range) -> Selection>(
    pre: Context,
    post: Context,
    range: Range,
    extend: bool,
    push: M,
) -> bool {
    if extend {
        exists|selection: Selection| #[trigger]
            call_ensures(push, (&pre.editor.doc.selection, range), selection) && goto::centers(
                pre,
                post,
                selection@,
            )
    } else {
        goto::centers(pre, post, SelectionView::single(range.anchor, range.head))
    }
}

/// Whether `post` is what a search makes of `pre` that has come to `mat`.
pub open spec fn lands<M: Fn(&Selection, Range) -> Selection>(
    pre: Context,
    post: Context,
    mat: Option<(usize, usize)>,
    extend: bool,
    push: M,
) -> bool {
    match mat {
        Some(mat) => match match_range(pre.text(), mat) {
            Some(range) => takes(pre, post, range, extend, push),
            None => post == pre,
        },
        None => post == pre,
    }
}

/// Whether `push` can add a range to the selection, and leaves it inside the
/// text.
pub open spec fn can_push<M: Fn(&Selection, Range) -> Selection>(cx: Context, push: M) -> bool {
    forall|range: Range|
        range.within(cx.text().len() as int) ==> {
            &&& #[trigger] call_requires(push, (&cx.editor.doc.selection, range))
            &&& forall|selection: Selection|
                call_ensures(push, (&cx.editor.doc.selection, range), selection)
                    ==> #[trigger] selection@.within(cx.text().len() as int)
        }
}

/// Selects what a search has come to, given by the bytes at which it starts and
/// ends.
pub fn select_match<M: Fn(&Selection, Range) -> Selection>(
    cx: &mut Context,
    mat: Option<(usize, usize)>,
    extend: bool,
    push: &M,
)
    requires
        old(cx).wf(),
        mat matches Some(mat) ==> mat.0 <= mat.1 <= strings::bytes(old(cx).text()),
        extend ==> can_push(*old(cx), *push),
    ensures
        lands(*old(cx), *final(cx), mat, extend, *push),
{
    if let Some(mat) = mat {
        let ghost s = cx.text();
        proof {
            text::lemma_char_at_byte(s, mat.0 as int, mat.1 as int);
        }
        let text = &cx.editor.doc.text;
        let start = text.byte_to_char(mat.0);
        let end = text.byte_to_char(mat.1);
        if end == 0 {
            // skip empty matches that don't make sense
            return;
        }
        let head = end - 1;
        let range = Range::new(start, head);
        assert(range.within(s.len() as int));
        let selection = if extend {
            push(&cx.editor.doc.selection, range)
        } else {
            Selection::single(start, head)
        };
        goto::arrive(cx, selection);
    }
}

/// Whether `post` is what searching `contents` for the next match, from after the
/// cursor on, makes of `pre`.
pub open spec fn searches<M: Fn(&Selection, Range) -> Selection>(
    pre: Context,
    post: Context,
    contents: Seq<char>,
    pattern: Seq<char>,
    extend: bool,
    push: M,
) -> bool {
    lands(pre, post, next_match(pattern, contents, search_start(pre)), extend, push)
}

/// Whether a string can be searched in place of the text: it reaches to where the
/// search starts, and no match in it lies past the end of the text.
pub open spec fn stands_for_text(cx: Context, contents: Seq<char>) -> bool {
    search_start(cx) <= strings::bytes(contents) <= strings::bytes(cx.text())
}

/// Whether `find` can be asked for the first match in a string from byte `start`
/// on. A match lies inside the string.
pub open spec fn can_find<E, R: Fn(&str, usize) -> Result<Option<(usize, usize)>, E>>(
    find: R,
    contents: &str,
    start: usize,
) -> bool {
    &&& call_requires(find, (contents, start))
    &&& forall|mat: (usize, usize)| #[trigger]
        call_ensures(find, (contents, start), Ok(Some(mat))) ==> mat.0 <= mat.1 <= strings::bytes(
            contents@,
        )
}

/// Whether `outcome` is what looking for the next match comes to: what `find`
/// answers from byte `start` on, or else, where it answers that there is none,
/// from the first byte on.
pub open spec fn finds_next<E, R: Fn(&str, usize) -> Result<Option<(usize, usize)>, E>>(
    find: R,
    contents: &str,
    start: usize,
    outcome: Result<Option<(usize, usize)>, E>,
) -> bool {
    exists|first: Result<Option<(usize, usize)>, E>|
        {
            &&& #[trigger] call_ensures(find, (contents, start), first)
            &&& match first {
                Ok(None) => call_ensures(find, (contents, 0usize), outcome),
                _ => outcome == first,
            }
        }
}

/// Whether a search that looks with `find` makes `post` of `pre` and says
/// `searched`: the match that it comes to is selected, and where `find` fails
/// nothing changes.
pub open spec fn searches_with<
    E,
    R: Fn(&str, usize) -> Result<Option<(usize, usize)>, E>,
    M: Fn(&Selection, Range) -> Selection,
>(
    pre: Context,
    post: Context,
    contents: &str,
    find: R,
    extend: bool,
    push: M,
    searched: bool,
) -> bool {
    exists|outcome: Result<Option<(usize, usize)>, E>|
        {
            &&& #[trigger] finds_next(find, contents, search_start(pre) as usize, outcome)
            &&& searched == (outcome is Ok)
            &&& match outcome {
                Ok(mat) => lands(pre, post, mat, extend, push),
                Err(_) => post == pre,
            }
        }
}

/// Searches for the next match after the cursor, and around the end of the text.
/// `contents` is the text as a string, as it was when the search began. `find`
/// stands for the regular expression: it answers with the first match in a string
/// from a byte on, or fails where there is no such expression. Says whether it
/// answered.
pub fn search_impl<
    E,
    R: Fn(&str, usize) -> Result<Option<(usize, usize)>, E>,
    M: Fn(&Selection, Range) -> Selection,
>(cx: &mut Context, contents: &str, find: &R, extend: bool, push: &M) -> (searched: bool)
    requires
        old(cx).wf(),
        stands_for_text(*old(cx), contents@),
        can_find(*find, contents, search_start(*old(cx)) as usize),
        can_find(*find, contents, 0),
        extend ==> can_push(*old(cx), *push),
    ensures
        searches_with(*old(cx), *final(cx), contents, *find, extend, *push, searched),
{
    let cursor = cx.editor.doc.selection.cursor();
    let text = &cx.editor.doc.text;
    let start = if cursor < text.len_chars() {
        text.char_to_byte(cursor + 1)
    } else {
        text.char_to_byte(text.len_chars())
    };
    // find the next match after the cursor, loop around the end
    // Careful, matches have bytes as offsets, not character indices!
    let outcome = match find(contents, start) {
        Ok(None) => find(contents, 0),
        first => first,
    };
    assert(finds_next(*find, contents, start, outcome));
    match outcome {
        Ok(mat) => {
            select_match(cx, mat, extend, push);
            true
        },
        Err(_) => false,
    }
}

/// Puts a prompt up for the regular expression to search for.
pub fn search(cx: &mut Context)
    ensures
        *final(cx) == old(cx).with_layer(Some(Layer::RegexPrompt(RegexPrompt::Search))),
{
    cx.push_layer(Layer::RegexPrompt(RegexPrompt::Search));
}

/// The register that keeps the regular expression last searched for.
pub const SEARCH_REGISTER: char = '\\';

/// Whether `post` is `pre` with a pattern kept as the one last searched for.
pub open spec fn keeps_pattern(pre: Context, post: Context, pattern: Seq<char>) -> bool {
    &&& post == pre.with_registers(post.editor.registers)
    &&& post.editor.registers@ == pre.editor.registers@.insert(SEARCH_REGISTER, seq![pattern])
}

fn keep_pattern(cx: &mut Context, pattern: String)
    ensures
        keeps_pattern(*old(cx), *final(cx), pattern@),
{
    let ghost kept = pattern@;
    let values = vec![pattern];
    assert(strings::string_views(values@) =~= seq![kept]);
    cx.editor.registers.write(SEARCH_REGISTER, values);
}

/// Whether `post` is what searching for the regular expression of the prompt
/// makes of `pre`: the next match is selected and the expression kept. Nothing
/// changes where the expression cannot be searched for.
pub open spec fn searches_and_keeps<M: Fn(&Selection, Range) -> Selection>(
    pre: Context,
    post: Context,
    contents: Seq<char>,
    pattern: Seq<char>,
    push: M,
    searched: bool,
) -> bool {
    if searched {
        exists|between: Context|
            {
                &&& searches(pre, between, contents, pattern, false, push)
                &&& #[trigger] keeps_pattern(between, post, pattern)
            }
    } else {
        post == pre
    }
}

/// Searches for the regular expression that was typed at the prompt of `search`.
pub fn search_regex<M: Fn(&Selection, Range) -> Selection>(
    cx: &mut Context,
    contents: &str,
    pattern: &str,
    push: &M,
) -> (searched: bool)
    requires
        old(cx).wf(),
        stands_for_text(*old(cx), contents@),
    ensures
        searches_and_keeps(*old(cx), *final(cx), contents@, pattern@, *push, searched),
{
    let find = |haystack: &str, start: usize| -> (result: Result<
        Option<(usize, usize)>,
        regex::Error,
    >)
        requires
            start <= strings::bytes(haystack@),
        ensures
            result matches Ok(mat) ==> mat == found(pattern@, haystack@, start as nat),
            result matches Ok(Some(mat)) ==> mat.0 <= mat.1 <= strings::bytes(haystack@),
        { find_at(pattern, haystack, start) };
    let searched = search_impl(cx, contents, &find, false, push);
    let ghost between = *cx;
    if searched {
        keep_pattern(cx, pattern.to_owned());
        assert(keeps_pattern(between, *cx, pattern@));
    }
    searched
}

/// The regular expression last searched for.
pub open spec fn last_pattern(cx: Context) -> Option<Seq<char>> {
    if cx.editor.registers@.contains_key(SEARCH_REGISTER) {
        Some(cx.editor.registers@[SEARCH_REGISTER][0])
    } else {
        None
    }
}

/// Whether the register for the last search is as searching leaves it: it holds
/// an expression, if it was ever written.
pub open spec fn pattern_kept(cx: Context) -> bool {
    cx.editor.registers@.contains_key(SEARCH_REGISTER)
        ==> cx.editor.registers@[SEARCH_REGISTER].len() > 0
}

/// Whether `post` is what searching again makes of `pre`. Nothing changes where
/// nothing was searched for, or where the expression cannot be searched for.
pub open spec fn searches_again<M: Fn(&Selection, Range) -> Selection>(
    pre: Context,
    post: Context,
    extend: bool,
    push: M,
    searched: bool,
) -> bool {
    match last_pattern(pre) {
        Some(pattern) => if searched {
            searches(pre, post, pre.text(), pattern, extend, push)
        } else {
            post == pre
        },
        None => searched && post == pre,
    }
}

/// Searches again for what was last searched for. Says whether that is a regular
/// expression that can be searched for.
pub fn search_next_impl<M: Fn(&Selection, Range) -> Selection>(
    cx: &mut Context,
    extend: bool,
    push: &M,
) -> (searched: bool)
    requires
        old(cx).wf(),
        pattern_kept(*old(cx)),
        extend ==> can_push(*old(cx), *push),
    ensures
        searches_again(*old(cx), *final(cx), extend, *push, searched),
{
    let query = match cx.editor.registers.read(SEARCH_REGISTER) {
        Some(values) => {
            assert(strings::string_views(values@)[0] == values@[0]@);
            values[0].clone()
        },
        None => return true,
    };
    let contents = text::to_string(&cx.editor.doc.text);
    proof {
        text::lemma_bytes_before(cx.text(), after_cursor(*cx));
    }
    let find = |haystack: &str, start: usize| -> (result: Result<
        Option<(usize, usize)>,
        regex::Error,
    >)
        requires
            start <= strings::bytes(haystack@),
        ensures
            result matches Ok(mat) ==> mat == found(query@, haystack@, start as nat),
            result matches Ok(Some(mat)) ==> mat.0 <= mat.1 <= strings::bytes(haystack@),
        { find_at(query.as_str(), haystack, start) };
    search_impl(cx, contents.as_str(), &find, extend, push)
}

/// Selects the next match of what was last searched for.
pub fn search_next<M: Fn(&Selection, Range) -> Selection>(cx: &mut Context, push: &M) -> (searched:
    bool)
    requires
        old(cx).wf(),
        pattern_kept(*old(cx)),
    ensures
        searches_again(*old(cx), *final(cx), false, *push, searched),
{
    search_next_impl(cx, false, push)
}

/// Adds the next match of what was last searched for to the selection.
pub fn extend_search_next<M: Fn(&Selection, Range) -> Selection>(
    cx: &mut Context,
    push: &M,
) -> (searched: bool)
    requires
        old(cx).wf(),
        pattern_kept(*old(cx)),
        can_push(*old(cx), *push),
    ensures
        searches_again(*old(cx), *final(cx), true, *push, searched),
{
    search_next_impl(cx, true, push)
}

/// Whether `post` is what searching for `query` itself makes of `pre`: it is
/// kept, with what means something in a regular expression escaped, and the next
/// match is selected.
pub open spec fn searches_for<M: Fn(&Selection, Range) -> Selection>(
    pre: Context,
    post: Context,
    query: Seq<char>,
    push: M,
    searched: bool,
) -> bool {
    exists|between: Context| #[trigger]
        keeps_pattern(pre, between, escaped(query)) && searches_again(
            between,
            post,
            false,
            push,
            searched,
        )
}

/// Whether `post` is what searching for what the primary range holds, as
/// `fragment` says, makes of `pre`.
pub open spec fn searches_for_selection<
    F: Fn(&Rope, Range) -> String,
    M: Fn(&Selection, Range) -> Selection,
>(pre: Context, post: Context, fragment: F, push: M, searched: bool) -> bool {
    exists|query: String| #[trigger]
        call_ensures(fragment, (&pre.editor.doc.text, pre.selection().primary()), query)
            && searches_for(pre, post, query@, push, searched)
}

/// Searches for what the primary range holds, as `fragment` says.
pub fn search_selection<F: Fn(&Rope, Range) -> String, M: Fn(&Selection, Range) -> Selection>(
    cx: &mut Context,
    fragment: F,
    push: &M,
) -> (searched: bool)
    requires
        old(cx).wf(),
        call_requires(fragment, (&old(cx).editor.doc.text, old(cx).selection().primary())),
    ensures
        searches_for_selection(*old(cx), *final(cx), fragment, *push, searched),
{
    let query = fragment(&cx.editor.doc.text, cx.editor.doc.selection.primary());
    let regex = regex::escape(query.as_str());
    keep_pattern(cx, regex);
    let ghost between = *cx;
    let searched = search_next(cx, push);
    assert(keeps_pattern(*old(cx), between, escaped(query@)));
    assert(searches_for(*old(cx), *cx, query@, *push, searched));
    searched
}

} // verus!
