//! What is made of what was typed at a prompt.

use crate::cmd;
use crate::editor::{Action, Buffer, Context, EffectView, IndentStyle, Severity, UndoKind};
use crate::laws::remade::{self, added};
use crate::strings;
use crate::typed::Typed;
use vstd::prelude::*;

verus! {

/// Whether a character is one of the ten digits.
pub open spec fn is_digit(c: char) -> bool {
    '0' <= c && c <= '9'
}

proof fn lemma_decimal(n: nat)
    ensures
        strings::decimal(n).len() > 0,
        strings::digits_value(strings::decimal(n)) == Some(n),
        forall|i: int|
            0 <= i < strings::decimal(n).len() ==> is_digit(#[trigger] strings::decimal(n)[i]),
        n < 10 ==> strings::decimal(n).len() == 1,
        n >= 10 ==> strings::decimal(n).len() > 1 && strings::decimal(n)[0] != '0',
        n > 0 ==> strings::decimal(n)[0] != '0',
    decreases n,
{
    let s = strings::decimal(n);
    if n < 10 {
        assert(s.drop_last() =~= Seq::empty());
        assert(strings::digits_value(s.drop_last()) == Some(0nat));
    } else {
        lemma_decimal(n / 10);
        assert(s.drop_last() =~= strings::decimal(n / 10));
        assert(s.last() == strings::digit((n % 10) as int));
        assert(s[0] == strings::decimal(n / 10)[0]);
    }
}

/// A number is read as it was written, and is written without leading zeros.
pub proof fn numbers_are_read_as_written(n: nat)
    ensures
        strings::digits_value(strings::decimal(n)) == Some(n),
        forall|i: int|
            0 <= i < strings::decimal(n).len() ==> is_digit(#[trigger] strings::decimal(n)[i]),
        strings::decimal(n).len() > 0,
        n > 0 ==> strings::decimal(n)[0] != '0',
        strings::byte_value(strings::decimal(n)) == if n <= 255 {
            Some(n as u8)
        } else {
            None
        },
        strings::byte_value(seq!['+'] + strings::decimal(n)) == if n <= 255 {
            Some(n as u8)
        } else {
            None
        },
{
    lemma_decimal(n);
    let s = strings::decimal(n);
    assert(is_digit(s[0]));
    assert((seq!['+'] + s).drop_first() =~= s);
}

/// Whether `starts` are where the words of a string start: the words are its
/// longest stretches without white space, in their order, and all of them.
pub open spec fn cut_into(s: Seq<char>, words: Seq<Seq<char>>, starts: Seq<int>) -> bool {
    &&& starts.len() == words.len()
    &&& forall|i: int|
        0 <= i < words.len() ==> {
            let word = #[trigger] words[i];
            let end = starts[i] + word.len();
            &&& word.len() > 0
            &&& 0 <= starts[i] && end <= s.len()
            &&& word == s.subrange(starts[i], end)
            &&& starts[i] > 0 ==> strings::is_whitespace(s[starts[i] - 1])
            &&& end < s.len() ==> strings::is_whitespace(s[end])
        }
    &&& forall|i: int, k: int|
        0 <= i < words.len() && 0 <= k < words[i].len() ==> !strings::is_whitespace(
            #[trigger] words[i][k],
        )
    &&& forall|i: int, j: int|
        0 <= i < j < words.len() ==> #[trigger] starts[i] + words[i].len() < #[trigger] starts[j]
    &&& forall|pos: int|
        0 <= pos < s.len() && !strings::is_whitespace(#[trigger] s[pos]) ==> exists|i: int|
            0 <= i < words.len() && #[trigger] starts[i] <= pos < starts[i] + words[i].len()
}

/// A string is cut into its words: the longest stretches without white space, in
/// their order.
pub proof fn words_are_what_stands_between_blanks(s: Seq<char>) -> (starts: Seq<int>)
    ensures
        cut_into(s, strings::words(s), starts),
    decreases s.len(),
{
    if s.len() == 0 {
        Seq::empty()
    } else {
        let shorter = s.drop_last();
        let before = strings::words(shorter);
        let begun = words_are_what_stands_between_blanks(shorter);
        let last = s.len() - 1;
        let words = strings::words(s);
        assert forall|i: int| 0 <= i < before.len() implies begun[i] + (
        #[trigger] before[i]).len() <= last && before[i] == s.subrange(
            begun[i],
            begun[i] + before[i].len(),
        ) by {
            assert(shorter.subrange(begun[i], begun[i] + before[i].len()) =~= s.subrange(
                begun[i],
                begun[i] + before[i].len(),
            ));
        }
        if strings::is_whitespace(s.last()) {
            assert forall|pos: int|
                0 <= pos < s.len() && !strings::is_whitespace(#[trigger] s[pos]) implies exists|
                i: int,
            |
                0 <= i < words.len() && #[trigger] begun[i] <= pos < begun[i] + words[i].len() by {
                assert(shorter[pos] == s[pos]);
            }
            begun
        } else if s.len() > 1 && !strings::is_whitespace(s[s.len() - 2]) {
            lemma_last_word_grows(s, before, begun);
            begun
        } else {
            let starts = begun.push(last);
            lemma_word_starts(s, before, begun);
            starts
        }
    }
}

proof fn lemma_last_word_grows(s: Seq<char>, before: Seq<Seq<char>>, begun: Seq<int>)
    requires
        s.len() > 1,
        before == strings::words(s.drop_last()),
        cut_into(s.drop_last(), before, begun),
        !strings::is_whitespace(s.last()),
        !strings::is_whitespace(s[s.len() - 2]),
    ensures
        cut_into(s, strings::words(s), begun),
{
    let shorter = s.drop_last();
    let last = s.len() - 1;
    let words = strings::words(s);
    assert(shorter[last - 1] == s[last - 1]);
    let k = choose|k: int|
        0 <= k < before.len() && #[trigger] begun[k] <= last - 1 < begun[k] + before[k].len();
    let n = before.len() - 1;
    if k < n {
        assert(begun[k] + before[k].len() < begun[n]);
        assert(before[n].len() > 0);
    }
    assert(begun[n] + before[n].len() == last);
    assert(words[n] == before[n].push(s.last()));
    assert(words[n] =~= s.subrange(begun[n], s.len() as int)) by {
        assert(before[n] == shorter.subrange(begun[n], last));
    }
    assert forall|i: int| 0 <= i < n implies {
        let word = #[trigger] words[i];
        let end = begun[i] + word.len();
        &&& word.len() > 0
        &&& 0 <= begun[i] && end < last
        &&& word == s.subrange(begun[i], end)
        &&& begun[i] > 0 ==> strings::is_whitespace(s[begun[i] - 1])
        &&& strings::is_whitespace(s[end])
    } by {
        assert(words[i] == before[i]);
        assert(begun[i] + before[i].len() < begun[n]);
        assert(shorter.subrange(begun[i], begun[i] + before[i].len()) =~= s.subrange(
            begun[i],
            begun[i] + before[i].len(),
        ));
    }
    assert forall|i: int, j: int| 0 <= i < words.len() && 0 <= j < words[i].len() implies
        !strings::is_whitespace(#[trigger] words[i][j]) by {
        if i < n {
            assert(!strings::is_whitespace(before[i][j]));
        } else if j < before[n].len() {
            assert(!strings::is_whitespace(before[n][j]));
        }
    }
    assert forall|i: int, j: int| 0 <= i < j < words.len() implies #[trigger] begun[i]
        + words[i].len() < #[trigger] begun[j] by {
        assert(begun[i] + before[i].len() < begun[j]);
    }
    assert forall|pos: int|
        0 <= pos < s.len() && !strings::is_whitespace(#[trigger] s[pos]) implies exists|i: int|
        0 <= i < words.len() && #[trigger] begun[i] <= pos < begun[i] + words[i].len() by {
        if pos == last {
            assert(begun[n] <= pos < begun[n] + words[n].len());
        } else {
            assert(shorter[pos] == s[pos]);
            let i = choose|i: int|
                0 <= i < before.len() && #[trigger] begun[i] <= pos < begun[i] + before[i].len();
            assert(begun[i] <= pos < begun[i] + words[i].len());
        }
    }
}

proof fn lemma_word_starts(s: Seq<char>, before: Seq<Seq<char>>, begun: Seq<int>)
    requires
        s.len() > 0,
        before == strings::words(s.drop_last()),
        cut_into(s.drop_last(), before, begun),
        !strings::is_whitespace(s.last()),
        s.len() > 1 ==> strings::is_whitespace(s[s.len() - 2]),
    ensures
        cut_into(s, strings::words(s), begun.push(s.len() - 1)),
{
    let shorter = s.drop_last();
    let last = s.len() - 1;
    let words = strings::words(s);
    let starts = begun.push(last);
    let n = before.len() as int;
    assert(words == before.push(seq![s.last()]));
    assert(words[n] =~= s.subrange(last, s.len() as int));
    assert forall|i: int| 0 <= i < n implies {
        let word = #[trigger] words[i];
        let end = starts[i] + word.len();
        &&& word.len() > 0
        &&& 0 <= starts[i] && end < last
        &&& word == s.subrange(starts[i], end)
        &&& starts[i] > 0 ==> strings::is_whitespace(s[starts[i] - 1])
        &&& strings::is_whitespace(s[end])
    } by {
        let word = before[i];
        let end = begun[i] + word.len();
        assert(words[i] == word);
        if end == last {
            assert(!strings::is_whitespace(before[i][word.len() - 1]));
            assert(before[i][word.len() - 1] == shorter[last - 1]);
        }
        assert(shorter.subrange(begun[i], end) =~= s.subrange(begun[i], end));
    }
    assert forall|i: int, j: int| 0 <= i < words.len() && 0 <= j < words[i].len() implies
        !strings::is_whitespace(#[trigger] words[i][j]) by {
        if i < n {
            assert(!strings::is_whitespace(before[i][j]));
        }
    }
    assert forall|i: int, j: int| 0 <= i < j < words.len() implies #[trigger] starts[i]
        + words[i].len() < #[trigger] starts[j] by {
        if j < n {
            assert(begun[i] + before[i].len() < begun[j]);
        } else {
            let word = words[i];
        }
    }
    assert forall|pos: int|
        0 <= pos < s.len() && !strings::is_whitespace(#[trigger] s[pos]) implies exists|i: int|
        0 <= i < words.len() && #[trigger] starts[i] <= pos < starts[i] + words[i].len() by {
        if pos == last {
            assert(starts[n] <= pos < starts[n] + words[n].len());
        } else {
            assert(shorter[pos] == s[pos]);
            let i = choose|i: int|
                0 <= i < before.len() && #[trigger] begun[i] <= pos < begun[i] + before[i].len();
            assert(starts[i] <= pos < starts[i] + words[i].len());
        }
    }
}

/// What stands before the first space is the start of a string up to there, and
/// what stands after the last space is its end from there on.
pub proof fn parts_reach_to_the_spaces(s: Seq<char>)
    ensures
        ({
            let part = strings::before_space(s);
            &&& part.is_prefix_of(s)
            &&& !part.contains(' ')
            &&& part.len() < s.len() ==> s[part.len() as int] == ' '
        }),
        ({
            let part = strings::after_space(s);
            &&& part.is_suffix_of(s)
            &&& !part.contains(' ')
            &&& part.len() < s.len() ==> s[s.len() - part.len() - 1] == ' '
        }),
{
    lemma_before_space(s);
    lemma_after_space(s);
}

proof fn lemma_before_space(s: Seq<char>)
    ensures
        ({
            let part = strings::before_space(s);
            &&& part.len() <= s.len()
            &&& part == s.take(part.len() as int)
            &&& forall|i: int| 0 <= i < part.len() ==> #[trigger] part[i] != ' '
            &&& part.len() < s.len() ==> s[part.len() as int] == ' '
        }),
    decreases s.len(),
{
    if s.len() > 0 && s[0] != ' ' {
        let rest = s.drop_first();
        lemma_before_space(rest);
        let part = strings::before_space(s);
        let end = strings::before_space(rest);
        assert forall|i: int| 1 <= i < part.len() implies part[i] == end[i - 1] && end[i - 1]
            == rest[i - 1] && rest[i - 1] == s[i] by {}
        assert(part =~= s.take(part.len() as int));
    } else {
        assert(strings::before_space(s) =~= s.take(0));
    }
}

proof fn lemma_after_space(s: Seq<char>)
    ensures
        ({
            let part = strings::after_space(s);
            &&& part.len() <= s.len()
            &&& part == s.skip(s.len() - part.len())
            &&& forall|i: int| 0 <= i < part.len() ==> #[trigger] part[i] != ' '
            &&& part.len() < s.len() ==> s[s.len() - part.len() - 1] == ' '
        }),
    decreases s.len(),
{
    if s.len() > 0 && s.last() != ' ' {
        let rest = s.drop_last();
        lemma_after_space(rest);
        let part = strings::after_space(s);
        let start = strings::after_space(rest);
        assert(part =~= s.skip(s.len() - part.len())) by {
            assert forall|i: int| 0 <= i < start.len() implies start[i] == s[s.len() - part.len()
                + i] by {
                assert(start[i] == rest.skip(rest.len() - start.len())[i]);
            }
        }
    } else {
        assert(strings::after_space(s) =~= s.skip(s.len() as int));
    }
}

/// Strings are joined with one separator between every two of them and none
/// before the first or after the last.
pub proof fn strings_are_joined_by_separators(strings: Seq<Seq<char>>, separator: Seq<char>)
    ensures
        strings.len() == 0 ==> strings::joined(strings, separator).len() == 0,
        strings.len() == 1 ==> strings::joined(strings, separator) == strings[0],
        strings.len() >= 2 ==> strings::joined(strings, separator) == strings[0] + separator
            + strings::joined(strings.drop_first(), separator),
    decreases strings.len(),
{
    if strings.len() == 2 {
        assert(strings.drop_last()[0] == strings[0]);
        assert(strings.drop_first()[0] == strings[1]);
        assert(strings::joined(strings.drop_last(), separator) == strings[0]);
        assert(strings::joined(strings.drop_first(), separator) == strings[1]);
    } else if strings.len() > 2 {
        let inner = strings.drop_last();
        strings_are_joined_by_separators(inner, separator);
        assert(inner.drop_first() =~= strings.drop_first().drop_last());
        assert(strings.drop_first().last() == strings.last());
        assert(strings::joined(strings, separator) =~= strings[0] + separator + strings::joined(
            strings.drop_first(),
            separator,
        ));
    }
}

/// A number from one to eight names that many spaces, zero names tabs, and a larger
/// number nothing.
pub proof fn numbers_name_indentations(n: nat)
    ensures
        cmd::style_named(strings::decimal(n)) == if n == 0 {
            Some(IndentStyle::Tabs)
        } else if n <= 8 {
            Some(IndentStyle::Spaces(n as u8))
        } else {
            None
        },
        1 <= n <= 8 ==> cmd::style_message(IndentStyle::Spaces(n as u8)) == strings::decimal(n)
            + if n == 1 {
            " space"@
        } else {
            " spaces"@
        },
{
    numbers_are_read_as_written(n);
    reveal_strlit("tabs");
    reveal_strlit("0");
    reveal_strlit("1 space");
    reveal_strlit(" space");
    let s = strings::decimal(n);
    assert(is_digit(s[0]));
    if n == 0 {
        assert(s =~= "0"@);
    } else {
        assert(s != "0"@);
        assert(vstd::utf8::is_ascii_chars(s)) by {
            assert forall|i: int| 0 <= i < s.len() implies (#[trigger] s[i]) as u32 <= 127 by {
                assert(is_digit(s[i]));
            }
        }
        assert(strings::lowercase(s)[0] == s[0]);
        assert("tabs"@[0] == 't');
        if strings::lowercase(s).is_prefix_of("tabs"@) {
            assert(strings::lowercase(s) == "tabs"@.subrange(0, strings::lowercase(s).len() as int));
            assert(strings::lowercase(s)[0] == "tabs"@[0]);
        }
    }
    if n == 1 {
        assert("1 space"@ =~= strings::decimal(1) + " space"@);
    }
}

/// A start of the word `tabs`, in small or capital letters, names tabs.
pub proof fn starts_of_the_word_name_tabs(arg: Seq<char>)
    requires
        arg.len() <= 4,
        forall|i: int|
            0 <= i < arg.len() ==> (#[trigger] arg[i] == seq!['t', 'a', 'b', 's'][i] || arg[i]
                == seq!['T', 'A', 'B', 'S'][i]),
    ensures
        cmd::style_named(arg) == Some(IndentStyle::Tabs),
{
    reveal_strlit("tabs");
    assert("tabs"@ =~= seq!['t', 'a', 'b', 's']);
    assert(vstd::utf8::is_ascii_chars(arg));
    let small = strings::lowercase(arg);
    assert(small.len() == arg.len());
    assert forall|i: int| 0 <= i < arg.len() implies small[i] == "tabs"@[i] by {
        assert(small[i] == strings::ascii_lowercase(arg[i]));
    }
    assert(small =~= "tabs"@.subrange(0, small.len() as int));
}

/// What a document with changes is called: by its path, or as a scratch buffer.
pub open spec fn called(doc: Buffer) -> Seq<char> {
    match doc.relative_path {
        Some(path) => path.lossy@,
        None => "[scratch]"@,
    }
}

proof fn lemma_unsaved(documents: Seq<Buffer>)
    ensures
        cmd::unsaved(documents) == documents.filter(|doc: Buffer| doc.modified).map_values(
            |doc: Buffer| called(doc),
        ),
    decreases documents.len(),
{
    reveal(Seq::filter);
    if documents.len() > 0 {
        lemma_unsaved(documents.drop_last());
    }
    assert(cmd::unsaved(documents) =~= documents.filter(
        |doc: Buffer| doc.modified,
    ).map_values(|doc: Buffer| called(doc)));
}

/// The documents that are reported are those with changes, each by its name, in
/// their order, and no others.
pub proof fn documents_with_changes_are_reported(documents: Seq<Buffer>)
    ensures
        cmd::unsaved(documents) == documents.filter(|doc: Buffer| doc.modified).map_values(
            |doc: Buffer| called(doc),
        ),
        cmd::unsaved(documents).len() > 0 <==> exists|i: int|
            0 <= i < documents.len() && (#[trigger] documents[i]).modified,
    decreases documents.len(),
{
    lemma_unsaved(documents);
    if documents.len() > 0 {
        let before = documents.drop_last();
        documents_with_changes_are_reported(before);
        if documents.last().modified {
            assert(documents[documents.len() - 1].modified);
        }
        assert forall|i: int|
            0 <= i < documents.len() && (#[trigger] documents[i]).modified implies cmd::unsaved(
            documents,
        ).len() > 0 by {
            if i < before.len() {
                assert(before[i].modified);
            }
        }
        if cmd::unsaved(before).len() > 0 {
            let i = choose|i: int| 0 <= i < before.len() && (#[trigger] before[i]).modified;
            assert(documents[i].modified);
        }
    }
}

/// Writing all documents writes those with a path, in their order, and says of each
/// of the others that it has none.
pub proof fn documents_with_a_path_are_written(documents: Seq<Buffer>)
    ensures
        cmd::write_all_effects(documents) == documents.filter(
            |doc: Buffer| doc.path is Some,
        ).map_values(|doc: Buffer| EffectView::WriteBuffer(doc.id)),
        cmd::write_all_errors(documents) == strings::repeated(
            "cannot write a buffer without a filename\n"@,
            documents.filter(|doc: Buffer| doc.path is None).len(),
        ),
    decreases documents.len(),
{
    reveal(Seq::filter);
    if documents.len() > 0 {
        documents_with_a_path_are_written(documents.drop_last());
    }
    assert(cmd::write_all_effects(documents) =~= documents.filter(
        |doc: Buffer| doc.path is Some,
    ).map_values(|doc: Buffer| EffectView::WriteBuffer(doc.id)));
}

/// Whether nothing has been asked for and the message line reports an error.
pub open spec fn refused(pre: Context, post: Context) -> bool {
    &&& added(pre, post).len() == 0
    &&& post.editor.message() matches Some(message) && message.1 == Severity::Error
}

/// Typed commands ask for what they are called for. The last view, and all views
/// at once, are not closed while a document has changes, unless it is forced.
pub proof fn typed_commands_do_as_they_say<
    R: Fn(&String) -> Result<String, String>,
    U: Fn(&String) -> Result<UndoKind, String>,
>(pre: Context, post: Context, typed: Typed, args: Seq<String>, resolve: R, parse: U)
    requires
        cmd::runs(pre, post, typed, args, resolve, parse),
    ensures
        ({
            let documents = pre.editor.documents@;
            let views = pre.editor.views@;
            let asked = added(pre, post);
            let changed = exists|i: int|
                0 <= i < documents.len() && (#[trigger] documents[i]).modified;
            let written = documents.filter(|doc: Buffer| doc.path is Some).map_values(
                |doc: Buffer| EffectView::WriteBuffer(doc.id),
            );
            let closed = views.map_values(|view: usize| EffectView::Close(view, false));
            match typed {
                Typed::Quit => if views.len() == 1 && changed {
                    refused(pre, post)
                } else {
                    asked == seq![EffectView::Close(pre.editor.view.id, false)]
                },
                Typed::ForceQuit => asked == seq![EffectView::Close(pre.editor.view.id, false)],
                Typed::Open => if args.len() > 0 {
                    asked == seq![EffectView::Open(args[0]@, Action::Replace)]
                } else {
                    refused(pre, post)
                },
                Typed::NewFile => asked == seq![EffectView::NewFile(Action::Replace)],
                Typed::Format => asked == seq![EffectView::Format],
                Typed::WriteAll => asked == written,
                Typed::WriteAllQuit => asked == written.push(EffectView::QuitAll(false)),
                Typed::ForceWriteAllQuit => asked == written.push(EffectView::QuitAll(true)),
                Typed::QuitAll => if changed {
                    refused(pre, post)
                } else {
                    asked == closed
                },
                Typed::ForceQuitAll => asked == closed,
                _ => true,
            }
        }),
{
    let documents = pre.editor.documents@;
    let views = pre.editor.views@;
    documents_with_changes_are_reported(documents);
    documents_with_a_path_are_written(documents);
    let closing = seq![EffectView::Close(pre.editor.view.id, false)];
    let none = Seq::<EffectView>::empty();
    let stays = cmd::unsaved(documents).len() > 0;
    let written = cmd::write_all_effects(documents);
    let asked = match typed {
        Typed::Quit => if views.len() == 1 && stays {
            none
        } else {
            closing
        },
        Typed::ForceQuit => closing,
        Typed::Open => if args.len() > 0 {
            seq![EffectView::Open(args[0]@, Action::Replace)]
        } else {
            none
        },
        Typed::NewFile => seq![EffectView::NewFile(Action::Replace)],
        Typed::Format => seq![EffectView::Format],
        Typed::WriteAll => written,
        Typed::WriteAllQuit => written.push(EffectView::QuitAll(false)),
        Typed::ForceWriteAllQuit => written.push(EffectView::QuitAll(true)),
        Typed::QuitAll => if stays {
            none
        } else {
            cmd::close_all(views)
        },
        Typed::ForceQuitAll => cmd::close_all(views),
        _ => added(pre, post),
    };
    match typed {
        Typed::SetIndentStyle
        | Typed::Earlier
        | Typed::Later
        | Typed::Write
        | Typed::WriteQuit
        | Typed::ForceWriteQuit => {},
        _ => {
            assert(post.editor.pending() =~= pre.editor.pending() + asked);
            remade::lemma_added(pre, post, asked);
        },
    }
}

/// Writing asks for the new path first, where one is given, then for formatting,
/// where that is wanted, and then for writing. A document without a path is not
/// written, nor is anything where the path makes no sense.
pub proof fn writing_asks_in_order<R: Fn(&String) -> Result<String, String>>(
    pre: Context,
    post: Context,
    args: Seq<String>,
    resolve: R,
    result: Result<(), String>,
)
    requires
        cmd::writes(pre, post, args, resolve, result),
    ensures
        ({
            let writing = if pre.editor.doc.auto_format {
                seq![EffectView::Format, EffectView::Write]
            } else {
                seq![EffectView::Write]
            };
            if args.len() == 0 {
                &&& result is Ok <==> pre.editor.doc.path is Some
                &&& result is Ok ==> added(pre, post) == writing
                &&& result is Err ==> post == pre
            } else {
                exists|resolved: Result<String, String>|
                    {
                        &&& #[trigger] call_ensures(resolve, (&args[0],), resolved)
                        &&& result is Ok <==> resolved is Ok
                        &&& match resolved {
                            Ok(path) => {
                                &&& added(pre, post) == seq![EffectView::SetPath(path@)] + writing
                                &&& post.editor.doc.path == Some(path)
                            },
                            Err(_) => post == pre,
                        }
                    }
            }
        }),
{
    let writing = if pre.editor.doc.auto_format {
        seq![EffectView::Format, EffectView::Write]
    } else {
        seq![EffectView::Write]
    };
    if args.len() == 0 {
        if pre.editor.doc.path is Some {
            remade::lemma_added(pre, post, writing);
        }
    } else {
        let resolved = choose|resolved: Result<String, String>| #[trigger]
            call_ensures(resolve, (&args[0],), resolved) && cmd::writes_at(
                pre,
                post,
                Some(resolved),
                result,
            );
        if let Ok(path) = resolved {
            remade::lemma_added(pre, post, seq![EffectView::SetPath(path@)] + writing);
        }
    }
}

/// Going along the history asks for it in the direction of the command, as far as
/// the arguments are made out to say. What cannot be made out is reported.
pub proof fn history_is_gone_along_as_said<
    R: Fn(&String) -> Result<String, String>,
    U: Fn(&String) -> Result<UndoKind, String>,
>(pre: Context, post: Context, typed: Typed, args: Seq<String>, resolve: R, parse: U)
    requires
        cmd::runs(pre, post, typed, args, resolve, parse),
        typed == Typed::Earlier || typed == Typed::Later,
    ensures
        exists|text: String, kind: Result<UndoKind, String>|
            {
                &&& text@ == strings::joined(strings::string_views(args), seq![' '])
                &&& #[trigger] call_ensures(parse, (&text,), kind)
                &&& match kind {
                    Ok(kind) => added(pre, post) == seq![
                        if typed == Typed::Earlier {
                            EffectView::Earlier(kind)
                        } else {
                            EffectView::Later(kind)
                        },
                    ],
                    Err(message) => {
                        &&& refused(pre, post)
                        &&& post.editor.message() == Some((message@, Severity::Error))
                    },
                }
            },
{
    reveal_strlit(" ");
    assert(" "@ =~= seq![' ']);
    let back = typed == Typed::Earlier;
    let (text, kind) = choose|text: String, kind: Result<UndoKind, String>|
        {
            &&& text@ == strings::joined(strings::string_views(args), " "@)
            &&& #[trigger] call_ensures(parse, (&text,), kind)
            &&& cmd::goes_along(pre, post, kind, back)
        };
    match kind {
        Ok(kind) => {
            remade::lemma_added(
                pre,
                post,
                seq![
                    if back {
                        EffectView::Earlier(kind)
                    } else {
                        EffectView::Later(kind)
                    },
                ],
            );
        },
        Err(_) => {
            assert(post.editor.pending() =~= pre.editor.pending() + Seq::<EffectView>::empty());
            remade::lemma_added(pre, post, Seq::empty());
        },
    }
}

/// The commands whose arguments are completed with the names of files are those
/// that open or write one, and the one that makes a new one.
pub proof fn file_names_are_offered_for_files(typed: Typed)
    ensures
        typed.completed() is Some <==> typed == Typed::Open || typed == Typed::Write || typed
            == Typed::NewFile || typed == Typed::WriteQuit || typed == Typed::ForceWriteQuit,
{
}

/// Commands are found by their names and by their aliases, and by nothing else.
pub proof fn commands_are_found_by_name_or_alias(s: Seq<char>)
    ensures
        match crate::typed::command_called(s) {
            Some(typed) => typed.named() == s || typed.aliased() == Some(s),
            None => forall|typed: Typed| #[trigger]
                typed.named() != s && typed.aliased() != Some(s),
        },
        forall|typed: Typed| #[trigger]
            typed.named() == s ==> crate::typed::command_called(s) == Some(typed),
        forall|typed: Typed| #[trigger]
            typed.aliased() == Some(s) ==> crate::typed::command_called(s) == Some(typed),
{
    assert forall|typed: Typed|
        #![trigger typed.named()]
        #![trigger typed.aliased()]
        typed.named() == s || typed.aliased() == Some(s) implies crate::typed::command_called(s)
        == Some(typed) by {
        assert(typed.called(s));
        crate::typed::lemma_command_called(typed, s);
    }
    if exists|typed: Typed| typed.called(s) {
        let typed = choose|typed: Typed| typed.called(s);
        assert(typed.called(s));
    } else {
        assert forall|typed: Typed| #[trigger]
            typed.named() != s && typed.aliased() != Some(s) by {
            assert(!typed.called(s));
        }
    }
}

/// What is entered does nothing where it holds no word. A first word that names no
/// command is reported; one that does has the command run, with the words after it
/// as arguments.
pub proof fn first_words_name_commands<
    R: Fn(&String) -> Result<String, String>,
    U: Fn(&String) -> Result<UndoKind, String>,
>(
    pre: Context,
    post: Context,
    input: Seq<char>,
    resolve: R,
    parse: U,
    words: Seq<Seq<char>>,
    starts: Seq<int>,
)
    requires
        cmd::obeys(pre, post, input, resolve, parse),
        words == strings::words(input),
        cut_into(input, words, starts),
    ensures
        (forall|i: int| 0 <= i < input.len() ==> strings::is_whitespace(#[trigger] input[i]))
            ==> post == pre,
        words.len() > 0 ==> {
            &&& (forall|typed: Typed| #[trigger] typed.named() != words[0]) && (forall|
                typed: Typed,
            | #[trigger] typed.aliased() != Some(words[0])) ==> {
                &&& refused(pre, post)
                &&& post.editor.message() == Some(
                    ("no such command: '"@ + words[0] + seq!['\''], Severity::Error),
                )
            }
            &&& forall|typed: Typed|
                #![trigger typed.named()]
                typed.named() == words[0] || typed.aliased() == Some(words[0]) ==> exists|
                    args: Seq<String>,
                |
                    {
                        &&& #[trigger] cmd::runs(pre, post, typed, args, resolve, parse)
                        &&& args.len() + 1 == words.len()
                        &&& forall|i: int| 1 <= i < words.len() ==> args[i - 1]@ == #[trigger] words[i]
                    }
        },
{
    if words.len() > 0 {
        reveal_strlit("'");
        assert("'"@ =~= seq!['\'']);
        assert(words[0].len() > 0);
        assert(!strings::is_whitespace(words[0][0]));
        assert(words[0][0] == input[starts[0]]);
        commands_are_found_by_name_or_alias(words[0]);
        match crate::typed::command_called(words[0]) {
            Some(typed) => {
                let args = choose|args: Seq<String>| #[trigger]
                    cmd::runs(pre, post, typed, args, resolve, parse) && strings::string_views(
                        args,
                    ) == words.skip(1);
                assert(args.len() == strings::string_views(args).len());
                assert forall|i: int| 1 <= i < words.len() implies args[i - 1]@
                    == #[trigger] words[i] by {
                    assert(strings::string_views(args)[i - 1] == args[i - 1]@);
                    assert(words.skip(1)[i - 1] == words[i]);
                }
            },
            None => {
                assert(post.editor.pending() =~= pre.editor.pending()
                    + Seq::<EffectView>::empty());
                remade::lemma_added(pre, post, Seq::empty());
            },
        }
    } else {
        assert(post == pre);
    }
}

/// An indentation style that an argument names is set, and one that it does not name
/// is reported. Without an argument the style is told and nothing set.
pub proof fn styles_are_set_or_told(pre: Context, post: Context, args: Seq<String>)
    requires
        cmd::sets_style(pre, post, args),
    ensures
        added(pre, post).len() == 0,
        args.len() == 0 ==> post.editor.doc == pre.editor.doc && post.editor.message() == Some(
            (cmd::style_message(pre.editor.doc.indent_style), Severity::Info),
        ),
        args.len() > 0 ==> match cmd::style_named(args[0]@) {
            Some(style) => {
                &&& post.editor.doc.indent_style == style
                &&& post.editor.status_msg == pre.editor.status_msg
            },
            None => refused(pre, post) && post.editor.doc == pre.editor.doc,
        },
{
    assert(post.editor.pending() =~= pre.editor.pending() + Seq::<EffectView>::empty());
    remade::lemma_added(pre, post, Seq::empty());
}

/// Writing and closing asks for closing last, and only where the document could be
/// written, unless it is forced.
pub proof fn views_are_closed_after_writing<
    R: Fn(&String) -> Result<String, String>,
    U: Fn(&String) -> Result<UndoKind, String>,
>(pre: Context, post: Context, typed: Typed, args: Seq<String>, resolve: R, parse: U)
    requires
        cmd::runs(pre, post, typed, args, resolve, parse),
        typed == Typed::Write || typed == Typed::WriteQuit || typed == Typed::ForceWriteQuit,
    ensures
        exists|written: Context, result: Result<(), String>|
            {
                &&& #[trigger] cmd::writes(pre, written, args, resolve, result)
                &&& typed != Typed::ForceWriteQuit && result is Err ==> {
                    &&& post.editor.pending() == written.editor.pending()
                    &&& post.editor.message() == Some((result->Err_0@, Severity::Error))
                }
                &&& typed == Typed::Write && result is Ok ==> post == written
                &&& typed == Typed::WriteQuit && result is Ok ==> post.editor.pending()
                    == written.editor.pending().push(EffectView::Quit)
                &&& typed == Typed::ForceWriteQuit ==> post.editor.pending()
                    == written.editor.pending().push(
                    EffectView::Close(pre.editor.view.id, false),
                )
            },
{
    match typed {
        Typed::Write => {
            let (written, result) = choose|written: Context, result: Result<(), String>| #[trigger]
                cmd::writes(pre, written, args, resolve, result) && cmd::outcome_reported(
                    written,
                    post,
                    result,
                );
            assert(cmd::writes(pre, written, args, resolve, result));
        },
        Typed::WriteQuit => {
            let (written, result) = choose|written: Context, result: Result<(), String>| #[trigger]
                cmd::writes(pre, written, args, resolve, result) && cmd::quits_after(
                    written,
                    post,
                    result,
                );
            assert(cmd::writes(pre, written, args, resolve, result));
            if result is Ok {
                assert(post.editor.pending() =~= written.editor.pending().push(EffectView::Quit));
            }
        },
        _ => {
            let reported = choose|reported: Context| #[trigger]
                cmd::writes_and_reports(pre, reported, args, resolve) && cmd::closes(
                    reported,
                    post,
                );
            let (written, result) = choose|written: Context, result: Result<(), String>| #[trigger]
                cmd::writes(pre, written, args, resolve, result) && cmd::outcome_reported(
                    written,
                    reported,
                    result,
                );
            assert(cmd::writes(pre, written, args, resolve, result));
            assert(reported.editor.view == pre.editor.view);
            assert(post.editor.pending() =~= written.editor.pending().push(
                EffectView::Close(pre.editor.view.id, false),
            ));
        },
    }
}

/// Completions of an argument are placed behind all that stands before it: by as many
/// bytes as that takes, and otherwise as they are.
pub proof fn completions_are_placed_behind_the_last_space(
    input: Seq<char>,
    found: Seq<(usize, Seq<char>)>,
    start: int,
    i: int,
)
    requires
        0 <= start <= input.len(),
        start > 0 ==> input[start - 1] == ' ',
        !input.skip(start).contains(' '),
        0 <= i < found.len(),
        found[i].0 + strings::bytes(input.take(start)) <= usize::MAX,
    ensures
        cmd::placed(input, found).len() == found.len(),
        cmd::placed(input, found)[i].0 == found[i].0 + strings::bytes(input.take(start)),
        cmd::placed(input, found)[i].1 == found[i].1,
        strings::after_space(input) == input.skip(start),
{
    let part = strings::after_space(input);
    let at = input.len() - part.len();
    lemma_after_space(input);
    if at < start {
        assert(part[start - 1 - at] == input[start - 1]);
    } else if at > start {
        assert(input.skip(start)[at - 1 - start] == ' ');
    }
    assert(input =~= input.take(start) + input.skip(start));
    strings::lemma_bytes_concat(input.take(start), input.skip(start));
}

/// What is said of a copy gives the number of ranges and ends in the name of the
/// register; what is said of documents with changes starts with their number.
pub proof fn messages_give_the_numbers(n: nat, name: char, names: Seq<Seq<char>>)
    ensures
        ({
            let message = crate::edit::yank_message(n, name);
            let number = strings::decimal(n);
            &&& message.len() > 7 + number.len()
            &&& message.subrange(0, 7) == "yanked "@
            &&& message.subrange(7, 7 + number.len() as int) == number
            &&& message[7 + number.len() as int] == ' '
            &&& message.last() == name
        }),
        ({
            let message = cmd::unsaved_message(names);
            let number = strings::decimal(names.len());
            &&& number.is_prefix_of(message)
            &&& message.len() > number.len() && message[number.len() as int] == ' '
            &&& strings::debug_list(names).is_suffix_of(message)
        }),
{
    reveal_strlit("yanked ");
    reveal_strlit(" selection(s) to register ");
    reveal_strlit(" unsaved buffer(s) remaining: ");
    let message = crate::edit::yank_message(n, name);
    let number = strings::decimal(n);
    assert(message.subrange(0, 7) =~= "yanked "@);
    assert(message.subrange(7, 7 + number.len() as int) =~= number);
    let unsaved = cmd::unsaved_message(names);
    let shown = strings::debug_list(names);
    assert(unsaved.subrange(0, strings::decimal(names.len()).len() as int) =~= strings::decimal(
        names.len(),
    ));
    assert(unsaved.subrange(unsaved.len() - shown.len(), unsaved.len() as int) =~= shown);
}

} // verus!
