//! A text after an edit, told character by character.

use crate::change::{self, ChangeView};
use crate::editor::{Context, EffectView};
use crate::selection::Range;
use vstd::prelude::*;

verus! {

/// What is put in at `pos` where `n` values have a place each: those whose place
/// it is, one after the other.
pub open spec fn put_there(
    n: int,
    place: spec_fn(int) -> int,
    value: spec_fn(int) -> Seq<char>,
    pos: int,
) -> Seq<char>
    decreases n,
{
    if n <= 0 {
        Seq::empty()
    } else {
        put_there(n - 1, place, value, pos) + if place(n - 1) == pos {
            value(n - 1)
        } else {
            Seq::empty()
        }
    }
}

/// The first `k` characters of a text, those that are gone left out, with what
/// `put` says put in before each. At the end of the text is room for more.
pub open spec fn told(
    s: Seq<char>,
    put: spec_fn(int) -> Seq<char>,
    gone: spec_fn(int) -> bool,
    k: int,
) -> Seq<char>
    decreases k,
{
    if k <= 0 {
        Seq::empty()
    } else {
        told(s, put, gone, k - 1) + put(k - 1) + if k - 1 < s.len() && !gone(k - 1) {
            seq![s[k - 1]]
        } else {
            Seq::empty()
        }
    }
}

/// A text with `n` values put in at their places, and without the characters that
/// are gone.
pub open spec fn remade(
    s: Seq<char>,
    n: int,
    place: spec_fn(int) -> int,
    value: spec_fn(int) -> Seq<char>,
    gone: spec_fn(int) -> bool,
) -> Seq<char> {
    told(s, |pos: int| put_there(n, place, value, pos), gone, s.len() as int + 1)
}

/// What a command has asked for.
pub open spec fn added(pre: Context, post: Context) -> Seq<EffectView> {
    post.editor.pending().skip(pre.editor.pending().len() as int)
}

/// Whether a range holds the character at `pos`.
pub open spec fn holds(range: Range, pos: int) -> bool {
    range.anchor <= pos <= range.head || range.head <= pos <= range.anchor
}

/// Whether some range holds the character at `pos`.
pub open spec fn held(ranges: Seq<Range>, pos: int) -> bool {
    exists|i: int| 0 <= i < ranges.len() && holds(#[trigger] ranges[i], pos)
}

pub(crate) proof fn lemma_added(pre: Context, post: Context, asked: Seq<EffectView>)
    requires
        post.editor.pending() == pre.editor.pending() + asked,
    ensures
        added(pre, post) == asked,
{
    assert(added(pre, post) =~= asked);
}

spec fn put_at(changes: Seq<ChangeView>, pos: int) -> Seq<char>
    decreases changes.len(),
{
    if changes.len() == 0 {
        Seq::empty()
    } else {
        put_at(changes.drop_last(), pos) + if changes.last().from == pos {
            changes.last().inserted()
        } else {
            Seq::empty()
        }
    }
}

spec fn taken(changes: Seq<ChangeView>, pos: int) -> bool {
    exists|i: int| 0 <= i < changes.len() && (#[trigger] changes[i]).from <= pos < changes[i].to
}

proof fn lemma_told_alike(
    s: Seq<char>,
    t: Seq<char>,
    put: spec_fn(int) -> Seq<char>,
    gone: spec_fn(int) -> bool,
    put2: spec_fn(int) -> Seq<char>,
    gone2: spec_fn(int) -> bool,
    k: int,
)
    requires
        forall|p: int| 0 <= p < k ==> #[trigger] put(p) == put2(p),
        forall|p: int|
            0 <= p < k && p < s.len() ==> #[trigger] gone(p) == gone2(p),
        s.len() == t.len() || k <= s.len() && k <= t.len(),
        forall|p: int| 0 <= p < k && p < s.len() ==> s[p] == #[trigger] t[p],
    ensures
        told(s, put, gone, k) == told(t, put2, gone2, k),
    decreases k,
{
    if k > 0 {
        lemma_told_alike(s, t, put, gone, put2, gone2, k - 1);
        assert(put(k - 1) == put2(k - 1));
        if k - 1 < s.len() {
            assert(gone(k - 1) == gone2(k - 1));
            assert(s[k - 1] == t[k - 1]);
        }
    }
}

/// Nothing is put in after the last change, and all after it stays.
proof fn lemma_told_rest(
    s: Seq<char>,
    put: spec_fn(int) -> Seq<char>,
    gone: spec_fn(int) -> bool,
    from: int,
    to: int,
    k: int,
)
    requires
        0 <= from <= to <= s.len(),
        from < k <= s.len() as int + 1,
        forall|p: int| from < p <= s.len() ==> (#[trigger] put(p)) == Seq::<char>::empty(),
        forall|p: int| from <= p < s.len() ==> #[trigger] gone(p) == (p < to),
    ensures
        told(s, put, gone, k) == told(s, put, gone, from) + put(from) + s.subrange(
            to,
            if k <= to {
                to
            } else if k <= s.len() {
                k
            } else {
                s.len() as int
            },
        ),
    decreases k,
{
    let end = if k <= to {
        to
    } else if k <= s.len() {
        k
    } else {
        s.len() as int
    };
    if k == from + 1 {
        if from < s.len() {
            assert(gone(from) == (from < to));
            if from == to {
                assert(s.subrange(to, end) =~= seq![s[from]]);
            } else {
                assert(s.subrange(to, end) =~= Seq::<char>::empty());
            }
        } else {
            assert(s.subrange(to, end) =~= Seq::<char>::empty());
        }
        assert(told(s, put, gone, k) =~= told(s, put, gone, from) + put(from) + s.subrange(to, end));
    } else {
        lemma_told_rest(s, put, gone, from, to, k - 1);
        assert(put(k - 1) == Seq::<char>::empty());
        if k - 1 < s.len() {
            assert(gone(k - 1) == (k - 1 < to));
            if k - 1 >= to {
                assert(s.subrange(to, end) =~= s.subrange(to, k - 1).push(s[k - 1]));
            }
        }
        assert(told(s, put, gone, k) =~= told(s, put, gone, from) + put(from) + s.subrange(to, end));
    }
}

proof fn lemma_put_none(changes: Seq<ChangeView>, pos: int)
    requires
        forall|i: int| 0 <= i < changes.len() ==> (#[trigger] changes[i]).from < pos,
    ensures
        put_at(changes, pos) == Seq::<char>::empty(),
    decreases changes.len(),
{
    if changes.len() > 0 {
        let before = changes.drop_last();
        assert forall|i: int| 0 <= i < before.len() implies (#[trigger] before[i]).from < pos by {
            assert(before[i] == changes[i]);
        }
        lemma_put_none(before, pos);
        assert(changes.last() == changes[changes.len() - 1]);
    }
}

/// A text after changes in order, told character by character.
proof fn lemma_edited_told(s: Seq<char>, changes: Seq<ChangeView>)
    requires
        change::in_order(changes, s.len() as int),
    ensures
        change::edited(s, changes) == told(
            s,
            |p: int| put_at(changes, p),
            |p: int| taken(changes, p),
            s.len() as int + 1,
        ),
    decreases changes.len(),
{
    let put = |p: int| put_at(changes, p);
    let gone = |p: int| taken(changes, p);
    if changes.len() == 0 {
        assert forall|p: int| 0 <= p <= s.len() implies #[trigger] put(p) == Seq::<
            char,
        >::empty() by {}
        lemma_told_rest(s, put, gone, 0, 0, s.len() as int + 1);
        assert(told(s, put, gone, 0) + put(0) + s.subrange(0, s.len() as int) =~= s);
    } else {
        let n = changes.len() - 1;
        let last = changes.last();
        let before = changes.drop_last();
        let start = s.take(last.from);
        assert(last == changes[n]);
        change::lemma_edited_last(s, changes);
        lemma_edited_told(start, before);
        let put2 = |p: int| put_at(before, p);
        let gone2 = |p: int| taken(before, p);
        assert forall|i: int| 0 <= i < before.len() implies (#[trigger] before[i]).from
            <= before[i].to <= last.from by {
            assert(before[i] == changes[i]);
            assert(changes[i].to <= changes[n].from);
        }
        assert forall|p: int| 0 <= p < last.from implies #[trigger] put(p) == put2(p) by {
            assert(put_at(changes, p) =~= put_at(before, p));
        }
        assert forall|p: int| 0 <= p < last.from implies #[trigger] gone(p) == gone2(p) by {
            if taken(changes, p) {
                let i = choose|i: int|
                    0 <= i < changes.len() && (#[trigger] changes[i]).from <= p < changes[i].to;
                assert(before[i] == changes[i]);
            }
            if taken(before, p) {
                let i = choose|i: int|
                    0 <= i < before.len() && (#[trigger] before[i]).from <= p < before[i].to;
                assert(changes[i] == before[i]);
            }
        }
        lemma_told_alike(s, start, put, gone, put2, gone2, last.from);
        assert forall|p: int| last.from < p <= s.len() implies #[trigger] put(p) == Seq::<
            char,
        >::empty() by {
            lemma_put_none(changes, p);
        }
        assert forall|p: int| last.from <= p < s.len() implies #[trigger] gone(p) == (p
            < last.to) by {
            if taken(changes, p) {
                let i = choose|i: int|
                    0 <= i < changes.len() && (#[trigger] changes[i]).from <= p < changes[i].to;
                if i < n {
                    assert(before[i] == changes[i]);
                }
            }
            if p < last.to {
                assert(changes[n].from <= p < changes[n].to);
            }
        }
        lemma_told_rest(s, put, gone, last.from, last.to, s.len() as int + 1);
        assert(put(last.from) == put2(last.from) + last.inserted());
        assert(told(start, put2, gone2, start.len() as int + 1) =~= told(start, put2, gone2, last.from)
            + put2(last.from));
        assert(s.subrange(last.to, s.len() as int) =~= s.skip(last.to));
        assert(change::edited(s, changes) =~= told(s, put, gone, s.len() as int + 1));
    }
}

proof fn lemma_put_there(
    changes: Seq<ChangeView>,
    place: spec_fn(int) -> int,
    value: spec_fn(int) -> Seq<char>,
    pos: int,
)
    requires
        forall|i: int|
            0 <= i < changes.len() ==> (#[trigger] changes[i]).from == place(i)
                && changes[i].inserted() == value(i),
    ensures
        put_at(changes, pos) == put_there(changes.len() as int, place, value, pos),
    decreases changes.len(),
{
    if changes.len() > 0 {
        let before = changes.drop_last();
        assert forall|i: int| 0 <= i < before.len() implies (#[trigger] before[i]).from == place(i)
            && before[i].inserted() == value(i) by {
            assert(before[i] == changes[i]);
        }
        lemma_put_there(before, place, value, pos);
        assert(changes.last() == changes[changes.len() - 1]);
    }
}

/// Changes in order make of a text what their places, their values and the
/// characters that they take away tell.
pub proof fn lemma_remade(
    s: Seq<char>,
    changes: Seq<ChangeView>,
    place: spec_fn(int) -> int,
    value: spec_fn(int) -> Seq<char>,
    gone: spec_fn(int) -> bool,
)
    requires
        change::in_order(changes, s.len() as int),
        forall|i: int|
            0 <= i < changes.len() ==> (#[trigger] changes[i]).from == place(i)
                && changes[i].inserted() == value(i),
        forall|p: int|
            0 <= p < s.len() ==> #[trigger] gone(p) == exists|i: int|
                0 <= i < changes.len() && (#[trigger] changes[i]).from <= p < changes[i].to,
    ensures
        change::edited(s, changes) == remade(s, changes.len() as int, place, value, gone),
{
    let n = changes.len() as int;
    let put = |p: int| put_at(changes, p);
    let out = |p: int| taken(changes, p);
    let put2 = |p: int| put_there(n, place, value, p);
    lemma_edited_told(s, changes);
    assert forall|p: int| 0 <= p < s.len() + 1 implies #[trigger] put(p) == put2(p) by {
        lemma_put_there(changes, place, value, p);
    }
    assert forall|p: int| 0 <= p < s.len() implies #[trigger] out(p) == gone(p) by {}
    lemma_told_alike(s, s, put, out, put2, gone, s.len() as int + 1);
}

/// A text without the characters that are gone.
pub open spec fn left(s: Seq<char>, gone: spec_fn(int) -> bool) -> Seq<char> {
    told(s, |pos: int| Seq::empty(), gone, s.len() as int + 1)
}

/// Changes that only take characters away leave the others.
pub proof fn lemma_left(s: Seq<char>, changes: Seq<ChangeView>, gone: spec_fn(int) -> bool)
    requires
        change::in_order(changes, s.len() as int),
        change::only_removes(changes),
        forall|p: int|
            0 <= p < s.len() ==> #[trigger] gone(p) == exists|i: int|
                0 <= i < changes.len() && (#[trigger] changes[i]).from <= p < changes[i].to,
    ensures
        change::edited(s, changes) == left(s, gone),
{
    let place = |i: int| changes[i].from;
    let value = |i: int| Seq::<char>::empty();
    let put = |p: int| put_there(changes.len() as int, place, value, p);
    let none = |p: int| Seq::<char>::empty();
    lemma_remade(s, changes, place, value, gone);
    assert forall|p: int| 0 <= p < s.len() as int + 1 implies #[trigger] put(p) == none(p) by {
        lemma_nothing_put(changes.len() as int, place, value, p);
    }
    lemma_told_alike(s, s, put, gone, none, gone, s.len() as int + 1);
}

proof fn lemma_nothing_put(
    n: int,
    place: spec_fn(int) -> int,
    value: spec_fn(int) -> Seq<char>,
    pos: int,
)
    requires
        forall|i: int| 0 <= i < n ==> (#[trigger] value(i)) == Seq::<char>::empty(),
    ensures
        put_there(n, place, value, pos) == Seq::<char>::empty(),
    decreases n,
{
    if n > 0 {
        lemma_nothing_put(n - 1, place, value, pos);
        assert(value(n - 1) == Seq::<char>::empty());
    }
}

/// Where places come one after the other, at most one value is put in at each.
pub proof fn lemma_put_once(
    n: int,
    place: spec_fn(int) -> int,
    value: spec_fn(int) -> Seq<char>,
    pos: int,
)
    requires
        forall|i: int, j: int| 0 <= i < j < n ==> #[trigger] place(i) < #[trigger] place(j),
    ensures
        (forall|i: int| 0 <= i < n ==> #[trigger] place(i) != pos) ==> put_there(
            n,
            place,
            value,
            pos,
        ) == Seq::<char>::empty(),
        forall|i: int|
            0 <= i < n && #[trigger] place(i) == pos ==> put_there(n, place, value, pos) == value(
                i,
            ),
    decreases n,
{
    if n > 0 {
        lemma_put_once(n - 1, place, value, pos);
        if place(n - 1) == pos {
            assert forall|i: int| 0 <= i < n - 1 implies #[trigger] place(i) != pos by {
                assert(place(i) < place(n - 1));
            }
            assert(put_there(n, place, value, pos) =~= value(n - 1));
        } else {
            assert(put_there(n, place, value, pos) =~= put_there(n - 1, place, value, pos));
        }
    }
}

/// A text in which something may be put in before each character, and characters
/// may be gone.
pub open spec fn retold(
    s: Seq<char>,
    put: spec_fn(int) -> Seq<char>,
    gone: spec_fn(int) -> bool,
) -> Seq<char> {
    told(s, put, gone, s.len() as int + 1)
}

/// Changes in order whose places come one after the other make of a text what
/// `put` and `gone` tell.
pub proof fn lemma_retold(
    s: Seq<char>,
    changes: Seq<ChangeView>,
    put: spec_fn(int) -> Seq<char>,
    gone: spec_fn(int) -> bool,
)
    requires
        change::in_order(changes, s.len() as int),
        forall|i: int, j: int|
            0 <= i < j < changes.len() ==> (#[trigger] changes[i]).from < (
            #[trigger] changes[j]).from,
        forall|i: int|
            0 <= i < changes.len() ==> (#[trigger] changes[i]).inserted() == put(changes[i].from),
        forall|p: int|
            0 <= p <= s.len() && (forall|i: int|
                0 <= i < changes.len() ==> (#[trigger] changes[i]).from != p) ==> #[trigger] put(p)
                == Seq::<char>::empty(),
        forall|p: int|
            0 <= p < s.len() ==> #[trigger] gone(p) == exists|i: int|
                0 <= i < changes.len() && (#[trigger] changes[i]).from <= p < changes[i].to,
    ensures
        change::edited(s, changes) == retold(s, put, gone),
{
    let n = changes.len() as int;
    let place = |i: int| changes[i].from;
    let value = |i: int| changes[i].inserted();
    let put2 = |p: int| put_there(n, place, value, p);
    lemma_remade(s, changes, place, value, gone);
    assert forall|p: int| 0 <= p < s.len() as int + 1 implies #[trigger] put2(p) == put(p) by {
        assert forall|i: int, j: int| 0 <= i < j < n implies #[trigger] place(i)
            < #[trigger] place(j) by {
            assert(changes[i].from < changes[j].from);
        }
        lemma_put_once(n, place, value, p);
        if exists|i: int| 0 <= i < n && (#[trigger] changes[i]).from == p {
            let i = choose|i: int| 0 <= i < n && (#[trigger] changes[i]).from == p;
            assert(place(i) == p);
            assert(value(i) == put(changes[i].from));
        } else {
            assert forall|i: int| 0 <= i < n implies #[trigger] place(i) != p by {
                assert(changes[i].from != p);
            }
            assert forall|i: int| 0 <= i < changes.len() implies (
            #[trigger] changes[i]).from != p by {}
        }
    }
    lemma_told_alike(s, s, put2, gone, put, gone, s.len() as int + 1);
}

/// Changes in order that put in as much as they take away leave every other
/// character where it is.
pub proof fn lemma_in_place(s: Seq<char>, changes: Seq<ChangeView>)
    requires
        change::in_order(changes, s.len() as int),
        forall|i: int|
            0 <= i < changes.len() ==> (#[trigger] changes[i]).inserted().len() == changes[i].to
                - changes[i].from,
    ensures
        change::edited(s, changes).len() == s.len(),
        forall|i: int, p: int|
            0 <= i < changes.len() && (#[trigger] changes[i]).from <= p < changes[i].to
                ==> #[trigger] change::edited(s, changes)[p] == changes[i].inserted()[p
                - changes[i].from],
        forall|p: int|
            0 <= p < s.len() && (forall|i: int|
                0 <= i < changes.len() ==> !((#[trigger] changes[i]).from <= p < changes[i].to))
                ==> #[trigger] change::edited(s, changes)[p] == s[p],
    decreases changes.len(),
{
    let t = change::edited(s, changes);
    if changes.len() > 0 {
        let n = changes.len() - 1;
        let last = changes.last();
        let before = changes.drop_last();
        let start = s.take(last.from);
        assert(last == changes[n]);
        change::lemma_edited_last(s, changes);
        assert forall|i: int| 0 <= i < before.len() implies (
        #[trigger] before[i]).inserted().len() == before[i].to - before[i].from by {
            assert(before[i] == changes[i]);
        }
        lemma_in_place(start, before);
        let u = change::edited(start, before);
        assert forall|i: int, p: int|
            0 <= i < changes.len() && (#[trigger] changes[i]).from <= p
                < changes[i].to implies #[trigger] t[p] == changes[i].inserted()[p
            - changes[i].from] by {
            if i < n {
                assert(before[i] == changes[i]);
                assert(changes[i].to <= changes[n].from);
                assert(u[p] == before[i].inserted()[p - before[i].from]);
                assert(t[p] == u[p]);
            }
        }
        assert forall|p: int|
            0 <= p < s.len() && (forall|i: int|
                0 <= i < changes.len() ==> !((#[trigger] changes[i]).from <= p
                    < changes[i].to)) implies #[trigger] t[p] == s[p] by {
            assert(!(changes[n].from <= p < changes[n].to));
            if p < last.from {
                assert forall|i: int| 0 <= i < before.len() implies !((#[trigger] before[i]).from
                    <= p < before[i].to) by {
                    assert(before[i] == changes[i]);
                }
                assert(u[p] == start[p]);
                assert(t[p] == u[p]);
            }
        }
    }
}

} // verus!
