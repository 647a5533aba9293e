//! Edits to a text: replacements of stretches of characters.

use crate::selection::{Selection, SelectionView};
use vstd::prelude::*;

verus! {

/// The characters from `from` up to `to` replaced by `text`, or removed where
/// there is none.
#[derive(Debug)]
pub struct Change {
    pub from: usize,
    pub to: usize,
    pub text: Option<String>,
}

/// What a change does.
#[verifier::ext_equal]
pub struct ChangeView {
    pub from: int,
    pub to: int,
    pub text: Option<Seq<char>>,
}

impl ChangeView {
    /// `text` put in at `pos`.
    pub open spec fn insert(pos: int, text: Seq<char>) -> ChangeView {
        ChangeView { from: pos, to: pos, text: Some(text) }
    }

    /// What stands in place of the characters after the change.
    pub open spec fn inserted(self) -> Seq<char> {
        match self.text {
            Some(text) => text,
            None => Seq::empty(),
        }
    }
}

impl View for Change {
    type V = ChangeView;

    open spec fn view(&self) -> ChangeView {
        ChangeView {
            from: self.from as int,
            to: self.to as int,
            text: match self.text {
                Some(text) => Some(text@),
                None => None,
            },
        }
    }
}

/// Changes to make to a text together, and the selection to have after them
/// where the ranges are not just to follow the text.
#[derive(Debug)]
pub struct Transaction {
    pub changes: Vec<Change>,
    pub selection: Option<Selection>,
}

/// What a transaction does.
#[verifier::ext_equal]
pub struct TransactionView {
    pub changes: Seq<ChangeView>,
    pub selection: Option<SelectionView>,
}

impl TransactionView {
    /// Changes with no selection of their own.
    pub open spec fn of(changes: Seq<ChangeView>) -> TransactionView {
        TransactionView { changes, selection: None }
    }
}

/// What a list of changes does.
pub open spec fn change_views(changes: Seq<Change>) -> Seq<ChangeView> {
    changes.map_values(|change: Change| change@)
}

impl View for Transaction {
    type V = TransactionView;

    open spec fn view(&self) -> TransactionView {
        TransactionView {
            changes: change_views(self.changes@),
            selection: match self.selection {
                Some(selection) => Some(selection@),
                None => None,
            },
        }
    }
}

/// What an optional transaction does.
pub open spec fn option_view(transaction: Option<Transaction>) -> Option<TransactionView> {
    match transaction {
        Some(transaction) => Some(transaction@),
        None => None,
    }
}

/// Whether the changes can be made together to a text of `len` characters: each
/// lies inside the text, and each starts no earlier than the one before it ends.
pub open spec fn in_order(changes: Seq<ChangeView>, len: int) -> bool {
    &&& forall|i: int|
        0 <= i < changes.len() ==> 0 <= (#[trigger] changes[i]).from <= changes[i].to <= len
    &&& forall|i: int, j: int|
        0 <= i < j < changes.len() ==> (#[trigger] changes[i]).to <= (#[trigger] changes[j]).from
}

/// The text after one change.
pub open spec fn spliced(s: Seq<char>, change: ChangeView) -> Seq<char> {
    s.take(change.from) + change.inserted() + s.skip(change.to)
}

/// The text after all of the changes. The last is made first, so that it moves
/// none of the places that the others speak of.
pub open spec fn edited(s: Seq<char>, changes: Seq<ChangeView>) -> Seq<char>
    decreases changes.len(),
{
    if changes.len() == 0 {
        s
    } else {
        edited(spliced(s, changes.last()), changes.drop_last())
    }
}

/// How many characters the first `k` changes put in.
pub open spec fn inserted_before(changes: Seq<ChangeView>, k: int) -> int
    decreases k,
{
    if k <= 0 {
        0
    } else {
        inserted_before(changes, k - 1) + changes[k - 1].inserted().len()
    }
}

/// What follows the last change is left as it is.
pub proof fn lemma_edited_apart(a: Seq<char>, b: Seq<char>, changes: Seq<ChangeView>)
    requires
        in_order(changes, a.len() as int),
    ensures
        edited(a + b, changes) == edited(a, changes) + b,
    decreases changes.len(),
{
    if changes.len() > 0 {
        let last = changes.last();
        assert(spliced(a + b, last) =~= spliced(a, last) + b);
        assert(in_order(changes.drop_last(), spliced(a, last).len() as int)) by {
            assert forall|i: int| 0 <= i < changes.len() - 1 implies (
            #[trigger] changes.drop_last()[i]).to <= last.from by {
                assert(changes[i].to <= changes[changes.len() - 1].from);
            }
        }
        lemma_edited_apart(spliced(a, last), b, changes.drop_last());
    }
}

/// The text after all of the changes, split at the last one.
pub proof fn lemma_edited_last(s: Seq<char>, changes: Seq<ChangeView>)
    requires
        in_order(changes, s.len() as int),
        changes.len() > 0,
    ensures
        in_order(changes.drop_last(), changes.last().from),
        edited(s, changes) == edited(s.take(changes.last().from), changes.drop_last())
            + changes.last().inserted() + s.skip(changes.last().to),
{
    let last = changes.last();
    let before = s.take(last.from);
    let after = last.inserted() + s.skip(last.to);
    assert(in_order(changes.drop_last(), last.from)) by {
        assert forall|i: int| 0 <= i < changes.len() - 1 implies (
        #[trigger] changes.drop_last()[i]).to <= last.from by {
            assert(changes[i].to <= changes[changes.len() - 1].from);
        }
    }
    assert(spliced(s, last) =~= before + after);
    lemma_edited_apart(before, after, changes.drop_last());
    assert(edited(s, changes) =~= edited(before, changes.drop_last()) + last.inserted() + s.skip(
        last.to,
    ));
}

/// Whether the changes only put something in.
pub open spec fn only_inserts(changes: Seq<ChangeView>) -> bool {
    forall|i: int| 0 <= i < changes.len() ==> (#[trigger] changes[i]).to == changes[i].from
}

proof fn lemma_inserted_before(a: Seq<ChangeView>, b: Seq<ChangeView>, k: int)
    requires
        0 <= k <= a.len(),
        k <= b.len(),
        forall|i: int| 0 <= i < k ==> a[i] == b[i],
    ensures
        inserted_before(a, k) == inserted_before(b, k),
        inserted_before(a, k) >= 0,
    decreases k,
{
    if k > 0 {
        lemma_inserted_before(a, b, k - 1);
    }
}

/// Changes that only put something in make the text longer by that, and each
/// stands where it was put in, as far on as those before it are long.
pub proof fn lemma_inserted_at(s: Seq<char>, changes: Seq<ChangeView>, i: int)
    requires
        in_order(changes, s.len() as int),
        only_inserts(changes),
        0 <= i <= changes.len(),
    ensures
        edited(s, changes).len() == s.len() + inserted_before(changes, changes.len() as int),
        i < changes.len() ==> {
            let at = changes[i].from + inserted_before(changes, i);
            &&& 0 <= at <= edited(s, changes).len() - changes[i].inserted().len()
            &&& edited(s, changes).subrange(at, at + changes[i].inserted().len())
                == changes[i].inserted()
        },
    decreases changes.len(),
{
    if changes.len() > 0 {
        let n = changes.len() - 1;
        let last = changes.last();
        let before = changes.drop_last();
        assert(last == changes[n]);
        lemma_edited_last(s, changes);
        let left = edited(s.take(last.from), before);
        lemma_inserted_before(changes, before, n);
        if i < n {
            lemma_inserted_at(s.take(last.from), before, i);
            lemma_inserted_before(changes, before, i);
            let at = changes[i].from + inserted_before(changes, i);
            assert(before[i] == changes[i]);
            assert(edited(s, changes).subrange(at, at + changes[i].inserted().len())
                =~= left.subrange(at, at + changes[i].inserted().len()));
        } else {
            lemma_inserted_at(s.take(last.from), before, n);
            if i == n {
                let at = last.from + inserted_before(changes, n);
                assert(left.len() == at);
                assert(edited(s, changes).subrange(at, at + last.inserted().len())
                    =~= last.inserted());
            }
        }
    }
}

/// Whether every change puts as many characters in as it takes away, and `keep`
/// holds of each of them and the one in its place.
pub open spec fn rewrites(
    s: Seq<char>,
    changes: Seq<ChangeView>,
    keep: spec_fn(char, char) -> bool,
) -> bool {
    forall|i: int|
        0 <= i < changes.len() ==> {
            &&& (#[trigger] changes[i]).inserted().len() == changes[i].to - changes[i].from
            &&& forall|k: int|
                0 <= k < changes[i].inserted().len() ==> keep(
                    s[changes[i].from + k],
                    #[trigger] changes[i].inserted()[k],
                )
        }
}

/// Changes that rewrite characters leave the text as long as it is, with `keep`
/// between every character and the one in its place.
pub proof fn lemma_rewritten(
    s: Seq<char>,
    changes: Seq<ChangeView>,
    keep: spec_fn(char, char) -> bool,
)
    requires
        in_order(changes, s.len() as int),
        rewrites(s, changes, keep),
        forall|c: char| #[trigger] keep(c, c),
    ensures
        edited(s, changes).len() == s.len(),
        forall|p: int| 0 <= p < s.len() ==> keep(s[p], #[trigger] edited(s, changes)[p]),
    decreases changes.len(),
{
    if changes.len() > 0 {
        let n = changes.len() - 1;
        let last = changes.last();
        let before = changes.drop_last();
        assert(last == changes[n]);
        lemma_edited_last(s, changes);
        let start = s.take(last.from);
        assert(rewrites(start, before, keep)) by {
            assert forall|i: int| 0 <= i < before.len() implies {
                &&& (#[trigger] before[i]).inserted().len() == before[i].to - before[i].from
                &&& forall|k: int|
                    0 <= k < before[i].inserted().len() ==> keep(
                        start[before[i].from + k],
                        #[trigger] before[i].inserted()[k],
                    )
            } by {
                assert(before[i] == changes[i]);
                assert(changes[i].to <= changes[n].from);
            }
        }
        lemma_rewritten(start, before, keep);
        let left = edited(start, before);
        assert forall|p: int| 0 <= p < s.len() implies keep(
            s[p],
            #[trigger] edited(s, changes)[p],
        ) by {
            if p < last.from {
                assert(keep(start[p], left[p]));
            } else if p < last.to {
                assert(keep(s[last.from + (p - last.from)], last.inserted()[p - last.from]));
            } else {
                assert(keep(s[p], s[p]));
            }
        }
    }
}

/// How many characters the first `k` changes take away.
pub open spec fn removed_before(changes: Seq<ChangeView>, k: int) -> int
    decreases k,
{
    if k <= 0 {
        0
    } else {
        removed_before(changes, k - 1) + (changes[k - 1].to - changes[k - 1].from)
    }
}

/// Where change `i` stands in the text after all of them, where they only take
/// something away.
pub open spec fn place_after(changes: Seq<ChangeView>, i: int) -> int {
    changes[i].from - removed_before(changes, i)
}

/// The changes that put back what the changes take away.
pub open spec fn restored(s: Seq<char>, changes: Seq<ChangeView>) -> Seq<ChangeView> {
    Seq::new(
        changes.len(),
        |i: int|
            ChangeView::insert(
                place_after(changes, i),
                s.subrange(changes[i].from, changes[i].to),
            ),
    )
}

/// Whether the changes only take something away.
pub open spec fn only_removes(changes: Seq<ChangeView>) -> bool {
    forall|i: int| 0 <= i < changes.len() ==> (#[trigger] changes[i]).text is None
}

proof fn lemma_removed_before(a: Seq<ChangeView>, b: Seq<ChangeView>, k: int)
    requires
        0 <= k <= a.len(),
        k <= b.len(),
        forall|i: int| 0 <= i < k ==> a[i] == b[i],
    ensures
        removed_before(a, k) == removed_before(b, k),
    decreases k,
{
    if k > 0 {
        lemma_removed_before(a, b, k - 1);
    }
}

/// What was taken away and is put back where it was gives the text again.
pub proof fn lemma_restored(s: Seq<char>, changes: Seq<ChangeView>)
    requires
        in_order(changes, s.len() as int),
        only_removes(changes),
    ensures
        edited(s, changes).len() == s.len() - removed_before(changes, changes.len() as int),
        in_order(restored(s, changes), edited(s, changes).len() as int),
        edited(edited(s, changes), restored(s, changes)) == s,
    decreases changes.len(),
{
    let back = restored(s, changes);
    if changes.len() > 0 {
        let n = changes.len() - 1;
        let last = changes.last();
        let before = changes.drop_last();
        let start = s.take(last.from);
        assert(last == changes[n]);
        lemma_edited_last(s, changes);
        lemma_removed_before(changes, before, n);
        lemma_restored(start, before);
        let left = edited(start, before);
        let held = s.subrange(last.from, last.to);
        let rest = s.skip(last.to);
        assert(edited(s, changes) =~= left + rest);
        assert(left.len() == last.from - removed_before(changes, n));
        assert(back.drop_last() =~= restored(start, before)) by {
            assert forall|i: int| 0 <= i < n implies #[trigger] back[i] == restored(
                start,
                before,
            )[i] by {
                assert(before[i] == changes[i]);
                assert(changes[i].to <= changes[n].from);
                lemma_removed_before(changes, before, i);
                assert(start.subrange(changes[i].from, changes[i].to) =~= s.subrange(
                    changes[i].from,
                    changes[i].to,
                ));
            }
        }
        assert(in_order(back, edited(s, changes).len() as int)) by {
            assert forall|i: int| 0 <= i < back.len() implies 0 <= (#[trigger] back[i]).from
                <= back[i].to <= edited(s, changes).len() by {
                if i < n {
                    assert(back.drop_last()[i] == back[i]);
                }
            }
            assert forall|i: int, j: int| 0 <= i < j < back.len() implies (#[trigger] back[i]).to
                <= (#[trigger] back[j]).from by {
                assert(back.drop_last()[i] == back[i]);
                if j < n {
                    assert(back.drop_last()[j] == back[j]);
                }
            }
        }
        assert(spliced(left + rest, back.last()) =~= left + (held + rest));
        lemma_edited_apart(left, held + rest, back.drop_last());
        assert(start + (held + rest) =~= s);
    } else {
        assert(back =~= Seq::empty());
    }
}

} // verus!
