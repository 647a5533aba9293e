//! Ranges of text and the selections that they make up.

use vstd::prelude::*;

verus! {

/// A range of text, from the character at its anchor to the one at its head.
/// The head is where the cursor is, and it may lie on either side.
#[derive(Clone, Copy, Debug, PartialEq, Eq)]
pub struct Range {
    pub anchor: usize,
    pub head: usize,
    /// The column that a vertical motion is to return to, where there is one.
    pub horiz: Option<u32>,
}

impl Range {
    pub open spec fn between(anchor: usize, head: usize) -> Range {
        Range { anchor, head, horiz: None }
    }

    /// The smaller end.
    pub open spec fn low(self) -> usize {
        if self.anchor <= self.head {
            self.anchor
        } else {
            self.head
        }
    }

    /// The larger end.
    pub open spec fn high(self) -> usize {
        if self.anchor <= self.head {
            self.head
        } else {
            self.anchor
        }
    }

    pub open spec fn within(self, len: int) -> bool {
        self.anchor <= len && self.head <= len
    }

    pub fn new(anchor: usize, head: usize) -> (range: Range)
        ensures
            range == Range::between(anchor, head),
    {
        Range { anchor, head, horiz: None }
    }

    /// An empty range: a cursor and nothing more.
    pub fn point(head: usize) -> (range: Range)
        ensures
            range == Range::between(head, head),
    {
        Range::new(head, head)
    }

    pub fn from(&self) -> (pos: usize)
        ensures
            pos == self.low(),
    {
        if self.anchor <= self.head {
            self.anchor
        } else {
            self.head
        }
    }

    pub fn to(&self) -> (pos: usize)
        ensures
            pos == self.high(),
    {
        if self.anchor <= self.head {
            self.head
        } else {
            self.anchor
        }
    }

    pub fn is_empty(&self) -> (b: bool)
        ensures
            b == (self.anchor == self.head),
    {
        self.anchor == self.head
    }
}

/// The ranges that are selected, and which of them is the primary one.
///
/// The ranges stand as a command wrote them: a document that is handed a
/// selection puts its ranges in order and merges those that overlap.
#[derive(Debug)]
pub struct Selection {
    pub ranges: Vec<Range>,
    pub primary_index: usize,
}

/// What a selection holds.
#[verifier::ext_equal]
pub struct SelectionView {
    pub ranges: Seq<Range>,
    pub primary_index: int,
}

impl SelectionView {
    /// One range, from `anchor` to `head`.
    pub open spec fn single(anchor: usize, head: usize) -> SelectionView {
        SelectionView { ranges: seq![Range::between(anchor, head)], primary_index: 0 }
    }

    pub open spec fn point(pos: usize) -> SelectionView {
        SelectionView::single(pos, pos)
    }

    /// There is a primary range, and no range leaves a text of `len` characters.
    pub open spec fn within(self, len: int) -> bool {
        &&& 0 <= self.primary_index < self.ranges.len()
        &&& forall|i: int| 0 <= i < self.ranges.len() ==> (#[trigger] self.ranges[i]).within(len)
    }

    /// The ranges lie in order and share no character, both ends counted.
    pub open spec fn separated(self) -> bool {
        forall|i: int, j: int|
            0 <= i < j < self.ranges.len() ==> (#[trigger] self.ranges[i]).high() < (
            #[trigger] self.ranges[j]).low()
    }

    pub open spec fn primary(self) -> Range {
        self.ranges[self.primary_index]
    }

    /// Every range replaced by what `f` makes of it.
    pub open spec fn mapped(self, f: spec_fn(Range) -> Range) -> SelectionView {
        SelectionView { ranges: self.ranges.map_values(f), ..self }
    }
}

impl View for Selection {
    type V = SelectionView;

    open spec fn view(&self) -> SelectionView {
        SelectionView { ranges: self.ranges@, primary_index: self.primary_index as int }
    }
}

impl Clone for Selection {
    fn clone(&self) -> (selection: Selection)
        ensures
            selection@ == self@,
    {
        let ranges = self.ranges.clone();
        assert(ranges@ =~= self.ranges@);
        Selection { ranges, primary_index: self.primary_index }
    }
}

impl Selection {
    pub fn single(anchor: usize, head: usize) -> (selection: Selection)
        ensures
            selection@ == SelectionView::single(anchor, head),
    {
        Selection { ranges: vec![Range::new(anchor, head)], primary_index: 0 }
    }

    pub fn point(pos: usize) -> (selection: Selection)
        ensures
            selection@ == SelectionView::point(pos),
    {
        Selection::single(pos, pos)
    }

    pub fn primary(&self) -> (range: Range)
        requires
            self.primary_index < self.ranges@.len(),
        ensures
            range == self@.primary(),
    {
        self.ranges[self.primary_index]
    }

    /// The head of the primary range.
    pub fn cursor(&self) -> (pos: usize)
        requires
            self.primary_index < self.ranges@.len(),
        ensures
            pos == self@.primary().head,
    {
        self.primary().head
    }

    /// Replaces every range by what `f` makes of it.
    pub fn transform<F: Fn(Range) -> Range>(&self, f: F) -> (selection: Selection)
        requires
            forall|i: int| 0 <= i < self.ranges@.len() ==> call_requires(f, (#[trigger] self.ranges@[i],)),
        ensures
            selection.primary_index == self.primary_index,
            selection.ranges@.len() == self.ranges@.len(),
            forall|i: int|
                0 <= i < self.ranges@.len() ==> call_ensures(
                    f,
                    (self.ranges@[i],),
                    #[trigger] selection.ranges@[i],
                ),
    {
        let mut ranges: Vec<Range> = Vec::with_capacity(self.ranges.len());
        let mut i: usize = 0;
        while i < self.ranges.len()
            invariant
                forall|j: int|
                    0 <= j < self.ranges@.len() ==> call_requires(f, (#[trigger] self.ranges@[j],)),
                i <= self.ranges@.len(),
                ranges@.len() == i,
                forall|j: int|
                    0 <= j < i ==> call_ensures(f, (self.ranges@[j],), #[trigger] ranges@[j]),
            decreases self.ranges@.len() - i,
        {
            let range = self.ranges[i];
            ranges.push(f(range));
            i += 1;
        }
        Selection { ranges, primary_index: self.primary_index }
    }
}

} // verus!
