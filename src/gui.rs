//! The list of jot cards: which card is current, and how a selection moves.
use vstd::prelude::*;

verus! {

/// Something that can give a label of at most a given length.
pub trait Labelable {
    fn short_label(&self, length: usize) -> String;
}

/// A list entry: its label, its index, and the index of the current entry.
#[derive(Clone, Debug)]
pub struct Item(pub String, pub usize, pub usize);

impl Item {
    pub fn new(label: String, id: usize, current: usize) -> (r: Item)
        ensures
            r.0 == label,
            r.1 == id,
            r.2 == current,
    {
        Item(label, id, current)
    }

    pub fn is_current(&self) -> (r: bool)
        ensures
            r == (self.1 == self.2),
    {
        self.1 == self.2
    }

    pub fn make_current(&mut self)
        ensures
            final(self).0 == old(self).0,
            final(self).1 == old(self).1,
            final(self).2 == old(self).1,
    {
        self.2 = self.1;
    }

    pub fn label(&self) -> (r: &str)
        ensures
            r@ == self.0@,
    {
        self.0.as_str()
    }
}

/// A jot card: its label, its index, and the index of the current jot.
#[derive(Clone, Debug)]
pub struct JotCard {
    label: String,
    idx: usize,
    current_jot_idx: usize,
}

impl JotCard {
    pub closed spec fn spec_label(&self) -> Seq<char> {
        self.label@
    }

    pub closed spec fn spec_idx(&self) -> usize {
        self.idx
    }

    pub closed spec fn spec_current(&self) -> usize {
        self.current_jot_idx
    }

    pub fn new(label: String, id: usize, current: usize) -> (r: JotCard)
        ensures
            r.spec_label() == label@,
            r.spec_idx() == id,
            r.spec_current() == current,
    {
        JotCard { label, idx: id, current_jot_idx: current }
    }

    pub fn is_current(&self) -> (r: bool)
        ensures
            r == (self.spec_idx() == self.spec_current()),
    {
        self.idx == self.current_jot_idx
    }

    pub fn make_current(&mut self)
        ensures
            final(self).spec_label() == old(self).spec_label(),
            final(self).spec_idx() == old(self).spec_idx(),
            final(self).spec_current() == old(self).spec_idx(),
    {
        self.current_jot_idx = self.idx;
    }

    /// The index of this card's jot.
    pub fn index(&self) -> (r: usize)
        ensures
            r == self.spec_idx(),
    {
        self.idx
    }

    /// The index of the current jot as this card sees it.
    pub fn current(&self) -> (r: usize)
        ensures
            r == self.spec_current(),
    {
        self.current_jot_idx
    }

    pub fn label(&self) -> (r: &str)
        ensures
            r@ == self.spec_label(),
    {
        self.label.as_str()
    }
}

/// The selection after a pass over the cards: the last card that reports a
/// current index other than `current` decides; `None` where none does.
pub open spec fn last_change(current: usize, reported: Seq<usize>) -> Option<usize>
    decreases reported.len(),
{
    if reported.len() == 0 {
        None
    } else if reported.last() != current {
        Some(reported.last())
    } else {
        last_change(current, reported.drop_last())
    }
}

/// The new current index after the cards reported theirs, in order, or `None`
/// where the selection did not change.
pub fn resolve_selection(current: usize, reported: &Vec<usize>) -> (r: Option<usize>)
    ensures
        r == last_change(current, reported@),
{
    let mut changed: Option<usize> = None;
    let mut i: usize = 0;
    assert(reported@.subrange(0, 0) =~= Seq::<usize>::empty());
    while i < reported.len()
        invariant
            0 <= i <= reported@.len(),
            changed == last_change(current, reported@.subrange(0, i as int)),
        decreases reported@.len() - i,
    {
        assert(reported@.subrange(0, i + 1).drop_last() =~= reported@.subrange(0, i as int));
        if reported[i] != current {
            changed = Some(reported[i]);
        }
        i = i + 1;
    }
    assert(reported@.subrange(0, reported@.len() as int) =~= reported@);
    changed
}

} // verus!
