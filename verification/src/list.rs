use vstd::prelude::*;
use crate::port::TickType;
use crate::tasks::TaskHandle;

verus! {

/// Which of its two list items a task links into a list: the state item
/// (ready, delayed, suspended lists) or the event item (event lists and the
/// pending-ready list).
#[derive(Clone, Copy, PartialEq, Eq, Structural, Debug)]
pub enum ItemKind {
    State,
    Event,
}

/// Names one list item: the task that owns it and which of its items it is.
#[derive(Clone, Copy, PartialEq, Eq, Structural, Debug)]
pub struct ItemRef {
    pub owner: TaskHandle,
    pub kind: ItemKind,
}

/// The part of a list item kept in its task: the value lists are ordered by
/// and the list the item is linked into, if any.
#[derive(Clone, Copy, Debug)]
pub struct ListItem {
    pub value: TickType,
    pub container: Option<usize>,
}

impl ListItem {
    /// A fresh item: value 0, in no list.
    pub fn new() -> (r: ListItem)
        ensures
            r.value == 0,
            r.container is None,
    {
        ListItem { value: 0, container: None }
    }
}

/// The position the round-robin cursor takes after `advance` on a list of
/// `len` items; `len` itself is the position of the list's end marker.
pub open spec fn next_index(index: nat, len: nat) -> nat {
    if index + 1 < len {
        (index + 1) as nat
    } else {
        0
    }
}

/// Where the cursor stands after the item at `pos` is unlinked from a list
/// that then holds `new_len` items: a cursor on the removed item steps back
/// to its predecessor (the end marker when `pos` is 0).
pub open spec fn index_after_remove(index: nat, pos: nat, new_len: nat) -> nat {
    if index == pos {
        if pos == 0 {
            new_len
        } else {
            (pos - 1) as nat
        }
    } else if index > pos {
        (index - 1) as nat
    } else {
        index
    }
}

/// Where the cursor stands after an item is linked in at `pos`: it keeps
/// pointing at the same item (or at the end marker).
pub open spec fn index_after_insert(index: nat, pos: nat) -> nat {
    if pos <= index {
        index + 1
    } else {
        index
    }
}

/// The position of `r` in `s` (meaningful when `s` holds `r`).
pub open spec fn position(s: Seq<ItemRef>, r: ItemRef) -> int {
    choose|i: int| 0 <= i < s.len() && s[i] == r
}

/// In a sequence without duplicates, the position of an item is the one
/// index that holds it.
pub proof fn lemma_position_unique(s: Seq<ItemRef>, r: ItemRef, p: int)
    requires
        s.no_duplicates(),
        0 <= p < s.len(),
        s[p] == r,
    ensures
        position(s, r) == p,
{
    let q = position(s, r);
    assert(0 <= q < s.len() && s[q] == r);
}

/// The mathematical model of a list: its items in order and the cursor.
pub struct ListModel {
    pub items: Seq<ItemRef>,
    pub index: nat,
}

impl ListModel {
    pub open spec fn wf(self) -> bool {
        &&& self.index <= self.items.len()
        &&& self.items.no_duplicates()
    }

    /// `self` with `item` linked in at `pos`.
    pub open spec fn insert(self, pos: int, item: ItemRef) -> ListModel {
        ListModel {
            items: self.items.insert(pos, item),
            index: index_after_insert(self.index, pos as nat),
        }
    }

    /// `self` with the item at `pos` unlinked.
    pub open spec fn remove(self, pos: int) -> ListModel {
        ListModel {
            items: self.items.remove(pos),
            index: index_after_remove(self.index, pos as nat, (self.items.len() - 1) as nat),
        }
    }

    /// `self` with its cursor moved to the next item.
    pub open spec fn advance(self) -> ListModel {
        ListModel { items: self.items, index: next_index(self.index, self.items.len()) }
    }
}

/// An ordered list of item references with a round-robin cursor. The cursor
/// is a position in `0 ..= len`, where `len` stands for the end marker.
pub struct List {
    pub items: Vec<ItemRef>,
    pub index: usize,
}

impl View for List {
    type V = Seq<ItemRef>;

    open spec fn view(&self) -> Seq<ItemRef> {
        self.items@
    }
}

impl List {
    pub open spec fn wf(&self) -> bool {
        self.index <= self.items@.len()
    }

    pub open spec fn model(&self) -> ListModel {
        ListModel { items: self.items@, index: self.index as nat }
    }

    /// An empty list with its cursor on the end marker.
    pub fn new() -> (r: List)
        ensures
            r.wf(),
            r@ == Seq::<ItemRef>::empty(),
            r.index == 0,
    {
        List { items: Vec::new(), index: 0 }
    }

    /// Number of items in the list.
    pub fn len(&self) -> (n: usize)
        ensures
            n == self@.len(),
    {
        self.items.len()
    }

    /// Whether the list holds no item.
    pub fn is_empty(&self) -> (b: bool)
        ensures
            b == (self@.len() == 0),
    {
        self.items.len() == 0
    }

    /// The first item of the list.
    pub fn head(&self) -> (r: ItemRef)
        requires
            self@.len() > 0,
        ensures
            r == self@[0],
    {
        self.items[0]
    }

    /// Position of `item` in the list, if it is there.
    pub fn position_of(&self, item: ItemRef) -> (r: Option<usize>)
        ensures
            match r {
                Some(p) => p < self@.len() && self@[p as int] == item,
                None => !self@.contains(item),
            },
    {
        let mut i: usize = 0;
        while i < self.items.len()
            invariant
                i <= self@.len(),
                forall|j: int| 0 <= j < i ==> self@[j] != item,
            decreases self@.len() - i,
        {
            if self.items[i] == item {
                return Some(i);
            }
            i = i + 1;
        }
        None
    }

    /// Links `item` in at position `pos`; the cursor keeps its item.
    pub fn insert_at(&mut self, pos: usize, item: ItemRef)
        requires
            old(self).wf(),
            pos <= old(self)@.len(),
        ensures
            final(self).wf(),
            final(self)@ == old(self)@.insert(pos as int, item),
            final(self).index == index_after_insert(old(self).index as nat, pos as nat),
    {
        self.items.insert(pos, item);
        let n = self.items.len();
        assert(self.index < n);
        if pos <= self.index {
            self.index = self.index + 1;
        }
    }

    /// Unlinks the item at `pos` and returns the number of items left.
    pub fn remove_at(&mut self, pos: usize) -> (n: usize)
        requires
            old(self).wf(),
            pos < old(self)@.len(),
        ensures
            final(self).wf(),
            final(self)@ == old(self)@.remove(pos as int),
            n == final(self)@.len(),
            final(self).index == index_after_remove(
                old(self).index as nat,
                pos as nat,
                final(self)@.len(),
            ),
    {
        self.items.remove(pos);
        let n = self.items.len();
        if self.index == pos {
            if pos == 0 {
                self.index = n;
            } else {
                self.index = pos - 1;
            }
        } else if self.index > pos {
            self.index = self.index - 1;
        }
        n
    }

    /// Moves the cursor to the next item, passing over the end marker, and
    /// returns that item.
    pub fn advance(&mut self) -> (r: ItemRef)
        requires
            old(self).wf(),
            old(self)@.len() > 0,
        ensures
            final(self).wf(),
            final(self)@ == old(self)@,
            final(self).index == next_index(old(self).index as nat, old(self)@.len()),
            r == final(self)@[final(self).index as int],
    {
        if self.index < self.items.len() - 1 {
            self.index = self.index + 1;
        } else {
            self.index = 0;
        }
        self.items[self.index]
    }
}

} // verus!
