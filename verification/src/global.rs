use vstd::prelude::*;
use crate::list::{
    lemma_position_unique, next_index, position, ItemKind,
    ItemRef, List, ListItem, ListModel,
};
use crate::port::{BaseType, TickType, UBaseType};
use crate::tasks::{TaskHandle, TCB};

verus! {

/// List ids `0 .. configMAX_PRIORITIES` are the ready lists, one per priority.
pub const DELAYED_LIST_A: usize = 10;
pub const DELAYED_LIST_B: usize = 11;
/// Tasks readied while the scheduler was suspended (linked by event item).
pub const PENDING_READY_LIST: usize = 12;
/// Tasks that deleted themselves and wait for their memory to be freed.
pub const TASKS_WAITING_TERMINATION: usize = 13;
/// Suspended tasks and tasks blocked without a time limit.
pub const SUSPENDED_TASK_LIST: usize = 14;
/// Number of lists the kernel owns; ids from here on are event lists of queues.
pub const NUM_KERNEL_LISTS: usize = 15;

/// The list item of `tcb` named by `kind`.
pub open spec fn item_of(tcb: TCB, kind: ItemKind) -> ListItem {
    match kind {
        ItemKind::State => tcb.StateListItem,
        ItemKind::Event => tcb.EventListItem,
    }
}

/// `tcb` with its item `kind` replaced by `it`.
pub open spec fn with_item(tcb: TCB, kind: ItemKind, it: ListItem) -> TCB {
    match kind {
        ItemKind::State => TCB { StateListItem: it, ..tcb },
        ItemKind::Event => TCB { EventListItem: it, ..tcb },
    }
}

/// The kind of item a list links: event lists and the pending-ready list
/// link event items, every other kernel list links state items.
pub open spec fn list_kind(l: int) -> ItemKind {
    if l == PENDING_READY_LIST || l >= NUM_KERNEL_LISTS {
        ItemKind::Event
    } else {
        ItemKind::State
    }
}

/// Two task tables of one length whose tasks have the same list items.
pub open spec fn same_items(a: Seq<TCB>, b: Seq<TCB>) -> bool {
    &&& a.len() == b.len()
    &&& forall|i: int|
        0 <= i < a.len() ==> (#[trigger] b[i]).StateListItem == a[i].StateListItem
            && b[i].EventListItem == a[i].EventListItem
}

/// The task table `tasks` with item `r` replaced by `it`.
pub open spec fn tasks_with_item(tasks: Seq<TCB>, r: ItemRef, it: ListItem) -> Seq<TCB> {
    tasks.update(r.owner.0 as int, with_item(tasks[r.owner.0 as int], r.kind, it))
}

/// The mathematical model of the kernel: the task table, the lists, and
/// the scheduler's counters and flags.
#[verifier::ext_equal]
pub struct KState {
    pub tasks: Seq<TCB>,
    pub lists: Seq<ListModel>,
    pub delayed_lists_swapped: bool,
    pub tick_count: TickType,
    pub top_ready_priority: UBaseType,
    pub pended_ticks: UBaseType,
    pub scheduler_running: bool,
    pub yield_pending: bool,
    pub num_of_overflows: BaseType,
    pub task_number: UBaseType,
    pub next_task_unblock_time: TickType,
    pub current_number_of_tasks: UBaseType,
    pub scheduler_suspended: UBaseType,
    pub current_tcb: Option<TaskHandle>,
    pub deleted_tasks_waiting_clean_up: UBaseType,
    pub total_run_time: u32,
    pub task_switched_in_time: u32,
}

impl KState {
    pub open spec fn valid_task(self, h: TaskHandle) -> bool {
        h.0 < self.tasks.len()
    }

    pub open spec fn tcb(self, h: TaskHandle) -> TCB {
        self.tasks[h.0 as int]
    }

    pub open spec fn item(self, r: ItemRef) -> ListItem {
        item_of(self.tasks[r.owner.0 as int], r.kind)
    }

    pub open spec fn container(self, r: ItemRef) -> Option<usize> {
        self.item(r).container
    }

    pub open spec fn value(self, r: ItemRef) -> TickType {
        self.item(r).value
    }

    pub open spec fn list(self, l: int) -> Seq<ItemRef> {
        self.lists[l].items
    }

    /// Id of the list of delayed tasks whose wake time has not wrapped.
    pub open spec fn delayed_id(self) -> usize {
        if self.delayed_lists_swapped {
            DELAYED_LIST_B
        } else {
            DELAYED_LIST_A
        }
    }

    /// Id of the list of delayed tasks whose wake time has wrapped.
    pub open spec fn overflow_id(self) -> usize {
        if self.delayed_lists_swapped {
            DELAYED_LIST_A
        } else {
            DELAYED_LIST_B
        }
    }

    /// The items of list `l` are in non-decreasing order of value.
    pub open spec fn sorted_list(self, l: int) -> bool {
        forall|i: int, j: int|
            0 <= i < j < self.list(l).len() ==> #[trigger] self.value(self.list(l)[i])
                <= #[trigger] self.value(self.list(l)[j])
    }

    pub open spec fn lists_wf(self) -> bool {
        forall|l: int| 0 <= l < self.lists.len() ==> (#[trigger] self.lists[l]).wf()
    }

    /// Every linked item belongs to a task, is of the list's kind, and
    /// records the list as its container.
    pub open spec fn entries_wf(self) -> bool {
        forall|l: int, i: int|
            0 <= l < self.lists.len() && 0 <= i < self.lists[l].items.len() ==> {
                let r = #[trigger] self.lists[l].items[i];
                &&& self.valid_task(r.owner)
                &&& r.kind == list_kind(l)
                &&& self.container(r) == Some(l as usize)
            }
    }

    /// An item that records a container is linked into that list.
    pub open spec fn containers_wf(self) -> bool {
        forall|r: ItemRef|
            self.valid_task(r.owner) && (#[trigger] self.container(r)) is Some ==> {
                &&& self.container(r).unwrap() < self.lists.len()
                &&& self.list(self.container(r).unwrap() as int).contains(r)
            }
    }

    /// The kernel invariant: every item is linked into at most one list,
    /// exactly the list it records, at most once; lists hold items of
    /// their kind; the delayed lists are ordered by wake time.
    pub open spec fn wf(self) -> bool {
        &&& NUM_KERNEL_LISTS <= self.lists.len() <= usize::MAX
        &&& (self.current_tcb matches Some(h) ==> self.valid_task(h))
        &&& self.lists_wf()
        &&& self.entries_wf()
        &&& self.containers_wf()
        &&& self.sorted_list(DELAYED_LIST_A as int)
        &&& self.sorted_list(DELAYED_LIST_B as int)
    }

    /// `self` with item `r` replaced by `it`.
    pub open spec fn set_item(self, r: ItemRef, it: ListItem) -> KState {
        KState { tasks: tasks_with_item(self.tasks, r, it), ..self }
    }

    /// `self` with item `r` linked into list `l` at position `pos`.
    pub open spec fn link(self, l: usize, pos: int, r: ItemRef) -> KState {
        KState {
            lists: self.lists.update(l as int, self.lists[l as int].insert(pos, r)),
            tasks: tasks_with_item(
                self.tasks,
                r,
                ListItem { value: self.value(r), container: Some(l) },
            ),
            ..self
        }
    }

    /// `self` with item `r` unlinked from its list (`uxListRemove`); an
    /// item in no list leaves the state as it is.
    pub open spec fn unlink(self, r: ItemRef) -> KState {
        match self.container(r) {
            None => self,
            Some(l) => KState {
                lists: self.lists.update(
                    l as int,
                    self.lists[l as int].remove(position(self.list(l as int), r)),
                ),
                tasks: tasks_with_item(self.tasks, r, ListItem { value: self.value(r), container: None }),
                ..self
            },
        }
    }

    /// What `uxListRemove` returns: the number of items left in the list the
    /// item was unlinked from, or 0 when it was in none.
    pub open spec fn unlink_count(self, r: ItemRef) -> UBaseType {
        match self.container(r) {
            None => 0,
            Some(l) => (self.list(l as int).len() - 1) as UBaseType,
        }
    }

    /// `self` with the value of item `r` set to `v`.
    pub open spec fn set_value(self, r: ItemRef, v: TickType) -> KState {
        self.set_item(r, ListItem { value: v, container: self.container(r) })
    }

    /// `vListInsertEnd`: `r` linked just before the cursor of list `l`.
    pub open spec fn insert_end(self, l: usize, r: ItemRef) -> KState {
        self.link(l, self.lists[l as int].index as int, r)
    }

    /// `vListInsert`: `r` linked after every item of list `l` valued at most
    /// as much as `r`.
    pub open spec fn insert_sorted(self, l: usize, r: ItemRef) -> KState {
        self.link(l, insert_pos(self, l as int, self.value(r), 0), r)
    }

    /// `self` with the cursor of list `l` moved to its next item.
    pub open spec fn advance(self, l: usize) -> KState {
        KState { lists: self.lists.update(l as int, self.lists[l as int].advance()), ..self }
    }

    /// The owner of the first item of list `l`.
    pub open spec fn head_owner(self, l: int) -> TaskHandle {
        self.list(l)[0].owner
    }

    /// The task `listGET_OWNER_OF_NEXT_ENTRY` returns for list `l`.
    pub open spec fn next_owner(self, l: usize) -> TaskHandle {
        self.list(l as int)[next_index(self.lists[l as int].index, self.list(l as int).len()) as int].owner
    }
}

/// Where `vListInsert` links an item valued `v` into list `l`, scanning
/// from position `i`: before the first item valued more than `v`.
pub open spec fn insert_pos(s: KState, l: int, v: TickType, i: int) -> int
    decreases s.list(l).len() - i,
{
    if i < 0 || i >= s.list(l).len() || s.value(s.list(l)[i]) > v {
        i
    } else {
        insert_pos(s, l, v, i + 1)
    }
}

pub proof fn lemma_insert_pos(s: KState, l: int, v: TickType, i: int)
    requires
        0 <= i <= s.list(l).len(),
    ensures
        i <= insert_pos(s, l, v, i) <= s.list(l).len(),
        forall|j: int| i <= j < insert_pos(s, l, v, i) ==> #[trigger] s.value(s.list(l)[j]) <= v,
        insert_pos(s, l, v, i) < s.list(l).len() ==> s.value(s.list(l)[insert_pos(s, l, v, i)]) > v,
    decreases s.list(l).len() - i,
{
    if i < s.list(l).len() && s.value(s.list(l)[i]) <= v {
        lemma_insert_pos(s, l, v, i + 1);
    }
}

/// Inserting an item valued `v` at `pos` of list `l` keeps the list sorted.
pub open spec fn insert_keeps_sorted(s: KState, l: int, pos: int, v: TickType) -> bool {
    &&& forall|i: int| 0 <= i < pos ==> #[trigger] s.value(s.list(l)[i]) <= v
    &&& forall|i: int| pos <= i < s.list(l).len() ==> v <= #[trigger] s.value(s.list(l)[i])
}

/// Facts about items after one item changed.
pub proof fn lemma_set_item(s: KState, r: ItemRef, it: ListItem)
    requires
        s.valid_task(r.owner),
    ensures
        forall|q: ItemRef|
            s.valid_task(q.owner) ==> #[trigger] s.set_item(r, it).item(q) == (if q == r {
                it
            } else {
                s.item(q)
            }),
        s.set_item(r, it).tasks.len() == s.tasks.len(),
{
    let t = s.set_item(r, it);
    assert forall|q: ItemRef| s.valid_task(q.owner) implies #[trigger] t.item(q) == (if q == r {
        it
    } else {
        s.item(q)
    }) by {
        if q.owner == r.owner {
            assert(t.tasks[q.owner.0 as int] == with_item(s.tcb(r.owner), r.kind, it));
        } else {
            assert(t.tasks[q.owner.0 as int] == s.tasks[q.owner.0 as int]);
        }
    }
}

/// Sortedness of a list depends only on its items and their values.
pub proof fn lemma_sorted_same(a: KState, b: KState, d: int)
    requires
        a.sorted_list(d),
        a.list(d) == b.list(d),
        forall|i: int| 0 <= i < a.list(d).len() ==> #[trigger] a.value(a.list(d)[i]) == b.value(b.list(d)[i]),
    ensures
        b.sorted_list(d),
{
    assert forall|i: int, j: int|
        0 <= i < j < b.list(d).len() implies #[trigger] b.value(b.list(d)[i])
            <= #[trigger] b.value(b.list(d)[j]) by {
        assert(a.value(a.list(d)[i]) == b.value(b.list(d)[i]));
        assert(a.value(a.list(d)[j]) == b.value(b.list(d)[j]));
        assert(a.value(a.list(d)[i]) <= a.value(a.list(d)[j]));
    }
}

/// An item whose container is `None` is linked into no list.
pub proof fn lemma_unlinked_not_in_lists(s: KState, r: ItemRef)
    requires
        s.wf(),
        s.valid_task(r.owner),
        s.container(r) is None,
    ensures
        forall|l: int| 0 <= l < s.lists.len() ==> !(#[trigger] s.list(l)).contains(r),
{
    assert forall|l: int| 0 <= l < s.lists.len() implies !(#[trigger] s.list(l)).contains(r) by {
        if s.list(l).contains(r) {
            let i = choose|i: int| 0 <= i < s.list(l).len() && s.list(l)[i] == r;
            assert(s.lists[l].items[i] == r);
        }
    }
}

/// A linked item sits in its container at `position`, the one index holding it.
pub proof fn lemma_linked_position(s: KState, r: ItemRef)
    requires
        s.wf(),
        s.valid_task(r.owner),
        s.container(r) is Some,
    ensures
        ({
            let l = s.container(r).unwrap() as int;
            let p = position(s.list(l), r);
            &&& 0 <= p < s.list(l).len()
            &&& s.list(l)[p] == r
            &&& forall|i: int| 0 <= i < s.list(l).len() && s.list(l)[i] == r ==> i == p
        }),
{
    let l = s.container(r).unwrap() as int;
    assert(s.list(l).contains(r));
    let i = choose|i: int| 0 <= i < s.list(l).len() && s.list(l)[i] == r;
    assert(s.lists[l].wf());
    lemma_position_unique(s.list(l), r, i);
}

/// An event item is never linked into a delayed list.
pub proof fn lemma_event_not_delayed(s: KState, r: ItemRef)
    requires
        s.wf(),
        s.valid_task(r.owner),
        r.kind == ItemKind::Event,
    ensures
        s.container(r) != Some(DELAYED_LIST_A),
        s.container(r) != Some(DELAYED_LIST_B),
{
    if s.container(r) is Some {
        let l = s.container(r).unwrap() as int;
        assert(s.list(l).contains(r));
        let i = choose|i: int| 0 <= i < s.list(l).len() && s.list(l)[i] == r;
        assert(s.lists[l].items[i] == r);
    }
}

/// Linking an unlinked item keeps the invariant.
pub proof fn lemma_link_wf(s: KState, l: usize, pos: int, r: ItemRef)
    requires
        s.wf(),
        l < s.lists.len(),
        0 <= pos <= s.list(l as int).len(),
        s.valid_task(r.owner),
        s.container(r) is None,
        r.kind == list_kind(l as int),
        (l == DELAYED_LIST_A || l == DELAYED_LIST_B) ==> insert_keeps_sorted(s, l as int, pos, s.value(r)),
    ensures
        s.link(l, pos, r).wf(),
{
    let t = s.link(l, pos, r);
    let it = ListItem { value: s.value(r), container: Some(l) };
    lemma_unlinked_not_in_lists(s, r);
    lemma_set_item(s, r, it);
    assert(t.tasks == s.set_item(r, it).tasks);
    assert forall|q: ItemRef| s.valid_task(q.owner) implies #[trigger] t.item(q) == (if q == r {
        it
    } else {
        s.item(q)
    }) by {
        assert(t.item(q) == s.set_item(r, it).item(q));
    }
    lemma_link_lists_wf(s, l, pos, r);
    lemma_link_entries_wf(s, l, pos, r);
    lemma_link_containers_wf(s, l, pos, r);
    lemma_link_sorted(s, l, pos, r, DELAYED_LIST_A as int);
    lemma_link_sorted(s, l, pos, r, DELAYED_LIST_B as int);
}

proof fn lemma_link_lists_wf(s: KState, l: usize, pos: int, r: ItemRef)
    requires
        s.wf(),
        l < s.lists.len(),
        0 <= pos <= s.list(l as int).len(),
        !s.list(l as int).contains(r),
    ensures
        s.link(l, pos, r).lists_wf(),
{
    let t = s.link(l, pos, r);
    assert forall|m: int| 0 <= m < t.lists.len() implies (#[trigger] t.lists[m]).wf() by {
        assert(s.lists[m].wf());
        if m == l {
            assert forall|i: int, j: int|
                0 <= i < t.list(m).len() && 0 <= j < t.list(m).len() && i != j implies t.list(m)[i]
                != t.list(m)[j] by {
                if i != pos && j != pos {
                    let oi = if i < pos { i } else { i - 1 };
                    let oj = if j < pos { j } else { j - 1 };
                    assert(t.list(m)[i] == s.list(m)[oi]);
                    assert(t.list(m)[j] == s.list(m)[oj]);
                    assert(oi != oj);
                } else if i == pos {
                    let oj = if j < pos { j } else { j - 1 };
                    assert(t.list(m)[j] == s.list(m)[oj]);
                } else {
                    let oi = if i < pos { i } else { i - 1 };
                    assert(t.list(m)[i] == s.list(m)[oi]);
                }
            }
        } else {
            assert(t.lists[m] == s.lists[m]);
        }
    }
}

proof fn lemma_link_entries_wf(s: KState, l: usize, pos: int, r: ItemRef)
    requires
        s.wf(),
        l < s.lists.len(),
        0 <= pos <= s.list(l as int).len(),
        s.valid_task(r.owner),
        r.kind == list_kind(l as int),
        forall|q: ItemRef| s.valid_task(q.owner) ==> #[trigger] s.link(l, pos, r).item(q) == (if q == r {
            ListItem { value: s.value(r), container: Some(l) }
        } else {
            s.item(q)
        }),
        !s.list(l as int).contains(r),
        s.container(r) is None,
        s.link(l, pos, r).tasks.len() == s.tasks.len(),
    ensures
        s.link(l, pos, r).entries_wf(),
{
    let t = s.link(l, pos, r);
    assert forall|m: int, i: int|
        0 <= m < t.lists.len() && 0 <= i < t.lists[m].items.len() implies {
        let q = #[trigger] t.lists[m].items[i];
        &&& t.valid_task(q.owner)
        &&& q.kind == list_kind(m)
        &&& t.container(q) == Some(m as usize)
    } by {
        let q = t.lists[m].items[i];
        if m == l {
            if i != pos {
                let oi = if i < pos { i } else { i - 1 };
                assert(q == s.lists[m].items[oi]);
                assert(s.list(l as int)[oi] == q);
                assert(q != r);
                assert(s.valid_task(q.owner));
                assert(s.container(q) == Some(m as usize));
                assert(t.item(q) == s.item(q));
                assert(t.container(q) == Some(m as usize));
            } else {
                assert(q == r);
                assert(t.item(q) == ListItem { value: s.value(r), container: Some(l) });
                assert(t.container(q) == Some(m as usize));
            }
        } else {
            assert(t.lists[m] == s.lists[m]);
            assert(q == s.lists[m].items[i]);
            assert(s.container(q) == Some(m as usize));
            assert(q != r);
            assert(t.item(q) == s.item(q));
        }
    }
}

proof fn lemma_link_containers_wf(s: KState, l: usize, pos: int, r: ItemRef)
    requires
        s.wf(),
        l < s.lists.len(),
        0 <= pos <= s.list(l as int).len(),
        s.valid_task(r.owner),
        forall|q: ItemRef| s.valid_task(q.owner) ==> #[trigger] s.link(l, pos, r).item(q) == (if q == r {
            ListItem { value: s.value(r), container: Some(l) }
        } else {
            s.item(q)
        }),
        s.link(l, pos, r).tasks.len() == s.tasks.len(),
    ensures
        s.link(l, pos, r).containers_wf(),
{
    let t = s.link(l, pos, r);
    assert forall|q: ItemRef| t.valid_task(q.owner) && (#[trigger] t.container(q)) is Some implies {
        &&& t.container(q).unwrap() < t.lists.len()
        &&& t.list(t.container(q).unwrap() as int).contains(q)
    } by {
        assert(s.valid_task(q.owner));
        if q == r {
            assert(t.container(q) == Some(l));
            assert(t.list(l as int)[pos] == r);
        } else {
            assert(s.item(q) == t.item(q));
            let c = s.container(q).unwrap() as int;
            assert(s.list(c).contains(q));
            let i = choose|i: int| 0 <= i < s.list(c).len() && s.list(c)[i] == q;
            if c == l {
                let ni = if i < pos { i } else { i + 1 };
                assert(t.list(c)[ni] == q);
            } else {
                assert(t.lists[c] == s.lists[c]);
            }
        }
    }
}

proof fn lemma_link_sorted(s: KState, l: usize, pos: int, r: ItemRef, d: int)
    requires
        s.wf(),
        d == DELAYED_LIST_A || d == DELAYED_LIST_B,
        l < s.lists.len(),
        0 <= pos <= s.list(l as int).len(),
        s.valid_task(r.owner),
        (l == DELAYED_LIST_A || l == DELAYED_LIST_B) ==> insert_keeps_sorted(s, l as int, pos, s.value(r)),
        forall|q: ItemRef| s.valid_task(q.owner) ==> #[trigger] s.link(l, pos, r).item(q) == (if q == r {
            ListItem { value: s.value(r), container: Some(l) }
        } else {
            s.item(q)
        }),
    ensures
        s.link(l, pos, r).sorted_list(d),
{
    let t = s.link(l, pos, r);
    assert(s.sorted_list(d));
    assert forall|i: int, j: int|
        0 <= i < j < t.list(d).len() implies #[trigger] t.value(t.list(d)[i])
            <= #[trigger] t.value(t.list(d)[j]) by {
        let v = s.value(r);
        if d == l {
            if i != pos && j != pos {
                let oi = if i < pos { i } else { i - 1 };
                let oj = if j < pos { j } else { j - 1 };
                assert(t.list(d)[i] == s.list(d)[oi]);
                assert(t.list(d)[j] == s.list(d)[oj]);
                assert(s.lists[d].items[oi] == s.list(d)[oi]);
                assert(s.lists[d].items[oj] == s.list(d)[oj]);
                assert(s.value(s.list(d)[oi]) <= s.value(s.list(d)[oj]));
            } else if i == pos {
                assert(t.list(d)[j] == s.list(d)[j - 1]);
                assert(s.lists[d].items[j - 1] == s.list(d)[j - 1]);
                assert(v <= s.value(s.list(d)[j - 1]));
            } else {
                assert(t.list(d)[i] == s.list(d)[i]);
                assert(s.lists[d].items[i] == s.list(d)[i]);
                assert(s.value(s.list(d)[i]) <= v);
            }
        } else {
            assert(t.lists[d] == s.lists[d]);
            assert(s.lists[d].items[i] == s.list(d)[i]);
            assert(s.lists[d].items[j] == s.list(d)[j]);
            assert(s.value(s.list(d)[i]) <= s.value(s.list(d)[j]));
        }
    }
}

/// Unlinking an item keeps the invariant.
pub proof fn lemma_unlink_wf(s: KState, r: ItemRef)
    requires
        s.wf(),
        s.valid_task(r.owner),
    ensures
        s.unlink(r).wf(),
{
    if s.container(r) is Some {
        let l = s.container(r).unwrap();
        let t = s.unlink(r);
        lemma_linked_position(s, r);
        let pos = position(s.list(l as int), r);
        let it = ListItem { value: s.value(r), container: None };
        lemma_set_item(s, r, it);
        assert(t.tasks == s.set_item(r, it).tasks);
        assert forall|q: ItemRef| s.valid_task(q.owner) implies #[trigger] t.item(q) == (if q == r {
            it
        } else {
            s.item(q)
        }) by {
            assert(t.item(q) == s.set_item(r, it).item(q));
        }
        assert forall|m: int| 0 <= m < s.lists.len() && m != l implies #[trigger] t.lists[m] == s.lists[m] by {}
        assert(t.list(l as int) == s.list(l as int).remove(pos));
        // lists
        assert forall|m: int| 0 <= m < t.lists.len() implies (#[trigger] t.lists[m]).wf() by {
            assert(s.lists[m].wf());
            if m == l {
                assert forall|i: int, j: int|
                    0 <= i < t.list(m).len() && 0 <= j < t.list(m).len() && i != j implies t.list(m)[i]
                    != t.list(m)[j] by {
                    let oi = if i < pos { i } else { i + 1 };
                    let oj = if j < pos { j } else { j + 1 };
                    assert(t.list(m)[i] == s.list(m)[oi]);
                    assert(t.list(m)[j] == s.list(m)[oj]);
                }
            }
        }
        // entries
        assert forall|m: int, i: int|
            0 <= m < t.lists.len() && 0 <= i < t.lists[m].items.len() implies {
            let q = #[trigger] t.lists[m].items[i];
            &&& t.valid_task(q.owner)
            &&& q.kind == list_kind(m)
            &&& t.container(q) == Some(m as usize)
        } by {
            let q = t.lists[m].items[i];
            assert(s.lists[m].wf());
            if m == l {
                let oi = if i < pos { i } else { i + 1 };
                assert(q == s.lists[m].items[oi]);
                assert(q != r);
            } else {
                assert(q == s.lists[m].items[i]);
                assert(s.container(q) == Some(m as usize));
            }
        }
        // containers
        assert forall|q: ItemRef| t.valid_task(q.owner) && (#[trigger] t.container(q)) is Some implies {
            &&& t.container(q).unwrap() < t.lists.len()
            &&& t.list(t.container(q).unwrap() as int).contains(q)
        } by {
            assert(s.valid_task(q.owner));
            assert(q != r);
            assert(s.item(q) == t.item(q));
            let c = s.container(q).unwrap() as int;
            assert(s.list(c).contains(q));
            let i = choose|i: int| 0 <= i < s.list(c).len() && s.list(c)[i] == q;
            if c == l {
                assert(i != pos);
                let ni = if i < pos { i } else { i - 1 };
                assert(t.list(c)[ni] == q);
            } else {
                assert(t.lists[c] == s.lists[c]);
            }
        }
        // sortedness
        assert forall|d: int| d == DELAYED_LIST_A || d == DELAYED_LIST_B implies t.sorted_list(d) by {
            assert(s.sorted_list(d));
            assert forall|i: int, j: int|
                0 <= i < j < t.list(d).len() implies #[trigger] t.value(t.list(d)[i])
                    <= #[trigger] t.value(t.list(d)[j]) by {
                let (oi, oj) = if d == l {
                    (if i < pos { i } else { i + 1 }, if j < pos { j } else { j + 1 })
                } else {
                    (i, j)
                };
                if d != l {
                    assert(t.lists[d] == s.lists[d]);
                }
                assert(t.list(d)[i] == s.list(d)[oi]);
                assert(t.list(d)[j] == s.list(d)[oj]);
                let a = s.list(d)[oi];
                let b = s.list(d)[oj];
                assert(s.lists[d].items[oi] == a);
                assert(s.lists[d].items[oj] == b);
                assert(s.value(a) <= s.value(b));
                assert(s.lists[l as int].items[pos] == r);
                assert(s.lists[d].wf());
                assert(a != r);
                assert(b != r);
                assert(s.item(a) == t.item(a));
                assert(s.item(b) == t.item(b));
            }
        }
    }
}

/// Changing the value of an item outside the delayed lists keeps the invariant.
pub proof fn lemma_set_value_wf(s: KState, r: ItemRef, v: TickType)
    requires
        s.wf(),
        s.valid_task(r.owner),
        s.container(r) != Some(DELAYED_LIST_A),
        s.container(r) != Some(DELAYED_LIST_B),
    ensures
        s.set_value(r, v).wf(),
{
    let t = s.set_value(r, v);
    let it = ListItem { value: v, container: s.container(r) };
    lemma_set_item(s, r, it);
    assert forall|m: int, i: int|
        0 <= m < t.lists.len() && 0 <= i < t.lists[m].items.len() implies {
        let q = #[trigger] t.lists[m].items[i];
        &&& t.valid_task(q.owner)
        &&& q.kind == list_kind(m)
        &&& t.container(q) == Some(m as usize)
    } by {
        let q = s.lists[m].items[i];
        assert(s.container(q) == t.container(q));
    }
    assert forall|q: ItemRef| t.valid_task(q.owner) && (#[trigger] t.container(q)) is Some implies {
        &&& t.container(q).unwrap() < t.lists.len()
        &&& t.list(t.container(q).unwrap() as int).contains(q)
    } by {
        assert(s.container(q) == t.container(q));
    }
    assert forall|d: int| d == DELAYED_LIST_A || d == DELAYED_LIST_B implies t.sorted_list(d) by {
        assert forall|i: int| 0 <= i < s.list(d).len() implies #[trigger] s.value(s.list(d)[i]) == t.value(t.list(d)[i]) by {
            let q = s.lists[d].items[i];
            assert(s.container(q) == Some(d as usize));
            assert(q != r);
        }
        lemma_sorted_same(s, t, d);
    }
}

/// The invariant depends only on the list items of the tasks, the lists
/// and the current task.
pub proof fn lemma_wf_same_items(a: KState, b: KState)
    requires
        a.wf(),
        same_items(a.tasks, b.tasks),
        b.lists == a.lists,
        b.current_tcb matches Some(h) ==> b.valid_task(h),
    ensures
        b.wf(),
{
    assert forall|q: ItemRef| a.valid_task(q.owner) implies #[trigger] b.item(q) == a.item(q) by {
        assert(b.tasks[q.owner.0 as int].StateListItem == a.tasks[q.owner.0 as int].StateListItem);
        assert(b.tasks[q.owner.0 as int].EventListItem == a.tasks[q.owner.0 as int].EventListItem);
    }
    assert forall|m: int, i: int|
        0 <= m < b.lists.len() && 0 <= i < b.lists[m].items.len() implies {
        let q = #[trigger] b.lists[m].items[i];
        &&& b.valid_task(q.owner)
        &&& q.kind == list_kind(m)
        &&& b.container(q) == Some(m as usize)
    } by {
        assert(b.lists[m].items[i] == a.lists[m].items[i]);
    }
    assert forall|q: ItemRef| b.valid_task(q.owner) && (#[trigger] b.container(q)) is Some implies {
        &&& b.container(q).unwrap() < b.lists.len()
        &&& b.list(b.container(q).unwrap() as int).contains(q)
    } by {
        assert(a.container(q) == b.container(q));
    }
    assert forall|d: int, i: int|
        (d == DELAYED_LIST_A || d == DELAYED_LIST_B) && 0 <= i < a.list(d).len() implies #[trigger] a.value(
        a.list(d)[i]) == b.value(b.list(d)[i]) by {
        assert(a.lists[d].items[i] == a.list(d)[i]);
    }
    lemma_sorted_same(a, b, DELAYED_LIST_A as int);
    lemma_sorted_same(a, b, DELAYED_LIST_B as int);
}

/// The scheduler's whole state: the task table, every list, and the
/// scheduler's counters and flags.
pub struct Kernel {
    pub tasks: Vec<TCB>,
    pub lists: Vec<List>,
    /// Whether the two delayed lists have traded roles an odd number of times.
    pub delayed_lists_swapped: bool,
    pub tick_count: TickType,
    pub top_ready_priority: UBaseType,
    pub pended_ticks: UBaseType,
    pub scheduler_running: bool,
    pub yield_pending: bool,
    pub num_of_overflows: BaseType,
    pub task_number: UBaseType,
    pub next_task_unblock_time: TickType,
    pub current_number_of_tasks: UBaseType,
    pub scheduler_suspended: UBaseType,
    pub current_tcb: Option<TaskHandle>,
    pub deleted_tasks_waiting_clean_up: UBaseType,
    pub total_run_time: u32,
    pub task_switched_in_time: u32,
}

impl View for Kernel {
    type V = KState;

    open spec fn view(&self) -> KState {
        KState {
            tasks: self.tasks@,
            lists: self.lists@.map_values(|l: List| l.model()),
            delayed_lists_swapped: self.delayed_lists_swapped,
            tick_count: self.tick_count,
            top_ready_priority: self.top_ready_priority,
            pended_ticks: self.pended_ticks,
            scheduler_running: self.scheduler_running,
            yield_pending: self.yield_pending,
            num_of_overflows: self.num_of_overflows,
            task_number: self.task_number,
            next_task_unblock_time: self.next_task_unblock_time,
            current_number_of_tasks: self.current_number_of_tasks,
            scheduler_suspended: self.scheduler_suspended,
            current_tcb: self.current_tcb,
            deleted_tasks_waiting_clean_up: self.deleted_tasks_waiting_clean_up,
            total_run_time: self.total_run_time,
            task_switched_in_time: self.task_switched_in_time,
        }
    }
}

impl Kernel {
    pub open spec fn wf(&self) -> bool {
        self@.wf()
    }

    /// Id of the list of delayed tasks whose wake time has not wrapped.
    pub fn delayed_id(&self) -> (l: usize)
        ensures
            l == self@.delayed_id(),
    {
        if self.delayed_lists_swapped {
            DELAYED_LIST_B
        } else {
            DELAYED_LIST_A
        }
    }

    /// Id of the list of delayed tasks whose wake time has wrapped.
    pub fn overflow_id(&self) -> (l: usize)
        ensures
            l == self@.overflow_id(),
    {
        if self.delayed_lists_swapped {
            DELAYED_LIST_A
        } else {
            DELAYED_LIST_B
        }
    }

    /// A kernel with no task, every list empty, and every counter at zero.
    pub fn new() -> (k: Kernel)
        ensures
            k.wf(),
            k@.tasks.len() == 0,
            k@.lists.len() == NUM_KERNEL_LISTS,
            forall|l: int| 0 <= l < NUM_KERNEL_LISTS ==> #[trigger] k@.lists[l] == (ListModel { items: Seq::empty(), index: 0 }),
            !k@.delayed_lists_swapped,
            k@.tick_count == 0,
            k@.top_ready_priority == 0,
            k@.pended_ticks == 0,
            !k@.scheduler_running,
            !k@.yield_pending,
            k@.num_of_overflows == 0,
            k@.task_number == 0,
            k@.next_task_unblock_time == 0,
            k@.current_number_of_tasks == 0,
            k@.scheduler_suspended == 0,
            k@.current_tcb is None,
            k@.deleted_tasks_waiting_clean_up == 0,
            k@.total_run_time == 0,
            k@.task_switched_in_time == 0,
    {
        let mut lists: Vec<List> = Vec::new();
        let mut i: usize = 0;
        while i < NUM_KERNEL_LISTS
            invariant
                i <= NUM_KERNEL_LISTS,
                lists@.len() == i,
                forall|l: int| 0 <= l < i ==> (#[trigger] lists@[l]).model() == (ListModel { items: Seq::empty(), index: 0 }),
            decreases NUM_KERNEL_LISTS - i,
        {
            lists.push(List::new());
            i = i + 1;
        }
        let k = Kernel {
            tasks: Vec::new(),
            lists,
            delayed_lists_swapped: false,
            tick_count: 0,
            top_ready_priority: 0,
            pended_ticks: 0,
            scheduler_running: false,
            yield_pending: false,
            num_of_overflows: 0,
            task_number: 0,
            next_task_unblock_time: 0,
            current_number_of_tasks: 0,
            scheduler_suspended: 0,
            current_tcb: None,
            deleted_tasks_waiting_clean_up: 0,
            total_run_time: 0,
            task_switched_in_time: 0,
        };
        proof {
            let s = k@;
            assert forall|l: int| 0 <= l < s.lists.len() implies (#[trigger] s.lists[l]).wf() by {
                assert(s.lists[l] == k.lists@[l].model());
            }
            assert forall|l: int| 0 <= l < NUM_KERNEL_LISTS implies #[trigger] s.lists[l] == (ListModel { items: Seq::empty(), index: 0 }) by {
                assert(s.lists[l] == k.lists@[l].model());
            }
        }
        k
    }

    /// The model of list `l` is the model of the exec list.
    proof fn lemma_list_model(&self, l: int)
        requires
            0 <= l < self.lists@.len(),
        ensures
            self@.lists[l] == self.lists@[l].model(),
            self@.lists.len() == self.lists@.len(),
    {
    }

    /// The value of item `r`.
    pub fn value_of(&self, r: ItemRef) -> (v: TickType)
        requires
            self@.valid_task(r.owner),
        ensures
            v == self@.value(r),
    {
        match r.kind {
            ItemKind::State => self.tasks[r.owner.0].StateListItem.value,
            ItemKind::Event => self.tasks[r.owner.0].EventListItem.value,
        }
    }

    /// The container of item `r`.
    pub fn container_of(&self, r: ItemRef) -> (c: Option<usize>)
        requires
            self@.valid_task(r.owner),
        ensures
            c == self@.container(r),
    {
        match r.kind {
            ItemKind::State => self.tasks[r.owner.0].StateListItem.container,
            ItemKind::Event => self.tasks[r.owner.0].EventListItem.container,
        }
    }

    /// Overwrites item `r` in the task table, nothing else.
    fn set_item(&mut self, r: ItemRef, it: ListItem)
        requires
            old(self)@.valid_task(r.owner),
        ensures
            final(self)@ == old(self)@.set_item(r, it),
            final(self).lists == old(self).lists,
    {
        match r.kind {
            ItemKind::State => {
                self.tasks[r.owner.0].StateListItem = it;
            },
            ItemKind::Event => {
                self.tasks[r.owner.0].EventListItem = it;
            },
        }
        proof {
            assert(self@.tasks =~= old(self)@.set_item(r, it).tasks);
        }
    }

    /// Links `r` into list `l` at position `pos`.
    fn link_item(&mut self, l: usize, pos: usize, r: ItemRef)
        requires
            old(self).wf(),
            l < old(self)@.lists.len(),
            pos <= old(self)@.list(l as int).len(),
            old(self)@.valid_task(r.owner),
            old(self)@.container(r) is None,
            r.kind == list_kind(l as int),
            (l == DELAYED_LIST_A || l == DELAYED_LIST_B) ==> insert_keeps_sorted(
                old(self)@,
                l as int,
                pos as int,
                old(self)@.value(r),
            ),
        ensures
            final(self).wf(),
            final(self)@ == old(self)@.link(l, pos as int, r),
    {
        let ghost s = self@;
        proof {
            self.lemma_list_model(l as int);
        }
        self.lists[l].insert_at(pos, r);
        let v = self.value_of(r);
        self.set_item(r, ListItem { value: v, container: Some(l) });
        proof {
            assert(self@.lists =~= s.link(l, pos as int, r).lists) by {
                assert forall|m: int| 0 <= m < self@.lists.len() implies self@.lists[m] == s.link(l, pos as int, r).lists[m] by {
                    self.lemma_list_model(m);
                    old(self).lemma_list_model(m);
                }
            }
            assert(self@ =~= s.link(l, pos as int, r));
            lemma_link_wf(s, l, pos as int, r);
        }
    }
}


impl KState {
    /// `self` with `tcb` added at the end of the task table.
    pub open spec fn add_task(self, tcb: TCB) -> KState {
        KState { tasks: self.tasks.push(tcb), ..self }
    }

    /// `self` with one more, empty, event list.
    pub open spec fn add_event_list(self) -> KState {
        KState { lists: self.lists.push(ListModel { items: Seq::empty(), index: 0 }), ..self }
    }

    /// `self` with the delayed and overflow delayed lists trading roles.
    pub open spec fn switch_delayed_lists(self) -> KState {
        KState { delayed_lists_swapped: !self.delayed_lists_swapped, ..self }
    }
}

impl Kernel {
    proof fn lemma_lists_view(old_k: &Kernel, new_k: &Kernel, expected: Seq<ListModel>)
        requires
            new_k.lists@.len() == expected.len(),
            forall|m: int| 0 <= m < expected.len() ==> #[trigger] new_k.lists@[m].model() == expected[m],
        ensures
            new_k@.lists == expected,
    {
        assert(new_k@.lists =~= expected);
    }

    /// Adds `tcb` to the task table and returns its handle.
    pub fn add_task(&mut self, tcb: TCB) -> (h: TaskHandle)
        requires
            old(self).wf(),
            tcb.StateListItem.container is None,
            tcb.EventListItem.container is None,
        ensures
            final(self).wf(),
            h.0 == old(self)@.tasks.len(),
            final(self)@ == old(self)@.add_task(tcb),
    {
        let ghost s = self@;
        let h = TaskHandle(self.tasks.len());
        self.tasks.push(tcb);
        proof {
            let t = self@;
            assert(t =~= s.add_task(tcb));
            assert forall|q: ItemRef| s.valid_task(q.owner) implies #[trigger] t.item(q) == s.item(q) by {
                assert(t.tasks[q.owner.0 as int] == s.tasks[q.owner.0 as int]);
            }
            assert forall|q: ItemRef| t.valid_task(q.owner) && !s.valid_task(q.owner) implies #[trigger] t.container(q) is None by {
                assert(t.tasks[q.owner.0 as int] == tcb);
            }
            assert forall|m: int, i: int|
                0 <= m < t.lists.len() && 0 <= i < t.lists[m].items.len() implies {
                let q = #[trigger] t.lists[m].items[i];
                &&& t.valid_task(q.owner)
                &&& q.kind == list_kind(m)
                &&& t.container(q) == Some(m as usize)
            } by {
                let q = s.lists[m].items[i];
                assert(s.item(q) == t.item(q));
            }
            assert forall|q: ItemRef| t.valid_task(q.owner) && (#[trigger] t.container(q)) is Some implies {
                &&& t.container(q).unwrap() < t.lists.len()
                &&& t.list(t.container(q).unwrap() as int).contains(q)
            } by {
                if s.valid_task(q.owner) {
                    assert(s.container(q) == t.container(q));
                }
            }
            assert forall|d: int, i: int|
                (d == DELAYED_LIST_A || d == DELAYED_LIST_B) && 0 <= i < s.list(d).len() implies #[trigger] s.value(
                s.list(d)[i]) == t.value(t.list(d)[i]) by {
                let q = s.lists[d].items[i];
                assert(s.item(q) == t.item(q));
            }
            lemma_sorted_same(s, t, DELAYED_LIST_A as int);
            lemma_sorted_same(s, t, DELAYED_LIST_B as int);
        }
        h
    }

    /// Adds a new, empty event list and returns its id.
    pub fn create_event_list(&mut self) -> (l: usize)
        requires
            old(self).wf(),
            old(self)@.lists.len() < usize::MAX,
        ensures
            final(self).wf(),
            l == old(self)@.lists.len(),
            l >= NUM_KERNEL_LISTS,
            final(self)@ == old(self)@.add_event_list(),
    {
        let ghost s = self@;
        let l = self.lists.len();
        self.lists.push(List::new());
        proof {
            let t = self@;
            assert forall|m: int| 0 <= m < self.lists@.len() implies #[trigger] self.lists@[m].model() == s.add_event_list().lists[m] by {
                if m < l {
                    old(self).lemma_list_model(m);
                }
            }
            Kernel::lemma_lists_view(old(self), self, s.add_event_list().lists);
            assert(t =~= s.add_event_list());
            assert forall|m: int| 0 <= m < s.lists.len() implies #[trigger] t.lists[m] == s.lists[m] by {}
            assert forall|m: int| 0 <= m < t.lists.len() implies (#[trigger] t.lists[m]).wf() by {
                if m < s.lists.len() {
                    assert(s.lists[m].wf());
                }
            }
            assert forall|m: int, i: int|
                0 <= m < t.lists.len() && 0 <= i < t.lists[m].items.len() implies {
                let q = #[trigger] t.lists[m].items[i];
                &&& t.valid_task(q.owner)
                &&& q.kind == list_kind(m)
                &&& t.container(q) == Some(m as usize)
            } by {
                assert(m < s.lists.len());
                assert(t.lists[m].items[i] == s.lists[m].items[i]);
            }
            assert forall|q: ItemRef| t.valid_task(q.owner) && (#[trigger] t.container(q)) is Some implies {
                &&& t.container(q).unwrap() < t.lists.len()
                &&& t.list(t.container(q).unwrap() as int).contains(q)
            } by {
                assert(s.container(q) == t.container(q));
                let c = s.container(q).unwrap() as int;
                assert(t.lists[c] == s.lists[c]);
            }
            lemma_sorted_same(s, t, DELAYED_LIST_A as int);
            lemma_sorted_same(s, t, DELAYED_LIST_B as int);
        }
        l
    }

    /// Number of items in list `l` (`listCURRENT_LIST_LENGTH`).
    pub fn list_len(&self, l: usize) -> (n: usize)
        requires
            l < self@.lists.len(),
        ensures
            n == self@.list(l as int).len(),
    {
        proof {
            self.lemma_list_model(l as int);
        }
        self.lists[l].len()
    }

    /// Whether list `l` is empty (`listLIST_IS_EMPTY`).
    pub fn list_is_empty(&self, l: usize) -> (b: bool)
        requires
            l < self@.lists.len(),
        ensures
            b == (self@.list(l as int).len() == 0),
    {
        proof {
            self.lemma_list_model(l as int);
        }
        self.lists[l].is_empty()
    }

    /// The owner of the first item of list `l` (`listGET_OWNER_OF_HEAD_ENTRY`).
    pub fn get_owner_of_head_entry(&self, l: usize) -> (h: TaskHandle)
        requires
            l < self@.lists.len(),
            self@.list(l as int).len() > 0,
        ensures
            h == self@.head_owner(l as int),
    {
        proof {
            self.lemma_list_model(l as int);
        }
        self.lists[l].head().owner
    }

    /// Whether item `r` is linked into list `l`.
    pub fn is_contained_within(&self, l: usize, r: ItemRef) -> (b: bool)
        requires
            self@.valid_task(r.owner),
        ensures
            b == (self@.container(r) == Some(l)),
    {
        match self.container_of(r) {
            Some(c) => c == l,
            None => false,
        }
    }

    /// Unlinks item `r` from the list it is in (`uxListRemove`) and returns
    /// the number of items left in that list; an item in no list is left
    /// alone and 0 is returned.
    pub fn unlink_item(&mut self, r: ItemRef) -> (n: UBaseType)
        requires
            old(self).wf(),
            old(self)@.valid_task(r.owner),
        ensures
            final(self).wf(),
            final(self)@ == old(self)@.unlink(r),
            n == old(self)@.unlink_count(r),
    {
        let ghost s = self@;
        proof {
            lemma_unlink_wf(s, r);
        }
        let c = self.container_of(r);
        match c {
            None => 0,
            Some(l) => {
                proof {
                    lemma_linked_position(s, r);
                    self.lemma_list_model(l as int);
                }
                let p = self.lists[l].position_of(r);
                let pos = p.unwrap();
                proof {
                    assert(s.lists[l as int].wf());
                    lemma_position_unique(s.list(l as int), r, pos as int);
                }
                let n = self.lists[l].remove_at(pos);
                let v = self.value_of(r);
                self.set_item(r, ListItem { value: v, container: None });
                proof {
                    let e = s.unlink(r);
                    assert forall|m: int| 0 <= m < self.lists@.len() implies #[trigger] self.lists@[m].model() == e.lists[m] by {
                        old(self).lemma_list_model(m);
                    }
                    Kernel::lemma_lists_view(old(self), self, e.lists);
                    assert(self@ =~= e);
                }
                n as UBaseType
            },
        }
    }

    /// Sets the value of item `r` (`listSET_LIST_ITEM_VALUE`).
    pub fn set_item_value(&mut self, r: ItemRef, v: TickType)
        requires
            old(self).wf(),
            old(self)@.valid_task(r.owner),
            old(self)@.container(r) != Some(DELAYED_LIST_A),
            old(self)@.container(r) != Some(DELAYED_LIST_B),
        ensures
            final(self).wf(),
            final(self)@ == old(self)@.set_value(r, v),
    {
        proof {
            lemma_set_value_wf(self@, r, v);
        }
        let c = self.container_of(r);
        self.set_item(r, ListItem { value: v, container: c });
    }

    /// Links `r` at the end of list `l` (`vListInsertEnd`): just before the
    /// round-robin cursor, so it is the last item the cursor reaches.
    pub fn insert_end(&mut self, l: usize, r: ItemRef)
        requires
            old(self).wf(),
            l < old(self)@.lists.len(),
            l != DELAYED_LIST_A,
            l != DELAYED_LIST_B,
            old(self)@.valid_task(r.owner),
            old(self)@.container(r) is None,
            r.kind == list_kind(l as int),
        ensures
            final(self).wf(),
            final(self)@ == old(self)@.insert_end(l, r),
    {
        proof {
            self.lemma_list_model(l as int);
            assert(self@.lists[l as int].wf());
        }
        let pos = self.lists[l].index;
        self.link_item(l, pos, r);
    }

    /// Links `r` into list `l` in order of value (`vListInsert`).
    pub fn insert_sorted(&mut self, l: usize, r: ItemRef)
        requires
            old(self).wf(),
            l < old(self)@.lists.len(),
            old(self)@.valid_task(r.owner),
            old(self)@.container(r) is None,
            r.kind == list_kind(l as int),
        ensures
            final(self).wf(),
            final(self)@ == old(self)@.insert_sorted(l, r),
    {
        let v = self.value_of(r);
        let n = self.lists[l].len();
        let ghost s = self@;
        proof {
            self.lemma_list_model(l as int);
        }
        let mut i: usize = 0;
        while i < n && self.value_of(self.lists[l].items[i]) <= v
            invariant
                self@ == s,
                s.wf(),
                l < self.lists@.len(),
                self.lists@[l as int].model() == s.lists[l as int],
                n == s.list(l as int).len(),
                0 <= i <= n,
                insert_pos(s, l as int, v, i as int) == insert_pos(s, l as int, v, 0),
            decreases n - i,
        {
            proof {
                assert(s.lists[l as int].items[i as int] == s.list(l as int)[i as int]);
            }
            i = i + 1;
        }
        proof {
            lemma_insert_pos(s, l as int, v, 0);
            if l == DELAYED_LIST_A || l == DELAYED_LIST_B {
                let p = i as int;
                assert forall|j: int| p <= j < s.list(l as int).len() implies v <= #[trigger] s.value(
                    s.list(l as int)[j],
                ) by {
                    if j > p {
                        assert(s.sorted_list(l as int));
                        assert(s.value(s.list(l as int)[p]) <= s.value(s.list(l as int)[j]));
                    }
                }
            }
        }
        self.link_item(l, i, r);
    }

    /// Moves the cursor of list `l` to its next item and returns that
    /// item's owner (`listGET_OWNER_OF_NEXT_ENTRY`).
    pub fn get_owner_of_next_entry(&mut self, l: usize) -> (h: TaskHandle)
        requires
            old(self).wf(),
            l < old(self)@.lists.len(),
            old(self)@.list(l as int).len() > 0,
        ensures
            final(self).wf(),
            final(self)@ == old(self)@.advance(l),
            h == old(self)@.next_owner(l),
    {
        let ghost s = self@;
        proof {
            self.lemma_list_model(l as int);
            assert(s.lists[l as int].wf());
        }
        let r = self.lists[l].advance();
        proof {
            let e = s.advance(l);
            assert forall|m: int| 0 <= m < self.lists@.len() implies #[trigger] self.lists@[m].model() == e.lists[m] by {
                old(self).lemma_list_model(m);
            }
            Kernel::lemma_lists_view(old(self), self, e.lists);
            assert(self@ =~= e);
            assert forall|m: int| 0 <= m < s.lists.len() implies #[trigger] e.list(m) == s.list(m) by {}
            assert forall|m: int| 0 <= m < e.lists.len() implies (#[trigger] e.lists[m]).wf() by {
                assert(s.lists[m].wf());
            }
            assert forall|m: int, i: int|
                0 <= m < e.lists.len() && 0 <= i < e.lists[m].items.len() implies {
                let q = #[trigger] e.lists[m].items[i];
                &&& e.valid_task(q.owner)
                &&& q.kind == list_kind(m)
                &&& e.container(q) == Some(m as usize)
            } by {
                assert(e.lists[m].items[i] == s.lists[m].items[i]);
            }
            assert forall|q: ItemRef| e.valid_task(q.owner) && (#[trigger] e.container(q)) is Some implies {
                &&& e.container(q).unwrap() < e.lists.len()
                &&& e.list(e.container(q).unwrap() as int).contains(q)
            } by {
                assert(s.container(q) == e.container(q));
            }
            lemma_sorted_same(s, e, DELAYED_LIST_A as int);
            lemma_sorted_same(s, e, DELAYED_LIST_B as int);
        }
        r.owner
    }

    /// Trades the roles of the delayed list and the overflow delayed list.
    pub fn switch_delayed_lists(&mut self)
        requires
            old(self).wf(),
        ensures
            final(self).wf(),
            final(self)@ == old(self)@.switch_delayed_lists(),
    {
        let ghost s = self@;
        self.delayed_lists_swapped = !self.delayed_lists_swapped;
        proof {
            assert(self@ =~= s.switch_delayed_lists());
            lemma_wf_same_items(s, self@);
        }
    }
}
} // verus!
