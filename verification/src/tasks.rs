use vstd::prelude::*;
use crate::config::{configMAX_PRIORITIES, configMINIMAL_STACK_SIZE};
use crate::global::{
    Kernel, KState, same_items, lemma_wf_same_items, lemma_set_item, lemma_unlink_wf,
    SUSPENDED_TASK_LIST, PENDING_READY_LIST, TASKS_WAITING_TERMINATION,
};
use crate::projdefs::FreeRtosError;
use crate::list::{ItemKind, ItemRef, ListItem};
use crate::port::{StackType, TickType, UBaseType};
use vstd::std_specs::cmp::PartialEqSpecImpl;

verus! {

/// Identifies a task: its position in the kernel's task table. Handles
/// compare by position with `==`. Wherever the kernel asks whether a task
/// is the running one, it compares control blocks, by stack pointer
/// (`TaskHandle::same_task`, `KState::same_task`), so two tasks that share
/// a stack pointer count as one task there.
#[derive(Clone, Copy, PartialEq, Eq, Structural, Debug)]
pub struct TaskHandle(pub usize);

/// The state item of task `h`.
pub open spec fn state_item(h: TaskHandle) -> ItemRef {
    ItemRef { owner: h, kind: ItemKind::State }
}

/// The event item of task `h`.
pub open spec fn event_item(h: TaskHandle) -> ItemRef {
    ItemRef { owner: h, kind: ItemKind::Event }
}

/// A task control block.
pub struct TCB {
    pub StateListItem: ListItem,
    pub EventListItem: ListItem,
    pub TaskName: String,
    pub StackDepth: UBaseType,
    pub Priority: UBaseType,
    pub StackPointer: StackType,
    pub BasePriority: UBaseType,
    pub MutexedHeld: UBaseType,
    pub RuntimeCounter: TickType,
    pub DelayAborted: bool,
}

/// Two control blocks stand for the same task when they share a stack
/// pointer.
impl PartialEq for TCB {
    fn eq(&self, other: &Self) -> (r: bool) {
        self.StackPointer == other.StackPointer
    }
}

impl PartialEqSpecImpl for TCB {
    open spec fn obeys_eq_spec() -> bool {
        true
    }

    open spec fn eq_spec(&self, other: &Self) -> bool {
        self.StackPointer == other.StackPointer
    }
}

/// Every field of `a` but the name equals the field of `b`.
pub open spec fn same_but_name(a: TCB, b: TCB) -> bool {
    &&& a.StateListItem == b.StateListItem
    &&& a.EventListItem == b.EventListItem
    &&& a.StackDepth == b.StackDepth
    &&& a.Priority == b.Priority
    &&& a.StackPointer == b.StackPointer
    &&& a.BasePriority == b.BasePriority
    &&& a.MutexedHeld == b.MutexedHeld
    &&& a.RuntimeCounter == b.RuntimeCounter
    &&& a.DelayAborted == b.DelayAborted
}

impl TCB {
    /// A task control block named "Unnamed", of priority 1 and base
    /// priority 0, with the minimal stack depth, stack pointer 0, all
    /// counters 0, and both list items fresh.
    pub fn new() -> (t: TCB)
        ensures
            t.StateListItem == (ListItem { value: 0, container: None }),
            t.EventListItem == (ListItem { value: 0, container: None }),
            t.TaskName@ == "Unnamed"@,
            t.StackDepth == configMINIMAL_STACK_SIZE,
            t.Priority == 1,
            t.StackPointer == 0,
            t.BasePriority == 0,
            t.MutexedHeld == 0,
            t.RuntimeCounter == 0,
            !t.DelayAborted,
    {
        TCB {
            StateListItem: ListItem::new(),
            EventListItem: ListItem::new(),
            Priority: 1,
            StackDepth: configMINIMAL_STACK_SIZE,
            TaskName: "Unnamed".to_owned(),
            StackPointer: 0,
            BasePriority: 0,
            MutexedHeld: 0,
            RuntimeCounter: 0,
            DelayAborted: false,
        }
    }

    /// A copy of the task's name.
    pub fn GetName(&self) -> (r: String)
        ensures
            r@ == self.TaskName@,
    {
        self.TaskName.clone()
    }

    /// Renames the task; returns the task for further setting.
    pub fn SetName(&mut self, name: &str) -> (r: &mut Self)
        ensures
            r.TaskName@ == name@,
            same_but_name(*r, *old(self)),
            *final(self) == *final(r),
    {
        self.TaskName = name.to_owned();
        self
    }

    /// Sets the stack depth; returns the task for further setting.
    pub fn SetStackDepth(&mut self, stacksize: UBaseType) -> (r: &mut Self)
        ensures
            *r == (TCB { StackDepth: stacksize, ..*old(self) }),
            *final(self) == *final(r),
    {
        self.StackDepth = stacksize;
        self
    }

    pub fn GetPriority(&self) -> (r: UBaseType)
        ensures
            r == self.Priority,
    {
        self.Priority
    }

    pub fn SetPriority(&mut self, new_priority: UBaseType)
        ensures
            *final(self) == (TCB { Priority: new_priority, ..*old(self) }),
    {
        self.Priority = new_priority;
    }

    pub fn GetBasePriority(&self) -> (r: UBaseType)
        ensures
            r == self.BasePriority,
    {
        self.BasePriority
    }

    pub fn SetBasePriority(&mut self, new_val: UBaseType)
        ensures
            *final(self) == (TCB { BasePriority: new_val, ..*old(self) }),
    {
        self.BasePriority = new_val;
    }

    /// The task's state list item.
    pub fn GetStateListItem(&self) -> (r: ListItem)
        ensures
            r == self.StateListItem,
    {
        self.StateListItem
    }

    /// The task's event list item.
    pub fn GetEventListItem(&self) -> (r: ListItem)
        ensures
            r == self.EventListItem,
    {
        self.EventListItem
    }

    pub fn GetRunTime(&self) -> (r: TickType)
        ensures
            r == self.RuntimeCounter,
    {
        self.RuntimeCounter
    }

    /// Sets the run-time counter and returns its former value.
    pub fn SetRunTime(&mut self, next_val: TickType) -> (prev: TickType)
        ensures
            prev == old(self).RuntimeCounter,
            *final(self) == (TCB { RuntimeCounter: next_val, ..*old(self) }),
    {
        let prev_val: u32 = self.RuntimeCounter;
        self.RuntimeCounter = next_val;
        prev_val
    }

    pub fn GetDelayAborted(&self) -> (r: bool)
        ensures
            r == self.DelayAborted,
    {
        self.DelayAborted
    }

    /// Sets the delay-aborted flag and returns its former value.
    pub fn SetDelayAborted(&mut self, next_val: bool) -> (prev: bool)
        ensures
            prev == old(self).DelayAborted,
            *final(self) == (TCB { DelayAborted: next_val, ..*old(self) }),
    {
        let prev_val: bool = self.DelayAborted;
        self.DelayAborted = next_val;
        prev_val
    }

    pub fn GetMutexHeldCount(&self) -> (r: UBaseType)
        ensures
            r == self.MutexedHeld,
    {
        self.MutexedHeld
    }

    pub fn SetMutexHeldCount(&mut self, new_count: UBaseType)
        ensures
            *final(self) == (TCB { MutexedHeld: new_count, ..*old(self) }),
    {
        self.MutexedHeld = new_count;
    }
}


/// The value `ResetNextTaskUnblockTime` records when no task is delayed.
pub const TASK_MAX_DELAY: TickType = 256;

/// The event-list-item-in-use flag this module tests item values against.
pub const TASK_EVENT_LIST_ITEM_VALUE_IN_USE: TickType = 0;

impl KState {
    /// `self` with the control block of task `h` replaced by `t`.
    pub open spec fn set_tcb(self, h: TaskHandle, t: TCB) -> KState {
        KState { tasks: self.tasks.update(h.0 as int, t), ..self }
    }

    /// The priority of the running task.
    pub open spec fn current_priority(self) -> UBaseType {
        self.tcb(self.current_tcb.unwrap()).Priority
    }

    /// `RecordReadyPriority`: the top ready priority raised to `p`.
    pub open spec fn record_ready_priority(self, p: UBaseType) -> KState {
        KState {
            top_ready_priority: if p > self.top_ready_priority {
                p
            } else {
                self.top_ready_priority
            },
            ..self
        }
    }

    /// `AddTaskToReadyList`: task `h` recorded as ready and linked at the
    /// end of the ready list of its priority.
    pub open spec fn add_to_ready_list(self, h: TaskHandle) -> KState {
        let p = self.tcb(h).Priority;
        self.record_ready_priority(p).insert_end(p as usize, state_item(h))
    }

    /// Task `h` can be linked into the ready list of its priority.
    pub open spec fn can_ready(self, h: TaskHandle) -> bool {
        &&& self.valid_task(h)
        &&& self.tcb(h).Priority < configMAX_PRIORITIES
        &&& self.container(state_item(h)) is None
    }

    /// `AddNewTaskToReadyList`: the task count raised, the running task
    /// chosen, and `h` made ready.
    pub open spec fn add_new_to_ready_list(self, h: TaskHandle) -> KState {
        let s1 = KState { current_number_of_tasks: (self.current_number_of_tasks + 1) as UBaseType, ..self };
        let s2 = match s1.current_tcb {
            None => KState { current_tcb: Some(h), ..s1 },
            Some(c) => if !s1.scheduler_running && s1.tcb(c).Priority <= s1.tcb(h).Priority {
                KState { current_tcb: Some(h), ..s1 }
            } else {
                s1
            },
        };
        let s3 = KState { task_number: (s2.task_number + 1) as UBaseType, ..s2 };
        s3.add_to_ready_list(h)
    }

    /// The next unblock time taken from the head of the delayed list, or
    /// `empty` when no task is delayed.
    pub open spec fn reset_next_unblock_time(self, empty: TickType) -> KState {
        if self.list(self.delayed_id() as int).len() == 0 {
            KState { next_task_unblock_time: empty, ..self }
        } else {
            KState {
                next_task_unblock_time: self.value(state_item(self.head_owner(self.delayed_id() as int))),
                ..self
            }
        }
    }

    /// `AddCurrentTaskToDelayedList`: the running task taken off its list
    /// and, for an unlimited wait that may block indefinitely, suspended;
    /// otherwise linked by wake time (tick count plus wait, wrapping) into
    /// the delayed list, or the overflow list when the wake time wrapped.
    pub open spec fn add_current_to_delayed(self, ticks_to_wait: TickType, can_block_indefinitely: bool) -> KState {
        let h = self.current_tcb.unwrap();
        let s1 = self.set_tcb(h, TCB { DelayAborted: false, ..self.tcb(h) });
        let s2 = s1.unlink(state_item(h));
        if ticks_to_wait == crate::port::portMAX_DELAY && can_block_indefinitely {
            s2.insert_end(SUSPENDED_TASK_LIST, state_item(h))
        } else {
            let wake = vstd::wrapping::u32_specs::wrapping_add(s2.tick_count, ticks_to_wait);
            let s3 = s2.set_value(state_item(h), wake);
            if wake < s3.tick_count {
                s3.insert_sorted(s3.overflow_id(), state_item(h))
            } else {
                let s4 = s3.insert_sorted(s3.delayed_id(), state_item(h));
                if wake < s4.next_task_unblock_time {
                    KState { next_task_unblock_time: wake, ..s4 }
                } else {
                    s4
                }
            }
        }
    }
}

/// Replacing a control block by one with the same list items keeps the invariant.
pub proof fn lemma_set_tcb_wf(s: KState, h: TaskHandle, t: TCB)
    requires
        s.wf(),
        s.valid_task(h),
        t.StateListItem == s.tcb(h).StateListItem,
        t.EventListItem == s.tcb(h).EventListItem,
    ensures
        s.set_tcb(h, t).wf(),
        same_items(s.tasks, s.set_tcb(h, t).tasks),
        forall|q: ItemRef| s.valid_task(q.owner) ==> #[trigger] s.set_tcb(h, t).item(q) == s.item(q),
{
    let u = s.set_tcb(h, t);
    assert forall|i: int| 0 <= i < s.tasks.len() implies (#[trigger] u.tasks[i]).StateListItem
        == s.tasks[i].StateListItem && u.tasks[i].EventListItem == s.tasks[i].EventListItem by {}
    lemma_wf_same_items(s, u);
    assert forall|q: ItemRef| s.valid_task(q.owner) implies #[trigger] u.item(q) == s.item(q) by {
        assert(u.tasks[q.owner.0 as int].StateListItem == s.tasks[q.owner.0 as int].StateListItem);
        assert(u.tasks[q.owner.0 as int].EventListItem == s.tasks[q.owner.0 as int].EventListItem);
    }
}

/// Facts about an item after it is unlinked.
pub proof fn lemma_unlink_facts(s: KState, r: ItemRef)
    requires
        s.wf(),
        s.valid_task(r.owner),
    ensures
        s.unlink(r).wf(),
        s.unlink(r).container(r) is None,
        s.unlink(r).tasks.len() == s.tasks.len(),
        s.unlink(r).lists.len() == s.lists.len(),
        forall|q: ItemRef| s.valid_task(q.owner) && q != r ==> #[trigger] s.unlink(r).item(q) == s.item(q),
        s.unlink(r).value(r) == s.value(r),
        forall|h: TaskHandle| s.valid_task(h) ==> (#[trigger] s.unlink(r).tcb(h)).Priority == s.tcb(h).Priority,
        forall|m: int| 0 <= m < s.lists.len() && s.container(r) != Some(m as usize) ==> #[trigger] s.unlink(r).lists[m] == s.lists[m],
        s.container(r) matches Some(c) ==> s.unlink(r).list(c as int).len() == s.list(c as int).len() - 1,
        s.unlink(r).current_tcb == s.current_tcb,
        s.priorities_ok() ==> s.unlink(r).priorities_ok(),
{
    lemma_unlink_wf(s, r);
    if s.container(r) is Some {
        crate::global::lemma_linked_position(s, r);
        let it = ListItem { value: s.value(r), container: None };
        lemma_set_item(s, r, it);
        assert(s.unlink(r).tasks == s.set_item(r, it).tasks);
        assert forall|q: ItemRef| s.valid_task(q.owner) implies #[trigger] s.unlink(r).item(q) == (if q == r { it } else { s.item(q) }) by {
            assert(s.unlink(r).item(q) == s.set_item(r, it).item(q));
        }
        assert forall|h: TaskHandle| s.valid_task(h) implies (#[trigger] s.unlink(r).tcb(h)).Priority == s.tcb(h).Priority by {
            if h == r.owner {
                assert(s.unlink(r).tcb(h) == crate::global::with_item(s.tcb(h), r.kind, it));
            }
        }
    }
}

/// Facts about an item after it is linked into a list.
pub proof fn lemma_link_facts(s: KState, l: usize, pos: int, r: ItemRef)
    requires
        s.valid_task(r.owner),
        l < s.lists.len(),
    ensures
        s.link(l, pos, r).container(r) == Some(l),
        s.link(l, pos, r).tasks.len() == s.tasks.len(),
        s.link(l, pos, r).lists.len() == s.lists.len(),
        forall|q: ItemRef| s.valid_task(q.owner) && q != r ==> #[trigger] s.link(l, pos, r).item(q) == s.item(q),
        s.link(l, pos, r).value(r) == s.value(r),
        forall|h: TaskHandle| s.valid_task(h) ==> (#[trigger] s.link(l, pos, r).tcb(h)).Priority == s.tcb(h).Priority,
        forall|m: int| 0 <= m < s.lists.len() && m != l ==> #[trigger] s.link(l, pos, r).lists[m] == s.lists[m],
        s.priorities_ok() ==> s.link(l, pos, r).priorities_ok(),
{
    let it = ListItem { value: s.value(r), container: Some(l) };
    lemma_set_item(s, r, it);
    assert(s.link(l, pos, r).tasks == s.set_item(r, it).tasks);
    assert forall|q: ItemRef| s.valid_task(q.owner) implies #[trigger] s.link(l, pos, r).item(q) == (if q == r { it } else { s.item(q) }) by {
        assert(s.link(l, pos, r).item(q) == s.set_item(r, it).item(q));
    }
    assert forall|h: TaskHandle| s.valid_task(h) implies (#[trigger] s.link(l, pos, r).tcb(h)).Priority == s.tcb(h).Priority by {
        if h == r.owner {
            assert(s.link(l, pos, r).tcb(h) == crate::global::with_item(s.tcb(h), r.kind, it));
        }
    }
}

/// Facts about items after the value of one changed.
pub proof fn lemma_set_value_facts(s: KState, r: ItemRef, v: TickType)
    requires
        s.valid_task(r.owner),
    ensures
        s.set_value(r, v).container(r) == s.container(r),
        s.set_value(r, v).value(r) == v,
        s.set_value(r, v).tasks.len() == s.tasks.len(),
        forall|q: ItemRef| s.valid_task(q.owner) && q != r ==> #[trigger] s.set_value(r, v).item(q) == s.item(q),
        forall|h: TaskHandle| s.valid_task(h) ==> (#[trigger] s.set_value(r, v).tcb(h)).Priority == s.tcb(h).Priority,
        s.priorities_ok() ==> s.set_value(r, v).priorities_ok(),
{
    let it = ListItem { value: v, container: s.container(r) };
    lemma_set_item(s, r, it);
    assert forall|h: TaskHandle| s.valid_task(h) implies (#[trigger] s.set_value(r, v).tcb(h)).Priority == s.tcb(h).Priority by {
        if h == r.owner {
            assert(s.set_value(r, v).tcb(h) == crate::global::with_item(s.tcb(h), r.kind, it));
        }
    }
}

impl TaskHandle {
    pub open spec fn valid(self, k: &Kernel) -> bool {
        k@.valid_task(self)
    }

    fn update_tcb(&self, k: &mut Kernel, t: TCB)
        requires
            old(k).wf(),
            old(k)@.valid_task(*self),
            t.StateListItem == old(k)@.tcb(*self).StateListItem,
            t.EventListItem == old(k)@.tcb(*self).EventListItem,
        ensures
            final(k).wf(),
            final(k)@ == old(k)@.set_tcb(*self, t),
    {
        proof {
            lemma_set_tcb_wf(k@, *self, t);
        }
        k.tasks.set(self.0, t);
        proof {
            assert(k@ =~= old(k)@.set_tcb(*self, t));
        }
    }

    pub fn GetRunTime(&self, k: &Kernel) -> (r: TickType)
        requires
            k@.valid_task(*self),
        ensures
            r == k@.tcb(*self).RuntimeCounter,
    {
        k.tasks[self.0].GetRunTime()
    }

    /// Sets the task's run-time counter and returns its former value.
    pub fn SetRunTime(&self, k: &mut Kernel, next_val: TickType) -> (prev: TickType)
        requires
            old(k).wf(),
            old(k)@.valid_task(*self),
        ensures
            final(k).wf(),
            prev == old(k)@.tcb(*self).RuntimeCounter,
            final(k)@ == old(k)@.set_tcb(*self, TCB { RuntimeCounter: next_val, ..old(k)@.tcb(*self) }),
    {
        let prev = k.tasks[self.0].RuntimeCounter;
        proof {
            lemma_set_tcb_wf(k@, *self, TCB { RuntimeCounter: next_val, ..k@.tcb(*self) });
        }
        k.tasks[self.0].RuntimeCounter = next_val;
        proof {
            assert(k@ =~= old(k)@.set_tcb(*self, TCB { RuntimeCounter: next_val, ..old(k)@.tcb(*self) }));
        }
        prev
    }

    pub fn GetDelayAborted(&self, k: &Kernel) -> (r: bool)
        requires
            k@.valid_task(*self),
        ensures
            r == k@.tcb(*self).DelayAborted,
    {
        k.tasks[self.0].GetDelayAborted()
    }

    /// Sets the task's delay-aborted flag and returns its former value.
    pub fn SetDelayAborted(&self, k: &mut Kernel, next_val: bool) -> (prev: bool)
        requires
            old(k).wf(),
            old(k)@.valid_task(*self),
        ensures
            final(k).wf(),
            prev == old(k)@.tcb(*self).DelayAborted,
            final(k)@ == old(k)@.set_tcb(*self, TCB { DelayAborted: next_val, ..old(k)@.tcb(*self) }),
    {
        let prev = k.tasks[self.0].DelayAborted;
        proof {
            lemma_set_tcb_wf(k@, *self, TCB { DelayAborted: next_val, ..k@.tcb(*self) });
        }
        k.tasks[self.0].DelayAborted = next_val;
        proof {
            assert(k@ =~= old(k)@.set_tcb(*self, TCB { DelayAborted: next_val, ..old(k)@.tcb(*self) }));
        }
        prev
    }

    pub fn GetMutexHeldCount(&self, k: &Kernel) -> (r: UBaseType)
        requires
            k@.valid_task(*self),
        ensures
            r == k@.tcb(*self).MutexedHeld,
    {
        k.tasks[self.0].GetMutexHeldCount()
    }

    pub fn SetMutexHeldCount(&self, k: &mut Kernel, new_count: UBaseType)
        requires
            old(k).wf(),
            old(k)@.valid_task(*self),
        ensures
            final(k).wf(),
            final(k)@ == old(k)@.set_tcb(*self, TCB { MutexedHeld: new_count, ..old(k)@.tcb(*self) }),
    {
        proof {
            lemma_set_tcb_wf(k@, *self, TCB { MutexedHeld: new_count, ..k@.tcb(*self) });
        }
        k.tasks[self.0].MutexedHeld = new_count;
        proof {
            assert(k@ =~= old(k)@.set_tcb(*self, TCB { MutexedHeld: new_count, ..old(k)@.tcb(*self) }));
        }
    }

    /// The handle of the task at position `index` of the task table.
    pub fn from_arc(index: usize) -> (h: TaskHandle)
        ensures
            h.0 == index,
    {
        TaskHandle(index)
    }

    /// Adds `tcb` to the kernel's task table and returns its handle.
    pub fn from(k: &mut Kernel, tcb: TCB) -> (h: TaskHandle)
        requires
            old(k).wf(),
            tcb.StateListItem.container is None,
            tcb.EventListItem.container is None,
        ensures
            final(k).wf(),
            h.0 == old(k)@.tasks.len(),
            final(k)@ == old(k)@.add_task(tcb),
    {
        k.add_task(tcb)
    }

    /// The raw form of the handle: the task's position in the task table.
    pub fn as_raw(self) -> (r: usize)
        ensures
            r == self.0,
    {
        self.0
    }

    pub fn GetEventListItem(&self, k: &Kernel) -> (r: ListItem)
        requires
            k@.valid_task(*self),
        ensures
            r == k@.tcb(*self).EventListItem,
    {
        k.tasks[self.0].GetEventListItem()
    }

    pub fn GetStateListItem(&self, k: &Kernel) -> (r: ListItem)
        requires
            k@.valid_task(*self),
        ensures
            r == k@.tcb(*self).StateListItem,
    {
        k.tasks[self.0].GetStateListItem()
    }

    pub fn GetName(&self, k: &Kernel) -> (r: String)
        requires
            k@.valid_task(*self),
        ensures
            r@ == k@.tcb(*self).TaskName@,
    {
        k.tasks[self.0].GetName()
    }

    pub fn GetPriority(&self, k: &Kernel) -> (r: UBaseType)
        requires
            k@.valid_task(*self),
        ensures
            r == k@.tcb(*self).Priority,
    {
        k.tasks[self.0].GetPriority()
    }

    pub fn SetPriority(&self, k: &mut Kernel, new_priority: UBaseType)
        requires
            old(k).wf(),
            old(k)@.valid_task(*self),
        ensures
            final(k).wf(),
            final(k)@ == old(k)@.set_tcb(*self, TCB { Priority: new_priority, ..old(k)@.tcb(*self) }),
    {
        proof {
            lemma_set_tcb_wf(k@, *self, TCB { Priority: new_priority, ..k@.tcb(*self) });
        }
        k.tasks[self.0].Priority = new_priority;
        proof {
            assert(k@ =~= old(k)@.set_tcb(*self, TCB { Priority: new_priority, ..old(k)@.tcb(*self) }));
        }
    }

    pub fn GetBasePriority(&self, k: &Kernel) -> (r: UBaseType)
        requires
            k@.valid_task(*self),
        ensures
            r == k@.tcb(*self).BasePriority,
    {
        k.tasks[self.0].GetBasePriority()
    }

    pub fn SetBasePriority(&self, k: &mut Kernel, new_val: UBaseType)
        requires
            old(k).wf(),
            old(k)@.valid_task(*self),
        ensures
            final(k).wf(),
            final(k)@ == old(k)@.set_tcb(*self, TCB { BasePriority: new_val, ..old(k)@.tcb(*self) }),
    {
        proof {
            lemma_set_tcb_wf(k@, *self, TCB { BasePriority: new_val, ..k@.tcb(*self) });
        }
        k.tasks[self.0].BasePriority = new_val;
        proof {
            assert(k@ =~= old(k)@.set_tcb(*self, TCB { BasePriority: new_val, ..old(k)@.tcb(*self) }));
        }
    }

    /// Compares the control blocks of the two tasks: equal stack pointers.
    pub fn same_task(&self, k: &Kernel, other: &TaskHandle) -> (r: bool)
        requires
            k@.valid_task(*self),
            k@.valid_task(*other),
        ensures
            r == k@.same_task(*self, *other),
    {
        k.tasks[self.0] == k.tasks[other.0]
    }

    /// Makes the task ready: records its priority as ready and links its
    /// state item at the end of the ready list of its priority.
    pub fn AddTaskToReadyList(&self, k: &mut Kernel) -> (r: Result<(), FreeRtosError>)
        requires
            old(k).wf(),
            old(k)@.can_ready(*self),
        ensures
            final(k).wf(),
            final(k)@ == old(k)@.add_to_ready_list(*self),
            r is Ok,
    {
        let priority = self.GetPriority(k);
        RecordReadyPriority(k, priority);
        proof {
            lemma_wf_same_items(old(k)@, k@);
        }
        k.insert_end(priority as usize, ItemRef { owner: *self, kind: ItemKind::State });
        Ok(())
    }

    /// Registers a new task with the scheduler: counts it, makes it the
    /// running task when there is none or when the scheduler has not
    /// started and it is at least as urgent as the running one, and makes
    /// it ready.
    pub fn AddNewTaskToReadyList(&self, k: &mut Kernel) -> (r: Result<(), FreeRtosError>)
        requires
            old(k).wf(),
            old(k)@.can_ready(*self),
            old(k)@.current_number_of_tasks < UBaseType::MAX,
            old(k)@.task_number < UBaseType::MAX,
        ensures
            final(k).wf(),
            final(k)@ == old(k)@.add_new_to_ready_list(*self),
            r is Ok,
    {
        let ghost s0 = k@;
        let new_priority = self.GetPriority(k);
        k.current_number_of_tasks = k.current_number_of_tasks + 1;
        match k.current_tcb {
            None => {
                k.current_tcb = Some(*self);
            },
            Some(cur) => {
                if !k.scheduler_running {
                    if cur.GetPriority(k) <= new_priority {
                        k.current_tcb = Some(*self);
                    }
                }
            },
        }
        k.task_number = k.task_number + 1;
        proof {
            lemma_wf_same_items(s0, k@);
        }
        let r = self.AddTaskToReadyList(k);
        proof {
            assert(k@ =~= s0.add_new_to_ready_list(*self));
        }
        r
    }
}

/// Raises the top ready priority to `priority` if it is higher.
pub fn RecordReadyPriority(k: &mut Kernel, priority: UBaseType)
    ensures
        final(k)@ == old(k)@.record_ready_priority(priority),
        final(k).tasks == old(k).tasks,
        final(k).lists == old(k).lists,
{
    if priority > k.top_ready_priority {
        k.top_ready_priority = priority;
    }
    proof {
        assert(k@ =~= old(k)@.record_ready_priority(priority));
    }
}

/// Records when the next delayed task must wake: the wake time of the head
/// of the delayed list, or `TASK_MAX_DELAY` when no task is delayed.
pub fn ResetNextTaskUnblockTime(k: &mut Kernel)
    requires
        old(k).wf(),
    ensures
        final(k).wf(),
        final(k)@ == old(k)@.reset_next_unblock_time(TASK_MAX_DELAY),
{
    let ghost s0 = k@;
    let delayed = k.delayed_id();
    if k.list_is_empty(delayed) {
        k.next_task_unblock_time = TASK_MAX_DELAY;
    } else {
        let temp = k.get_owner_of_head_entry(delayed);
        proof {
            assert(s0.lists[delayed as int].items[0] == s0.list(delayed as int)[0]);
        }
        let v = k.value_of(ItemRef { owner: temp, kind: ItemKind::State });
        k.next_task_unblock_time = v;
    }
    proof {
        assert(k@ =~= s0.reset_next_unblock_time(TASK_MAX_DELAY));
        lemma_wf_same_items(s0, k@);
    }
}

impl KState {
    /// Whether tasks `a` and `b` count as one task: their control blocks
    /// compare equal (equal stack pointers).
    pub open spec fn same_task(self, a: TaskHandle, b: TaskHandle) -> bool {
        self.tcb(a).StackPointer == self.tcb(b).StackPointer
    }

    /// Whether task `h` is the running task, by `same_task`.
    pub open spec fn is_current(self, h: TaskHandle) -> bool {
        match self.current_tcb {
            Some(c) => self.same_task(c, h),
            None => false,
        }
    }

    /// Every task has a priority that names a ready list.
    pub open spec fn priorities_ok(self) -> bool {
        forall|h: TaskHandle| self.valid_task(h) ==> (#[trigger] self.tcb(h)).Priority < configMAX_PRIORITIES
    }

    /// `TaskDelete` of task `h`: its items unlinked; the running task is
    /// parked on the termination list and counted as waiting for clean-up,
    /// any other task is uncounted and the next unblock time recomputed.
    pub open spec fn task_delete(self, h: TaskHandle) -> KState {
        let s1 = self.unlink(state_item(h));
        let s2 = if s1.container(event_item(h)) is Some {
            s1.unlink(event_item(h))
        } else {
            s1
        };
        let s3 = KState { task_number: (s2.task_number + 1) as UBaseType, ..s2 };
        if s3.is_current(h) {
            let s4 = s3.insert_end(TASKS_WAITING_TERMINATION, state_item(h));
            KState {
                deleted_tasks_waiting_clean_up: (s4.deleted_tasks_waiting_clean_up + 1) as UBaseType,
                ..s4
            }
        } else {
            let s4 = KState { current_number_of_tasks: (s3.current_number_of_tasks - 1) as UBaseType, ..s3 };
            s4.reset_next_unblock_time(TASK_MAX_DELAY)
        }
    }

    /// `IsTaskSuspended`: the task's state item is on the suspended list,
    /// its event item is not on the pending-ready list and is in no list.
    pub open spec fn is_suspended(self, h: TaskHandle) -> bool {
        &&& self.container(state_item(h)) == Some(SUSPENDED_TASK_LIST)
        &&& self.container(event_item(h)) != Some(PENDING_READY_LIST)
        &&& self.container(event_item(h)) is None
    }

    /// `ResumeTask`: a suspended task other than the running one is taken
    /// off the suspended list and made ready.
    pub open spec fn resume_task(self, h: TaskHandle) -> KState {
        if !self.is_current(h) && self.is_suspended(h) {
            self.unlink(state_item(h)).add_to_ready_list(h)
        } else {
            self
        }
    }

    /// The priority `SetPriorityInDetail` settles on: the request, capped
    /// at the highest priority.
    pub open spec fn capped_priority(p: UBaseType) -> UBaseType {
        if p >= configMAX_PRIORITIES {
            (configMAX_PRIORITIES - 1) as UBaseType
        } else {
            p
        }
    }

    /// `SetPriorityInDetail`: the base priority set to the capped request,
    /// the priority too unless it is raised by an inherited mutex, the event
    /// item valued by the new priority, and a task on the priority-0 ready
    /// list moved to the ready list of its priority.
    pub open spec fn set_priority_in_detail(self, h: TaskHandle, new_priority: UBaseType) -> KState {
        let p = KState::capped_priority(new_priority);
        let t = self.tcb(h);
        let t1 = TCB {
            Priority: if t.BasePriority == t.Priority {
                p
            } else {
                t.Priority
            },
            BasePriority: p,
            ..t
        };
        let s1 = self.set_tcb(h, t1);
        let s2 = s1.set_value(event_item(h), (configMAX_PRIORITIES - p) as TickType);
        if s2.container(state_item(h)) == Some(0usize) {
            s2.unlink(state_item(h)).add_to_ready_list(h)
        } else {
            s2
        }
    }
}

/// Puts the running task to sleep for `ticks_to_wait` ticks: takes it off
/// its list, then suspends it when the wait is unlimited and it may block
/// indefinitely, or links it by wake time into the delayed list (the
/// overflow delayed list when the wake time wrapped around) and brings the
/// next unblock time forward to its wake time if that is earlier.
pub fn AddCurrentTaskToDelayedList(k: &mut Kernel, ticks_to_wait: TickType, can_block_indefinitely: bool)
    requires
        old(k).wf(),
        old(k)@.current_tcb is Some,
    ensures
        final(k).wf(),
        final(k)@ == old(k)@.add_current_to_delayed(ticks_to_wait, can_block_indefinitely),
        sched_frame(old(k)@, final(k)@),
{
    let ghost s0 = k@;
    let curtskhandle = k.current_tcb.unwrap();
    let r = ItemRef { owner: curtskhandle, kind: ItemKind::State };
    curtskhandle.SetDelayAborted(k, false);
    let ghost s1 = k@;
    proof {
        lemma_set_tcb_wf(s0, curtskhandle, TCB { DelayAborted: false, ..s0.tcb(curtskhandle) });
        lemma_unlink_facts(s1, r);
    }
    k.unlink_item(r);
    let ghost s2 = k@;
    if ticks_to_wait == crate::port::portMAX_DELAY && can_block_indefinitely {
        k.insert_end(SUSPENDED_TASK_LIST, r);
    } else {
        let time_to_wake = k.tick_count.wrapping_add(ticks_to_wait);
        k.set_item_value(r, time_to_wake);
        proof {
            lemma_set_value_facts(s2, r, time_to_wake);
        }
        if time_to_wake < k.tick_count {
            let o = k.overflow_id();
            k.insert_sorted(o, r);
        } else {
            let d = k.delayed_id();
            k.insert_sorted(d, r);
            if time_to_wake < k.next_task_unblock_time {
                let ghost s4 = k@;
                k.next_task_unblock_time = time_to_wake;
                proof {
                    lemma_wf_same_items(s4, k@);
                }
            }
        }
    }
    proof {
        assert(k@ =~= s0.add_current_to_delayed(ticks_to_wait, can_block_indefinitely));
        let t1 = TCB { DelayAborted: false, ..s0.tcb(curtskhandle) };
        assert(sched_frame(s0, s1)) by {
            assert forall|h: TaskHandle| s0.valid_task(h) implies (#[trigger] s1.tcb(h)).Priority == s0.tcb(h).Priority by {
                if h != curtskhandle {
                    assert(s1.tcb(h) == s0.tcb(h));
                }
            }
        }
        assert(sched_frame(s1, s2));
        if !(ticks_to_wait == crate::port::portMAX_DELAY && can_block_indefinitely) {
            let wake = vstd::wrapping::u32_specs::wrapping_add(s2.tick_count, ticks_to_wait);
            let s3 = s2.set_value(r, wake);
            assert(sched_frame(s2, s3));
            lemma_frame_trans(s1, s2, s3);
            lemma_frame_trans(s0, s1, s3);
            let l = if wake < s3.tick_count { s3.overflow_id() } else { s3.delayed_id() };
            lemma_link_facts(s3, l, crate::global::insert_pos(s3, l as int, s3.value(r), 0), r);
            assert(sched_frame(s3, s3.insert_sorted(l, r)));
            lemma_frame_trans(s0, s3, s3.insert_sorted(l, r));
        } else {
            lemma_link_facts(s2, SUSPENDED_TASK_LIST, s2.lists[SUSPENDED_TASK_LIST as int].index as int, r);
            assert(sched_frame(s2, k@));
            lemma_frame_trans(s1, s2, k@);
        }
        lemma_frame_trans(s0, s1, k@);
    }
}

/// Deletes a task (the running task when `task_to_delete` is `None`).
pub fn TaskDelete(k: &mut Kernel, task_to_delete: Option<TaskHandle>)
    requires
        old(k).wf(),
        old(k)@.current_tcb is Some,
        task_to_delete matches Some(t) ==> old(k)@.valid_task(t),
        old(k)@.task_number < UBaseType::MAX,
        ({
            let h = match task_to_delete {
                Some(t) => t,
                None => old(k)@.current_tcb.unwrap(),
            };
            &&& old(k)@.is_current(h) ==> old(k)@.deleted_tasks_waiting_clean_up < UBaseType::MAX
            &&& !old(k)@.is_current(h) ==> old(k)@.current_number_of_tasks > 0
            &&& !(old(k)@.scheduler_suspended > 0 && old(k)@.is_current(h))
        }),
    ensures
        final(k).wf(),
        final(k)@ == old(k)@.task_delete(
            match task_to_delete {
                Some(t) => t,
                None => old(k)@.current_tcb.unwrap(),
            },
        ),
{
    let ghost s0 = k@;
    let pxtcb = match task_to_delete {
        Some(t) => t,
        None => k.current_tcb.unwrap(),
    };
    let st = ItemRef { owner: pxtcb, kind: ItemKind::State };
    let ev = ItemRef { owner: pxtcb, kind: ItemKind::Event };
    proof {
        lemma_unlink_facts(s0, st);
    }
    if k.unlink_item(st) == 0 {
    }
    let ghost s1 = k@;
    if k.container_of(ev).is_some() {
        proof {
            lemma_unlink_facts(s1, ev);
        }
        k.unlink_item(ev);
    }
    let ghost s2 = k@;
    proof {
        if s1.container(ev) is Some {
            assert(s2.container(st) == s1.container(st));
        }
    }
    k.task_number = k.task_number + 1;
    proof {
        lemma_wf_same_items(s2, k@);
    }
    let is_current = match k.current_tcb {
        Some(c) => c.same_task(k, &pxtcb),
        None => false,
    };
    if is_current {
        k.insert_end(TASKS_WAITING_TERMINATION, st);
        let ghost s4 = k@;
        k.deleted_tasks_waiting_clean_up = k.deleted_tasks_waiting_clean_up + 1;
        proof {
            lemma_wf_same_items(s4, k@);
        }
    } else {
        k.current_number_of_tasks = k.current_number_of_tasks - 1;
        let ghost s4 = k@;
        proof {
            lemma_wf_same_items(s2, s4);
        }
        let stack_pointer = k.tasks[pxtcb.0].StackPointer;
        crate::port::port_free(stack_pointer);
        ResetNextTaskUnblockTime(k);
    }
    proof {
        assert(k@ =~= s0.task_delete(pxtcb));
    }
}

/// Whether `task` is suspended: on the suspended list, not waiting to be
/// readied from an interrupt, and not blocked on an event.
pub fn IsTaskSuspended(k: &Kernel, task: &TaskHandle) -> (r: bool)
    requires
        k@.valid_task(*task),
    ensures
        r == k@.is_suspended(*task),
{
    let mut xreturn: bool = false;
    let st = ItemRef { owner: *task, kind: ItemKind::State };
    let ev = ItemRef { owner: *task, kind: ItemKind::Event };
    if k.is_contained_within(SUSPENDED_TASK_LIST, st) {
        if !k.is_contained_within(PENDING_READY_LIST, ev) {
            if k.container_of(ev).is_none() {
                xreturn = true;
            }
        }
    }
    xreturn
}

/// Resumes a suspended task other than the running one: takes it off the
/// suspended list and makes it ready.
pub fn ResumeTask(k: &mut Kernel, task_to_resume: TaskHandle)
    requires
        old(k).wf(),
        old(k)@.valid_task(task_to_resume),
        old(k)@.current_tcb is Some,
        old(k)@.is_suspended(task_to_resume) ==> old(k)@.tcb(task_to_resume).Priority < configMAX_PRIORITIES,
    ensures
        final(k).wf(),
        final(k)@ == old(k)@.resume_task(task_to_resume),
{
    let ghost s0 = k@;
    let cur = k.current_tcb.unwrap();
    if !cur.same_task(k, &task_to_resume) {
        if IsTaskSuspended(k, &task_to_resume) {
            let st = ItemRef { owner: task_to_resume, kind: ItemKind::State };
            proof {
                lemma_unlink_facts(s0, st);
            }
            k.unlink_item(st);
            task_to_resume.AddTaskToReadyList(k);
            let current_task_priority = cur.GetPriority(k);
            if task_to_resume.GetPriority(k) >= current_task_priority {
                // a preempting port would yield here
            }
        }
    }
}

impl TaskHandle {
    /// Changes the task's base priority (capped at the highest priority),
    /// and its priority unless that is raised by an inherited mutex; values
    /// the event item by the new priority; a task on the priority-0 ready
    /// list is moved to the ready list of its priority.
    pub fn SetPriorityInDetail(&mut self, k: &mut Kernel, NewPriority: UBaseType)
        requires
            old(k).wf(),
            old(k)@.valid_task(*old(self)),
            old(k)@.current_tcb is Some,
            old(k)@.container(state_item(*old(self))) == Some(0usize) ==> {
                let t = old(k)@.tcb(*old(self));
                t.BasePriority != t.Priority ==> t.Priority < configMAX_PRIORITIES
            },
        ensures
            final(k).wf(),
            *final(self) == *old(self),
            final(k)@ == old(k)@.set_priority_in_detail(*old(self), NewPriority),
    {
        let ghost s0 = k@;
        let h = *self;
        let mut NewPriority = NewPriority;
        let mut YieldRequired: bool = false;
        let PriorityUsedOnEntry: UBaseType = 0;
        if NewPriority >= configMAX_PRIORITIES {
            NewPriority = configMAX_PRIORITIES - 1;
        }
        let CurrentBasePriority = h.GetBasePriority(k);
        let cur = k.current_tcb.unwrap();
        if CurrentBasePriority != NewPriority {
            if !h.same_task(k, &cur) {
                if NewPriority >= cur.GetPriority(k) {
                    YieldRequired = true;
                }
            }
        } else if h.same_task(k, &cur) {
            YieldRequired = true;
        }
        let old_priority = h.GetPriority(k);
        let t1_priority = if CurrentBasePriority == old_priority {
            NewPriority
        } else {
            old_priority
        };
        h.SetPriority(k, t1_priority);
        let ghost sa = k@;
        h.SetBasePriority(k, NewPriority);
        proof {
            let t = s0.tcb(h);
            let t1 = TCB {
                Priority: t1_priority,
                BasePriority: NewPriority,
                ..t
            };
            assert(k@ =~= s0.set_tcb(h, t1));
        }
        let ev = ItemRef { owner: h, kind: ItemKind::Event };
        let st = ItemRef { owner: h, kind: ItemKind::State };
        let ghost s1 = k@;
        let event_value = k.value_of(ev);
        if event_value & TASK_EVENT_LIST_ITEM_VALUE_IN_USE == 0 {
            proof {
                crate::global::lemma_event_not_delayed(s1, ev);
            }
            k.set_item_value(ev, (configMAX_PRIORITIES - NewPriority) as TickType);
        }
        proof {
            assert(event_value & 0u32 == 0u32) by (bit_vector);
        }
        let ghost s2 = k@;
        proof {
            lemma_set_value_facts(s1, ev, (configMAX_PRIORITIES - NewPriority) as TickType);
        }
        if k.is_contained_within(PriorityUsedOnEntry as usize, st) {
            proof {
                lemma_unlink_facts(s2, st);
            }
            if k.unlink_item(st) == 0 {
            }
            h.AddTaskToReadyList(k);
        }
        if YieldRequired {
            // a preempting port would yield here
        }
    }
}

impl TCB {
    /// Creates the task: reserves its stack, lays out its first stack frame,
    /// and registers it with the scheduler. The port reserves stacks of a
    /// nonzero size but lays out no frame, so creation fails with
    /// `OutOfMemory` for a stack depth of 0 and with `PortError` otherwise,
    /// and the kernel is left as it was.
    pub fn INITIALIZE<F>(self, k: &mut Kernel, func: F) -> (r: Result<TaskHandle, FreeRtosError>)
        where
            F: FnOnce() + Send + 'static,
        requires
            old(k).wf(),
            self.StateListItem.container is None,
            self.EventListItem.container is None,
            self.StackDepth <= usize::MAX,
            vstd::layout::size_of::<StackType>() * self.StackDepth <= usize::MAX,
        ensures
            self.StackDepth == 0 ==> r == Err::<TaskHandle, FreeRtosError>(FreeRtosError::OutOfMemory),
            self.StackDepth != 0 ==> r == Err::<TaskHandle, FreeRtosError>(FreeRtosError::PortError),
            final(k)@ == old(k)@,
    {
        broadcast use vstd::layout::layout_of_primitives;
        let mut tcb = self;
        let size_of_stacktype = core::mem::size_of::<StackType>();
        let stacksize_as_bytes = size_of_stacktype * (tcb.StackDepth as usize);
        let px_stack = match crate::port::port_malloc(stacksize_as_bytes) {
            Ok(p) => p,
            Err(e) => {
                return Err(e);
            },
        };
        tcb.StackPointer = px_stack;
        let mut top_of_stack = tcb.StackPointer + tcb.StackDepth as StackType - 1;
        top_of_stack = top_of_stack & crate::port::portBYTE_ALIGNMENT_MASK as StackType;
        let result = crate::port::port_initialise_stack(top_of_stack, 32, 0);
        match result {
            Ok(_) => {

            },
            Err(e) => {
                return Err(e);
            },
        }
        tcb.MutexedHeld = 0;
        tcb.BasePriority = tcb.Priority;
        tcb.RuntimeCounter = 0;
        let handle = TaskHandle::from(k, tcb);
        let item_value = (configMAX_PRIORITIES - handle.GetPriority(k)) as TickType;
        k.set_item_value(ItemRef { owner: handle, kind: ItemKind::State }, item_value);
        match handle.AddNewTaskToReadyList(k) {
            Ok(_) => {},
            Err(e) => {
                return Err(e);
            },
        }
        Ok(handle)
    }
}

/// Facts about a task after it is made ready.
pub proof fn lemma_add_to_ready_facts(s: KState, h: TaskHandle)
    requires
        s.wf(),
        s.can_ready(h),
    ensures
        s.add_to_ready_list(h).wf(),
        s.add_to_ready_list(h).tasks.len() == s.tasks.len(),
        s.add_to_ready_list(h).lists.len() == s.lists.len(),
        forall|g: TaskHandle| s.valid_task(g) ==> (#[trigger] s.add_to_ready_list(h).tcb(g)).Priority == s.tcb(g).Priority,
        forall|m: int| 0 <= m < s.lists.len() && m != s.tcb(h).Priority ==> #[trigger] s.add_to_ready_list(h).lists[m] == s.lists[m],
        s.add_to_ready_list(h).container(state_item(h)) == Some(s.tcb(h).Priority as usize),
        forall|q: ItemRef| s.valid_task(q.owner) && q != state_item(h) ==> #[trigger] s.add_to_ready_list(h).item(q) == s.item(q),
        s.add_to_ready_list(h).current_tcb == s.current_tcb,
        s.priorities_ok() ==> s.add_to_ready_list(h).priorities_ok(),
{
    let p = s.tcb(h).Priority;
    let s1 = s.record_ready_priority(p);
    lemma_wf_same_items(s, s1);
    if s.priorities_ok() {
        assert forall|g: TaskHandle| s1.valid_task(g) implies (#[trigger] s1.tcb(g)).Priority < configMAX_PRIORITIES by {
            assert(s1.tcb(g) == s.tcb(g));
        }
    }
    assert(s1.lists[p as int].wf());
    crate::global::lemma_link_wf(s1, p as usize, s1.lists[p as int].index as int, state_item(h));
    lemma_link_facts(s1, p as usize, s1.lists[p as int].index as int, state_item(h));
}

/// Priorities depend only on the task table.
pub proof fn lemma_priorities_same(a: KState, b: KState)
    requires
        a.priorities_ok(),
        a.tasks == b.tasks,
    ensures
        b.priorities_ok(),
{
    assert forall|g: TaskHandle| b.valid_task(g) implies (#[trigger] b.tcb(g)).Priority < configMAX_PRIORITIES by {
        assert(b.tcb(g) == a.tcb(g));
    }
}

impl KState {
    /// The bookkeeping of `SuspendTask` for task `h`: its items unlinked,
    /// its state item put on the suspended list, and, with the scheduler
    /// running, the next unblock time recomputed.
    pub open spec fn suspend_core(self, h: TaskHandle) -> KState {
        let s1 = self.unlink(state_item(h));
        let s2 = if s1.container(event_item(h)) is Some {
            s1.unlink(event_item(h))
        } else {
            s1
        };
        let s3 = s2.insert_end(SUSPENDED_TASK_LIST, state_item(h));
        if s3.scheduler_running {
            s3.reset_next_unblock_time(TASK_MAX_DELAY)
        } else {
            s3
        }
    }

    /// Whether `SuspendTask` of `h` ends with a context switch: the running
    /// task suspended itself before the scheduler started while some task
    /// is still not suspended.
    pub open spec fn suspend_switches(self, h: TaskHandle) -> bool {
        let s4 = self.suspend_core(h);
        &&& s4.is_current(h)
        &&& !s4.scheduler_running
        &&& s4.list(SUSPENDED_TASK_LIST as int).len() != s4.current_number_of_tasks
    }

    /// `SuspendTask` of task `h`.
    pub open spec fn suspend_task(self, h: TaskHandle) -> KState {
        if self.suspend_switches(h) {
            self.suspend_core(h).switch_context()
        } else {
            self.suspend_core(h)
        }
    }
}

/// Suspends a task: takes it off its lists and puts it on the suspended
/// list; recomputes the next unblock time when the scheduler runs; and when
/// the running task suspended itself before the scheduler started, switches
/// to another task unless every task is suspended.
pub fn SuspendTask(k: &mut Kernel, task_to_suspend: TaskHandle)
    requires
        old(k).wf(),
        old(k)@.valid_task(task_to_suspend),
        old(k)@.current_tcb is Some,
        (old(k)@.is_current(task_to_suspend) && old(k)@.scheduler_running) ==> old(k)@.scheduler_suspended == 0,
        old(k)@.suspend_switches(task_to_suspend) ==> (old(k)@.scheduler_suspended == 0 ==> old(k)@.suspend_core(task_to_suspend).can_select()),
    ensures
        final(k).wf(),
        final(k)@ == old(k)@.suspend_task(task_to_suspend),
{
    let ghost s0 = k@;
    let h = task_to_suspend;
    let st = ItemRef { owner: h, kind: ItemKind::State };
    let ev = ItemRef { owner: h, kind: ItemKind::Event };
    proof {
        lemma_unlink_facts(s0, st);
    }
    if k.unlink_item(st) == 0 {
    }
    let ghost s1 = k@;
    if k.container_of(ev).is_some() {
        proof {
            lemma_unlink_facts(s1, ev);
        }
        k.unlink_item(ev);
    }
    k.insert_end(SUSPENDED_TASK_LIST, st);
    if k.scheduler_running {
        ResetNextTaskUnblockTime(k);
    }
    let ghost s4 = k@;
    proof {
        assert(s4 == s0.suspend_core(h));
    }
    let cur = k.current_tcb.unwrap();
    if cur.same_task(k, &h) {
        if k.scheduler_running {
            // the scheduler is not suspended here; a preempting port would yield
        } else {
            if (k.list_len(SUSPENDED_TASK_LIST) as u64) != k.current_number_of_tasks {
                crate::kernel::TaskSwitchContext(k);
            }
        }
    }
}

/// What the scheduling operations leave alone: the running task, the
/// scheduler flags and counts, the numbers of tasks and lists, and every
/// task's priority.
pub open spec fn sched_frame(a: KState, b: KState) -> bool {
    &&& b.current_tcb == a.current_tcb
    &&& b.scheduler_suspended == a.scheduler_suspended
    &&& b.scheduler_running == a.scheduler_running
    &&& b.current_number_of_tasks == a.current_number_of_tasks
    &&& b.pended_ticks == a.pended_ticks
    &&& b.lists.len() == a.lists.len()
    &&& b.tasks.len() == a.tasks.len()
    &&& forall|h: TaskHandle| a.valid_task(h) ==> (#[trigger] b.tcb(h)).Priority == a.tcb(h).Priority
}

pub proof fn lemma_frame_priorities(a: KState, b: KState)
    requires
        sched_frame(a, b),
        a.priorities_ok(),
    ensures
        b.priorities_ok(),
{
    assert forall|g: TaskHandle| b.valid_task(g) implies (#[trigger] b.tcb(g)).Priority < configMAX_PRIORITIES by {
        assert(a.valid_task(g));
    }
}

pub proof fn lemma_frame_trans(a: KState, b: KState, c: KState)
    requires
        sched_frame(a, b),
        sched_frame(b, c),
    ensures
        sched_frame(a, c),
{
    assert forall|h: TaskHandle| a.valid_task(h) implies (#[trigger] c.tcb(h)).Priority == a.tcb(h).Priority by {
        assert(b.valid_task(h));
        assert(b.tcb(h).Priority == a.tcb(h).Priority);
    }
}
} // verus!
