use vstd::prelude::*;
use crate::config::configMAX_PRIORITIES;
use crate::global::{Kernel, KState, lemma_wf_same_items, lemma_event_not_delayed, list_kind, PENDING_READY_LIST};
use crate::list::{ItemKind, ItemRef};
use crate::port::{BaseType, TickType, UBaseType};
use crate::tasks::{
    event_item, state_item, TaskHandle, TCB, TASK_MAX_DELAY, AddCurrentTaskToDelayedList,
    ResetNextTaskUnblockTime, lemma_unlink_facts, lemma_set_value_facts, lemma_set_tcb_wf,
    lemma_add_to_ready_facts, lemma_link_facts, sched_frame, lemma_frame_trans,
};

verus! {

/// The flag that marks an event item's value as in use by an event list.
pub const taskEVENT_LIST_ITEM_VALUE_IN_USE: TickType = 0x80000000;

/// When a timed wait started: the overflow count and tick count at entry.
#[derive(Clone, Copy, Debug)]
pub struct time_out {
    pub overflow_count: BaseType,
    pub time_on_entering: TickType,
}

impl Default for time_out {
    fn default() -> (t: time_out)
        ensures
            t.overflow_count == 0,
            t.time_on_entering == 0,
    {
        time_out { overflow_count: 0, time_on_entering: 0 }
    }
}

impl KState {
    /// `xTaskRemoveFromEventList` on list `l`: the head task taken off the
    /// event list and made ready (or, with the scheduler suspended, put on
    /// the pending-ready list); a yield is left pending when it is more
    /// urgent than the running task; the next unblock time is recomputed.
    /// Also whether the woken task is more urgent.
    pub open spec fn remove_from_event_list(self, l: usize) -> (KState, bool) {
        let h = self.head_owner(l as int);
        let s1 = self.unlink(event_item(h));
        let s2 = if s1.scheduler_suspended == 0 {
            s1.unlink(state_item(h)).add_to_ready_list(h)
        } else {
            s1.insert_end(PENDING_READY_LIST, event_item(h))
        };
        let woke = s2.tcb(h).Priority > s2.current_priority();
        let s3 = if woke {
            KState { yield_pending: true, ..s2 }
        } else {
            s2
        };
        (s3.reset_next_unblock_time(TASK_MAX_DELAY), woke)
    }

    /// What `xTaskRemoveFromEventList` on list `l` needs to run without
    /// failing.
    pub open spec fn can_remove_from_event_list(self, l: usize) -> bool {
        &&& l < self.lists.len()
        &&& self.list(l as int).len() > 0
        &&& self.current_tcb is Some
        &&& self.scheduler_suspended == 0 ==> self.tcb(self.head_owner(l as int)).Priority < configMAX_PRIORITIES
    }

    /// `vTaskPlaceOnEventList`: the running task's event item linked by
    /// value into list `l`, then the running task delayed for
    /// `ticks_to_wait` ticks (indefinitely for the largest wait).
    pub open spec fn place_on_event_list(self, l: usize, ticks_to_wait: TickType) -> KState {
        self.insert_sorted(l, event_item(self.current_tcb.unwrap())).add_current_to_delayed(ticks_to_wait, true)
    }

    /// `pvTaskIncrementMutexHeldCount`: the running task, if any, holds one
    /// more mutex.
    pub open spec fn increment_mutex_held(self) -> KState {
        match self.current_tcb {
            None => self,
            Some(c) => self.set_tcb(c, TCB { MutexedHeld: (self.tcb(c).MutexedHeld + 1) as UBaseType, ..self.tcb(c) }),
        }
    }

    /// `vTaskPriorityInherit`: a mutex holder less urgent than the running
    /// task takes its priority: its event item is revalued unless in use,
    /// and if it is ready it moves to the ready list of its new priority.
    pub open spec fn priority_inherit(self, holder: Option<TaskHandle>) -> KState {
        match holder {
            None => self,
            Some(t) => {
                let cp = self.current_priority();
                let tp = self.tcb(t).Priority;
                if tp < cp {
                    let s1 = if self.value(event_item(t)) & taskEVENT_LIST_ITEM_VALUE_IN_USE == 0 {
                        self.set_value(event_item(t), (configMAX_PRIORITIES - cp) as TickType)
                    } else {
                        self
                    };
                    if s1.container(state_item(t)) == Some(tp as usize) {
                        let s2 = s1.unlink(state_item(t));
                        let s3 = s2.set_tcb(t, TCB { Priority: cp, ..s2.tcb(t) });
                        s3.add_to_ready_list(t)
                    } else {
                        s1
                    }
                } else {
                    self
                }
            },
        }
    }

    /// What `vTaskPriorityInherit` needs of the running priority when holder
    /// `t` is less urgent: no more than the number of priorities where the
    /// event item's value is recomputed from it, and a ready list of its own
    /// where the holder moves to it.
    pub open spec fn inherit_bounds(self, t: TaskHandle) -> bool {
        let cp = self.current_priority();
        let tp = self.tcb(t).Priority;
        tp < cp ==> {
            &&& self.value(event_item(t)) & taskEVENT_LIST_ITEM_VALUE_IN_USE == 0 ==> cp <= configMAX_PRIORITIES
            &&& self.container(state_item(t)) == Some(tp as usize) ==> cp < configMAX_PRIORITIES
        }
    }

    /// `xTaskPriorityDisinherit`: the holder releases a mutex; when it then
    /// holds none and runs at an inherited priority, it returns to its base
    /// priority, its event item is revalued by the priority it had, and it
    /// is made ready again. Also whether that happened.
    pub open spec fn priority_disinherit(self, holder: Option<TaskHandle>) -> (KState, bool) {
        match holder {
            None => (self, false),
            Some(t) => {
                let held = (self.tcb(t).MutexedHeld - 1) as UBaseType;
                let s1 = self.set_tcb(t, TCB { MutexedHeld: held, ..self.tcb(t) });
                let tp = s1.tcb(t).Priority;
                let bp = s1.tcb(t).BasePriority;
                if tp != bp && held == 0 {
                    let s2 = s1.unlink(state_item(t));
                    let s3 = s2.set_tcb(t, TCB { Priority: bp, ..s2.tcb(t) });
                    let s4 = s3.set_value(event_item(t), (configMAX_PRIORITIES - tp) as TickType);
                    (s4.add_to_ready_list(t), true)
                } else {
                    (s1, false)
                }
            },
        }
    }
}

/// Wakes the task at the head of event list `event_list`: takes it off the
/// list and makes it ready, or, with the scheduler suspended, puts it on
/// the pending-ready list; leaves a yield pending and returns true when it
/// is more urgent than the running task; recomputes the next unblock time.
pub fn xTaskRemoveFromEventList(k: &mut Kernel, event_list: usize) -> (xreturn: bool)
    requires
        old(k).wf(),
        old(k)@.can_remove_from_event_list(event_list),
    ensures
        final(k).wf(),
        (final(k)@, xreturn) == old(k)@.remove_from_event_list(event_list),
        final(k)@.current_tcb == old(k)@.current_tcb,
        final(k)@.scheduler_suspended == old(k)@.scheduler_suspended,
        final(k)@.scheduler_running == old(k)@.scheduler_running,
        final(k)@.current_number_of_tasks == old(k)@.current_number_of_tasks,
        final(k)@.pended_ticks == old(k)@.pended_ticks,
        final(k)@.lists.len() == old(k)@.lists.len(),
        final(k)@.tasks.len() == old(k)@.tasks.len(),
        forall|h: TaskHandle| old(k)@.valid_task(h) ==> (#[trigger] final(k)@.tcb(h)).Priority == old(k)@.tcb(h).Priority,
{
    let ghost s0 = k@;
    let unblocked_tcb = k.get_owner_of_head_entry(event_list);
    let ev = ItemRef { owner: unblocked_tcb, kind: ItemKind::Event };
    let st = ItemRef { owner: unblocked_tcb, kind: ItemKind::State };
    proof {
        assert(s0.lists[event_list as int].items[0] == s0.list(event_list as int)[0]);
        lemma_unlink_facts(s0, ev);
    }
    let mut xreturn: bool = false;
    k.unlink_item(ev);
    let ghost s1 = k@;
    if k.scheduler_suspended == 0 {
        proof {
            lemma_unlink_facts(s1, st);
        }
        k.unlink_item(st);
        proof {
            lemma_add_to_ready_facts(s1.unlink(st), unblocked_tcb);
        }
        let _r = unblocked_tcb.AddTaskToReadyList(k);
    } else {
        proof {
            lemma_link_facts(s1, PENDING_READY_LIST, s1.lists[PENDING_READY_LIST as int].index as int, ev);
        }
        k.insert_end(PENDING_READY_LIST, ev);
    }
    let cur = k.current_tcb.unwrap();
    if unblocked_tcb.GetPriority(k) > cur.GetPriority(k) {
        xreturn = true;
        let ghost s2 = k@;
        k.yield_pending = true;
        proof {
            lemma_wf_same_items(s2, k@);
            assert(k@ =~= KState { yield_pending: true, ..s2 });
        }
    } else {
        xreturn = false;
    }
    let ghost s3 = k@;
    ResetNextTaskUnblockTime(k);
    proof {
        assert(k@.tasks == s3.tasks);
    }
    xreturn
}

/// Clears the pending yield.
pub fn vTaskMissedYield(k: &mut Kernel)
    requires
        old(k).wf(),
    ensures
        final(k).wf(),
        final(k)@ == (KState { yield_pending: false, ..old(k)@ }),
{
    let ghost s0 = k@;
    k.yield_pending = false;
    proof {
        lemma_wf_same_items(s0, k@);
    }
}

/// Records the current overflow count and tick count as the start of a
/// timed wait.
pub fn vTaskSetTimeOutState(k: &Kernel, pxtimeout: &mut time_out)
    ensures
        final(pxtimeout).overflow_count == k@.num_of_overflows,
        final(pxtimeout).time_on_entering == k@.tick_count,
{
    pxtimeout.overflow_count = k.num_of_overflows;
    pxtimeout.time_on_entering = k.tick_count;
}

/// The result of `xTaskCheckForTimeOut` in state `s`: whether the wait
/// started at `t` for `ticks` ticks has timed out.
pub open spec fn timed_out(s: KState, t: time_out, ticks: TickType) -> bool {
    if s.num_of_overflows != t.overflow_count && s.tick_count >= t.time_on_entering {
        true
    } else {
        !(vstd::wrapping::u32_specs::wrapping_sub(s.tick_count, t.time_on_entering) < ticks)
    }
}

/// Whether a wait started at `*pxtimeout` for `*ticks_to_wait` ticks has
/// timed out: it has when the tick count wrapped since and has caught up
/// with the start, or when the ticks elapsed (counted modulo the tick
/// range) reach the wait. Otherwise the wait left is shortened by the
/// ticks elapsed and the start moved to now.
pub fn xTaskCheckForTimeOut(k: &Kernel, pxtimeout: &mut time_out, ticks_to_wait: &mut TickType) -> (xreturn: bool)
    requires
        k@.current_tcb is Some,
    ensures
        xreturn == timed_out(k@, *old(pxtimeout), *old(ticks_to_wait)),
        xreturn ==> *final(pxtimeout) == *old(pxtimeout) && *final(ticks_to_wait) == *old(ticks_to_wait),
        !xreturn ==> {
            &&& *final(ticks_to_wait) == *old(ticks_to_wait) - vstd::wrapping::u32_specs::wrapping_sub(
                k@.tick_count,
                old(pxtimeout).time_on_entering,
            )
            &&& final(pxtimeout).overflow_count == k@.num_of_overflows
            &&& final(pxtimeout).time_on_entering == k@.tick_count
        },
{
    let mut xreturn: bool = false;
    let const_tick_count: TickType = k.tick_count;
    let _unwrapped_cur = k.current_tcb.unwrap();
    if k.num_of_overflows != pxtimeout.overflow_count && const_tick_count >= pxtimeout.time_on_entering {
        xreturn = true;
    } else if const_tick_count.wrapping_sub(pxtimeout.time_on_entering) < *ticks_to_wait {
        *ticks_to_wait = *ticks_to_wait - const_tick_count.wrapping_sub(pxtimeout.time_on_entering);
        vTaskSetTimeOutState(k, pxtimeout);
        xreturn = false;
    } else {
        xreturn = true;
    }
    xreturn
}

/// Blocks the running task on event list `event_list`: links its event
/// item by value into the list and delays it for `ticks_to_wait` ticks.
pub fn vTaskPlaceOnEventList(k: &mut Kernel, event_list: usize, ticks_to_wait: TickType)
    requires
        old(k).wf(),
        old(k)@.current_tcb is Some,
        event_list < old(k)@.lists.len(),
        list_kind(event_list as int) == ItemKind::Event,
        old(k)@.container(event_item(old(k)@.current_tcb.unwrap())) is None,
    ensures
        final(k).wf(),
        final(k)@ == old(k)@.place_on_event_list(event_list, ticks_to_wait),
        sched_frame(old(k)@, final(k)@),
{
    let ghost s0 = k@;
    let unwrapped_cur = k.current_tcb.unwrap();
    let ev = ItemRef { owner: unwrapped_cur, kind: ItemKind::Event };
    k.insert_sorted(event_list, ev);
    proof {
        lemma_link_facts(s0, event_list, crate::global::insert_pos(s0, event_list as int, s0.value(ev), 0), ev);
        assert(sched_frame(s0, k@));
    }
    let ghost s1 = k@;
    AddCurrentTaskToDelayedList(k, ticks_to_wait, true);
    proof {
        lemma_frame_trans(s0, s1, k@);
    }
}

/// Counts one more mutex held by the running task and returns it, or
/// returns `None` when no task runs.
pub fn pvTaskIncrementMutexHeldCount(k: &mut Kernel) -> (r: Option<TaskHandle>)
    requires
        old(k).wf(),
        old(k)@.current_tcb matches Some(c) ==> old(k)@.tcb(c).MutexedHeld < UBaseType::MAX,
    ensures
        final(k).wf(),
        r == old(k)@.current_tcb,
        final(k)@ == old(k)@.increment_mutex_held(),
{
    match k.current_tcb {
        Some(current_task) => {
            let new_val = current_task.GetMutexHeldCount(k) + 1;
            current_task.SetMutexHeldCount(k, new_val);
            Some(current_task)
        },
        None => None,
    }
}

/// Counting a held mutex changes neither the lists nor any priority.
pub proof fn lemma_increment_mutex_held_facts(s: KState)
    requires
        s.wf(),
    ensures
        s.increment_mutex_held().wf(),
        s.increment_mutex_held().lists == s.lists,
        s.increment_mutex_held().tasks.len() == s.tasks.len(),
        s.increment_mutex_held().current_tcb == s.current_tcb,
        s.increment_mutex_held().scheduler_suspended == s.scheduler_suspended,
        forall|h: TaskHandle| s.valid_task(h) ==> (#[trigger] s.increment_mutex_held().tcb(h)).Priority == s.tcb(h).Priority,
        forall|r: ItemRef| s.valid_task(r.owner) ==> #[trigger] s.increment_mutex_held().item(r) == s.item(r),
        s.priorities_ok() ==> s.increment_mutex_held().priorities_ok(),
{
    if let Some(c) = s.current_tcb {
        let t = TCB { MutexedHeld: (s.tcb(c).MutexedHeld + 1) as UBaseType, ..s.tcb(c) };
        lemma_set_tcb_wf(s, c, t);
        let u = s.increment_mutex_held();
        assert forall|h: TaskHandle| s.valid_task(h) implies (#[trigger] u.tcb(h)).Priority == s.tcb(h).Priority by {
            if h != c {
                assert(u.tcb(h) == s.tcb(h));
            }
        }
        if s.priorities_ok() {
            assert forall|h: TaskHandle| u.valid_task(h) implies (#[trigger] u.tcb(h)).Priority < configMAX_PRIORITIES by {
                assert(s.valid_task(h));
                assert(u.tcb(h).Priority == s.tcb(h).Priority);
            }
        }
    }
}

/// Lets a mutex holder less urgent than the running task inherit the
/// running task's priority.
pub fn vTaskPriorityInherit(k: &mut Kernel, mutex_holder: Option<TaskHandle>)
    requires
        old(k).wf(),
        mutex_holder matches Some(t) ==> {
            &&& old(k)@.valid_task(t)
            &&& old(k)@.current_tcb is Some
            &&& old(k)@.inherit_bounds(t)
        },
    ensures
        final(k).wf(),
        final(k)@ == old(k)@.priority_inherit(mutex_holder),
        final(k)@.current_tcb == old(k)@.current_tcb,
        final(k)@.scheduler_suspended == old(k)@.scheduler_suspended,
        final(k)@.scheduler_running == old(k)@.scheduler_running,
        final(k)@.current_number_of_tasks == old(k)@.current_number_of_tasks,
        final(k)@.pended_ticks == old(k)@.pended_ticks,
        final(k)@.lists.len() == old(k)@.lists.len(),
        final(k)@.tasks.len() == old(k)@.tasks.len(),
        old(k)@.priorities_ok() ==> final(k)@.priorities_ok(),
        old(k)@.current_tcb matches Some(c) ==> final(k)@.container(event_item(c)) == old(k)@.container(event_item(c)),
{
    let ghost s0 = k@;
    if let Some(task) = mutex_holder {
        let cur = k.current_tcb.unwrap();
        let current_task_priority = cur.GetPriority(k);
        let this_task_priority = task.GetPriority(k);
        if this_task_priority < current_task_priority {
            let ev = ItemRef { owner: task, kind: ItemKind::Event };
            let st = ItemRef { owner: task, kind: ItemKind::State };
            if k.value_of(ev) & taskEVENT_LIST_ITEM_VALUE_IN_USE == 0 {
                proof {
                    lemma_event_not_delayed(s0, ev);
                }
                let new_item_val = (configMAX_PRIORITIES - current_task_priority) as TickType;
                k.set_item_value(ev, new_item_val);
            }
            let ghost s1 = k@;
            proof {
                if s0.value(ev) & taskEVENT_LIST_ITEM_VALUE_IN_USE == 0 {
                    lemma_set_value_facts(s0, ev, (configMAX_PRIORITIES - current_task_priority) as TickType);
                }
            }
            if k.is_contained_within(this_task_priority as usize, st) {
                proof {
                    lemma_unlink_facts(s1, st);
                }
                if k.unlink_item(st) == 0 {
                }
                let ghost s2 = k@;
                task.SetPriority(k, current_task_priority);
                proof {
                    lemma_set_tcb_wf(s2, task, TCB { Priority: current_task_priority, ..s2.tcb(task) });
                    if s0.priorities_ok() {
                        assert(s1.priorities_ok());
                        assert(s2.priorities_ok());
                        assert(current_task_priority < configMAX_PRIORITIES);
                        assert forall|g: TaskHandle| k@.valid_task(g) implies (#[trigger] k@.tcb(g)).Priority < configMAX_PRIORITIES by {
                            if g != task {
                                assert(s2.valid_task(g));
                                assert(k@.tcb(g) == s2.tcb(g));
                            }
                        }
                    }
                }
                let ghost s3 = k@;
                proof {
                    lemma_add_to_ready_facts(s3, task);
                }
                let _r = task.AddTaskToReadyList(k);
            }
        }
    }
}

/// The running task releases a mutex it holds: one mutex fewer is counted;
/// when it then holds none and runs at an inherited priority, it returns to
/// its base priority and is made ready again, and true is returned.
pub fn xTaskPriorityDisinherit(k: &mut Kernel, mutex_holder: Option<TaskHandle>) -> (ret_val: bool)
    requires
        old(k).wf(),
        mutex_holder matches Some(t) ==> {
            let tcb = old(k)@.tcb(t);
            &&& old(k)@.valid_task(t)
            &&& old(k)@.is_current(t)
            &&& tcb.MutexedHeld > 0
            &&& (tcb.MutexedHeld == 1 && tcb.Priority != tcb.BasePriority) ==> {
                &&& tcb.Priority <= configMAX_PRIORITIES
                &&& tcb.BasePriority < configMAX_PRIORITIES
            }
        },
    ensures
        final(k).wf(),
        (final(k)@, ret_val) == old(k)@.priority_disinherit(mutex_holder),
{
    let ghost s0 = k@;
    let mut ret_val: bool = false;
    if let Some(task) = mutex_holder {
        let mutex_held = task.GetMutexHeldCount(k);
        let mutex_held = mutex_held - 1;
        task.SetMutexHeldCount(k, mutex_held);
        let ghost s1 = k@;
        let this_task_priority = task.GetPriority(k);
        let this_task_base_priority = task.GetBasePriority(k);
        if this_task_priority != this_task_base_priority {
            if mutex_held == 0 {
                let st = ItemRef { owner: task, kind: ItemKind::State };
                let ev = ItemRef { owner: task, kind: ItemKind::Event };
                proof {
                    lemma_unlink_facts(s1, st);
                }
                if k.unlink_item(st) == 0 {
                }
                let ghost s2 = k@;
                task.SetPriority(k, this_task_base_priority);
                let ghost s3 = k@;
                proof {
                    lemma_set_tcb_wf(s2, task, TCB { Priority: this_task_base_priority, ..s2.tcb(task) });
                    lemma_event_not_delayed(s3, ev);
                }
                let new_item_val = (configMAX_PRIORITIES - this_task_priority) as TickType;
                k.set_item_value(ev, new_item_val);
                proof {
                    lemma_set_value_facts(s3, ev, new_item_val);
                }
                let _r = task.AddTaskToReadyList(k);
                ret_val = true;
            }
        }
    }
    ret_val
}

} // verus!
