use vstd::prelude::*;
use crate::config::configMAX_PRIORITIES;
use crate::global::{Kernel, KState, lemma_wf_same_items, PENDING_READY_LIST, DELAYED_LIST_A, DELAYED_LIST_B};
use crate::list::{ItemKind, ItemRef, ListItem, ListModel};
use crate::port::{portMAX_DELAY, StackType, TickType, UBaseType};
use crate::projdefs::FreeRtosError;
use crate::tasks::{event_item, state_item, TaskHandle, TCB, lemma_unlink_facts, lemma_add_to_ready_facts, lemma_priorities_same};
use crate::global::lemma_event_not_delayed;

verus! {

/// What `TaskGetSchedulerState` reports.
#[derive(Clone, Copy, PartialEq, Eq, Structural, Debug)]
pub enum SchedulerState {
    NotStarted,
    Suspended,
    Running,
}

impl KState {
    /// The highest priority at or below `p` whose ready list is not empty
    /// (0 when there is none).
    pub open spec fn highest_ready_priority(self, p: int) -> int
        decreases p,
    {
        if p <= 0 || self.list(p).len() > 0 {
            p
        } else {
            self.highest_ready_priority(p - 1)
        }
    }

    /// A task can be selected to run: the top ready priority names a ready
    /// list and some ready list at or below it is not empty.
    pub open spec fn can_select(self) -> bool {
        &&& self.top_ready_priority < configMAX_PRIORITIES
        &&& self.list(self.highest_ready_priority(self.top_ready_priority as int)).len() > 0
    }

    /// `TaskSelectHighestPriorityTask`: the next task, in round-robin order,
    /// of the highest non-empty ready list becomes the running task, and
    /// that priority becomes the top ready priority.
    pub open spec fn select_highest(self) -> KState {
        let p = self.highest_ready_priority(self.top_ready_priority as int) as usize;
        KState {
            current_tcb: Some(self.next_owner(p)),
            top_ready_priority: p as UBaseType,
            ..self.advance(p)
        }
    }

    /// `TaskSwitchContext`: with the scheduler suspended a yield is left
    /// pending; otherwise the pending yield is cleared and the highest
    /// priority ready task selected.
    pub open spec fn switch_context(self) -> KState {
        if self.scheduler_suspended > 0 {
            KState { yield_pending: true, ..self }
        } else {
            KState { yield_pending: false, ..self }.select_highest()
        }
    }

    /// A delayed or pending task `h` made ready: its state item unlinked,
    /// its event item unlinked if it is in a list, and the task linked into
    /// its ready list.
    pub open spec fn unblock_task(self, h: TaskHandle) -> KState {
        let s1 = self.unlink(state_item(h));
        let s2 = if s1.container(event_item(h)) is Some {
            s1.unlink(event_item(h))
        } else {
            s1
        };
        s2.add_to_ready_list(h)
    }

    /// The wake-up loop of `TaskIncrementTick` at tick `tick`: while the
    /// head of the delayed list is due, it is made ready (a switch becomes
    /// required when it is at least as urgent as the running task); the
    /// next unblock time becomes the wake time of the first task not due,
    /// or `portMAX_DELAY` when the list runs empty. `fuel` bounds the
    /// number of rounds (the length of the delayed list suffices).
    pub open spec fn unblock_delayed(self, tick: TickType, switch: bool, fuel: nat) -> (KState, bool)
        decreases fuel,
    {
        let d = self.delayed_id() as int;
        if self.list(d).len() == 0 {
            (KState { next_task_unblock_time: portMAX_DELAY, ..self }, switch)
        } else {
            let h = self.head_owner(d);
            let v = self.value(state_item(h));
            if tick < v {
                (KState { next_task_unblock_time: v, ..self }, switch)
            } else if fuel == 0 {
                (self, switch)
            } else {
                let s = self.unblock_task(h);
                s.unblock_delayed(
                    tick,
                    switch || s.tcb(h).Priority >= s.current_priority(),
                    (fuel - 1) as nat,
                )
            }
        }
    }

    /// `TaskIncrementTick`: the new state and whether a context switch is
    /// required. With the scheduler running the tick count advances
    /// (wrapping, which swaps the delayed lists), due tasks wake, and a
    /// switch is required when a woken task is at least as urgent as the
    /// running one or the running task shares its ready list. With the
    /// scheduler suspended the tick is counted as pended and a switch is
    /// required when a yield is pending.
    pub open spec fn increment_tick(self) -> (KState, bool) {
        if self.scheduler_suspended == 0 {
            let tick = vstd::wrapping::u32_specs::wrapping_add(self.tick_count, 1);
            let s1 = KState { tick_count: tick, ..self };
            let s2 = if tick == 0 {
                s1.switch_delayed_lists()
            } else {
                s1
            };
            let (s3, sw) = if tick >= s2.next_task_unblock_time {
                s2.unblock_delayed(tick, false, s2.list(s2.delayed_id() as int).len())
            } else {
                (s2, false)
            };
            (s3, sw || s3.list(s3.current_priority() as int).len() > 1)
        } else {
            let s1 = KState { pended_ticks: (self.pended_ticks + 1) as UBaseType, ..self };
            (s1, s1.yield_pending)
        }
    }

    /// One pended tick processed: the tick incremented, a required switch
    /// left as a pending yield.
    pub open spec fn process_one_tick(self) -> KState {
        let (s1, sw) = self.increment_tick();
        if sw {
            KState { yield_pending: true, ..s1 }
        } else {
            s1
        }
    }

    /// `n` pended ticks processed.
    pub open spec fn process_ticks(self, n: nat) -> KState
        decreases n,
    {
        if n == 0 {
            self
        } else {
            self.process_one_tick().process_ticks((n - 1) as nat)
        }
    }

    /// `ProcessPendedTicks`: every pended tick processed and the count reset.
    pub open spec fn process_pended_ticks(self) -> KState {
        if self.pended_ticks > 0 {
            KState { pended_ticks: 0, ..self.process_ticks(self.pended_ticks as nat) }
        } else {
            self
        }
    }

    /// A task readied while the scheduler was suspended moved to its ready
    /// list.
    pub open spec fn ready_pending_task(self, h: TaskHandle) -> KState {
        self.unlink(state_item(h)).unlink(event_item(h)).add_to_ready_list(h)
    }

    /// `MoveTasksToReadyList`: every task of the pending-ready list, from
    /// the head, moved to its ready list, a yield left pending for each one
    /// at least as urgent as the running task; also whether any moved.
    pub open spec fn move_pending(self, moved: bool, fuel: nat) -> (KState, bool)
        decreases fuel,
    {
        if self.list(PENDING_READY_LIST as int).len() == 0 || fuel == 0 {
            (self, moved)
        } else {
            let h = self.head_owner(PENDING_READY_LIST as int);
            let s1 = self.ready_pending_task(h);
            let s2 = if s1.tcb(h).Priority >= s1.current_priority() {
                KState { yield_pending: true, ..s1 }
            } else {
                s1
            };
            s2.move_pending(true, (fuel - 1) as nat)
        }
    }

    /// `TaskResumeAll`: the new state and whether it yielded. The
    /// suspension depth drops by one; when it reaches zero with tasks
    /// present, pending tasks are readied (and the next unblock time
    /// recomputed if any was), pended ticks processed, and the result is
    /// whether a yield is then pending.
    pub open spec fn resume_all(self) -> (KState, bool) {
        let s1 = KState { scheduler_suspended: (self.scheduler_suspended - 1) as UBaseType, ..self };
        if s1.scheduler_suspended == 0 && s1.current_number_of_tasks > 0 {
            let (s2, moved) = s1.move_pending(false, s1.list(PENDING_READY_LIST as int).len());
            let s3 = if moved {
                s2.reset_next_unblock_time(portMAX_DELAY)
            } else {
                s2
            };
            let s4 = s3.process_pended_ticks();
            (s4, s4.yield_pending)
        } else {
            (s1, false)
        }
    }

    /// Every task of the delayed list whose wake time `tick` has reached
    /// has a priority that names a ready list.
    pub open spec fn due_ok(self, tick: TickType) -> bool {
        forall|h: TaskHandle|
            self.valid_task(h) && self.container(state_item(h)) == Some(self.delayed_id()) && self.value(
                state_item(h),
            ) <= tick ==> (#[trigger] self.tcb(h)).Priority < configMAX_PRIORITIES
    }

    /// The state after a tick with the scheduler running counts itself:
    /// the tick count advanced (wrapping), and on the wrap the delayed lists
    /// traded.
    pub open spec fn ticked(self) -> KState {
        let tick = vstd::wrapping::u32_specs::wrapping_add(self.tick_count, 1);
        let s1 = KState { tick_count: tick, ..self };
        if tick == 0 {
            s1.switch_delayed_lists()
        } else {
            s1
        }
    }

    /// What a tick with the scheduler running needs: a running task whose
    /// priority names a ready list, and, when the tick reaches the next
    /// unblock time, every task it finds due with a priority naming one (a
    /// due task is moved to the ready list of its priority).
    pub open spec fn can_tick(self) -> bool {
        &&& self.current_tcb is Some
        &&& self.current_priority() < configMAX_PRIORITIES
        &&& self.ticked().tick_count >= self.next_task_unblock_time ==> self.ticked().due_ok(
            self.ticked().tick_count,
        )
    }

    /// Every task of the pending-ready list has a priority that names a
    /// ready list.
    pub open spec fn pending_ok(self) -> bool {
        forall|h: TaskHandle|
            self.valid_task(h) && self.container(event_item(h)) == Some(PENDING_READY_LIST) ==> (#[trigger] self.tcb(
                h,
            )).Priority < configMAX_PRIORITIES
    }

    /// What processing `n` ticks in turn needs: what each tick needs (see
    /// `can_tick`) in the state it meets.
    pub open spec fn can_process_ticks(self, n: nat) -> bool
        decreases n,
    {
        n == 0 || (self.can_tick() && self.process_one_tick().can_process_ticks((n - 1) as nat))
    }

    /// What `TaskResumeAll` needs to run without failing: a suspended
    /// scheduler; and, when the resume ends the outermost suspension of a
    /// kernel with tasks, a running task and ready-able priorities for the
    /// pending tasks it readies, then what processing the pended ticks needs
    /// in the state the readying leaves.
    pub open spec fn can_resume_all(self) -> bool {
        &&& self.scheduler_suspended > 0
        &&& (self.scheduler_suspended == 1 && self.current_number_of_tasks > 0) ==> {
            let s1 = KState { scheduler_suspended: 0, ..self };
            let (s2, moved) = s1.move_pending(false, s1.list(PENDING_READY_LIST as int).len());
            let s3 = if moved {
                s2.reset_next_unblock_time(portMAX_DELAY)
            } else {
                s2
            };
            &&& self.list(PENDING_READY_LIST as int).len() > 0 ==> {
                &&& self.current_tcb is Some
                &&& self.pending_ok()
            }
            &&& s3.pended_ticks > 0 ==> s3.can_process_ticks(s3.pended_ticks as nat)
        }
    }

    /// `TaskGetSchedulerState`.
    pub open spec fn scheduler_state(self) -> SchedulerState {
        if !self.scheduler_running {
            SchedulerState::NotStarted
        } else if self.scheduler_suspended == 0 {
            SchedulerState::Running
        } else {
            SchedulerState::Suspended
        }
    }
}


/// The highest ready priority depends only on the lists.
pub proof fn lemma_highest_same(a: KState, b: KState, p: int)
    requires
        a.lists == b.lists,
    ensures
        a.highest_ready_priority(p) == b.highest_ready_priority(p),
    decreases p,
{
    if p > 0 {
        lemma_highest_same(a, b, p - 1);
    }
}

/// Which due tasks are ready-able depends only on the task table and on
/// which list is the delayed list.
proof fn lemma_due_ok_same(a: KState, b: KState, tick: TickType)
    requires
        a.due_ok(tick),
        a.tasks == b.tasks,
        a.delayed_lists_swapped == b.delayed_lists_swapped,
    ensures
        b.due_ok(tick),
{
    assert forall|g: TaskHandle|
        b.valid_task(g) && b.container(state_item(g)) == Some(b.delayed_id()) && b.value(state_item(g)) <= tick
        implies (#[trigger] b.tcb(g)).Priority < configMAX_PRIORITIES by {
        assert(a.tcb(g) == b.tcb(g));
    }
}

/// Facts about a delayed task after it is made ready.
pub proof fn lemma_unblock_facts(s: KState, h: TaskHandle, d: int)
    requires
        s.wf(),
        s.tcb(h).Priority < configMAX_PRIORITIES,
        s.valid_task(h),
        d == DELAYED_LIST_A || d == DELAYED_LIST_B,
        s.container(state_item(h)) == Some(d as usize),
    ensures
        s.unblock_task(h).wf(),
        s.priorities_ok() ==> s.unblock_task(h).priorities_ok(),
        forall|g: TaskHandle| s.valid_task(g) ==> (#[trigger] s.unblock_task(h).tcb(g)).Priority == s.tcb(g).Priority,
        s.unblock_task(h).tasks.len() == s.tasks.len(),
        s.unblock_task(h).lists.len() == s.lists.len(),
        s.unblock_task(h).current_tcb == s.current_tcb,
        s.unblock_task(h).tcb(h).Priority == s.tcb(h).Priority,
        s.unblock_task(h).list(d).len() == s.list(d).len() - 1,
        s.unblock_task(h).container(state_item(h)) == Some(s.tcb(h).Priority as usize),
        s.current_tcb matches Some(c) ==> s.unblock_task(h).tcb(c).Priority == s.tcb(c).Priority,
        forall|q: ItemRef| s.valid_task(q.owner) && q.owner != h ==> #[trigger] s.unblock_task(h).item(q) == s.item(q),
{
    let st = state_item(h);
    let ev = event_item(h);
    lemma_unlink_facts(s, st);
    let s1 = s.unlink(st);
    let s2 = if s1.container(ev) is Some { s1.unlink(ev) } else { s1 };
    lemma_event_not_delayed(s1, ev);
    if s1.container(ev) is Some {
        lemma_unlink_facts(s1, ev);
        assert(s2.lists[d] == s1.lists[d]);
    }
    assert(s2.container(st) is None);
    assert(s2.tcb(h).Priority == s.tcb(h).Priority);
    assert(s2.can_ready(h));
    lemma_add_to_ready_facts(s2, h);
    assert(s.unblock_task(h).lists[d] == s2.lists[d]);
}

/// Facts about a pending task after it is made ready.
pub proof fn lemma_ready_pending_facts(s: KState, h: TaskHandle)
    requires
        s.wf(),
        s.tcb(h).Priority < configMAX_PRIORITIES,
        s.valid_task(h),
        s.container(event_item(h)) == Some(PENDING_READY_LIST),
    ensures
        s.ready_pending_task(h).wf(),
        s.priorities_ok() ==> s.ready_pending_task(h).priorities_ok(),
        forall|g: TaskHandle| s.valid_task(g) ==> (#[trigger] s.ready_pending_task(h).tcb(g)).Priority == s.tcb(g).Priority,
        s.ready_pending_task(h).container(event_item(h)) is None,
        s.ready_pending_task(h).container(state_item(h)) == Some(s.tcb(h).Priority as usize),
        s.ready_pending_task(h).tasks.len() == s.tasks.len(),
        s.ready_pending_task(h).lists.len() == s.lists.len(),
        s.ready_pending_task(h).current_tcb == s.current_tcb,
        s.ready_pending_task(h).tcb(h).Priority == s.tcb(h).Priority,
        s.ready_pending_task(h).list(PENDING_READY_LIST as int).len() == s.list(PENDING_READY_LIST as int).len() - 1,
        s.current_tcb matches Some(c) ==> s.ready_pending_task(h).tcb(c).Priority == s.tcb(c).Priority,
        forall|q: ItemRef| s.valid_task(q.owner) && q.owner != h ==> #[trigger] s.ready_pending_task(h).item(q) == s.item(q),
{
    let st = state_item(h);
    let ev = event_item(h);
    let p = PENDING_READY_LIST as int;
    lemma_unlink_facts(s, st);
    let s1 = s.unlink(st);
    if s.container(st) is Some {
        let c = s.container(st).unwrap() as int;
        assert(s.list(c).contains(st));
        let i = choose|i: int| 0 <= i < s.list(c).len() && s.list(c)[i] == st;
        assert(s.lists[c].items[i] == st);
        assert(c != p);
    }
    assert(s1.lists[p] == s.lists[p]);
    lemma_unlink_facts(s1, ev);
    let s2 = s1.unlink(ev);
    assert(s2.container(st) is None);
    assert(s2.can_ready(h));
    lemma_add_to_ready_facts(s2, h);
    assert(s.ready_pending_task(h).lists[p] == s2.lists[p]);
}

/// One pass of the idle task's loop: reclaim tasks waiting for termination.
pub fn IdleTask() {
    CheckTasksWaitingTermination();
}

/// Starts the scheduler: creates the idle task, then sets up the tick.
/// Creating the idle task fails with the port's error (see
/// `TCB::INITIALIZE`), which is returned with the kernel left as it was.
pub fn TaskStartScheduler(k: &mut Kernel) -> (r: Result<(), FreeRtosError>)
    requires
        old(k).wf(),
    ensures
        r == Err::<(), FreeRtosError>(FreeRtosError::PortError),
        final(k)@ == old(k)@,
{
    match CreateIdleTask(k) {
        Ok(_) => {},
        Err(e) => {
            return Err(e);
        },
    }
    InitializeScheduler(k);
    Ok(())
}

/// Creates the idle task with a fresh control block. Setting up the
/// block fails on this port (see `TCB::INITIALIZE`); a kernel without its
/// idle task cannot run, so the error goes back to the caller, which treats
/// it as fatal, and the kernel is left as it was.
pub fn CreateIdleTask(k: &mut Kernel) -> (r: Result<TaskHandle, FreeRtosError>)
    requires
        old(k).wf(),
    ensures
        r == Err::<TaskHandle, FreeRtosError>(FreeRtosError::PortError),
        final(k)@ == old(k)@,
{
    broadcast use vstd::layout::layout_of_primitives;
    let tcb = TCB::new();
    assert(vstd::layout::size_of::<StackType>() * 8 == usize::BITS);
    tcb.INITIALIZE(k, IdleTask)
}

/// Frees the memory of deleted tasks; no task memory is kept, so there is
/// nothing to free.
pub fn CheckTasksWaitingTermination() {
}

/// Creates the timer service task; no software timers are provided.
pub fn CreateTimerTask() {
}

/// Second half of starting the scheduler: no task is due before the
/// largest tick value, the scheduler runs, the tick count restarts at 0,
/// and the port starts the tick.
pub fn InitializeScheduler(k: &mut Kernel)
    requires
        old(k).wf(),
    ensures
        final(k).wf(),
        final(k)@ == (KState {
            next_task_unblock_time: portMAX_DELAY,
            scheduler_running: true,
            tick_count: 0,
            ..old(k)@
        }),
{
    let ghost s0 = k@;
    k.next_task_unblock_time = portMAX_DELAY;
    k.scheduler_running = true;
    k.tick_count = 0;
    if crate::port::port_start_scheduler() != crate::projdefs::pdFALSE {
    }
    proof {
        lemma_wf_same_items(s0, k@);
    }
}

/// Task control block `t` with both list items taken out of their lists,
/// their values kept, every other field as it was.
pub open spec fn unlinked_tcb(t: TCB) -> TCB {
    TCB {
        StateListItem: ListItem { value: t.StateListItem.value, container: None },
        EventListItem: ListItem { value: t.EventListItem.value, container: None },
        ..t
    }
}

/// Unlinking an item rewrites only that item of its task.
proof fn lemma_unlink_tasks(s: KState, r: ItemRef)
    requires
        s.valid_task(r.owner),
    ensures
        s.unlink(r).tasks == s.tasks.update(
            r.owner.0 as int,
            crate::global::with_item(s.tcb(r.owner), r.kind, ListItem { value: s.value(r), container: None }),
        ),
{
    let t = s.tcb(r.owner);
    let it = ListItem { value: s.value(r), container: None };
    if s.container(r) is None {
        assert(crate::global::with_item(t, r.kind, it) == t);
        assert(s.tasks.update(r.owner.0 as int, t) =~= s.tasks);
    }
}

/// Ends the scheduler: every created task is deleted (taken out of every
/// list), no task is counted or running any more, and the scheduler stops;
/// then the port stops the tick. The control blocks stay in the task table,
/// with their list items in no list.
pub fn TaskEndScheduler(k: &mut Kernel)
    requires
        old(k).wf(),
    ensures
        final(k).wf(),
        final(k)@.tasks == old(k)@.tasks.map_values(|t: TCB| unlinked_tcb(t)),
        final(k)@.lists.len() == old(k)@.lists.len(),
        forall|l: int| 0 <= l < final(k)@.lists.len() ==> #[trigger] final(k)@.lists[l] == (ListModel {
            items: Seq::empty(),
            index: 0,
        }),
        final(k)@ == (KState {
            tasks: final(k)@.tasks,
            lists: final(k)@.lists,
            scheduler_running: false,
            current_tcb: None,
            current_number_of_tasks: 0,
            ..old(k)@
        }),
{
    let ghost s0 = k@;
    let n = k.tasks.len();
    let mut i: usize = 0;
    while i < n
        invariant
            k.wf(),
            i <= n,
            n == s0.tasks.len(),
            k@.tasks.len() == n,
            k@.lists.len() == s0.lists.len(),
            forall|j: int| 0 <= j < i ==> #[trigger] k@.tasks[j] == unlinked_tcb(s0.tasks[j]),
            forall|j: int| i <= j < n ==> #[trigger] k@.tasks[j] == s0.tasks[j],
            k@ == (KState { tasks: k@.tasks, lists: k@.lists, ..s0 }),
        decreases n - i,
    {
        let h = TaskHandle(i);
        let st = ItemRef { owner: h, kind: ItemKind::State };
        let ev = ItemRef { owner: h, kind: ItemKind::Event };
        let ghost s = k@;
        proof {
            lemma_unlink_facts(s, st);
            lemma_unlink_tasks(s, st);
            lemma_unlink_facts(s.unlink(st), ev);
            lemma_unlink_tasks(s.unlink(st), ev);
        }
        k.unlink_item(st);
        k.unlink_item(ev);
        proof {
            assert(k@.tasks[i as int] == unlinked_tcb(s0.tasks[i as int]));
            assert forall|j: int| 0 <= j < i + 1 implies #[trigger] k@.tasks[j] == unlinked_tcb(s0.tasks[j]) by {
                if j < i {
                    assert(k@.tasks[j] == s.tasks[j]);
                }
            }
            assert forall|j: int| i + 1 <= j < n implies #[trigger] k@.tasks[j] == s0.tasks[j] by {
                assert(k@.tasks[j] == s.tasks[j]);
            }
        }
        i = i + 1;
    }
    let ghost s1 = k@;
    proof {
        assert(s1.tasks =~= s0.tasks.map_values(|t: TCB| unlinked_tcb(t)));
        assert forall|l: int| 0 <= l < s1.lists.len() implies #[trigger] s1.lists[l] == (ListModel {
            items: Seq::empty(),
            index: 0,
        }) by {
            assert(s1.lists[l].wf());
            if s1.lists[l].items.len() > 0 {
                let r = s1.lists[l].items[0];
                assert(s1.valid_task(r.owner));
                assert(s1.container(r) == Some(l as usize));
                assert(s1.tasks[r.owner.0 as int] == unlinked_tcb(s0.tasks[r.owner.0 as int]));
            }
            assert(s1.lists[l].items =~= Seq::<ItemRef>::empty());
        }
    }
    k.current_tcb = None;
    k.current_number_of_tasks = 0;
    k.scheduler_running = false;
    crate::port::port_end_scheduler();
    proof {
        lemma_wf_same_items(s1, k@);
    }
}

/// Suspends the scheduler one level deeper; no context switch happens
/// until as many `TaskResumeAll` calls.
pub fn TaskSuspendAll(k: &mut Kernel)
    requires
        old(k).wf(),
        old(k)@.scheduler_suspended < UBaseType::MAX,
    ensures
        final(k).wf(),
        final(k)@ == (KState { scheduler_suspended: (old(k)@.scheduler_suspended + 1) as UBaseType, ..old(k)@ }),
{
    let ghost s0 = k@;
    k.scheduler_suspended = k.scheduler_suspended + 1;
    proof {
        lemma_wf_same_items(s0, k@);
    }
}

/// Advances the tick count by `ticks_to_jump` after a tickless idle period,
/// which must not pass the next unblock time.
pub fn TaskStepTick(k: &mut Kernel, ticks_to_jump: TickType)
    requires
        old(k).wf(),
        old(k)@.tick_count + ticks_to_jump <= old(k)@.next_task_unblock_time,
    ensures
        final(k).wf(),
        final(k)@ == (KState { tick_count: (old(k)@.tick_count + ticks_to_jump) as TickType, ..old(k)@ }),
{
    let ghost s0 = k@;
    let cur_tick_count = k.tick_count;
    k.tick_count = cur_tick_count + ticks_to_jump;
    proof {
        lemma_wf_same_items(s0, k@);
    }
}

/// The scheduler's state: not started, running, or suspended.
pub fn TaskGetSchedulerState(k: &Kernel) -> (r: SchedulerState)
    ensures
        r == k@.scheduler_state(),
{
    if !k.scheduler_running {
        SchedulerState::NotStarted
    } else {
        if k.scheduler_suspended == 0 {
            SchedulerState::Running
        } else {
            SchedulerState::Suspended
        }
    }
}

/// Selects the task to run: the next task, in round-robin order, of the
/// highest non-empty ready list at or below the top ready priority.
pub fn TaskSelectHighestPriorityTask(k: &mut Kernel)
    requires
        old(k).wf(),
        old(k)@.can_select(),
    ensures
        final(k).wf(),
        final(k)@ == old(k)@.select_highest(),
{
    let ghost s0 = k@;
    let mut top_priority: UBaseType = k.top_ready_priority;
    while k.list_is_empty(top_priority as usize)
        invariant
            k@ == s0,
            s0.wf(),
            s0.can_select(),
            top_priority <= s0.top_ready_priority,
            s0.highest_ready_priority(top_priority as int) == s0.highest_ready_priority(s0.top_ready_priority as int),
        decreases top_priority,
    {
        top_priority = top_priority - 1;
    }
    let next_task = k.get_owner_of_next_entry(top_priority as usize);
    let ghost s1 = k@;
    k.current_tcb = Some(next_task);
    k.top_ready_priority = top_priority;
    proof {
        assert(k@ =~= s0.select_highest());
        lemma_wf_same_items(s1, k@);
    }
}

/// Switches context: with the scheduler suspended, leaves a yield pending;
/// otherwise clears the pending yield and selects the task to run.
pub fn TaskSwitchContext(k: &mut Kernel)
    requires
        old(k).wf(),
        old(k)@.scheduler_suspended == 0 ==> old(k)@.can_select(),
    ensures
        final(k).wf(),
        final(k)@ == old(k)@.switch_context(),
{
    let ghost s0 = k@;
    if k.scheduler_suspended > 0 {
        k.yield_pending = true;
        proof {
            lemma_wf_same_items(s0, k@);
        }
    } else {
        k.yield_pending = false;
        proof {
            lemma_wf_same_items(s0, k@);
            lemma_highest_same(s0, k@, s0.top_ready_priority as int);
        }
        TaskSelectHighestPriorityTask(k);
    }
}

/// Charges the running task for the time since the last switch, given the
/// run-time counter `total_run_time`, and starts timing the next task.
pub fn GenerateContextSwitchStats(k: &mut Kernel, total_run_time: u32)
    requires
        old(k).wf(),
        total_run_time > old(k)@.task_switched_in_time ==> {
            &&& old(k)@.current_tcb is Some
            &&& old(k)@.tcb(old(k)@.current_tcb.unwrap()).RuntimeCounter + total_run_time <= u32::MAX
        },
    ensures
        final(k).wf(),
        final(k)@ == ({
            let s1 = KState { total_run_time: total_run_time, ..old(k)@ };
            let s2 = if total_run_time > s1.task_switched_in_time {
                let c = s1.current_tcb.unwrap();
                s1.set_tcb(
                    c,
                    TCB {
                        RuntimeCounter: (s1.tcb(c).RuntimeCounter + total_run_time - s1.task_switched_in_time) as u32,
                        ..s1.tcb(c)
                    },
                )
            } else {
                s1
            };
            KState { task_switched_in_time: total_run_time, ..s2 }
        }),
{
    let ghost s0 = k@;
    k.total_run_time = total_run_time;
    proof {
        lemma_wf_same_items(s0, k@);
    }
    let task_switched_in_time = k.task_switched_in_time;
    if total_run_time > task_switched_in_time {
        let current_task = k.current_tcb.unwrap();
        let old_run_time = current_task.GetRunTime(k);
        current_task.SetRunTime(k, old_run_time + total_run_time - task_switched_in_time);
    }
    let ghost s2 = k@;
    k.task_switched_in_time = total_run_time;
    proof {
        lemma_wf_same_items(s2, k@);
        assert(k@.tasks =~= ({
            let s1 = KState { total_run_time: total_run_time, ..s0 };
            let s2 = if total_run_time > s1.task_switched_in_time {
                let c = s1.current_tcb.unwrap();
                s1.set_tcb(
                    c,
                    TCB {
                        RuntimeCounter: (s1.tcb(c).RuntimeCounter + total_run_time - s1.task_switched_in_time) as u32,
                        ..s1.tcb(c)
                    },
                )
            } else {
                s1
            };
            KState { task_switched_in_time: total_run_time, ..s2 }
        }).tasks);
    }
}

/// Advances the tick: with the scheduler running, increments the tick
/// count (swapping the delayed lists when it wraps), wakes every delayed
/// task that is due, and reports whether a context switch is required;
/// with the scheduler suspended, counts a pended tick and reports whether a
/// yield is pending.
pub fn TaskIncrementTick(k: &mut Kernel) -> (switch_required: bool)
    requires
        old(k).wf(),
        old(k)@.scheduler_suspended == 0 ==> old(k)@.can_tick(),
        old(k)@.scheduler_suspended > 0 ==> old(k)@.pended_ticks < UBaseType::MAX,
    ensures
        final(k).wf(),
        (final(k)@, switch_required) == old(k)@.increment_tick(),
        old(k)@.priorities_ok() ==> final(k)@.priorities_ok(),
        final(k)@.current_tcb == old(k)@.current_tcb,
        final(k)@.scheduler_suspended == old(k)@.scheduler_suspended,
        old(k)@.scheduler_suspended == 0 ==> final(k)@.pended_ticks == old(k)@.pended_ticks,
{
    let ghost s0 = k@;
    let mut switch_required = false;
    if k.scheduler_suspended == 0 {
        let const_tick_count = k.tick_count.wrapping_add(1);
        k.tick_count = const_tick_count;
        proof {
            lemma_wf_same_items(s0, k@);
        }
        if const_tick_count == 0 {
            k.switch_delayed_lists();
        }
        let ghost s2 = k@;
        proof {
            assert(s2 == s0.ticked());
            assert(s2.current_priority() < configMAX_PRIORITIES);
            if s0.priorities_ok() {
                lemma_priorities_same(s0, s2);
            }
        }
        if const_tick_count >= k.next_task_unblock_time {
            let ghost d = s2.delayed_id();
            let ghost expected = s2.unblock_delayed(const_tick_count, false, s2.list(d as int).len());
            loop
                invariant_except_break
                    k@.unblock_delayed(const_tick_count, switch_required, k@.list(d as int).len()) == expected,
                invariant
                    k.wf(),
                    k@.due_ok(const_tick_count),
                    k@.current_priority() < configMAX_PRIORITIES,
                    k@.delayed_lists_swapped == s2.delayed_lists_swapped,
                    s0.priorities_ok() ==> k@.priorities_ok(),
                    k@.current_tcb == s0.current_tcb,
                    s0.current_tcb is Some,
                    k@.delayed_id() == d,
                    d == DELAYED_LIST_A || d == DELAYED_LIST_B,
                    k@.scheduler_suspended == 0,
                    k@.pended_ticks == s0.pended_ticks,
                ensures
                    (k@, switch_required) == expected,
                decreases k@.list(d as int).len(),
            {
                let dl = k.delayed_id();
                if k.list_is_empty(dl) {
                    let ghost s = k@;
                    k.next_task_unblock_time = portMAX_DELAY;
                    proof {
                        lemma_wf_same_items(s, k@);
                        if s.priorities_ok() {
                            lemma_priorities_same(s, k@);
                        }
                        lemma_due_ok_same(s, k@, const_tick_count);
                        assert(k@ =~= KState { next_task_unblock_time: portMAX_DELAY, ..s });
                    }
                    break;
                } else {
                    let ghost s = k@;
                    let task_handle = k.get_owner_of_head_entry(dl);
                    let st = ItemRef { owner: task_handle, kind: ItemKind::State };
                    let ev = ItemRef { owner: task_handle, kind: ItemKind::Event };
                    proof {
                        assert(s.lists[d as int].items[0] == s.list(d as int)[0]);
                        assert(s.list(d as int)[0] == st);
                    }
                    let item_value = k.value_of(st);
                    if const_tick_count < item_value {
                        k.next_task_unblock_time = item_value;
                        proof {
                            lemma_wf_same_items(s, k@);
                            if s.priorities_ok() {
                                lemma_priorities_same(s, k@);
                            }
                            lemma_due_ok_same(s, k@, const_tick_count);
                            assert(k@ =~= KState { next_task_unblock_time: item_value, ..s });
                        }
                        break;
                    }
                    proof {
                        assert(s.tcb(task_handle).Priority < configMAX_PRIORITIES);
                        lemma_unblock_facts(s, task_handle, d as int);
                        lemma_unlink_facts(s, st);
                        lemma_event_not_delayed(s.unlink(st), ev);
                        if s.unlink(st).container(ev) is Some {
                            lemma_unlink_facts(s.unlink(st), ev);
                        }
                    }
                    k.unlink_item(st);
                    if k.container_of(ev).is_some() {
                        k.unlink_item(ev);
                    }
                    let _r = task_handle.AddTaskToReadyList(k);
                    proof {
                        assert(k@ == s.unblock_task(task_handle));
                        let u = s.unblock_task(task_handle);
                        assert forall|g: TaskHandle|
                            u.valid_task(g) && u.container(state_item(g)) == Some(u.delayed_id()) && u.value(
                                state_item(g),
                            ) <= const_tick_count implies (#[trigger] u.tcb(g)).Priority < configMAX_PRIORITIES by {
                            assert(s.valid_task(g));
                            assert(u.tcb(g).Priority == s.tcb(g).Priority);
                            if g != task_handle {
                                assert(u.item(state_item(g)) == s.item(state_item(g)));
                            }
                        }
                        assert(u.tcb(s0.current_tcb.unwrap()).Priority == s.tcb(s0.current_tcb.unwrap()).Priority);
                    }
                    let cur = k.current_tcb.unwrap();
                    if task_handle.GetPriority(k) >= cur.GetPriority(k) {
                        switch_required = true;
                    }
                }
            }
        }
        let ghost s3 = k@;
        let cur = k.current_tcb.unwrap();
        let cur_task_pri = cur.GetPriority(k);
        if k.list_len(cur_task_pri as usize) > 1 {
            switch_required = true;
        }
    } else {
        k.pended_ticks = k.pended_ticks + 1;
        proof {
            lemma_wf_same_items(s0, k@);
        }
        if k.yield_pending {
            switch_required = true;
        }
        proof {
            assert(k@ =~= KState { pended_ticks: (s0.pended_ticks + 1) as UBaseType, ..s0 });
        }
    }
    proof {
        if s0.scheduler_suspended > 0 && s0.priorities_ok() {
            assert forall|g: TaskHandle| k@.valid_task(g) implies (#[trigger] k@.tcb(g)).Priority < configMAX_PRIORITIES by {
                assert(k@.tcb(g) == s0.tcb(g));
            }
        }
    }
    switch_required
}

/// Moves every task of the pending-ready list to its ready list, leaving a
/// yield pending for each one at least as urgent as the running task;
/// returns whether any task was moved.
fn MoveTasksToReadyList(k: &mut Kernel) -> (has_unblocked_task: bool)
    requires
        old(k).wf(),
        old(k)@.list(PENDING_READY_LIST as int).len() > 0 ==> old(k)@.current_tcb is Some,
        old(k)@.list(PENDING_READY_LIST as int).len() > 0 ==> old(k)@.pending_ok(),
    ensures
        final(k).wf(),
        (final(k)@, has_unblocked_task) == old(k)@.move_pending(false, old(k)@.list(PENDING_READY_LIST as int).len()),
        old(k)@.priorities_ok() ==> final(k)@.priorities_ok(),
        final(k)@.current_tcb == old(k)@.current_tcb,
        final(k)@.scheduler_suspended == old(k)@.scheduler_suspended,
        final(k)@.pended_ticks == old(k)@.pended_ticks,
        final(k)@.current_number_of_tasks == old(k)@.current_number_of_tasks,
{
    let ghost s0 = k@;
    let ghost expected = s0.move_pending(false, s0.list(PENDING_READY_LIST as int).len());
    let mut has_unblocked_task = false;
    if k.list_is_empty(PENDING_READY_LIST) {
        return false;
    }
    while !k.list_is_empty(PENDING_READY_LIST)
        invariant
            k.wf(),
            k@.pending_ok(),
            s0.priorities_ok() ==> k@.priorities_ok(),
            k@.current_tcb == s0.current_tcb,
            s0.current_tcb is Some,
            k@.scheduler_suspended == s0.scheduler_suspended,
            k@.pended_ticks == s0.pended_ticks,
            k@.current_number_of_tasks == s0.current_number_of_tasks,
            k@.move_pending(has_unblocked_task, k@.list(PENDING_READY_LIST as int).len()) == expected,
        decreases k@.list(PENDING_READY_LIST as int).len(),
    {
        let ghost s = k@;
        has_unblocked_task = true;
        let task_handle = k.get_owner_of_head_entry(PENDING_READY_LIST);
        let st = ItemRef { owner: task_handle, kind: ItemKind::State };
        let ev = ItemRef { owner: task_handle, kind: ItemKind::Event };
        proof {
            assert(s.lists[PENDING_READY_LIST as int].items[0] == s.list(PENDING_READY_LIST as int)[0]);
            assert(s.list(PENDING_READY_LIST as int)[0] == ev);
            assert(s.tcb(task_handle).Priority < configMAX_PRIORITIES);
            lemma_ready_pending_facts(s, task_handle);
            lemma_unlink_facts(s, st);
            lemma_unlink_facts(s.unlink(st), ev);
        }
        k.unlink_item(st);
        k.unlink_item(ev);
        let _r = task_handle.AddTaskToReadyList(k);
        proof {
            assert(k@ == s.ready_pending_task(task_handle));
            let u = k@;
            assert forall|g: TaskHandle|
                u.valid_task(g) && u.container(event_item(g)) == Some(PENDING_READY_LIST) implies (#[trigger] u.tcb(
                    g,
                )).Priority < configMAX_PRIORITIES by {
                assert(s.valid_task(g));
                assert(u.tcb(g).Priority == s.tcb(g).Priority);
                if g != task_handle {
                    assert(u.item(event_item(g)) == s.item(event_item(g)));
                }
            }
        }
        let cur = k.current_tcb.unwrap();
        if task_handle.GetPriority(k) >= cur.GetPriority(k) {
            let ghost s1 = k@;
            k.yield_pending = true;
            proof {
                lemma_wf_same_items(s1, k@);
                if s1.priorities_ok() {
                    lemma_priorities_same(s1, k@);
                }
                assert forall|g: TaskHandle|
                    k@.valid_task(g) && k@.container(event_item(g)) == Some(PENDING_READY_LIST) implies (#[trigger] k@.tcb(
                        g,
                    )).Priority < configMAX_PRIORITIES by {
                    assert(s1.tcb(g) == k@.tcb(g));
                }
                assert(k@ =~= KState { yield_pending: true, ..s1 });
            }
        }
    }
    has_unblocked_task
}

/// Records when the next delayed task must wake: the wake time of the head
/// of the delayed list, or `portMAX_DELAY` when no task is delayed.
fn ResetNextTaskUnblockTime(k: &mut Kernel)
    requires
        old(k).wf(),
    ensures
        final(k).wf(),
        final(k)@ == old(k)@.reset_next_unblock_time(portMAX_DELAY),
{
    let ghost s0 = k@;
    let delayed = k.delayed_id();
    if k.list_is_empty(delayed) {
        k.next_task_unblock_time = portMAX_DELAY;
    } else {
        let task_handle = k.get_owner_of_head_entry(delayed);
        let v = k.value_of(ItemRef { owner: task_handle, kind: ItemKind::State });
        k.next_task_unblock_time = v;
    }
    proof {
        assert(k@ =~= s0.reset_next_unblock_time(portMAX_DELAY));
        lemma_wf_same_items(s0, k@);
    }
}

/// Processes the ticks that arrived while the scheduler was suspended, one
/// `TaskIncrementTick` each (a required switch is left as a pending yield),
/// then clears the count.
fn ProcessPendedTicks(k: &mut Kernel)
    requires
        old(k).wf(),
        old(k)@.pended_ticks > 0 ==> old(k)@.can_process_ticks(old(k)@.pended_ticks as nat),
        old(k)@.scheduler_suspended == 0,
    ensures
        final(k).wf(),
        final(k)@ == old(k)@.process_pended_ticks(),
{
    let ghost s0 = k@;
    let mut pended_counts = k.pended_ticks;
    if pended_counts > 0 {
        let ghost expected = s0.process_ticks(pended_counts as nat);
        loop
            invariant_except_break
                pended_counts > 0,
                k@.process_ticks(pended_counts as nat) == expected,
            invariant
                k.wf(),
                k@.can_process_ticks(pended_counts as nat),
                k@.current_tcb == s0.current_tcb,
                k@.scheduler_suspended == 0,
            ensures
                k@ == expected,
            decreases pended_counts,
        {
            let ghost s = k@;
            if TaskIncrementTick(k) {
                let ghost s1 = k@;
                k.yield_pending = true;
                proof {
                    lemma_wf_same_items(s1, k@);
                    assert(k@ =~= KState { yield_pending: true, ..s1 });
                }
            }
            proof {
                assert(k@ == s.process_one_tick());
            }
            pended_counts = pended_counts - 1;
            if pended_counts <= 0 {
                break;
            }
        }
        let ghost s2 = k@;
        k.pended_ticks = 0;
        proof {
            lemma_wf_same_items(s2, k@);
            assert(k@ =~= KState { pended_ticks: 0, ..s2 });
        }
    }
}

/// Resumes the scheduler after `TaskSuspendAll`. When this ends the last
/// suspension and tasks exist, readies the tasks readied meanwhile (and
/// recomputes the next unblock time if there were any), processes the
/// pended ticks, and returns whether a yield is pending; otherwise returns
/// false.
pub fn TaskResumeAll(k: &mut Kernel) -> (already_yielded: bool)
    requires
        old(k).wf(),
        old(k)@.can_resume_all(),
    ensures
        final(k).wf(),
        (final(k)@, already_yielded) == old(k)@.resume_all(),
{
    let ghost s0 = k@;
    let mut already_yielded = false;
    k.scheduler_suspended = k.scheduler_suspended - 1;
    let ghost s1 = k@;
    proof {
        lemma_wf_same_items(s0, s1);
        if s0.priorities_ok() {
            lemma_priorities_same(s0, s1);
        }
        if s0.scheduler_suspended == 1 && s0.current_number_of_tasks > 0 && s0.list(PENDING_READY_LIST as int).len() > 0 {
            assert forall|g: TaskHandle|
                s1.valid_task(g) && s1.container(event_item(g)) == Some(PENDING_READY_LIST) implies (#[trigger] s1.tcb(
                    g,
                )).Priority < configMAX_PRIORITIES by {
                assert(s0.tcb(g) == s1.tcb(g));
            }
        }
    }
    if k.scheduler_suspended == 0 {
        if k.current_number_of_tasks > 0 {
            if MoveTasksToReadyList(k) {
                let ghost s2 = k@;
                ResetNextTaskUnblockTime(k);
                proof {
                    if s2.priorities_ok() {
                        lemma_priorities_same(s2, k@);
                    }
                }
            }
            ProcessPendedTicks(k);
            if k.yield_pending {
                already_yielded = true;
            }
        }
    }
    already_yielded
}
} // verus!
