use vstd::prelude::*;
use crate::global::KState;
use crate::port::UBaseType;
use crate::queue::{
    QModel, QueueSlot, QueueType, StepOutcome, WaitState, new_queue_model, receive_step, can_receive,
    can_send,
    send_step, reset_queue, fresh_wait, is_mutex_type, unlock_queue, queueSEND_TO_BACK, queueOVERWRITE,
    queueUNLOCKED,
};
use crate::semaphore::{give_recursive, take_recursive};
use crate::queue::{Attempt, can_reset};
use crate::config::configMAX_PRIORITIES;
use crate::tasks::{state_item, event_item};
use crate::tasks::{TaskHandle, TCB};
use crate::list::{ItemRef, ItemKind, ListItem, position};
use crate::global::{item_of, with_item, insert_pos, lemma_insert_pos};

verus! {

/// Law: a message sent to the back of a new queue is what the next receive
/// reads, whatever happened in the kernel in between; the send counts one
/// message and the receive takes it, leaving none.
pub proof fn law_send_then_receive<T>(
    k1: KState,
    k2: KState,
    n: UBaseType,
    lists: nat,
    x: T,
    w1: WaitState,
    w2: WaitState,
)
    requires
        n >= 1,
    ensures
        ({
            let q = new_queue_model::<T>(n, QueueType::Base, lists);
            let (_k, q1, _w, o1) = send_step(k1, q, x, w1, queueSEND_TO_BACK);
            let (_k2, q2, _w2, o2) = receive_step(k2, q1, w2, false);
            &&& o1 == StepOutcome::Success
            &&& q1.messages_waiting == 1
            &&& o2 == StepOutcome::Success
            &&& q1.queue[q1.read_index() as int] == QueueSlot::Item(x)
            &&& q2.messages_waiting == 0
        }),
{
    let q = new_queue_model::<T>(n, QueueType::Base, lists);
    let q1 = q.copy_to(x, queueSEND_TO_BACK, k1.current_tcb);
    assert(q1.queue =~= seq![QueueSlot::Item(x)]);
}

/// Queue `q` after the items of `items` are sent to its back in turn, the
/// send of `items[i]` made in kernel state `ks[i]` with wait `ws[i]`.
pub open spec fn sent_in_turn<T>(ks: Seq<KState>, q: QModel<T>, items: Seq<T>, ws: Seq<WaitState>) -> QModel<T>
    decreases items.len(),
{
    if items.len() == 0 {
        q
    } else {
        let m = items.len() - 1;
        send_step(ks[m], sent_in_turn(ks, q, items.drop_last(), ws), items[m], ws[m], queueSEND_TO_BACK).1
    }
}

/// Queue `q` after `j` receives in turn, receive `i` made in kernel state
/// `ks[i]` with wait `ws[i]`.
pub open spec fn received_in_turn<T>(ks: Seq<KState>, q: QModel<T>, j: nat, ws: Seq<WaitState>) -> QModel<T>
    decreases j,
{
    if j == 0 {
        q
    } else {
        let i = j - 1;
        receive_step(ks[i], received_in_turn(ks, q, (j - 1) as nat, ws), ws[i], false).1
    }
}

/// The shape of a new queue of `n` slots after `items` were sent to its
/// back: the items in order, written up to their count.
proof fn lemma_sent_shape<T>(ks: Seq<KState>, n: UBaseType, t: QueueType, lists: nat, items: Seq<T>, ws: Seq<WaitState>)
    requires
        n >= 1,
        items.len() <= n,
        !is_mutex_type(t),
    ensures
        ({
            let qm = sent_in_turn(ks, new_queue_model::<T>(n, t, lists), items, ws);
            &&& qm.queue == items.map_values(|x: T| QueueSlot::Item(x))
            &&& qm.write_to == (if items.len() == n { 0 } else { items.len() })
            &&& qm.head == 0
            &&& qm.tail == n
            &&& qm.length == n
            &&& qm.queue_union == n - 1
            &&& qm.messages_waiting == items.len()
            &&& qm.queue_type == t
        }),
    decreases items.len(),
{
    let q = new_queue_model::<T>(n, t, lists);
    if items.len() > 0 {
        let m = items.len() - 1;
        let prev = items.drop_last();
        lemma_sent_shape(ks, n, t, lists, prev, ws);
        let qp = sent_in_turn(ks, q, prev, ws);
        let qm = qp.copy_to(items[m], queueSEND_TO_BACK, ks[m].current_tcb);
        assert(qm.queue =~= items.map_values(|x: T| QueueSlot::Item(x)));
    } else {
        assert(q.queue =~= items.map_values(|x: T| QueueSlot::Item(x)));
    }
}

/// Where the receives from a queue of `n` slots holding `m` messages, whose
/// last read was the last slot, stand after `j` of them.
proof fn lemma_receive_positions<T>(ks: Seq<KState>, q: QModel<T>, ws: Seq<WaitState>, n: UBaseType, m: nat, j: nat)
    requires
        n >= 1,
        j <= m <= n,
        q.head == 0,
        q.tail == n,
        q.queue_union == n - 1,
        q.messages_waiting == m,
        q.queue_type == QueueType::Base,
    ensures
        ({
            let qj = received_in_turn(ks, q, j, ws);
            &&& j < n ==> qj.read_index() == j
            &&& qj.queue == q.queue
            &&& qj.head == 0
            &&& qj.tail == n
            &&& qj.queue_union == (if j == 0 { n - 1 } else { j - 1 })
            &&& qj.messages_waiting == m - j
            &&& qj.queue_type == QueueType::Base
        }),
    decreases j,
{
    if j > 0 {
        lemma_receive_positions(ks, q, ws, n, m, (j - 1) as nat);
    }
}

/// Law: a queue keeps the order of what is sent to its back. After up to
/// as many items as a new queue has slots are sent to its back in turn,
/// whatever the kernel does in between, the receives that follow succeed
/// and read them in the order they were sent. The order is not kept in
/// general: the storage inserts at the write position, shifting the slots
/// after it, so once the write position wraps to the head a send moves the
/// unread slots (`law_send_stores_item` states what every send stores).
pub proof fn law_fifo<T>(
    ks: Seq<KState>,
    ws: Seq<WaitState>,
    rks: Seq<KState>,
    rws: Seq<WaitState>,
    n: UBaseType,
    lists: nat,
    items: Seq<T>,
)
    requires
        n >= 1,
        items.len() <= n,
    ensures
        ({
            let qm = sent_in_turn(ks, new_queue_model::<T>(n, QueueType::Base, lists), items, ws);
            forall|j: nat| j < items.len() ==> {
                let qj = #[trigger] received_in_turn(rks, qm, j, rws);
                &&& receive_step(rks[j as int], qj, rws[j as int], false).3 == StepOutcome::Success
                &&& qj.queue[qj.read_index() as int] == QueueSlot::Item(items[j as int])
            }
        }),
{
    lemma_sent_shape::<T>(ks, n, QueueType::Base, lists, items, ws);
    let qm = sent_in_turn(ks, new_queue_model::<T>(n, QueueType::Base, lists), items, ws);
    assert forall|j: nat| j < items.len() implies {
        let qj = #[trigger] received_in_turn(rks, qm, j, rws);
        &&& receive_step(rks[j as int], qj, rws[j as int], false).3 == StepOutcome::Success
        &&& qj.queue[qj.read_index() as int] == QueueSlot::Item(items[j as int])
    } by {
        lemma_receive_positions(rks, qm, rws, n, items.len(), j);
    }
}

/// Law: unlinking an item undoes linking it. An item in no list that is
/// linked into a list at any position and then unlinked leaves the kernel
/// state exactly as it was, cursor included.
pub proof fn law_link_then_unlink(s: KState, l: usize, pos: int, r: ItemRef)
    requires
        s.wf(),
        s.valid_task(r.owner),
        l < s.lists.len(),
        s.container(r) is None,
        0 <= pos <= s.list(l as int).len(),
    ensures
        s.link(l, pos, r).unlink(r) == s,
{
    let s1 = s.link(l, pos, r);
    let items = s.list(l as int);
    assert(!items.contains(r)) by {
        if items.contains(r) {
            let i = choose|i: int| 0 <= i < items.len() && items[i] == r;
            assert(s.lists[l as int].items[i] == r);
        }
    }
    let ins = items.insert(pos, r);
    assert(s1.list(l as int) == ins);
    assert(s1.container(r) == Some(l)) by {
        crate::tasks::lemma_link_facts(s, l, pos, r);
    }
    let p = position(ins, r);
    assert(ins[pos] == r);
    assert(p == pos) by {
        assert(0 <= p < ins.len() && ins[p] == r);
        if p < pos {
            assert(items[p] == r);
        } else if p > pos {
            assert(items[p - 1] == r);
        }
    }
    let s2 = s1.unlink(r);
    assert(s2.lists[l as int].items =~= items);
    assert(s2.lists[l as int] == s.lists[l as int]);
    assert(s2.lists =~= s.lists);
    let o = r.owner.0 as int;
    let t = s.tasks[o];
    assert(with_item(t, r.kind, item_of(t, r.kind)) == t);
    assert(s2.tasks =~= s.tasks);
    assert(s2 =~= s);
}

/// Law: unlinking an item undoes `vListInsertEnd` and `vListInsert`.
pub proof fn law_insert_then_unlink(s: KState, l: usize, r: ItemRef)
    requires
        s.wf(),
        s.valid_task(r.owner),
        l < s.lists.len(),
        s.container(r) is None,
    ensures
        s.insert_end(l, r).unlink(r) == s,
        s.insert_sorted(l, r).unlink(r) == s,
{
    assert(s.lists[l as int].wf());
    law_link_then_unlink(s, l, s.lists[l as int].index as int, r);
    lemma_insert_pos(s, l as int, s.value(r), 0);
    law_link_then_unlink(s, l, insert_pos(s, l as int, s.value(r), 0), r);
}

/// Law: unlinking an item that is in no list changes nothing.
pub proof fn law_unlink_unlinked(s: KState, r: ItemRef)
    requires
        s.container(r) is None,
    ensures
        s.unlink(r) == s,
{
}

/// Law: a send to a full queue that may not wait is refused and changes
/// nothing: not the kernel, not the queue, not the wait.
pub proof fn law_full_queue_refuses<T>(k: KState, q: QModel<T>, x: T, w: WaitState, pos: i64)
    requires
        q.messages_waiting >= q.length,
        pos != queueOVERWRITE,
        !q.is_mutex(),
        w.xTicksToWait == 0,
    ensures
        send_step(k, q, x, w, pos) == (k, q, w, StepOutcome::Failure),
{
}

/// Law: a receive from an empty queue that may not wait is refused and
/// changes nothing.
pub proof fn law_empty_queue_refuses<T>(k: KState, q: QModel<T>, w: WaitState, peek: bool)
    requires
        q.messages_waiting == 0,
        w.xTicksToWait == 0,
    ensures
        receive_step(k, q, w, peek) == (k, q, w, StepOutcome::Failure),
{
}

/// Law: peeking at a queued message, on the inputs a peek accepts (see
/// `can_receive`: some task waits to receive), succeeds and leaves the
/// kernel, the queue and the wait as they were, so the next receive reads
/// the same slot.
pub proof fn law_peek_keeps_queue<T>(k: KState, q: QModel<T>, w: WaitState)
    requires
        q.messages_waiting > 0,
        can_receive(k, q, w, true),
    ensures
        receive_step(k, q, w, true) == (k, q, w, StepOutcome::Success),
{
}

/// Law: an overwrite always succeeds; it adds a message to an empty queue
/// and keeps the count of a queue that holds some.
pub proof fn law_overwrite_succeeds<T>(k: KState, q: QModel<T>, x: T, w: WaitState)
    ensures
        send_step(k, q, x, w, queueOVERWRITE).3 == StepOutcome::Success,
        send_step(k, q, x, w, queueOVERWRITE).1.messages_waiting == (if q.messages_waiting > 0 {
            q.messages_waiting as int
        } else {
            1
        }),
{
}

/// Law: taking a mutex that is free (a send to it with room) succeeds and
/// records the running task as its holder.
pub proof fn law_take_records_holder<T>(k: KState, q: QModel<T>, x: T, w: WaitState)
    requires
        q.is_mutex(),
        q.messages_waiting < q.length,
        k.current_tcb is Some,
    ensures
        send_step(k, q, x, w, queueSEND_TO_BACK).3 == StepOutcome::Success,
        send_step(k, q, x, w, queueSEND_TO_BACK).1.front_holder() == k.current_tcb,
{
}

/// Law: a nested suspension of the scheduler is undone by one resume: it
/// restores the state exactly and reports no yield.
pub proof fn law_nested_suspend_resume(s: KState)
    requires
        0 < s.scheduler_suspended < UBaseType::MAX,
    ensures
        (KState { scheduler_suspended: (s.scheduler_suspended + 1) as UBaseType, ..s }).resume_all() == (s, false),
{
    let s1 = KState { scheduler_suspended: (s.scheduler_suspended + 1) as UBaseType, ..s };
    assert(KState { scheduler_suspended: (s1.scheduler_suspended - 1) as UBaseType, ..s1 } =~= s);
}

/// Law: no context switch happens while the scheduler is suspended: a
/// switch request only leaves a yield pending, and a tick is only counted
/// as pended, requesting a switch when a yield is pending.
pub proof fn law_no_switch_while_suspended(s: KState)
    requires
        s.scheduler_suspended > 0,
    ensures
        s.switch_context() == (KState { yield_pending: true, ..s }),
        s.increment_tick() == (KState { pended_ticks: (s.pended_ticks + 1) as UBaseType, ..s }, s.yield_pending),
{
}

/// Law: the scheduler runs the most urgent ready task. The priority it
/// selects has a non-empty ready list, every ready list between it and the
/// top ready priority is empty, and the task that then runs is in that
/// list and has that priority's list as its state list.
pub proof fn law_select_highest(s: KState)
    requires
        s.wf(),
        s.can_select(),
    ensures
        ({
            let p = s.highest_ready_priority(s.top_ready_priority as int);
            let c = s.select_highest().current_tcb.unwrap();
            &&& 0 <= p <= s.top_ready_priority
            &&& s.list(p).len() > 0
            &&& forall|q: int| p < q <= s.top_ready_priority ==> #[trigger] s.list(q).len() == 0
            &&& s.select_highest().current_tcb is Some
            &&& s.list(p).contains(state_item(c))
            &&& s.container(state_item(c)) == Some(p as usize)
            &&& s.select_highest().top_ready_priority == p
        }),
{
    lemma_highest_bounds(s, s.top_ready_priority as int);
    let p = s.highest_ready_priority(s.top_ready_priority as int);
    let len = s.list(p).len();
    let i = crate::list::next_index(s.lists[p].index, len);
    assert(s.lists[p].wf());
    assert(0 <= i < len);
    let r = s.list(p)[i as int];
    assert(s.lists[p].items[i as int] == r);
    assert(r.kind == crate::global::list_kind(p));
    assert(r == state_item(r.owner));
}

/// Where the search for the highest non-empty ready list from `p` down
/// stops.
proof fn lemma_highest_bounds(s: KState, p: int)
    requires
        p >= 0,
    ensures
        0 <= s.highest_ready_priority(p) <= p,
        forall|q: int| s.highest_ready_priority(p) < q <= p ==> #[trigger] s.list(q).len() == 0,
    decreases p,
{
    if p > 0 && s.list(p).len() == 0 {
        lemma_highest_bounds(s, p - 1);
    }
}

/// Law: a task that inherited no priority and releases its last mutex
/// keeps its base priority; one that inherited a priority gets its base
/// priority back. Either way it then runs at its base priority.
pub proof fn law_disinherit_restores_base(s: KState, t: TaskHandle)
    requires
        s.wf(),
        s.valid_task(t),
        s.tcb(t).MutexedHeld == 1,
        s.tcb(t).BasePriority < configMAX_PRIORITIES,
    ensures
        s.priority_disinherit(Some(t)).0.tcb(t).Priority == s.tcb(t).BasePriority,
        s.priority_disinherit(Some(t)).0.tcb(t).MutexedHeld == 0,
{
    let s1 = s.set_tcb(t, TCB { MutexedHeld: 0, ..s.tcb(t) });
    crate::tasks::lemma_set_tcb_wf(s, t, TCB { MutexedHeld: 0, ..s.tcb(t) });
    if s1.tcb(t).Priority != s1.tcb(t).BasePriority {
        let bp = s1.tcb(t).BasePriority;
        let tp = s1.tcb(t).Priority;
        crate::tasks::lemma_unlink_facts(s1, state_item(t));
        let s2 = s1.unlink(state_item(t));
        let s3 = s2.set_tcb(t, TCB { Priority: bp, ..s2.tcb(t) });
        crate::tasks::lemma_set_tcb_wf(s2, t, TCB { Priority: bp, ..s2.tcb(t) });
        crate::tasks::lemma_set_value_facts(s3, event_item(t), (configMAX_PRIORITIES - tp) as crate::port::TickType);
        let s4 = s3.set_value(event_item(t), (configMAX_PRIORITIES - tp) as crate::port::TickType);
        let s5 = s4.record_ready_priority(bp);
        crate::tasks::lemma_link_facts(s5, bp as usize, s5.lists[bp as int].index as int, state_item(t));
    }
}

/// Law: a mutex holder less urgent than the running task, with its state
/// item on the ready list of its priority, takes the running task's
/// priority.
pub proof fn law_inherit_raises(s: KState, t: TaskHandle)
    requires
        s.wf(),
        s.valid_task(t),
        s.current_tcb is Some,
        s.tcb(t).Priority < s.current_priority() < configMAX_PRIORITIES,
        s.container(state_item(t)) == Some(s.tcb(t).Priority as usize),
    ensures
        s.priority_inherit(Some(t)).tcb(t).Priority == s.current_priority(),
        s.priority_inherit(Some(t)).container(state_item(t)) == Some(s.current_priority() as usize),
{
    let cp = s.current_priority();
    let tp = s.tcb(t).Priority;
    let ev = event_item(t);
    let s1 = if s.value(ev) & crate::task_queue::taskEVENT_LIST_ITEM_VALUE_IN_USE == 0 {
        s.set_value(ev, (configMAX_PRIORITIES - cp) as crate::port::TickType)
    } else {
        s
    };
    crate::tasks::lemma_set_value_facts(s, ev, (configMAX_PRIORITIES - cp) as crate::port::TickType);
    crate::global::lemma_event_not_delayed(s, ev);
    crate::global::lemma_set_value_wf(s, ev, (configMAX_PRIORITIES - cp) as crate::port::TickType);
    assert(s1.container(state_item(t)) == Some(tp as usize));
    crate::tasks::lemma_unlink_facts(s1, state_item(t));
    let s2 = s1.unlink(state_item(t));
    let s3 = s2.set_tcb(t, TCB { Priority: cp, ..s2.tcb(t) });
    crate::tasks::lemma_set_tcb_wf(s2, t, TCB { Priority: cp, ..s2.tcb(t) });
    let s4 = s3.record_ready_priority(cp);
    crate::tasks::lemma_link_facts(s4, cp as usize, s4.lists[cp as int].index as int, state_item(t));
}

/// Readying the pending tasks leaves the scheduler's counters, flags and
/// running task alone.
proof fn lemma_move_pending_frame(s: KState, moved: bool, fuel: nat)
    ensures
        ({
            let r = s.move_pending(moved, fuel).0;
            &&& r.scheduler_suspended == s.scheduler_suspended
            &&& r.tick_count == s.tick_count
            &&& r.current_tcb == s.current_tcb
            &&& r.current_number_of_tasks == s.current_number_of_tasks
            &&& r.scheduler_running == s.scheduler_running
            &&& r.pended_ticks == s.pended_ticks
        }),
    decreases fuel,
{
    if !(s.list(crate::global::PENDING_READY_LIST as int).len() == 0 || fuel == 0) {
        let h = s.head_owner(crate::global::PENDING_READY_LIST as int);
        let s1 = s.ready_pending_task(h);
        let s2 = if s1.tcb(h).Priority >= s1.current_priority() {
            KState { yield_pending: true, ..s1 }
        } else {
            s1
        };
        lemma_move_pending_frame(s2, true, (fuel - 1) as nat);
    }
}

/// Waking the due delayed tasks leaves the scheduler's counters, flags and
/// running task alone.
proof fn lemma_unblock_delayed_frame(s: KState, tick: crate::port::TickType, switch: bool, fuel: nat)
    ensures
        ({
            let r = s.unblock_delayed(tick, switch, fuel).0;
            &&& r.scheduler_suspended == s.scheduler_suspended
            &&& r.tick_count == s.tick_count
            &&& r.current_tcb == s.current_tcb
            &&& r.current_number_of_tasks == s.current_number_of_tasks
            &&& r.scheduler_running == s.scheduler_running
            &&& r.pended_ticks == s.pended_ticks
        }),
    decreases fuel,
{
    let d = s.delayed_id() as int;
    if s.list(d).len() != 0 && fuel > 0 {
        let h = s.head_owner(d);
        let v = s.value(state_item(h));
        if tick >= v {
            let s1 = s.unblock_task(h);
            lemma_unblock_delayed_frame(s1, tick, switch || s1.tcb(h).Priority >= s1.current_priority(), (fuel - 1) as nat);
        }
    }
}

/// Processing ticks with the scheduler running leaves the suspension
/// depth, the flags and the running task alone.
proof fn lemma_process_ticks_frame(s: KState, n: nat)
    requires
        s.scheduler_suspended == 0,
    ensures
        ({
            let r = s.process_ticks(n);
            &&& r.scheduler_suspended == 0
            &&& r.tick_count == (s.tick_count + n) % 0x1_0000_0000
            &&& r.current_tcb == s.current_tcb
            &&& r.current_number_of_tasks == s.current_number_of_tasks
            &&& r.scheduler_running == s.scheduler_running
        }),
    decreases n,
{
    if n > 0 {
        let tick = vstd::wrapping::u32_specs::wrapping_add(s.tick_count, 1);
        let s1 = KState { tick_count: tick, ..s };
        let s2 = if tick == 0 { s1.switch_delayed_lists() } else { s1 };
        lemma_unblock_delayed_frame(s2, tick, false, s2.list(s2.delayed_id() as int).len());
        lemma_process_ticks_frame(s.process_one_tick(), (n - 1) as nat);
        assert(s.process_one_tick().tick_count == tick);
        if s.tick_count == u32::MAX {
            assert(tick == 0);
            vstd::arithmetic::div_mod::lemma_mod_add_multiples_vanish((n - 1) as int, 0x1_0000_0000);
        } else {
            assert(tick == s.tick_count + 1);
        }
    }
}

/// Law: resuming the scheduler undoes suspending it. After a suspension and
/// the resume that follows, the suspension depth, the scheduler's state
/// and the running task are what they were; the resume reports a yield
/// exactly when it ended the outermost suspension of a kernel with tasks
/// and a yield is then pending.
pub proof fn law_suspend_then_resume(s: KState)
    requires
        s.scheduler_suspended < UBaseType::MAX,
    ensures
        ({
            let s1 = KState { scheduler_suspended: (s.scheduler_suspended + 1) as UBaseType, ..s };
            let (s2, yielded) = s1.resume_all();
            &&& s2.scheduler_suspended == s.scheduler_suspended
            &&& s2.scheduler_state() == s.scheduler_state()
            &&& s2.current_tcb == s.current_tcb
            &&& s2.current_number_of_tasks == s.current_number_of_tasks
            &&& yielded == (s.scheduler_suspended == 0 && s.current_number_of_tasks > 0 && s2.yield_pending)
        }),
{
    let s1 = KState { scheduler_suspended: (s.scheduler_suspended + 1) as UBaseType, ..s };
    let t1 = KState { scheduler_suspended: (s1.scheduler_suspended - 1) as UBaseType, ..s1 };
    if t1.scheduler_suspended == 0 && t1.current_number_of_tasks > 0 {
        let fuel = t1.list(crate::global::PENDING_READY_LIST as int).len();
        lemma_move_pending_frame(t1, false, fuel);
        let (t2, moved) = t1.move_pending(false, fuel);
        let t3 = if moved { t2.reset_next_unblock_time(crate::port::portMAX_DELAY) } else { t2 };
        if t3.pended_ticks > 0 {
            lemma_process_ticks_frame(t3, t3.pended_ticks as nat);
        }
    } else {
        assert(t1 =~= s);
    }
}

/// The same lists and list items (the same tasks, up to fields other than
/// their items) keep the invariant.
proof fn lemma_same_shape_wf(a: KState, b: KState)
    requires
        a.wf(),
        a.tasks == b.tasks,
        a.lists == b.lists,
        a.current_tcb == b.current_tcb,
    ensures
        b.wf(),
        a.priorities_ok() ==> b.priorities_ok(),
{
    assert(crate::global::same_items(a.tasks, b.tasks));
    crate::global::lemma_wf_same_items(a, b);
    if a.priorities_ok() {
        crate::tasks::lemma_priorities_same(a, b);
    }
}

/// Waking the due delayed tasks keeps a task suspended by `SuspendTask`
/// suspended.
proof fn lemma_unblock_delayed_keeps_suspended(s: KState, tick: crate::port::TickType, switch: bool, fuel: nat, h: TaskHandle)
    requires
        s.wf(),
        s.due_ok(tick),
        s.valid_task(h),
        s.is_suspended(h),
    ensures
        ({
            let r = s.unblock_delayed(tick, switch, fuel).0;
            &&& r.wf()
            &&& r.is_suspended(h)
            &&& r.tasks.len() == s.tasks.len()
        }),
    decreases fuel,
{
    let d = s.delayed_id() as int;
    if s.list(d).len() == 0 {
        lemma_same_shape_wf(s, KState { next_task_unblock_time: crate::port::portMAX_DELAY, ..s });
    } else {
        let g = s.head_owner(d);
        let v = s.value(state_item(g));
        if tick < v {
            lemma_same_shape_wf(s, KState { next_task_unblock_time: v, ..s });
        } else if fuel > 0 {
            assert(s.lists[d].items[0] == s.list(d)[0]);
            assert(s.list(d)[0] == state_item(g));
            assert(g != h);
            assert(s.tcb(g).Priority < configMAX_PRIORITIES);
            crate::kernel::lemma_unblock_facts(s, g, d);
            let s1 = s.unblock_task(g);
            assert forall|x: TaskHandle|
                s1.valid_task(x) && s1.container(state_item(x)) == Some(s1.delayed_id()) && s1.value(state_item(x)) <= tick
                implies (#[trigger] s1.tcb(x)).Priority < configMAX_PRIORITIES by {
                assert(s.valid_task(x));
                assert(s1.tcb(x).Priority == s.tcb(x).Priority);
                if x != g {
                    assert(s1.item(state_item(x)) == s.item(state_item(x)));
                }
            }
            assert(s1.item(state_item(h)) == s.item(state_item(h)));
            assert(s1.item(event_item(h)) == s.item(event_item(h)));
            lemma_unblock_delayed_keeps_suspended(
                s1,
                tick,
                switch || s1.tcb(g).Priority >= s1.current_priority(),
                (fuel - 1) as nat,
                h,
            );
        }
    }
}

/// Processing ticks with the scheduler running keeps a task suspended by
/// `SuspendTask` suspended.
proof fn lemma_process_ticks_keeps_suspended(s: KState, n: nat, h: TaskHandle)
    requires
        s.wf(),
        s.can_process_ticks(n),
        s.valid_task(h),
        s.is_suspended(h),
        s.scheduler_suspended == 0,
    ensures
        ({
            let r = s.process_ticks(n);
            &&& r.wf()
            &&& r.is_suspended(h)
            &&& r.tasks.len() == s.tasks.len()
            &&& r.scheduler_suspended == 0
        }),
    decreases n,
{
    if n > 0 {
        let tick = vstd::wrapping::u32_specs::wrapping_add(s.tick_count, 1);
        let s1 = KState { tick_count: tick, ..s };
        let s2 = if tick == 0 { s1.switch_delayed_lists() } else { s1 };
        lemma_same_shape_wf(s, s2);
        assert(s2 == s.ticked());
        let fuel = s2.list(s2.delayed_id() as int).len();
        let (s3, sw) = if tick >= s2.next_task_unblock_time {
            s2.unblock_delayed(tick, false, fuel)
        } else {
            (s2, false)
        };
        if tick >= s2.next_task_unblock_time {
            lemma_unblock_delayed_keeps_suspended(s2, tick, false, fuel, h);
            lemma_unblock_delayed_frame(s2, tick, false, fuel);
        }
        let s4 = s.process_one_tick();
        let sw2 = sw || s3.list(s3.current_priority() as int).len() > 1;
        assert(s.increment_tick() == (s3, sw2));
        if sw2 {
            lemma_same_shape_wf(s3, s4);
        }
        lemma_process_ticks_keeps_suspended(s4, (n - 1) as nat, h);
    }
}

/// Law: resuming the scheduler does not resume tasks suspended with
/// `SuspendTask`: a task suspended before `TaskResumeAll` is still
/// suspended after it.
pub proof fn law_resume_all_keeps_suspended_tasks(s: KState, h: TaskHandle)
    requires
        s.wf(),
        s.can_resume_all(),
        s.valid_task(h),
        s.is_suspended(h),
    ensures
        s.resume_all().0.is_suspended(h),
{
    let s1 = KState { scheduler_suspended: (s.scheduler_suspended - 1) as UBaseType, ..s };
    lemma_same_shape_wf(s, s1);
    if s1.scheduler_suspended == 0 && s1.current_number_of_tasks > 0 {
        let fuel = s1.list(crate::global::PENDING_READY_LIST as int).len();
        lemma_move_pending_frame(s1, false, fuel);
        let (s2, moved) = s1.move_pending(false, fuel);
        if fuel > 0 {
            assert(s1.pending_ok()) by {
                assert forall|g: TaskHandle|
                    s1.valid_task(g) && s1.container(event_item(g)) == Some(crate::global::PENDING_READY_LIST) implies (
                    #[trigger] s1.tcb(g)).Priority < configMAX_PRIORITIES by {
                    assert(s1.tcb(g) == s.tcb(g));
                }
            }
            lemma_move_pending_readies(s1, false, fuel);
            assert(s2.tcb(h).Priority == s1.tcb(h).Priority);
            assert(s2.item(state_item(h)) == s1.item(state_item(h)));
            assert(s2.item(event_item(h)) == s1.item(event_item(h)));
        }
        assert(s2.tasks.len() == s.tasks.len());
        let s3 = if moved { s2.reset_next_unblock_time(crate::port::portMAX_DELAY) } else { s2 };
        lemma_same_shape_wf(s2, s3);
        if s3.pended_ticks > 0 {
            lemma_process_ticks_keeps_suspended(s3, s3.pended_ticks as nat, h);
        }
    }
}

/// Law: a task suspended by another task and then resumed is ready again,
/// on the ready list of its priority, is no longer suspended, and the top
/// ready priority is at least its priority; in between it is suspended.
pub proof fn law_suspend_then_resume_task(s: KState, h: TaskHandle)
    requires
        s.wf(),
        s.valid_task(h),
        s.current_tcb is Some,
        !s.is_current(h),
        s.tcb(h).Priority < configMAX_PRIORITIES,
    ensures
        s.suspend_task(h).is_suspended(h),
        s.suspend_task(h).resume_task(h).container(state_item(h)) == Some(s.tcb(h).Priority as usize),
        s.suspend_task(h).resume_task(h).tcb(h).Priority == s.tcb(h).Priority,
        !s.suspend_task(h).resume_task(h).is_suspended(h),
        s.suspend_task(h).resume_task(h).top_ready_priority >= s.tcb(h).Priority,
{
    let st = state_item(h);
    let ev = event_item(h);
    crate::tasks::lemma_unlink_facts(s, st);
    let s1 = s.unlink(st);
    let s2 = if s1.container(ev) is Some { s1.unlink(ev) } else { s1 };
    if s1.container(ev) is Some {
        crate::tasks::lemma_unlink_facts(s1, ev);
    }
    assert(s2.wf());
    assert(s2.container(st) is None);
    assert(s2.container(ev) is None);
    let sl = crate::global::SUSPENDED_TASK_LIST;
    assert(s2.lists[sl as int].wf());
    crate::global::lemma_link_wf(s2, sl, s2.lists[sl as int].index as int, st);
    crate::tasks::lemma_link_facts(s2, sl, s2.lists[sl as int].index as int, st);
    let s3 = s2.insert_end(sl, st);
    assert(s.suspend_task(h) == s.suspend_core(h));
    let s4 = s.suspend_core(h);
    assert(s4.item(st) == s3.item(st));
    assert(s4.item(ev) == s3.item(ev));
    assert(s4.is_suspended(h));
    assert(s4.wf()) by {
        if s3.scheduler_running {
            lemma_same_shape_wf(s3, s4);
        }
    }
    crate::tasks::lemma_unlink_facts(s4, st);
    let s5 = s4.unlink(st);
    assert(s5.can_ready(h));
    crate::tasks::lemma_add_to_ready_facts(s5, h);
}

/// Law: deleting a task other than the running one takes it off every
/// list.
pub proof fn law_delete_unlinks(s: KState, h: TaskHandle)
    requires
        s.wf(),
        s.valid_task(h),
        !s.is_current(h),
    ensures
        s.task_delete(h).container(state_item(h)) is None,
        s.task_delete(h).container(event_item(h)) is None,
{
    crate::tasks::lemma_unlink_facts(s, state_item(h));
    let s1 = s.unlink(state_item(h));
    if s1.container(event_item(h)) is Some {
        crate::tasks::lemma_unlink_facts(s1, event_item(h));
    }
}

/// Law: a queue just reset holds no message: a receive from it that may
/// not wait is refused, whatever the kernel does in between.
pub proof fn law_reset_empties<T>(k: KState, k2: KState, q: QModel<T>, new_queue: bool, peek: bool)
    ensures
        reset_queue(k, q, new_queue).1.messages_waiting == 0,
        reset_queue(k, q, new_queue).1.queue.len() == 0,
        receive_step(k2, reset_queue(k, q, new_queue).1, fresh_wait(0), peek).3 == StepOutcome::Failure,
{
}

/// Law: a mutex taken by the running task and then given back gives back
/// that task as its holder and is free again, with no slot left.
pub proof fn law_mutex_take_then_give<T>(k1: KState, k2: KState, n: nat, x: T, w1: WaitState, w2: WaitState)
    requires
        k1.current_tcb is Some,
    ensures
        ({
            let q = new_queue_model::<T>(1, QueueType::Mutex, n);
            let (_k, q1, _w, o1) = send_step(k1, q, x, w1, queueSEND_TO_BACK);
            let (_k2, q2, _w2, o2) = receive_step(k2, q1, w2, false);
            &&& o1 == StepOutcome::Success
            &&& q1.front_holder() == k1.current_tcb
            &&& o2 == StepOutcome::Success
            &&& q1.queue[q1.read_index() as int] == QueueSlot::<T>::Holder(k1.current_tcb)
            &&& q2.messages_waiting == 0
            &&& q2.queue.len() == 0
        }),
{
    let q = new_queue_model::<T>(1, QueueType::Mutex, n);
    let q1 = q.copy_to(x, queueSEND_TO_BACK, k1.current_tcb);
    assert(q1.queue =~= seq![QueueSlot::<T>::Holder(k1.current_tcb)]);
}

/// Law: for the task that holds a recursive mutex, taking it again and
/// giving it once restores the mutex and the kernel exactly; the second
/// take reports false, the give true.
pub proof fn law_recursive_take_then_give(k: KState, q: QModel<Option<TaskHandle>>, w: WaitState)
    requires
        q.front_holder() is Some,
        k.valid_task(q.front_holder().unwrap()),
        k.is_current(q.front_holder().unwrap()),
        0 < q.queue_union < UBaseType::MAX,
    ensures
        take_recursive(k, q, w) == (k, QModel { queue_union: (q.queue_union + 1) as UBaseType, ..q }, w, Attempt::<bool>::Done(false)),
        give_recursive(k, take_recursive(k, q, w).1) == (k, q, true),
{
    let q1 = QModel { queue_union: (q.queue_union + 1) as UBaseType, ..q };
    assert(QModel { queue_union: (q1.queue_union - 1) as UBaseType, ..q1 } =~= q);
}

/// Law: a counting semaphore created for `max` takes can be taken `max`
/// times in turn, each take succeeding whatever the kernel does in
/// between; it then counts `max`, and a further take that may not wait is
/// refused and changes nothing.
pub proof fn law_counting_semaphore_limit(ks: Seq<KState>, ws: Seq<WaitState>, max: UBaseType, lists: nat, k: KState)
    requires
        max >= 1,
    ensures
        ({
            let takes = Seq::new(max as nat, |i: int| None::<TaskHandle>);
            let q0 = new_queue_model::<Option<TaskHandle>>(max, QueueType::CountingSemaphore, lists);
            let qm = sent_in_turn(ks, q0, takes, ws);
            &&& forall|j: int| 0 <= j < max ==> (#[trigger] send_step(
                ks[j],
                sent_in_turn(ks, q0, takes.take(j), ws),
                None,
                ws[j],
                queueSEND_TO_BACK,
            )).3 == StepOutcome::Success
            &&& qm.messages_waiting == max
            &&& send_step(k, qm, None, fresh_wait(0), queueSEND_TO_BACK) == (k, qm, fresh_wait(0), StepOutcome::Failure)
        }),
{
    let takes = Seq::new(max as nat, |i: int| None::<TaskHandle>);
    let q0 = new_queue_model::<Option<TaskHandle>>(max, QueueType::CountingSemaphore, lists);
    lemma_sent_shape(ks, max, QueueType::CountingSemaphore, lists, takes, ws);
    assert forall|j: int| 0 <= j < max implies (#[trigger] send_step(
        ks[j],
        sent_in_turn(ks, q0, takes.take(j), ws),
        None,
        ws[j],
        queueSEND_TO_BACK,
    )).3 == StepOutcome::Success by {
        lemma_sent_shape(ks, max, QueueType::CountingSemaphore, lists, takes.take(j), ws);
    }
}

/// Law: no tick is lost while the scheduler is suspended. Resuming from the
/// outermost suspension of a kernel with tasks processes every pended tick:
/// the tick count advances by their number (wrapping) and none stays
/// pended.
pub proof fn law_pended_ticks_processed(s: KState)
    requires
        s.scheduler_suspended == 1,
        s.current_number_of_tasks > 0,
    ensures
        s.resume_all().0.pended_ticks == 0,
        s.resume_all().0.tick_count == (s.tick_count + s.pended_ticks) % 0x1_0000_0000,
{
    let s1 = KState { scheduler_suspended: 0, ..s };
    let fuel = s1.list(crate::global::PENDING_READY_LIST as int).len();
    lemma_move_pending_frame(s1, false, fuel);
    let (s2, moved) = s1.move_pending(false, fuel);
    let s3 = if moved { s2.reset_next_unblock_time(crate::port::portMAX_DELAY) } else { s2 };
    if s3.pended_ticks > 0 {
        lemma_process_ticks_frame(s3, s3.pended_ticks as nat);
    }
}

/// With fuel for every delayed task, the wake-up loop empties the delayed
/// list of due tasks: afterwards it holds only tasks due after `tick`, the
/// first of which gives the next unblock time (`portMAX_DELAY` when none is
/// left).
proof fn lemma_unblock_delayed_complete(s: KState, tick: crate::port::TickType, switch: bool, fuel: nat)
    requires
        s.wf(),
        s.due_ok(tick),
        fuel >= s.list(s.delayed_id() as int).len(),
    ensures
        ({
            let r = s.unblock_delayed(tick, switch, fuel).0;
            let d = s.delayed_id() as int;
            &&& r.wf()
            &&& r.delayed_id() == s.delayed_id()
            &&& (r.list(d).len() == 0 ==> r.next_task_unblock_time == crate::port::portMAX_DELAY)
            &&& (r.list(d).len() > 0 ==> {
                &&& tick < r.value(r.list(d)[0])
                &&& r.next_task_unblock_time == r.value(r.list(d)[0])
            })
        }),
    decreases fuel,
{
    let d = s.delayed_id() as int;
    if s.list(d).len() == 0 {
        lemma_same_shape_wf(s, KState { next_task_unblock_time: crate::port::portMAX_DELAY, ..s });
    } else {
        let g = s.head_owner(d);
        let v = s.value(state_item(g));
        assert(s.lists[d].items[0] == s.list(d)[0]);
        assert(s.list(d)[0] == state_item(g));
        if tick < v {
            lemma_same_shape_wf(s, KState { next_task_unblock_time: v, ..s });
        } else {
            assert(s.tcb(g).Priority < configMAX_PRIORITIES);
            crate::kernel::lemma_unblock_facts(s, g, d);
            let s1 = s.unblock_task(g);
            assert forall|x: TaskHandle|
                s1.valid_task(x) && s1.container(state_item(x)) == Some(s1.delayed_id()) && s1.value(state_item(x)) <= tick
                implies (#[trigger] s1.tcb(x)).Priority < configMAX_PRIORITIES by {
                assert(s.valid_task(x));
                assert(s1.tcb(x).Priority == s.tcb(x).Priority);
                if x != g {
                    assert(s1.item(state_item(x)) == s.item(state_item(x)));
                }
            }
            lemma_unblock_delayed_complete(s1, tick, switch || s1.tcb(g).Priority >= s1.current_priority(), (fuel - 1) as nat);
        }
    }
}

/// Law: a tick that reaches the next unblock time wakes every delayed task
/// that is due: afterwards the delayed list (after the tick that wraps, the
/// list that was the overflow list) holds only tasks that wake later, in
/// order, and the next unblock time is the earliest of their wake times
/// (`portMAX_DELAY` when none is left).
pub proof fn law_tick_wakes_due_tasks(s: KState)
    requires
        s.wf(),
        s.can_tick(),
        s.scheduler_suspended == 0,
        vstd::wrapping::u32_specs::wrapping_add(s.tick_count, 1) >= s.next_task_unblock_time,
    ensures
        ({
            let r = s.increment_tick().0;
            let d = r.delayed_id() as int;
            &&& r.tick_count == vstd::wrapping::u32_specs::wrapping_add(s.tick_count, 1)
            &&& forall|i: int| 0 <= i < r.list(d).len() ==> r.tick_count < #[trigger] r.value(r.list(d)[i])
            &&& (r.list(d).len() == 0 ==> r.next_task_unblock_time == crate::port::portMAX_DELAY)
            &&& (r.list(d).len() > 0 ==> r.next_task_unblock_time == r.value(r.list(d)[0]))
        }),
{
    let tick = vstd::wrapping::u32_specs::wrapping_add(s.tick_count, 1);
    let s0 = KState { tick_count: tick, ..s };
    let s1 = if tick == 0 { s0.switch_delayed_lists() } else { s0 };
    lemma_same_shape_wf(s, s1);
    assert(s1 == s.ticked());
    let fuel = s1.list(s1.delayed_id() as int).len();
    lemma_unblock_delayed_complete(s1, tick, false, fuel);
    lemma_unblock_delayed_frame(s1, tick, false, fuel);
    let r = s1.unblock_delayed(tick, false, fuel).0;
    let d = r.delayed_id() as int;
    assert forall|i: int| 0 <= i < r.list(d).len() implies r.tick_count < #[trigger] r.value(r.list(d)[i]) by {
        if i > 0 {
            assert(r.sorted_list(d));
            assert(r.value(r.list(d)[0]) <= r.value(r.list(d)[i]));
        }
    }
}

/// Law: unlocking undoes locking. Locking an unlocked queue and unlocking
/// it, with nothing sent or received meanwhile, leaves the kernel and the
/// queue as they were.
pub proof fn law_lock_then_unlock<T>(k: KState, q: QModel<T>)
    requires
        q.rx_lock == queueUNLOCKED,
        q.tx_lock == queueUNLOCKED,
    ensures
        unlock_queue(k, q.lock()) == (k, q),
{
    assert(k.wake_waiting(q.receive_list, 0) == k);
    assert(QModel { tx_lock: queueUNLOCKED, rx_lock: queueUNLOCKED, ..q.lock() } =~= q);
}

/// Law: a running task delayed for a limited time waits on a delayed list
/// until the tick count reaches its wake time, the tick count plus the
/// delay (wrapping); one delayed for the longest time, when it may block
/// indefinitely, waits on the suspended list instead.
pub proof fn law_delay_wakes_at_time(s: KState, ticks: crate::port::TickType, indefinitely: bool)
    requires
        s.wf(),
        s.current_tcb is Some,
    ensures
        ({
            let c = s.current_tcb.unwrap();
            let r = s.add_current_to_delayed(ticks, indefinitely);
            if ticks == crate::port::portMAX_DELAY && indefinitely {
                r.container(state_item(c)) == Some(crate::global::SUSPENDED_TASK_LIST)
            } else {
                &&& r.container(state_item(c)) == Some(crate::global::DELAYED_LIST_A) || r.container(state_item(c))
                    == Some(crate::global::DELAYED_LIST_B)
                &&& r.value(state_item(c)) == vstd::wrapping::u32_specs::wrapping_add(s.tick_count, ticks)
            }
        }),
{
    let c = s.current_tcb.unwrap();
    let st = state_item(c);
    let s1 = s.set_tcb(c, TCB { DelayAborted: false, ..s.tcb(c) });
    crate::tasks::lemma_set_tcb_wf(s, c, TCB { DelayAborted: false, ..s.tcb(c) });
    crate::tasks::lemma_unlink_facts(s1, st);
    let s2 = s1.unlink(st);
    if ticks == crate::port::portMAX_DELAY && indefinitely {
        crate::tasks::lemma_link_facts(s2, crate::global::SUSPENDED_TASK_LIST, s2.lists[crate::global::SUSPENDED_TASK_LIST as int].index as int, st);
    } else {
        let wake = vstd::wrapping::u32_specs::wrapping_add(s2.tick_count, ticks);
        crate::tasks::lemma_set_value_facts(s2, st, wake);
        let s3 = s2.set_value(st, wake);
        let l = if wake < s3.tick_count { s3.overflow_id() } else { s3.delayed_id() };
        crate::tasks::lemma_link_facts(s3, l, insert_pos(s3, l as int, s3.value(st), 0), st);
    }
}

/// Law: a timed wait that started in the same overflow period, at or before
/// the current tick count, times out exactly when as many ticks as it may
/// wait have passed since it started.
pub proof fn law_time_out_after_wait(s: KState, t: crate::task_queue::time_out, ticks: crate::port::TickType)
    requires
        s.num_of_overflows == t.overflow_count,
        t.time_on_entering <= s.tick_count,
    ensures
        crate::task_queue::timed_out(s, t, ticks) <==> s.tick_count - t.time_on_entering >= ticks,
{
}

/// Law: a send to a queue with a task waiting to receive wakes the first
/// waiting task (its priority naming a ready list): with the scheduler
/// running, that task leaves the receive list and is ready again, on the
/// ready list of its priority.
pub proof fn law_send_wakes_receiver<T>(k: KState, q: QModel<T>, x: T, w: WaitState, pos: i64)
    requires
        k.wf(),
        k.scheduler_suspended == 0,
        q.lists_in(k),
        k.list(q.receive_list as int).len() > 0,
        k.tcb(k.head_owner(q.receive_list as int)).Priority < configMAX_PRIORITIES,
        q.messages_waiting < q.length || pos == queueOVERWRITE,
    ensures
        ({
            let l = q.receive_list as int;
            let h = k.head_owner(l);
            let r = send_step(k, q, x, w, pos).0;
            &&& r.container(event_item(h)) is None
            &&& r.container(state_item(h)) == Some(k.tcb(h).Priority as usize)
            &&& r.list(l).len() == k.list(l).len() - 1
        }),
{
    let l = q.receive_list;
    let h = k.head_owner(l as int);
    crate::task_queue::lemma_increment_mutex_held_facts(k);
    let k1 = if q.is_mutex() { k.increment_mutex_held() } else { k };
    assert(k1.wf());
    assert(k1.lists == k.lists);
    assert(k1.head_owner(l as int) == h);
    assert(k.lists[l as int].items[0] == k.list(l as int)[0]);
    assert(k.list(l as int)[0] == event_item(h));
    assert(k1.container(event_item(h)) == Some(l));
    assert(k1.tcb(h).Priority == k.tcb(h).Priority);
    crate::tasks::lemma_unlink_facts(k1, event_item(h));
    let s1 = k1.unlink(event_item(h));
    let st = state_item(h);
    assert(s1.container(st) != Some(l)) by {
        if s1.container(st) == Some(l) {
            assert(s1.list(l as int).contains(st));
            let i = choose|i: int| 0 <= i < s1.list(l as int).len() && s1.list(l as int)[i] == st;
            assert(s1.lists[l as int].items[i] == st);
        }
    }
    crate::tasks::lemma_unlink_facts(s1, st);
    let s2 = s1.unlink(st);
    assert(s2.can_ready(h));
    crate::tasks::lemma_add_to_ready_facts(s2, h);
    let s3 = s2.add_to_ready_list(h);
    assert(s3.list(l as int) == s1.list(l as int));
}

/// Law: resuming the running task, or a task that is not suspended,
/// changes nothing.
pub proof fn law_resume_unsuspended_changes_nothing(s: KState, h: TaskHandle)
    requires
        s.is_current(h) || !s.is_suspended(h),
    ensures
        s.resume_task(h) == s,
{
}

/// Law: what a successful send stores. Sending to a queue that is no mutex,
/// with room (or to overwrite), succeeds; the item is stored at the write
/// position when sent to the back and at the read position otherwise, the
/// other slots keep their order, and one message more is counted, except
/// that an overwrite of a queue holding messages keeps the count.
pub proof fn law_send_stores_item<T>(k: KState, q: QModel<T>, x: T, w: WaitState, pos: i64)
    requires
        !q.is_mutex(),
        q.messages_waiting < q.length || pos == queueOVERWRITE,
        can_send(k, q, w, pos),
    ensures
        ({
            let (_k1, q1, w1, o) = send_step(k, q, x, w, pos);
            let at = if pos == queueSEND_TO_BACK { q.write_to as int } else { q.queue_union as int };
            &&& o == StepOutcome::Success
            &&& w1 == w
            &&& q1.queue == q.queue.insert(at, QueueSlot::Item(x))
            &&& q1.messages_waiting == (if pos == queueOVERWRITE && q.messages_waiting > 0 {
                q.messages_waiting as int
            } else {
                q.messages_waiting + 1
            })
            &&& q1.length == q.length
            &&& q1.receive_list == q.receive_list
            &&& q1.send_list == q.send_list
        }),
{
}

/// Law: what a successful receive takes. Receiving from a queue holding
/// messages succeeds and reads the slot after the last one read (wrapping
/// from the tail to the head), which becomes the last one read; one message
/// fewer is counted; a queue that is no mutex keeps its slots, a mutex
/// drops its front slot, the recorded holder.
pub proof fn law_receive_takes_next<T>(k: KState, q: QModel<T>, w: WaitState)
    requires
        q.messages_waiting > 0,
        can_receive(k, q, w, false),
    ensures
        ({
            let (_k1, q1, w1, o) = receive_step(k, q, w, false);
            &&& o == StepOutcome::Success
            &&& w1 == w
            &&& q1.queue_union == q.read_index()
            &&& q1.messages_waiting == q.messages_waiting - 1
            &&& !q.is_mutex() ==> q1.queue == q.queue
            &&& q.is_mutex() && q.queue.len() > 0 ==> q1.queue == q.queue.remove(0)
        }),
{
}

/// Readying the pending tasks one after another empties the pending-ready
/// list and puts each of them on the ready list of its priority.
proof fn lemma_move_pending_readies(s: KState, moved: bool, fuel: nat)
    requires
        s.wf(),
        s.pending_ok(),
        fuel >= s.list(crate::global::PENDING_READY_LIST as int).len(),
    ensures
        ({
            let r = s.move_pending(moved, fuel).0;
            &&& r.wf()
            &&& r.tasks.len() == s.tasks.len()
            &&& r.pending_ok()
            &&& r.list(crate::global::PENDING_READY_LIST as int).len() == 0
            &&& forall|g: TaskHandle| #![trigger r.tcb(g)]
                s.valid_task(g) ==> {
                    &&& r.tcb(g).Priority == s.tcb(g).Priority
                    &&& if s.container(event_item(g)) == Some(crate::global::PENDING_READY_LIST) {
                        &&& r.container(event_item(g)) is None
                        &&& r.container(state_item(g)) == Some(s.tcb(g).Priority as usize)
                    } else {
                        &&& r.item(event_item(g)) == s.item(event_item(g))
                        &&& r.item(state_item(g)) == s.item(state_item(g))
                    }
                }
        }),
    decreases fuel,
{
    let pl = crate::global::PENDING_READY_LIST as int;
    if s.list(pl).len() > 0 {
        let h = s.head_owner(pl);
        assert(s.lists[pl].items[0] == s.list(pl)[0]);
        assert(s.list(pl)[0] == event_item(h));
        assert(s.tcb(h).Priority < configMAX_PRIORITIES);
        crate::kernel::lemma_ready_pending_facts(s, h);
        let s1 = s.ready_pending_task(h);
        let s2 = if s1.tcb(h).Priority >= s1.current_priority() {
            KState { yield_pending: true, ..s1 }
        } else {
            s1
        };
        lemma_same_shape_wf(s1, s2);
        assert(s2.pending_ok()) by {
            assert forall|g: TaskHandle|
                s2.valid_task(g) && s2.container(event_item(g)) == Some(crate::global::PENDING_READY_LIST) implies (
                #[trigger] s2.tcb(g)).Priority < configMAX_PRIORITIES by {
                assert(s.valid_task(g));
                assert(s2.tcb(g).Priority == s.tcb(g).Priority);
                if g != h {
                    assert(s2.item(event_item(g)) == s.item(event_item(g)));
                }
            }
        }
        lemma_move_pending_readies(s2, true, (fuel - 1) as nat);
        let r = s2.move_pending(true, (fuel - 1) as nat).0;
        assert forall|g: TaskHandle| #![trigger r.tcb(g)]
            s.valid_task(g) implies {
                &&& r.tcb(g).Priority == s.tcb(g).Priority
                &&& if s.container(event_item(g)) == Some(crate::global::PENDING_READY_LIST) {
                    &&& r.container(event_item(g)) is None
                    &&& r.container(state_item(g)) == Some(s.tcb(g).Priority as usize)
                } else {
                    &&& r.item(event_item(g)) == s.item(event_item(g))
                    &&& r.item(state_item(g)) == s.item(state_item(g))
                }
            } by {
            assert(s2.valid_task(g));
            assert(s2.tcb(g).Priority == s.tcb(g).Priority);
            if g != h {
                assert(s2.item(event_item(g)) == s.item(event_item(g)));
                assert(s2.item(state_item(g)) == s.item(state_item(g)));
            } else {
                assert(s2.container(event_item(h)) is None);
                assert(s2.item(state_item(h)) == s1.item(state_item(h)));
            }
        }
    }
}

/// Law: when the scheduler resumes, every task readied while it was
/// suspended is moved to its ready list: the pending-ready list ends empty,
/// each task that was on it is on the ready list of its priority with its
/// event item in no list, and every other task keeps its list items.
pub proof fn law_move_pending_readies_all(s: KState)
    requires
        s.wf(),
        s.pending_ok(),
    ensures
        ({
            let r = s.move_pending(false, s.list(crate::global::PENDING_READY_LIST as int).len()).0;
            &&& r.list(crate::global::PENDING_READY_LIST as int).len() == 0
            &&& forall|g: TaskHandle| #![trigger s.valid_task(g)]
                s.valid_task(g) ==> if s.container(event_item(g)) == Some(crate::global::PENDING_READY_LIST) {
                    &&& r.container(event_item(g)) is None
                    &&& r.container(state_item(g)) == Some(s.tcb(g).Priority as usize)
                } else {
                    &&& r.item(event_item(g)) == s.item(event_item(g))
                    &&& r.item(state_item(g)) == s.item(state_item(g))
                }
        }),
{
    let n = s.list(crate::global::PENDING_READY_LIST as int).len();
    lemma_move_pending_readies(s, false, n);
    let r = s.move_pending(false, n).0;
    assert forall|g: TaskHandle| #![trigger s.valid_task(g)]
        s.valid_task(g) implies if s.container(event_item(g)) == Some(crate::global::PENDING_READY_LIST) {
        &&& r.container(event_item(g)) is None
        &&& r.container(state_item(g)) == Some(s.tcb(g).Priority as usize)
    } else {
        &&& r.item(event_item(g)) == s.item(event_item(g))
        &&& r.item(state_item(g)) == s.item(state_item(g))
    } by {
        assert(r.tcb(g).Priority == s.tcb(g).Priority);
    }
}


/// One wake of a task waiting on queue list `l`: the head task leaves the
/// list; the other tasks keep their list items.
proof fn lemma_wake_one(s: KState, l: usize)
    requires
        s.wf(),
        crate::global::NUM_KERNEL_LISTS <= l < s.lists.len(),
        s.can_remove_from_event_list(l),
    ensures
        ({
            let h = s.head_owner(l as int);
            let (k1, woke) = s.remove_from_event_list(l);
            let k2 = if woke { k1.missed_yield() } else { k1 };
            &&& k2.wf()
            &&& k2.scheduler_suspended == s.scheduler_suspended
            &&& k2.tasks.len() == s.tasks.len()
            &&& k2.lists.len() == s.lists.len()
            &&& s.valid_task(h)
            &&& s.list(l as int)[0] == event_item(h)
            &&& k2.list(l as int) == s.list(l as int).drop_first()
            &&& s.scheduler_suspended == 0 ==> {
                &&& k2.container(event_item(h)) is None
                &&& k2.container(state_item(h)) == Some(s.tcb(h).Priority as usize)
            }
            &&& s.scheduler_suspended != 0 ==> k2.container(event_item(h)) == Some(crate::global::PENDING_READY_LIST)
            &&& forall|g: TaskHandle| #![trigger k2.tcb(g)]
                s.valid_task(g) ==> {
                    &&& k2.tcb(g).Priority == s.tcb(g).Priority
                    &&& g != h ==> k2.item(event_item(g)) == s.item(event_item(g))
                    &&& g != h ==> k2.item(state_item(g)) == s.item(state_item(g))
                }
        }),
{
    let li = l as int;
    let h = s.head_owner(li);
    let ev = event_item(h);
    let st = state_item(h);
    assert(s.lists[li].items[0] == s.list(li)[0]);
    assert(s.list(li)[0] == ev);
    crate::list::lemma_position_unique(s.list(li), ev, 0);
    crate::tasks::lemma_unlink_facts(s, ev);
    let s1 = s.unlink(ev);
    assert(s1.list(li) == s.list(li).remove(0));
    assert(s.list(li).remove(0) =~= s.list(li).drop_first());
    let s2 = if s1.scheduler_suspended == 0 {
        assert(s1.container(st) != Some(l)) by {
            if s1.container(st) == Some(l) {
                assert(s1.list(li).contains(st));
                let i = choose|i: int| 0 <= i < s1.list(li).len() && s1.list(li)[i] == st;
                assert(s1.lists[li].items[i] == st);
            }
        }
        crate::tasks::lemma_unlink_facts(s1, st);
        let u = s1.unlink(st);
        assert(u.lists[li] == s1.lists[li]);
        assert(u.can_ready(h));
        crate::tasks::lemma_add_to_ready_facts(u, h);
        let a = u.add_to_ready_list(h);
        assert(a.lists[li] == u.lists[li]);
        assert forall|g: TaskHandle| s.valid_task(g) implies (#[trigger] a.tcb(g)).Priority == s.tcb(g).Priority
            && (g != h ==> a.item(event_item(g)) == s.item(event_item(g)) && a.item(state_item(g)) == s.item(state_item(g))) by {
            assert(a.tcb(g).Priority == u.tcb(g).Priority);
            assert(u.tcb(g).Priority == s1.tcb(g).Priority);
            assert(s1.tcb(g).Priority == s.tcb(g).Priority);
            if g != h {
                assert(a.item(event_item(g)) == u.item(event_item(g)));
                assert(u.item(event_item(g)) == s1.item(event_item(g)));
                assert(s1.item(event_item(g)) == s.item(event_item(g)));
                assert(a.item(state_item(g)) == u.item(state_item(g)));
                assert(u.item(state_item(g)) == s1.item(state_item(g)));
                assert(s1.item(state_item(g)) == s.item(state_item(g)));
            }
        }
        assert(a.container(ev) == u.container(ev));
        a
    } else {
        let pl = crate::global::PENDING_READY_LIST;
        assert(s1.container(ev) is None);
        assert(s1.lists[pl as int].wf());
        crate::global::lemma_link_wf(s1, pl, s1.lists[pl as int].index as int, ev);
        crate::tasks::lemma_link_facts(s1, pl, s1.lists[pl as int].index as int, ev);
        let a = s1.insert_end(pl, ev);
        assert(a.lists[li] == s1.lists[li]);
        assert forall|g: TaskHandle| s.valid_task(g) implies (#[trigger] a.tcb(g)).Priority == s.tcb(g).Priority
            && (g != h ==> a.item(event_item(g)) == s.item(event_item(g)) && a.item(state_item(g)) == s.item(state_item(g))) by {
            assert(a.tcb(g).Priority == s1.tcb(g).Priority);
            if g != h {
                assert(a.item(event_item(g)) == s1.item(event_item(g)));
                assert(a.item(state_item(g)) == s1.item(state_item(g)));
                assert(a.item(state_item(h)) == s1.item(state_item(h)));
            }
        }
        a
    };
    assert(s.remove_from_event_list(l).0.lists == s2.lists);
    assert(s.remove_from_event_list(l).0.tasks == s2.tasks);
    let (k1, woke) = s.remove_from_event_list(l);
    let k2 = if woke { k1.missed_yield() } else { k1 };
    lemma_same_shape_wf(s2, k2);
}

/// Law: unlocking a queue wakes, in order, the tasks at the head of its
/// wait list, as many as the lock counted (all of them if fewer wait): they
/// leave the list and the others stay in order; with the scheduler running
/// each woken task is on the ready list of its priority with its event item
/// in no list, and with the scheduler suspended its event item is on the
/// pending-ready list; tasks that were not waiting on the list keep their
/// list items.
#[verifier::rlimit(60)]
pub proof fn law_unlock_wakes_first_waiting(s: KState, l: usize, n: int)
    requires
        s.wf(),
        crate::global::NUM_KERNEL_LISTS <= l < s.lists.len(),
        s.can_wake(l, n),
    ensures
        ({
            let r = s.wake_waiting(l, n);
            let m = if n <= 0 { 0 } else if n < s.list(l as int).len() { n } else { s.list(l as int).len() as int };
            &&& r.wf()
            &&& r.list(l as int) == s.list(l as int).skip(m)
            &&& forall|i: int| #![trigger s.list(l as int)[i]]
                0 <= i < m ==> {
                    let g = s.list(l as int)[i].owner;
                    &&& s.scheduler_suspended == 0 ==> {
                        &&& r.container(event_item(g)) is None
                        &&& r.container(state_item(g)) == Some(s.tcb(g).Priority as usize)
                    }
                    &&& s.scheduler_suspended != 0 ==> r.container(event_item(g)) == Some(crate::global::PENDING_READY_LIST)
                }
            &&& forall|g: TaskHandle| #![trigger s.valid_task(g)]
                s.valid_task(g) && s.container(event_item(g)) != Some(l) ==> {
                    &&& r.item(event_item(g)) == s.item(event_item(g))
                    &&& r.item(state_item(g)) == s.item(state_item(g))
                }
            &&& r.scheduler_suspended == s.scheduler_suspended
            &&& r.tasks.len() == s.tasks.len()
            &&& r.lists.len() == s.lists.len()
            &&& forall|g: TaskHandle| #![trigger r.tcb(g)] s.valid_task(g) ==> r.tcb(g).Priority == s.tcb(g).Priority
        }),
    decreases n,
{
    let li = l as int;
    if n <= 0 || s.list(li).len() == 0 {
        assert(s.list(li).skip(0) =~= s.list(li));
    } else {
        lemma_wake_one(s, l);
        let h = s.head_owner(li);
        let (k1, woke) = s.remove_from_event_list(l);
        let k2 = if woke { k1.missed_yield() } else { k1 };
        law_unlock_wakes_first_waiting(k2, l, n - 1);
        let r = k2.wake_waiting(l, n - 1);
        assert(r == s.wake_waiting(l, n));
        let m = if n < s.list(li).len() { n } else { s.list(li).len() as int };
        assert(r.list(li) =~= s.list(li).skip(m));
        assert(s.lists[li].items[0] == s.list(li)[0]);
        assert(s.container(event_item(h)) == Some(l));
        assert(k2.container(event_item(h)) != Some(l));
        assert(k2.valid_task(h));
        assert(r.item(event_item(h)) == k2.item(event_item(h)));
        assert(r.item(state_item(h)) == k2.item(state_item(h)));
        assert forall|i: int| #![trigger s.list(li)[i]]
            0 <= i < m implies {
                let g = s.list(li)[i].owner;
                &&& s.scheduler_suspended == 0 ==> {
                    &&& r.container(event_item(g)) is None
                    &&& r.container(state_item(g)) == Some(s.tcb(g).Priority as usize)
                }
                &&& s.scheduler_suspended != 0 ==> r.container(event_item(g)) == Some(crate::global::PENDING_READY_LIST)
            } by {
            if i > 0 {
                assert(s.list(li)[i] == k2.list(li)[i - 1]);
                let g = s.list(li)[i].owner;
                assert(s.lists[li].items[i] == s.list(li)[i]);
                assert(s.valid_task(g));
                assert(k2.tcb(g).Priority == s.tcb(g).Priority);
            }
        }
        assert forall|g: TaskHandle| #![trigger s.valid_task(g)]
            s.valid_task(g) && s.container(event_item(g)) != Some(l) implies {
                &&& r.item(event_item(g)) == s.item(event_item(g))
                &&& r.item(state_item(g)) == s.item(state_item(g))
            } by {
            assert(g != h);
            assert(k2.valid_task(g));
            assert(k2.tcb(g).Priority == s.tcb(g).Priority);
            assert(k2.item(event_item(g)) == s.item(event_item(g)));
        }
        assert forall|g: TaskHandle| #![trigger r.tcb(g)] s.valid_task(g) implies r.tcb(g).Priority == s.tcb(g).Priority by {
            assert(k2.valid_task(g));
            assert(k2.tcb(g).Priority == s.tcb(g).Priority);
        }
    }
}


/// Law: delaying the running task never makes the tick look at the delayed
/// list later than before. When the task is linked into the delayed list
/// (its wake time did not wrap), the next unblock time becomes the earlier
/// of its old value and the task's wake time; a wait that wraps, or an
/// unlimited wait that suspends the task, leaves it as it was.
pub proof fn law_delay_keeps_earliest_unblock_time(s: KState, ticks: crate::port::TickType, indefinitely: bool)
    requires
        s.wf(),
        s.current_tcb is Some,
    ensures
        ({
            let r = s.add_current_to_delayed(ticks, indefinitely);
            let wake = vstd::wrapping::u32_specs::wrapping_add(s.tick_count, ticks);
            if (ticks == crate::port::portMAX_DELAY && indefinitely) || wake < s.tick_count {
                r.next_task_unblock_time == s.next_task_unblock_time
            } else {
                &&& r.next_task_unblock_time <= s.next_task_unblock_time
                &&& r.next_task_unblock_time <= wake
                &&& (r.next_task_unblock_time == s.next_task_unblock_time || r.next_task_unblock_time == wake)
            }
        }),
{
}

/// Law: setting a task's priority sets its base priority to the request
/// (capped at the highest priority); a task running at its base priority
/// runs at the new one too, while a task raised by an inherited priority
/// keeps running at that priority until it gives the mutex back.
pub proof fn law_set_priority_sets_base_and_priority(s: KState, h: TaskHandle, p: UBaseType)
    requires
        s.wf(),
        s.valid_task(h),
        s.container(state_item(h)) == Some(0usize) ==> (s.tcb(h).BasePriority != s.tcb(h).Priority
            ==> s.tcb(h).Priority < configMAX_PRIORITIES),
    ensures
        ({
            let r = s.set_priority_in_detail(h, p);
            let np: UBaseType = if p < configMAX_PRIORITIES { p } else { (configMAX_PRIORITIES - 1) as UBaseType };
            &&& r.tcb(h).BasePriority == np
            &&& s.tcb(h).BasePriority == s.tcb(h).Priority ==> r.tcb(h).Priority == np
            &&& s.tcb(h).BasePriority != s.tcb(h).Priority ==> r.tcb(h).Priority == s.tcb(h).Priority
            &&& r.tcb(h).Priority <= s.tcb(h).Priority || r.tcb(h).Priority == np
        }),
{
    let np = KState::capped_priority(p);
    let t = s.tcb(h);
    let t1 = TCB { Priority: if t.BasePriority == t.Priority { np } else { t.Priority }, BasePriority: np, ..t };
    crate::tasks::lemma_set_tcb_wf(s, h, t1);
    let s1 = s.set_tcb(h, t1);
    assert(s1.tcb(h) == t1);
    let ev = event_item(h);
    crate::tasks::lemma_set_value_facts(s1, ev, (configMAX_PRIORITIES - np) as crate::port::TickType);
    let s2 = s1.set_value(ev, (configMAX_PRIORITIES - np) as crate::port::TickType);
    assert(s2.tcb(h).Priority == t1.Priority);
    assert(s2.tcb(h).BasePriority == np) by {
        assert(s2.tasks[h.0 as int] == with_item(s1.tasks[h.0 as int], ev.kind, ListItem {
            value: (configMAX_PRIORITIES - np) as crate::port::TickType,
            container: s1.container(ev),
        })) by {
            crate::global::lemma_set_item(s1, ev, ListItem {
                value: (configMAX_PRIORITIES - np) as crate::port::TickType,
                container: s1.container(ev),
            });
        }
    }
    if s2.container(state_item(h)) == Some(0usize) {
        crate::global::lemma_event_not_delayed(s1, ev);
        crate::global::lemma_set_value_wf(s1, ev, (configMAX_PRIORITIES - np) as crate::port::TickType);
        crate::tasks::lemma_unlink_facts(s2, state_item(h));
        let s3 = s2.unlink(state_item(h));
        assert(s3.tcb(h).BasePriority == np) by {
            assert(s3.tasks[h.0 as int] == with_item(s2.tasks[h.0 as int], ItemKind::State, ListItem {
                value: s2.value(state_item(h)),
                container: None,
            })) by {
                crate::global::lemma_set_item(s2, state_item(h), ListItem { value: s2.value(state_item(h)), container: None });
            }
        }
        assert(s3.can_ready(h));
        crate::tasks::lemma_add_to_ready_facts(s3, h);
        let s4 = s3.add_to_ready_list(h);
        assert(s4.tcb(h).BasePriority == np) by {
            let q = s3.record_ready_priority(s3.tcb(h).Priority);
            assert(q.tasks == s3.tasks);
            crate::global::lemma_set_item(q, state_item(h), ListItem { value: q.value(state_item(h)), container: Some(s3.tcb(h).Priority as usize) });
        }
    }
}

/// Resetting a queue that is in use gives room to the tasks waiting to
/// send, so the first of them is woken: it leaves the send list, the others
/// stay in order, and it is on the ready list of its priority (on the
/// pending-ready list while the scheduler is suspended). With no task
/// waiting to send, the kernel is left as it was.
pub proof fn law_reset_wakes_one_sender<T>(k: KState, q: QModel<T>)
    requires
        k.wf(),
        can_reset(k, q, false),
    ensures
        ({
            let r = reset_queue(k, q, false).0;
            let l = q.send_list as int;
            let h = k.head_owner(l);
            if k.list(l).len() > 0 {
                &&& r.list(l) == k.list(l).drop_first()
                &&& k.list(l)[0] == event_item(h)
                &&& r.container(event_item(h)) != Some(q.send_list)
                &&& k.scheduler_suspended == 0 ==> {
                    &&& r.container(event_item(h)) is None
                    &&& r.container(state_item(h)) == Some(k.tcb(h).Priority as usize)
                }
                &&& k.scheduler_suspended != 0 ==> r.container(event_item(h)) == Some(crate::global::PENDING_READY_LIST)
            } else {
                r == k
            }
        }),
{
    let l = q.send_list;
    assert(q.reset().send_list == l);
    if k.list(l as int).len() > 0 {
        lemma_wake_one(k, l);
        let (k1, woke) = k.remove_from_event_list(l);
        let k2 = if woke { k1.missed_yield() } else { k1 };
        assert(k2.lists == k1.lists && k2.tasks == k1.tasks);
    }
}


/// The wake-up loop of a tick and the switch it reports: a required switch
/// stays required; tasks outside the delayed list keep their state items;
/// a task that the loop moves from the delayed list to the ready list of
/// its priority, at least as urgent as the running task, makes the switch
/// required; and a switch the loop makes required comes from such a task.
proof fn lemma_unblock_switch(s: KState, tick: crate::port::TickType, switch: bool, fuel: nat)
    requires
        s.wf(),
        s.due_ok(tick),
        s.current_tcb is Some,
    ensures
        ({
            let (r, sw) = s.unblock_delayed(tick, switch, fuel);
            let d = s.delayed_id();
            let cp = s.current_priority();
            &&& r.wf()
            &&& r.tasks.len() == s.tasks.len()
            &&& r.delayed_id() == d
            &&& r.current_tcb == s.current_tcb
            &&& forall|x: TaskHandle| #![trigger r.tcb(x)] s.valid_task(x) ==> r.tcb(x).Priority == s.tcb(x).Priority
            &&& forall|x: TaskHandle| #![trigger r.item(state_item(x))]
                s.valid_task(x) && s.container(state_item(x)) != Some(d) ==> r.item(state_item(x)) == s.item(state_item(x))
            &&& switch ==> sw
            &&& forall|x: TaskHandle| #![trigger r.container(state_item(x))]
                s.valid_task(x) && s.container(state_item(x)) == Some(d)
                    && s.tcb(x).Priority < configMAX_PRIORITIES
                    && r.container(state_item(x)) == Some(s.tcb(x).Priority as usize)
                    && s.tcb(x).Priority >= cp ==> sw
            &&& sw ==> switch || exists|x: TaskHandle| #![trigger r.container(state_item(x))]
                s.valid_task(x) && s.container(state_item(x)) == Some(d)
                    && s.tcb(x).Priority < configMAX_PRIORITIES
                    && r.container(state_item(x)) == Some(s.tcb(x).Priority as usize)
                    && s.tcb(x).Priority >= cp
        }),
    decreases fuel,
{
    let d = s.delayed_id();
    let di = d as int;
    if s.list(di).len() == 0 {
        lemma_same_shape_wf(s, KState { next_task_unblock_time: crate::port::portMAX_DELAY, ..s });
    } else {
        let g = s.head_owner(di);
        let v = s.value(state_item(g));
        assert(s.lists[di].items[0] == s.list(di)[0]);
        assert(s.list(di)[0] == state_item(g));
        if tick < v {
            lemma_same_shape_wf(s, KState { next_task_unblock_time: v, ..s });
        } else if fuel > 0 {
            assert(s.tcb(g).Priority < configMAX_PRIORITIES);
            crate::kernel::lemma_unblock_facts(s, g, di);
            let s1 = s.unblock_task(g);
            assert forall|x: TaskHandle|
                s1.valid_task(x) && s1.container(state_item(x)) == Some(s1.delayed_id()) && s1.value(state_item(x)) <= tick
                implies (#[trigger] s1.tcb(x)).Priority < configMAX_PRIORITIES by {
                assert(s.valid_task(x));
                assert(s1.tcb(x).Priority == s.tcb(x).Priority);
                if x != g {
                    assert(s1.item(state_item(x)) == s.item(state_item(x)));
                }
            }
            let cp = s.current_priority();
            assert(s1.current_priority() == cp);
            let sw1 = switch || s1.tcb(g).Priority >= s1.current_priority();
            lemma_unblock_switch(s1, tick, sw1, (fuel - 1) as nat);
            let (r, sw) = s1.unblock_delayed(tick, sw1, (fuel - 1) as nat);
            assert((r, sw) == s.unblock_delayed(tick, switch, fuel));
            assert(s1.container(state_item(g)) == Some(s.tcb(g).Priority as usize));
            assert(s1.container(state_item(g)) != Some(d));
            assert(r.item(state_item(g)) == s1.item(state_item(g)));
            assert forall|x: TaskHandle| #![trigger r.tcb(x)] s.valid_task(x) implies r.tcb(x).Priority == s.tcb(x).Priority by {
                assert(s1.tcb(x).Priority == s.tcb(x).Priority);
            }
            assert forall|x: TaskHandle| #![trigger r.item(state_item(x))]
                s.valid_task(x) && s.container(state_item(x)) != Some(d) implies r.item(state_item(x)) == s.item(state_item(x)) by {
                assert(x != g);
                assert(s1.item(state_item(x)) == s.item(state_item(x)));
            }
            assert forall|x: TaskHandle| #![trigger r.container(state_item(x))]
                s.valid_task(x) && s.container(state_item(x)) == Some(d)
                    && s.tcb(x).Priority < configMAX_PRIORITIES
                    && r.container(state_item(x)) == Some(s.tcb(x).Priority as usize)
                    && s.tcb(x).Priority >= cp implies sw by {
                if x != g {
                    assert(s1.item(state_item(x)) == s.item(state_item(x)));
                    assert(s1.tcb(x).Priority == s.tcb(x).Priority);
                }
            }
            if sw && !switch {
                if !sw1 {
                    let x = choose|x: TaskHandle| #![trigger r.container(state_item(x))]
                        s1.valid_task(x) && s1.container(state_item(x)) == Some(d)
                            && s1.tcb(x).Priority < configMAX_PRIORITIES
                            && r.container(state_item(x)) == Some(s1.tcb(x).Priority as usize)
                            && s1.tcb(x).Priority >= cp;
                    assert(x != g);
                    assert(s1.item(state_item(x)) == s.item(state_item(x)));
                    assert(s1.tcb(x).Priority == s.tcb(x).Priority);
                    assert(s.container(state_item(x)) == Some(d));
                } else {
                    assert(r.container(state_item(g)) == Some(s.tcb(g).Priority as usize));
                }
            }
        }
    }
}

/// Law: a tick with the scheduler running requires a context switch when
/// it wakes a task at least as urgent as the running one: a task that the
/// tick moves from a delayed list to the ready list of its priority, with a
/// priority at least the running task's, makes the tick report a switch.
/// Conversely, a switch is reported only for such a woken task or because
/// the running task shares its ready list with another task (time
/// slicing); a woken task less urgent than the running one does not force
/// one.
pub proof fn law_tick_switches_for_urgent_wake(s: KState)
    requires
        s.wf(),
        s.can_tick(),
        s.scheduler_suspended == 0,
    ensures
        ({
            let (r, sw) = s.increment_tick();
            let cp = s.current_priority();
            &&& forall|h: TaskHandle| #![trigger r.container(state_item(h))]
                s.valid_task(h)
                    && (s.container(state_item(h)) == Some(crate::global::DELAYED_LIST_A)
                        || s.container(state_item(h)) == Some(crate::global::DELAYED_LIST_B))
                    && s.tcb(h).Priority < configMAX_PRIORITIES
                    && r.container(state_item(h)) == Some(s.tcb(h).Priority as usize)
                    && s.tcb(h).Priority >= cp ==> sw
            &&& sw ==> r.list(cp as int).len() > 1 || exists|h: TaskHandle| #![trigger r.container(state_item(h))]
                s.valid_task(h)
                    && (s.container(state_item(h)) == Some(crate::global::DELAYED_LIST_A)
                        || s.container(state_item(h)) == Some(crate::global::DELAYED_LIST_B))
                    && r.container(state_item(h)) == Some(s.tcb(h).Priority as usize)
                    && s.tcb(h).Priority >= cp
        }),
{
    let tick = vstd::wrapping::u32_specs::wrapping_add(s.tick_count, 1);
    let s2 = s.ticked();
    lemma_same_shape_wf(s, s2);
    assert(s2.tasks == s.tasks);
    assert(s2.current_priority() == s.current_priority());
    let cp = s.current_priority();
    let (r, sw) = s.increment_tick();
    if tick >= s2.next_task_unblock_time {
        let fuel = s2.list(s2.delayed_id() as int).len();
        lemma_unblock_switch(s2, tick, false, fuel);
        let (r3, sw3) = s2.unblock_delayed(tick, false, fuel);
        assert(r == r3);
        lemma_unblock_delayed_frame(s2, tick, false, fuel);
        assert(r3.current_priority() == cp) by {
            assert(r3.tcb(s.current_tcb.unwrap()).Priority == s2.tcb(s.current_tcb.unwrap()).Priority);
        }
        assert forall|h: TaskHandle| #![trigger r.container(state_item(h))]
            s.valid_task(h)
                && (s.container(state_item(h)) == Some(crate::global::DELAYED_LIST_A)
                    || s.container(state_item(h)) == Some(crate::global::DELAYED_LIST_B))
                && s.tcb(h).Priority < configMAX_PRIORITIES
                && r.container(state_item(h)) == Some(s.tcb(h).Priority as usize)
                && s.tcb(h).Priority >= cp implies sw by {
            assert(s2.container(state_item(h)) == s.container(state_item(h)));
            if s2.container(state_item(h)) != Some(s2.delayed_id()) {
                assert(r3.item(state_item(h)) == s2.item(state_item(h)));
            }
        }
        if sw && !(r.list(cp as int).len() > 1) {
            assert(sw3);
            let x = choose|x: TaskHandle| #![trigger r3.container(state_item(x))]
                s2.valid_task(x) && s2.container(state_item(x)) == Some(s2.delayed_id())
                    && s2.tcb(x).Priority < configMAX_PRIORITIES
                    && r3.container(state_item(x)) == Some(s2.tcb(x).Priority as usize)
                    && s2.tcb(x).Priority >= cp;
            assert(s2.container(state_item(x)) == s.container(state_item(x)));
            assert(s2.tcb(x) == s.tcb(x));
        }
    } else {
        assert(r == s2);
        assert forall|h: TaskHandle| #![trigger r.container(state_item(h))]
            s.valid_task(h)
                && (s.container(state_item(h)) == Some(crate::global::DELAYED_LIST_A)
                    || s.container(state_item(h)) == Some(crate::global::DELAYED_LIST_B))
                && s.tcb(h).Priority < configMAX_PRIORITIES
                && r.container(state_item(h)) == Some(s.tcb(h).Priority as usize)
                && s.tcb(h).Priority >= cp implies sw by {
            assert(s2.container(state_item(h)) == s.container(state_item(h)));
        }
    }
}

} // verus!
