use vstd::prelude::*;
use std::collections::VecDeque;
use crate::global::{Kernel, KState, NUM_KERNEL_LISTS};
use crate::port::{BaseType, TickType, UBaseType};
use crate::kernel::{TaskSuspendAll, TaskResumeAll};
use crate::task_queue::{
    time_out, timed_out, xTaskRemoveFromEventList, vTaskMissedYield, pvTaskIncrementMutexHeldCount,
    vTaskPriorityInherit, xTaskCheckForTimeOut, vTaskSetTimeOutState, vTaskPlaceOnEventList,
    lemma_increment_mutex_held_facts,
};
use crate::tasks::{event_item, TaskHandle, lemma_frame_priorities};

verus! {

broadcast use vstd::std_specs::vecdeque::group_vec_dequeue_axioms;

pub const queueQUEUE_IS_MUTEX: UBaseType = 0;
pub const queueUNLOCKED: i8 = -1;
pub const queueLOCKED_UNMODIFIED: i8 = 0;
pub const queueSEMAPHORE_QUEUE_ITEM_LENGTH: UBaseType = 0;
pub const queueMUTEX_GIVE_BLOCK_TIME: TickType = 0;

/// Copy position: behind the items already queued.
pub const queueSEND_TO_BACK: BaseType = 0;
/// Copy position: in front of the items already queued.
pub const queueSEND_TO_FRONT: BaseType = 1;
/// Copy position: in front, replacing an item when the queue is full.
pub const queueOVERWRITE: BaseType = 2;

/// What a queue is used as.
#[derive(Clone, Copy, PartialEq, Eq, Structural, Debug)]
pub enum QueueType {
    Base,
    QueueSet,
    Mutex,
    CountingSemaphore,
    BinarySemaphore,
    RecursiveMutex,
}

/// Why a queue operation failed.
#[derive(Clone, Copy, PartialEq, Eq, Structural, Debug)]
pub enum QueueError {
    QueueFull,
    QueueEmpty,
}

/// Where a blocking queue call stands between its attempts: the ticks it
/// may still wait, and whether and when its wait started.
#[derive(Clone, Copy, Debug)]
pub struct WaitState {
    pub xTicksToWait: TickType,
    pub xEntryTimeSet: bool,
    pub xTimeOut: time_out,
}

/// The state of a call that may wait `ticks` ticks and has not started
/// waiting.
pub open spec fn fresh_wait(ticks: TickType) -> WaitState {
    WaitState { xTicksToWait: ticks, xEntryTimeSet: false, xTimeOut: time_out { overflow_count: 0, time_on_entering: 0 } }
}

impl WaitState {
    /// A call that may wait `ticks` ticks and has not started waiting.
    pub fn new(ticks: TickType) -> (w: WaitState)
        ensures
            w == fresh_wait(ticks),
    {
        WaitState { xTicksToWait: ticks, xEntryTimeSet: false, xTimeOut: time_out { overflow_count: 0, time_on_entering: 0 } }
    }
}

/// How one attempt of a blocking queue call ended: it succeeded, it
/// failed, or it has to be made again once the port has yielded.
#[derive(Clone, Copy, PartialEq, Eq, Structural, Debug)]
pub enum StepOutcome {
    Success,
    Failure,
    Again,
}

/// The end of one attempt to send: the call's result, or the item handed
/// back to be sent again after the port has yielded.
#[derive(Debug)]
pub enum SendStep<T> {
    Done(Result<(), QueueError>),
    Retry(T),
}

/// The end of one attempt of a blocking call: the call's result, or a
/// request to make the attempt again once the port has yielded.
#[derive(Debug, PartialEq, Eq)]
pub enum Attempt<R> {
    Done(R),
    Retry,
}

/// What an attempt to send `item` returns, by how it ended.
pub open spec fn send_result<T>(o: StepOutcome, item: T) -> SendStep<T> {
    match o {
        StepOutcome::Success => SendStep::Done(Ok(())),
        StepOutcome::Failure => SendStep::Done(Err(QueueError::QueueFull)),
        StepOutcome::Again => SendStep::Retry(item),
    }
}

/// A storage slot of a queue: an item sent to it, or, in a mutex, the task
/// that took the mutex.
#[derive(Debug)]
pub enum QueueSlot<T> {
    Item(T),
    Holder(Option<TaskHandle>),
}

/// `b` is a possible copy of slot `a`.
pub open spec fn slot_cloned<T: Clone>(a: QueueSlot<T>, b: QueueSlot<T>) -> bool {
    match a {
        QueueSlot::Item(x) => b matches QueueSlot::Item(y) && vstd::pervasive::cloned(x, y),
        QueueSlot::Holder(h) => b == QueueSlot::<T>::Holder(h),
    }
}

impl<T: Clone> QueueSlot<T> {
    /// A copy of the slot.
    pub fn clone_slot(&self) -> (r: QueueSlot<T>)
        ensures
            slot_cloned(*self, r),
    {
        match self {
            QueueSlot::Item(x) => QueueSlot::Item(x.clone()),
            QueueSlot::Holder(h) => QueueSlot::Holder(*h),
        }
    }
}

/// Whether queues of type `t` are mutexes.
pub open spec fn is_mutex_type(t: QueueType) -> bool {
    t == QueueType::Mutex || t == QueueType::RecursiveMutex
}

/// The mathematical model of a queue.
#[verifier::ext_equal]
pub struct QModel<T> {
    pub queue: Seq<QueueSlot<T>>,
    pub head: UBaseType,
    pub tail: UBaseType,
    pub write_to: UBaseType,
    pub queue_union: UBaseType,
    pub send_list: usize,
    pub receive_list: usize,
    pub messages_waiting: UBaseType,
    pub length: UBaseType,
    pub rx_lock: i8,
    pub tx_lock: i8,
    pub statically_allocated: u8,
    pub queue_number: UBaseType,
    pub queue_type: QueueType,
}

/// A queue. Its storage is a sequence of slots; `pcWriteTo` is where the
/// next item sent to the back goes, and `QueueUnion` is both the position
/// the last item was read from and, in a recursive mutex, the recursion
/// count. The lists of tasks waiting to send and to receive are event lists
/// of the kernel, named by id.
pub struct QueueDefinition<T> {
    pub pcQueue: VecDeque<QueueSlot<T>>,
    pub pcHead: UBaseType,
    pub pcTail: UBaseType,
    pub pcWriteTo: UBaseType,
    pub QueueUnion: UBaseType,
    pub xTasksWaitingToSend: usize,
    pub xTasksWaitingToReceive: usize,
    pub uxMessagesWaiting: UBaseType,
    pub uxLength: UBaseType,
    pub cRxLock: i8,
    pub cTxLock: i8,
    pub ucStaticallyAllocated: u8,
    pub uxQueueNumber: UBaseType,
    pub ucQueueType: QueueType,
}

impl<T> View for QueueDefinition<T> {
    type V = QModel<T>;

    open spec fn view(&self) -> QModel<T> {
        QModel {
            queue: self.pcQueue@,
            head: self.pcHead,
            tail: self.pcTail,
            write_to: self.pcWriteTo,
            queue_union: self.QueueUnion,
            send_list: self.xTasksWaitingToSend,
            receive_list: self.xTasksWaitingToReceive,
            messages_waiting: self.uxMessagesWaiting,
            length: self.uxLength,
            rx_lock: self.cRxLock,
            tx_lock: self.cTxLock,
            statically_allocated: self.ucStaticallyAllocated,
            queue_number: self.uxQueueNumber,
            queue_type: self.ucQueueType,
        }
    }
}

impl<T> QModel<T> {
    pub open spec fn is_mutex(self) -> bool {
        is_mutex_type(self.queue_type)
    }

    /// The queue's event lists are event lists of kernel state `k`.
    pub open spec fn lists_in(self, k: KState) -> bool {
        &&& NUM_KERNEL_LISTS <= self.send_list < k.lists.len()
        &&& NUM_KERNEL_LISTS <= self.receive_list < k.lists.len()
    }

    /// Where `prvCopyDataFromQueue` reads: the slot after the last one
    /// read, wrapping from the tail to the head.
    pub open spec fn read_index(self) -> UBaseType {
        if self.queue_union + 1 >= self.tail {
            self.head
        } else {
            (self.queue_union + 1) as UBaseType
        }
    }

    /// What `prvCopyDataFromQueue` needs to run without failing.
    pub open spec fn can_copy_from(self) -> bool {
        &&& self.queue_union < UBaseType::MAX
        &&& self.read_index() < self.queue.len()
    }

    /// `prvCopyDataFromQueue`: the read position advanced; the slot there is
    /// what is read.
    pub open spec fn copy_from(self) -> QModel<T> {
        QModel { queue_union: self.read_index(), ..self }
    }

    /// What `prvCopyDataToQueue` needs of the queue to run without failing.
    pub open spec fn can_copy_to(self, pos: BaseType) -> bool {
        &&& self.queue.len() < usize::MAX
        &&& if pos == queueSEND_TO_BACK {
            &&& !self.is_mutex() ==> self.write_to <= self.queue.len()
            &&& self.write_to < UBaseType::MAX
        } else {
            &&& !self.is_mutex() ==> self.queue_union <= self.queue.len()
            &&& self.queue_union > 0
            &&& self.queue_union - 1 < self.head ==> self.tail > 0
        }
        &&& (if pos == queueOVERWRITE && self.messages_waiting > 0 {
            self.messages_waiting - 1
        } else {
            self.messages_waiting as int
        }) < UBaseType::MAX
    }

    /// `prvCopyDataToQueue` given the mutex holder recorded (when the queue
    /// is a mutex): a mutex records its holder in front; any other queue
    /// stores the item at the write position (sending to the back) or at
    /// the read position (otherwise); the write position then advances, or
    /// the read position steps back, wrapping at the ends; an overwrite of
    /// a non-empty queue replaces a message, anything else adds one.
    pub open spec fn copy_to(self, item: T, pos: BaseType, holder: Option<TaskHandle>) -> QModel<T> {
        let q0 = if self.is_mutex() {
            QModel { queue: self.queue.insert(0, QueueSlot::Holder(holder)), ..self }
        } else {
            self
        };
        let q1 = if pos == queueSEND_TO_BACK {
            let q = if !q0.is_mutex() {
                QModel { queue: q0.queue.insert(q0.write_to as int, QueueSlot::Item(item)), ..q0 }
            } else {
                q0
            };
            let w = (q.write_to + 1) as UBaseType;
            QModel {
                write_to: if w >= q.tail {
                    q.head
                } else {
                    w
                },
                ..q
            }
        } else {
            let q = if !q0.is_mutex() {
                QModel { queue: q0.queue.insert(q0.queue_union as int, QueueSlot::Item(item)), ..q0 }
            } else {
                q0
            };
            let u = (q.queue_union - 1) as UBaseType;
            QModel {
                queue_union: if u < q.head {
                    (q.tail - 1) as UBaseType
                } else {
                    u
                },
                ..q
            }
        };
        let m = if pos == queueOVERWRITE && self.messages_waiting > 0 {
            (self.messages_waiting - 1) as UBaseType
        } else {
            self.messages_waiting
        };
        QModel { messages_waiting: (m + 1) as UBaseType, ..q1 }
    }

    /// `xQueueGenericReset`'s effect on the queue itself: tail after the
    /// last slot, no message, write position at the head, read position on
    /// the last slot, both locks released, storage emptied.
    pub open spec fn reset(self) -> QModel<T> {
        QModel {
            tail: (self.head + self.length) as UBaseType,
            messages_waiting: 0,
            write_to: self.head,
            queue_union: (self.head + self.length - 1) as UBaseType,
            rx_lock: queueUNLOCKED,
            tx_lock: queueUNLOCKED,
            queue: Seq::empty(),
            ..self
        }
    }

    /// `prvLockQueue`: each unlocked lock becomes locked with nothing
    /// recorded.
    pub open spec fn lock(self) -> QModel<T> {
        QModel {
            rx_lock: if self.rx_lock == queueUNLOCKED {
                queueLOCKED_UNMODIFIED
            } else {
                self.rx_lock
            },
            tx_lock: if self.tx_lock == queueUNLOCKED {
                queueLOCKED_UNMODIFIED
            } else {
                self.tx_lock
            },
            ..self
        }
    }

    /// The mutex holder recorded in front of the storage, if any (a slot
    /// that holds an item records none).
    pub open spec fn front_holder(self) -> Option<TaskHandle> {
        if self.queue.len() > 0 {
            match self.queue[0] {
                QueueSlot::Holder(h) => h,
                QueueSlot::Item(_) => None,
            }
        } else {
            None
        }
    }
}

impl KState {
    /// `self` after a missed yield is recorded (the pending yield cleared).
    pub open spec fn missed_yield(self) -> KState {
        KState { yield_pending: false, ..self }
    }

    /// Up to `n` waiting tasks of list `l` woken, one after the other, each
    /// more urgent one recorded as a missed yield; stops early when the
    /// list runs empty.
    pub open spec fn wake_waiting(self, l: usize, n: int) -> KState
        decreases n,
    {
        if n <= 0 || self.list(l as int).len() == 0 {
            self
        } else {
            let (k1, woke) = self.remove_from_event_list(l);
            let k2 = if woke {
                k1.missed_yield()
            } else {
                k1
            };
            k2.wake_waiting(l, n - 1)
        }
    }
}

impl KState {
    /// What waking up to `n` tasks of list `l` in turn needs: what each
    /// wake needs (see `can_remove_from_event_list`) in the state it meets.
    pub open spec fn can_wake(self, l: usize, n: int) -> bool
        decreases n,
    {
        if n <= 0 || self.list(l as int).len() == 0 {
            true
        } else {
            let (k1, woke) = self.remove_from_event_list(l);
            let k2 = if woke {
                k1.missed_yield()
            } else {
                k1
            };
            self.can_remove_from_event_list(l) && k2.can_wake(l, n - 1)
        }
    }
}

/// `prvUnlockQueue` on kernel state `k` and queue `q`: as many tasks
/// waiting to receive woken as the transmit lock counted, then as many as
/// the receive lock counted; both locks released.
pub open spec fn unlock_queue<T>(k: KState, q: QModel<T>) -> (KState, QModel<T>) {
    let k1 = k.wake_waiting(q.receive_list, q.tx_lock as int);
    let k2 = k1.wake_waiting(q.receive_list, q.rx_lock as int);
    (k2, QModel { tx_lock: queueUNLOCKED, rx_lock: queueUNLOCKED, ..q })
}


/// `xQueueGenericReset` on kernel state `k` and queue `q`: the queue reset;
/// a new queue gets two fresh event lists, while resetting a queue in use
/// wakes one task waiting to send, if any.
pub open spec fn reset_queue<T>(k: KState, q: QModel<T>, new_queue: bool) -> (KState, QModel<T>) {
    let q1 = q.reset();
    if !new_queue {
        if k.list(q1.send_list as int).len() > 0 {
            (k.remove_from_event_list(q1.send_list).0, q1)
        } else {
            (k, q1)
        }
    } else {
        (
            k.add_event_list().add_event_list(),
            QModel { send_list: k.lists.len() as usize, receive_list: (k.lists.len() + 1) as usize, ..q1 },
        )
    }
}

/// What `xQueueGenericReset` needs to run without failing.
pub open spec fn can_reset<T>(k: KState, q: QModel<T>, new_queue: bool) -> bool {
    &&& q.head + q.length <= UBaseType::MAX
    &&& q.head + q.length >= 1
    &&& if new_queue {
        k.lists.len() + 2 <= usize::MAX
    } else {
        &&& q.lists_in(k)
        &&& k.list(q.send_list as int).len() > 0 ==> k.can_remove_from_event_list(q.send_list)
    }
}

/// The wait `w` with its start recorded as now, unless it has started.
pub open spec fn start_wait(k: KState, w: WaitState) -> WaitState {
    if !w.xEntryTimeSet {
        WaitState {
            xEntryTimeSet: true,
            xTimeOut: time_out { overflow_count: k.num_of_overflows, time_on_entering: k.tick_count },
            ..w
        }
    } else {
        w
    }
}

/// What the waiting half of an attempt on queue `q` with wait `w` needs
/// (see `wait_attempt`): a running task that waits on no event list, room
/// for one more suspension of the scheduler, and what the resume that ends
/// the attempt needs in the state it meets (see `can_resume_all`).
pub open spec fn can_wait<T>(k: KState, q: QModel<T>, w: WaitState, sending: bool) -> bool {
    &&& k.current_tcb is Some
    &&& k.scheduler_suspended < UBaseType::MAX
    &&& k.container(event_item(k.current_tcb.unwrap())) is None
    &&& wait_before_resume(k, q, w, sending).0.can_resume_all()
}

/// What priority inheritance from the running task to `holder` needs: a
/// valid holder, a running task, and the bounds of `inherit_bounds`.
pub open spec fn can_inherit(k: KState, holder: Option<TaskHandle>) -> bool {
    holder matches Some(t) ==> {
        &&& k.valid_task(t)
        &&& k.current_tcb is Some
        &&& k.inherit_bounds(t)
    }
}

/// The waiting half of an attempt on queue `q` (to send when `sending`,
/// else to receive): with the scheduler suspended and the queue locked,
/// the wait is checked for a time-out; if it has not timed out the wait
/// left is shortened, and a caller that still cannot proceed (the queue
/// full for a sender, empty for a receiver) is blocked on the queue's
/// matching event list for the wait left; then the queue is unlocked and
/// the scheduler resumed. Also whether the wait timed out.
pub open spec fn wait_attempt<T>(k: KState, q: QModel<T>, w: WaitState, sending: bool) -> (KState, QModel<T>, WaitState, bool) {
    let (k3, q3, w1, expired) = wait_before_resume(k, q, w, sending);
    (k3.resume_all().0, q3, w1, expired)
}

/// The waiting half of an attempt up to the resume of the scheduler that
/// ends it (see `wait_attempt`).
pub open spec fn wait_before_resume<T>(k: KState, q: QModel<T>, w: WaitState, sending: bool) -> (KState, QModel<T>, WaitState, bool) {
    let k1 = KState { scheduler_suspended: (k.scheduler_suspended + 1) as UBaseType, ..k };
    let q1 = q.lock();
    if !timed_out(k1, w.xTimeOut, w.xTicksToWait) {
        let w1 = WaitState {
            xTicksToWait: (w.xTicksToWait - vstd::wrapping::u32_specs::wrapping_sub(
                k1.tick_count,
                w.xTimeOut.time_on_entering,
            )) as TickType,
            xTimeOut: time_out { overflow_count: k1.num_of_overflows, time_on_entering: k1.tick_count },
            ..w
        };
        let blocked = if sending {
            q1.messages_waiting == q1.length
        } else {
            q1.messages_waiting == 0
        };
        let k2 = if blocked {
            k1.place_on_event_list(if sending { q1.send_list } else { q1.receive_list }, w1.xTicksToWait)
        } else {
            k1
        };
        let (k3, q3) = unlock_queue(k2, q1);
        (k3, q3, w1, false)
    } else {
        let (k3, q3) = unlock_queue(k1, q1);
        (k3, q3, w, true)
    }
}

/// One attempt of `xQueueGenericSend` to send `item` at copy position
/// `pos`. With room in the queue (or to overwrite) the item is stored and
/// the first task waiting to receive, if any, is woken: success. Otherwise
/// a mutex's holder inherits the caller's priority; with no time to wait
/// the attempt fails, else the caller waits (see `wait_attempt`) and fails
/// if the wait timed out, or has to try again.
pub open spec fn send_step<T>(k: KState, q: QModel<T>, item: T, w: WaitState, pos: BaseType) -> (KState, QModel<T>, WaitState, StepOutcome) {
    if q.messages_waiting < q.length || pos == queueOVERWRITE {
        let k1 = if q.is_mutex() {
            k.increment_mutex_held()
        } else {
            k
        };
        let q1 = q.copy_to(item, pos, k.current_tcb);
        let k2 = if k1.list(q1.receive_list as int).len() > 0 {
            k1.remove_from_event_list(q1.receive_list).0
        } else {
            k1
        };
        (k2, q1, w, StepOutcome::Success)
    } else {
        let k1 = if q.is_mutex() {
            k.priority_inherit(q.front_holder())
        } else {
            k
        };
        if w.xTicksToWait == 0 {
            (k1, q, w, StepOutcome::Failure)
        } else {
            let (k2, q2, w2, expired) = wait_attempt(k1, q, start_wait(k1, w), true);
            (k2, q2, w2, if expired { StepOutcome::Failure } else { StepOutcome::Again })
        }
    }
}

/// What an attempt of `xQueueGenericSend` needs to run without failing.
pub open spec fn can_send<T>(k: KState, q: QModel<T>, w: WaitState, pos: BaseType) -> bool {
    &&& q.lists_in(k)
    &&& !(pos == queueOVERWRITE && q.length == 1)
    &&& if q.messages_waiting < q.length || pos == queueOVERWRITE {
        &&& q.can_copy_to(pos)
        &&& q.is_mutex() ==> (k.current_tcb matches Some(c) ==> k.tcb(c).MutexedHeld < UBaseType::MAX)
        &&& k.list(q.receive_list as int).len() > 0 ==> (if q.is_mutex() {
            k.increment_mutex_held()
        } else {
            k
        }).can_remove_from_event_list(q.receive_list)
    } else {
        &&& q.is_mutex() ==> can_inherit(k, q.front_holder())
        &&& w.xTicksToWait != 0 ==> {
            let k1 = if q.is_mutex() {
                k.priority_inherit(q.front_holder())
            } else {
                k
            };
            can_wait(k1, q, start_wait(k1, w), true)
        }
    }
}

/// One attempt of `xQueueGenericReceive`. With a message queued the slot
/// after the last one read is read: peeking leaves queue and kernel as
/// they were; receiving counts one message fewer, in a mutex hands the
/// recorded holder's priority to the caller's level (see
/// `priority_inherit`) and drops the front slot, and wakes the first task
/// waiting to send, if any: success. With no message and no time to wait
/// the attempt fails; else the caller waits (see `wait_attempt`) and fails
/// if the wait timed out with the queue still empty, or has to try again.
pub open spec fn receive_step<T>(k: KState, q: QModel<T>, w: WaitState, peek: bool) -> (KState, QModel<T>, WaitState, StepOutcome) {
    if q.messages_waiting > 0 {
        if !peek {
            let q2 = QModel { messages_waiting: (q.messages_waiting - 1) as UBaseType, ..q.copy_from() };
            let (k1, q3) = if q.is_mutex() {
                (
                    k.priority_inherit(q2.front_holder()),
                    QModel {
                        queue: if q2.queue.len() > 0 {
                            q2.queue.remove(0)
                        } else {
                            q2.queue
                        },
                        ..q2
                    },
                )
            } else {
                (k, q2)
            };
            let k2 = if k1.list(q3.send_list as int).len() > 0 {
                k1.remove_from_event_list(q3.send_list).0
            } else {
                k1
            };
            (k2, q3, w, StepOutcome::Success)
        } else {
            (k, q, w, StepOutcome::Success)
        }
    } else if w.xTicksToWait == 0 {
        (k, q, w, StepOutcome::Failure)
    } else {
        let (k2, q2, w2, expired) = wait_attempt(k, q, start_wait(k, w), false);
        (k2, q2, w2, if expired && q2.messages_waiting == 0 { StepOutcome::Failure } else { StepOutcome::Again })
    }
}

/// What an attempt of `xQueueGenericReceive` needs to run without failing.
/// Peeking at a queued message is only defined while some task waits to
/// receive: with none waiting, the peek path goes on to wake the head of
/// the empty receive list.
pub open spec fn can_receive<T>(k: KState, q: QModel<T>, w: WaitState, peek: bool) -> bool {
    &&& q.lists_in(k)
    &&& if q.messages_waiting > 0 {
        &&& q.can_copy_from()
        &&& if !peek {
            &&& q.is_mutex() ==> can_inherit(k, q.front_holder())
            &&& k.list(q.send_list as int).len() > 0 ==> (if q.is_mutex() {
                k.priority_inherit(q.front_holder())
            } else {
                k
            }).can_remove_from_event_list(q.send_list)
        } else {
            k.list(q.receive_list as int).len() > 0
        }
    } else {
        w.xTicksToWait != 0 ==> can_wait(k, q, start_wait(k, w), false)
    }
}

/// `xQueueGenericSendFromISR` of `item` at copy position `pos`: with room
/// (or to overwrite) the item is stored; then with the queue unlocked the
/// first task waiting to receive, if any, is woken, and whether it is more
/// urgent than the running task is reported; with the queue locked the
/// send is counted on the transmit lock instead. A full queue is left as it
/// is and the result is `QueueFull`.
pub open spec fn send_from_isr<T>(k: KState, q: QModel<T>, item: T, pos: BaseType) -> (KState, QModel<T>, Result<(), QueueError>, bool) {
    if q.messages_waiting < q.length || pos == queueOVERWRITE {
        let k1 = if q.is_mutex() {
            k.increment_mutex_held()
        } else {
            k
        };
        let q1 = q.copy_to(item, pos, k.current_tcb);
        if q.tx_lock == queueUNLOCKED {
            if k1.list(q1.receive_list as int).len() > 0 {
                let (k2, woke) = k1.remove_from_event_list(q1.receive_list);
                (k2, q1, Ok(()), woke)
            } else {
                (k1, q1, Ok(()), false)
            }
        } else {
            (k1, QModel { tx_lock: (q.tx_lock + 1) as i8, ..q1 }, Ok(()), false)
        }
    } else {
        (k, q, Err(QueueError::QueueFull), false)
    }
}

/// What `xQueueGenericSendFromISR` needs to run without failing.
pub open spec fn can_send_from_isr<T>(k: KState, q: QModel<T>, pos: BaseType) -> bool {
    &&& q.lists_in(k)
    &&& (q.messages_waiting < q.length || pos == queueOVERWRITE) ==> {
        &&& q.can_copy_to(pos)
        &&& q.is_mutex() ==> (k.current_tcb matches Some(c) ==> k.tcb(c).MutexedHeld < UBaseType::MAX)
        &&& q.tx_lock == queueUNLOCKED ==> (k.list(q.receive_list as int).len() > 0 ==> (if q.is_mutex() {
            k.increment_mutex_held()
        } else {
            k
        }).can_remove_from_event_list(q.receive_list))
        &&& q.tx_lock != queueUNLOCKED ==> q.tx_lock < i8::MAX
    }
}

/// Every stored slot of `q` holds an item, none a mutex holder.
pub open spec fn items_only<T>(q: QModel<T>) -> bool {
    forall|i: int| 0 <= i < q.queue.len() ==> (#[trigger] q.queue[i]) is Item
}

/// Storing an item in a queue that is no mutex stores an item slot.
pub proof fn lemma_copy_to_items<T>(q: QModel<T>, item: T, pos: BaseType, holder: Option<TaskHandle>)
    requires
        items_only(q),
        !q.is_mutex(),
        q.can_copy_to(pos),
    ensures
        items_only(q.copy_to(item, pos, holder)),
        q.copy_to(item, pos, holder).queue_type == q.queue_type,
{
    let q1 = q.copy_to(item, pos, holder);
    let at = if pos == queueSEND_TO_BACK { q.write_to as int } else { q.queue_union as int };
    assert(q1.queue == q.queue.insert(at, QueueSlot::Item(item)));
    assert forall|i: int| 0 <= i < q1.queue.len() implies (#[trigger] q1.queue[i]) is Item by {
        if i < at {
            assert(q1.queue[i] == q.queue[i]);
        } else if i > at {
            assert(q1.queue[i] == q.queue[i - 1]);
        }
    }
}

/// The waiting half of an attempt leaves the stored slots and the type of
/// the queue as they were.
pub proof fn lemma_wait_keeps_slots<T>(k: KState, q: QModel<T>, w: WaitState, sending: bool)
    ensures
        wait_attempt(k, q, w, sending).1.queue == q.queue,
        wait_attempt(k, q, w, sending).1.queue_type == q.queue_type,
        wait_attempt(k, q, w, sending).1.messages_waiting == q.messages_waiting,
{
}

/// Sending, or sending from an interrupt, to a queue that is no mutex
/// stores only item slots there.
pub proof fn lemma_send_keeps_items<T>(k: KState, q: QModel<T>, item: T, w: WaitState, pos: BaseType)
    requires
        items_only(q),
        !q.is_mutex(),
    ensures
        can_send(k, q, w, pos) ==> items_only(send_step(k, q, item, w, pos).1),
        send_step(k, q, item, w, pos).1.queue_type == q.queue_type,
        can_send_from_isr(k, q, pos) ==> items_only(send_from_isr(k, q, item, pos).1),
        send_from_isr(k, q, item, pos).1.queue_type == q.queue_type,
{
    lemma_wait_keeps_slots(k, q, start_wait(k, w), true);
    if q.can_copy_to(pos) {
        lemma_copy_to_items(q, item, pos, k.current_tcb);
    }
}

/// Receiving from a queue that is no mutex leaves its slots as they were.
pub proof fn lemma_receive_keeps_slots<T>(k: KState, q: QModel<T>, w: WaitState, peek: bool)
    requires
        !q.is_mutex(),
    ensures
        receive_step(k, q, w, peek).1.queue == q.queue,
        receive_step(k, q, w, peek).1.queue_type == q.queue_type,
{
    lemma_wait_keeps_slots(k, q, start_wait(k, w), false);
}

/// A newly created queue of `length` slots and type `t`, whose event lists
/// are the two lists after the `n` the kernel had.
pub open spec fn new_queue_model<T>(length: UBaseType, t: QueueType, n: nat) -> QModel<T> {
    QModel {
        queue: Seq::empty(),
        head: 0,
        tail: length,
        write_to: 0,
        queue_union: (length - 1) as UBaseType,
        send_list: n as usize,
        receive_list: (n + 1) as usize,
        messages_waiting: 0,
        length: length,
        rx_lock: queueUNLOCKED,
        tx_lock: queueUNLOCKED,
        statically_allocated: 0,
        queue_number: 0,
        queue_type: t,
    }
}

impl<T: Clone> QueueDefinition<T> {
    /// A queue with every field zero or empty and of the base type, before
    /// initialisation.
    fn blank() -> (q: QueueDefinition<T>)
        ensures
            q@ == (QModel::<T> {
                queue: Seq::empty(),
                head: 0,
                tail: 0,
                write_to: 0,
                queue_union: 0,
                send_list: 0,
                receive_list: 0,
                messages_waiting: 0,
                length: 0,
                rx_lock: 0,
                tx_lock: 0,
                statically_allocated: 0,
                queue_number: 0,
                queue_type: QueueType::Base,
            }),
    {
        QueueDefinition {
            pcQueue: VecDeque::new(),
            pcHead: 0,
            pcTail: 0,
            pcWriteTo: 0,
            QueueUnion: 0,
            xTasksWaitingToSend: 0,
            xTasksWaitingToReceive: 0,
            uxMessagesWaiting: 0,
            uxLength: 0,
            cRxLock: 0,
            cTxLock: 0,
            ucStaticallyAllocated: 0,
            uxQueueNumber: 0,
            ucQueueType: QueueType::Base,
        }
    }

    /// Creates a queue of `uxQueueLength` slots of type `ucQueueType`, with
    /// two fresh event lists of the kernel.
    pub fn xQueueGenericCreate(k: &mut Kernel, uxQueueLength: UBaseType, ucQueueType: QueueType) -> (q: Self)
        requires
            old(k).wf(),
            uxQueueLength >= 1,
            old(k)@.lists.len() + 2 <= usize::MAX,
        ensures
            final(k).wf(),
            final(k)@ == old(k)@.add_event_list().add_event_list(),
            q@ == new_queue_model::<T>(uxQueueLength, ucQueueType, old(k)@.lists.len()),
    {
        let mut queue: QueueDefinition<T> = QueueDefinition::blank();
        queue.prvInitialiseNewQueue(k, uxQueueLength, ucQueueType);
        proof {
            assert(queue@ =~= new_queue_model::<T>(uxQueueLength, ucQueueType, old(k)@.lists.len()));
        }
        queue
    }

    /// Creates a queue exactly as `xQueueGenericCreate` does.
    pub fn prvQueueGenericCreate(k: &mut Kernel, uxQueueLength: UBaseType, ucQueueType: QueueType) -> (q: Self)
        requires
            old(k).wf(),
            uxQueueLength >= 1,
            old(k)@.lists.len() + 2 <= usize::MAX,
        ensures
            final(k).wf(),
            final(k)@ == old(k)@.add_event_list().add_event_list(),
            q@ == new_queue_model::<T>(uxQueueLength, ucQueueType, old(k)@.lists.len()),
    {
        let mut queue: QueueDefinition<T> = QueueDefinition::blank();
        queue.prvInitialiseNewQueue(k, uxQueueLength, ucQueueType);
        proof {
            assert(queue@ =~= new_queue_model::<T>(uxQueueLength, ucQueueType, old(k)@.lists.len()));
        }
        queue
    }

    /// Sets up a queue: head at slot 0, the given length, a reset as a new
    /// queue, and the given type.
    pub fn prvInitialiseNewQueue(&mut self, k: &mut Kernel, uxQueueLength: UBaseType, ucQueueType: QueueType)
        requires
            old(k).wf(),
            uxQueueLength >= 1,
            old(k)@.lists.len() + 2 <= usize::MAX,
        ensures
            final(k).wf(),
            final(k)@ == old(k)@.add_event_list().add_event_list(),
            final(self)@ == ({
                let q0 = QModel { head: 0, length: uxQueueLength, ..old(self)@ };
                QModel { queue_type: ucQueueType, ..reset_queue(old(k)@, q0, true).1 }
            }),
    {
        self.pcHead = 0;
        self.uxLength = uxQueueLength;
        let _r = self.xQueueGenericReset(k, true);
        self.ucQueueType = ucQueueType;
        proof {
            let q0 = QModel { head: 0, length: uxQueueLength, ..old(self)@ };
            assert(self@ =~= QModel { queue_type: ucQueueType, ..reset_queue(old(k)@, q0, true).1 });
        }
    }

    /// Resets the queue (see `reset_queue`); always succeeds.
    pub fn xQueueGenericReset(&mut self, k: &mut Kernel, xNewQueue: bool) -> (r: Result<(), QueueError>)
        requires
            old(k).wf(),
            can_reset(old(k)@, old(self)@, xNewQueue),
        ensures
            final(k).wf(),
            (final(k)@, final(self)@) == reset_queue(old(k)@, old(self)@, xNewQueue),
            r is Ok,
    {
        self.pcTail = self.pcHead + self.uxLength;
        self.uxMessagesWaiting = 0;
        self.pcWriteTo = self.pcHead;
        self.QueueUnion = self.pcHead + self.uxLength - 1;
        self.cRxLock = queueUNLOCKED;
        self.cTxLock = queueUNLOCKED;
        self.pcQueue.clear();
        if xNewQueue == false {
            if k.list_is_empty(self.xTasksWaitingToSend) == false {
                if xTaskRemoveFromEventList(k, self.xTasksWaitingToSend) != false {
                    // a preempting port would yield here
                }
            }
        } else {
            self.xTasksWaitingToSend = k.create_event_list();
            self.xTasksWaitingToReceive = k.create_event_list();
        }
        proof {
            assert(self@ =~= reset_queue(old(k)@, old(self)@, xNewQueue).1);
        }
        Ok(())
    }

    /// Locks the queue: each unlocked lock becomes locked with nothing
    /// recorded.
    pub fn prvLockQueue(&mut self)
        ensures
            final(self)@ == old(self)@.lock(),
    {
        if self.cRxLock == queueUNLOCKED {
            self.cRxLock = queueLOCKED_UNMODIFIED;
        }
        if self.cTxLock == queueUNLOCKED {
            self.cTxLock = queueLOCKED_UNMODIFIED;
        }
        proof {
            assert(self@ =~= old(self)@.lock());
        }
    }

    /// Unlocks the queue: wakes as many tasks waiting to receive as each
    /// lock recorded and releases both locks.
    fn prvUnlockQueue(&mut self, k: &mut Kernel)
        requires
            old(k).wf(),
            old(self)@.lists_in(old(k)@),
            old(k)@.scheduler_suspended > 0 ==> ((old(self)@.tx_lock > 0 || old(self)@.rx_lock > 0)
                ==> old(k)@.current_tcb is Some),
            old(k)@.scheduler_suspended == 0 ==> {
                &&& old(k)@.can_wake(old(self)@.receive_list, old(self)@.tx_lock as int)
                &&& old(k)@.wake_waiting(old(self)@.receive_list, old(self)@.tx_lock as int).can_wake(
                    old(self)@.receive_list,
                    old(self)@.rx_lock as int,
                )
            },
        ensures
            final(k).wf(),
            (final(k)@, final(self)@) == unlock_queue(old(k)@, old(self)@),
            final(k)@.lists.len() == old(k)@.lists.len(),
            final(k)@.current_tcb == old(k)@.current_tcb,
            final(k)@.scheduler_suspended == old(k)@.scheduler_suspended,
            final(k)@.current_number_of_tasks == old(k)@.current_number_of_tasks,
            final(k)@.pended_ticks == old(k)@.pended_ticks,
            old(k)@.priorities_ok() ==> final(k)@.priorities_ok(),
    {
        let ghost q0 = self@;
        let cTxLock: i8 = self.cTxLock;
        self.wake_receivers(k, cTxLock);
        let cRxLock: i8 = self.cRxLock;
        self.wake_receivers(k, cRxLock);
        self.cTxLock = queueUNLOCKED;
        self.cRxLock = queueUNLOCKED;
        proof {
            assert(self@ =~= unlock_queue(old(k)@, q0).1);
        }
    }

    /// Wakes up to `n` tasks waiting to receive, recording a missed yield
    /// for each more urgent one.
    fn wake_receivers(&self, k: &mut Kernel, n: i8)
        requires
            old(k).wf(),
            self@.lists_in(old(k)@),
            old(k)@.scheduler_suspended > 0 ==> (n > 0 ==> old(k)@.current_tcb is Some),
            old(k)@.scheduler_suspended == 0 ==> old(k)@.can_wake(self@.receive_list, n as int),
        ensures
            final(k).wf(),
            final(k)@ == old(k)@.wake_waiting(self@.receive_list, n as int),
            final(k)@.lists.len() == old(k)@.lists.len(),
            final(k)@.current_tcb == old(k)@.current_tcb,
            final(k)@.scheduler_suspended == old(k)@.scheduler_suspended,
            final(k)@.current_number_of_tasks == old(k)@.current_number_of_tasks,
            final(k)@.pended_ticks == old(k)@.pended_ticks,
            old(k)@.priorities_ok() ==> final(k)@.priorities_ok(),
    {
        let ghost s0 = k@;
        let ghost expected = s0.wake_waiting(self@.receive_list, n as int);
        let l = self.xTasksWaitingToReceive;
        let mut c: i8 = n;
        while c > queueLOCKED_UNMODIFIED
            invariant_except_break
                k@.wake_waiting(l, c as int) == expected,
            invariant
                k.wf(),
                l == self@.receive_list,
                self@.lists_in(k@),
                k@.lists.len() == s0.lists.len(),
                k@.current_tcb == s0.current_tcb,
                k@.scheduler_suspended == s0.scheduler_suspended,
                k@.current_number_of_tasks == s0.current_number_of_tasks,
                k@.pended_ticks == s0.pended_ticks,
                s0.priorities_ok() ==> k@.priorities_ok(),
                s0.scheduler_suspended > 0 ==> (c > 0 ==> s0.current_tcb is Some),
                s0.scheduler_suspended == 0 ==> k@.can_wake(l, c as int),
                c <= n,
            ensures
                k@ == expected,
            decreases c,
        {
            if k.list_is_empty(l) == false {
                let ghost s = k@;
                if xTaskRemoveFromEventList(k, l) != false {
                    let ghost s1 = k@;
                    vTaskMissedYield(k);
                    proof {
                        if s1.priorities_ok() {
                            crate::tasks::lemma_priorities_same(s1, k@);
                        }
                    }
                }
                proof {
                    if s.priorities_ok() {
                        assert forall|h: TaskHandle| k@.valid_task(h) implies (#[trigger] k@.tcb(h)).Priority < crate::config::configMAX_PRIORITIES by {
                            assert(s.valid_task(h));
                        }
                    }
                }
            } else {
                break;
            }
            c = c - 1;
        }
    }

    /// One attempt to send `pvItemToQueue` at copy position `xCopyPosition`
    /// (see `send_step`). `wait` carries the ticks the call may still wait
    /// and when its wait started from one attempt to the next; on `Retry`
    /// the item comes back, to be sent again once the port has yielded.
    pub fn xQueueGenericSend(
        &mut self,
        k: &mut Kernel,
        pvItemToQueue: T,
        wait: &mut WaitState,
        xCopyPosition: BaseType,
    ) -> (r: SendStep<T>)
        requires
            old(k).wf(),
            can_send(old(k)@, old(self)@, *old(wait), xCopyPosition),
        ensures
            final(k).wf(),
            ({
                let (k1, q1, w1, o) = send_step(old(k)@, old(self)@, pvItemToQueue, *old(wait), xCopyPosition);
                &&& final(k)@ == k1
                &&& final(self)@ == q1
                &&& *final(wait) == w1
                &&& r == send_result(o, pvItemToQueue)
            }),
    {
        let ghost s0 = k@;
        if self.uxMessagesWaiting < self.uxLength || xCopyPosition == queueOVERWRITE {
            proof {
                lemma_increment_mutex_held_facts(s0);
            }
            self.prvCopyDataToQueue(k, pvItemToQueue, xCopyPosition);
            let l = self.xTasksWaitingToReceive;
            if k.list_is_empty(l) == false {
                let ghost s1 = k@;
                proof {
                    assert(s1.lists[l as int].items[0] == s1.list(l as int)[0]);
                    assert(s1.valid_task(s1.head_owner(l as int)));
                }
                let _woke = xTaskRemoveFromEventList(k, l);
            }
            return SendStep::Done(Ok(()));
        } else {
            if self.ucQueueType == QueueType::Mutex || self.ucQueueType == QueueType::RecursiveMutex {
                let task_handle = self.transed_task_handle_for_mutex();
                vTaskPriorityInherit(k, task_handle);
            }
            if wait.xTicksToWait == 0 {
                return SendStep::Done(Err(QueueError::QueueFull));
            } else if !wait.xEntryTimeSet {
                let mut t: time_out = wait.xTimeOut;
                vTaskSetTimeOutState(k, &mut t);
                wait.xTimeOut = t;
                wait.xEntryTimeSet = true;
            }
        }
        if self.wait_on_queue(k, wait, true) {
            SendStep::Done(Err(QueueError::QueueFull))
        } else {
            SendStep::Retry(pvItemToQueue)
        }
    }

    /// One attempt to receive (or, when `xJustPeeking`, to peek at) the
    /// next message (see `receive_step`). `wait` carries the ticks the call
    /// may still wait and when its wait started from one attempt to the
    /// next; `Retry` asks for another attempt once the port has yielded. A
    /// message received is a copy of the slot after the last one read.
    pub fn xQueueGenericReceive(&mut self, k: &mut Kernel, wait: &mut WaitState, xJustPeeking: bool) -> (r: Attempt<Result<QueueSlot<T>, QueueError>>)
        requires
            old(k).wf(),
            can_receive(old(k)@, old(self)@, *old(wait), xJustPeeking),
        ensures
            final(k).wf(),
            ({
                let (k1, q1, w1, o) = receive_step(old(k)@, old(self)@, *old(wait), xJustPeeking);
                &&& final(k)@ == k1
                &&& final(self)@ == q1
                &&& *final(wait) == w1
                &&& match o {
                    StepOutcome::Success => r matches Attempt::Done(Ok(slot)) && slot_cloned(
                        old(self)@.queue[old(self)@.read_index() as int],
                        slot,
                    ),
                    StepOutcome::Failure => r == Attempt::<Result<QueueSlot<T>, QueueError>>::Done(Err(QueueError::QueueEmpty)),
                    StepOutcome::Again => r is Retry,
                }
            }),
    {
        let ghost q0 = self@;
        let uxMessagesWaiting: UBaseType = self.uxMessagesWaiting;
        if uxMessagesWaiting > 0 {
            let pcOriginalReadPosition: UBaseType = self.QueueUnion;
            let buffer = self.prvCopyDataFromQueue();
            if xJustPeeking == false {
                self.uxMessagesWaiting = uxMessagesWaiting - 1;
                if self.ucQueueType == QueueType::Mutex || self.ucQueueType == QueueType::RecursiveMutex {
                    let task_handle = self.transed_task_handle_for_mutex();
                    vTaskPriorityInherit(k, task_handle);
                    let _front = self.pcQueue.pop_front();
                }
                let l = self.xTasksWaitingToSend;
                if k.list_is_empty(l) == false {
                    let ghost s1 = k@;
                    proof {
                        assert(s1.lists[l as int].items[0] == s1.list(l as int)[0]);
                        assert(s1.valid_task(s1.head_owner(l as int)));
                    }
                    let _woke = xTaskRemoveFromEventList(k, l);
                }
                proof {
                    let q2 = QModel { messages_waiting: (q0.messages_waiting - 1) as UBaseType, ..q0.copy_from() };
                    if q0.is_mutex() {
                        let q3 = QModel {
                            queue: if q2.queue.len() > 0 { q2.queue.remove(0) } else { q2.queue },
                            ..q2
                        };
                        assert(self@ =~= q3);
                    } else {
                        assert(self@ =~= q2);
                    }
                }
            } else {
                self.QueueUnion = pcOriginalReadPosition;
                let l = self.xTasksWaitingToReceive;
                if k.list_is_empty(l) != false {
                    let _woke = xTaskRemoveFromEventList(k, l);
                }
                proof {
                    assert(self@ =~= q0);
                }
            }
            let slot = buffer.unwrap();
            return Attempt::Done(Ok(slot));
        } else {
            if wait.xTicksToWait == 0 {
                return Attempt::Done(Err(QueueError::QueueEmpty));
            } else if !wait.xEntryTimeSet {
                let mut t: time_out = wait.xTimeOut;
                vTaskSetTimeOutState(k, &mut t);
                wait.xTimeOut = t;
                wait.xEntryTimeSet = true;
            }
        }
        if self.wait_on_queue(k, wait, false) && self.prvIsQueueEmpty() {
            Attempt::Done(Err(QueueError::QueueEmpty))
        } else {
            Attempt::Retry
        }
    }

    /// Sends `pvItemToQueue` at copy position `xCopyPosition` from an
    /// interrupt, without waiting (see `send_from_isr`); returns the result
    /// and whether a task more urgent than the running one was woken.
    pub fn xQueueGenericSendFromISR(&mut self, k: &mut Kernel, pvItemToQueue: T, xCopyPosition: BaseType) -> (r: (
        Result<(), QueueError>,
        bool,
    ))
        requires
            old(k).wf(),
            can_send_from_isr(old(k)@, old(self)@, xCopyPosition),
        ensures
            final(k).wf(),
            ({
                let (k1, q1, res, woke) = send_from_isr(old(k)@, old(self)@, pvItemToQueue, xCopyPosition);
                &&& final(k)@ == k1
                &&& final(self)@ == q1
                &&& r == (res, woke)
            }),
    {
        let ghost s0 = k@;
        let ghost q0 = self@;
        let mut xReturn: Result<(), QueueError> = Ok(());
        let mut pxHigherPriorityTaskWoken: bool = false;
        if self.uxMessagesWaiting < self.uxLength || xCopyPosition == queueOVERWRITE {
            let cTxLock: i8 = self.cTxLock;
            proof {
                lemma_increment_mutex_held_facts(s0);
            }
            self.prvCopyDataToQueue(k, pvItemToQueue, xCopyPosition);
            if cTxLock == queueUNLOCKED {
                let l = self.xTasksWaitingToReceive;
                if k.list_is_empty(l) == false {
                    let ghost s1 = k@;
                    proof {
                        assert(s1.lists[l as int].items[0] == s1.list(l as int)[0]);
                        assert(s1.valid_task(s1.head_owner(l as int)));
                    }
                    if xTaskRemoveFromEventList(k, l) != false {
                        pxHigherPriorityTaskWoken = true;
                    }
                }
            } else {
                self.cTxLock = cTxLock + 1;
                proof {
                    let q1 = q0.copy_to(pvItemToQueue, xCopyPosition, s0.current_tcb);
                    assert(self@ =~= QModel { tx_lock: (q0.tx_lock + 1) as i8, ..q1 });
                }
            }
            xReturn = Ok(());
        } else {
            xReturn = Err(QueueError::QueueFull);
        }
        (xReturn, pxHigherPriorityTaskWoken)
    }

    /// The waiting half of a blocking attempt (see `wait_attempt`); returns
    /// whether the wait timed out.
    fn wait_on_queue(&mut self, k: &mut Kernel, wait: &mut WaitState, sending: bool) -> (expired: bool)
        requires
            old(k).wf(),
            old(self)@.lists_in(old(k)@),
            can_wait(old(k)@, old(self)@, *old(wait), sending),
        ensures
            final(k).wf(),
            (final(k)@, final(self)@, *final(wait), expired) == wait_attempt(old(k)@, old(self)@, *old(wait), sending),
    {
        let ghost s0 = k@;
        TaskSuspendAll(k);
        let ghost s1 = k@;
        proof {
            if s0.priorities_ok() {
                crate::tasks::lemma_priorities_same(s0, s1);
            }
        }
        self.prvLockQueue();
        let mut time_out_state: time_out = wait.xTimeOut;
        let mut ticks: TickType = wait.xTicksToWait;
        if !xTaskCheckForTimeOut(k, &mut time_out_state, &mut ticks) {
            wait.xTimeOut = time_out_state;
            wait.xTicksToWait = ticks;
            let blocked = if sending {
                self.prvIsQueueFull()
            } else {
                self.prvIsQueueEmpty()
            };
            if blocked {
                let l = if sending {
                    self.xTasksWaitingToSend
                } else {
                    self.xTasksWaitingToReceive
                };
                vTaskPlaceOnEventList(k, l, ticks);
                proof {
                    if s1.priorities_ok() {
                        lemma_frame_priorities(s1, k@);
                    }
                }
            }
            self.prvUnlockQueue(k);
            let _yielded = TaskResumeAll(k);
            false
        } else {
            self.prvUnlockQueue(k);
            let _yielded = TaskResumeAll(k);
            true
        }
    }

    /// Whether the queue holds no message.
    pub fn prvIsQueueEmpty(&self) -> (r: bool)
        ensures
            r == (self@.messages_waiting == 0),
    {
        let mut xReturn: bool = false;
        if self.uxMessagesWaiting == 0 {
            xReturn = true;
        }
        xReturn
    }

    /// Whether the queue holds as many messages as it has slots.
    pub fn prvIsQueueFull(&self) -> (r: bool)
        ensures
            r == (self@.messages_waiting == self@.length),
    {
        let mut xReturn: bool = false;
        if self.uxMessagesWaiting == self.uxLength {
            xReturn = true;
        }
        xReturn
    }

    /// Sets the number of messages (a counting semaphore's count).
    pub fn vQueueCreateCountingSemaphore(&mut self, initial_count: UBaseType)
        ensures
            final(self)@ == (QModel { messages_waiting: initial_count, ..old(self)@ }),
    {
        self.uxMessagesWaiting = initial_count;
        proof {
            assert(self@ =~= QModel { messages_waiting: initial_count, ..old(self)@ });
        }
    }

    /// Lowers the read position / recursion count by one.
    pub fn vQueueUnionDecrease(&mut self)
        requires
            old(self)@.queue_union > 0,
        ensures
            final(self)@ == (QModel { queue_union: (old(self)@.queue_union - 1) as UBaseType, ..old(self)@ }),
    {
        self.QueueUnion = self.QueueUnion - 1;
        proof {
            assert(self@ =~= QModel { queue_union: (old(self)@.queue_union - 1) as UBaseType, ..old(self)@ });
        }
    }

    /// Raises the read position / recursion count by one.
    pub fn vQueueUnionIncrease(&mut self)
        requires
            old(self)@.queue_union < UBaseType::MAX,
        ensures
            final(self)@ == (QModel { queue_union: (old(self)@.queue_union + 1) as UBaseType, ..old(self)@ }),
    {
        self.QueueUnion = self.QueueUnion + 1;
        proof {
            assert(self@ =~= QModel { queue_union: (old(self)@.queue_union + 1) as UBaseType, ..old(self)@ });
        }
    }

    /// Whether the read position / recursion count is zero.
    pub fn IsQueueUnionZero(&self) -> (r: bool)
        ensures
            r == (self@.queue_union == 0),
    {
        if self.QueueUnion == 0 {
            return true;
        } else {
            return false;
        }
    }

    /// The recursion count of a recursive mutex (the read position field).
    pub fn uxGetRecursiveCount(&self) -> (r: UBaseType)
        ensures
            r == self@.queue_union,
    {
        self.QueueUnion
    }

    /// The queue's number.
    pub fn get_queue_number(&self) -> (r: UBaseType)
        ensures
            r == self@.queue_number,
    {
        self.uxQueueNumber
    }

    /// The mutex holder recorded in front of the storage, if any.
    pub fn transed_task_handle_for_mutex(&self) -> (r: Option<TaskHandle>)
        ensures
            r == self@.front_holder(),
    {
        if self.pcQueue.len() > 0 {
            match &self.pcQueue[0] {
                QueueSlot::Holder(h) => *h,
                QueueSlot::Item(_) => None,
            }
        } else {
            None
        }
    }

    /// Reads the slot after the last one read (wrapping from the tail to
    /// the head) and makes it the last one read; returns a copy of it.
    pub fn prvCopyDataFromQueue(&mut self) -> (r: Option<QueueSlot<T>>)
        requires
            old(self)@.can_copy_from(),
        ensures
            final(self)@ == old(self)@.copy_from(),
            r matches Some(slot) && slot_cloned(old(self)@.queue[old(self)@.read_index() as int], slot),
    {
        self.QueueUnion = self.QueueUnion + 1;
        if self.QueueUnion >= self.pcTail {
            self.QueueUnion = self.pcHead;
        }
        let n = self.pcQueue.len();
        let ret_val = self.pcQueue[self.QueueUnion as usize].clone_slot();
        proof {
            assert(self@ =~= old(self)@.copy_from());
        }
        Some(ret_val)
    }

    /// Stores `pvItemToQueue` at copy position `xPosition` (see
    /// `QModel::copy_to`); a mutex records the running task as its holder,
    /// which then holds one more mutex.
    pub fn prvCopyDataToQueue(&mut self, k: &mut Kernel, pvItemToQueue: T, xPosition: BaseType)
        requires
            old(k).wf(),
            old(self)@.can_copy_to(xPosition),
            old(self)@.is_mutex() ==> (old(k)@.current_tcb matches Some(c) ==> old(k)@.tcb(c).MutexedHeld < UBaseType::MAX),
        ensures
            final(k).wf(),
            final(k)@ == (if old(self)@.is_mutex() {
                old(k)@.increment_mutex_held()
            } else {
                old(k)@
            }),
            final(self)@ == old(self)@.copy_to(pvItemToQueue, xPosition, old(k)@.current_tcb),
    {
        let mut uxMessagesWaiting: UBaseType = self.uxMessagesWaiting;
        let is_mutex = self.ucQueueType == QueueType::Mutex || self.ucQueueType == QueueType::RecursiveMutex;
        if is_mutex {
            let mutex_holder = pvTaskIncrementMutexHeldCount(k);
            self.pcQueue.insert(0, QueueSlot::Holder(mutex_holder));
        }
        let ghost q0 = self@;
        if xPosition == queueSEND_TO_BACK {
            if !is_mutex {
                self.pcQueue.insert(self.pcWriteTo as usize, QueueSlot::Item(pvItemToQueue));
            }
            self.pcWriteTo = self.pcWriteTo + 1;
            if self.pcWriteTo >= self.pcTail {
                self.pcWriteTo = self.pcHead;
            }
        } else {
            if !is_mutex {
                self.pcQueue.insert(self.QueueUnion as usize, QueueSlot::Item(pvItemToQueue));
            }
            self.QueueUnion = self.QueueUnion - 1;
            if self.QueueUnion < self.pcHead {
                self.QueueUnion = self.pcTail - 1;
            }
            if xPosition == queueOVERWRITE {
                if uxMessagesWaiting > 0 {
                    uxMessagesWaiting = uxMessagesWaiting - 1;
                }
            }
        }
        self.uxMessagesWaiting = uxMessagesWaiting + 1;
        proof {
            assert(self@ =~= old(self)@.copy_to(pvItemToQueue, xPosition, old(k)@.current_tcb));
        }
    }
}
} // verus!
