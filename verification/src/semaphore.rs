use vstd::prelude::*;
use crate::global::{Kernel, KState};
use crate::port::{TickType, UBaseType};
use crate::queue::{
    Attempt, QModel, QueueDefinition, QueueError, QueueSlot, QueueType, SendStep, StepOutcome,
    WaitState, can_receive, can_send, fresh_wait, new_queue_model, receive_step, send_step,
    queueSEND_TO_BACK,
};
use crate::tasks::TaskHandle;

verus! {

/// The time a give may wait: none.
pub const semGIVE_BLOCK_TIME: TickType = 0;

/// A semaphore or mutex: a queue whose slots record tasks. Taking sends to
/// it and giving receives from it; a mutex records in front of its slots
/// the task that took it.
pub struct Semaphore(QueueDefinition<Option<TaskHandle>>);

impl View for Semaphore {
    type V = QModel<Option<TaskHandle>>;

    closed spec fn view(&self) -> QModel<Option<TaskHandle>> {
        self.0@
    }
}

/// The task a slot records.
pub open spec fn slot_task(s: QueueSlot<Option<TaskHandle>>) -> Option<TaskHandle> {
    match s {
        QueueSlot::Item(x) => x,
        QueueSlot::Holder(h) => h,
    }
}

/// The task recorded in the slot a receive from `q` reads.
pub open spec fn read_task(q: QModel<Option<TaskHandle>>) -> Option<TaskHandle> {
    slot_task(q.queue[q.read_index() as int])
}

/// What one attempt to take returns, by how it ended.
pub open spec fn take_result(o: StepOutcome) -> Attempt<Result<(), QueueError>> {
    match o {
        StepOutcome::Success => Attempt::Done(Ok(())),
        StepOutcome::Failure => Attempt::Done(Err(QueueError::QueueFull)),
        StepOutcome::Again => Attempt::Retry,
    }
}

/// `xSemaphoreGiveRecursive` on kernel `k` and mutex `q`: when the running
/// task is the recorded holder, the recursion count drops by one and, when
/// it reaches zero, the mutex is given (a receive that does not wait):
/// true; otherwise nothing changes: false.
pub open spec fn give_recursive(k: KState, q: QModel<Option<TaskHandle>>) -> (KState, QModel<Option<TaskHandle>>, bool) {
    if q.front_holder() matches Some(h) && k.is_current(h) {
        let q1 = QModel { queue_union: (q.queue_union - 1) as UBaseType, ..q };
        if q1.queue_union == 0 {
            let (k2, q2, _w, _o) = receive_step(k, q1, fresh_wait(semGIVE_BLOCK_TIME), false);
            (k2, q2, true)
        } else {
            (k, q1, true)
        }
    } else {
        (k, q, false)
    }
}

/// What `xSemaphoreGiveRecursive` needs to run without failing.
pub open spec fn can_give_recursive(k: KState, q: QModel<Option<TaskHandle>>) -> bool {
    &&& q.front_holder() is Some
    &&& k.valid_task(q.front_holder().unwrap())
    &&& k.current_tcb is Some
    &&& k.is_current(q.front_holder().unwrap()) ==> {
        &&& q.queue_union > 0
        &&& q.queue_union == 1 ==> can_receive(
            k,
            QModel { queue_union: 0, ..q },
            fresh_wait(semGIVE_BLOCK_TIME),
            false,
        )
    }
}

/// One attempt of `xSemaphoreTakeRecursive` on kernel `k` and mutex `q`
/// with wait `w`. A mutex with a recorded holder is not taken: when the
/// running task holds it the recursion count rises by one; either way the
/// result is false. Otherwise one attempt to take it (send to it, see
/// `send_step`): on success the recursion count rises by one and the result
/// is true; on failure false; or the attempt is to be made again.
pub open spec fn take_recursive(k: KState, q: QModel<Option<TaskHandle>>, w: WaitState) -> (
    KState,
    QModel<Option<TaskHandle>>,
    WaitState,
    Attempt<bool>,
) {
    match q.front_holder() {
        Some(h) => if k.is_current(h) {
            (k, QModel { queue_union: (q.queue_union + 1) as UBaseType, ..q }, w, Attempt::Done(false))
        } else {
            (k, q, w, Attempt::Done(false))
        },
        None => {
            let (k1, q1, w1, o) = send_step(k, q, None, w, queueSEND_TO_BACK);
            match o {
                StepOutcome::Success => (k1, QModel { queue_union: (q1.queue_union + 1) as UBaseType, ..q1 }, w1, Attempt::Done(true)),
                StepOutcome::Failure => (k1, q1, w1, Attempt::Done(false)),
                StepOutcome::Again => (k1, q1, w1, Attempt::Retry),
            }
        },
    }
}

/// What an attempt of `xSemaphoreTakeRecursive` needs to run without
/// failing.
pub open spec fn can_take_recursive(k: KState, q: QModel<Option<TaskHandle>>, w: WaitState) -> bool {
    match q.front_holder() {
        Some(h) => {
            &&& k.current_tcb is Some
            &&& k.valid_task(h)
            &&& k.is_current(h) ==> q.queue_union < UBaseType::MAX
        },
        None => {
            &&& can_send(k, q, w, queueSEND_TO_BACK)
            &&& q.queue_union < UBaseType::MAX
        },
    }
}

/// The slot value of a receive, as the task it records.
fn slot_to_task(s: QueueSlot<Option<TaskHandle>>) -> (r: Option<TaskHandle>)
    ensures
        r == slot_task(s),
{
    match s {
        QueueSlot::Item(x) => x,
        QueueSlot::Holder(h) => h,
    }
}

impl Semaphore {
    /// Creates a mutex: a queue of one slot of the mutex type.
    pub fn xSemaphoreCreateMutex(k: &mut Kernel) -> (s: Self)
        requires
            old(k).wf(),
            old(k)@.lists.len() + 2 <= usize::MAX,
        ensures
            final(k).wf(),
            final(k)@ == old(k)@.add_event_list().add_event_list(),
            s@ == new_queue_model::<Option<TaskHandle>>(1, QueueType::Mutex, old(k)@.lists.len()),
    {
        Semaphore(QueueDefinition::xQueueGenericCreate(k, 1, QueueType::Mutex))
    }

    /// One attempt to take the semaphore: to send to it (see `send_step`)
    /// waiting as `wait` allows; `Retry` asks for another attempt once the
    /// port has yielded.
    pub fn xSemaphoreTake(&mut self, k: &mut Kernel, wait: &mut WaitState) -> (r: Attempt<Result<(), QueueError>>)
        requires
            old(k).wf(),
            can_send(old(k)@, old(self)@, *old(wait), queueSEND_TO_BACK),
        ensures
            final(k).wf(),
            ({
                let (k1, q1, w1, o) = send_step(old(k)@, old(self)@, None, *old(wait), queueSEND_TO_BACK);
                &&& final(k)@ == k1
                &&& final(self)@ == q1
                &&& *final(wait) == w1
                &&& r == take_result(o)
            }),
    {
        match self.0.xQueueGenericSend(k, None, wait, queueSEND_TO_BACK) {
            SendStep::Done(res) => Attempt::Done(res),
            SendStep::Retry(_) => Attempt::Retry,
        }
    }

    /// Creates a binary semaphore: a queue of one slot, not taken.
    pub fn xSemaphoreCreateBinary(k: &mut Kernel) -> (s: Self)
        requires
            old(k).wf(),
            old(k)@.lists.len() + 2 <= usize::MAX,
        ensures
            final(k).wf(),
            final(k)@ == old(k)@.add_event_list().add_event_list(),
            s@ == new_queue_model::<Option<TaskHandle>>(1, QueueType::BinarySemaphore, old(k)@.lists.len()),
    {
        Semaphore(QueueDefinition::xQueueGenericCreate(k, 1, QueueType::BinarySemaphore))
    }

    /// Creates a counting semaphore that can be taken `max_count` times,
    /// with a count of zero.
    pub fn xSemaphoreCreateCounting(k: &mut Kernel, max_count: UBaseType) -> (s: Self)
        requires
            old(k).wf(),
            max_count >= 1,
            old(k)@.lists.len() + 2 <= usize::MAX,
        ensures
            final(k).wf(),
            final(k)@ == old(k)@.add_event_list().add_event_list(),
            s@ == new_queue_model::<Option<TaskHandle>>(max_count, QueueType::CountingSemaphore, old(k)@.lists.len()),
    {
        let mut counting_semphr = Semaphore(QueueDefinition::xQueueGenericCreate(k, max_count, QueueType::CountingSemaphore));
        counting_semphr.0.vQueueCreateCountingSemaphore(0);
        proof {
            assert(counting_semphr@ =~= new_queue_model::<Option<TaskHandle>>(max_count, QueueType::CountingSemaphore, old(k)@.lists.len()));
        }
        counting_semphr
    }

    /// Creates a recursive mutex: a queue of one slot of the recursive
    /// mutex type.
    pub fn xSemaphoreCreateRecursiveMutex(k: &mut Kernel) -> (s: Self)
        requires
            old(k).wf(),
            old(k)@.lists.len() + 2 <= usize::MAX,
        ensures
            final(k).wf(),
            final(k)@ == old(k)@.add_event_list().add_event_list(),
            s@ == new_queue_model::<Option<TaskHandle>>(1, QueueType::RecursiveMutex, old(k)@.lists.len()),
    {
        Semaphore(QueueDefinition::xQueueGenericCreate(k, 1, QueueType::RecursiveMutex))
    }

    /// Gives a recursive mutex taken by the running task (see
    /// `give_recursive`); returns whether the running task held it.
    pub fn xSemaphoreGiveRecursive(&mut self, k: &mut Kernel) -> (r: bool)
        requires
            old(k).wf(),
            can_give_recursive(old(k)@, old(self)@),
        ensures
            final(k).wf(),
            (final(k)@, final(self)@, r) == give_recursive(old(k)@, old(self)@),
    {
        let holder = self.0.transed_task_handle_for_mutex().unwrap();
        let current = k.current_tcb.unwrap();
        if holder.same_task(k, &current) {
            self.0.vQueueUnionDecrease();
            if self.0.IsQueueUnionZero() {
                let mut wait = WaitState::new(semGIVE_BLOCK_TIME);
                let _given = self.0.xQueueGenericReceive(k, &mut wait, false);
            }
            return true;
        } else {
            return false;
        }
    }

    /// One attempt to take a recursive mutex (see `take_recursive`);
    /// `Retry` asks for another attempt once the port has yielded.
    pub fn xSemaphoreTakeRecursive(&mut self, k: &mut Kernel, wait: &mut WaitState) -> (r: Attempt<bool>)
        requires
            old(k).wf(),
            can_take_recursive(old(k)@, old(self)@, *old(wait)),
        ensures
            final(k).wf(),
            (final(k)@, final(self)@, *final(wait), r) == take_recursive(old(k)@, old(self)@, *old(wait)),
    {
        let mut xReturn: bool = false;
        let mutex_holder = self.0.transed_task_handle_for_mutex();
        if mutex_holder.is_some() {
            if mutex_holder.unwrap().same_task(k, &k.current_tcb.unwrap()) {
                self.0.vQueueUnionIncrease();
                xReturn = false;
            }
        } else {
            match self.0.xQueueGenericSend(k, None, wait, queueSEND_TO_BACK) {
                SendStep::Done(Ok(())) => {
                    self.0.vQueueUnionIncrease();
                    xReturn = true;
                },
                SendStep::Done(Err(_)) => {
                    xReturn = false;
                },
                SendStep::Retry(_) => {
                    return Attempt::Retry;
                },
            }
        }
        Attempt::Done(xReturn)
    }

    /// The semaphore's count field: a recursive mutex's recursion count.
    pub fn uxSemaphoreGetCount(&self) -> (r: UBaseType)
        ensures
            r == self@.queue_union,
    {
        self.0.uxGetRecursiveCount()
    }

    /// The task recorded in the slot a receive would read, read by a peek
    /// that does not wait.
    pub fn xSemaphoreGetMutexHolder(&mut self, k: &mut Kernel) -> (r: Option<TaskHandle>)
        requires
            old(k).wf(),
            old(self)@.messages_waiting > 0,
            can_receive(old(k)@, old(self)@, fresh_wait(0), true),
        ensures
            final(k)@ == old(k)@,
            final(self)@ == old(self)@,
            r == read_task(old(self)@),
    {
        let mut wait = WaitState::new(0);
        let ghost q0 = self@;
        match self.0.xQueueGenericReceive(k, &mut wait, true) {
            Attempt::Done(Ok(slot)) => {
                proof {
                    assert(crate::queue::slot_cloned(q0.queue[q0.read_index() as int], slot));
                }
                slot_to_task(slot)
            },
            _ => None,
        }
    }

    /// Gives the semaphore: receives from it without waiting (see
    /// `receive_step`); returns the task recorded in the slot read, or
    /// `QueueEmpty` when nothing was taken.
    pub fn xSemaphoreGive(&mut self, k: &mut Kernel) -> (r: Result<Option<TaskHandle>, QueueError>)
        requires
            old(k).wf(),
            can_receive(old(k)@, old(self)@, fresh_wait(semGIVE_BLOCK_TIME), false),
        ensures
            final(k).wf(),
            ({
                let (k1, q1, w1, o) = receive_step(old(k)@, old(self)@, fresh_wait(semGIVE_BLOCK_TIME), false);
                &&& final(k)@ == k1
                &&& final(self)@ == q1
                &&& r == if o == StepOutcome::Success {
                    Ok::<Option<TaskHandle>, QueueError>(read_task(old(self)@))
                } else {
                    Err(QueueError::QueueEmpty)
                }
            }),
    {
        let mut wait = WaitState::new(semGIVE_BLOCK_TIME);
        let ghost q0 = self@;
        match self.0.xQueueGenericReceive(k, &mut wait, false) {
            Attempt::Done(Ok(slot)) => {
                proof {
                    assert(crate::queue::slot_cloned(q0.queue[q0.read_index() as int], slot));
                }
                Ok(slot_to_task(slot))
            },
            Attempt::Done(Err(e)) => Err(e),
            Attempt::Retry => Err(QueueError::QueueEmpty),
        }
    }
}

} // verus!
