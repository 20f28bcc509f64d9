use vstd::prelude::*;
use crate::global::Kernel;
use crate::port::UBaseType;
use crate::queue::{
    Attempt, QModel, QueueDefinition, QueueError, QueueSlot, QueueType, SendStep, StepOutcome,
    WaitState, can_receive, can_send, can_send_from_isr, fresh_wait, items_only,
    lemma_send_keeps_items, lemma_receive_keeps_slots, new_queue_model, receive_step, send_from_isr, send_result, send_step,
    queueOVERWRITE, queueSEND_TO_BACK, queueSEND_TO_FRONT,
};

verus! {

/// A queue of items of type `T`: a queue of the base type whose slots all
/// hold items.
pub struct QueueHandle_t<T>(QueueDefinition<T>);

impl<T> View for QueueHandle_t<T> {
    type V = QModel<T>;

    closed spec fn view(&self) -> QModel<T> {
        self.0@
    }
}

/// What a receive or peek on a queue of items returns, by how the attempt
/// ended: a copy of the item read from `q` on success.
pub open spec fn read_result<T: Clone>(q: QModel<T>, o: StepOutcome, r: Attempt<Result<T, QueueError>>) -> bool {
    match o {
        StepOutcome::Success => r matches Attempt::Done(Ok(x)) && (q.queue[q.read_index() as int] matches QueueSlot::Item(y)
            && vstd::pervasive::cloned(y, x)),
        StepOutcome::Failure => r == Attempt::<Result<T, QueueError>>::Done(Err(QueueError::QueueEmpty)),
        StepOutcome::Again => r is Retry,
    }
}

impl<T: Clone> QueueHandle_t<T> {
    /// The handle's invariant: a base queue holding items only.
    pub open spec fn wf(&self) -> bool {
        &&& self@.queue_type == QueueType::Base
        &&& items_only(self@)
    }

    /// Creates a queue of `length` slots.
    pub fn xQueueCreate(k: &mut Kernel, length: UBaseType) -> (q: Self)
        requires
            old(k).wf(),
            length >= 1,
            old(k)@.lists.len() + 2 <= usize::MAX,
        ensures
            final(k).wf(),
            final(k)@ == old(k)@.add_event_list().add_event_list(),
            q@ == new_queue_model::<T>(length, QueueType::Base, old(k)@.lists.len()),
            q.wf(),
    {
        QueueHandle_t(QueueDefinition::xQueueGenericCreate(k, length, QueueType::Base))
    }

    /// One attempt to send `pvItemToQueue` at copy position `pos`.
    fn send(&mut self, k: &mut Kernel, pvItemToQueue: T, wait: &mut WaitState, pos: i64) -> (r: SendStep<T>)
        requires
            old(k).wf(),
            old(self).wf(),
            can_send(old(k)@, old(self)@, *old(wait), pos),
        ensures
            final(k).wf(),
            final(self).wf(),
            ({
                let (k1, q1, w1, o) = send_step(old(k)@, old(self)@, pvItemToQueue, *old(wait), pos);
                &&& final(k)@ == k1
                &&& final(self)@ == q1
                &&& *final(wait) == w1
                &&& r == send_result(o, pvItemToQueue)
            }),
    {
        proof {
            lemma_send_keeps_items(k@, self@, pvItemToQueue, *wait, pos);
        }
        self.0.xQueueGenericSend(k, pvItemToQueue, wait, pos)
    }

    /// One attempt to send `pvItemToQueue` behind the queued items (see
    /// `send_step`); on `Retry` the item comes back to be sent again once
    /// the port has yielded.
    pub fn xQueueSend(&mut self, k: &mut Kernel, pvItemToQueue: T, wait: &mut WaitState) -> (r: SendStep<T>)
        requires
            old(k).wf(),
            old(self).wf(),
            can_send(old(k)@, old(self)@, *old(wait), queueSEND_TO_BACK),
        ensures
            final(k).wf(),
            final(self).wf(),
            ({
                let (k1, q1, w1, o) = send_step(old(k)@, old(self)@, pvItemToQueue, *old(wait), queueSEND_TO_BACK);
                &&& final(k)@ == k1
                &&& final(self)@ == q1
                &&& *final(wait) == w1
                &&& r == send_result(o, pvItemToQueue)
            }),
    {
        self.send(k, pvItemToQueue, wait, queueSEND_TO_BACK)
    }

    /// One attempt to send `pvItemToQueue` in front of the queued items.
    pub fn xQueueSendToFront(&mut self, k: &mut Kernel, pvItemToQueue: T, wait: &mut WaitState) -> (r: SendStep<T>)
        requires
            old(k).wf(),
            old(self).wf(),
            can_send(old(k)@, old(self)@, *old(wait), queueSEND_TO_FRONT),
        ensures
            final(k).wf(),
            final(self).wf(),
            ({
                let (k1, q1, w1, o) = send_step(old(k)@, old(self)@, pvItemToQueue, *old(wait), queueSEND_TO_FRONT);
                &&& final(k)@ == k1
                &&& final(self)@ == q1
                &&& *final(wait) == w1
                &&& r == send_result(o, pvItemToQueue)
            }),
    {
        self.send(k, pvItemToQueue, wait, queueSEND_TO_FRONT)
    }

    /// One attempt to send `pvItemToQueue` behind the queued items.
    pub fn xQueueSendToBack(&mut self, k: &mut Kernel, pvItemToQueue: T, wait: &mut WaitState) -> (r: SendStep<T>)
        requires
            old(k).wf(),
            old(self).wf(),
            can_send(old(k)@, old(self)@, *old(wait), queueSEND_TO_BACK),
        ensures
            final(k).wf(),
            final(self).wf(),
            ({
                let (k1, q1, w1, o) = send_step(old(k)@, old(self)@, pvItemToQueue, *old(wait), queueSEND_TO_BACK);
                &&& final(k)@ == k1
                &&& final(self)@ == q1
                &&& *final(wait) == w1
                &&& r == send_result(o, pvItemToQueue)
            }),
    {
        self.send(k, pvItemToQueue, wait, queueSEND_TO_BACK)
    }

    /// Sends `pvItemToQueue` in front without waiting, replacing a message
    /// when the queue is full; always succeeds.
    pub fn xQueueOverwrite(&mut self, k: &mut Kernel, pvItemToQueue: T) -> (r: Result<(), QueueError>)
        requires
            old(k).wf(),
            old(self).wf(),
            can_send(old(k)@, old(self)@, fresh_wait(0), queueOVERWRITE),
        ensures
            final(k).wf(),
            final(self).wf(),
            ({
                let (k1, q1, w1, o) = send_step(old(k)@, old(self)@, pvItemToQueue, fresh_wait(0), queueOVERWRITE);
                &&& final(k)@ == k1
                &&& final(self)@ == q1
            }),
            r == Ok::<(), QueueError>(()),
    {
        let mut wait = WaitState::new(0);
        match self.send(k, pvItemToQueue, &mut wait, queueOVERWRITE) {
            SendStep::Done(r) => r,
            SendStep::Retry(_) => Ok(()),
        }
    }

    /// Sends `pvItemToQueue` at copy position `pos` from an interrupt.
    fn send_isr(&mut self, k: &mut Kernel, pvItemToQueue: T, pos: i64) -> (r: (Result<(), QueueError>, bool))
        requires
            old(k).wf(),
            old(self).wf(),
            can_send_from_isr(old(k)@, old(self)@, pos),
        ensures
            final(k).wf(),
            final(self).wf(),
            ({
                let (k1, q1, res, woke) = send_from_isr(old(k)@, old(self)@, pvItemToQueue, pos);
                &&& final(k)@ == k1
                &&& final(self)@ == q1
                &&& r == (res, woke)
            }),
    {
        proof {
            lemma_send_keeps_items(k@, self@, pvItemToQueue, fresh_wait(0), pos);
        }
        self.0.xQueueGenericSendFromISR(k, pvItemToQueue, pos)
    }

    /// Sends `pvItemToQueue` in front of the queued items from an interrupt
    /// (see `send_from_isr`).
    pub fn xQueueSendToFrontFromISR(&mut self, k: &mut Kernel, pvItemToQueue: T) -> (r: (Result<(), QueueError>, bool))
        requires
            old(k).wf(),
            old(self).wf(),
            can_send_from_isr(old(k)@, old(self)@, queueSEND_TO_FRONT),
        ensures
            final(k).wf(),
            final(self).wf(),
            ({
                let (k1, q1, res, woke) = send_from_isr(old(k)@, old(self)@, pvItemToQueue, queueSEND_TO_FRONT);
                &&& final(k)@ == k1
                &&& final(self)@ == q1
                &&& r == (res, woke)
            }),
    {
        self.send_isr(k, pvItemToQueue, queueSEND_TO_FRONT)
    }

    /// Sends `pvItemToQueue` behind the queued items from an interrupt.
    pub fn xQueueSendToBackFromISR(&mut self, k: &mut Kernel, pvItemToQueue: T) -> (r: (Result<(), QueueError>, bool))
        requires
            old(k).wf(),
            old(self).wf(),
            can_send_from_isr(old(k)@, old(self)@, queueSEND_TO_BACK),
        ensures
            final(k).wf(),
            final(self).wf(),
            ({
                let (k1, q1, res, woke) = send_from_isr(old(k)@, old(self)@, pvItemToQueue, queueSEND_TO_BACK);
                &&& final(k)@ == k1
                &&& final(self)@ == q1
                &&& r == (res, woke)
            }),
    {
        self.send_isr(k, pvItemToQueue, queueSEND_TO_BACK)
    }

    /// Overwrites from an interrupt: sends `pvItemToQueue` in front,
    /// replacing a message when the queue is full.
    pub fn xQueueOverwriteFromISR(&mut self, k: &mut Kernel, pvItemToQueue: T) -> (r: (Result<(), QueueError>, bool))
        requires
            old(k).wf(),
            old(self).wf(),
            can_send_from_isr(old(k)@, old(self)@, queueOVERWRITE),
        ensures
            final(k).wf(),
            final(self).wf(),
            ({
                let (k1, q1, res, woke) = send_from_isr(old(k)@, old(self)@, pvItemToQueue, queueOVERWRITE);
                &&& final(k)@ == k1
                &&& final(self)@ == q1
                &&& r == (res, woke)
            }),
    {
        self.send_isr(k, pvItemToQueue, queueOVERWRITE)
    }

    /// One attempt to read the next item, taking it off the queue unless
    /// `peek`.
    fn read(&mut self, k: &mut Kernel, wait: &mut WaitState, peek: bool) -> (r: Attempt<Result<T, QueueError>>)
        requires
            old(k).wf(),
            old(self).wf(),
            can_receive(old(k)@, old(self)@, *old(wait), peek),
        ensures
            final(k).wf(),
            final(self).wf(),
            ({
                let (k1, q1, w1, o) = receive_step(old(k)@, old(self)@, *old(wait), peek);
                &&& final(k)@ == k1
                &&& final(self)@ == q1
                &&& *final(wait) == w1
                &&& read_result(old(self)@, o, r)
            }),
    {
        let ghost q0 = self@;
        proof {
            lemma_receive_keeps_slots(k@, self@, *wait, peek);
        }
        match self.0.xQueueGenericReceive(k, wait, peek) {
            Attempt::Done(Ok(QueueSlot::Item(x))) => Attempt::Done(Ok(x)),
            Attempt::Done(Ok(QueueSlot::Holder(_))) => {
                proof {
                    assert(q0.queue[q0.read_index() as int] is Item);
                }
                Attempt::Retry
            },
            Attempt::Done(Err(e)) => Attempt::Done(Err(e)),
            Attempt::Retry => Attempt::Retry,
        }
    }

    /// One attempt to receive the next item (see `receive_step`); `Retry`
    /// asks for another attempt once the port has yielded.
    pub fn xQueueReceive(&mut self, k: &mut Kernel, wait: &mut WaitState) -> (r: Attempt<Result<T, QueueError>>)
        requires
            old(k).wf(),
            old(self).wf(),
            can_receive(old(k)@, old(self)@, *old(wait), false),
        ensures
            final(k).wf(),
            final(self).wf(),
            ({
                let (k1, q1, w1, o) = receive_step(old(k)@, old(self)@, *old(wait), false);
                &&& final(k)@ == k1
                &&& final(self)@ == q1
                &&& *final(wait) == w1
                &&& read_result(old(self)@, o, r)
            }),
    {
        self.read(k, wait, false)
    }

    /// One attempt to peek at the next item, leaving it queued.
    pub fn xQueuePeek(&mut self, k: &mut Kernel, wait: &mut WaitState) -> (r: Attempt<Result<T, QueueError>>)
        requires
            old(k).wf(),
            old(self).wf(),
            can_receive(old(k)@, old(self)@, *old(wait), true),
        ensures
            final(k).wf(),
            final(self).wf(),
            ({
                let (k1, q1, w1, o) = receive_step(old(k)@, old(self)@, *old(wait), true);
                &&& final(k)@ == k1
                &&& final(self)@ == q1
                &&& *final(wait) == w1
                &&& read_result(old(self)@, o, r)
            }),
    {
        self.read(k, wait, true)
    }
}

} // verus!
