use lib::global::Kernel;
use lib::kernel::TaskIncrementTick;
use lib::list::{ItemKind, ItemRef};
use lib::queue::{
    Attempt, QueueDefinition, QueueError, QueueSlot, QueueType, SendStep, WaitState,
    queueSEND_TO_BACK,
};
use lib::queue_api::QueueHandle_t;
use lib::semaphore::Semaphore;
use lib::task_queue::vTaskPlaceOnEventList;
use lib::tasks::{TaskHandle, TCB};

/// Registers a new task of priority `prio`, with a stack pointer of its
/// own, and makes it ready.
fn new_task(k: &mut Kernel, prio: u64) -> TaskHandle {
    let mut t = TCB::new();
    t.Priority = prio;
    t.BasePriority = prio;
    t.StackPointer = (k.tasks.len() + 1) * 64;
    let h = TaskHandle::from(k, t);
    h.AddNewTaskToReadyList(k).unwrap();
    h
}

fn event(h: TaskHandle) -> ItemRef {
    ItemRef { owner: h, kind: ItemKind::Event }
}

fn no_wait() -> WaitState {
    WaitState::new(0)
}

#[test]
fn a_sent_item_is_received() {
    let mut k = Kernel::new();
    let mut q: QueueHandle_t<u32> = QueueHandle_t::xQueueCreate(&mut k, 3);
    assert!(matches!(q.xQueueSend(&mut k, 7, &mut no_wait()), SendStep::Done(Ok(()))));
    assert_eq!(q.xQueueReceive(&mut k, &mut no_wait()), Attempt::Done(Ok(7)));
    assert_eq!(q.xQueueReceive(&mut k, &mut no_wait()), Attempt::Done(Err(QueueError::QueueEmpty)));
}

#[test]
fn items_sent_to_the_back_come_out_in_order() {
    let mut k = Kernel::new();
    let mut q: QueueHandle_t<u32> = QueueHandle_t::xQueueCreate(&mut k, 3);
    for x in [1u32, 2, 3] {
        assert!(matches!(q.xQueueSendToBack(&mut k, x, &mut no_wait()), SendStep::Done(Ok(()))));
    }
    for x in [1u32, 2, 3] {
        assert_eq!(q.xQueueReceive(&mut k, &mut no_wait()), Attempt::Done(Ok(x)));
    }
}

#[test]
fn a_full_queue_refuses_a_send_that_may_not_wait() {
    let mut k = Kernel::new();
    let mut q: QueueHandle_t<u32> = QueueHandle_t::xQueueCreate(&mut k, 2);
    assert!(matches!(q.xQueueSend(&mut k, 1, &mut no_wait()), SendStep::Done(Ok(()))));
    assert!(matches!(q.xQueueSend(&mut k, 2, &mut no_wait()), SendStep::Done(Ok(()))));
    assert!(matches!(q.xQueueSend(&mut k, 3, &mut no_wait()), SendStep::Done(Err(QueueError::QueueFull))));
    assert_eq!(q.xQueueReceive(&mut k, &mut no_wait()), Attempt::Done(Ok(1)));
}

#[test]
fn an_empty_queue_refuses_a_receive_that_may_not_wait() {
    let mut k = Kernel::new();
    let mut q: QueueHandle_t<u32> = QueueHandle_t::xQueueCreate(&mut k, 2);
    assert_eq!(q.xQueueReceive(&mut k, &mut no_wait()), Attempt::Done(Err(QueueError::QueueEmpty)));
}

#[test]
fn an_overwrite_replaces_the_message() {
    let mut k = Kernel::new();
    let mut q: QueueHandle_t<u32> = QueueHandle_t::xQueueCreate(&mut k, 2);
    assert!(matches!(q.xQueueSend(&mut k, 5, &mut no_wait()), SendStep::Done(Ok(()))));
    assert_eq!(q.xQueueOverwrite(&mut k, 9), Ok(()));
    assert_eq!(q.xQueueReceive(&mut k, &mut no_wait()), Attempt::Done(Ok(9)));
    assert_eq!(q.xQueueReceive(&mut k, &mut no_wait()), Attempt::Done(Err(QueueError::QueueEmpty)));
}

#[test]
fn sends_from_an_interrupt() {
    let mut k = Kernel::new();
    let mut q: QueueHandle_t<u32> = QueueHandle_t::xQueueCreate(&mut k, 2);
    assert_eq!(q.xQueueSendToBackFromISR(&mut k, 4), (Ok(()), false));
    assert_eq!(q.xQueueSendToFrontFromISR(&mut k, 6), (Ok(()), false));
    assert_eq!(q.xQueueSendToBackFromISR(&mut k, 8), (Err(QueueError::QueueFull), false));
}

#[test]
fn a_blocked_send_times_out() {
    let mut k = Kernel::new();
    let a = new_task(&mut k, 1);
    let mut q: QueueHandle_t<u32> = QueueHandle_t::xQueueCreate(&mut k, 1);
    assert!(matches!(q.xQueueSend(&mut k, 1, &mut no_wait()), SendStep::Done(Ok(()))));
    let mut wait = WaitState::new(3);
    let item = match q.xQueueSend(&mut k, 2, &mut wait) {
        SendStep::Retry(item) => item,
        SendStep::Done(r) => panic!("the send should wait, got {:?}", r),
    };
    assert_eq!(item, 2);
    assert!(wait.xEntryTimeSet);
    assert!(k.container_of(event(a)).is_some());
    for _ in 0..3 {
        TaskIncrementTick(&mut k);
    }
    assert_eq!(k.container_of(event(a)), None);
    assert!(matches!(q.xQueueSend(&mut k, item, &mut wait), SendStep::Done(Err(QueueError::QueueFull))));
}

#[test]
fn a_blocked_receive_is_woken_by_a_send() {
    let mut k = Kernel::new();
    let a = new_task(&mut k, 1);
    let mut q: QueueHandle_t<u32> = QueueHandle_t::xQueueCreate(&mut k, 2);
    let mut wait = WaitState::new(10);
    assert_eq!(q.xQueueReceive(&mut k, &mut wait), Attempt::Retry);
    assert!(k.container_of(event(a)).is_some());
    assert_eq!(q.xQueueSendToBackFromISR(&mut k, 42), (Ok(()), false));
    assert_eq!(k.container_of(event(a)), None);
    assert_eq!(k.container_of(ItemRef { owner: a, kind: ItemKind::State }), Some(1));
    assert_eq!(q.xQueueReceive(&mut k, &mut wait), Attempt::Done(Ok(42)));
}

#[test]
fn a_peek_leaves_the_message_queued() {
    let mut k = Kernel::new();
    let _a = new_task(&mut k, 1);
    let mut q: QueueDefinition<u32> = QueueDefinition::xQueueGenericCreate(&mut k, 2, QueueType::Base);
    assert!(matches!(q.xQueueGenericSend(&mut k, 8, &mut no_wait(), queueSEND_TO_BACK), SendStep::Done(Ok(()))));
    let receive_list = q.xTasksWaitingToReceive;
    vTaskPlaceOnEventList(&mut k, receive_list, 10);
    let read_position = q.QueueUnion;
    assert!(matches!(q.xQueueGenericReceive(&mut k, &mut no_wait(), true), Attempt::Done(Ok(QueueSlot::Item(8)))));
    assert_eq!(q.uxMessagesWaiting, 1);
    assert_eq!(q.QueueUnion, read_position);
    assert!(matches!(q.xQueueGenericReceive(&mut k, &mut no_wait(), false), Attempt::Done(Ok(QueueSlot::Item(8)))));
    assert_eq!(q.uxMessagesWaiting, 0);
}

#[test]
fn a_reset_empties_the_queue() {
    let mut k = Kernel::new();
    let mut q: QueueDefinition<u32> = QueueDefinition::xQueueGenericCreate(&mut k, 2, QueueType::Base);
    assert!(matches!(q.xQueueGenericSend(&mut k, 3, &mut no_wait(), queueSEND_TO_BACK), SendStep::Done(Ok(()))));
    assert!(q.xQueueGenericReset(&mut k, false).is_ok());
    assert!(q.prvIsQueueEmpty());
    assert!(!q.prvIsQueueFull());
    assert_eq!(q.QueueUnion, 1);
    assert!(matches!(q.xQueueGenericReceive(&mut k, &mut no_wait(), false), Attempt::Done(Err(QueueError::QueueEmpty))));
}

#[test]
fn a_binary_semaphore_is_taken_once() {
    let mut k = Kernel::new();
    let mut s = Semaphore::xSemaphoreCreateBinary(&mut k);
    assert_eq!(s.xSemaphoreTake(&mut k, &mut no_wait()), Attempt::Done(Ok(())));
    assert_eq!(s.xSemaphoreTake(&mut k, &mut no_wait()), Attempt::Done(Err(QueueError::QueueFull)));
    assert_eq!(s.xSemaphoreGive(&mut k), Ok(None));
    assert_eq!(s.xSemaphoreGive(&mut k), Err(QueueError::QueueEmpty));
}

#[test]
fn a_counting_semaphore_is_taken_up_to_its_count() {
    let mut k = Kernel::new();
    let mut s = Semaphore::xSemaphoreCreateCounting(&mut k, 2);
    assert_eq!(s.xSemaphoreTake(&mut k, &mut no_wait()), Attempt::Done(Ok(())));
    assert_eq!(s.xSemaphoreTake(&mut k, &mut no_wait()), Attempt::Done(Ok(())));
    assert_eq!(s.xSemaphoreTake(&mut k, &mut no_wait()), Attempt::Done(Err(QueueError::QueueFull)));
    assert_eq!(s.xSemaphoreGive(&mut k), Ok(None));
    assert_eq!(s.xSemaphoreTake(&mut k, &mut no_wait()), Attempt::Done(Ok(())));
}

#[test]
fn a_mutex_records_and_gives_back_its_holder() {
    let mut k = Kernel::new();
    let a = new_task(&mut k, 1);
    let mut m = Semaphore::xSemaphoreCreateMutex(&mut k);
    assert_eq!(m.xSemaphoreTake(&mut k, &mut no_wait()), Attempt::Done(Ok(())));
    assert_eq!(a.GetMutexHeldCount(&k), 1);
    assert_eq!(m.xSemaphoreTake(&mut k, &mut no_wait()), Attempt::Done(Err(QueueError::QueueFull)));
    assert_eq!(m.xSemaphoreGive(&mut k), Ok(Some(a)));
    assert_eq!(m.xSemaphoreGive(&mut k), Err(QueueError::QueueEmpty));
}

#[test]
fn a_mutex_holder_is_read_by_a_peek() {
    let mut k = Kernel::new();
    let a = new_task(&mut k, 1);
    let mut m = Semaphore::xSemaphoreCreateMutex(&mut k);
    assert_eq!(m.xSemaphoreTake(&mut k, &mut no_wait()), Attempt::Done(Ok(())));
    // The mutex's event lists are the two lists created after the kernel's own.
    let receive_list = lib::global::NUM_KERNEL_LISTS + 1;
    vTaskPlaceOnEventList(&mut k, receive_list, 10);
    assert_eq!(m.xSemaphoreGetMutexHolder(&mut k), Some(a));
}

#[test]
fn a_recursive_mutex_counts_its_takes() {
    let mut k = Kernel::new();
    let _a = new_task(&mut k, 1);
    let mut m = Semaphore::xSemaphoreCreateRecursiveMutex(&mut k);
    assert_eq!(m.xSemaphoreTakeRecursive(&mut k, &mut no_wait()), Attempt::Done(true));
    assert_eq!(m.uxSemaphoreGetCount(), 1);
    assert_eq!(m.xSemaphoreTakeRecursive(&mut k, &mut no_wait()), Attempt::Done(false));
    assert_eq!(m.uxSemaphoreGetCount(), 2);
    assert!(m.xSemaphoreGiveRecursive(&mut k));
    assert_eq!(m.uxSemaphoreGetCount(), 1);
    assert!(m.xSemaphoreGiveRecursive(&mut k));
    assert_eq!(m.uxSemaphoreGetCount(), 0);
    assert_eq!(m.xSemaphoreTakeRecursive(&mut k, &mut no_wait()), Attempt::Done(true));
}

#[test]
fn a_send_from_an_interrupt_to_a_locked_queue_is_counted_on_the_lock() {
    let mut k = Kernel::new();
    let mut q: QueueDefinition<u32> = QueueDefinition::xQueueGenericCreate(&mut k, 2, QueueType::Base);
    assert_eq!(q.cTxLock, lib::queue::queueUNLOCKED);
    q.prvLockQueue();
    assert_eq!(q.cTxLock, lib::queue::queueLOCKED_UNMODIFIED);
    assert_eq!(q.cRxLock, lib::queue::queueLOCKED_UNMODIFIED);
    assert_eq!(q.xQueueGenericSendFromISR(&mut k, 5, queueSEND_TO_BACK), (Ok(()), false));
    assert_eq!(q.cTxLock, 1);
    assert_eq!(q.uxMessagesWaiting, 1);
}

#[test]
fn a_task_level_send_wakes_the_first_waiting_receiver() {
    let mut k = Kernel::new();
    let a = new_task(&mut k, 2);
    let mut q: QueueHandle_t<u32> = QueueHandle_t::xQueueCreate(&mut k, 2);
    let mut wait = WaitState::new(10);
    assert_eq!(q.xQueueReceive(&mut k, &mut wait), Attempt::Retry);
    assert!(k.container_of(event(a)).is_some());
    assert!(matches!(q.xQueueSend(&mut k, 11, &mut no_wait()), SendStep::Done(Ok(()))));
    assert_eq!(k.container_of(event(a)), None);
    assert_eq!(k.container_of(ItemRef { owner: a, kind: ItemKind::State }), Some(2));
    assert_eq!(q.xQueueReceive(&mut k, &mut wait), Attempt::Done(Ok(11)));
}

#[test]
fn a_receiver_woken_while_suspended_is_readied_on_resume() {
    let mut k = Kernel::new();
    let a = new_task(&mut k, 1);
    let mut q: QueueHandle_t<u32> = QueueHandle_t::xQueueCreate(&mut k, 2);
    let mut wait = WaitState::new(10);
    assert_eq!(q.xQueueReceive(&mut k, &mut wait), Attempt::Retry);
    lib::kernel::TaskSuspendAll(&mut k);
    assert_eq!(q.xQueueSendToBackFromISR(&mut k, 42), (Ok(()), false));
    assert_eq!(k.container_of(event(a)), Some(lib::global::PENDING_READY_LIST));
    lib::kernel::TaskResumeAll(&mut k);
    assert_eq!(k.container_of(event(a)), None);
    assert_eq!(k.container_of(ItemRef { owner: a, kind: ItemKind::State }), Some(1));
    assert_eq!(k.list_len(lib::global::PENDING_READY_LIST), 0);
    assert_eq!(q.xQueueReceive(&mut k, &mut wait), Attempt::Done(Ok(42)));
}

#[test]
fn unlocking_a_queue_wakes_the_receiver_a_locked_send_counted() {
    let mut k = Kernel::new();
    let a = new_task(&mut k, 1);
    let mut q: QueueDefinition<u32> = QueueDefinition::xQueueGenericCreate(&mut k, 1, QueueType::Base);
    let mut wait_a = WaitState::new(10);
    assert!(matches!(q.xQueueGenericReceive(&mut k, &mut wait_a, false), Attempt::Retry));
    assert_eq!(k.container_of(event(a)), Some(q.xTasksWaitingToReceive));
    let b = new_task(&mut k, 1);
    assert_eq!(k.current_tcb, Some(b));
    q.prvLockQueue();
    assert_eq!(q.xQueueGenericSendFromISR(&mut k, 5, queueSEND_TO_BACK), (Ok(()), false));
    assert_eq!(q.cTxLock, 1);
    assert_eq!(k.container_of(event(a)), Some(q.xTasksWaitingToReceive));
    let mut wait_b = WaitState::new(10);
    assert!(matches!(q.xQueueGenericSend(&mut k, 6, &mut wait_b, queueSEND_TO_BACK), SendStep::Retry(6)));
    assert_eq!(k.container_of(event(a)), None);
    assert_eq!(k.container_of(ItemRef { owner: a, kind: ItemKind::State }), Some(1));
    assert_eq!(k.container_of(event(b)), Some(q.xTasksWaitingToSend));
    assert_eq!(q.cTxLock, lib::queue::queueUNLOCKED);
    assert_eq!(q.cRxLock, lib::queue::queueUNLOCKED);
}
