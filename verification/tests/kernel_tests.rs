use lib::config::configMAX_PRIORITIES;
use lib::global::{Kernel, DELAYED_LIST_A, SUSPENDED_TASK_LIST, TASKS_WAITING_TERMINATION};
use lib::kernel::{
    SchedulerState, TaskEndScheduler, TaskGetSchedulerState, TaskIncrementTick, TaskResumeAll,
    TaskStartScheduler, TaskSuspendAll, TaskSwitchContext, InitializeScheduler, CreateIdleTask,
    TaskStepTick,
};
use lib::list::{ItemKind, ItemRef, List};
use lib::port::{port_initialise_stack, port_malloc, portMAX_DELAY};
use lib::projdefs::FreeRtosError;
use lib::task_queue::{
    time_out, vTaskPriorityInherit, xTaskCheckForTimeOut, xTaskPriorityDisinherit,
};
use lib::tasks::{
    AddCurrentTaskToDelayedList, IsTaskSuspended, ResumeTask, SuspendTask, TaskDelete, TaskHandle,
    TCB,
};

fn state(h: TaskHandle) -> ItemRef {
    ItemRef { owner: h, kind: ItemKind::State }
}

fn event(h: TaskHandle) -> ItemRef {
    ItemRef { owner: h, kind: ItemKind::Event }
}

/// Registers a new task of priority `prio`, with a stack pointer of its
/// own, and makes it ready.
fn new_task(k: &mut Kernel, prio: u64) -> TaskHandle {
    let mut t = TCB::new();
    t.Priority = prio;
    t.BasePriority = prio;
    t.StackPointer = (k.tasks.len() + 1) * 64;
    let h = TaskHandle::from(k, t);
    h.AddNewTaskToReadyList(k).unwrap();
    h
}

#[test]
fn new_kernel_is_empty_and_not_started() {
    let k = Kernel::new();
    for l in 0..lib::global::NUM_KERNEL_LISTS {
        assert_eq!(k.list_len(l), 0);
    }
    assert_eq!(k.tick_count, 0);
    assert_eq!(k.current_tcb, None);
    assert_eq!(TaskGetSchedulerState(&k), SchedulerState::NotStarted);
}

#[test]
fn tcb_defaults_and_builders() {
    let mut t = TCB::new();
    assert_eq!(t.GetName(), "Unnamed");
    assert_eq!(t.GetPriority(), 1);
    assert_eq!(t.GetBasePriority(), 0);
    assert_eq!(t.StackDepth, lib::config::configMINIMAL_STACK_SIZE);
    t.SetName("worker").SetStackDepth(128);
    assert_eq!(t.GetName(), "worker");
    assert_eq!(t.StackDepth, 128);
    assert_eq!(t.SetRunTime(7), 0);
    assert_eq!(t.GetRunTime(), 7);
    assert_eq!(t.SetDelayAborted(true), false);
    assert!(t.GetDelayAborted());
}

#[test]
fn control_blocks_are_equal_by_stack_pointer() {
    let mut a = TCB::new();
    let mut b = TCB::new();
    a.SetName("a");
    b.SetName("b");
    assert!(a == b);
    b.StackPointer = 16;
    assert!(a != b);
}

#[test]
fn first_task_becomes_the_running_task() {
    let mut k = Kernel::new();
    let a = new_task(&mut k, 1);
    assert_eq!(k.current_tcb, Some(a));
    assert_eq!(k.current_number_of_tasks, 1);
    assert_eq!(k.list_len(1), 1);
    assert_eq!(k.container_of(state(a)), Some(1));
}

#[test]
fn before_start_the_most_urgent_new_task_runs() {
    let mut k = Kernel::new();
    let _a = new_task(&mut k, 1);
    let b = new_task(&mut k, 3);
    let _c = new_task(&mut k, 2);
    assert_eq!(k.current_tcb, Some(b));
    assert_eq!(k.top_ready_priority, 3);
}

#[test]
fn switch_selects_the_highest_ready_priority() {
    let mut k = Kernel::new();
    let _a = new_task(&mut k, 1);
    let b = new_task(&mut k, 4);
    TaskSwitchContext(&mut k);
    assert_eq!(k.current_tcb, Some(b));
    assert_eq!(k.top_ready_priority, 4);
    assert!(!k.yield_pending);
}

#[test]
fn tasks_of_one_priority_take_turns() {
    let mut k = Kernel::new();
    let a = new_task(&mut k, 2);
    let b = new_task(&mut k, 2);
    TaskSwitchContext(&mut k);
    assert_eq!(k.current_tcb, Some(a));
    TaskSwitchContext(&mut k);
    assert_eq!(k.current_tcb, Some(b));
    TaskSwitchContext(&mut k);
    assert_eq!(k.current_tcb, Some(a));
}

#[test]
fn no_switch_while_suspended() {
    let mut k = Kernel::new();
    let a = new_task(&mut k, 1);
    let _b = new_task(&mut k, 0);
    TaskSuspendAll(&mut k);
    assert_eq!(TaskGetSchedulerState(&k), SchedulerState::NotStarted);
    InitializeScheduler(&mut k);
    assert_eq!(TaskGetSchedulerState(&k), SchedulerState::Suspended);
    TaskSwitchContext(&mut k);
    assert_eq!(k.current_tcb, Some(a));
    assert!(k.yield_pending);
}

#[test]
fn nested_suspension_is_undone_by_one_resume() {
    let mut k = Kernel::new();
    let _a = new_task(&mut k, 1);
    TaskSuspendAll(&mut k);
    TaskSuspendAll(&mut k);
    assert_eq!(k.scheduler_suspended, 2);
    assert!(!TaskResumeAll(&mut k));
    assert_eq!(k.scheduler_suspended, 1);
    TaskResumeAll(&mut k);
    assert_eq!(k.scheduler_suspended, 0);
}

#[test]
fn ticks_pended_while_suspended_are_processed_on_resume() {
    let mut k = Kernel::new();
    let _a = new_task(&mut k, 1);
    TaskSuspendAll(&mut k);
    for _ in 0..3 {
        assert!(!TaskIncrementTick(&mut k));
    }
    assert_eq!(k.pended_ticks, 3);
    assert_eq!(k.tick_count, 0);
    TaskResumeAll(&mut k);
    assert_eq!(k.pended_ticks, 0);
    assert_eq!(k.tick_count, 3);
}

#[test]
fn a_delayed_task_wakes_at_its_time() {
    let mut k = Kernel::new();
    let a = new_task(&mut k, 1);
    AddCurrentTaskToDelayedList(&mut k, 5, false);
    assert_eq!(k.container_of(state(a)), Some(DELAYED_LIST_A));
    assert_eq!(k.value_of(state(a)), 5);
    for _ in 0..4 {
        TaskIncrementTick(&mut k);
        assert_eq!(k.container_of(state(a)), Some(DELAYED_LIST_A));
    }
    assert_eq!(k.next_task_unblock_time, 5);
    assert!(TaskIncrementTick(&mut k));
    assert_eq!(k.tick_count, 5);
    assert_eq!(k.container_of(state(a)), Some(1));
    assert_eq!(k.next_task_unblock_time, portMAX_DELAY);
}

#[test]
fn an_unlimited_delay_suspends_the_task() {
    let mut k = Kernel::new();
    let a = new_task(&mut k, 1);
    AddCurrentTaskToDelayedList(&mut k, portMAX_DELAY, true);
    assert_eq!(k.container_of(state(a)), Some(SUSPENDED_TASK_LIST));
}

#[test]
fn step_tick_advances_the_count() {
    let mut k = Kernel::new();
    let _a = new_task(&mut k, 1);
    k.next_task_unblock_time = 10;
    TaskStepTick(&mut k, 4);
    assert_eq!(k.tick_count, 4);
}

#[test]
fn a_suspended_task_resumes_on_its_ready_list() {
    let mut k = Kernel::new();
    let a = new_task(&mut k, 1);
    let b = new_task(&mut k, 0);
    assert_eq!(k.current_tcb, Some(a));
    SuspendTask(&mut k, b);
    assert!(IsTaskSuspended(&k, &b));
    assert_eq!(k.container_of(state(b)), Some(SUSPENDED_TASK_LIST));
    ResumeTask(&mut k, b);
    assert!(!IsTaskSuspended(&k, &b));
    assert_eq!(k.container_of(state(b)), Some(0));
}

#[test]
fn resuming_the_scheduler_keeps_suspended_tasks_suspended() {
    let mut k = Kernel::new();
    let _a = new_task(&mut k, 1);
    let b = new_task(&mut k, 0);
    SuspendTask(&mut k, b);
    TaskSuspendAll(&mut k);
    TaskIncrementTick(&mut k);
    TaskResumeAll(&mut k);
    assert!(IsTaskSuspended(&k, &b));
}

#[test]
fn deleting_another_task_unlinks_it() {
    let mut k = Kernel::new();
    let _a = new_task(&mut k, 1);
    let b = new_task(&mut k, 0);
    TaskDelete(&mut k, Some(b));
    assert_eq!(k.container_of(state(b)), None);
    assert_eq!(k.container_of(event(b)), None);
    assert_eq!(k.current_number_of_tasks, 1);
}

#[test]
fn deleting_the_running_task_parks_it_for_clean_up() {
    let mut k = Kernel::new();
    let a = new_task(&mut k, 1);
    let _b = new_task(&mut k, 0);
    InitializeScheduler(&mut k);
    TaskDelete(&mut k, None);
    assert_eq!(k.container_of(state(a)), Some(TASKS_WAITING_TERMINATION));
    assert_eq!(k.deleted_tasks_waiting_clean_up, 1);
}

#[test]
fn set_priority_is_capped() {
    let mut k = Kernel::new();
    let _a = new_task(&mut k, 1);
    let mut b = new_task(&mut k, 0);
    b.SetPriorityInDetail(&mut k, 50);
    assert_eq!(b.GetBasePriority(&k), configMAX_PRIORITIES - 1);
    assert_eq!(b.GetPriority(&k), configMAX_PRIORITIES - 1);
    assert_eq!(k.container_of(state(b)), Some((configMAX_PRIORITIES - 1) as usize));
}

#[test]
fn a_holder_inherits_and_then_returns_to_its_base_priority() {
    let mut k = Kernel::new();
    let low = new_task(&mut k, 1);
    let high = new_task(&mut k, 5);
    assert_eq!(k.current_tcb, Some(high));
    low.SetMutexHeldCount(&mut k, 1);
    vTaskPriorityInherit(&mut k, Some(low));
    assert_eq!(low.GetPriority(&k), 5);
    assert_eq!(k.container_of(state(low)), Some(5));
    k.current_tcb = Some(low);
    assert!(xTaskPriorityDisinherit(&mut k, Some(low)));
    assert_eq!(low.GetPriority(&k), 1);
    assert_eq!(low.GetMutexHeldCount(&k), 0);
    assert_eq!(k.container_of(state(low)), Some(1));
}

#[test]
fn time_out_check_counts_elapsed_ticks() {
    let mut k = Kernel::new();
    let _a = new_task(&mut k, 1);
    k.tick_count = 5;
    let mut t = time_out { overflow_count: 0, time_on_entering: 3 };
    let mut ticks: u32 = 10;
    assert!(!xTaskCheckForTimeOut(&k, &mut t, &mut ticks));
    assert_eq!(ticks, 8);
    assert_eq!(t.time_on_entering, 5);
    k.tick_count = 13;
    assert!(xTaskCheckForTimeOut(&k, &mut t, &mut ticks));
    assert_eq!(ticks, 8);
}

#[test]
fn the_port_cannot_start_a_scheduler() {
    let mut k = Kernel::new();
    assert_eq!(port_malloc(0), Err(FreeRtosError::OutOfMemory));
    assert_eq!(port_malloc(64), Ok(0));
    assert_eq!(port_initialise_stack(0, 0, 0), Err(FreeRtosError::PortError));
    assert!(matches!(CreateIdleTask(&mut k), Err(FreeRtosError::PortError)));
    assert_eq!(TaskStartScheduler(&mut k), Err(FreeRtosError::PortError));
    assert_eq!(k.current_tcb, None);
}

#[test]
fn ending_the_scheduler_stops_it_and_deletes_every_task() {
    let mut k = Kernel::new();
    let a = new_task(&mut k, 1);
    let b = new_task(&mut k, 0);
    SuspendTask(&mut k, b);
    InitializeScheduler(&mut k);
    assert_eq!(k.next_task_unblock_time, portMAX_DELAY);
    assert_eq!(TaskGetSchedulerState(&k), SchedulerState::Running);
    AddCurrentTaskToDelayedList(&mut k, 5, false);
    TaskEndScheduler(&mut k);
    assert_eq!(TaskGetSchedulerState(&k), SchedulerState::NotStarted);
    assert_eq!(k.current_tcb, None);
    assert_eq!(k.current_number_of_tasks, 0);
    for l in 0..lib::global::NUM_KERNEL_LISTS {
        assert_eq!(k.list_len(l), 0);
    }
    assert_eq!(k.container_of(state(a)), None);
    assert_eq!(k.container_of(state(b)), None);
    assert_eq!(k.value_of(state(a)), 5);
}

#[test]
fn linking_and_unlinking_an_item_restores_the_list() {
    let mut k = Kernel::new();
    let a = new_task(&mut k, 1);
    let l = k.create_event_list();
    k.insert_end(l, event(a));
    assert_eq!(k.list_len(l), 1);
    assert_eq!(k.get_owner_of_head_entry(l), a);
    assert_eq!(k.unlink_item(event(a)), 0);
    assert_eq!(k.list_len(l), 0);
    assert_eq!(k.container_of(event(a)), None);
    assert_eq!(k.unlink_item(event(a)), 0);
}

#[test]
fn list_cursor_goes_round() {
    let mut list = List::new();
    let x = state(TaskHandle(0));
    let y = state(TaskHandle(1));
    list.insert_at(0, x);
    list.insert_at(1, y);
    assert_eq!(list.len(), 2);
    assert_eq!(list.advance(), x);
    assert_eq!(list.advance(), y);
    assert_eq!(list.advance(), x);
    assert_eq!(list.position_of(y), Some(1));
    assert_eq!(list.remove_at(0), 1);
    assert_eq!(list.head(), y);
}

#[test]
fn resuming_a_task_that_is_not_suspended_changes_nothing() {
    let mut k = Kernel::new();
    let a = new_task(&mut k, 1);
    let b = new_task(&mut k, 0);
    ResumeTask(&mut k, b);
    assert_eq!(k.container_of(state(b)), Some(0));
    ResumeTask(&mut k, a);
    assert_eq!(k.container_of(state(a)), Some(1));
    assert_eq!(k.current_tcb, Some(a));
}

#[test]
fn a_tick_with_the_scheduler_suspended_needs_no_running_task() {
    let mut k = Kernel::new();
    TaskSuspendAll(&mut k);
    k.yield_pending = true;
    assert!(TaskIncrementTick(&mut k));
    assert_eq!(k.pended_ticks, 1);
    assert_eq!(k.tick_count, 0);
    TaskResumeAll(&mut k);
}

/// Registers a new task of priority `prio` with the stack pointer a fresh
/// control block has, and makes it ready.
fn new_task_sharing_stack(k: &mut Kernel, prio: u64) -> TaskHandle {
    let mut t = TCB::new();
    t.Priority = prio;
    t.BasePriority = prio;
    let h = TaskHandle::from(k, t);
    h.AddNewTaskToReadyList(k).unwrap();
    h
}

#[test]
fn tasks_sharing_a_stack_pointer_are_the_same_task() {
    let mut k = Kernel::new();
    let a = new_task_sharing_stack(&mut k, 1);
    let b = new_task_sharing_stack(&mut k, 0);
    assert_eq!(k.current_tcb, Some(a));
    assert!(a.same_task(&k, &b));
    assert!(a != b);
    TaskDelete(&mut k, Some(b));
    assert_eq!(k.container_of(state(b)), Some(TASKS_WAITING_TERMINATION));
    assert_eq!(k.deleted_tasks_waiting_clean_up, 1);
    assert_eq!(k.current_number_of_tasks, 2);
}

#[test]
fn a_task_sharing_the_running_stack_pointer_is_not_resumed() {
    let mut k = Kernel::new();
    let _a = new_task_sharing_stack(&mut k, 1);
    let b = new_task_sharing_stack(&mut k, 0);
    SuspendTask(&mut k, b);
    assert!(IsTaskSuspended(&k, &b));
    ResumeTask(&mut k, b);
    assert!(IsTaskSuspended(&k, &b));
}
