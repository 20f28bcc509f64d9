use vstd::prelude::*;
use crate::port::{TickType, UBaseType};

verus! {

/// Number of tick interrupts per second.
pub const configTICK_RATE_HZ: TickType = 1000;

/// Stack depth, in words, given to a task control block on creation.
pub const configMINIMAL_STACK_SIZE: UBaseType = 64;

/// Bytes of heap made available to the kernel.
pub const configTOTAL_HEAP_SIZE: usize = 65536;

/// Longest task name the kernel expects.
pub const configMAX_TASK_NAME_LEN: usize = 16;

/// Number of entries of the queue registry.
pub const configQUEUE_REGISTRY_SIZE: usize = 20;

/// Number of task priorities; valid priorities are `0 .. configMAX_PRIORITIES`.
pub const configMAX_PRIORITIES: UBaseType = 10;

/// Priority of the timer service task.
pub const configTIMER_TASK_PRIORITY: UBaseType = 9;

/// Stack depth of the timer service task.
pub const configTIMER_TASK_STACK_DEPTH: UBaseType = 128;

/// Idle ticks expected before the kernel may enter low-power sleep.
pub const configEXPECTED_IDLE_TIME_BEFORE_SLEEP: TickType = 2;

} // verus!
