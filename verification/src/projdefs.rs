use vstd::prelude::*;
use crate::port::BaseType;

verus! {

pub const pdFALSE: BaseType = 0;
pub const pdTRUE: BaseType = 1;

/// Errors reported by the kernel and its port layer.
#[derive(Clone, Copy, PartialEq, Eq, Structural, Debug)]
pub enum FreeRtosError {
    OutOfMemory,
    QueueSendTimeout,
    QueueReceiveTimeout,
    MutexTimeout,
    Timeout,
    QueueFull,
    StringConversionError,
    TaskNotFound,
    InvalidQueueSize,
    ProcessorHasShutDown,
    PortError,
}

} // verus!
