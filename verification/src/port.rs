use vstd::prelude::*;
use crate::projdefs::FreeRtosError;

verus! {

pub type StackType = usize;
pub type BaseType = i64;
pub type UBaseType = u64;
pub type TickType = u32;

pub type StackType_t = usize;
pub type BaseType_t = i64;
pub type UBaseType_t = u64;
pub type TickType_t = u32;

/// Mask applied to the top of a new task's stack.
pub const portBYTE_ALIGNMENT_MASK: UBaseType = 8;

/// The largest tick value; a wait of this length blocks without a time limit.
pub const portMAX_DELAY: TickType = 0xffffffff;

/// Allocates `size` bytes for a task stack. The port has no heap behind it:
/// a request for zero bytes fails with `OutOfMemory`, any other request
/// succeeds with the null address.
pub fn port_malloc(size: usize) -> (r: Result<usize, FreeRtosError>)
    ensures
        size == 0 ==> r == Err::<usize, FreeRtosError>(FreeRtosError::OutOfMemory),
        size != 0 ==> r == Ok::<usize, FreeRtosError>(0),
{
    if size == 0 {
        Err(FreeRtosError::OutOfMemory)
    } else {
        Ok(0)
    }
}

/// Releases a stack obtained from `port_malloc`; the port keeps no heap, so
/// there is nothing to release.
pub fn port_free(pv: usize) {
}

/// Prepares the port's heap; nothing to prepare.
pub fn port_initialize_blocks() {
}

/// Free heap bytes known to the port: always 0.
pub fn port_get_free_heap_size() -> (r: usize)
    ensures
        r == 0,
{
    0
}

/// Smallest amount of free heap ever seen by the port: always 0.
pub fn port_get_minimum_ever_free_heap_size() -> (r: usize)
    ensures
        r == 0,
{
    0
}

/// Starts the tick interrupt; the port reports `pdFALSE` (0).
pub fn port_start_scheduler() -> (r: BaseType)
    ensures
        r == 0,
{
    0
}

/// Stops the tick interrupt; nothing to stop.
pub fn port_end_scheduler() {
}

/// Lays out the initial frame of a task stack. The port has no stack frames
/// to lay out and always reports `PortError`.
pub fn port_initialise_stack(top_of_stack: usize, code: StackType, parameters: usize) -> (r: Result<
    usize,
    FreeRtosError,
>)
    ensures
        r == Err::<usize, FreeRtosError>(FreeRtosError::PortError),
{
    Err(FreeRtosError::PortError)
}

} // verus!
