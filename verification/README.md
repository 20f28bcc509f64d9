# A verified real-time kernel core

A small FreeRTOS-style kernel: task control blocks and their list items, the
ready, delayed, suspended and event lists, the tick-driven scheduler, queues,
semaphores and mutexes with priority inheritance. Every function of the library
carries a Verus contract, stated over a mathematical model of the kernel
(`KState`, the view of `Kernel`) and of a queue (`QModel`, the view of
`QueueDefinition`).

## Layout

- `src/global.rs`: the kernel state (`Kernel`), its model and invariant, and the
  list operations on it (link, unlink, insert at the end, insert by value).
- `src/list.rs`: one list with its round-robin cursor.
- `src/tasks.rs`: task control blocks and handles, readying, delaying,
  suspending, resuming and deleting tasks, priority changes.
- `src/kernel.rs`: starting and ending the scheduler, suspending and resuming
  it, the tick, and the context switch.
- `src/task_queue.rs`: what queues ask of the kernel: event lists, time-outs,
  mutex priority inheritance.
- `src/queue.rs`, `src/queue_api.rs`, `src/semaphore.rs`: queues, and the queue
  and semaphore interfaces built on them.
- `src/laws.rs`: properties of the library that span several calls, proved.
- `app/`: the demo program and the blocking forms of the waiting calls.

## Blocking calls

A call that may wait (a send to a full queue, a receive from an empty one, a
take of a semaphore) is made one attempt at a time. Each attempt returns
either the call's result or a request to try again once the port has yielded;
a `WaitState` carries the time left to wait from one attempt to the next. The
loops that repeat the attempts are in `app/blocking.rs`.
