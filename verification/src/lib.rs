//! A small real-time kernel: task lists, a tick-driven scheduler, queues,
//! mutexes and semaphores, each operation stated by a contract over a model
//! of the kernel state and proved against it.
#![allow(non_snake_case)]
#![allow(non_camel_case_types)]
#![allow(non_upper_case_globals)]

pub mod config;
pub mod projdefs;
pub mod port;
pub mod list;
pub mod tasks;
pub mod global;
pub mod kernel;
pub mod task_queue;
pub mod queue;
pub mod queue_api;
pub mod semaphore;
pub mod laws;
