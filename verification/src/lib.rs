//! Core of a terminal task manager: the entity model (tasks, lists,
//! recurrence), the My-Day ordering logic, the persistence record codec,
//! and the modal keyboard state machine, all with verified contracts.
//! Terminal drawing and file handling live outside the library.

pub mod app;
pub mod calendar;
pub mod datefmt;
pub mod input;
pub mod list;
pub mod storage;
pub mod task;
