//! A to-do list kept by calendar day: each day holds an ordered list of
//! unfinished tasks and an ordered list of finished ones.
pub mod command;
pub mod date;
pub mod task;
pub mod laws;
pub mod todo_list;

pub use date::Date;
pub use task::{Task, TaskState};
pub use todo_list::{DayTasks, TodoError, TodoList};
