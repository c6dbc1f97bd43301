//! A todo.txt-style task list: parsing and writing task lines, filtering,
//! relative due dates, priority ordering and moving finished tasks between the
//! open list and the done list.

pub mod date;
pub mod error;
pub mod modify;
pub mod priority;
pub mod round_trip;
pub mod text;
pub mod todo;
pub mod utility;
pub mod view;

pub use date::{date_today, parse_date_string_relative, Day};
pub use error::TodoError;
pub use priority::TodoPriority;
pub use text::{join_non_empty, tokenize};
pub use todo::Todo;
pub use utility::{sort_by_priority, todo_filter};
