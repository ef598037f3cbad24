//! The state of a to-do planner: named lists of dated items, the events
//! that change them, and the text in which a planner is kept from one run to
//! the next.
//!
//! The surface that draws the planner is not part of this crate. It reads
//! the state through the getters, reports what the user did as a
//! [`ManagerEvent`], and keeps the text of [`TemplateApp::save`] for
//! [`TemplateApp::new`].

pub mod date;
pub mod item;
pub mod manager;
pub mod planner;
pub mod reading;
pub mod record;
pub mod store;
pub mod text;
pub mod todo_list;

pub use date::Date;
pub use item::ListItem;
pub use manager::{ListManager, ManagerEvent};
pub use planner::TemplateApp;
pub use todo_list::{ListEvent, TodoList};
