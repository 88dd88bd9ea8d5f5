//! Browse a workspace's project/task inventory as a collapsible tree.
//!
//! [`report`] turns the indentation-structured task report into projects and
//! tasks; [`nav`] moves a cursor through the tree of those projects and tasks;
//! [`session`] maps input events to tree moves, schedules redraws and ends the
//! session with the identifier of the chosen task.

pub mod nav;
pub mod report;
pub mod session;
