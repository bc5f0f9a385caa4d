//! The mind's plain-data parts: which goals there are and how far along one
//! is, what a task reports, how a goal is held off after failing, and the
//! decisions the goal executors take.

pub mod goal;
pub mod goals;
pub mod mind;
pub mod perception;
pub mod routines;
pub mod task;
pub mod tasks;
