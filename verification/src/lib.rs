//! A verified core for a terminal task tracker: the task model with its
//! derived urgency status, the ordered and filterable task view, the
//! key-routing state machine of the two-pane interface, and the codec for
//! the on-disk task table.

pub mod app;
pub mod decimal;
pub mod keys;
pub mod labels;
pub mod panes;
pub mod popups;
pub mod prompt;
pub mod sorting;
pub mod storages;
pub mod strutil;
pub mod task;
