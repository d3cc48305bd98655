//! EveBoros: the state and the decisions of a callback-style event loop.

pub mod background;
pub mod changes;
pub mod error;
pub mod event_loop;
pub mod handle;
pub mod idle;
pub mod laws;
pub mod loop_io;
pub mod loop_laws;
pub mod loop_message;
pub mod loop_run;
pub mod loop_signal;
pub mod loop_timers;
pub mod message;
pub mod part_laws;
pub mod recycler;
pub mod signal;
pub mod signal_dispatch;
pub mod stolen_cell;
pub mod task;
pub mod timers;
