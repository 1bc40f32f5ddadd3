//! Mail client core.

pub mod accounts;
pub mod control_laws;
pub mod demo;
pub mod fetch;
pub mod fetch_laws;
pub mod input;
pub mod intake;
pub mod ipc;
pub mod jobs;
pub mod json;
pub mod list;
pub mod mailto;
pub mod merge;
pub mod merge_laws;
pub mod message;
pub mod model;
pub mod net;
pub mod number;
pub mod order;
pub mod outgoing;
pub mod pane_laws;
pub mod pass;
pub mod path;
pub mod poll;
pub mod reading_laws;
pub mod render;
pub mod scan;
pub mod schedule;
pub mod sending_laws;
pub mod session;
pub mod shown_laws;
pub mod state;
pub mod structure;
pub mod structure_laws;
pub mod text;
pub mod text_laws;
pub mod told_laws;
pub mod update;
pub mod update_laws;
pub mod webview;
pub mod window_laws;
pub mod worker_laws;
