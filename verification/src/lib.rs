//! The verified core of reTaskable, a task client that keeps a local cache of
//! CalDAV to-dos and an offline queue of writes.
#![allow(unused_imports)]

pub mod account;
pub mod answer_laws;
pub mod cache;
pub mod change_laws;
pub mod clock;
pub mod config;
pub mod conflict;
pub mod conflict_laws;
pub mod db;
pub mod diagnostics;
pub mod dispatch;
pub mod display;
pub mod edit_laws;
pub mod exchange;
pub mod failure;
pub mod handlers;
pub mod http;
pub mod ical;
pub mod intake;
pub mod intent_laws;
pub mod json;
pub mod list_laws;
pub mod listing;
pub mod marks;
pub mod message_laws;
pub mod messages;
pub mod multistatus;
pub mod nesting;
pub mod nesting_laws;
pub mod pending;
pub mod plain;
pub mod plain_laws;
pub mod queue;
pub mod queue_laws;
pub mod reading_laws;
pub mod reconcile;
pub mod rewrite_laws;
pub mod schema;
pub mod screen;
pub mod session;
pub mod seqs;
pub mod settings_laws;
pub mod store;
pub mod sync;
pub mod sync_laws;
pub mod table_laws;
pub mod task;
pub mod task_laws;
pub mod text;
pub mod text_laws;
pub mod trim_laws;
pub mod view_laws;
pub mod weburl;
pub mod wire_laws;
pub mod write_laws;
pub mod xml;
