//! Durable background jobs and state events that live in the tables of a database: a task queue with
//! priorities, retries and visibility timeouts, an outbox of state events with subscribers and
//! snapshots, a schema registry, and recurring schedules.
use vstd::prelude::*;

pub mod admin;
pub mod change_feed;
pub mod client;
pub mod config;
pub mod cron;
pub mod cycle;
pub mod dict;
pub mod error;
pub mod event_laws;
pub mod feed;
pub mod guarantees;
pub mod health;
pub mod json;
pub mod like;
pub mod number;
pub mod outbox;
pub mod queue_laws;
pub mod ranking;
pub mod reaper;
pub mod relay;
pub mod relay_loop;
pub mod report;
pub mod retry;
pub mod schedule_laws;
pub mod scheduler;
pub mod schema;
pub mod schema_laws;
pub mod stats;
pub mod step_laws;
pub mod store;
pub mod subscriber;
pub mod task_queue;
pub mod text;
pub mod text_laws;
pub mod time;
pub mod types;
pub mod upkeep_laws;
pub mod worker;

pub use client::Strunk;
pub use config::StrunkConfig;
pub use error::{Result, StrunkError};
pub use health::HealthReport;
pub use json::Json;
pub use scheduler::{Schedule, ScheduleBuilder};
pub use stats::{OverallStats, QueueStats, SubscriberStats};
pub use store::{Store, Transaction};
pub use task_queue::BatchItem;
pub use time::{Span, Timestamp};
pub use types::{
    MessageKind, MessageStatus, OutboxRow, StateEvent, Task, TaskResult, TypedStateEvent, TypedTask,
};

verus! {

} // verus!
