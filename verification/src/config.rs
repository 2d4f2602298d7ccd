//! How the library is set up.
use vstd::prelude::*;

use crate::time::Span;

verus! {

/// The settings of the library.
#[derive(Debug)]
pub struct StrunkConfig {
    pub database_url: String,
    pub poll_interval: Span,
    pub relay_batch_size: i64,
    pub reaper_retention_delivered: Span,
    pub reaper_retention_dead: Span,
    pub reaper_batch_size: i64,
    pub reaper_interval: Span,
}

impl Clone for StrunkConfig {
    fn clone(&self) -> (r: StrunkConfig)
        ensures
            r == *self,
    {
        StrunkConfig {
            database_url: self.database_url.clone(),
            poll_interval: self.poll_interval,
            relay_batch_size: self.relay_batch_size,
            reaper_retention_delivered: self.reaper_retention_delivered,
            reaper_retention_dead: self.reaper_retention_dead,
            reaper_batch_size: self.reaper_batch_size,
            reaper_interval: self.reaper_interval,
        }
    }
}

impl Default for StrunkConfig {
    fn default() -> (r: StrunkConfig)
        ensures
            r.database_url@ == Seq::<char>::empty(),
            r.poll_interval.micros == 100_000,
            r.relay_batch_size == 100,
            r.reaper_retention_delivered.micros == 7 * 24 * 3600 * 1_000_000,
            r.reaper_retention_dead.micros == 30 * 24 * 3600 * 1_000_000,
            r.reaper_batch_size == 10_000,
            r.reaper_interval.micros == 300_000_000,
    {
        StrunkConfig {
            database_url: String::new(),
            poll_interval: Span::from_millis(100),
            relay_batch_size: 100,
            reaper_retention_delivered: Span::from_secs(7 * 24 * 3600),
            reaper_retention_dead: Span::from_secs(30 * 24 * 3600),
            reaper_batch_size: 10_000,
            reaper_interval: Span::from_secs(300),
        }
    }
}

} // verus!
