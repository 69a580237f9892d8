//! Telemetry counters that the health monitor reports on.
use vstd::prelude::*;

use crate::clock::now_unix_secs;

verus! {

/// Aggregated counters for one recording pipeline.
pub struct Metrics {
    pub frames: u64,
    pub parse_errors: u64,
    pub persistence_errors: u64,
    pub last_frame_unix: Option<u64>,
}

/// A point-in-time report of the counters.
pub struct HealthSnapshot {
    pub frames: u64,
    pub parse_errors: u64,
    pub persistence_errors: u64,
    /// Seconds since the last frame, when any frame was seen.
    pub last_frame_age: Option<u64>,
}

impl Metrics {
    pub fn new() -> (m: Self)
        ensures
            m.frames == 0,
            m.parse_errors == 0,
            m.persistence_errors == 0,
            m.last_frame_unix is None,
    {
        Metrics { frames: 0, parse_errors: 0, persistence_errors: 0, last_frame_unix: None }
    }

    /// Counts one accepted frame and remembers when it arrived.
    pub fn record_frame(&mut self)
        ensures
            final(self).frames == if old(self).frames < u64::MAX {
                old(self).frames + 1
            } else {
                u64::MAX as int
            },
            final(self).parse_errors == old(self).parse_errors,
            final(self).persistence_errors == old(self).persistence_errors,
            final(self).last_frame_unix is Some,
    {
        if self.frames < u64::MAX {
            self.frames = self.frames + 1;
        }
        self.last_frame_unix = Some(now_unix_secs());
    }

    pub fn record_parse_error(&mut self)
        ensures
            final(self).parse_errors == if old(self).parse_errors < u64::MAX {
                old(self).parse_errors + 1
            } else {
                u64::MAX as int
            },
            final(self).frames == old(self).frames,
            final(self).persistence_errors == old(self).persistence_errors,
            final(self).last_frame_unix == old(self).last_frame_unix,
    {
        if self.parse_errors < u64::MAX {
            self.parse_errors = self.parse_errors + 1;
        }
    }

    pub fn record_persistence_error(&mut self)
        ensures
            final(self).persistence_errors == if old(self).persistence_errors < u64::MAX {
                old(self).persistence_errors + 1
            } else {
                u64::MAX as int
            },
            final(self).frames == old(self).frames,
            final(self).parse_errors == old(self).parse_errors,
            final(self).last_frame_unix == old(self).last_frame_unix,
    {
        if self.persistence_errors < u64::MAX {
            self.persistence_errors = self.persistence_errors + 1;
        }
    }

    /// The counters as they stand; the age is measured against the wall
    /// clock, so only its presence is determined.
    pub fn snapshot(&self) -> (r: HealthSnapshot)
        ensures
            r.frames == self.frames,
            r.parse_errors == self.parse_errors,
            r.persistence_errors == self.persistence_errors,
            r.last_frame_age is Some <==> self.last_frame_unix is Some,
    {
        let last_frame_age = match self.last_frame_unix {
            None => None,
            Some(t) => {
                let now = now_unix_secs();
                if now >= t {
                    Some(now - t)
                } else {
                    Some(0)
                }
            },
        };
        HealthSnapshot {
            frames: self.frames,
            parse_errors: self.parse_errors,
            persistence_errors: self.persistence_errors,
            last_frame_age,
        }
    }
}

impl HealthSnapshot {
    /// The health monitor's alert decision: frames have been seen, and the
    /// last one is older than the idle threshold.
    pub fn idle_exceeded(&self, idle_threshold_secs: u64) -> (r: bool)
        ensures
            r == (self.last_frame_age matches Some(age) && age > idle_threshold_secs),
    {
        match self.last_frame_age {
            Some(age) => age > idle_threshold_secs,
            None => false,
        }
    }
}

} // verus!
