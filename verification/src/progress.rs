//! What is known of a download while it is shown.

use vstd::prelude::*;

verus! {

/// How far a download has come.
#[derive(Debug, Clone, Copy, Eq, PartialEq, Structural)]
pub enum DisplayState {
    Active,
    Success,
    Skipped,
    Error,
    Interrupted,
    Paused,
}

/// A span of time.
#[derive(Debug, Clone, Copy, Eq, PartialEq, Structural)]
pub struct Duration {
    /// Whole seconds.
    pub secs: u64,
    /// Nanoseconds on top of them.
    pub nanos: u32,
}

impl Duration {
    /// The span in nanoseconds.
    pub open spec fn nanoseconds(self) -> int {
        self.secs * 1_000_000_000 + self.nanos
    }

    /// No time at all.
    pub fn zero() -> (span: Duration)
        ensures
            span.nanoseconds() == 0,
    {
        Duration { secs: 0, nanos: 0 }
    }

    /// A span of whole seconds.
    pub fn from_secs(secs: u64) -> (span: Duration)
        ensures
            span == (Duration { secs, nanos: 0 }),
    {
        Duration { secs, nanos: 0 }
    }

    /// A span of whole milliseconds.
    pub fn from_millis(millis: u64) -> (span: Duration)
        ensures
            span.nanoseconds() == millis * 1_000_000,
            span.nanos < 1_000_000_000,
    {
        Duration { secs: millis / 1000, nanos: ((millis % 1000) as u32) * 1_000_000 }
    }

    /// `self` is at least a second longer than `other`.
    pub fn is_a_second_after(self, other: Duration) -> (after: bool)
        ensures
            after == (self.nanoseconds() >= other.nanoseconds() + 1_000_000_000),
    {
        let now: u128 = (self.secs as u128) * 1_000_000_000 + self.nanos as u128;
        let before: u128 = (other.secs as u128) * 1_000_000_000 + other.nanos as u128;
        now >= before + 1_000_000_000
    }
}

/// What is shown of a download.
#[derive(Debug, Clone, Eq, PartialEq)]
pub struct ProgressModel {
    pub filename: String,
    pub state: DisplayState,
    pub downloaded: u64,
    pub total: Option<u64>,
    pub bytes_per_second: Option<u64>,
    pub elapsed: Duration,
    pub eta: Option<Duration>,
}

/// The model of [`ProgressModel`].
pub ghost struct ModelView {
    pub filename: Seq<char>,
    pub state: DisplayState,
    pub downloaded: u64,
    pub total: Option<u64>,
    pub bytes_per_second: Option<u64>,
    pub elapsed: Duration,
    pub eta: Option<Duration>,
}

impl View for ProgressModel {
    type V = ModelView;

    open spec fn view(&self) -> ModelView {
        ModelView {
            filename: self.filename@,
            state: self.state,
            downloaded: self.downloaded,
            total: self.total,
            bytes_per_second: self.bytes_per_second,
            elapsed: self.elapsed,
            eta: self.eta,
        }
    }
}

} // verus!
