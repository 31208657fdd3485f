//! The log of a run: events in the order in which they were recorded, the
//! oldest dropped once the store holds more than it retains.

use vstd::prelude::*;

verus! {

/// How many events the store retains.
pub const RETAINED_EVENTS: usize = 1000;

/// One event of the log.
#[derive(Debug, Clone)]
pub struct LogEvent {
    /// The time of day at which the event was recorded.
    pub timestamp: String,
    /// One of "info", "success", "warning" and "error".
    pub level: String,
    pub message: String,
}

/// The events recorded so far.
pub struct LogStore {
    pub logs: Vec<LogEvent>,
}

/// The last `limit` elements of a sequence, or all of it if it has no more.
pub open spec fn newest<T>(events: Seq<T>, limit: int) -> Seq<T> {
    if events.len() > limit {
        events.subrange(events.len() - limit, events.len() as int)
    } else {
        events
    }
}

impl LogEvent {
    /// An event recorded at a given time of day, which the caller read from
    /// the clock.
    pub fn at(timestamp: String, level: &str, message: String) -> (event: LogEvent)
        ensures
            event.timestamp == timestamp,
            event.level@ == level@,
            event.message == message,
    {
        LogEvent { timestamp, level: level.to_owned(), message }
    }
}

impl LogStore {
    /// A store without events.
    pub fn new() -> (store: LogStore)
        ensures
            store.logs@ == Seq::<LogEvent>::empty(),
    {
        LogStore { logs: Vec::new() }
    }

    /// Appends an event and drops the oldest events beyond the retained
    /// number, so that the store never holds more than that.
    pub fn record(&mut self, event: LogEvent)
        ensures
            final(self).logs@ == newest(old(self).logs@.push(event), RETAINED_EVENTS as int),
            final(self).logs@.len() <= RETAINED_EVENTS,
    {
        let ghost all = self.logs@.push(event);
        self.logs.push(event);
        assert(all.len() == self.logs.len());
        let mut dropped: usize = 0;
        while self.logs.len() > RETAINED_EVENTS
            invariant
                all.len() == dropped + self.logs@.len(),
                all.len() <= usize::MAX,
                self.logs@ == all.subrange(dropped as int, all.len() as int),
                dropped == 0 || self.logs@.len() >= RETAINED_EVENTS,
            decreases self.logs.len(),
        {
            self.logs.remove(0);
            dropped += 1;
            assert(self.logs@ =~= all.subrange(dropped as int, all.len() as int));
        }
        assert(self.logs@ =~= newest(all, RETAINED_EVENTS as int)) by {
            if dropped == 0 {
                assert(all.subrange(0, all.len() as int) =~= all);
            }
        }
    }

    /// The number of events held.
    pub fn len(&self) -> (count: usize)
        ensures
            count == self.logs@.len(),
    {
        self.logs.len()
    }
}

} // verus!
