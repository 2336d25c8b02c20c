//! What a sync reports while it runs: an error count, a counter of handled items, and the
//! latest progress event for an observer.

use vstd::prelude::*;

verus! {

/// An event of a sync, for an observer that reads the latest one.
#[derive(Debug)]
pub enum SyncEvent {
    /// The sync has not started.
    NotStarted,
    /// The sync has started, and no calendar is handled yet.
    Started,
    /// The sync is handling a calendar.
    InProgress { calendar: String, items_done_already: usize, details: String },
    /// The sync is over.
    Finished { success: bool },
}

impl Default for SyncEvent {
    fn default() -> (r: Self)
        ensures
            r is NotStarted,
    {
        SyncEvent::NotStarted
    }
}

impl Clone for SyncEvent {
    fn clone(&self) -> (r: Self)
        ensures
            r == *self,
    {
        match self {
            SyncEvent::NotStarted => SyncEvent::NotStarted,
            SyncEvent::Started => SyncEvent::Started,
            SyncEvent::InProgress { calendar, items_done_already, details } => SyncEvent::InProgress {
                calendar: calendar.clone(),
                items_done_already: *items_done_already,
                details: details.clone(),
            },
            SyncEvent::Finished { success } => SyncEvent::Finished { success: *success },
        }
    }
}

/// The progression of a sync and the errors met on the way.
pub struct SyncProgress {
    n_errors: u32,
    counter: usize,
    latest: SyncEvent,
    errors: Vec<String>,
    history: Ghost<Seq<SyncEvent>>,
}

/// `b` is `a` with possibly more events posted after those of `a`.
pub open spec fn extends(a: SyncProgress, b: SyncProgress) -> bool {
    &&& a.posted().len() <= b.posted().len()
    &&& forall|i: int| 0 <= i < a.posted().len() ==> #[trigger] b.posted()[i] == a.posted()[i]
}

impl SyncProgress {
    /// How many errors and warnings were reported, up to `u32::MAX`.
    pub closed spec fn n_errors(&self) -> nat {
        self.n_errors as nat
    }

    /// The user-facing counter of handled items.
    pub closed spec fn counter_value(&self) -> nat {
        self.counter as nat
    }

    /// The latest event posted.
    pub closed spec fn latest(&self) -> SyncEvent {
        self.latest
    }

    /// Every event posted, in order.
    pub closed spec fn posted(&self) -> Seq<SyncEvent> {
        self.history@
    }

    /// The texts of the errors and warnings, in the order reported.
    pub closed spec fn error_texts(&self) -> Seq<Seq<char>> {
        self.errors@.map_values(|s: String| s@)
    }

    pub fn new() -> (r: Self)
        ensures
            r.n_errors() == 0,
            r.counter_value() == 0,
            r.latest() is NotStarted,
            r.error_texts().len() == 0,
            r.posted().len() == 0,
    {
        let r = SyncProgress {
            n_errors: 0,
            counter: 0,
            latest: SyncEvent::NotStarted,
            errors: Vec::new(),
            history: Ghost(Seq::empty()),
        };
        assert(r.error_texts() =~= Seq::<Seq<char>>::empty());
        r
    }

    /// Reset the counter of handled items.
    pub fn reset_counter(&mut self)
        ensures
            final(self).counter_value() == 0,
            final(self).n_errors() == old(self).n_errors(),
            final(self).latest() == old(self).latest(),
            final(self).error_texts() == old(self).error_texts(),
            final(self).posted() == old(self).posted(),
    {
        self.counter = 0;
    }

    /// Add to the counter of handled items (it stops at `usize::MAX`).
    pub fn increment_counter(&mut self, increment: usize)
        ensures
            final(self).counter_value() == if old(self).counter_value() + increment > usize::MAX {
                usize::MAX as int
            } else {
                old(self).counter_value() + increment
            },
            final(self).n_errors() == old(self).n_errors(),
            final(self).latest() == old(self).latest(),
            final(self).error_texts() == old(self).error_texts(),
            final(self).posted() == old(self).posted(),
    {
        if self.counter <= usize::MAX - increment {
            self.counter = self.counter + increment;
        } else {
            self.counter = usize::MAX;
        }
    }

    /// The counter of handled items.
    pub fn counter(&self) -> (r: usize)
        ensures
            r == self.counter_value(),
    {
        self.counter
    }

    /// How many errors and warnings were reported, up to `u32::MAX`.
    pub fn error_count(&self) -> (r: u32)
        ensures
            r == self.n_errors(),
    {
        self.n_errors
    }

    /// Whether no error nor warning was reported.
    pub fn is_success(&self) -> (r: bool)
        ensures
            r == (self.n_errors() == 0),
    {
        self.n_errors == 0
    }

    fn record(&mut self, text: &str)
        ensures
            final(self).n_errors() == if old(self).n_errors() == u32::MAX {
                old(self).n_errors()
            } else {
                old(self).n_errors() + 1
            },
            final(self).counter_value() == old(self).counter_value(),
            final(self).latest() == old(self).latest(),
            final(self).error_texts() == old(self).error_texts().push(text@),
            final(self).posted() == old(self).posted(),
    {
        if self.n_errors < u32::MAX {
            self.n_errors = self.n_errors + 1;
        }
        let ghost e0 = self.errors@;
        self.errors.push(text.to_owned());
        assert(self.errors@.map_values(|s: String| s@) =~= e0.map_values(|s: String| s@).push(text@));
    }

    /// Report an error: the sync will not count as a success.
    pub fn error(&mut self, text: &str)
        ensures
            final(self).n_errors() > 0,
            old(self).n_errors() < u32::MAX ==> final(self).n_errors() == old(self).n_errors() + 1,
            final(self).n_errors() >= old(self).n_errors(),
            final(self).counter_value() == old(self).counter_value(),
            final(self).latest() == old(self).latest(),
            final(self).error_texts() == old(self).error_texts().push(text@),
            final(self).posted() == old(self).posted(),
    {
        self.record(text);
    }

    /// Report a warning: the sync will not count as a success either.
    pub fn warn(&mut self, text: &str)
        ensures
            final(self).n_errors() > 0,
            old(self).n_errors() < u32::MAX ==> final(self).n_errors() == old(self).n_errors() + 1,
            final(self).n_errors() >= old(self).n_errors(),
            final(self).counter_value() == old(self).counter_value(),
            final(self).latest() == old(self).latest(),
            final(self).error_texts() == old(self).error_texts().push(text@),
            final(self).posted() == old(self).posted(),
    {
        self.record(text);
    }

    /// Post an event for the observer.
    pub fn feedback(&mut self, event: SyncEvent)
        ensures
            final(self).latest() == event,
            final(self).n_errors() == old(self).n_errors(),
            final(self).counter_value() == old(self).counter_value(),
            final(self).error_texts() == old(self).error_texts(),
            final(self).posted() == old(self).posted().push(event),
    {
        let ghost e = event;
        self.history = Ghost(self.history@.push(e));
        self.latest = event;
    }

    /// The latest event posted.
    pub fn latest_event(&self) -> (r: &SyncEvent)
        ensures
            *r == self.latest(),
    {
        &self.latest
    }
}

} // verus!
