//! Admission control: a bounded count of the connections that are being
//! served.
use crate::text::{append, bytes_of, lit, to_vec};
use vstd::prelude::*;

verus! {

/// The number of workers that a fresh handler admits at a time.
pub const DEFAULT_MAX_COUNT: i8 = 4;

/// The count of live workers and its bound.
#[derive(Debug)]
pub struct ThreadCounter {
    count: i8,
    max_count: i8,
}

/// What a worker reports to the supervisor.
#[derive(Debug)]
pub enum ThreadMessageEvent {
    /// The worker has started.
    OPEN,
    /// The worker has finished.
    CLOSE,
    /// The worker has ended with an error.
    ERROR(Vec<u8>),
}

/// Why a worker was not admitted.
#[derive(Structural, PartialEq, Eq, Clone, Copy, Debug)]
pub enum ThreadError {
    NoRemainingThreads,
}

/// The mathematical content of a counter.
pub struct CounterModel {
    pub count: int,
    pub max_count: int,
}

impl CounterModel {
    /// The count lies between zero and the bound.
    pub open spec fn bounded(self) -> bool {
        0 <= self.count <= self.max_count
    }

    /// One more worker is admitted.
    pub open spec fn admits(self) -> bool {
        self.count < self.max_count
    }

    /// The counter after an attempt to admit a worker: one more where one
    /// is admitted, unchanged where the bound is reached.
    pub open spec fn opened(self) -> CounterModel {
        if self.admits() {
            CounterModel { count: self.count + 1, max_count: self.max_count }
        } else {
            self
        }
    }

    /// The counter after a worker has ended: one less, and never below
    /// zero.
    pub open spec fn closed(self) -> CounterModel {
        if self.count > 0 {
            CounterModel { count: self.count - 1, max_count: self.max_count }
        } else {
            self
        }
    }

    /// The counter after `n` attempts to admit a worker.
    pub open spec fn opened_times(self, n: nat) -> CounterModel
        decreases n,
    {
        if n == 0 {
            self
        } else {
            self.opened_times((n - 1) as nat).opened()
        }
    }

    /// The counter after a worker's report.
    pub open spec fn after(self, event: EventModel) -> CounterModel {
        match event {
            EventModel::Open => self.opened(),
            EventModel::Close => self.closed(),
            EventModel::Error(_) => self.closed(),
        }
    }
}

/// The mathematical content of a worker's report.
pub enum EventModel {
    Open,
    Close,
    Error(Seq<u8>),
}

impl View for ThreadMessageEvent {
    type V = EventModel;

    open spec fn view(&self) -> EventModel {
        match self {
            ThreadMessageEvent::OPEN => EventModel::Open,
            ThreadMessageEvent::CLOSE => EventModel::Close,
            ThreadMessageEvent::ERROR(e) => EventModel::Error(e@),
        }
    }
}

/// The text of a worker's report.
pub open spec fn event_text(event: ThreadMessageEvent) -> Seq<u8> {
    match event {
        ThreadMessageEvent::OPEN => bytes_of("Open thread"),
        ThreadMessageEvent::CLOSE => bytes_of("Close thread"),
        ThreadMessageEvent::ERROR(e) => bytes_of("Error when handling thread: ") + e@,
    }
}

impl ThreadMessageEvent {
    /// The report as text.
    pub fn to_text(&self) -> (r: Vec<u8>)
        ensures
            r@ == event_text(*self),
    {
        match self {
            ThreadMessageEvent::OPEN => to_vec(lit("Open thread")),
            ThreadMessageEvent::CLOSE => to_vec(lit("Close thread")),
            ThreadMessageEvent::ERROR(e) => {
                let mut out = to_vec(lit("Error when handling thread: "));
                append(&mut out, e.as_slice());
                out
            },
        }
    }
}

impl ThreadError {
    /// The error as text.
    pub fn to_text(&self) -> (r: &'static [u8])
        ensures
            r@ == bytes_of("No remaining threads."),
    {
        lit("No remaining threads.")
    }
}

impl View for ThreadCounter {
    type V = CounterModel;

    closed spec fn view(&self) -> CounterModel {
        CounterModel { count: self.count as int, max_count: self.max_count as int }
    }
}

impl ThreadCounter {
    #[verifier::type_invariant]
    closed spec fn inv(self) -> bool {
        0 <= self.count <= self.max_count
    }

    /// A counter at zero with the bound `max_count`.
    pub fn new(max_count: i8) -> (r: ThreadCounter)
        requires
            max_count >= 0,
        ensures
            r@ == (CounterModel { count: 0, max_count: max_count as int }),
    {
        ThreadCounter { count: 0, max_count }
    }

    /// The number of live workers.
    pub fn count(&self) -> (r: i8)
        ensures
            r == self@.count,
            self@.bounded(),
    {
        proof {
            use_type_invariant(self);
        }
        self.count
    }

    /// The bound.
    pub fn max_count(&self) -> (r: i8)
        ensures
            r == self@.max_count,
    {
        self.max_count
    }

    /// Whether one more worker is admitted.
    pub fn can_create(&self) -> (r: bool)
        ensures
            r == self@.admits(),
            self@.bounded(),
    {
        proof {
            use_type_invariant(self);
        }
        self.count < self.max_count
    }

    /// Takes the supervisor's count through a worker's report.
    pub fn record(&mut self, event: &ThreadMessageEvent)
        ensures
            final(self)@ == old(self)@.after(event@),
            final(self)@.bounded(),
    {
        proof {
            use_type_invariant(&*self);
        }
        let count = self.count;
        let max_count = self.max_count;
        let next = match event {
            ThreadMessageEvent::OPEN => if count < max_count {
                count + 1
            } else {
                count
            },
            _ => if count > 0 {
                count - 1
            } else {
                count
            },
        };
        *self = ThreadCounter { count: next, max_count };
    }
}

/// The supervisor's side of the open/close protocol.
#[derive(Debug)]
pub struct ThreadHandler {
    counter: ThreadCounter,
}

impl ThreadHandler {
    /// The counter.
    pub closed spec fn counter(&self) -> CounterModel {
        self.counter@
    }

    /// A handler that admits four workers at a time.
    pub fn create() -> (r: ThreadHandler)
        ensures
            r.counter() == (CounterModel { count: 0, max_count: 4 }),
    {
        ThreadHandler { counter: ThreadCounter::new(DEFAULT_MAX_COUNT) }
    }

    /// A handler that admits `max_count` workers at a time.
    pub fn with_max(max_count: i8) -> (r: ThreadHandler)
        requires
            max_count >= 0,
        ensures
            r.counter() == (CounterModel { count: 0, max_count: max_count as int }),
    {
        ThreadHandler { counter: ThreadCounter::new(max_count) }
    }

    /// The number of live workers.
    pub fn active(&self) -> (r: i8)
        ensures
            r == self.counter().count,
            self.counter().bounded(),
    {
        self.counter.count()
    }

    /// Admits a worker, and counts it, unless the bound is reached.
    pub fn spawn(&mut self) -> (r: Result<(), ThreadError>)
        ensures
            r is Ok <==> old(self).counter().admits(),
            r matches Err(e) ==> e == ThreadError::NoRemainingThreads,
            final(self).counter() == old(self).counter().opened(),
            final(self).counter().bounded(),
    {
        if !self.counter.can_create() {
            return Err(ThreadError::NoRemainingThreads);
        }
        self.counter.record(&ThreadMessageEvent::OPEN);
        Ok(())
    }

    /// Takes the count through a worker's report. A worker that was
    /// admitted by `spawn` is counted already: it reports only its end,
    /// and its place becomes free whether it finished or failed.
    pub fn record(&mut self, event: &ThreadMessageEvent)
        ensures
            final(self).counter() == old(self).counter().after(event@),
            final(self).counter().bounded(),
    {
        self.counter.record(event);
    }
}

/// Every step keeps the count between zero and the bound.
pub proof fn lemma_counter_bounded(c: CounterModel, event: EventModel)
    requires
        c.bounded(),
    ensures
        c.after(event).bounded(),
{
}

/// From zero, the first `max_count` attempts are admitted one by one, and
/// as long as none of the workers has ended every further attempt is
/// turned down.
pub proof fn lemma_admission_bound(max_count: int, n: nat)
    requires
        0 <= max_count,
    ensures
        ({
            let c = (CounterModel { count: 0, max_count }).opened_times(n);
            &&& c.max_count == max_count
            &&& c.count == if n <= max_count {
                n as int
            } else {
                max_count
            }
            &&& c.admits() <==> n < max_count
        }),
    decreases n,
{
    if n > 0 {
        lemma_admission_bound(max_count, (n - 1) as nat);
    }
}

/// At the bound an attempt is turned down and changes nothing; once a
/// worker has ended, the next attempt is admitted.
pub proof fn lemma_admission_after_close(c: CounterModel)
    requires
        c.bounded(),
        c.count == c.max_count,
        c.max_count > 0,
    ensures
        !c.admits(),
        c.opened() == c,
        c.closed().admits(),
        c.closed().opened() == c,
{
}

} // verus!
