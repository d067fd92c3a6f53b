//! A timeline of clock readings and engine runs, in the order they happen.
//!
//! Readings never decrease. The engine is run only through the timeline, so
//! a duration measured between two readings can be placed around the run it
//! measures.
use std::time::Instant;
use vstd::prelude::*;
use crate::clock::{instant_now, nanos_since};
use crate::engine::{EngineError, JSEngine, JSValue};

verus! {

/// Something that happened on a timeline.
pub enum Event {
    /// A clock reading, in nanoseconds since the timeline was created.
    Reading(u128),
    /// The engine executed this code.
    Executed(Seq<char>),
    /// The engine called this function with these arguments.
    Called(Seq<char>, Seq<JSValue>),
}

/// Whether the readings of `events` never decrease.
pub open spec fn readings_ordered(events: Seq<Event>) -> bool {
    forall|i: int, j: int|
        0 <= i < j < events.len() && (#[trigger] events[i]) is Reading && (#[trigger] events[j]) is Reading
            ==> events[i]->Reading_0 <= events[j]->Reading_0
}

/// Whether `post` is `pre` followed by a reading, the run `run` and a second
/// reading, `duration` apart.
pub open spec fn timed_run(pre: Seq<Event>, post: Seq<Event>, run: Event, duration: u128) -> bool {
    let k = pre.len() as int;
    &&& post.len() == k + 3
    &&& post.take(k) == pre
    &&& post[k] is Reading
    &&& post[k + 1] == run
    &&& post[k + 2] is Reading
    &&& post[k]->Reading_0 <= post[k + 2]->Reading_0
    &&& duration == post[k + 2]->Reading_0 - post[k]->Reading_0
}

/// Whether `post` is `pre` followed by a reading and the run `run` (a run
/// that failed, after which no second reading was taken).
pub open spec fn failed_run(pre: Seq<Event>, post: Seq<Event>, run: Event) -> bool {
    let k = pre.len() as int;
    &&& post.len() == k + 2
    &&& post.take(k) == pre
    &&& post[k] is Reading
    &&& post[k + 1] == run
}

/// Clock readings and engine runs in the order they happened.
pub struct Timeline {
    origin: Instant,
    latest: u128,
    events: Ghost<Seq<Event>>,
}

impl Timeline {
    /// What happened so far, oldest first.
    pub closed spec fn events(&self) -> Seq<Event> {
        self.events@
    }

    /// The latest reading (zero before any).
    pub closed spec fn latest(&self) -> u128 {
        self.latest
    }

    #[verifier::type_invariant]
    spec fn consistent(&self) -> bool {
        &&& readings_ordered(self.events@)
        &&& forall|i: int|
            0 <= i < self.events@.len() && (#[trigger] self.events@[i]) is Reading ==> self.events@[i]->Reading_0
                <= self.latest
    }

    /// A timeline on which nothing has happened.
    pub fn new() -> (t: Self)
        ensures
            t.events() == Seq::<Event>::empty(),
            t.latest() == 0,
    {
        Timeline { origin: instant_now(), latest: 0, events: Ghost(Seq::empty()) }
    }

    /// Reads the clock: the time since the timeline was created, and never
    /// less than an earlier reading.
    pub fn read(&mut self) -> (t: u128)
        ensures
            readings_ordered(final(self).events()),
            t >= old(self).latest(),
            final(self).latest() == t,
            final(self).events() == old(self).events().push(Event::Reading(t)),
    {
        proof {
            use_type_invariant(&*self);
        }
        let now = nanos_since(&self.origin);
        let t = if now >= self.latest {
            now
        } else {
            self.latest
        };
        let ghost pre = self.events@;
        self.latest = t;
        self.events = Ghost(pre.push(Event::Reading(t)));
        proof {
            assert(readings_ordered(self.events@)) by {
                assert forall|i: int, j: int|
                    0 <= i < j < self.events@.len() && (#[trigger] self.events@[i]) is Reading && (
                    #[trigger] self.events@[j]) is Reading implies self.events@[i]->Reading_0
                    <= self.events@[j]->Reading_0 by {
                    if j < pre.len() {
                        assert(self.events@[i] == pre[i] && self.events@[j] == pre[j]);
                    } else {
                        assert(self.events@[i] == pre[i]);
                    }
                }
            }
            assert forall|i: int|
                0 <= i < self.events@.len() && (#[trigger] self.events@[i]) is Reading implies self.events@[i]->Reading_0
                <= self.latest by {
                if i < pre.len() {
                    assert(self.events@[i] == pre[i]);
                }
            }
        }
        t
    }

    fn note(&mut self, e: Ghost<Event>)
        requires
            !(e@ is Reading),
        ensures
            readings_ordered(final(self).events()),
            final(self).latest() == old(self).latest(),
            final(self).events() == old(self).events().push(e@),
    {
        proof {
            use_type_invariant(&*self);
        }
        let ghost pre = self.events@;
        self.events = Ghost(pre.push(e@));
        proof {
            assert forall|i: int, j: int|
                0 <= i < j < self.events@.len() && (#[trigger] self.events@[i]) is Reading && (
                #[trigger] self.events@[j]) is Reading implies self.events@[i]->Reading_0
                <= self.events@[j]->Reading_0 by {
                assert(self.events@[i] == pre[i] && self.events@[j] == pre[j]);
            }
            assert forall|i: int|
                0 <= i < self.events@.len() && (#[trigger] self.events@[i]) is Reading implies self.events@[i]->Reading_0
                <= self.latest by {
                assert(self.events@[i] == pre[i]);
            }
        }
    }

    /// Has `engine` execute `code`.
    pub fn execute<E: JSEngine + ?Sized>(&mut self, engine: &E, code: &str) -> (result: Result<
        JSValue,
        EngineError,
    >)
        ensures
            readings_ordered(final(self).events()),
            engine.executes(code@, result),
            final(self).latest() == old(self).latest(),
            final(self).events() == old(self).events().push(Event::Executed(code@)),
    {
        let result = engine.execute(code);
        self.note(Ghost(Event::Executed(code@)));
        result
    }

    /// Has `engine` call `func` with `args`.
    pub fn call<E: JSEngine + ?Sized>(&mut self, engine: &E, func: &str, args: Vec<JSValue>) -> (result:
        Result<JSValue, EngineError>)
        ensures
            readings_ordered(final(self).events()),
            engine.calls(func@, args@, result),
            final(self).latest() == old(self).latest(),
            final(self).events() == old(self).events().push(Event::Called(func@, args@)),
    {
        let ghost a = args@;
        let result = engine.call(func, args);
        self.note(Ghost(Event::Called(func@, a)));
        result
    }
}

/// A timed run lies between its two readings: its duration is no longer
/// than the time between any reading taken before the run and any reading
/// taken after it, and is exactly the time between the readings just around
/// it.
pub proof fn law_duration_spans_the_run(pre: Seq<Event>, post: Seq<Event>, run: Event, duration: u128)
    requires
        readings_ordered(post),
        timed_run(pre, post, run, duration),
    ensures
        forall|i: int, j: int|
            0 <= i < post.len() && 0 <= j < post.len() && i <= pre.len() < pre.len() + 2 <= j && (
            #[trigger] post[i]) is Reading && (#[trigger] post[j]) is Reading ==> duration <= post[j]->Reading_0
                - post[i]->Reading_0,
{
    let k = pre.len() as int;
    assert forall|i: int, j: int|
        0 <= i < post.len() && 0 <= j < post.len() && i <= pre.len() < pre.len() + 2 <= j && (
        #[trigger] post[i]) is Reading && (#[trigger] post[j]) is Reading implies duration
        <= post[j]->Reading_0 - post[i]->Reading_0 by {
        if i < k {
            assert(post[i]->Reading_0 <= post[k]->Reading_0);
        }
        if j > k + 2 {
            assert(post[k + 2]->Reading_0 <= post[j]->Reading_0);
        }
    }
}

} // verus!
