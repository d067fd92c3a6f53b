//! Execution metrics and the performance report.
use std::time::Instant;
use vstd::arithmetic::div_mod::{lemma_div_is_ordered, lemma_div_multiples_vanish};
use vstd::prelude::*;
use crate::clock::{instant_now, nanos_since};
use crate::text::{
    chars_of, joined, decimal, decimal_text, duration_debug, duration_debug_text, lines, parse_number,
    parse_u64, split_lines, split_words, words,
};

verus! {

/// The longest duration that `std::time::Duration` holds, in nanoseconds.
pub const MAX_DURATION_NANOS: u128 = 18_446_744_073_709_551_615_999_999_999;

/// `count` as the divisor that `Duration / (count as u32)` uses.
pub open spec fn divisor_u32(count: u64) -> u64 {
    count % 0x1_0000_0000
}

/// Figures of the executions of one script.
#[derive(Clone, Copy, Debug)]
pub struct ExecutionMetrics {
    /// The number of executions.
    pub count: u64,
    /// Their total duration, in nanoseconds.
    pub total_duration: u128,
    /// Their total memory figure, in bytes.
    pub total_memory: u64,
    /// The shortest duration, in nanoseconds.
    pub min_duration: Option<u128>,
    /// The longest duration, in nanoseconds.
    pub max_duration: Option<u128>,
    /// The smallest memory figure.
    pub min_memory: Option<u64>,
    /// The largest memory figure.
    pub max_memory: Option<u64>,
}

/// The figures of a script that has not run.
pub open spec fn fresh_metrics() -> ExecutionMetrics {
    ExecutionMetrics {
        count: 0,
        total_duration: 0,
        total_memory: 0,
        min_duration: None,
        max_duration: None,
        min_memory: None,
        max_memory: None,
    }
}

/// Whether one more execution of `duration` nanoseconds and `memory` bytes
/// can be added to `m` without the counters overflowing.
pub open spec fn can_record(m: ExecutionMetrics, duration: u128, memory: u64) -> bool {
    &&& m.count < u64::MAX
    &&& m.total_duration + duration <= MAX_DURATION_NANOS
    &&& m.total_memory + memory <= u64::MAX
}

/// `m` with one more execution of `duration` nanoseconds and `memory` bytes.
pub open spec fn recorded(m: ExecutionMetrics, duration: u128, memory: u64) -> ExecutionMetrics {
    ExecutionMetrics {
        count: (m.count + 1) as u64,
        total_duration: (m.total_duration + duration) as u128,
        total_memory: (m.total_memory + memory) as u64,
        min_duration: Some(
            match m.min_duration {
                Some(x) => if duration < x { duration } else { x },
                None => duration,
            },
        ),
        max_duration: Some(
            match m.max_duration {
                Some(x) => if duration > x { duration } else { x },
                None => duration,
            },
        ),
        min_memory: Some(
            match m.min_memory {
                Some(x) => if memory < x { memory } else { x },
                None => memory,
            },
        ),
        max_memory: Some(
            match m.max_memory {
                Some(x) => if memory > x { memory } else { x },
                None => memory,
            },
        ),
    }
}

/// The average duration, `total_duration / (count as u32)`, zero when
/// nothing ran.
pub open spec fn average_duration(m: ExecutionMetrics) -> u128 {
    if m.count > 0 {
        (m.total_duration / (divisor_u32(m.count) as u128)) as u128
    } else {
        0
    }
}

/// The average memory figure, zero when nothing ran.
pub open spec fn average_memory(m: ExecutionMetrics) -> u64 {
    if m.count > 0 {
        (m.total_memory / m.count) as u64
    } else {
        0
    }
}

impl ExecutionMetrics {
    /// The figures are those of a sequence of recorded executions: all empty
    /// when nothing ran, else each total lies between `count` times its
    /// smallest and `count` times its largest figure.
    pub open spec fn consistent(&self) -> bool {
        &&& self.total_duration <= MAX_DURATION_NANOS
        &&& if self.count == 0 {
            &&& self.total_duration == 0
            &&& self.total_memory == 0
            &&& self.min_duration is None
            &&& self.max_duration is None
            &&& self.min_memory is None
            &&& self.max_memory is None
        } else {
            &&& self.min_duration matches Some(lo) && self.max_duration matches Some(hi) && lo <= hi
                && lo * self.count <= self.total_duration <= hi * self.count
            &&& self.min_memory matches Some(lo) && self.max_memory matches Some(hi) && lo <= hi && lo
                * self.count <= self.total_memory <= hi * self.count
        }
    }

    /// The figures of a script that has not run.
    pub fn new() -> (m: Self)
        ensures
            m == fresh_metrics(),
    {
        ExecutionMetrics {
            count: 0,
            total_duration: 0,
            total_memory: 0,
            min_duration: None,
            max_duration: None,
            min_memory: None,
            max_memory: None,
        }
    }

    /// The figures with one more execution of `duration` nanoseconds and
    /// `memory` bytes.
    fn with_execution(&self, duration: u128, memory: u64) -> (m: Self)
        requires
            can_record(*self, duration, memory),
        ensures
            m == recorded(*self, duration, memory),
    {
        let min_duration = match self.min_duration {
            Some(x) => if duration < x { duration } else { x },
            None => duration,
        };
        let max_duration = match self.max_duration {
            Some(x) => if duration > x { duration } else { x },
            None => duration,
        };
        let min_memory = match self.min_memory {
            Some(x) => if memory < x { memory } else { x },
            None => memory,
        };
        let max_memory = match self.max_memory {
            Some(x) => if memory > x { memory } else { x },
            None => memory,
        };
        ExecutionMetrics {
            count: self.count + 1,
            total_duration: self.total_duration + duration,
            total_memory: self.total_memory + memory,
            min_duration: Some(min_duration),
            max_duration: Some(max_duration),
            min_memory: Some(min_memory),
            max_memory: Some(max_memory),
        }
    }

    /// The average duration in nanoseconds: the total divided by the count
    /// taken as `u32`; zero when nothing ran.
    pub fn avg_duration(&self) -> (avg: u128)
        requires
            self.count == 0 || divisor_u32(self.count) != 0,
        ensures
            avg == average_duration(*self),
    {
        if self.count > 0 {
            self.total_duration / ((self.count % 0x1_0000_0000) as u128)
        } else {
            0
        }
    }

    /// The average memory figure; zero when nothing ran.
    pub fn avg_memory(&self) -> (avg: u64)
        ensures
            avg == average_memory(*self),
    {
        if self.count > 0 {
            self.total_memory / self.count
        } else {
            0
        }
    }
}

/// Recording an execution keeps the figures consistent.
pub proof fn law_recording_keeps_consistent(m: ExecutionMetrics, duration: u128, memory: u64)
    requires
        m.consistent(),
        can_record(m, duration, memory),
    ensures
        recorded(m, duration, memory).consistent(),
{
    let r = recorded(m, duration, memory);
    if m.count > 0 {
        let c = m.count as int;
        let lo = m.min_duration.unwrap() as int;
        let hi = m.max_duration.unwrap() as int;
        let d = duration as int;
        let t = m.total_duration as int;
        let lo2 = r.min_duration.unwrap() as int;
        let hi2 = r.max_duration.unwrap() as int;
        assert(lo2 * (c + 1) <= t + d && t + d <= hi2 * (c + 1)) by (nonlinear_arith)
            requires
                lo * c <= t <= hi * c,
                lo2 <= lo,
                lo2 <= d,
                hi2 >= hi,
                hi2 >= d,
                c > 0,
                lo2 >= 0,
        ;
        let mlo = m.min_memory.unwrap() as int;
        let mhi = m.max_memory.unwrap() as int;
        let mm = memory as int;
        let mt = m.total_memory as int;
        let mlo2 = r.min_memory.unwrap() as int;
        let mhi2 = r.max_memory.unwrap() as int;
        assert(mlo2 * (c + 1) <= mt + mm && mt + mm <= mhi2 * (c + 1)) by (nonlinear_arith)
            requires
                mlo * c <= mt <= mhi * c,
                mlo2 <= mlo,
                mlo2 <= mm,
                mhi2 >= mhi,
                mhi2 >= mm,
                c > 0,
                mlo2 >= 0,
        ;
    }
}

/// For consistent figures of fewer than `2^32` executions, the averages lie
/// between the smallest and the largest figures.
pub proof fn law_average_between_extremes(m: ExecutionMetrics)
    requires
        m.consistent(),
        0 < m.count < 0x1_0000_0000,
    ensures
        m.min_duration.unwrap() <= average_duration(m) <= m.max_duration.unwrap(),
        m.min_memory.unwrap() <= average_memory(m) <= m.max_memory.unwrap(),
{
    let c = m.count as int;
    assert(divisor_u32(m.count) == m.count);
    let lo = m.min_duration.unwrap() as int;
    let hi = m.max_duration.unwrap() as int;
    lemma_div_is_ordered(lo * c, m.total_duration as int, c);
    lemma_div_is_ordered(m.total_duration as int, hi * c, c);
    lemma_div_multiples_vanish(lo, c);
    lemma_div_multiples_vanish(hi, c);
    assert(c * lo == lo * c && c * hi == hi * c) by (nonlinear_arith);
    let mlo = m.min_memory.unwrap() as int;
    let mhi = m.max_memory.unwrap() as int;
    lemma_div_is_ordered(mlo * c, m.total_memory as int, c);
    lemma_div_is_ordered(m.total_memory as int, mhi * c, c);
    lemma_div_multiples_vanish(mlo, c);
    lemma_div_multiples_vanish(mhi, c);
    assert(c * mlo == mlo * c && c * mhi == mhi * c) by (nonlinear_arith);
}

/// A script id paired with its figures, as contracts see it.
pub type EntryView = (Seq<char>, ExecutionMetrics);

/// Whether no two entries share a script id.
pub open spec fn distinct_ids(entries: Seq<EntryView>) -> bool {
    forall|i: int, j: int|
        0 <= i < j < entries.len() ==> (#[trigger] entries[i]).0 != (#[trigger] entries[j]).0
}

/// Whether some entry has the script id `id`.
pub open spec fn has_id(entries: Seq<EntryView>, id: Seq<char>) -> bool {
    exists|i: int| 0 <= i < entries.len() && (#[trigger] entries[i]).0 == id
}

/// The position of the entry with script id `id`, when there is one.
pub open spec fn id_index(entries: Seq<EntryView>, id: Seq<char>) -> int {
    choose|i: int| 0 <= i < entries.len() && (#[trigger] entries[i]).0 == id
}

/// The figures recorded for `id`, the empty figures when there are none.
pub open spec fn figures_for(entries: Seq<EntryView>, id: Seq<char>) -> ExecutionMetrics {
    if has_id(entries, id) {
        entries[id_index(entries, id)].1
    } else {
        fresh_metrics()
    }
}

/// `post` is `pre` after recording an execution of `duration` nanoseconds
/// and `memory` bytes for `id`: its entry is updated in place, or a new entry
/// is added at the end.
pub open spec fn recorded_entries(
    pre: Seq<EntryView>,
    id: Seq<char>,
    duration: u128,
    memory: u64,
    post: Seq<EntryView>,
) -> bool {
    post == after_record(pre, id, duration, memory)
}

/// The entries `pre` after recording an execution of `duration`
/// nanoseconds and `memory` bytes for `id`.
pub open spec fn after_record(pre: Seq<EntryView>, id: Seq<char>, duration: u128, memory: u64) -> Seq<
    EntryView,
> {
    if has_id(pre, id) {
        pre.update(id_index(pre, id), (id, recorded(pre[id_index(pre, id)].1, duration, memory)))
    } else {
        pre.push((id, recorded(fresh_metrics(), duration, memory)))
    }
}

/// A recorded execution: script id, duration and memory figure.
pub type RecordCall = (Seq<char>, u128, u64);

/// The entries after recording `calls`, in order, on figures with no
/// script.
pub open spec fn entries_after(calls: Seq<RecordCall>) -> Seq<EntryView>
    decreases calls.len(),
{
    if calls.len() == 0 {
        Seq::empty()
    } else {
        let c = calls.last();
        after_record(entries_after(calls.drop_last()), c.0, c.1, c.2)
    }
}

/// Whether each of `calls` could be recorded without the counters
/// overflowing.
pub open spec fn recordable_calls(calls: Seq<RecordCall>) -> bool {
    forall|k: int|
        0 <= k < calls.len() ==> can_record(
            figures_for(entries_after(calls.take(k)), (#[trigger] calls[k]).0),
            calls[k].1,
            calls[k].2,
        )
}

/// Whether a call records for `id`.
pub open spec fn call_of(id: Seq<char>) -> spec_fn(RecordCall) -> bool {
    |c: RecordCall| c.0 == id
}

/// The number of `calls` that record for `id`.
pub open spec fn calls_for(calls: Seq<RecordCall>, id: Seq<char>) -> nat {
    calls.filter(call_of(id)).len()
}

/// In entries with distinct ids, the entry at `j` is the one of its id.
proof fn lemma_index_unique(s: Seq<EntryView>, x: Seq<char>, j: int)
    requires
        distinct_ids(s),
        0 <= j < s.len(),
        s[j].0 == x,
    ensures
        has_id(s, x),
        id_index(s, x) == j,
        figures_for(s, x) == s[j].1,
{
    assert(has_id(s, x));
    let k = id_index(s, x);
    if k != j {
        assert(s[k].0 != s[j].0);
    }
}

/// What recording for `id` does to entries with distinct ids.
proof fn lemma_after_record(pre: Seq<EntryView>, id: Seq<char>, duration: u128, memory: u64)
    requires
        distinct_ids(pre),
    ensures
        distinct_ids(after_record(pre, id, duration, memory)),
        forall|x: Seq<char>| #[trigger]
            has_id(after_record(pre, id, duration, memory), x) == (has_id(pre, x) || x == id),
        forall|x: Seq<char>|
            x != id ==> #[trigger] figures_for(after_record(pre, id, duration, memory), x) == figures_for(
                pre,
                x,
            ),
        figures_for(after_record(pre, id, duration, memory), id) == recorded(
            figures_for(pre, id),
            duration,
            memory,
        ),
        forall|i: int|
            0 <= i < after_record(pre, id, duration, memory).len() ==> {
                let a = #[trigger] after_record(pre, id, duration, memory)[i];
                (a.0 == id && a.1 == recorded(figures_for(pre, id), duration, memory)) || (i
                    < pre.len() && a == pre[i])
            },
{
    let post = after_record(pre, id, duration, memory);
    if has_id(pre, id) {
        let k = id_index(pre, id);
        assert(pre[k].0 == id);
        assert forall|i: int, j: int| 0 <= i < j < post.len() implies (#[trigger] post[i]).0 != (
        #[trigger] post[j]).0 by {
            assert(pre[i].0 != pre[j].0);
        }
        assert forall|x: Seq<char>| #[trigger] has_id(post, x) == (has_id(pre, x) || x == id) by {
            if has_id(pre, x) {
                let j = id_index(pre, x);
                assert(post[j].0 == x);
            }
            if has_id(post, x) {
                let j = id_index(post, x);
                assert(pre[j].0 == x);
            }
        }
        assert forall|x: Seq<char>| x != id implies #[trigger] figures_for(post, x) == figures_for(pre, x) by {
            if has_id(pre, x) {
                let j = id_index(pre, x);
                lemma_index_unique(post, x, j);
            }
        }
        lemma_index_unique(post, id, k);
    } else {
        assert forall|i: int, j: int| 0 <= i < j < post.len() implies (#[trigger] post[i]).0 != (
        #[trigger] post[j]).0 by {
            if j == pre.len() {
                assert(pre[i].0 == post[i].0);
                if pre[i].0 == id {
                    assert(has_id(pre, id));
                }
            } else {
                assert(pre[i].0 != pre[j].0);
            }
        }
        assert forall|x: Seq<char>| #[trigger] has_id(post, x) == (has_id(pre, x) || x == id) by {
            if has_id(pre, x) {
                let j = id_index(pre, x);
                assert(post[j].0 == x);
            }
            if x == id {
                assert(post[pre.len() as int].0 == x);
            }
            if has_id(post, x) {
                let j = id_index(post, x);
                if j < pre.len() {
                    assert(pre[j].0 == x);
                }
            }
        }
        assert forall|x: Seq<char>| x != id implies #[trigger] figures_for(post, x) == figures_for(pre, x) by {
            if has_id(pre, x) {
                let j = id_index(pre, x);
                lemma_index_unique(post, x, j);
            }
        }
        lemma_index_unique(post, id, pre.len() as int);
    }
}

/// Recording a sequence of executions on figures with no script gives an
/// entry for exactly the ids recorded, each with as many executions as were
/// recorded for it, and consistent figures; for an id recorded fewer than
/// `2^32` times, the averages lie between the smallest and largest figures.
pub proof fn law_recording_sequence(calls: Seq<RecordCall>)
    requires
        recordable_calls(calls),
    ensures
        distinct_ids(entries_after(calls)),
        forall|i: int|
            0 <= i < entries_after(calls).len() ==> (#[trigger] entries_after(calls)[i]).1.consistent(),
        forall|id: Seq<char>| #[trigger] has_id(entries_after(calls), id) <==> calls_for(calls, id) > 0,
        forall|id: Seq<char>| (#[trigger] figures_for(entries_after(calls), id)).count == calls_for(calls, id),
        forall|id: Seq<char>|
            0 < calls_for(calls, id) < 0x1_0000_0000 ==> {
                let m = #[trigger] figures_for(entries_after(calls), id);
                &&& m.min_duration.unwrap() <= average_duration(m) <= m.max_duration.unwrap()
                &&& m.min_memory.unwrap() <= average_memory(m) <= m.max_memory.unwrap()
            },
    decreases calls.len(),
{
    let e = entries_after(calls);
    if calls.len() == 0 {
        assert forall|id: Seq<char>| #[trigger] has_id(e, id) <==> calls_for(calls, id) > 0 by {
            assert(calls.filter(call_of(id)).len() == 0);
        }
        assert forall|id: Seq<char>| (#[trigger] figures_for(e, id)).count == calls_for(calls, id) by {
            assert(calls.filter(call_of(id)).len() == 0);
        }
    } else {
        let p = calls.drop_last();
        let c = calls.last();
        assert forall|k: int| 0 <= k < p.len() implies can_record(
            figures_for(entries_after(p.take(k)), (#[trigger] p[k]).0),
            p[k].1,
            p[k].2,
        ) by {
            assert(p.take(k) == calls.take(k));
            assert(p[k] == calls[k]);
        }
        law_recording_sequence(p);
        let pre = entries_after(p);
        lemma_after_record(pre, c.0, c.1, c.2);
        assert(calls.take(p.len() as int) == p);
        assert(calls[p.len() as int] == c);
        let f = figures_for(pre, c.0);
        assert(f.consistent()) by {
            if has_id(pre, c.0) {
                let j = id_index(pre, c.0);
                assert(pre[j].1.consistent());
            }
        }
        law_recording_keeps_consistent(f, c.1, c.2);
        assert forall|i: int| 0 <= i < e.len() implies (#[trigger] e[i]).1.consistent() by {
            assert(e[i] == after_record(pre, c.0, c.1, c.2)[i]);
            if i < pre.len() {
                assert(pre[i].1.consistent());
            }
        }
        assert forall|id: Seq<char>|
            calls_for(calls, id) == calls_for(p, id) + (if id == c.0 { 1nat } else { 0nat }) by {
            let q = call_of(id);
            assert(calls == p.push(c));
            p.lemma_filter_push(c, q);
        }
        assert forall|id: Seq<char>| #[trigger] has_id(e, id) <==> calls_for(calls, id) > 0 by {
            assert(calls_for(calls, id) == calls_for(p, id) + (if id == c.0 { 1nat } else { 0nat }));
            assert(has_id(pre, id) <==> calls_for(p, id) > 0);
        }
        assert forall|id: Seq<char>| (#[trigger] figures_for(e, id)).count == calls_for(calls, id) by {
            assert(calls_for(calls, id) == calls_for(p, id) + (if id == c.0 { 1nat } else { 0nat }));
            assert(figures_for(pre, id).count == calls_for(p, id));
        }
        assert forall|id: Seq<char>| 0 < calls_for(calls, id) < 0x1_0000_0000 implies {
            let m = #[trigger] figures_for(e, id);
            &&& m.min_duration.unwrap() <= average_duration(m) <= m.max_duration.unwrap()
            &&& m.min_memory.unwrap() <= average_memory(m) <= m.max_memory.unwrap()
        } by {
            let m = figures_for(e, id);
            assert(has_id(e, id));
            let j = id_index(e, id);
            lemma_index_unique(e, id, j);
            assert(e[j].1.consistent());
            law_average_between_extremes(m);
        }
    }
}

/// The figures of all scripts, in the order in which they first ran.
pub struct PerformanceMetrics {
    executions: Vec<(String, ExecutionMetrics)>,
    start_time: Instant,
    last_update: u128,
}

impl PerformanceMetrics {
    /// The entries, script id and figures, in the order in which the scripts
    /// first ran.
    pub closed spec fn entries(&self) -> Seq<EntryView> {
        self.executions@.map_values(|e: (String, ExecutionMetrics)| (e.0@, e.1))
    }

    /// When an execution was last recorded, in nanoseconds since creation.
    pub closed spec fn last_recorded(&self) -> u128 {
        self.last_update
    }

    /// The invariant: script ids are distinct and all figures consistent.
    pub open spec fn wf(&self) -> bool {
        &&& distinct_ids(self.entries())
        &&& forall|i: int| 0 <= i < self.entries().len() ==> (#[trigger] self.entries()[i]).1.consistent()
    }

    /// Figures with no script.
    pub fn new() -> (metrics: Self)
        ensures
            metrics.wf(),
            metrics.entries() == Seq::<EntryView>::empty(),
            metrics.last_recorded() == 0,
    {
        let metrics = PerformanceMetrics {
            executions: Vec::new(),
            start_time: instant_now(),
            last_update: 0,
        };
        proof {
            assert(metrics.entries() =~= Seq::<EntryView>::empty());
        }
        metrics
    }

    /// The position of the entry of `key`, or the number of entries.
    fn position(&self, key: &String) -> (pos: usize)
        requires
            self.wf(),
        ensures
            pos <= self.entries().len(),
            pos < self.entries().len() <==> has_id(self.entries(), key@),
            pos < self.entries().len() ==> pos == id_index(self.entries(), key@),
    {
        let mut i: usize = 0;
        while i < self.executions.len()
            invariant
                self.wf(),
                i <= self.executions@.len(),
                forall|j: int| 0 <= j < i ==> (#[trigger] self.entries()[j]).0 != key@,
            decreases self.executions@.len() - i,
        {
            if self.executions[i].0 == *key {
                proof {
                    assert(self.entries()[i as int].0 == key@);
                    let k = id_index(self.entries(), key@);
                    assert(self.entries()[k].0 == key@);
                    if k != i {
                        if k < i {
                            assert(self.entries()[k].0 != key@);
                        } else {
                            assert(self.entries()[i as int].0 != self.entries()[k].0);
                        }
                    }
                }
                return i;
            }
            i = i + 1;
        }
        proof {
            if has_id(self.entries(), key@) {
                let k = id_index(self.entries(), key@);
                assert(self.entries()[k].0 == key@);
            }
        }
        i
    }

    /// Records an execution of `script_id` that took `duration` nanoseconds
    /// and `memory` bytes.
    pub fn record_execution(&mut self, script_id: &str, duration: u128, memory: u64)
        requires
            old(self).wf(),
            can_record(figures_for(old(self).entries(), script_id@), duration, memory),
        ensures
            final(self).wf(),
            recorded_entries(old(self).entries(), script_id@, duration, memory, final(self).entries()),
    {
        let key = script_id.to_string();
        let pos = self.position(&key);
        let ghost pre = self.entries();
        if pos < self.executions.len() {
            let updated = self.executions[pos].1.with_execution(duration, memory);
            proof {
                law_recording_keeps_consistent(pre[pos as int].1, duration, memory);
            }
            self.executions[pos] = (key, updated);
            proof {
                assert(self.entries() =~= pre.update(
                    pos as int,
                    (script_id@, recorded(pre[pos as int].1, duration, memory)),
                ));
                assert forall|i: int, j: int| 0 <= i < j < self.entries().len() implies (
                #[trigger] self.entries()[i]).0 != (#[trigger] self.entries()[j]).0 by {
                    assert(pre[i].0 != pre[j].0);
                }
            }
        } else {
            let fresh = ExecutionMetrics::new();
            let first = fresh.with_execution(duration, memory);
            proof {
                law_recording_keeps_consistent(fresh, duration, memory);
            }
            self.executions.push((key, first));
            proof {
                assert(self.entries() =~= pre.push(
                    (script_id@, recorded(fresh_metrics(), duration, memory)),
                ));
                assert forall|i: int, j: int| 0 <= i < j < self.entries().len() implies (
                #[trigger] self.entries()[i]).0 != (#[trigger] self.entries()[j]).0 by {
                    if j == pre.len() {
                        assert(pre[i].0 != script_id@);
                    } else {
                        assert(pre[i].0 != pre[j].0);
                    }
                }
            }
        }
        self.last_update = nanos_since(&self.start_time);
    }

    /// The figures of `script_id`, if it has run.
    pub fn get_metrics(&self, script_id: &str) -> (figures: Option<&ExecutionMetrics>)
        requires
            self.wf(),
        ensures
            has_id(self.entries(), script_id@) ==> figures == Some(
                &self.entries()[id_index(self.entries(), script_id@)].1,
            ),
            !has_id(self.entries(), script_id@) ==> figures is None,
    {
        let key = script_id.to_string();
        let pos = self.position(&key);
        if pos < self.executions.len() {
            Some(&self.executions[pos].1)
        } else {
            None
        }
    }

    /// Whether an execution of `script_id` of `duration` nanoseconds and
    /// `memory` bytes can be recorded without the counters overflowing.
    pub fn can_record_execution(&self, script_id: &str, duration: u128, memory: u64) -> (ok: bool)
        requires
            self.wf(),
        ensures
            ok == can_record(figures_for(self.entries(), script_id@), duration, memory),
    {
        match self.get_metrics(script_id) {
            Some(m) => {
                m.count < u64::MAX && duration <= MAX_DURATION_NANOS && m.total_duration
                    <= MAX_DURATION_NANOS - duration && m.total_memory <= u64::MAX - memory
            },
            None => duration <= MAX_DURATION_NANOS,
        }
    }

    /// All entries, in the order in which the scripts first ran.
    pub fn all_metrics(&self) -> (all: &Vec<(String, ExecutionMetrics)>)
        ensures
            all@.map_values(|e: (String, ExecutionMetrics)| (e.0@, e.1)) == self.entries(),
    {
        &self.executions
    }

    /// The time since the figures were created, in nanoseconds.
    pub fn uptime(&self) -> u128 {
        nanos_since(&self.start_time)
    }
}

/// Average durations above this many nanoseconds (100 ms) make a script a
/// bottleneck.
pub const SLOW_EXECUTION_NANOS: u128 = 100_000_000;

/// Average memory figures above this many bytes (10 MiB) make a script a
/// bottleneck.
pub const HIGH_MEMORY_BYTES: u64 = 10 * 1024 * 1024;

/// How severe a bottleneck is.
#[derive(Clone, Copy, Debug, PartialEq, Eq)]
pub enum BottleneckSeverity {
    Low,
    Medium,
    High,
    Critical,
}

/// What a bottleneck concerns.
#[derive(Clone, Copy, Debug, PartialEq, Eq)]
pub enum BottleneckCategory {
    CPU,
    Memory,
    DiskIO,
    NetworkIO,
    ExecutionTime,
}

/// A bottleneck found in the figures.
#[derive(Clone, Debug)]
pub struct Bottleneck {
    pub severity: BottleneckSeverity,
    pub category: BottleneckCategory,
    pub description: String,
    /// How much it weighs: milliseconds for slow execution, bytes for memory.
    pub impact: u128,
}

/// A bottleneck as contracts see it: severity, category, description and
/// impact.
pub type BottleneckView = (BottleneckSeverity, BottleneckCategory, Seq<char>, u128);

/// The view of a bottleneck.
pub open spec fn bottleneck_view(b: Bottleneck) -> BottleneckView {
    (b.severity, b.category, b.description@, b.impact)
}

/// The views of a sequence of bottlenecks.
pub open spec fn bottleneck_views(bs: Seq<Bottleneck>) -> Seq<BottleneckView> {
    bs.map_values(|b: Bottleneck| bottleneck_view(b))
}

/// The description of a script `id` whose average duration reads `shown`.
pub open spec fn slow_message(id: Seq<char>, shown: Seq<char>) -> Seq<char> {
    "Script '"@ + id + "' has slow execution: "@ + shown
}

/// The description of a script `id` whose average duration is `avg`
/// nanoseconds: the duration as `Debug` writes it.
pub open spec fn slow_description(id: Seq<char>, avg: u128) -> Seq<char> {
    slow_message(id, duration_debug_text((avg / 1_000_000_000) as u64, (avg % 1_000_000_000) as u32))
}

/// The description of a script `id` whose average duration reads `shown`.
pub fn slow_execution_message(id: &str, shown: &str) -> (text: String)
    ensures
        text@ == slow_message(id@, shown@),
{
    let a = joined("Script '", id);
    let b = joined(a.as_str(), "' has slow execution: ");
    joined(b.as_str(), shown)
}

/// The description of a script `id` whose average memory figure is `avg`
/// bytes: the figure in whole MiB.
pub open spec fn memory_description(id: Seq<char>, avg: u64) -> Seq<char> {
    "Script '"@ + id + "' uses high memory: "@ + decimal((avg / 1024 / 1024) as nat) + " MB"@
}

/// The bottlenecks of one script: slow execution when its average duration
/// exceeds 100 ms, then high memory when its average memory figure exceeds
/// 10 MiB.
pub open spec fn entry_bottlenecks(e: EntryView) -> Seq<BottleneckView> {
    let ad = average_duration(e.1);
    let am = average_memory(e.1);
    (if ad > SLOW_EXECUTION_NANOS {
        seq![
            (
                BottleneckSeverity::High,
                BottleneckCategory::ExecutionTime,
                slow_description(e.0, ad),
                ad / 1_000_000,
            ),
        ]
    } else {
        Seq::<BottleneckView>::empty()
    }) + (if am > HIGH_MEMORY_BYTES {
        seq![
            (
                BottleneckSeverity::Medium,
                BottleneckCategory::Memory,
                memory_description(e.0, am),
                am as u128,
            ),
        ]
    } else {
        Seq::<BottleneckView>::empty()
    })
}

/// The bottlenecks of all entries, script by script in entry order.
pub open spec fn analysis(entries: Seq<EntryView>) -> Seq<BottleneckView>
    decreases entries.len(),
{
    if entries.len() == 0 {
        Seq::empty()
    } else {
        analysis(entries.drop_last()) + entry_bottlenecks(entries.last())
    }
}

/// Whether a bottleneck has impact `v`.
pub open spec fn impact_is(v: u128) -> spec_fn(BottleneckView) -> bool {
    |b: BottleneckView| b.3 == v
}

/// The bottlenecks of `s` with impact `v`, in order.
pub open spec fn with_impact(s: Seq<BottleneckView>, v: u128) -> Seq<BottleneckView> {
    s.filter(impact_is(v))
}

/// Whether impacts never increase along `s`.
pub open spec fn impact_sorted(s: Seq<BottleneckView>) -> bool {
    forall|i: int, j: int| 0 <= i < j < s.len() ==> (#[trigger] s[i]).3 >= (#[trigger] s[j]).3
}

/// `sorted` is `input` sorted by decreasing impact, keeping the order of
/// bottlenecks of equal impact (a stable sort).
pub open spec fn stable_impact_order(sorted: Seq<BottleneckView>, input: Seq<BottleneckView>) -> bool {
    &&& sorted.len() == input.len()
    &&& impact_sorted(sorted)
    &&& forall|v: u128| #[trigger] with_impact(sorted, v) == with_impact(input, v)
}

/// The recommendation for a bottleneck category, if there is one.
pub open spec fn recommendation(c: BottleneckCategory) -> Seq<Seq<char>> {
    match c {
        BottleneckCategory::ExecutionTime => seq![
            "Consider optimizing script execution or enabling JIT compilation"@,
        ],
        BottleneckCategory::Memory => seq![
            "Consider reducing memory usage or implementing memory pooling"@,
        ],
        BottleneckCategory::CPU => seq![
            "Consider optimizing CPU-intensive operations or parallelizing work"@,
        ],
        _ => Seq::empty(),
    }
}

/// The recommendations for a sequence of bottlenecks, one per bottleneck
/// whose category has one, in order.
pub open spec fn recommendations_from(bs: Seq<BottleneckView>) -> Seq<Seq<char>>
    decreases bs.len(),
{
    if bs.len() == 0 {
        Seq::empty()
    } else {
        recommendations_from(bs.drop_last()) + recommendation(bs.last().1)
    }
}

/// The recommendations of a report: those of its bottlenecks, or the single
/// note that performance is optimal.
pub open spec fn report_recommendations(bs: Seq<BottleneckView>) -> Seq<Seq<char>> {
    if recommendations_from(bs).len() == 0 {
        seq!["Performance is optimal. No immediate recommendations."@]
    } else {
        recommendations_from(bs)
    }
}

/// The total number of executions over all entries.
pub open spec fn total_count(entries: Seq<EntryView>) -> int
    decreases entries.len(),
{
    if entries.len() == 0 {
        0
    } else {
        total_count(entries.drop_last()) + entries.last().1.count
    }
}

/// The total duration over all entries, in nanoseconds.
pub open spec fn total_time(entries: Seq<EntryView>) -> int
    decreases entries.len(),
{
    if entries.len() == 0 {
        0
    } else {
        total_time(entries.drop_last()) + entries.last().1.total_duration
    }
}

/// The total memory figure over all entries.
pub open spec fn total_bytes(entries: Seq<EntryView>) -> int
    decreases entries.len(),
{
    if entries.len() == 0 {
        0
    } else {
        total_bytes(entries.drop_last()) + entries.last().1.total_memory
    }
}

/// Whether a report can be made of `entries` without the sums overflowing
/// or an average dividing by zero.
pub open spec fn reportable(entries: Seq<EntryView>) -> bool {
    &&& total_count(entries) <= u64::MAX
    &&& total_time(entries) <= MAX_DURATION_NANOS
    &&& total_bytes(entries) <= u64::MAX
    &&& total_count(entries) == 0 || divisor_u32(total_count(entries) as u64) != 0
    &&& forall|i: int|
        0 <= i < entries.len() ==> (#[trigger] entries[i]).1.count == 0 || divisor_u32(entries[i].1.count)
            != 0
}

/// A report on the figures.
pub struct PerformanceReport {
    /// When the report was made.
    pub generated_at: Instant,
    /// The time since the figures were created, in nanoseconds.
    pub uptime: u128,
    pub total_executions: u64,
    /// The average execution time, in nanoseconds.
    pub avg_execution_time: u128,
    pub avg_memory_usage: u64,
    pub bottlenecks: Vec<Bottleneck>,
    pub recommendations: Vec<String>,
}

/// `report` is the report that the console reporter makes of `entries`.
pub open spec fn console_report(entries: Seq<EntryView>, report: PerformanceReport) -> bool {
    let tc = total_count(entries);
    &&& report.total_executions == tc
    &&& report.avg_execution_time == (if tc > 0 {
        total_time(entries) / (divisor_u32(tc as u64) as int)
    } else {
        0
    })
    &&& report.avg_memory_usage == (if tc > 0 {
        total_bytes(entries) / tc
    } else {
        0
    })
    &&& stable_impact_order(bottleneck_views(report.bottlenecks@), analysis(entries))
    &&& report.recommendations@.map_values(|r: String| r@) == report_recommendations(
        bottleneck_views(report.bottlenecks@),
    )
}

/// Makes performance reports.
pub trait Reporter {
    /// Whether `report` may be this reporter's report on `metrics`; a
    /// reporter that does not say allows any report.
    open spec fn reports(&self, metrics: PerformanceMetrics, report: PerformanceReport) -> bool {
        true
    }

    /// A report on `metrics`.
    fn generate_report(&self, metrics: &PerformanceMetrics) -> (report: PerformanceReport)
        requires
            metrics.wf(),
            reportable(metrics.entries()),
        ensures
            self.reports(*metrics, report),
    ;
}

/// The reporter for the console.
pub struct ConsoleReporter;

proof fn lemma_no_impact(s: Seq<BottleneckView>, v: u128)
    requires
        forall|i: int| 0 <= i < s.len() ==> (#[trigger] s[i]).3 != v,
    ensures
        with_impact(s, v) == Seq::<BottleneckView>::empty(),
    decreases s.len(),
{
    reveal(Seq::filter);
    if s.len() > 0 {
        lemma_no_impact(s.drop_last(), v);
    }
}

/// The sums over a prefix of the entries stay below the sums over all.
proof fn lemma_prefix_totals(entries: Seq<EntryView>, k: int)
    requires
        0 <= k <= entries.len(),
    ensures
        total_count(entries.take(k)) <= total_count(entries),
        total_time(entries.take(k)) <= total_time(entries),
        total_bytes(entries.take(k)) <= total_bytes(entries),
        total_count(entries.take(k)) >= 0,
        total_time(entries.take(k)) >= 0,
        total_bytes(entries.take(k)) >= 0,
    decreases entries.len(),
{
    if entries.len() > 0 {
        if k == entries.len() {
            assert(entries.take(k) == entries);
            lemma_prefix_totals(entries.drop_last(), k - 1);
            assert(entries.drop_last().take(k - 1) == entries.drop_last());
        } else {
            lemma_prefix_totals(entries.drop_last(), k);
            assert(entries.drop_last().take(k) == entries.take(k));
        }
    }
}

impl ConsoleReporter {
    fn slow_text(id: &String, avg: u128) -> (text: String)
        requires
            avg <= MAX_DURATION_NANOS,
        ensures
            text@ == slow_description(id@, avg),
    {
        let secs = (avg / 1_000_000_000) as u64;
        let nanos = (avg % 1_000_000_000) as u32;
        let shown = duration_debug(secs, nanos);
        slow_execution_message(id.as_str(), shown.as_str())
    }

    fn memory_text(id: &String, avg: u64) -> (text: String)
        ensures
            text@ == memory_description(id@, avg),
    {
        let mib = decimal_text(avg / 1024 / 1024);
        let a = joined("Script '", id.as_str());
        let b = joined(a.as_str(), "' uses high memory: ");
        let c = joined(b.as_str(), mib.as_str());
        joined(c.as_str(), " MB")
    }

    /// The bottlenecks of the figures, script by script, before sorting.
    fn collect_bottlenecks(&self, metrics: &PerformanceMetrics) -> (found: Vec<Bottleneck>)
        requires
            metrics.wf(),
            reportable(metrics.entries()),
        ensures
            bottleneck_views(found@) == analysis(metrics.entries()),
    {
        let mut found: Vec<Bottleneck> = Vec::new();
        let ghost entries = metrics.entries();
        let mut i: usize = 0;
        while i < metrics.executions.len()
            invariant
                entries == metrics.entries(),
                metrics.wf(),
                reportable(entries),
                i <= entries.len(),
                bottleneck_views(found@) == analysis(entries.take(i as int)),
            decreases entries.len() - i,
        {
            let entry = &metrics.executions[i];
            assert(entries[i as int] == (entry.0@, entry.1));
            let avg_duration = entry.1.avg_duration();
            let ghost before = found@;
            if avg_duration > SLOW_EXECUTION_NANOS {
                proof {
                    assert(entry.1.consistent());
                    vstd::arithmetic::div_mod::lemma_div_is_ordered_by_denominator(
                        entry.1.total_duration as int,
                        1,
                        divisor_u32(entry.1.count) as int,
                    );
                }
                let description = Self::slow_text(&entry.0, avg_duration);
                found.push(
                    Bottleneck {
                        severity: BottleneckSeverity::High,
                        category: BottleneckCategory::ExecutionTime,
                        description,
                        impact: avg_duration / 1_000_000,
                    },
                );
            }
            let ghost middle = found@;
            let avg_memory = entry.1.avg_memory();
            if avg_memory > HIGH_MEMORY_BYTES {
                let description = Self::memory_text(&entry.0, avg_memory);
                found.push(
                    Bottleneck {
                        severity: BottleneckSeverity::Medium,
                        category: BottleneckCategory::Memory,
                        description,
                        impact: avg_memory as u128,
                    },
                );
            }
            proof {
                assert(entries.take(i + 1).drop_last() == entries.take(i as int));
                assert(entries.take(i + 1).last() == entries[i as int]);
                assert(bottleneck_views(found@) =~= bottleneck_views(before) + entry_bottlenecks(
                    entries[i as int],
                ));
            }
            i = i + 1;
        }
        proof {
            assert(entries.take(entries.len() as int) == entries);
        }
        found
    }

    /// `raw` sorted by decreasing impact, bottlenecks of equal impact keeping
    /// their order.
    fn sort_by_impact(raw: Vec<Bottleneck>) -> (sorted: Vec<Bottleneck>)
        ensures
            stable_impact_order(bottleneck_views(sorted@), bottleneck_views(raw@)),
    {
        let ghost input = bottleneck_views(raw@);
        let mut rest = raw;
        let mut sorted: Vec<Bottleneck> = Vec::new();
        let ghost mut k: int = 0;
        while rest.len() > 0
            invariant
                0 <= k <= input.len(),
                bottleneck_views(rest@) == input.skip(k),
                sorted@.len() == k,
                impact_sorted(bottleneck_views(sorted@)),
                forall|v: u128| #[trigger] with_impact(bottleneck_views(sorted@), v) == with_impact(input.take(k), v),
            decreases rest@.len(),
        {
            let ghost r0 = rest@;
            proof {
                assert(bottleneck_views(r0).len() == r0.len());
                assert(input.skip(k).len() == input.len() - k);
            }
            let x = rest.remove(0);
            let ghost xv = bottleneck_view(x);
            let ghost s = bottleneck_views(sorted@);
            proof {
                assert(bottleneck_views(r0)[0] == bottleneck_view(r0[0]));
                assert(input.skip(k)[0] == input[k]);
                assert(xv == input[k]);
                assert forall|j: int| 0 <= j < rest@.len() implies #[trigger] bottleneck_views(rest@)[j]
                    == input.skip(k + 1)[j] by {
                    assert(rest@[j] == r0[j + 1]);
                    assert(bottleneck_views(r0)[j + 1] == input.skip(k)[j + 1]);
                }
                assert(bottleneck_views(rest@) =~= input.skip(k + 1));
            }
            let mut p: usize = 0;
            while p < sorted.len() && sorted[p].impact >= x.impact
                invariant
                    p <= sorted@.len(),
                    s == bottleneck_views(sorted@),
                    xv == bottleneck_view(x),
                    forall|j: int| 0 <= j < p ==> (#[trigger] s[j]).3 >= xv.3,
                decreases sorted@.len() - p,
            {
                p = p + 1;
            }
            let ghost pp = p as int;
            sorted.insert(p, x);
            proof {
                let s2 = bottleneck_views(sorted@);
                assert(s2 =~= s.take(pp) + seq![xv] + s.skip(pp));
                assert(s == s.take(pp) + s.skip(pp));
                assert forall|j: int| 0 <= j < s.skip(pp).len() implies (#[trigger] s.skip(pp)[j]).3 < xv.3 by {
                    assert(s.skip(pp)[j] == s[pp + j]);
                    assert(s[pp].3 < xv.3);
                    if j > 0 {
                        assert(s[pp].3 >= s[pp + j].3);
                    }
                }
                assert forall|i: int, j: int| 0 <= i < j < s2.len() implies (#[trigger] s2[i]).3 >= (
                #[trigger] s2[j]).3 by {
                    if j < pp {
                        assert(s2[i] == s[i] && s2[j] == s[j]);
                    } else if j == pp {
                        assert(s2[i] == s[i]);
                    } else if i < pp {
                        assert(s2[i] == s[i] && s2[j] == s[j - 1]);
                    } else if i == pp {
                        assert(s2[j] == s[j - 1]);
                        assert(s.skip(pp)[j - 1 - pp] == s[j - 1]);
                    } else {
                        assert(s2[i] == s[i - 1] && s2[j] == s[j - 1]);
                    }
                }
                assert(input.take(k + 1) == input.take(k).push(xv));
                assert forall|v: u128| #[trigger] with_impact(s2, v) == with_impact(input.take(k + 1), v) by {
                    let f = impact_is(v);
                    let a = s.take(pp);
                    let b = s.skip(pp);
                    let one = seq![xv];
                    assert(s2 == (a + one) + b);
                    Seq::filter_distributes_over_add(a + one, b, f);
                    Seq::filter_distributes_over_add(a, one, f);
                    Seq::filter_distributes_over_add(a, b, f);
                    assert(with_impact(s, v) == with_impact(input.take(k), v));
                    input.take(k).lemma_filter_push(xv, f);
                    assert(one == Seq::<BottleneckView>::empty().push(xv));
                    Seq::<BottleneckView>::empty().lemma_filter_push(xv, f);
                    assert(Seq::<BottleneckView>::empty().filter(f) == Seq::<BottleneckView>::empty()) by {
                        reveal(Seq::filter);
                    }
                    if v == xv.3 {
                        lemma_no_impact(b, v);
                        assert(one.filter(f) == seq![xv]);
                        assert(s2.filter(f) =~= a.filter(f).push(xv));
                        assert(s.filter(f) =~= a.filter(f));
                        assert(input.take(k + 1).filter(f) == input.take(k).filter(f).push(xv));
                    } else {
                        assert(one.filter(f) == Seq::<BottleneckView>::empty());
                        assert(s2.filter(f) =~= a.filter(f) + b.filter(f));
                        assert(input.take(k + 1).filter(f) == input.take(k).filter(f));
                    }
                }
                k = k + 1;
            }
        }
        proof {
            assert(input.take(k) == input);
        }
        sorted
    }

    /// The recommendations for the sorted bottlenecks.
    fn generate_recommendations(&self, bottlenecks: &Vec<Bottleneck>) -> (recs: Vec<String>)
        ensures
            recs@.map_values(|r: String| r@) == report_recommendations(bottleneck_views(bottlenecks@)),
    {
        let ghost bs = bottleneck_views(bottlenecks@);
        let mut recs: Vec<String> = Vec::new();
        let mut i: usize = 0;
        while i < bottlenecks.len()
            invariant
                bs == bottleneck_views(bottlenecks@),
                i <= bottlenecks@.len(),
                recs@.map_values(|r: String| r@) == recommendations_from(bs.take(i as int)),
            decreases bottlenecks@.len() - i,
        {
            let ghost before = recs@;
            match bottlenecks[i].category {
                BottleneckCategory::ExecutionTime => {
                    recs.push(
                        String::from_str("Consider optimizing script execution or enabling JIT compilation"),
                    );
                },
                BottleneckCategory::Memory => {
                    recs.push(String::from_str("Consider reducing memory usage or implementing memory pooling"));
                },
                BottleneckCategory::CPU => {
                    recs.push(
                        String::from_str("Consider optimizing CPU-intensive operations or parallelizing work"),
                    );
                },
                _ => {},
            }
            proof {
                assert(bs.take(i + 1).drop_last() == bs.take(i as int));
                assert(bs.take(i + 1).last() == bs[i as int]);
                assert(recs@.map_values(|r: String| r@) =~= before.map_values(|r: String| r@)
                    + recommendation(bs[i as int].1));
            }
            i = i + 1;
        }
        proof {
            assert(bs.take(bs.len() as int) == bs);
        }
        if recs.len() == 0 {
            recs.push(String::from_str("Performance is optimal. No immediate recommendations."));
            proof {
                assert(recs@.map_values(|r: String| r@) =~= seq![
                    "Performance is optimal. No immediate recommendations."@,
                ]);
            }
        }
        recs
    }

    /// The report on `metrics`.
    pub fn report(&self, metrics: &PerformanceMetrics) -> (report: PerformanceReport)
        requires
            metrics.wf(),
            reportable(metrics.entries()),
        ensures
            console_report(metrics.entries(), report),
    {
        let ghost entries = metrics.entries();
        let mut total_executions: u64 = 0;
        let mut total_duration: u128 = 0;
        let mut total_memory: u64 = 0;
        let mut i: usize = 0;
        while i < metrics.executions.len()
            invariant
                entries == metrics.entries(),
                reportable(entries),
                i <= entries.len(),
                total_executions == total_count(entries.take(i as int)),
                total_duration == total_time(entries.take(i as int)),
                total_memory == total_bytes(entries.take(i as int)),
            decreases entries.len() - i,
        {
            let m = &metrics.executions[i].1;
            proof {
                assert(entries[i as int].1 == *m);
                assert(entries.take(i + 1).drop_last() == entries.take(i as int));
                assert(entries.take(i + 1).last() == entries[i as int]);
                lemma_prefix_totals(entries, i + 1);
            }
            total_executions = total_executions + m.count;
            total_duration = total_duration + m.total_duration;
            total_memory = total_memory + m.total_memory;
            i = i + 1;
        }
        proof {
            assert(entries.take(entries.len() as int) == entries);
        }
        let avg_execution_time = if total_executions > 0 {
            total_duration / ((total_executions % 0x1_0000_0000) as u128)
        } else {
            0
        };
        let avg_memory_usage = if total_executions > 0 {
            total_memory / total_executions
        } else {
            0
        };
        let raw = self.collect_bottlenecks(metrics);
        let bottlenecks = Self::sort_by_impact(raw);
        let recommendations = self.generate_recommendations(&bottlenecks);
        PerformanceReport {
            generated_at: instant_now(),
            uptime: metrics.uptime(),
            total_executions,
            avg_execution_time,
            avg_memory_usage,
            bottlenecks,
            recommendations,
        }
    }
}

impl Reporter for ConsoleReporter {
    open spec fn reports(&self, metrics: PerformanceMetrics, report: PerformanceReport) -> bool {
        console_report(metrics.entries(), report)
    }

    fn generate_report(&self, metrics: &PerformanceMetrics) -> (report: PerformanceReport)
        ensures
            console_report(metrics.entries(), report),
    {
        self.report(metrics)
    }
}

/// Disk traffic figures of a sample.
#[derive(Clone, Copy, Debug)]
pub struct DiskIO {
    pub read_bytes: u64,
    pub write_bytes: u64,
    pub read_count: u64,
    pub write_count: u64,
}

/// Network traffic figures of a sample.
#[derive(Clone, Copy, Debug)]
pub struct NetworkIO {
    pub sent_bytes: u64,
    pub received_bytes: u64,
    pub connections: u32,
}

/// The value of a `/proc/stat` field, zero when it is not a number.
pub open spec fn field_or_zero(w: Seq<char>) -> nat {
    match parse_u64(w) {
        Some(v) => v as nat,
        None => 0,
    }
}

/// The words of the first line of a `/proc/stat` text.
pub open spec fn stat_words(stat: Seq<char>) -> Seq<Seq<char>> {
    if lines(stat).len() > 0 {
        words(lines(stat)[0])
    } else {
        Seq::empty()
    }
}

/// The user, nice, system and idle times of the first line, added up.
pub open spec fn stat_total(stat: Seq<char>) -> nat {
    let w = stat_words(stat);
    field_or_zero(w[1]) + field_or_zero(w[2]) + field_or_zero(w[3]) + field_or_zero(w[4])
}

/// The idle time and the total of the user, nice, system and idle times of
/// a `/proc/stat` text: none when its first line has fewer than eight words
/// or the total is zero.
pub open spec fn cpu_times_of(stat: Seq<char>) -> Option<(u64, u64)> {
    let w = stat_words(stat);
    if w.len() < 8 || stat_total(stat) == 0 {
        None
    } else {
        Some((field_or_zero(w[4]) as u64, stat_total(stat) as u64))
    }
}

/// The state of the CPU sampler: whether it is sampling.
pub struct CPUSampler {
    is_running: bool,
}

impl CPUSampler {
    /// Whether the sampler is sampling.
    pub closed spec fn sampling(&self) -> bool {
        self.is_running
    }

    /// A sampler that is not sampling.
    pub fn new() -> (sampler: Self)
        ensures
            !sampler.sampling(),
    {
        CPUSampler { is_running: false }
    }

    /// Starts sampling.
    pub fn start(&mut self)
        ensures
            final(self).sampling(),
    {
        self.is_running = true;
    }

    /// Stops sampling.
    pub fn stop(&mut self)
        ensures
            !final(self).sampling(),
    {
        self.is_running = false;
    }

    /// Whether the user, nice, system and idle times of a `/proc/stat` text
    /// add up within 64 bits, as `cpu_times` needs (trivially so when the
    /// first line has fewer than eight words).
    pub fn counters_fit(stat: &str) -> (fits: bool)
        ensures
            fits == (stat_words(stat@).len() >= 8 ==> stat_total(stat@) <= u64::MAX),
    {
        let chars = chars_of(stat);
        let ls = split_lines(&chars);
        if ls.len() == 0 {
            return true;
        }
        let parts = split_words(&ls[0]);
        proof {
            assert(ls@.map_values(|l: Vec<char>| l@)[0] == ls@[0]@);
            assert(stat_words(stat@) == parts@.map_values(|w: Vec<char>| w@));
        }
        if parts.len() < 8 {
            return true;
        }
        proof {
            let v = parts@.map_values(|w: Vec<char>| w@);
            assert(v[1] == parts@[1]@ && v[2] == parts@[2]@ && v[3] == parts@[3]@ && v[4] == parts@[4]@);
        }
        let mut total: u128 = 0;
        let mut k: usize = 1;
        while k <= 4
            invariant
                1 <= k <= 5,
                parts@.len() >= 8,
                stat_words(stat@) == parts@.map_values(|w: Vec<char>| w@),
                total == (if k > 1 { field_or_zero(parts@[1]@) } else { 0 }) + (if k > 2 {
                    field_or_zero(parts@[2]@)
                } else {
                    0
                }) + (if k > 3 { field_or_zero(parts@[3]@) } else { 0 }) + (if k > 4 {
                    field_or_zero(parts@[4]@)
                } else {
                    0
                }),
                total <= (k - 1) * 0xffff_ffff_ffff_ffff,
            decreases 5 - k,
        {
            let v: u64 = match parse_number(&parts[k]) {
                Some(v) => v,
                None => 0,
            };
            total = total + v as u128;
            k = k + 1;
        }
        total <= 0xffff_ffff_ffff_ffff
    }

    /// The idle time and the total time of a `/proc/stat` text, from which
    /// the CPU usage is `100 * (1 - idle / total)`.
    pub fn cpu_times(stat: &str) -> (times: Option<(u64, u64)>)
        requires
            stat_words(stat@).len() >= 8 ==> stat_total(stat@) <= u64::MAX,
        ensures
            times == cpu_times_of(stat@),
    {
        let chars = chars_of(stat);
        let ls = split_lines(&chars);
        if ls.len() == 0 {
            return None;
        }
        let parts = split_words(&ls[0]);
        proof {
            assert(ls@.map_values(|l: Vec<char>| l@)[0] == ls@[0]@);
            assert(stat_words(stat@) == parts@.map_values(|w: Vec<char>| w@));
        }
        if parts.len() < 8 {
            return None;
        }
        proof {
            let v = parts@.map_values(|w: Vec<char>| w@);
            assert(v[1] == parts@[1]@ && v[2] == parts@[2]@ && v[3] == parts@[3]@ && v[4] == parts@[4]@);
        }
        let user = match parse_number(&parts[1]) {
            Some(v) => v,
            None => 0,
        };
        let nice = match parse_number(&parts[2]) {
            Some(v) => v,
            None => 0,
        };
        let system = match parse_number(&parts[3]) {
            Some(v) => v,
            None => 0,
        };
        let idle = match parse_number(&parts[4]) {
            Some(v) => v,
            None => 0,
        };
        let total = user + nice + system + idle;
        if total > 0 {
            Some((idle, total))
        } else {
            None
        }
    }

    /// Whether the sampler is sampling.
    pub fn is_running(&self) -> (running: bool)
        ensures
            running == self.sampling(),
    {
        self.is_running
    }
}

/// Collects execution figures and makes reports with the console reporter
/// and any reporters added after it; the last reporter's report is the one
/// given.
pub struct PerformanceMonitor {
    metrics: PerformanceMetrics,
    console: ConsoleReporter,
    added_reporters: Vec<Box<dyn Reporter>>,
}

impl PerformanceMonitor {
    /// The collected figures.
    pub closed spec fn figures(&self) -> PerformanceMetrics {
        self.metrics
    }

    /// The reporters added after the console reporter, in order.
    pub closed spec fn added(&self) -> Seq<Box<dyn Reporter>> {
        self.added_reporters@
    }

    /// How many reporters were added after the console reporter.
    pub open spec fn added_reporter_count(&self) -> nat {
        self.added().len()
    }

    /// A monitor with no figures and the console reporter only.
    pub fn new() -> (monitor: Self)
        ensures
            monitor.figures().wf(),
            monitor.figures().entries() == Seq::<EntryView>::empty(),
            monitor.added_reporter_count() == 0,
    {
        PerformanceMonitor {
            metrics: PerformanceMetrics::new(),
            console: ConsoleReporter,
            added_reporters: Vec::new(),
        }
    }

    /// Adds a reporter after the existing ones.
    pub fn add_reporter(&mut self, reporter: Box<dyn Reporter>)
        ensures
            final(self).figures() == old(self).figures(),
            final(self).added() == old(self).added().push(reporter),
    {
        self.added_reporters.push(reporter);
    }

    /// Records an execution of `script_id` that took `duration` nanoseconds
    /// and `memory` bytes.
    pub fn record_execution(&mut self, script_id: &str, duration: u128, memory: u64)
        requires
            old(self).figures().wf(),
            can_record(figures_for(old(self).figures().entries(), script_id@), duration, memory),
        ensures
            final(self).figures().wf(),
            recorded_entries(
                old(self).figures().entries(),
                script_id@,
                duration,
                memory,
                final(self).figures().entries(),
            ),
            final(self).added_reporter_count() == old(self).added_reporter_count(),
    {
        self.metrics.record_execution(script_id, duration, memory);
    }

    /// The same as `record_execution`.
    pub fn record_execution_sync(&mut self, script_id: &str, duration: u128, memory: u64)
        requires
            old(self).figures().wf(),
            can_record(figures_for(old(self).figures().entries(), script_id@), duration, memory),
        ensures
            final(self).figures().wf(),
            recorded_entries(
                old(self).figures().entries(),
                script_id@,
                duration,
                memory,
                final(self).figures().entries(),
            ),
            final(self).added_reporter_count() == old(self).added_reporter_count(),
    {
        self.metrics.record_execution(script_id, duration, memory);
    }

    /// The report of the last reporter: the console report when no reporter
    /// was added, else the report of the last one added. The console
    /// reporter and then each added reporter, in order, report on the
    /// figures.
    pub fn generate_report(&self) -> (report: PerformanceReport)
        requires
            self.figures().wf(),
            reportable(self.figures().entries()),
        ensures
            self.added_reporter_count() == 0 ==> console_report(self.figures().entries(), report),
            self.added_reporter_count() > 0 ==> self.added().last().reports(self.figures(), report),
    {
        let mut report = self.console.report(&self.metrics);
        let mut i: usize = 0;
        while i < self.added_reporters.len()
            invariant
                self.figures().wf(),
                reportable(self.figures().entries()),
                i <= self.added_reporters@.len(),
                i == 0 ==> console_report(self.figures().entries(), report),
                i > 0 ==> self.added()[i - 1].reports(self.figures(), report),
            decreases self.added_reporters@.len() - i,
        {
            report = self.added_reporters[i].generate_report(&self.metrics);
            i = i + 1;
        }
        report
    }

    /// The collected figures.
    pub fn metrics(&self) -> (metrics: &PerformanceMetrics)
        ensures
            *metrics == self.figures(),
    {
        &self.metrics
    }
}

} // verus!
