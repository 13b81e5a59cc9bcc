//! The deterministic document clock and the queue of page timers.
use vstd::prelude::*;
use crate::script::{ScriptError, TimerRunReport};

verus! {

/// One pending `setTimeout` or `setInterval` registration.
#[derive(Clone, Copy, Debug, PartialEq, Eq, Structural)]
pub struct HostTimer {
    pub due_ms: u64,
    pub interval_ms: Option<u64>,
    pub sequence: u64,
}

/// `a + b`, saturating at `u64::MAX`.
pub open spec fn sat_add_u64(a: int, b: int) -> u64 {
    if a + b > u64::MAX {
        u64::MAX
    } else {
        (a + b) as u64
    }
}

fn saturating_add_u64(a: u64, b: u64) -> (r: u64)
    ensures
        r == sat_add_u64(a as int, b as int),
{
    if a > u64::MAX - b {
        u64::MAX
    } else {
        a + b
    }
}

/// The state of the clock and its timers, keyed by timer id.
pub struct TimerModel {
    pub clock_ms: u64,
    pub next_id: u64,
    pub next_sequence: u64,
    pub timers: Map<u64, HostTimer>,
}

/// The map held by a list of (id, timer) pairs with distinct ids.
pub open spec fn timer_map(v: Seq<(u64, HostTimer)>) -> Map<u64, HostTimer>
    decreases v.len(),
{
    if v.len() == 0 {
        Map::empty()
    } else {
        timer_map(v.drop_last()).insert(v.last().0, v.last().1)
    }
}

pub open spec fn distinct_ids(v: Seq<(u64, HostTimer)>) -> bool {
    forall|i: int, j: int| 0 <= i < j < v.len() ==> v[i].0 != v[j].0
}

pub open spec fn has_id(v: Seq<(u64, HostTimer)>, k: u64) -> bool {
    exists|i: int| 0 <= i < v.len() && #[trigger] v[i].0 == k
}

proof fn lemma_timer_map(v: Seq<(u64, HostTimer)>)
    requires
        distinct_ids(v),
    ensures
        forall|i: int|
            0 <= i < v.len() ==> timer_map(v).contains_key(#[trigger] v[i].0) && timer_map(v)[v[i].0]
                == v[i].1,
        forall|k: u64| #[trigger] timer_map(v).contains_key(k) ==> has_id(v, k),
        timer_map(v).dom().finite(),
        timer_map(v).dom().len() == v.len(),
    decreases v.len(),
{
    if v.len() > 0 {
        let p = v.drop_last();
        let last = v.last();
        lemma_timer_map(p);
        assert(!timer_map(p).contains_key(last.0)) by {
            if timer_map(p).contains_key(last.0) {
                let i = choose|i: int| 0 <= i < p.len() && #[trigger] p[i].0 == last.0;
                assert(v[i].0 == v[v.len() - 1].0);
            }
        }
        assert forall|i: int| 0 <= i < v.len() implies timer_map(v).contains_key(#[trigger] v[i].0)
            && timer_map(v)[v[i].0] == v[i].1 by {
            if i < v.len() - 1 {
                assert(p[i] == v[i]);
                assert(v[i].0 != last.0);
                assert(timer_map(p).contains_key(p[i].0));
            }
        }
        assert forall|k: u64| #[trigger] timer_map(v).contains_key(k) implies has_id(v, k) by {
            if k == last.0 {
                assert(v[v.len() - 1].0 == k);
            } else {
                assert(timer_map(p).contains_key(k));
                let i = choose|i: int| 0 <= i < p.len() && #[trigger] p[i].0 == k;
                assert(p[i] == v[i]);
            }
        }
        assert(timer_map(v).dom() =~= timer_map(p).dom().insert(last.0));
    } else {
        assert(timer_map(v).dom() =~= Set::<u64>::empty());
    }
}

proof fn lemma_timer_map_remove(v: Seq<(u64, HostTimer)>, i: int)
    requires
        distinct_ids(v),
        0 <= i < v.len(),
    ensures
        distinct_ids(v.remove(i)),
        timer_map(v.remove(i)) == timer_map(v).remove(v[i].0),
{
    let w = v.remove(i);
    assert forall|a: int, b: int| 0 <= a < b < w.len() implies w[a].0 != w[b].0 by {
        let a2 = if a < i { a } else { a + 1 };
        let b2 = if b < i { b } else { b + 1 };
        assert(w[a] == v[a2]);
        assert(w[b] == v[b2]);
    }
    lemma_timer_map(v);
    lemma_timer_map(w);
    assert forall|k: u64| timer_map(w).contains_key(k) <==> timer_map(v).remove(v[i].0).contains_key(k) by {
        if timer_map(w).contains_key(k) {
            let j = choose|j: int| 0 <= j < w.len() && #[trigger] w[j].0 == k;
            let j2 = if j < i { j } else { j + 1 };
            assert(w[j] == v[j2]);
            assert(v[j2].0 == k);
            assert(j2 != i);
        }
        if timer_map(v).remove(v[i].0).contains_key(k) {
            let j = choose|j: int| 0 <= j < v.len() && #[trigger] v[j].0 == k;
            assert(j != i);
            let j2 = if j < i { j } else { j - 1 };
            assert(w[j2] == v[j]);
        }
    }
    assert forall|k: u64| #[trigger] timer_map(w).contains_key(k) implies timer_map(w)[k]
        == timer_map(v)[k] by {
        let j = choose|j: int| 0 <= j < w.len() && #[trigger] w[j].0 == k;
        let j2 = if j < i { j } else { j + 1 };
        assert(w[j] == v[j2]);
        assert(timer_map(v)[v[j2].0] == v[j2].1);
    }
    assert(timer_map(w) =~= timer_map(v).remove(v[i].0));
}

proof fn lemma_timer_map_update(v: Seq<(u64, HostTimer)>, i: int, t: HostTimer)
    requires
        distinct_ids(v),
        0 <= i < v.len(),
    ensures
        distinct_ids(v.update(i, (v[i].0, t))),
        timer_map(v.update(i, (v[i].0, t))) == timer_map(v).insert(v[i].0, t),
{
    let w = v.update(i, (v[i].0, t));
    assert forall|a: int, b: int| 0 <= a < b < w.len() implies w[a].0 != w[b].0 by {
        assert(w[a].0 == v[a].0);
        assert(w[b].0 == v[b].0);
    }
    lemma_timer_map(v);
    lemma_timer_map(w);
    assert forall|k: u64| timer_map(w).contains_key(k) <==> timer_map(v).insert(v[i].0, t).contains_key(k) by {
        if timer_map(w).contains_key(k) {
            let j = choose|j: int| 0 <= j < w.len() && #[trigger] w[j].0 == k;
            assert(v[j].0 == k);
        }
        if timer_map(v).contains_key(k) {
            let j = choose|j: int| 0 <= j < v.len() && #[trigger] v[j].0 == k;
            assert(w[j].0 == k);
        }
        if k == v[i].0 {
            assert(w[i].0 == k);
        }
    }
    assert forall|k: u64| #[trigger] timer_map(w).contains_key(k) implies timer_map(w)[k]
        == timer_map(v).insert(v[i].0, t)[k] by {
        let j = choose|j: int| 0 <= j < w.len() && #[trigger] w[j].0 == k;
        assert(timer_map(w)[w[j].0] == w[j].1);
        if j != i {
            assert(w[j] == v[j]);
            assert(timer_map(v)[v[j].0] == v[j].1);
        }
    }
    assert(timer_map(w) =~= timer_map(v).insert(v[i].0, t));
}

/// Whether timer `k` exists and is due at the model's clock.
pub open spec fn is_due(m: TimerModel, k: u64) -> bool {
    m.timers.contains_key(k) && m.timers[k].due_ms <= m.clock_ms
}

/// Timer `a` runs before timer `b`: earlier due time, then earlier
/// registration, then smaller id.
pub open spec fn runs_before(m: TimerModel, a: u64, b: u64) -> bool {
    let ta = m.timers[a];
    let tb = m.timers[b];
    ta.due_ms < tb.due_ms || (ta.due_ms == tb.due_ms && (ta.sequence < tb.sequence || (ta.sequence
        == tb.sequence && a < b)))
}

/// The state after timer `id` fires: an interval timer is due again one
/// interval later with a fresh sequence number; a one-shot timer is gone.
pub open spec fn fire(m: TimerModel, id: u64) -> TimerModel {
    let t = m.timers[id];
    match t.interval_ms {
        Some(interval) => TimerModel {
            next_sequence: sat_add_u64(m.next_sequence as int, 1),
            timers: m.timers.insert(
                id,
                HostTimer {
                    due_ms: sat_add_u64(t.due_ms as int, interval as int),
                    interval_ms: t.interval_ms,
                    sequence: m.next_sequence,
                },
            ),
            ..m
        },
        None => TimerModel { timers: m.timers.remove(id), ..m },
    }
}

/// The state after registering a timer `delay_ms` from now; a repeating
/// timer waits at least one millisecond between runs.
pub open spec fn schedule_model(m: TimerModel, delay_ms: u64, repeat: bool) -> TimerModel {
    let interval: Option<u64> = if repeat {
        Some(if delay_ms >= 1 { delay_ms } else { 1u64 })
    } else {
        None
    };
    let effective = match interval {
        Some(i) => i,
        None => delay_ms,
    };
    TimerModel {
        clock_ms: m.clock_ms,
        next_id: sat_add_u64(m.next_id as int, 1),
        next_sequence: sat_add_u64(m.next_sequence as int, 1),
        timers: m.timers.insert(
            m.next_id,
            HostTimer {
                due_ms: sat_add_u64(m.clock_ms as int, effective as int),
                interval_ms: interval,
                sequence: m.next_sequence,
            },
        ),
    }
}

/// The document clock and its pending timers.
#[derive(Debug)]
pub struct TimerQueue {
    clock_ms: u64,
    next_timer_id: u64,
    next_timer_sequence: u64,
    timers: Vec<(u64, HostTimer)>,
}

impl View for TimerQueue {
    type V = TimerModel;

    closed spec fn view(&self) -> TimerModel {
        TimerModel {
            clock_ms: self.clock_ms,
            next_id: self.next_timer_id,
            next_sequence: self.next_timer_sequence,
            timers: timer_map(self.timers@),
        }
    }
}

impl TimerQueue {
    pub closed spec fn wf(&self) -> bool {
        distinct_ids(self.timers@)
    }

    /// A clock at zero with no timers; ids and sequence numbers start at one.
    pub fn new() -> (r: Self)
        ensures
            r.wf(),
            r@.clock_ms == 0,
            r@.next_id == 1,
            r@.next_sequence == 1,
            r@.timers == Map::<u64, HostTimer>::empty(),
    {
        TimerQueue { clock_ms: 0, next_timer_id: 1, next_timer_sequence: 1, timers: Vec::new() }
    }

    pub fn clock_ms(&self) -> (r: u64)
        ensures
            r == self@.clock_ms,
    {
        self.clock_ms
    }

    /// The number of pending timers.
    pub fn pending_timers(&self) -> (r: usize)
        requires
            self.wf(),
        ensures
            r == self@.timers.dom().len(),
    {
        proof {
            lemma_timer_map(self.timers@);
        }
        self.timers.len()
    }

    /// Whether any timer is pending.
    pub fn has_pending_timers(&self) -> (r: bool)
        requires
            self.wf(),
        ensures
            r == (self@.timers.dom().len() > 0),
    {
        proof {
            lemma_timer_map(self.timers@);
        }
        self.timers.len() > 0
    }

    /// Position of timer `id` in the list, if it is pending.
    fn index_of(&self, id: u64) -> (r: Option<usize>)
        requires
            self.wf(),
        ensures
            match r {
                Some(i) => i < self.timers@.len() && self.timers@[i as int].0 == id,
                None => !self@.timers.contains_key(id),
            },
    {
        let mut i: usize = 0;
        while i < self.timers.len()
            invariant
                i <= self.timers@.len(),
                forall|j: int| 0 <= j < i ==> self.timers@[j].0 != id,
            decreases self.timers@.len() - i,
        {
            if self.timers[i].0 == id {
                return Some(i);
            }
            i += 1;
        }
        proof {
            lemma_timer_map(self.timers@);
            if self@.timers.contains_key(id) {
                let j = choose|j: int| 0 <= j < self.timers@.len() && #[trigger] self.timers@[j].0 == id;
                assert(self.timers@[j].0 != id);
            }
        }
        None
    }

    /// Registers a timer that runs `delay_ms` after the current clock and,
    /// when `repeat`, every `max(delay_ms, 1)` after that; returns its id.
    pub fn schedule(&mut self, delay_ms: u64, repeat: bool) -> (id: u64)
        requires
            old(self).wf(),
        ensures
            final(self).wf(),
            id == old(self)@.next_id,
            final(self)@ == schedule_model(old(self)@, delay_ms, repeat),
    {
        let id = self.next_timer_id;
        self.next_timer_id = saturating_add_u64(self.next_timer_id, 1);
        let interval_ms: Option<u64> = if repeat {
            Some(
                if delay_ms >= 1 {
                    delay_ms
                } else {
                    1
                },
            )
        } else {
            None
        };
        let effective = match interval_ms {
            Some(i) => i,
            None => delay_ms,
        };
        let sequence = self.next_timer_sequence;
        self.next_timer_sequence = saturating_add_u64(self.next_timer_sequence, 1);
        let timer = HostTimer {
            due_ms: saturating_add_u64(self.clock_ms, effective),
            interval_ms,
            sequence,
        };
        let ghost before = self.timers@;
        proof {
            lemma_timer_map(before);
        }
        match self.index_of(id) {
            Some(i) => {
                self.timers.set(i, (id, timer));
                proof {
                    lemma_timer_map_update(before, i as int, timer);
                }
            },
            None => {
                self.timers.push((id, timer));
                proof {
                    let after = self.timers@;
                    assert(after.drop_last() =~= before);
                    assert forall|a: int, b: int| 0 <= a < b < after.len() implies after[a].0
                        != after[b].0 by {
                        if b == after.len() - 1 {
                            assert(after[a] == before[a]);
                            assert(timer_map(before).contains_key(before[a].0));
                        } else {
                            assert(after[a] == before[a]);
                            assert(after[b] == before[b]);
                        }
                    }
                }
            },
        }
        id
    }

    /// Removes timer `id`, if it is pending.
    pub fn cancel(&mut self, id: u64)
        requires
            old(self).wf(),
        ensures
            final(self).wf(),
            final(self)@ == (TimerModel { timers: old(self)@.timers.remove(id), ..old(self)@ }),
    {
        match self.index_of(id) {
            Some(i) => {
                let ghost before = self.timers@;
                self.timers.remove(i);
                proof {
                    lemma_timer_map_remove(before, i as int);
                }
            },
            None => {
                assert(self@.timers.remove(id) =~= self@.timers);
            },
        }
    }

    /// Moves the clock forward, saturating.
    pub fn advance_clock(&mut self, advance_ms: u64)
        ensures
            final(self).wf() == old(self).wf(),
            final(self)@ == (TimerModel {
                clock_ms: sat_add_u64(old(self)@.clock_ms as int, advance_ms as int),
                ..old(self)@
            }),
    {
        self.clock_ms = saturating_add_u64(self.clock_ms, advance_ms);
    }

    /// Whether some pending timer is due.
    pub fn has_due(&self) -> (r: bool)
        requires
            self.wf(),
        ensures
            r == (exists|k: u64| is_due(self@, k)),
    {
        proof {
            lemma_timer_map(self.timers@);
        }
        let mut i: usize = 0;
        while i < self.timers.len()
            invariant
                i <= self.timers@.len(),
                distinct_ids(self.timers@),
                forall|j: int| 0 <= j < i ==> self.timers@[j].1.due_ms > self.clock_ms,
            decreases self.timers@.len() - i,
        {
            if self.timers[i].1.due_ms <= self.clock_ms {
                proof {
                    lemma_timer_map(self.timers@);
                    assert(is_due(self@, self.timers@[i as int].0));
                }
                return true;
            }
            i += 1;
        }
        proof {
            lemma_timer_map(self.timers@);
            assert forall|k: u64| !is_due(self@, k) by {
                if self@.timers.contains_key(k) {
                    let j = choose|j: int| 0 <= j < self.timers@.len() && #[trigger] self.timers@[j].0 == k;
                    assert(self@.timers[k] == self.timers@[j].1);
                }
            }
        }
        false
    }

    /// Picks the due timer that runs first (earliest due time, then earliest
    /// registration), reschedules or removes it, and returns its id for the
    /// page to run; `None` when no timer is due.
    pub fn take_due(&mut self) -> (r: Option<u64>)
        requires
            old(self).wf(),
        ensures
            final(self).wf(),
            match r {
                None => {
                    &&& forall|k: u64| !is_due(old(self)@, k)
                    &&& final(self)@ == old(self)@
                },
                Some(id) => {
                    &&& is_due(old(self)@, id)
                    &&& forall|k: u64| is_due(old(self)@, k) && k != id ==> runs_before(old(self)@, id, k)
                    &&& final(self)@ == fire(old(self)@, id)
                },
            },
    {
        let ghost m = self@;
        proof {
            lemma_timer_map(self.timers@);
        }
        let mut best: Option<usize> = None;
        let mut i: usize = 0;
        while i < self.timers.len()
            invariant
                i <= self.timers@.len(),
                distinct_ids(self.timers@),
                m == self@,
                match best {
                    None => forall|j: int| 0 <= j < i ==> self.timers@[j].1.due_ms > self.clock_ms,
                    Some(b) => {
                        &&& b < i
                        &&& self.timers@[b as int].1.due_ms <= self.clock_ms
                        &&& forall|j: int|
                            0 <= j < i && j != b && self.timers@[j].1.due_ms <= self.clock_ms
                                ==> runs_before(m, self.timers@[b as int].0, #[trigger] self.timers@[j].0)
                    },
                },
            decreases self.timers@.len() - i,
        {
            proof {
                lemma_timer_map(self.timers@);
            }
            let (id, t) = self.timers[i];
            if t.due_ms <= self.clock_ms {
                match best {
                    None => {
                        best = Some(i);
                    },
                    Some(b) => {
                        let (bid, bt) = self.timers[b];
                        let earlier = t.due_ms < bt.due_ms || (t.due_ms == bt.due_ms && (t.sequence
                            < bt.sequence || (t.sequence == bt.sequence && id < bid)));
                        if earlier {
                            best = Some(i);
                            proof {
                                assert(m.timers[id] == t);
                                assert(m.timers[bid] == bt);
                                assert(id != bid);
                                assert forall|j: int|
                                    0 <= j < i + 1 && j != i && self.timers@[j].1.due_ms <= self.clock_ms
                                        implies runs_before(m, id, #[trigger] self.timers@[j].0) by {
                                    let kj = self.timers@[j].0;
                                    assert(m.timers[kj] == self.timers@[j].1);
                                    if j != b {
                                        assert(runs_before(m, bid, kj));
                                    }
                                }
                            }
                        } else {
                            proof {
                                assert(m.timers[id] == t);
                                assert(m.timers[bid] == bt);
                                assert(id != bid);
                                assert(runs_before(m, bid, id));
                            }
                        }
                    },
                }
            }
            i += 1;
        }
        match best {
            None => {
                proof {
                    assert forall|k: u64| !is_due(m, k) by {
                        if m.timers.contains_key(k) {
                            let j = choose|j: int| 0 <= j < self.timers@.len() && #[trigger] self.timers@[j].0 == k;
                            assert(m.timers[k] == self.timers@[j].1);
                        }
                    }
                }
                None
            },
            Some(b) => {
                let (id, t) = self.timers[b];
                proof {
                    assert(m.timers[id] == t);
                    assert forall|k: u64| is_due(m, k) && k != id implies runs_before(m, id, k) by {
                        let j = choose|j: int| 0 <= j < self.timers@.len() && #[trigger] self.timers@[j].0 == k;
                        assert(m.timers[k] == self.timers@[j].1);
                        assert(j != b);
                    }
                }
                let ghost before = self.timers@;
                match t.interval_ms {
                    Some(interval) => {
                        let sequence = self.next_timer_sequence;
                        self.next_timer_sequence = saturating_add_u64(self.next_timer_sequence, 1);
                        let next = HostTimer {
                            due_ms: saturating_add_u64(t.due_ms, interval),
                            interval_ms: t.interval_ms,
                            sequence,
                        };
                        self.timers.set(b, (id, next));
                        proof {
                            lemma_timer_map_update(before, b as int, next);
                        }
                    },
                    None => {
                        self.timers.remove(b);
                        proof {
                            lemma_timer_map_remove(before, b as int);
                        }
                    },
                }
                Some(id)
            },
        }
    }

    /// The report of one run of the timer pump: the clock advanced by
    /// `advanced_ms`, `tasks_run` timers ran, and the budget of `max_tasks`
    /// ran out when it was used up with a timer still due.
    pub fn report(
        &self,
        advanced_ms: u64,
        tasks_run: usize,
        max_tasks: usize,
        errors: Vec<ScriptError>,
    ) -> (r: TimerRunReport)
        requires
            self.wf(),
        ensures
            r.advanced_ms == advanced_ms,
            r.tasks_run == tasks_run,
            r.pending_timers == self@.timers.dom().len(),
            r.budget_exhausted == (tasks_run == max_tasks && (exists|k: u64| is_due(self@, k))),
            r.errors@ == errors@,
    {
        let due = self.has_due();
        TimerRunReport {
            advanced_ms,
            tasks_run,
            budget_exhausted: tasks_run == max_tasks && due,
            pending_timers: self.pending_timers(),
            errors,
        }
    }
}

/// Every pending timer has an id below the next id and a sequence number
/// below the next sequence number.
pub open spec fn fresh_counters(m: TimerModel) -> bool {
    forall|k: u64|
        #[trigger] m.timers.contains_key(k) ==> k < m.next_id && m.timers[k].sequence < m.next_sequence
}

/// A one-shot timer runs once: after it fires it is no longer pending.
pub proof fn law_one_shot_timer_fires_once(m: TimerModel, id: u64)
    requires
        m.timers.contains_key(id),
        m.timers[id].interval_ms is None,
    ensures
        !fire(m, id).timers.contains_key(id),
        fire(m, id).timers == m.timers.remove(id),
{
}

/// An interval timer stays pending after it fires, due one interval after
/// its previous due time, and is ordered after every timer registered before.
pub proof fn law_interval_timer_keeps_its_period(m: TimerModel, id: u64)
    requires
        m.timers.contains_key(id),
        m.timers[id].interval_ms is Some,
        fresh_counters(m),
        m.next_sequence < u64::MAX,
    ensures
        fire(m, id).timers.contains_key(id),
        fire(m, id).timers[id].due_ms == sat_add_u64(
            m.timers[id].due_ms as int,
            m.timers[id].interval_ms->0 as int,
        ),
        fire(m, id).timers[id].interval_ms == m.timers[id].interval_ms,
        forall|k: u64|
            #[trigger] m.timers.contains_key(k) && k != id ==> m.timers[k].sequence < fire(
                m,
                id,
            ).timers[id].sequence,
        fresh_counters(fire(m, id)),
{
}

/// Registering a timer takes a fresh id and keeps the counters fresh, so
/// timers due at the same time run in the order they were registered.
pub proof fn law_schedule_takes_a_fresh_id(m: TimerModel, delay_ms: u64, repeat: bool)
    requires
        fresh_counters(m),
        m.next_id < u64::MAX,
        m.next_sequence < u64::MAX,
    ensures
        !m.timers.contains_key(m.next_id),
        schedule_model(m, delay_ms, repeat).timers.contains_key(m.next_id),
        forall|k: u64|
            #[trigger] m.timers.contains_key(k) ==> m.timers[k].sequence < schedule_model(
                m,
                delay_ms,
                repeat,
            ).timers[m.next_id].sequence,
        fresh_counters(schedule_model(m, delay_ms, repeat)),
{
}

/// Cancelling a timer right after registering it leaves the pending timers
/// as they were.
pub proof fn law_cancel_undoes_schedule(m: TimerModel, delay_ms: u64, repeat: bool)
    requires
        !m.timers.contains_key(m.next_id),
    ensures
        schedule_model(m, delay_ms, repeat).timers.remove(m.next_id) == m.timers,
{
    assert(schedule_model(m, delay_ms, repeat).timers.remove(m.next_id) =~= m.timers);
}

/// Firing a due timer keeps the counters fresh.
pub proof fn law_fire_keeps_counters_fresh(m: TimerModel, id: u64)
    requires
        fresh_counters(m),
        m.timers.contains_key(id),
        m.next_sequence < u64::MAX,
    ensures
        fresh_counters(fire(m, id)),
{
}

} // verus!
