//! The per-key sliding-window rate limiter guarding the vote write path.

use vstd::prelude::*;

use crate::text::str_eq;

verus! {

/// One limiter row: the accept instants recorded for one key, oldest
/// first.
pub struct LimiterEntry {
    pub key: String,
    pub timestamps: Vec<i64>,
}

impl DeepView for LimiterEntry {
    type V = (Seq<char>, Seq<i64>);

    open spec fn deep_view(&self) -> (Seq<char>, Seq<i64>) {
        (self.key@, self.timestamps@)
    }
}

/// The accept instants a table holds for a key; empty when absent.
pub open spec fn spec_queue_of(t: Seq<(Seq<char>, Seq<i64>)>, key: Seq<char>) -> Seq<i64>
    decreases t.len(),
{
    if t.len() == 0 {
        Seq::empty()
    } else if t[0].0 == key {
        t[0].1
    } else {
        spec_queue_of(t.drop_first(), key)
    }
}

/// A table with one row per key.
pub open spec fn spec_table_wf(t: Seq<(Seq<char>, Seq<i64>)>) -> bool {
    forall|i: int, j: int| 0 <= i < j < t.len() ==> (#[trigger] t[i]).0 != (#[trigger] t[j]).0
}

/// A queue with the instants older than the window removed from the
/// front: draining stops at the first instant still inside the window.
pub open spec fn spec_drain(q: Seq<i64>, now_ms: i64, window_ms: i64) -> Seq<i64>
    decreases q.len(),
{
    if q.len() > 0 && now_ms - q[0] > window_ms {
        spec_drain(q.drop_first(), now_ms, window_ms)
    } else {
        q
    }
}

/// The per-voter sliding-window rate limiter. Each accepted call records
/// its instant; a call is rejected when, after draining instants older
/// than the window, the key already holds `max_requests` of them.
pub struct RateLimiter {
    entries: Vec<LimiterEntry>,
    max_requests: usize,
    window_ms: i64,
}

impl RateLimiter {
    /// The model of the accept table.
    pub closed spec fn table(&self) -> Seq<(Seq<char>, Seq<i64>)> {
        self.entries.deep_view()
    }

    /// The configured per-window request budget.
    pub closed spec fn spec_max_requests(&self) -> usize {
        self.max_requests
    }

    /// The configured window in milliseconds.
    pub closed spec fn spec_window_ms(&self) -> i64 {
        self.window_ms
    }

    /// The limiter invariant: one row per key.
    pub open spec fn wf(&self) -> bool {
        spec_table_wf(self.table())
    }

    /// A fresh limiter with the given budget and window.
    pub fn new(max_requests: usize, window_ms: i64) -> (r: Self)
        ensures
            r.table() == Seq::<(Seq<char>, Seq<i64>)>::empty(),
            r.spec_max_requests() == max_requests,
            r.spec_window_ms() == window_ms,
            r.wf(),
    {
        let r = RateLimiter { entries: Vec::new(), max_requests, window_ms };
        proof {
            assert(r.table() =~= Seq::<(Seq<char>, Seq<i64>)>::empty());
        }
        r
    }

    /// Decides one call: drains the key's instants older than the window,
    /// rejects when the drained queue already holds the budget, and
    /// otherwise records `now_ms` and accepts. A key whose instants all
    /// expired starts a fresh queue and is always accepted. No other
    /// key's queue changes.
    pub fn allow(&mut self, key: &str, now_ms: i64) -> (r: bool)
        requires
            old(self).wf(),
        ensures
            final(self).wf(),
            final(self).spec_max_requests() == old(self).spec_max_requests(),
            final(self).spec_window_ms() == old(self).spec_window_ms(),
            ({
                let drained = spec_drain(
                    spec_queue_of(old(self).table(), key@),
                    now_ms,
                    old(self).spec_window_ms(),
                );
                &&& r == (drained.len() == 0 || drained.len() < old(self).spec_max_requests())
                &&& spec_queue_of(final(self).table(), key@) == (if r {
                    drained.push(now_ms)
                } else {
                    drained
                })
            }),
            forall|k2: Seq<char>|
                k2 != key@ ==> #[trigger] spec_queue_of(final(self).table(), k2) == spec_queue_of(
                    old(self).table(),
                    k2,
                ),
    {
        let ghost t0 = self.table();
        let n = self.entries.len();
        let mut i: usize = 0;
        let mut found = false;
        while i < n && !found
            invariant
                n == self.entries.len(),
                t0 == self.table(),
                i <= n,
                !found ==> forall|j: int| 0 <= j < i ==> (#[trigger] t0[j]).0 != key@,
                found ==> i < n && t0[i as int].0 == key@ && forall|j: int|
                    0 <= j < i ==> (#[trigger] t0[j]).0 != key@,
            decreases n - i + (if found {
                0int
            } else {
                1int
            }),
        {
            if str_eq(self.entries[i].key.as_str(), key) {
                found = true;
            } else {
                i = i + 1;
            }
        }
        if !found {
            proof {
                lemma_queue_of_missing(t0, key@);
            }
            let mut timestamps: Vec<i64> = Vec::new();
            timestamps.push(now_ms);
            self.entries.push(LimiterEntry { key: key.to_owned(), timestamps });
            proof {
                assert(self.table() =~= t0.push((key@, seq![now_ms])));
                lemma_queue_of_push_own(t0, key@, seq![now_ms]);
                assert(spec_drain(Seq::empty(), now_ms, self.window_ms) =~= Seq::<i64>::empty());
                assert(seq![now_ms] =~= Seq::<i64>::empty().push(now_ms));
                assert forall|k2: Seq<char>| k2 != key@ implies #[trigger] spec_queue_of(
                    self.table(),
                    k2,
                ) == spec_queue_of(t0, k2) by {
                    lemma_queue_of_push_other(t0, key@, seq![now_ms], k2);
                }
            }
            return true;
        }
        proof {
            lemma_queue_of_found(t0, key@, i as int);
        }
        let ghost q0 = t0[i as int].1;
        let qlen = self.entries[i].timestamps.len();
        let mut d: usize = 0;
        proof {
            assert(q0.subrange(0, qlen as int) =~= q0);
        }
        while d < qlen && (now_ms as i128) - (self.entries[i].timestamps[d] as i128) > (
        self.window_ms as i128)
            invariant
                i < self.entries.len(),
                t0 == self.table(),
                qlen == self.entries[i as int].timestamps.len(),
                q0 == t0[i as int].1,
                q0 == self.entries[i as int].timestamps@,
                d <= qlen,
                spec_drain(q0, now_ms, self.window_ms) == spec_drain(
                    q0.subrange(d as int, qlen as int),
                    now_ms,
                    self.window_ms,
                ),
            decreases qlen - d,
        {
            let ghost rest = q0.subrange(d as int, qlen as int);
            proof {
                assert(rest[0] == q0[d as int]);
                assert(rest.drop_first() =~= q0.subrange(d + 1, qlen as int));
            }
            d = d + 1;
        }
        proof {
            let rest = q0.subrange(d as int, qlen as int);
            if rest.len() > 0 {
                assert(!(now_ms - rest[0] > self.window_ms));
            }
            assert(spec_drain(q0, now_ms, self.window_ms) == rest);
        }
        let mut drained: Vec<i64> = Vec::new();
        let mut c: usize = d;
        proof {
            assert(drained@ =~= q0.subrange(d as int, d as int));
        }
        while c < qlen
            invariant
                i < self.entries.len(),
                t0 == self.table(),
                qlen == self.entries[i as int].timestamps.len(),
                q0 == self.entries[i as int].timestamps@,
                d <= c <= qlen,
                drained@ == q0.subrange(d as int, c as int),
            decreases qlen - c,
        {
            drained.push(self.entries[i].timestamps[c]);
            proof {
                assert(q0.subrange(d as int, c + 1) =~= q0.subrange(d as int, c as int).push(
                    q0[c as int],
                ));
            }
            c = c + 1;
        }
        let ghost dm = spec_drain(q0, now_ms, self.window_ms);
        proof {
            assert(drained@ == dm);
        }
        let accepted = drained.len() == 0 || drained.len() < self.max_requests;
        if accepted {
            drained.push(now_ms);
        }
        let removed = self.entries.remove(i);
        self.entries.insert(i, LimiterEntry { key: removed.key, timestamps: drained });
        proof {
            let ghost newq = if accepted {
                dm.push(now_ms)
            } else {
                dm
            };
            assert(self.table() =~= t0.update(i as int, (key@, newq)));
            lemma_queue_of_update_own(t0, key@, newq, i as int);
            lemma_table_wf_update(t0, key@, newq, i as int);
            assert forall|k2: Seq<char>| k2 != key@ implies #[trigger] spec_queue_of(
                self.table(),
                k2,
            ) == spec_queue_of(t0, k2) by {
                lemma_queue_of_update_other(t0, key@, newq, i as int, k2);
            }
        }
        accepted
    }
}

proof fn lemma_queue_of_missing(t: Seq<(Seq<char>, Seq<i64>)>, key: Seq<char>)
    requires
        forall|j: int| 0 <= j < t.len() ==> (#[trigger] t[j]).0 != key,
    ensures
        spec_queue_of(t, key) == Seq::<i64>::empty(),
    decreases t.len(),
{
    if t.len() > 0 {
        assert(t.drop_first()[0] == t[1] || t.drop_first().len() == 0 || true);
        assert forall|j: int| 0 <= j < t.drop_first().len() implies (#[trigger] t.drop_first()[j]).0
            != key by {
            assert(t.drop_first()[j] == t[j + 1]);
        }
        lemma_queue_of_missing(t.drop_first(), key);
    }
}

proof fn lemma_queue_of_found(t: Seq<(Seq<char>, Seq<i64>)>, key: Seq<char>, i: int)
    requires
        0 <= i < t.len(),
        t[i].0 == key,
        forall|j: int| 0 <= j < i ==> (#[trigger] t[j]).0 != key,
    ensures
        spec_queue_of(t, key) == t[i].1,
    decreases i,
{
    if i > 0 {
        assert(t[0].0 != key);
        assert forall|j: int| 0 <= j < i - 1 implies (#[trigger] t.drop_first()[j]).0 != key by {
            assert(t.drop_first()[j] == t[j + 1]);
        }
        assert(t.drop_first()[i - 1] == t[i]);
        lemma_queue_of_found(t.drop_first(), key, i - 1);
    }
}

proof fn lemma_queue_of_push_own(t: Seq<(Seq<char>, Seq<i64>)>, key: Seq<char>, q: Seq<i64>)
    requires
        forall|j: int| 0 <= j < t.len() ==> (#[trigger] t[j]).0 != key,
    ensures
        spec_queue_of(t.push((key, q)), key) == q,
    decreases t.len(),
{
    if t.len() == 0 {
        assert(t.push((key, q))[0] == (key, q));
    } else {
        assert(t.push((key, q))[0] == t[0]);
        assert(t.push((key, q)).drop_first() =~= t.drop_first().push((key, q)));
        assert forall|j: int| 0 <= j < t.drop_first().len() implies (#[trigger] t.drop_first()[j]).0
            != key by {
            assert(t.drop_first()[j] == t[j + 1]);
        }
        lemma_queue_of_push_own(t.drop_first(), key, q);
    }
}

proof fn lemma_queue_of_push_other(
    t: Seq<(Seq<char>, Seq<i64>)>,
    key: Seq<char>,
    q: Seq<i64>,
    k2: Seq<char>,
)
    requires
        k2 != key,
    ensures
        spec_queue_of(t.push((key, q)), k2) == spec_queue_of(t, k2),
    decreases t.len(),
{
    if t.len() == 0 {
        assert(t.push((key, q))[0] == (key, q));
        assert(t.push((key, q)).drop_first() =~= Seq::<(Seq<char>, Seq<i64>)>::empty());
        assert(spec_queue_of(Seq::<(Seq<char>, Seq<i64>)>::empty(), k2) == Seq::<i64>::empty());
        assert(spec_queue_of(t, k2) == Seq::<i64>::empty());
    } else {
        assert(t.push((key, q))[0] == t[0]);
        assert(t.push((key, q)).drop_first() =~= t.drop_first().push((key, q)));
        lemma_queue_of_push_other(t.drop_first(), key, q, k2);
    }
}

proof fn lemma_queue_of_update_own(
    t: Seq<(Seq<char>, Seq<i64>)>,
    key: Seq<char>,
    q: Seq<i64>,
    i: int,
)
    requires
        0 <= i < t.len(),
        t[i].0 == key,
        forall|j: int| 0 <= j < i ==> (#[trigger] t[j]).0 != key,
    ensures
        spec_queue_of(t.update(i, (key, q)), key) == q,
    decreases i,
{
    if i == 0 {
        assert(t.update(0, (key, q))[0] == (key, q));
    } else {
        assert(t.update(i, (key, q))[0] == t[0]);
        assert(t[0].0 != key);
        assert(t.update(i, (key, q)).drop_first() =~= t.drop_first().update(i - 1, (key, q)));
        assert forall|j: int| 0 <= j < i - 1 implies (#[trigger] t.drop_first()[j]).0 != key by {
            assert(t.drop_first()[j] == t[j + 1]);
        }
        assert(t.drop_first()[i - 1] == t[i]);
        lemma_queue_of_update_own(t.drop_first(), key, q, i - 1);
    }
}

proof fn lemma_queue_of_update_other(
    t: Seq<(Seq<char>, Seq<i64>)>,
    key: Seq<char>,
    q: Seq<i64>,
    i: int,
    k2: Seq<char>,
)
    requires
        0 <= i < t.len(),
        t[i].0 == key,
        k2 != key,
    ensures
        spec_queue_of(t.update(i, (key, q)), k2) == spec_queue_of(t, k2),
    decreases t.len(),
{
    if i == 0 {
        assert(t.update(0, (key, q))[0] == (key, q));
        assert(t.update(0, (key, q)).drop_first() =~= t.drop_first());
    } else {
        assert(t.update(i, (key, q))[0] == t[0]);
        assert(t.update(i, (key, q)).drop_first() =~= t.drop_first().update(i - 1, (key, q)));
        assert(t.drop_first()[i - 1] == t[i]);
        lemma_queue_of_update_other(t.drop_first(), key, q, i - 1, k2);
    }
}

proof fn lemma_table_wf_update(t: Seq<(Seq<char>, Seq<i64>)>, key: Seq<char>, q: Seq<i64>, i: int)
    requires
        0 <= i < t.len(),
        t[i].0 == key,
        spec_table_wf(t),
    ensures
        spec_table_wf(t.update(i, (key, q))),
{
    let t2 = t.update(i, (key, q));
    assert forall|p: int, r: int| 0 <= p < r < t2.len() implies (#[trigger] t2[p]).0 != (
    #[trigger] t2[r]).0 by {
        assert(t[p].0 != t[r].0);
    }
}

} // verus!
