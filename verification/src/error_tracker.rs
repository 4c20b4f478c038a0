use vstd::prelude::*;
use crate::time::now_millis;

verus! {

/// How many errors of one key within the window recommend shutdown.
pub const ERROR_THRESHOLD: u64 = 5;

/// The sliding window, in milliseconds.
pub const ERROR_WINDOW_MS: u64 = 10000;

/// What class of failure happened: a category and its finer semantics.
#[derive(Debug)]
pub struct ErrorKey {
    pub category: String,
    pub semantics: String,
}

impl Clone for ErrorKey {
    fn clone(&self) -> (r: Self)
        ensures
            r.category@ == self.category@,
            r.semantics@ == self.semantics@,
    {
        ErrorKey { category: self.category.clone(), semantics: self.semantics.clone() }
    }
}

/// Two keys name the same class when both parts match.
pub open spec fn key_eq(a: ErrorKey, b: ErrorKey) -> bool {
    a.category@ == b.category@ && a.semantics@ == b.semantics@
}

impl ErrorKey {
    pub fn new(category: &str, semantics: &str) -> (r: Self)
        ensures
            r.category@ == category@,
            r.semantics@ == semantics@,
    {
        ErrorKey { category: category.to_owned(), semantics: semantics.to_owned() }
    }
}

/// One tracked class: how often it was seen and when its window opened.
pub struct ErrorEntry {
    pub key: ErrorKey,
    pub count: u64,
    pub window_start: u64,
}

/// A key's position among the entries, or -1 when absent.
pub open spec fn find_entry(entries: Seq<ErrorEntry>, key: ErrorKey) -> int
    decreases entries.len(),
{
    if entries.len() == 0 {
        -1
    } else if key_eq(entries[0].key, key) {
        0
    } else {
        let r = find_entry(entries.drop_first(), key);
        if r < 0 {
            -1
        } else {
            r + 1
        }
    }
}

/// Whether some entry carries the key.
pub open spec fn has_entry(entries: Seq<ErrorEntry>, key: ErrorKey) -> bool {
    exists|i: int| 0 <= i < entries.len() && key_eq(entries[i].key, key)
}

pub proof fn lemma_find_entry_properties(entries: Seq<ErrorEntry>, key: ErrorKey)
    ensures
        has_entry(entries, key) <==> 0 <= find_entry(entries, key) < entries.len(),
        !has_entry(entries, key) <==> find_entry(entries, key) == -1,
        0 <= find_entry(entries, key) ==> key_eq(entries[find_entry(entries, key)].key, key),
    decreases entries.len(),
{
    if entries.len() > 0 && !key_eq(entries[0].key, key) {
        lemma_find_entry_properties(entries.drop_first(), key);
        assert forall|i: int|
            0 <= i < entries.len() && key_eq(entries[i].key, key) implies has_entry(
            entries.drop_first(),
            key,
        ) by {
            assert(key_eq(entries.drop_first()[i - 1].key, key));
        }
    }
}

/// One recording step: initialize an absent key to (1, now); within the
/// window, raise the count and report whether it reaches the threshold;
/// past the window, reset to (1, now) and report nothing.
pub open spec fn record_spec(entries: Seq<ErrorEntry>, key: ErrorKey, now: u64) -> (
    Seq<ErrorEntry>,
    bool,
) {
    let i = find_entry(entries, key);
    if i < 0 {
        (
            entries.push(ErrorEntry { key, count: 1, window_start: now }),
            1 >= ERROR_THRESHOLD,
        )
    } else {
        let e = entries[i];
        if now >= e.window_start && now - e.window_start < ERROR_WINDOW_MS {
            let c = if e.count < u64::MAX {
                (e.count + 1) as u64
            } else {
                e.count
            };
            (
                entries.update(i, ErrorEntry { key: e.key, count: c, window_start: e.window_start }),
                c >= ERROR_THRESHOLD,
            )
        } else {
            (entries.update(i, ErrorEntry { key: e.key, count: 1, window_start: now }), false)
        }
    }
}

/// Counts errors by class in a sliding window and recommends shutdown when
/// a class crosses the threshold within the window.
pub struct ErrorTracker {
    pub entries: Vec<ErrorEntry>,
}

impl ErrorTracker {
    /// Tracked classes are distinct.
    pub open spec fn wf(self) -> bool {
        forall|i: int, j: int|
            0 <= i < j < self.entries@.len() ==> !key_eq(
                self.entries@[i].key,
                self.entries@[j].key,
            )
    }

    pub fn new() -> (r: Self)
        ensures
            r.wf(),
            r.entries@.len() == 0,
    {
        ErrorTracker { entries: Vec::new() }
    }

    /// Record one error of a class at instant `now` and report whether the
    /// class crossed the threshold within its window.
    pub fn record_error_at(&mut self, key: ErrorKey, now: u64) -> (r: bool)
        requires
            old(self).wf(),
        ensures
            final(self).wf(),
            (final(self).entries@, r) == record_spec(old(self).entries@, key, now),
    {
        proof {
            lemma_find_entry_properties(old(self).entries@, key);
        }
        let mut i: usize = 0;
        while i < self.entries.len()
            invariant
                *self == *old(self),
                old(self).wf(),
                i <= self.entries@.len(),
                forall|j: int| 0 <= j < i ==> !key_eq(self.entries@[j].key, key),
            decreases self.entries@.len() - i,
        {
            let hit = self.entries[i].key.category.eq(&key.category)
                && self.entries[i].key.semantics.eq(&key.semantics);
            if hit {
                proof {
                    lemma_find_entry_prefix(self.entries@, key, i as int);
                }
                let e = self.entries.remove(i);
                let within = now >= e.window_start && now - e.window_start < ERROR_WINDOW_MS;
                if within {
                    let c = if e.count < u64::MAX {
                        e.count + 1
                    } else {
                        e.count
                    };
                    self.entries.insert(
                        i,
                        ErrorEntry { key: e.key, count: c, window_start: e.window_start },
                    );
                    proof {
                        assert(self.entries@ =~= record_spec(old(self).entries@, key, now).0);
                        assert forall|a: int, b: int|
                            0 <= a < b < self.entries@.len() implies !key_eq(
                            self.entries@[a].key,
                            self.entries@[b].key,
                        ) by {
                            assert(self.entries@[a].key == old(self).entries@[a].key);
                            assert(self.entries@[b].key == old(self).entries@[b].key);
                            assert(!key_eq(
                                old(self).entries@[a].key,
                                old(self).entries@[b].key,
                            ));
                        }
                    }
                    return c >= ERROR_THRESHOLD;
                } else {
                    self.entries.insert(
                        i,
                        ErrorEntry { key: e.key, count: 1, window_start: now },
                    );
                    proof {
                        assert(self.entries@ =~= record_spec(old(self).entries@, key, now).0);
                        assert forall|a: int, b: int|
                            0 <= a < b < self.entries@.len() implies !key_eq(
                            self.entries@[a].key,
                            self.entries@[b].key,
                        ) by {
                            assert(self.entries@[a].key == old(self).entries@[a].key);
                            assert(self.entries@[b].key == old(self).entries@[b].key);
                            assert(!key_eq(
                                old(self).entries@[a].key,
                                old(self).entries@[b].key,
                            ));
                        }
                    }
                    return false;
                }
            }
            i = i + 1;
        }
        self.entries.push(ErrorEntry { key, count: 1, window_start: now });
        proof {
            assert(self.entries@ =~= record_spec(old(self).entries@, key, now).0);
            assert forall|a: int, b: int|
                0 <= a < b < self.entries@.len() implies !key_eq(
                self.entries@[a].key,
                self.entries@[b].key,
            ) by {
                if b < self.entries@.len() - 1 {
                    assert(self.entries@[a] == old(self).entries@[a]);
                    assert(self.entries@[b] == old(self).entries@[b]);
                } else {
                    assert(self.entries@[a] == old(self).entries@[a]);
                    assert(!has_entry(old(self).entries@, key));
                    assert(key_eq(self.entries@[a].key, self.entries@[a].key));
                    if key_eq(self.entries@[a].key, key) {
                        assert(key_eq(old(self).entries@[a].key, key));
                        assert(has_entry(old(self).entries@, key));
                    }
                }
            }
        }
        1 >= ERROR_THRESHOLD
    }

    /// Record one error of a class against the wall clock.
    pub fn record_error(&mut self, key: ErrorKey) -> (r: bool)
        requires
            old(self).wf(),
        ensures
            final(self).wf(),
            exists|t: u64| (final(self).entries@, r) == record_spec(old(self).entries@, key, t),
    {
        let now = now_millis();
        self.record_error_at(key, now)
    }

    /// Forget every tracked class.
    pub fn clear(&mut self)
        ensures
            final(self).wf(),
            final(self).entries@.len() == 0,
    {
        self.entries.clear();
    }

    /// Every tracked class with its count and window start.
    pub fn get_stats(&self) -> (r: Vec<(ErrorKey, u64, u64)>)
        ensures
            r@.len() == self.entries@.len(),
            forall|i: int|
                0 <= i < r@.len() ==> key_eq((#[trigger] r@[i]).0, self.entries@[i].key)
                    && r@[i].1 == self.entries@[i].count && r@[i].2
                    == self.entries@[i].window_start,
    {
        let mut out: Vec<(ErrorKey, u64, u64)> = Vec::new();
        let mut i: usize = 0;
        while i < self.entries.len()
            invariant
                i <= self.entries@.len(),
                out@.len() == i,
                forall|j: int|
                    0 <= j < i ==> key_eq((#[trigger] out@[j]).0, self.entries@[j].key)
                        && out@[j].1 == self.entries@[j].count && out@[j].2
                        == self.entries@[j].window_start,
            decreases self.entries@.len() - i,
        {
            let e = &self.entries[i];
            out.push((e.key.clone(), e.count, e.window_start));
            i = i + 1;
        }
        out
    }
}

proof fn lemma_find_entry_prefix(entries: Seq<ErrorEntry>, key: ErrorKey, i: int)
    requires
        0 <= i < entries.len(),
        key_eq(entries[i].key, key),
        forall|j: int| 0 <= j < i ==> !key_eq(entries[j].key, key),
    ensures
        find_entry(entries, key) == i,
    decreases i,
{
    if i > 0 {
        lemma_find_entry_prefix(entries.drop_first(), key, i - 1);
    }
}

/// Replay a run of recordings of one key, collecting each call's verdict.
pub open spec fn run_tracker(key: ErrorKey, times: Seq<u64>) -> (Seq<ErrorEntry>, Seq<bool>)
    decreases times.len(),
{
    if times.len() == 0 {
        (Seq::empty(), Seq::empty())
    } else {
        let prior = run_tracker(key, times.drop_last());
        let step = record_spec(prior.0, key, times.last());
        (step.0, prior.1.push(step.1))
    }
}

/// The tracker's threshold law: recording one class `k` times, all within
/// the window of the first recording and in order, the `i`-th call reports
/// shutdown exactly when `i` reaches the threshold; the count afterwards is
/// the number of recordings.
pub proof fn lemma_error_threshold(key: ErrorKey, times: Seq<u64>)
    requires
        1 <= times.len() < u64::MAX,
        forall|i: int| 0 <= i < times.len() ==> times[0] <= #[trigger] times[i],
        forall|i: int| 0 <= i < times.len() ==> #[trigger] times[i] < times[0] + ERROR_WINDOW_MS,
    ensures
        run_tracker(key, times).0 =~= seq![
            ErrorEntry { key, count: times.len() as u64, window_start: times[0] },
        ],
        run_tracker(key, times).1.len() == times.len(),
        forall|i: int| 0 <= i < times.len() ==> (#[trigger] run_tracker(key, times).1[i] == (i + 1
            >= ERROR_THRESHOLD)),
    decreases times.len(),
{
    if times.len() == 1 {
        assert(times.drop_last().len() == 0);
        assert(run_tracker(key, times.drop_last()) == (
            Seq::<ErrorEntry>::empty(),
            Seq::<bool>::empty(),
        ));
        assert(find_entry(Seq::<ErrorEntry>::empty(), key) == -1);
        assert(times.last() == times[0]);
        assert(run_tracker(key, times).0 =~= seq![
            ErrorEntry { key, count: 1u64, window_start: times[0] },
        ]);
    } else {
        let prefix = times.drop_last();
        assert(prefix[0] == times[0]);
        assert forall|i: int| 0 <= i < prefix.len() implies prefix[0] <= #[trigger] prefix[i]
            && prefix[i] < prefix[0] + ERROR_WINDOW_MS by {
            assert(prefix[i] == times[i]);
        }
        lemma_error_threshold(key, prefix);
        let prior = run_tracker(key, prefix);
        let e0 = ErrorEntry { key, count: prefix.len() as u64, window_start: times[0] };
        assert(prior.0 =~= seq![e0]);
        assert(key_eq(e0.key, key));
        assert(find_entry(prior.0, key) == 0);
        assert(times.last() >= times[0] && times.last() - times[0] < ERROR_WINDOW_MS);
        assert(run_tracker(key, times).0 =~= seq![
            ErrorEntry { key, count: times.len() as u64, window_start: times[0] },
        ]);
        assert forall|i: int| 0 <= i < times.len() implies (#[trigger] run_tracker(
            key,
            times,
        ).1[i] == (i + 1 >= ERROR_THRESHOLD)) by {
            if i < times.len() - 1 {
                assert(run_tracker(key, times).1[i] == prior.1[i]);
            }
        }
    }
}

/// The tracker's reset law: once the window has fully passed, the next
/// recording starts a fresh window with a count of one and reports nothing.
pub proof fn lemma_error_window_reset(key: ErrorKey, entry: ErrorEntry, now: u64)
    requires
        key_eq(entry.key, key),
        now >= entry.window_start + ERROR_WINDOW_MS,
    ensures
        record_spec(seq![entry], key, now).0 =~= seq![
            ErrorEntry { key: entry.key, count: 1u64, window_start: now },
        ],
        record_spec(seq![entry], key, now).1 == false,
{
    assert(find_entry(seq![entry], key) == 0);
}

} // verus!
