//! Reload intents: the debouncer that holds them back until a process has
//! been quiet for its debounce time.

use vstd::prelude::*;
use crate::parser::ast::TimeSpan;
use crate::parser::validate::{distinct, index_of, lemma_index_of, lemma_index_of_own};
use crate::text::{chars_of, same_chars, string_of};

verus! {

/// The intent to reload `process` because `path` changed.
#[derive(Debug, Clone, PartialEq, Eq)]
pub struct ReloadEvent {
    pub process: String,
    pub path: String,
}

/// The debounce time, in milliseconds, of a process for which none was set.
pub open spec fn default_debounce() -> int {
    500
}

/// What a debouncer knows: for each process with a pending intent, when its
/// last event came (in milliseconds) and for which path; and the debounce
/// time set for each process.
pub struct DebouncerModel {
    pub pending: Map<Seq<char>, (int, Seq<char>)>,
    pub durations: Map<Seq<char>, int>,
}

impl DebouncerModel {
    /// The debounce time of `process`.
    pub open spec fn debounce_of(&self, process: Seq<char>) -> int {
        if self.durations.contains_key(process) {
            self.durations[process]
        } else {
            default_debounce()
        }
    }

    /// After an event for `process` on `path` at the time `now`.
    pub open spec fn record(&self, process: Seq<char>, path: Seq<char>, now: int) -> DebouncerModel {
        DebouncerModel {
            pending: self.pending.insert(process, (now, path)),
            durations: self.durations,
        }
    }

    /// Whether `process` has a pending intent that has waited its debounce
    /// time at the time `now`. An event from after `now` has waited no time.
    pub open spec fn is_due(&self, process: Seq<char>, now: int) -> bool {
        self.pending.contains_key(process) && elapsed(self.pending[process].0, now)
            >= self.debounce_of(process)
    }

    /// After the due intents were taken out at the time `now`.
    pub open spec fn without_due(&self, now: int) -> DebouncerModel {
        DebouncerModel {
            pending: self.pending.remove_keys(Set::new(|p: Seq<char>| self.is_due(p, now))),
            durations: self.durations,
        }
    }
}

/// The time from `at` to `now`; zero where `at` is later.
pub open spec fn elapsed(at: int, now: int) -> int {
    if now >= at {
        now - at
    } else {
        0
    }
}

/// The law of the debouncer. After the last event for `process` came at
/// the time `t` for `path`, the intent of `process` is due at a later time
/// `later` exactly where `later - t` is at least the debounce time of
/// `process`; and the path that is pending is `path`, the most recent one.
pub proof fn lemma_debounce_law(
    m: DebouncerModel,
    process: Seq<char>,
    path: Seq<char>,
    t: int,
    later: int,
)
    ensures
        m.record(process, path, t).is_due(process, later) == (elapsed(t, later) >= m.debounce_of(
            process,
        )),
        later >= t ==> m.record(process, path, t).is_due(process, later) == (later - t
            >= m.debounce_of(process)),
        m.record(process, path, t).pending[process].1 == path,
        m.record(process, path, t).debounce_of(process) == m.debounce_of(process),
{
}

/// A pending intent: the process, the time of its last event, the path.
pub struct Pending {
    pub name: String,
    pub at: u64,
    pub path: String,
}

/// The names of the pending intents.
pub open spec fn pending_names(entries: Seq<Pending>) -> Seq<Seq<char>> {
    Seq::new(entries.len(), |i: int| entries[i].name@)
}

/// The mapping that pending intents with distinct names make.
pub open spec fn pending_map(entries: Seq<Pending>) -> Map<Seq<char>, (int, Seq<char>)> {
    Map::new(
        |p: Seq<char>| index_of(pending_names(entries), p) >= 0,
        |p: Seq<char>|
            (
                entries[index_of(pending_names(entries), p)].at as int,
                entries[index_of(pending_names(entries), p)].path@,
            ),
    )
}

/// The names for which a debounce time was set.
pub open spec fn duration_names(entries: Seq<(String, TimeSpan)>) -> Seq<Seq<char>> {
    Seq::new(entries.len(), |i: int| entries[i].0@)
}

/// The mapping that debounce settings with distinct names make.
pub open spec fn duration_map(entries: Seq<(String, TimeSpan)>) -> Map<Seq<char>, int> {
    Map::new(
        |p: Seq<char>| index_of(duration_names(entries), p) >= 0,
        |p: Seq<char>| entries[index_of(duration_names(entries), p)].1.millis as int,
    )
}

/// Whether the intent `entry` has waited its debounce time at `now`.
pub open spec fn entry_due(m: DebouncerModel, entry: Pending, now: int) -> bool {
    elapsed(entry.at as int, now) >= m.debounce_of(entry.name@)
}

/// The indices among the first `n` intents that are due (`due` set) or not
/// due (`due` clear), ascending.
pub open spec fn picked(e: Seq<Pending>, m: DebouncerModel, now: int, n: int, due: bool) -> Seq<
    int,
>
    decreases n,
{
    if n <= 0 || n > e.len() {
        Seq::empty()
    } else if entry_due(m, e[n - 1], now) == due {
        picked(e, m, now, n - 1, due).push(n - 1)
    } else {
        picked(e, m, now, n - 1, due)
    }
}

proof fn lemma_picked(e: Seq<Pending>, m: DebouncerModel, now: int, n: int, due: bool)
    requires
        0 <= n <= e.len(),
    ensures
        forall|a: int|
            0 <= a < picked(e, m, now, n, due).len() ==> 0 <= (#[trigger] picked(
                e,
                m,
                now,
                n,
                due,
            )[a]) < n && entry_due(m, e[picked(e, m, now, n, due)[a]], now) == due,
        forall|a: int, b: int|
            0 <= a < b < picked(e, m, now, n, due).len() ==> picked(e, m, now, n, due)[a]
                < picked(e, m, now, n, due)[b],
        forall|j: int|
            0 <= j < n && entry_due(m, #[trigger] e[j], now) == due ==> exists|a: int|
                0 <= a < picked(e, m, now, n, due).len() && picked(e, m, now, n, due)[a] == j,
    decreases n,
{
    if n > 0 {
        lemma_picked(e, m, now, n - 1, due);
        let prev = picked(e, m, now, n - 1, due);
        let cur = picked(e, m, now, n, due);
        assert forall|j: int| 0 <= j < n && entry_due(m, #[trigger] e[j], now) == due implies exists|
            a: int,
        |
            0 <= a < cur.len() && cur[a] == j by {
            if j < n - 1 {
                let a = choose|a: int| 0 <= a < prev.len() && prev[a] == j;
                assert(cur[a] == j);
            } else {
                assert(cur[cur.len() - 1] == j);
            }
        }
    }
}

/// The names of the pairs in `r`.
pub open spec fn pair_names(r: Seq<(String, String)>) -> Seq<Seq<char>> {
    Seq::new(r.len(), |i: int| r[i].0@)
}

proof fn lemma_kept(e: Seq<Pending>, keep: Seq<Pending>, m: DebouncerModel, now: int)
    requires
        distinct(pending_names(e)),
        m.pending == pending_map(e),
        keep.len() == picked(e, m, now, e.len() as int, false).len(),
        forall|a: int|
            0 <= a < keep.len() ==> (#[trigger] keep[a]).name@ == e[picked(
                e,
                m,
                now,
                e.len() as int,
                false,
            )[a]].name@ && keep[a].at == e[picked(e, m, now, e.len() as int, false)[a]].at
                && keep[a].path@ == e[picked(e, m, now, e.len() as int, false)[a]].path@,
    ensures
        distinct(pending_names(keep)),
        pending_map(keep) == m.pending.remove_keys(Set::new(|p: Seq<char>| m.is_due(p, now))),
{
    let pk = picked(e, m, now, e.len() as int, false);
    let en = pending_names(e);
    let kn = pending_names(keep);
    lemma_picked(e, m, now, e.len() as int, false);
    assert forall|a: int, b: int| 0 <= a < b < kn.len() implies kn[a] != kn[b] by {
        assert(pk[a] < pk[b]);
        assert(kn[a] == en[pk[a]]);
        assert(kn[b] == en[pk[b]]);
    }
    let rhs = m.pending.remove_keys(Set::new(|p: Seq<char>| m.is_due(p, now)));
    assert forall|p: Seq<char>| pending_map(keep).contains_key(p) == rhs.contains_key(p) by {
        lemma_index_of(kn, p);
        lemma_index_of(en, p);
        let a = index_of(kn, p);
        let j = index_of(en, p);
        if a >= 0 {
            assert(keep[a].name@ == p);
            assert(en[pk[a]] == p);
            lemma_index_of_own(en, pk[a]);
            assert(!entry_due(m, e[pk[a]], now));
        }
        if j >= 0 && !m.is_due(p, now) {
            assert(en[j] == p);
            assert(!entry_due(m, e[j], now));
            let a2 = choose|a2: int| 0 <= a2 < pk.len() && pk[a2] == j;
            assert(kn[a2] == p);
        }
    }
    assert forall|p: Seq<char>| #[trigger] pending_map(keep).contains_key(p) implies pending_map(
        keep,
    )[p] == rhs[p] by {
        lemma_index_of(kn, p);
        let a = index_of(kn, p);
        assert(keep[a].name@ == p);
        assert(en[pk[a]] == p);
        lemma_index_of_own(en, pk[a]);
    }
    assert(pending_map(keep) =~= rhs);
}

proof fn lemma_taken(e: Seq<Pending>, ready: Seq<(String, String)>, m: DebouncerModel, now: int)
    requires
        distinct(pending_names(e)),
        m.pending == pending_map(e),
        ready.len() == picked(e, m, now, e.len() as int, true).len(),
        forall|a: int|
            0 <= a < ready.len() ==> (#[trigger] ready[a]).0@ == e[picked(
                e,
                m,
                now,
                e.len() as int,
                true,
            )[a]].name@ && ready[a].1@ == e[picked(e, m, now, e.len() as int, true)[a]].path@,
    ensures
        distinct(pair_names(ready)),
        forall|a: int|
            0 <= a < ready.len() ==> m.is_due((#[trigger] ready[a]).0@, now) && ready[a].1@
                == m.pending[ready[a].0@].1,
        forall|p: Seq<char>| #[trigger]
            m.is_due(p, now) ==> exists|a: int| 0 <= a < ready.len() && ready[a].0@ == p,
{
    let pd = picked(e, m, now, e.len() as int, true);
    let en = pending_names(e);
    let rn = pair_names(ready);
    lemma_picked(e, m, now, e.len() as int, true);
    assert forall|a: int, b: int| 0 <= a < b < rn.len() implies rn[a] != rn[b] by {
        assert(pd[a] < pd[b]);
        assert(rn[a] == en[pd[a]]);
        assert(rn[b] == en[pd[b]]);
    }
    assert forall|a: int| 0 <= a < ready.len() implies m.is_due((#[trigger] ready[a]).0@, now)
        && ready[a].1@ == m.pending[ready[a].0@].1 by {
        assert(en[pd[a]] == ready[a].0@);
        lemma_index_of_own(en, pd[a]);
        assert(entry_due(m, e[pd[a]], now));
    }
    assert forall|p: Seq<char>| #[trigger] m.is_due(p, now) implies exists|a: int|
        0 <= a < ready.len() && ready[a].0@ == p by {
        lemma_index_of(en, p);
        let j = index_of(en, p);
        assert(en[j] == p);
        assert(entry_due(m, e[j], now));
        let a = choose|a: int| 0 <= a < pd.len() && pd[a] == j;
        assert(ready[a].0@ == p);
    }
}

/// Holds reload intents back until the process has seen no event for its
/// debounce time.
pub struct Debouncer {
    pending: Vec<Pending>,
    debounce_durations: Vec<(String, TimeSpan)>,
}

impl View for Debouncer {
    type V = DebouncerModel;

    closed spec fn view(&self) -> DebouncerModel {
        DebouncerModel {
            pending: pending_map(self.pending@),
            durations: duration_map(self.debounce_durations@),
        }
    }
}

impl Debouncer {
    /// What `new` establishes and every method keeps.
    pub closed spec fn wf(&self) -> bool {
        distinct(pending_names(self.pending@)) && distinct(
            duration_names(self.debounce_durations@),
        )
    }

    /// A debouncer with no intent pending and no debounce time set.
    pub fn new() -> (r: Debouncer)
        ensures
            r.wf(),
            r@.pending == Map::<Seq<char>, (int, Seq<char>)>::empty(),
            r@.durations == Map::<Seq<char>, int>::empty(),
    {
        let r = Debouncer { pending: Vec::new(), debounce_durations: Vec::new() };
        assert(r@.pending =~= Map::<Seq<char>, (int, Seq<char>)>::empty());
        assert(r@.durations =~= Map::<Seq<char>, int>::empty());
        r
    }

    /// Sets the debounce time of `process`.
    pub fn set_debounce(&mut self, process: &str, duration: TimeSpan)
        requires
            old(self).wf(),
        ensures
            final(self).wf(),
            final(self)@.durations == old(self)@.durations.insert(process@, duration.millis as int),
            final(self)@.pending == old(self)@.pending,
    {
        let wanted = chars_of(process);
        let ghost names = duration_names(self.debounce_durations@);
        let mut i: usize = 0;
        while i < self.debounce_durations.len()
            invariant
                i <= self.debounce_durations@.len(),
                *self == *old(self),
                self.wf(),
                names == duration_names(self.debounce_durations@),
                wanted@ == process@,
                forall|j: int| 0 <= j < i ==> #[trigger] names[j] != process@,
            decreases self.debounce_durations@.len() - i,
        {
            let candidate = chars_of(self.debounce_durations[i].0.as_str());
            assert(names[i as int] == candidate@);
            if same_chars(&candidate, &wanted) {
                let name = string_of(&wanted);
                self.debounce_durations.set(i, (name, duration));
                proof {
                    let after = duration_names(self.debounce_durations@);
                    assert(after =~= names);
                    lemma_index_of(names, process@);
                    assert(index_of(names, process@) == i);
                    assert(self@.durations =~= old(self)@.durations.insert(
                        process@,
                        duration.millis as int,
                    )) by {
                        assert forall|p: Seq<char>| #[trigger]
                            self@.durations.contains_key(p) implies self@.durations[p] == old(
                            self,
                        )@.durations.insert(process@, duration.millis as int)[p] by {
                            lemma_index_of(names, p);
                        }
                    }
                }
                return ;
            }
            i += 1;
        }
        let name = string_of(&wanted);
        self.debounce_durations.push((name, duration));
        proof {
            let after = duration_names(self.debounce_durations@);
            assert(after.drop_last() =~= names);
            lemma_index_of(names, process@);
            assert forall|a: int, b: int| 0 <= a < b < after.len() implies after[a] != after[b] by {
                if b < names.len() {
                    assert(names[a] != names[b]);
                } else {
                    assert(names[a] != process@);
                }
            }
            assert(self@.durations =~= old(self)@.durations.insert(
                process@,
                duration.millis as int,
            )) by {
                assert forall|p: Seq<char>| #[trigger]
                    self@.durations.contains_key(p) implies self@.durations[p] == old(
                    self,
                )@.durations.insert(process@, duration.millis as int)[p] by {
                    lemma_index_of(names, p);
                    lemma_index_of(after, p);
                }
            }
        }
    }

    /// Records an event for `process` on `path` at the time `now`: the
    /// intent of `process` now dates from `now` and names `path`.
    pub fn record_event(&mut self, process: &str, path: &str, now: u64)
        requires
            old(self).wf(),
        ensures
            final(self).wf(),
            final(self)@ == old(self)@.record(process@, path@, now as int),
    {
        let wanted = chars_of(process);
        let path_chars = chars_of(path);
        let ghost names = pending_names(self.pending@);
        let mut i: usize = 0;
        while i < self.pending.len()
            invariant
                i <= self.pending@.len(),
                *self == *old(self),
                self.wf(),
                names == pending_names(self.pending@),
                wanted@ == process@,
                path_chars@ == path@,
                forall|j: int| 0 <= j < i ==> #[trigger] names[j] != process@,
            decreases self.pending@.len() - i,
        {
            let candidate = chars_of(self.pending[i].name.as_str());
            assert(names[i as int] == candidate@);
            if same_chars(&candidate, &wanted) {
                let entry = Pending {
                    name: string_of(&wanted),
                    at: now,
                    path: string_of(&path_chars),
                };
                self.pending.set(i, entry);
                proof {
                    let after = pending_names(self.pending@);
                    assert(after =~= names);
                    lemma_index_of(names, process@);
                    assert(index_of(names, process@) == i);
                    assert(self@.pending =~= old(self)@.pending.insert(
                        process@,
                        (now as int, path@),
                    )) by {
                        assert forall|p: Seq<char>| #[trigger]
                            self@.pending.contains_key(p) implies self@.pending[p] == old(
                            self,
                        )@.pending.insert(process@, (now as int, path@))[p] by {
                            lemma_index_of(names, p);
                        }
                    }
                }
                return ;
            }
            i += 1;
        }
        let entry = Pending { name: string_of(&wanted), at: now, path: string_of(&path_chars) };
        self.pending.push(entry);
        proof {
            let after = pending_names(self.pending@);
            assert(after.drop_last() =~= names);
            lemma_index_of(names, process@);
            assert forall|a: int, b: int| 0 <= a < b < after.len() implies after[a] != after[b] by {
                if b < names.len() {
                    assert(names[a] != names[b]);
                } else {
                    assert(names[a] != process@);
                }
            }
            assert(self@.pending =~= old(self)@.pending.insert(process@, (now as int, path@))) by {
                assert forall|p: Seq<char>| #[trigger]
                    self@.pending.contains_key(p) implies self@.pending[p] == old(
                    self,
                )@.pending.insert(process@, (now as int, path@))[p] by {
                    lemma_index_of(names, p);
                    lemma_index_of(after, p);
                }
            }
        }
    }

    /// The debounce time of the process called `name`.
    fn debounce_for(&self, name: &Vec<char>) -> (r: u128)
        requires
            self.wf(),
        ensures
            r == self@.debounce_of(name@),
    {
        let ghost names = duration_names(self.debounce_durations@);
        let mut i: usize = 0;
        while i < self.debounce_durations.len()
            invariant
                i <= self.debounce_durations@.len(),
                names == duration_names(self.debounce_durations@),
                forall|j: int| 0 <= j < i ==> #[trigger] names[j] != name@,
            decreases self.debounce_durations@.len() - i,
        {
            let candidate = chars_of(self.debounce_durations[i].0.as_str());
            assert(names[i as int] == candidate@);
            if same_chars(&candidate, name) {
                proof {
                    lemma_index_of(names, name@);
                }
                return self.debounce_durations[i].1.millis;
            }
            i += 1;
        }
        proof {
            lemma_index_of(names, name@);
        }
        500
    }

    /// Takes out the intents that have waited their debounce time at `now`.
    /// Gives, for each of them once, the process and the path of its last
    /// event; the others stay pending.
    pub fn get_ready(&mut self, now: u64) -> (r: Vec<(String, String)>)
        requires
            old(self).wf(),
        ensures
            final(self).wf(),
            final(self)@ == old(self)@.without_due(now as int),
            distinct(pair_names(r@)),
            forall|a: int|
                0 <= a < r@.len() ==> old(self)@.is_due((#[trigger] r@[a]).0@, now as int)
                    && r@[a].1@ == old(self)@.pending[r@[a].0@].1,
            forall|p: Seq<char>| #[trigger]
                old(self)@.is_due(p, now as int) ==> exists|a: int|
                    0 <= a < r@.len() && r@[a].0@ == p,
    {
        let ghost e = self.pending@;
        let ghost m = self@;
        let mut keep: Vec<Pending> = Vec::new();
        let mut ready: Vec<(String, String)> = Vec::new();
        let mut i: usize = 0;
        while i < self.pending.len()
            invariant
                i <= self.pending@.len(),
                *self == *old(self),
                self.wf(),
                e == self.pending@,
                m == self@,
                keep@.len() == picked(e, m, now as int, i as int, false).len(),
                forall|a: int|
                    0 <= a < keep@.len() ==> (#[trigger] keep@[a]).name@ == e[picked(
                        e,
                        m,
                        now as int,
                        i as int,
                        false,
                    )[a]].name@ && keep@[a].at == e[picked(e, m, now as int, i as int, false)[a]].at
                        && keep@[a].path@ == e[picked(
                        e,
                        m,
                        now as int,
                        i as int,
                        false,
                    )[a]].path@,
                ready@.len() == picked(e, m, now as int, i as int, true).len(),
                forall|a: int|
                    0 <= a < ready@.len() ==> (#[trigger] ready@[a]).0@ == e[picked(
                        e,
                        m,
                        now as int,
                        i as int,
                        true,
                    )[a]].name@ && ready@[a].1@ == e[picked(
                        e,
                        m,
                        now as int,
                        i as int,
                        true,
                    )[a]].path@,
            decreases self.pending@.len() - i,
        {
            let entry = &self.pending[i];
            let name_chars = chars_of(entry.name.as_str());
            let debounce = self.debounce_for(&name_chars);
            let waited: u64 = if now >= entry.at {
                now - entry.at
            } else {
                0
            };
            let name = entry.name.clone();
            let path = entry.path.clone();
            if waited as u128 >= debounce {
                assert(entry_due(m, e[i as int], now as int));
                ready.push((name, path));
            } else {
                assert(!entry_due(m, e[i as int], now as int));
                keep.push(Pending { name, at: entry.at, path });
            }
            i += 1;
        }
        proof {
            lemma_kept(e, keep@, m, now as int);
            lemma_taken(e, ready@, m, now as int);
        }
        self.pending = keep;
        ready
    }
}

} // verus!
