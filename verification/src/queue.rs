//! The wallpaper queue: a staging table of fetched candidates keyed by id.
//! At most one row is stored per id. Refill inserts newly fetched
//! candidates with insert-or-ignore semantics, selection picks the most
//! recent not-yet-shown row of a source, applying a wallpaper flips its
//! row's flag and refreshes its timestamp, and purging drops every row of
//! a removed source.

use vstd::prelude::*;

use vstd::multiset::Multiset;

use crate::candidate::Candidate;
use crate::keys::{key_of_plugin, key_belongs_to, str_eq};

verus! {

/// Some row carries this id.
pub open spec fn contains_id(rows: Seq<Candidate>, id: Seq<char>) -> bool {
    exists|i: int| 0 <= i < rows.len() && (#[trigger] rows[i]).id@ == id
}

/// No two rows share an id: the queue's uniqueness invariant.
pub open spec fn unique_ids(rows: Seq<Candidate>) -> bool {
    forall|i: int, j: int|
        0 <= i < j < rows.len() ==> (#[trigger] rows[i]).id@ != (#[trigger] rows[j]).id@
}

/// A row the selector may pick for `source`: it belongs to the source and
/// has not been shown yet.
pub open spec fn eligible(c: Candidate, source: Seq<char>) -> bool {
    c.source@ == source && !c.was_set
}

/// One insert-or-ignore step: a candidate whose id is already present is
/// dropped, any other is appended.
pub open spec fn spec_insert(rows: Seq<Candidate>, c: Candidate) -> Seq<Candidate> {
    if contains_id(rows, c.id@) {
        rows
    } else {
        rows.push(c)
    }
}

/// The queue contents after a refill batch: every fetched candidate
/// inserted in order, each ignoring ids already present.
pub open spec fn spec_refill(rows: Seq<Candidate>, fetched: Seq<Candidate>) -> Seq<Candidate>
    decreases fetched.len(),
{
    if fetched.len() == 0 {
        rows
    } else {
        spec_refill(spec_insert(rows, fetched[0]), fetched.drop_first())
    }
}

/// The row after the wallpaper it describes has been applied: shown, and
/// stamped with the time of application.
pub open spec fn applied(c: Candidate, now: i64) -> Candidate {
    Candidate { date: now, was_set: true, ..c }
}

/// The queue contents after purging `source`: the rows of every other
/// source, in order.
pub open spec fn spec_purge(rows: Seq<Candidate>, source: Seq<char>) -> Seq<Candidate>
    decreases rows.len(),
{
    if rows.len() == 0 {
        rows
    } else {
        let rest = spec_purge(rows.drop_last(), source);
        if rows.last().source@ == source {
            rest
        } else {
            rest.push(rows.last())
        }
    }
}

/// The queue contents after purging only the not-yet-shown rows of
/// `source`: shown history and every other source stay.
pub open spec fn spec_purge_unshown(rows: Seq<Candidate>, source: Seq<char>) -> Seq<Candidate>
    decreases rows.len(),
{
    if rows.len() == 0 {
        rows
    } else {
        let rest = spec_purge_unshown(rows.drop_last(), source);
        if rows.last().source@ == source && !rows.last().was_set {
            rest
        } else {
            rest.push(rows.last())
        }
    }
}

/// The ids of the rows belonging to any instance of `plugin`, in queue
/// order; what a plugin is told the host already has.
pub open spec fn ids_for_plugin(rows: Seq<Candidate>, plugin: Seq<char>) -> Seq<Seq<char>>
    decreases rows.len(),
{
    if rows.len() == 0 {
        Seq::empty()
    } else {
        let rest = ids_for_plugin(rows.drop_last(), plugin);
        if key_of_plugin(rows.last().source@, plugin) {
            rest.push(rows.last().id@)
        } else {
            rest
        }
    }
}

/// `c` is one of the stored rows.
pub open spec fn from_rows(rows: Seq<Candidate>, c: Candidate) -> bool {
    exists|i: int| 0 <= i < rows.len() && rows[i] == c
}

/// Row `j` is newer than row `i` for trimming purposes: both are shown
/// rows of the same source, and `j` has the later date, ties going to the
/// later row. For fixed rows this is a strict total order on the shown
/// rows of each source.
pub open spec fn newer(rows: Seq<Candidate>, j: int, i: int) -> bool {
    &&& 0 <= j < rows.len()
    &&& 0 <= i < rows.len()
    &&& j != i
    &&& rows[j].was_set
    &&& rows[i].was_set
    &&& rows[j].source@ == rows[i].source@
    &&& (rows[j].date > rows[i].date || (rows[j].date == rows[i].date && j > i))
}

/// The rows newer than row `i` among the first `k` rows.
pub open spec fn prefix_newer(rows: Seq<Candidate>, i: int, k: int) -> Set<int> {
    Set::new(|j: int| 0 <= j < k && newer(rows, j, i))
}

/// All rows newer than row `i`; its size is row `i`'s distance from the
/// front of its source's history.
pub open spec fn newer_set(rows: Seq<Candidate>, i: int) -> Set<int> {
    Set::new(|j: int| newer(rows, j, i))
}

/// The shown rows of `source`, as a set of row indices.
pub open spec fn shown_rows(rows: Seq<Candidate>, source: Seq<char>) -> Set<int> {
    Set::new(
        |i: int| 0 <= i < rows.len() && rows[i].was_set && rows[i].source@ == source,
    )
}

/// Trim keeps row `i` when it is not shown yet, or when fewer than
/// `retention` shown rows of its source are newer.
pub open spec fn kept_by_trim(rows: Seq<Candidate>, i: int, retention: int) -> bool {
    !rows[i].was_set || newer_set(rows, i).len() < retention
}

/// The first `upto` rows, filtered down to those trim keeps.
pub open spec fn trim_filter(rows: Seq<Candidate>, upto: int, retention: int) -> Seq<Candidate>
    decreases upto,
{
    if upto <= 0 {
        Seq::empty()
    } else {
        let rest = trim_filter(rows, upto - 1, retention);
        if kept_by_trim(rows, upto - 1, retention) {
            rest.push(rows[upto - 1])
        } else {
            rest
        }
    }
}

/// The staging table of fetched wallpaper candidates.
pub struct QueueStore {
    rows: Vec<Candidate>,
}

impl View for QueueStore {
    type V = Seq<Candidate>;

    closed spec fn view(&self) -> Seq<Candidate> {
        self.rows@
    }
}

impl QueueStore {
    /// The queue's invariant: ids are unique.
    pub open spec fn wf(&self) -> bool {
        unique_ids(self@)
    }

    /// An empty queue.
    pub fn new() -> (r: QueueStore)
        ensures
            r@ == Seq::<Candidate>::empty(),
            r.wf(),
    {
        QueueStore { rows: Vec::new() }
    }

    /// The number of stored rows.
    pub fn len(&self) -> (r: usize)
        ensures
            r == self@.len(),
    {
        self.rows.len()
    }

    /// The queue as the shell lists it: every stored row exactly once,
    /// newest first.
    pub fn get_queue(&self) -> (r: Vec<Candidate>)
        ensures
            r@.to_multiset() == self@.to_multiset(),
            forall|i: int, j: int| 0 <= i < j < r@.len() ==> r@[i].date >= r@[j].date,
    {
        let n = self.rows.len();
        let mut rest: Vec<Candidate> = Vec::new();
        let mut i: usize = 0;
        while i < n
            invariant
                0 <= i <= n,
                n == self@.len(),
                rest@ == self@.take(i as int),
            decreases n - i,
        {
            rest.push(self.rows[i].clone());
            proof {
                assert(self@.take(i + 1) =~= self@.take(i as int).push(self@[i as int]));
            }
            i = i + 1;
        }
        proof {
            assert(self@.take(n as int) =~= self@);
        }
        let mut out: Vec<Candidate> = Vec::new();
        proof {
            broadcast use vstd::seq_lib::group_to_multiset_ensures;

            assert(out@.to_multiset() =~= Multiset::<Candidate>::empty());
            assert(out@.to_multiset().add(rest@.to_multiset()) =~= self@.to_multiset());
        }
        while rest.len() > 0
            invariant
                out@.to_multiset().add(rest@.to_multiset()) == self@.to_multiset(),
                forall|i: int, j: int|
                    0 <= i < j < out@.len() ==> (#[trigger] out@[i]).date >= (
                    #[trigger] out@[j]).date,
                forall|i: int, j: int|
                    0 <= i < out@.len() && 0 <= j < rest@.len() ==> (#[trigger] out@[i]).date
                        >= (#[trigger] rest@[j]).date,
            decreases rest@.len(),
        {
            let m_len = rest.len();
            let mut best: usize = 0;
            let mut k: usize = 1;
            while k < m_len
                invariant
                    0 < m_len == rest@.len(),
                    0 <= best < k <= m_len,
                    forall|j: int|
                        0 <= j < k ==> (#[trigger] rest@[j]).date <= rest@[best as int].date,
                decreases m_len - k,
            {
                if rest[k].date > rest[best].date {
                    best = k;
                }
                k = k + 1;
            }
            let ghost prev_rest = rest@;
            let ghost prev_out = out@;
            let picked = rest.remove(best);
            out.push(picked);
            proof {
                broadcast use vstd::seq_lib::group_to_multiset_ensures;

                assert(rest@ =~= prev_rest.remove(best as int));
                assert(out@ =~= prev_out.push(picked));
                assert(out@.to_multiset() =~= prev_out.to_multiset().insert(picked));
                assert(rest@.to_multiset() =~= prev_rest.to_multiset().remove(picked));
                assert(prev_rest.to_multiset().count(picked) > 0) by {
                    assert(prev_rest.contains(picked));
                }
                assert(out@.to_multiset().add(rest@.to_multiset()) =~= prev_out.to_multiset()
                    .add(prev_rest.to_multiset()));
                assert(forall|j: int|
                    0 <= j < rest@.len() ==> (#[trigger] rest@[j]).date <= picked.date) by {
                    assert(forall|j: int|
                        0 <= j < rest@.len() ==> #[trigger] rest@[j] == if j < best as int {
                            prev_rest[j]
                        } else {
                            prev_rest[j + 1]
                        });
                }
            }
        }
        proof {
            assert(rest@.to_multiset() =~= Multiset::<Candidate>::empty());
            assert(out@.to_multiset().add(Multiset::<Candidate>::empty()) =~= out@
                .to_multiset());
        }
        out
    }

    /// Whether a row with this id is stored.
    pub fn has_id(&self, id: &str) -> (r: bool)
        ensures
            r == contains_id(self@, id@),
    {
        let n = self.rows.len();
        let mut i: usize = 0;
        while i < n
            invariant
                0 <= i <= n,
                n == self@.len(),
                forall|j: int| 0 <= j < i ==> (#[trigger] self@[j]).id@ != id@,
            decreases n - i,
        {
            if str_eq(self.rows[i].id.as_str(), id) {
                return true;
            }
            i = i + 1;
        }
        false
    }

    /// Inserts a batch of fetched candidates, ignoring every id already
    /// present (also ids repeated within the batch); reports how many rows
    /// were actually added. A batch is all-or-nothing in the backing
    /// store; on this in-memory table it always completes.
    pub fn refill(&mut self, fetched: &Vec<Candidate>) -> (inserted: usize)
        requires
            old(self).wf(),
        ensures
            final(self)@ == spec_refill(old(self)@, fetched@),
            final(self)@.len() == old(self)@.len() + inserted,
            final(self).wf(),
    {
        let baseline = self.rows.len();
        let n = fetched.len();
        let mut i: usize = 0;
        while i < n
            invariant
                0 <= i <= n,
                n == fetched@.len(),
                self@ == spec_refill(old(self)@, fetched@.take(i as int)),
                self@.len() >= baseline,
                baseline == old(self)@.len(),
                self.wf(),
            decreases n - i,
        {
            proof {
                assert(fetched@.take(i + 1).drop_last() =~= fetched@.take(i as int));
                lemma_refill_snoc(old(self)@, fetched@.take(i as int), fetched@[i as int]);
            }
            let c = &fetched[i];
            if !self.has_id(c.id.as_str()) {
                self.rows.push(c.clone());
            }
            proof {
                assert(fetched@.take(i + 1) =~= fetched@.take(i as int).push(fetched@[i as int]));
            }
            i = i + 1;
        }
        proof {
            assert(fetched@.take(n as int) =~= fetched@);
        }
        self.rows.len() - baseline
    }

    /// The most recent not-yet-shown row of `source`: the first row of
    /// maximal date among the eligible ones, or `None` when the source has
    /// no unshown row left.
    pub fn select_next(&self, source: &str) -> (r: Option<Candidate>)
        ensures
            match r {
                None => forall|j: int|
                    0 <= j < self@.len() ==> !eligible(#[trigger] self@[j], source@),
                Some(c) => exists|i: int|
                    {
                        &&& 0 <= i < self@.len()
                        &&& #[trigger] self@[i] == c
                        &&& eligible(c, source@)
                        &&& forall|j: int|
                            0 <= j < self@.len() && eligible(#[trigger] self@[j], source@)
                                ==> self@[j].date <= c.date
                        &&& forall|j: int|
                            0 <= j < i && eligible(#[trigger] self@[j], source@)
                                ==> self@[j].date < c.date
                    },
            },
    {
        let n = self.rows.len();
        let mut best: Option<usize> = None;
        let mut i: usize = 0;
        while i < n
            invariant
                0 <= i <= n,
                n == self@.len(),
                match best {
                    None => forall|j: int| 0 <= j < i ==> !eligible(#[trigger] self@[j], source@),
                    Some(b) => {
                        &&& 0 <= b < i
                        &&& eligible(self@[b as int], source@)
                        &&& forall|j: int|
                            0 <= j < i && eligible(#[trigger] self@[j], source@)
                                ==> self@[j].date <= self@[b as int].date
                        &&& forall|j: int|
                            0 <= j < b && eligible(#[trigger] self@[j], source@)
                                ==> self@[j].date < self@[b as int].date
                    },
                },
            decreases n - i,
        {
            let row = &self.rows[i];
            if !row.was_set && str_eq(row.source.as_str(), source) {
                match best {
                    None => {
                        best = Some(i);
                    },
                    Some(b) => {
                        if self.rows[b].date < row.date {
                            best = Some(i);
                        }
                    },
                }
            }
            i = i + 1;
        }
        match best {
            None => None,
            Some(b) => Some(self.rows[b].clone()),
        }
    }

    /// Marks the row with this id as shown and refreshes its timestamp to
    /// `now`; reports whether such a row existed. Every other row is
    /// untouched.
    pub fn mark_applied(&mut self, id: &str, now: i64) -> (found: bool)
        requires
            old(self).wf(),
        ensures
            final(self)@.len() == old(self)@.len(),
            forall|j: int|
                0 <= j < final(self)@.len() && (#[trigger] old(self)@[j]).id@ != id@
                    ==> final(self)@[j] == old(self)@[j],
            forall|j: int|
                0 <= j < final(self)@.len() && (#[trigger] old(self)@[j]).id@ == id@
                    ==> final(self)@[j] == applied(old(self)@[j], now),
            found == contains_id(old(self)@, id@),
            final(self).wf(),
    {
        let n = self.rows.len();
        let mut found = false;
        let mut i: usize = 0;
        while i < n
            invariant
                0 <= i <= n,
                n == self@.len(),
                n == old(self)@.len(),
                forall|j: int| i <= j < n ==> #[trigger] self@[j] == old(self)@[j],
                forall|j: int|
                    0 <= j < i && (#[trigger] old(self)@[j]).id@ != id@
                        ==> self@[j] == old(self)@[j],
                forall|j: int|
                    0 <= j < i && (#[trigger] old(self)@[j]).id@ == id@
                        ==> self@[j] == applied(old(self)@[j], now),
                found == exists|j: int| 0 <= j < i && (#[trigger] old(self)@[j]).id@ == id@,
            decreases n - i,
        {
            if str_eq(self.rows[i].id.as_str(), id) {
                let row = &self.rows[i];
                let updated = Candidate {
                    id: row.id.clone(),
                    name: match &row.name {
                        Some(s) => Some(s.clone()),
                        None => None,
                    },
                    data_url: row.data_url.clone(),
                    info_url: match &row.info_url {
                        Some(s) => Some(s.clone()),
                        None => None,
                    },
                    date: now,
                    source: row.source.clone(),
                    was_set: true,
                };
                self.rows.set(i, updated);
                found = true;
            }
            i = i + 1;
        }
        proof {
            assert(forall|i: int, j: int|
                0 <= i < j < self@.len() ==> (#[trigger] self@[i]).id@ != (#[trigger] self@[j]).id@)
                by {
                assert(forall|k: int|
                    0 <= k < self@.len() ==> (#[trigger] self@[k]).id@ == old(self)@[k].id@);
            }
        }
        found
    }

    /// Deletes every row of `source`; reports how many went. Used when a
    /// source instance is removed or overwritten.
    pub fn purge_source(&mut self, source: &str) -> (removed: usize)
        requires
            old(self).wf(),
        ensures
            final(self)@ == spec_purge(old(self)@, source@),
            old(self)@.len() == final(self)@.len() + removed,
            final(self).wf(),
            forall|j: int|
                0 <= j < final(self)@.len() ==> (#[trigger] final(self)@[j]).source@ != source@,
    {
        let n = self.rows.len();
        let mut out: Vec<Candidate> = Vec::new();
        let mut i: usize = 0;
        while i < n
            invariant
                0 <= i <= n,
                n == self@.len(),
                out@ == spec_purge(self@.take(i as int), source@),
                out@.len() <= i,
            decreases n - i,
        {
            proof {
                assert(self@.take(i + 1).drop_last() =~= self@.take(i as int));
                assert(self@.take(i + 1).last() == self@[i as int]);
            }
            let row = &self.rows[i];
            if !str_eq(row.source.as_str(), source) {
                out.push(row.clone());
            }
            i = i + 1;
        }
        proof {
            assert(self@.take(n as int) =~= self@);
            lemma_purge_props(self@, source@);
        }
        let removed = self.rows.len() - out.len();
        self.rows = out;
        removed
    }

    /// Deletes only the not-yet-shown rows of `source`, keeping its shown
    /// history; what an overwritten registration purges, so a re-registered
    /// instance starts from a fresh candidate set without losing history.
    pub fn purge_unshown(&mut self, source: &str) -> (removed: usize)
        requires
            old(self).wf(),
        ensures
            final(self)@ == spec_purge_unshown(old(self)@, source@),
            old(self)@.len() == final(self)@.len() + removed,
            final(self).wf(),
            forall|j: int|
                0 <= j < final(self)@.len()
                    ==> !((#[trigger] final(self)@[j]).source@ == source@ && !final(self)@[
                    j].was_set),
    {
        let n = self.rows.len();
        let mut out: Vec<Candidate> = Vec::new();
        let mut i: usize = 0;
        while i < n
            invariant
                0 <= i <= n,
                n == self@.len(),
                out@ == spec_purge_unshown(self@.take(i as int), source@),
                out@.len() <= i,
            decreases n - i,
        {
            proof {
                assert(self@.take(i + 1).drop_last() =~= self@.take(i as int));
                assert(self@.take(i + 1).last() == self@[i as int]);
            }
            let row = &self.rows[i];
            if row.was_set || !str_eq(row.source.as_str(), source) {
                out.push(row.clone());
            }
            i = i + 1;
        }
        proof {
            assert(self@.take(n as int) =~= self@);
            lemma_purge_unshown_props(self@, source@);
        }
        let removed = self.rows.len() - out.len();
        self.rows = out;
        removed
    }

    /// Trims history: per source, keeps only the `retention` newest shown
    /// rows; rows not yet shown are never removed, whatever their age.
    pub fn trim(&mut self, retention: usize)
        requires
            old(self).wf(),
        ensures
            final(self)@ == trim_filter(old(self)@, old(self)@.len() as int, retention as int),
            final(self).wf(),
            forall|i: int|
                0 <= i < old(self)@.len() && !(#[trigger] old(self)@[i]).was_set
                    ==> contains_id(final(self)@, old(self)@[i].id@),
            forall|i: int|
                0 <= i < old(self)@.len()
                    ==> (contains_id(final(self)@, (#[trigger] old(self)@[i]).id@)
                        <==> kept_by_trim(old(self)@, i, retention as int)),
            forall|j: int|
                0 <= j < final(self)@.len() ==> from_rows(old(self)@, #[trigger] final(self)@[j]),
            forall|s: Seq<char>| (#[trigger] shown_rows(final(self)@, s)).len() <= retention,
    {
        let n = self.rows.len();
        let mut out: Vec<Candidate> = Vec::new();
        let mut i: usize = 0;
        while i < n
            invariant
                0 <= i <= n,
                n == self@.len(),
                self@ == old(self)@,
                out@ == trim_filter(self@, i as int, retention as int),
            decreases n - i,
        {
            let mut cnt: usize = 0;
            let mut k: usize = 0;
            proof {
                assert(prefix_newer(self@, i as int, 0) =~= Set::<int>::empty());
            }
            while k < n
                invariant
                    0 <= k <= n,
                    i < n,
                    n == self@.len(),
                    self@ == old(self)@,
                    cnt <= k,
                    cnt == prefix_newer(self@, i as int, k as int).len(),
                    prefix_newer(self@, i as int, k as int).finite(),
                decreases n - k,
            {
                let ghost pk = prefix_newer(self@, i as int, k as int);
                let row_i = &self.rows[i];
                let row_k = &self.rows[k];
                let is_newer = k != i && row_k.was_set && row_i.was_set
                    && str_eq(row_k.source.as_str(), row_i.source.as_str())
                    && (row_k.date > row_i.date || (row_k.date == row_i.date && k > i));
                proof {
                    assert(is_newer == newer(self@, k as int, i as int));
                    if is_newer {
                        assert(prefix_newer(self@, i as int, k + 1) =~= pk.insert(k as int));
                        assert(!pk.contains(k as int));
                    } else {
                        assert(prefix_newer(self@, i as int, k + 1) =~= pk);
                    }
                }
                if is_newer {
                    cnt = cnt + 1;
                }
                k = k + 1;
            }
            proof {
                assert(prefix_newer(self@, i as int, n as int) =~= newer_set(self@, i as int));
            }
            let row = &self.rows[i];
            if !row.was_set || cnt < retention {
                out.push(row.clone());
            }
            i = i + 1;
        }
        proof {
            let rows = self@;
            let ret = retention as int;
            let tf = trim_filter(rows, rows.len() as int, ret);
            lemma_trim_wf(rows, rows.len() as int, ret);
            assert forall|i: int|
                0 <= i < rows.len() && kept_by_trim(rows, i, ret)
                    implies contains_id(tf, (#[trigger] rows[i]).id@) by {
                lemma_trim_keeps(rows, rows.len() as int, ret, i);
            }
            assert forall|i: int|
                0 <= i < rows.len() && contains_id(tf, (#[trigger] rows[i]).id@)
                    implies kept_by_trim(rows, i, ret) by {
                let j = choose|j: int| 0 <= j < tf.len() && (#[trigger] tf[j]).id@ == rows[i].id@;
                lemma_trim_map(rows, rows.len() as int, ret, j);
                let w = choose|w: int|
                    0 <= w < rows.len() && rows[w] == tf[j] && kept_by_trim(rows, w, ret);
                assert(rows[w].id@ == rows[i].id@);
                assert(w == i);
            }
            assert forall|j: int|
                0 <= j < tf.len() implies from_rows(rows, #[trigger] tf[j]) by {
                lemma_trim_map(rows, rows.len() as int, ret, j);
                let w = choose|w: int|
                    0 <= w < rows.len() && rows[w] == tf[j] && kept_by_trim(rows, w, ret);
                assert(rows[w] == tf[j]);
            }
            assert forall|s: Seq<char>|
                (#[trigger] shown_rows(tf, s)).len() <= retention by {
                lemma_trim_bound(rows, ret, s);
            }
        }
        self.rows = out;
    }

    /// The ids of every stored row belonging to any instance of `plugin`;
    /// handed to that plugin so it can skip wallpapers the host already
    /// holds.
    pub fn get_ids_from_source(&self, plugin: &str) -> (r: Vec<String>)
        ensures
            r.deep_view() == ids_for_plugin(self@, plugin@),
    {
        let n = self.rows.len();
        let mut out: Vec<String> = Vec::new();
        let mut i: usize = 0;
        while i < n
            invariant
                0 <= i <= n,
                n == self@.len(),
                out.deep_view() == ids_for_plugin(self@.take(i as int), plugin@),
            decreases n - i,
        {
            proof {
                assert(self@.take(i + 1).drop_last() =~= self@.take(i as int));
                assert(self@.take(i + 1).last() == self@[i as int]);
            }
            let row = &self.rows[i];
            if key_belongs_to(row.source.as_str(), plugin) {
                let ghost prev = out.deep_view();
                out.push(row.id.clone());
                proof {
                    assert(out.deep_view() =~= prev.push(self@[i as int].id@));
                }
            }
            i = i + 1;
        }
        proof {
            assert(self@.take(n as int) =~= self@);
        }
        out
    }
}

/// Every trimmed-queue row is a stored row that trim decided to keep.
pub proof fn lemma_trim_map(rows: Seq<Candidate>, upto: int, retention: int, j: int)
    requires
        0 <= upto <= rows.len(),
        0 <= j < trim_filter(rows, upto, retention).len(),
    ensures
        exists|i: int|
            0 <= i < upto
                && rows[i] == (#[trigger] trim_filter(rows, upto, retention)[j])
                && kept_by_trim(rows, i, retention),
    decreases upto,
{
    let full = trim_filter(rows, upto, retention);
    let rest = trim_filter(rows, upto - 1, retention);
    if j < rest.len() {
        lemma_trim_map(rows, upto - 1, retention, j);
        assert(full[j] == rest[j]);
        let w = choose|i: int|
            0 <= i < upto - 1 && rows[i] == rest[j] && kept_by_trim(rows, i, retention);
        assert(0 <= w < upto && rows[w] == full[j] && kept_by_trim(rows, w, retention));
    } else {
        assert(kept_by_trim(rows, upto - 1, retention));
        assert(full[j] == rows[upto - 1]);
    }
}

/// Every stored row that trim decided to keep is still present.
pub proof fn lemma_trim_keeps(rows: Seq<Candidate>, upto: int, retention: int, i: int)
    requires
        0 <= upto <= rows.len(),
        0 <= i < upto,
        kept_by_trim(rows, i, retention),
    ensures
        contains_id(trim_filter(rows, upto, retention), rows[i].id@),
    decreases upto,
{
    let full = trim_filter(rows, upto, retention);
    let rest = trim_filter(rows, upto - 1, retention);
    if i < upto - 1 {
        lemma_trim_keeps(rows, upto - 1, retention, i);
        let w = choose|w: int| 0 <= w < rest.len() && (#[trigger] rest[w]).id@ == rows[i].id@;
        assert(full[w].id@ == rows[i].id@);
    } else {
        assert(full[full.len() - 1].id@ == rows[i].id@);
    }
}

/// Trimming keeps ids unique.
pub proof fn lemma_trim_wf(rows: Seq<Candidate>, upto: int, retention: int)
    requires
        0 <= upto <= rows.len(),
        unique_ids(rows),
    ensures
        unique_ids(trim_filter(rows, upto, retention)),
    decreases upto,
{
    if upto > 0 {
        lemma_trim_wf(rows, upto - 1, retention);
        let rest = trim_filter(rows, upto - 1, retention);
        let full = trim_filter(rows, upto, retention);
        if kept_by_trim(rows, upto - 1, retention) {
            assert forall|a: int, b: int| 0 <= a < b < full.len() implies
                (#[trigger] full[a]).id@ != (#[trigger] full[b]).id@ by {
                if b < full.len() - 1 {
                    assert(full[a] == rest[a] && full[b] == rest[b]);
                } else {
                    assert(full[a] == rest[a]);
                    assert(full[b] == rows[upto - 1]);
                    lemma_trim_map(rows, upto - 1, retention, a);
                    let w = choose|i: int|
                        0 <= i < upto - 1 && rows[i] == rest[a]
                            && kept_by_trim(rows, i, retention);
                    assert(rows[w].id@ != rows[upto - 1].id@);
                }
            }
        }
    }
}

/// The set of rows newer than a row is finite and no larger than the
/// queue.
pub proof fn lemma_newer_set_finite(rows: Seq<Candidate>, i: int)
    ensures
        newer_set(rows, i).finite(),
        newer_set(rows, i).len() <= rows.len(),
{
    vstd::set_lib::lemma_int_range(0, rows.len() as int);
    vstd::set_lib::lemma_len_subset(
        newer_set(rows, i),
        vstd::set_lib::set_int_range(0, rows.len() as int),
    );
}

/// Ranks respect the order: a strictly newer row has strictly fewer rows
/// newer than it.
pub proof fn lemma_rank_strict(rows: Seq<Candidate>, j: int, i: int)
    requires
        newer(rows, j, i),
    ensures
        newer_set(rows, j).len() < newer_set(rows, i).len(),
{
    let nj = newer_set(rows, j);
    let ni = newer_set(rows, i);
    lemma_newer_set_finite(rows, j);
    lemma_newer_set_finite(rows, i);
    assert(nj.insert(j).subset_of(ni)) by {
        assert forall|k: int| nj.insert(j).contains(k) implies ni.contains(k) by {
            assert(k == j || newer(rows, k, j));
        }
    }
    assert(!nj.contains(j));
    vstd::set_lib::lemma_len_subset(nj.insert(j), ni);
}

/// The retention bound itself: after trimming a duplicate-free queue, no
/// source has more than `retention` shown rows left.
pub proof fn lemma_trim_bound(rows: Seq<Candidate>, retention: int, s: Seq<char>)
    requires
        unique_ids(rows),
        retention >= 0,
    ensures
        shown_rows(trim_filter(rows, rows.len() as int, retention), s).len() <= retention,
{
    let tf = trim_filter(rows, rows.len() as int, retention);
    lemma_trim_wf(rows, rows.len() as int, retention);
    let shown = shown_rows(tf, s);
    vstd::set_lib::lemma_int_range(0, tf.len() as int);
    vstd::set_lib::lemma_len_subset(shown, vstd::set_lib::set_int_range(0, tf.len() as int));
    let pick = |j: int|
        choose|i: int|
            0 <= i < rows.len() && rows[i] == tf[j] && kept_by_trim(rows, i, retention);
    let rank = |j: int| newer_set(rows, pick(j)).len() as int;
    assert forall|j1: int, j2: int|
        shown.contains(j1) && shown.contains(j2) && rank(j1) == rank(j2)
            implies j1 == j2 by {
        if j1 != j2 {
            lemma_trim_map(rows, rows.len() as int, retention, j1);
            lemma_trim_map(rows, rows.len() as int, retention, j2);
            let i1 = pick(j1);
            let i2 = pick(j2);
            assert(0 <= i1 < rows.len() && rows[i1] == tf[j1]
                && kept_by_trim(rows, i1, retention));
            assert(0 <= i2 < rows.len() && rows[i2] == tf[j2]
                && kept_by_trim(rows, i2, retention));
            assert(tf[j1].id@ != tf[j2].id@);
            assert(i1 != i2);
            assert(newer(rows, i1, i2) || newer(rows, i2, i1));
            if newer(rows, i1, i2) {
                lemma_rank_strict(rows, i1, i2);
            } else {
                lemma_rank_strict(rows, i2, i1);
            }
        }
    }
    assert(vstd::relations::injective_on(rank, shown));
    vstd::set_lib::lemma_map_size(shown, shown.map(rank), rank);
    assert(shown.map(rank).subset_of(vstd::set_lib::set_int_range(0, retention))) by {
        assert forall|v: int| shown.map(rank).contains(v) implies 0 <= v < retention by {
            let j = choose|j: int| shown.contains(j) && rank(j) == v;
            lemma_trim_map(rows, rows.len() as int, retention, j);
            let i = pick(j);
            assert(0 <= i < rows.len() && rows[i] == tf[j]
                && kept_by_trim(rows, i, retention));
            assert(rows[i].was_set);
        }
    }
    vstd::set_lib::lemma_int_range(0, retention);
    vstd::set_lib::lemma_len_subset(shown.map(rank), vstd::set_lib::set_int_range(0, retention));
}

/// An applied row is out of the running: marking a wallpaper as shown
/// makes its row ineligible for every future selection until it is
/// deleted, whatever source is asked for.
pub proof fn lemma_applied_not_eligible(c: Candidate, now: i64, source: Seq<char>)
    ensures
        !eligible(applied(c, now), source),
{
}

/// Appending one candidate to a refill batch is one more insert step.
pub proof fn lemma_refill_snoc(rows: Seq<Candidate>, fetched: Seq<Candidate>, c: Candidate)
    ensures
        spec_refill(rows, fetched.push(c)) == spec_insert(spec_refill(rows, fetched), c),
    decreases fetched.len(),
{
    let s = fetched.push(c);
    if fetched.len() == 0 {
        assert(s[0] == c);
        assert(s.drop_first() =~= Seq::<Candidate>::empty());
        assert(spec_refill(rows, s) == spec_refill(spec_insert(rows, c), s.drop_first()));
        assert(spec_refill(spec_insert(rows, c), s.drop_first()) == spec_insert(rows, c));
        assert(spec_refill(rows, fetched) == rows);
    } else {
        assert(s[0] == fetched[0]);
        assert(s.drop_first() =~= fetched.drop_first().push(c));
        lemma_refill_snoc(spec_insert(rows, fetched[0]), fetched.drop_first(), c);
        assert(spec_refill(rows, s) == spec_refill(spec_insert(rows, fetched[0]), s.drop_first()));
    }
}

/// Refilling never loses an id that was already present.
pub proof fn lemma_refill_keeps_ids(rows: Seq<Candidate>, fetched: Seq<Candidate>, id: Seq<char>)
    requires
        contains_id(rows, id),
    ensures
        contains_id(spec_refill(rows, fetched), id),
    decreases fetched.len(),
{
    if fetched.len() > 0 {
        let next = spec_insert(rows, fetched[0]);
        if !contains_id(rows, fetched[0].id@) {
            let w = choose|i: int| 0 <= i < rows.len() && (#[trigger] rows[i]).id@ == id;
            assert(next[w].id@ == id);
        }
        lemma_refill_keeps_ids(next, fetched.drop_first(), id);
    }
}

/// After a refill, the id of every fetched candidate is present.
pub proof fn lemma_refill_covers(rows: Seq<Candidate>, fetched: Seq<Candidate>)
    ensures
        forall|k: int|
            0 <= k < fetched.len()
                ==> contains_id(spec_refill(rows, fetched), (#[trigger] fetched[k]).id@),
    decreases fetched.len(),
{
    if fetched.len() > 0 {
        let next = spec_insert(rows, fetched[0]);
        assert(contains_id(next, fetched[0].id@)) by {
            if !contains_id(rows, fetched[0].id@) {
                assert(next[rows.len() as int].id@ == fetched[0].id@);
            }
        }
        lemma_refill_keeps_ids(next, fetched.drop_first(), fetched[0].id@);
        lemma_refill_covers(next, fetched.drop_first());
        assert(forall|k: int|
            1 <= k < fetched.len() ==> #[trigger] fetched[k] == fetched.drop_first()[k - 1]);
    }
}

/// A refill whose candidates' ids are all present already changes nothing.
pub proof fn lemma_refill_no_new_ids(rows: Seq<Candidate>, fetched: Seq<Candidate>)
    requires
        forall|k: int| 0 <= k < fetched.len() ==> contains_id(rows, (#[trigger] fetched[k]).id@),
    ensures
        spec_refill(rows, fetched) == rows,
    decreases fetched.len(),
{
    if fetched.len() > 0 {
        assert(spec_insert(rows, fetched[0]) == rows);
        assert(forall|k: int|
            0 <= k < fetched.drop_first().len()
                ==> contains_id(rows, (#[trigger] fetched.drop_first()[k]).id@)) by {
            assert(forall|k: int|
                0 <= k < fetched.len() - 1 ==> #[trigger] fetched.drop_first()[k] == fetched[k + 1]);
        }
        lemma_refill_no_new_ids(rows, fetched.drop_first());
    }
}

/// Refilling twice from an unchanged plugin result set inserts nothing the
/// second time: the queue after the second refill is the queue after the
/// first.
pub proof fn lemma_refill_twice(rows: Seq<Candidate>, fetched: Seq<Candidate>)
    ensures
        spec_refill(spec_refill(rows, fetched), fetched) == spec_refill(rows, fetched),
{
    lemma_refill_covers(rows, fetched);
    lemma_refill_no_new_ids(spec_refill(rows, fetched), fetched);
}

/// What purging the unshown rows keeps: shown rows and other sources, all
/// of them, still without duplicate ids.
pub proof fn lemma_purge_unshown_props(rows: Seq<Candidate>, source: Seq<char>)
    ensures
        spec_purge_unshown(rows, source).len() <= rows.len(),
        forall|j: int|
            0 <= j < spec_purge_unshown(rows, source).len()
                ==> !((#[trigger] spec_purge_unshown(rows, source)[j]).source@ == source
                && !spec_purge_unshown(rows, source)[j].was_set),
        forall|j: int|
            0 <= j < spec_purge_unshown(rows, source).len()
                ==> from_rows(rows, #[trigger] spec_purge_unshown(rows, source)[j]),
        forall|i: int|
            0 <= i < rows.len() && !((#[trigger] rows[i]).source@ == source && !rows[i].was_set)
                ==> contains_id(spec_purge_unshown(rows, source), rows[i].id@),
        unique_ids(rows) ==> unique_ids(spec_purge_unshown(rows, source)),
    decreases rows.len(),
{
    if rows.len() > 0 {
        lemma_purge_unshown_props(rows.drop_last(), source);
        let rest = spec_purge_unshown(rows.drop_last(), source);
        let full = spec_purge_unshown(rows, source);
        assert(forall|i: int|
            0 <= i < rows.len() - 1 ==> #[trigger] rows[i] == rows.drop_last()[i]);
        if !(rows.last().source@ == source && !rows.last().was_set) {
            assert(full == rest.push(rows.last()));
            assert(forall|j: int| 0 <= j < rest.len() ==> #[trigger] full[j] == rest[j]);
            assert(full[full.len() - 1] == rows.last());
            assert forall|j: int| 0 <= j < full.len() implies from_rows(
                rows,
                #[trigger] full[j],
            ) by {
                if j < rest.len() {
                    let w = choose|w: int|
                        0 <= w < rows.drop_last().len() && rows.drop_last()[w] == rest[j];
                    assert(rows[w] == full[j]);
                } else {
                    assert(rows[rows.len() - 1] == full[j]);
                }
            }
            assert forall|i: int|
                0 <= i < rows.len() && !((#[trigger] rows[i]).source@ == source && !rows[i]
                    .was_set) implies contains_id(full, rows[i].id@) by {
                if i < rows.len() - 1 {
                    assert(contains_id(rest, rows.drop_last()[i].id@));
                    let w = choose|k: int|
                        0 <= k < rest.len() && (#[trigger] rest[k]).id@ == rows[i].id@;
                    assert(full[w].id@ == rows[i].id@);
                } else {
                    assert(full[full.len() - 1].id@ == rows[i].id@);
                }
            }
            if unique_ids(rows) {
                assert(unique_ids(rows.drop_last()));
                assert forall|a: int, b: int| 0 <= a < b < full.len() implies
                    (#[trigger] full[a]).id@ != (#[trigger] full[b]).id@ by {
                    if b < full.len() - 1 {
                        assert(full[a] == rest[a] && full[b] == rest[b]);
                    } else {
                        assert(full[b] == rows.last());
                        let w = choose|w: int|
                            0 <= w < rows.drop_last().len() && rows.drop_last()[w] == rest[a];
                        assert(rows[w] == full[a]);
                        assert(rows[w].id@ != rows[rows.len() - 1].id@);
                    }
                }
            }
        } else {
            assert forall|j: int| 0 <= j < full.len() implies from_rows(
                rows,
                #[trigger] full[j],
            ) by {
                let w = choose|w: int|
                    0 <= w < rows.drop_last().len() && rows.drop_last()[w] == rest[j];
                assert(rows[w] == full[j]);
            }
            assert forall|i: int|
                0 <= i < rows.len() && !((#[trigger] rows[i]).source@ == source && !rows[i]
                    .was_set) implies contains_id(full, rows[i].id@) by {
                if i < rows.len() - 1 {
                    assert(contains_id(rest, rows.drop_last()[i].id@));
                }
            }
        }
    }
}

/// What purging keeps: exactly the rows of other sources, still without
/// duplicate ids.
pub proof fn lemma_purge_props(rows: Seq<Candidate>, source: Seq<char>)
    ensures
        spec_purge(rows, source).len() <= rows.len(),
        forall|j: int|
            0 <= j < spec_purge(rows, source).len()
                ==> (#[trigger] spec_purge(rows, source)[j]).source@ != source,
        forall|j: int|
            0 <= j < spec_purge(rows, source).len()
                ==> exists|i: int|
                    0 <= i < rows.len() && rows[i] == (#[trigger] spec_purge(rows, source)[j]),
        forall|i: int|
            0 <= i < rows.len() && (#[trigger] rows[i]).source@ != source
                ==> contains_id(spec_purge(rows, source), rows[i].id@),
        unique_ids(rows) ==> unique_ids(spec_purge(rows, source)),
    decreases rows.len(),
{
    if rows.len() > 0 {
        lemma_purge_props(rows.drop_last(), source);
        let rest = spec_purge(rows.drop_last(), source);
        let full = spec_purge(rows, source);
        assert(forall|i: int|
            0 <= i < rows.len() - 1 ==> #[trigger] rows[i] == rows.drop_last()[i]);
        if rows.last().source@ != source {
            assert(full == rest.push(rows.last()));
            assert(forall|j: int| 0 <= j < rest.len() ==> #[trigger] full[j] == rest[j]);
            assert(full[full.len() - 1] == rows.last());
            assert(forall|i: int|
                0 <= i < rows.len() && (#[trigger] rows[i]).source@ != source
                    ==> contains_id(full, rows[i].id@)) by {
                assert forall|i: int|
                    0 <= i < rows.len() && (#[trigger] rows[i]).source@ != source
                        implies contains_id(full, rows[i].id@) by {
                    if i < rows.len() - 1 {
                        assert(contains_id(rest, rows.drop_last()[i].id@));
                        let w = choose|k: int|
                            0 <= k < rest.len() && (#[trigger] rest[k]).id@ == rows[i].id@;
                        assert(full[w].id@ == rows[i].id@);
                    } else {
                        assert(full[full.len() - 1].id@ == rows[i].id@);
                    }
                }
            }
            if unique_ids(rows) {
                assert(unique_ids(rows.drop_last()));
                assert forall|a: int, b: int| 0 <= a < b < full.len() implies
                    (#[trigger] full[a]).id@ != (#[trigger] full[b]).id@ by {
                    if b < full.len() - 1 {
                        assert(full[a] == rest[a] && full[b] == rest[b]);
                    } else {
                        assert(full[b] == rows.last());
                        let wi = choose|i: int|
                            0 <= i < rows.drop_last().len() && rows.drop_last()[i] == rest[a];
                        assert(rows[wi] == full[a]);
                        assert(rows[wi].id@ != rows[rows.len() - 1].id@);
                    }
                }
            }
        } else {
            assert forall|i: int|
                0 <= i < rows.len() && (#[trigger] rows[i]).source@ != source
                    implies contains_id(full, rows[i].id@) by {
                if i < rows.len() - 1 {
                    assert(contains_id(rest, rows.drop_last()[i].id@));
                }
            }
        }
    }
}

} // verus!
