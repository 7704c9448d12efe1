//! The event queue: a time-priority ordered collection of pending
//! `(Event, time)` entries. Earliest time wins; entries with equal times
//! keep their insertion order, so repeated equal events may coexist.

use crate::event::Event;
use vstd::multiset::Multiset;
use vstd::prelude::*;

verus! {

broadcast use vstd::seq_lib::group_to_multiset_ensures;

/// A pending entry: an event and the logical time at which it is due.
pub type Entry<TArgs> = (Event<TArgs>, u64);

/// Whether the entries of `s` are in ascending time order.
pub open spec fn time_sorted<TArgs>(s: Seq<Entry<TArgs>>) -> bool {
    forall|i: int, j: int| 0 <= i <= j < s.len() ==> s[i].1 <= s[j].1
}

/// Whether no two entries of `s` share a scheduled time.
pub open spec fn distinct_times<TArgs>(s: Seq<Entry<TArgs>>) -> bool {
    forall|i: int, j: int| 0 <= i < j < s.len() ==> s[i].1 != s[j].1
}

/// `s` with `e` inserted after every entry whose time is at most `e`'s
/// time: ascending order is kept and equal times keep arrival order.
pub open spec fn insert_entry<TArgs>(s: Seq<Entry<TArgs>>, e: Entry<TArgs>) -> Seq<Entry<TArgs>>
    decreases s.len(),
{
    if s.len() == 0 {
        seq![e]
    } else if s.last().1 <= e.1 {
        s.push(e)
    } else {
        insert_entry(s.drop_last(), e).push(s.last())
    }
}

/// `s` with every entry of `batch` inserted in order.
pub open spec fn extend_entries<TArgs>(
    s: Seq<Entry<TArgs>>,
    batch: Seq<Entry<TArgs>>,
) -> Seq<Entry<TArgs>>
    decreases batch.len(),
{
    if batch.len() == 0 {
        s
    } else {
        extend_entries(insert_entry(s, batch.first()), batch.drop_first())
    }
}

/// Inserting one entry into a sorted sequence keeps it sorted, grows it by
/// one, and adds exactly that entry to its contents.
proof fn lemma_insert_entry<TArgs>(s: Seq<Entry<TArgs>>, e: Entry<TArgs>)
    requires
        time_sorted(s),
    ensures
        insert_entry(s, e).len() == s.len() + 1,
        time_sorted(insert_entry(s, e)),
        insert_entry(s, e).to_multiset() == s.to_multiset().insert(e),
    decreases s.len(),
{
    if s.len() == 0 {
        assert(insert_entry(s, e) =~= seq![e]);
        assert(seq![e].to_multiset() =~= s.to_multiset().insert(e));
    } else if s.last().1 <= e.1 {
        assert(insert_entry(s, e) == s.push(e));
        assert(forall|i: int| 0 <= i < s.len() ==> s[i].1 <= e.1) by {
            assert(forall|i: int| 0 <= i < s.len() ==> s[i].1 <= s.last().1);
        }
    } else {
        let dl = s.drop_last();
        let last = s.last();
        assert(time_sorted(dl)) by {
            assert(forall|i: int, j: int|
                0 <= i <= j < dl.len() ==> dl[i] == s[i] && dl[j] == s[j]);
        }
        lemma_insert_entry(dl, e);
        let r0 = insert_entry(dl, e);
        let r = r0.push(last);
        assert(insert_entry(s, e) == r);
        // contents
        assert(s =~= dl.push(last));
        assert(s.to_multiset() == dl.to_multiset().insert(last));
        assert(r.to_multiset() == r0.to_multiset().insert(last));
        assert(r.to_multiset() =~= s.to_multiset().insert(e));
        // order: everything in r0 is either e or an entry of dl, and both
        // have times strictly below last's
        assert forall|i: int| 0 <= i < r0.len() implies r0[i].1 <= last.1 by {
            assert(r0.contains(r0[i]));
            assert(r0.to_multiset().count(r0[i]) > 0);
            if r0[i] != e {
                assert(dl.to_multiset().count(r0[i]) > 0);
                assert(dl.contains(r0[i]));
                let k = choose|k: int| 0 <= k < dl.len() && dl[k] == r0[i];
                assert(s[k] == dl[k]);
                assert(s[k].1 <= s.last().1);
            }
        }
        assert forall|i: int, j: int| 0 <= i <= j < r.len() implies r[i].1 <= r[j].1 by {
            if j < r0.len() {
                assert(r[i] == r0[i] && r[j] == r0[j]);
            } else {
                assert(r[j] == last);
                if i < r0.len() {
                    assert(r[i] == r0[i]);
                }
            }
        }
    }
}

/// Where the exec insertion point `idx` lies (every later entry strictly
/// after `e`'s time, the one before not after it), `insert_entry` is the
/// sequence split at `idx` with `e` in the middle.
proof fn lemma_insert_entry_at<TArgs>(s: Seq<Entry<TArgs>>, e: Entry<TArgs>, idx: int)
    requires
        time_sorted(s),
        0 <= idx <= s.len(),
        forall|k: int| idx <= k < s.len() ==> s[k].1 > e.1,
        idx > 0 ==> s[idx - 1].1 <= e.1,
    ensures
        insert_entry(s, e) == s.subrange(0, idx) + seq![e] + s.subrange(idx, s.len() as int),
    decreases s.len(),
{
    let n = s.len() as int;
    if s.len() == 0 {
        assert(insert_entry(s, e) =~= s.subrange(0, idx) + seq![e] + s.subrange(idx, n));
    } else if s.last().1 <= e.1 {
        assert(idx == n);
        assert(s.subrange(0, n) =~= s);
        assert(s.push(e) =~= s.subrange(0, idx) + seq![e] + s.subrange(idx, n));
    } else {
        assert(idx < n);
        let dl = s.drop_last();
        assert(time_sorted(dl)) by {
            assert(forall|i: int, j: int|
                0 <= i <= j < dl.len() ==> dl[i] == s[i] && dl[j] == s[j]);
        }
        lemma_insert_entry_at(dl, e, idx);
        assert(insert_entry(dl, e).push(s.last()) =~= s.subrange(0, idx) + seq![e]
            + s.subrange(idx, n));
    }
}

/// Extending a sorted sequence entry by entry keeps it sorted, grows it by
/// the batch's length, and adds exactly the batch's contents.
pub proof fn lemma_extend_entries<TArgs>(s: Seq<Entry<TArgs>>, batch: Seq<Entry<TArgs>>)
    requires
        time_sorted(s),
    ensures
        extend_entries(s, batch).len() == s.len() + batch.len(),
        time_sorted(extend_entries(s, batch)),
        extend_entries(s, batch).to_multiset() == s.to_multiset().add(batch.to_multiset()),
    decreases batch.len(),
{
    if batch.len() == 0 {
        assert(batch.to_multiset() =~= Multiset::<Entry<TArgs>>::empty());
        assert(s.to_multiset().add(batch.to_multiset()) =~= s.to_multiset());
    } else {
        let b0 = batch.first();
        let rest = batch.drop_first();
        lemma_insert_entry(s, b0);
        lemma_extend_entries(insert_entry(s, b0), rest);
        assert(rest =~= batch.remove(0));
        assert(batch.remove(0).to_multiset() == batch.to_multiset().remove(b0));
        assert(batch.contains(b0));
        assert(batch.to_multiset().count(b0) > 0);
        assert(batch.to_multiset() =~= rest.to_multiset().insert(b0));
        assert(extend_entries(s, batch).to_multiset() =~= s.to_multiset().add(
            batch.to_multiset(),
        ));
    }
}

/// Every entry of an extended sequence came from the sequence or from
/// the batch.
pub proof fn lemma_extend_entries_membership<TArgs>(s: Seq<Entry<TArgs>>, batch: Seq<Entry<TArgs>>)
    requires
        time_sorted(s),
    ensures
        forall|i: int|
            0 <= i < extend_entries(s, batch).len() ==> s.contains(
                #[trigger] extend_entries(s, batch)[i],
            ) || batch.contains(extend_entries(s, batch)[i]),
{
    let r = extend_entries(s, batch);
    lemma_extend_entries(s, batch);
    assert forall|i: int| 0 <= i < r.len() implies s.contains(#[trigger] r[i]) || batch.contains(
        r[i],
    ) by {
        assert(r.contains(r[i]));
        assert(r.to_multiset().count(r[i]) > 0);
        assert(s.to_multiset().count(r[i]) + batch.to_multiset().count(r[i]) > 0);
        if s.to_multiset().count(r[i]) > 0 {
            assert(s.contains(r[i]));
        } else {
            assert(batch.contains(r[i]));
        }
    }
}

/// Two sorted sequences with the same contents are equal outright when no
/// two entries share a time.
pub proof fn lemma_sorted_contents_unique<TArgs>(s1: Seq<Entry<TArgs>>, s2: Seq<Entry<TArgs>>)
    requires
        time_sorted(s1),
        time_sorted(s2),
        distinct_times(s1),
        s1.to_multiset() == s2.to_multiset(),
    ensures
        s1 == s2,
    decreases s1.len(),
{
    assert(s1.len() == s1.to_multiset().len());
    assert(s2.len() == s2.to_multiset().len());
    assert(s1.len() == s2.len());
    if s1.len() == 0 {
        assert(s1 =~= s2);
    } else {
        assert(s1.contains(s1[0]) && s2.contains(s2[0]));
        assert(s1.to_multiset().count(s2[0]) > 0);
        assert(s1.contains(s2[0]));
        let k = choose|k: int| 0 <= k < s1.len() && s1[k] == s2[0];
        assert(s2.to_multiset().count(s1[0]) > 0);
        assert(s2.contains(s1[0]));
        let m = choose|m: int| 0 <= m < s2.len() && s2[m] == s1[0];
        assert(s1[0].1 <= s1[k].1);
        assert(s2[0].1 <= s2[m].1);
        assert(s1[0].1 == s2[0].1);
        assert(k == 0);
        assert(s1[0] == s2[0]);
        let t1 = s1.drop_first();
        let t2 = s2.drop_first();
        assert(t1 =~= s1.remove(0));
        assert(t2 =~= s2.remove(0));
        assert(s1.remove(0).to_multiset() == s1.to_multiset().remove(s1[0]));
        assert(s2.remove(0).to_multiset() == s2.to_multiset().remove(s2[0]));
        assert(t1.to_multiset() == t2.to_multiset());
        assert(time_sorted(t1) && time_sorted(t2) && distinct_times(t1)) by {
            assert(forall|i: int| 0 <= i < t1.len() ==> t1[i] == s1[i + 1]);
            assert(forall|i: int| 0 <= i < t2.len() ==> t2[i] == s2[i + 1]);
        }
        lemma_sorted_contents_unique(t1, t2);
        assert forall|i: int| 0 <= i < s1.len() implies s1[i] == s2[i] by {
            if i > 0 {
                assert(t1[i - 1] == s1[i]);
                assert(t2[i - 1] == s2[i]);
            }
        }
        assert(s1 =~= s2);
    }
}

/// The event queue itself. Entries are kept in ascending time order; among
/// equal times, arrival order is kept. The queue never drops or merges
/// entries: it is a multiset, repeated equal events coexist.
pub struct EventQueue<TArgs> {
    entries: Vec<(Event<TArgs>, u64)>,
}

impl<TArgs> View for EventQueue<TArgs> {
    type V = Seq<Entry<TArgs>>;

    closed spec fn view(&self) -> Seq<Entry<TArgs>> {
        self.entries@
    }
}

impl<TArgs> EventQueue<TArgs> {
    /// Well-formedness: the entries stand in ascending time order. `new`
    /// establishes it and every method keeps it.
    pub open spec fn wf(&self) -> bool {
        time_sorted(self@)
    }

    /// An empty queue.
    pub fn new() -> (r: EventQueue<TArgs>)
        ensures
            r@ == Seq::<Entry<TArgs>>::empty(),
            r.wf(),
    {
        EventQueue { entries: Vec::new() }
    }

    /// How many entries are pending.
    pub fn len(&self) -> (n: usize)
        ensures
            n == self@.len(),
    {
        self.entries.len()
    }

    /// Whether no entry is pending.
    pub fn is_empty(&self) -> (b: bool)
        ensures
            b == (self@.len() == 0),
    {
        self.entries.len() == 0
    }

    /// Inserts one entry at its time-ordered position, after every entry
    /// that is due no later than it.
    fn insert_one(&mut self, e: (Event<TArgs>, u64))
        requires
            old(self).wf(),
        ensures
            final(self)@ == insert_entry(old(self)@, e),
            final(self).wf(),
    {
        let ghost s = self.entries@;
        let t = e.1;
        let mut idx = self.entries.len();
        while idx > 0 && self.entries[idx - 1].1 > t
            invariant
                idx <= self.entries.len(),
                self == old(self),
                forall|k: int| idx <= k < self.entries@.len() ==> self.entries@[k].1 > t,
            decreases idx,
        {
            idx = idx - 1;
        }
        proof {
            lemma_insert_entry_at(s, e, idx as int);
            lemma_insert_entry(s, e);
        }
        self.entries.insert(idx, e);
        proof {
            assert(self.entries@ =~= s.subrange(0, idx as int) + seq![e] + s.subrange(
                idx as int,
                s.len() as int,
            ));
        }
    }

    /// Splices a batch of new entries into the queue, in order.
    pub fn extend(&mut self, batch: Vec<(Event<TArgs>, u64)>)
        requires
            old(self).wf(),
        ensures
            final(self)@ == extend_entries(old(self)@, batch@),
            final(self).wf(),
    {
        let ghost orig = batch@;
        let mut batch = batch;
        while batch.len() > 0
            invariant
                time_sorted(self@),
                extend_entries(self@, batch@) == extend_entries(old(self)@, orig),
            decreases batch.len(),
        {
            let ghost before = self@;
            let ghost b = batch@;
            let e = batch.remove(0);
            proof {
                assert(b.first() == e);
                assert(b.drop_first() =~= batch@);
            }
            self.insert_one(e);
            proof {
                lemma_insert_entry(before, e);
            }
        }
        proof {
            assert(batch@.len() == 0);
        }
    }

    /// Removes and returns the earliest-due entry; its time is at most the
    /// time of every entry that was pending.
    pub fn pop(&mut self) -> (r: Option<(Event<TArgs>, u64)>)
        requires
            old(self).wf(),
        ensures
            final(self).wf(),
            old(self)@.len() == 0 ==> r is None && final(self)@ == old(self)@,
            old(self)@.len() > 0 ==> {
                &&& r == Some(old(self)@[0])
                &&& final(self)@ == old(self)@.drop_first()
                &&& forall|i: int|
                    0 <= i < old(self)@.len() ==> old(self)@[0].1 <= #[trigger] old(self)@[i].1
            },
    {
        if self.entries.len() == 0 {
            None
        } else {
            let ghost s = self.entries@;
            let e = self.entries.remove(0);
            proof {
                assert(self.entries@ =~= s.drop_first());
                assert(forall|i: int|
                    0 <= i < self.entries@.len() ==> self.entries@[i] == s[i + 1]);
            }
            Some(e)
        }
    }
}

} // verus!
