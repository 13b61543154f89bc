//! The durable queue: a capacity-bounded, crash-surviving FIFO of opaque
//! byte records.
//!
//! Each resident record is an entry named by a byte key; the lexicographic
//! order of the keys is the queue's FIFO order. The queue itself holds the
//! entries in key order; the caller that persists entries to storage keeps
//! one file per entry and rebuilds the queue through [`DiskQueue::open`]
//! after a restart, which is what makes the queue crash-surviving.
//!
//! Admission policy: before a new entry is written, the oldest entries are
//! evicted one at a time until the resident total is at or under the byte
//! capacity. The new entry itself is not size-checked, so the resident
//! total can transiently exceed the capacity by up to one record's size
//! until the next admission call evicts again.
use vstd::prelude::*;
use vstd::multiset::Multiset;
use vstd::seq_lib::group_seq_lib_default;
use crate::order::{bytes_eq, bytes_le, lemma_lex_le_total, lemma_lex_le_trans, lex_le};

verus! {

broadcast use group_seq_lib_default, vstd::multiset::group_multiset_axioms,
    vstd::seq_lib::group_to_multiset_ensures;

/// One resident record: its key and its bytes.
pub struct StoredEntry {
    /// The entry's key; lexicographic key order is FIFO order.
    pub name: Vec<u8>,
    /// The record itself, opaque to the queue.
    pub data: Vec<u8>,
}

/// Entries are in FIFO order when their keys ascend lexicographically.
pub open spec fn entries_sorted(s: Seq<StoredEntry>) -> bool {
    forall|i: int, j: int|
        0 <= i <= j < s.len() ==> lex_le(#[trigger] s[i].name@, #[trigger] s[j].name@)
}

/// The resident total: the summed byte length of every entry's record.
pub open spec fn total_size(s: Seq<StoredEntry>) -> int
    decreases s.len(),
{
    if s.len() == 0 {
        0
    } else {
        s[0].data@.len() + total_size(s.drop_first())
    }
}

pub proof fn lemma_total_size_nonneg(s: Seq<StoredEntry>)
    ensures
        total_size(s) >= 0,
    decreases s.len(),
{
    if s.len() > 0 {
        lemma_total_size_nonneg(s.drop_first());
    }
}

pub proof fn lemma_total_size_push(s: Seq<StoredEntry>, e: StoredEntry)
    ensures
        total_size(s.push(e)) == total_size(s) + e.data@.len(),
    decreases s.len(),
{
    let t = s.push(e);
    assert(t.len() == s.len() + 1);
    assert(total_size(t) == t[0].data@.len() + total_size(t.drop_first()));
    if s.len() == 0 {
        assert(t[0] == e);
        assert(t.drop_first() =~= Seq::<StoredEntry>::empty());
        assert(total_size(t.drop_first()) == 0);
    } else {
        assert(t[0] == s[0]);
        assert(t.drop_first() =~= s.drop_first().push(e));
        lemma_total_size_push(s.drop_first(), e);
        assert(total_size(s) == s[0].data@.len() + total_size(s.drop_first()));
    }
}

pub proof fn lemma_total_size_insert(s: Seq<StoredEntry>, i: int, e: StoredEntry)
    requires
        0 <= i <= s.len(),
    ensures
        total_size(s.insert(i, e)) == total_size(s) + e.data@.len(),
    decreases s.len(),
{
    if i == 0 {
        assert(s.insert(0, e).drop_first() =~= s);
    } else {
        assert(s.insert(i, e).drop_first() =~= s.drop_first().insert(i - 1, e));
        lemma_total_size_insert(s.drop_first(), i - 1, e);
    }
}

/// The capacity-bounded, crash-surviving FIFO store of byte records.
pub struct DiskQueue {
    cap_bytes: u64,
    entries: Vec<StoredEntry>,
}

impl View for DiskQueue {
    type V = Seq<StoredEntry>;

    closed spec fn view(&self) -> Seq<StoredEntry> {
        self.entries@
    }
}

impl DiskQueue {
    /// Resident entries ascend in key order.
    pub open spec fn wf(&self) -> bool {
        entries_sorted(self@)
    }

    pub closed spec fn spec_cap(&self) -> u64 {
        self.cap_bytes
    }

    /// Opens the queue over whatever entries storage already holds, in any
    /// order, and resumes with them: reopening after a crash or restart
    /// loses nothing and restores key order.
    pub fn open(existing: Vec<StoredEntry>, cap_bytes: u64) -> (q: DiskQueue)
        ensures
            q.wf(),
            q.spec_cap() == cap_bytes,
            q@.to_multiset() == existing@.to_multiset(),
            q@.len() == existing@.len(),
    {
        let mut rest = existing;
        let mut entries: Vec<StoredEntry> = Vec::new();
        proof {
            assert(entries@.to_multiset().add(rest@.to_multiset()) =~= rest@.to_multiset());
        }
        loop
            invariant
                entries_sorted(entries@),
                entries@.to_multiset().add(rest@.to_multiset()) == existing@.to_multiset(),
                entries@.len() + rest@.len() == existing@.len(),
            ensures
                entries_sorted(entries@),
                rest@.len() == 0,
                entries@.to_multiset().add(rest@.to_multiset()) == existing@.to_multiset(),
                entries@.len() == existing@.len(),
            decreases rest@.len(),
        {
            if rest.len() == 0 {
                break;
            }
            let ghost prev_entries = entries@;
            let ghost prev_rest = rest@;
            let e = rest.remove(0);
            insert_sorted(&mut entries, e);
            proof {
                assert(prev_rest.remove(0) =~= prev_rest.drop_first());
                assert(prev_rest.drop_first().to_multiset().insert(prev_rest[0])
                    =~= prev_rest.to_multiset());
                assert(entries@.to_multiset().add(rest@.to_multiset())
                    =~= existing@.to_multiset());
            }
        }
        proof {
            assert(rest@ =~= Seq::<StoredEntry>::empty());
            assert(rest@.to_multiset() =~= Multiset::<StoredEntry>::empty());
            assert(entries@.to_multiset() =~= existing@.to_multiset());
        }
        DiskQueue { cap_bytes, entries }
    }

    /// The number of resident entries.
    pub fn len(&self) -> (n: usize)
        ensures
            n == self@.len(),
    {
        self.entries.len()
    }

    /// The configured byte capacity.
    pub fn cap_bytes(&self) -> (c: u64)
        ensures
            c == self.spec_cap(),
    {
        self.cap_bytes
    }

    /// The resident total in bytes.
    pub fn total_resident_bytes(&self) -> (t: u128)
        ensures
            t == total_size(self@),
    {
        total_of(&self.entries)
    }

    /// Gives the entries back, in key order, for the caller that mirrors
    /// them to storage.
    pub fn into_entries(self) -> (v: Vec<StoredEntry>)
        ensures
            v@ == self@,
    {
        self.entries
    }

    /// Admits one record: evicts oldest entries while the resident total
    /// exceeds the capacity, then stores the record under the given key.
    /// The evicted entries are returned oldest-first so the caller can
    /// drop them from storage.
    pub fn enqueue(&mut self, name: Vec<u8>, data: Vec<u8>) -> (evicted: Vec<StoredEntry>)
        requires
            old(self).wf(),
        ensures
            final(self).wf(),
            final(self).spec_cap() == old(self).spec_cap(),
            // Eviction takes the oldest entries, in order, before the new
            // record is considered.
            evicted@.len() <= old(self)@.len(),
            evicted@ == old(self)@.take(evicted@.len() as int),
            // Eviction stops as soon as the survivors fit the capacity.
            total_size(old(self)@.skip(evicted@.len() as int)) <= old(self).spec_cap(),
            evicted@.len() > 0 ==> total_size(old(self)@.skip(evicted@.len() as int))
                + evicted@.last().data@.len() > old(self).spec_cap(),
            // The new record is then admitted unconditionally, at its key
            // position among the survivors.
            exists|p: int|
                0 <= p <= old(self)@.len() - evicted@.len() && final(self)@ == #[trigger] old(
                    self,
                )@.skip(evicted@.len() as int).insert(p, (StoredEntry { name, data })),
            final(self)@.to_multiset() == old(self)@.skip(evicted@.len() as int).to_multiset()
                .insert((StoredEntry { name, data })),
            final(self)@.len() == old(self)@.len() - evicted@.len() + 1,
            // The resident total ends at most one record over capacity,
            // and, when eviction ran, within one evicted record under it.
            total_size(final(self)@) <= old(self).spec_cap() + data@.len(),
            evicted@.len() > 0 ==> total_size(final(self)@) + evicted@.last().data@.len()
                > old(self).spec_cap() + data@.len(),
    {
        let evicted = self.enforce_cap();
        let ghost mid = self@;
        let entry = StoredEntry { name, data };
        let ghost en = entry;
        insert_sorted(&mut self.entries, entry);
        proof {
            let p = choose|p: int| 0 <= p <= mid.len() && self@ == mid.insert(p, en);
            lemma_total_size_insert(mid, p, en);
        }
        evicted
    }

    /// The entry with the smallest key, left in place; `None` when the
    /// queue is empty. The returned bytes are a copy of the record.
    pub fn peek_oldest(&self) -> (r: Option<Vec<u8>>)
        requires
            self.wf(),
        ensures
            r is Some <==> self@.len() > 0,
            r is Some ==> r->0@ == self@[0].data@,
            // The head is the entry with the lexicographically smallest key.
            r is Some ==> forall|i: int|
                0 <= i < self@.len() ==> lex_le(self@[0].name@, #[trigger] self@[i].name@),
    {
        if self.entries.len() == 0 {
            None
        } else {
            Some(clone_bytes(&self.entries[0].data))
        }
    }

    /// The size in bytes of the oldest entry's record, left in place;
    /// `None` when the queue is empty.
    pub fn head_size(&self) -> (r: Option<usize>)
        ensures
            r is Some <==> self@.len() > 0,
            r is Some ==> r->0 == self@[0].data@.len(),
    {
        if self.entries.len() == 0 {
            None
        } else {
            Some(self.entries[0].data.len())
        }
    }

    /// Removes and returns the entry with the smallest key; no-op on an
    /// empty queue.
    pub fn pop_oldest(&mut self) -> (r: Option<StoredEntry>)
        requires
            old(self).wf(),
        ensures
            final(self).wf(),
            final(self).spec_cap() == old(self).spec_cap(),
            r is Some <==> old(self)@.len() > 0,
            r is None ==> final(self)@ == old(self)@,
            r is Some ==> r->0 == old(self)@[0] && final(self)@ == old(self)@.drop_first(),
            // The removed entry has the lexicographically smallest key of
            // all entries that were resident.
            r is Some ==> forall|i: int|
                0 <= i < old(self)@.len() ==> lex_le(r->0.name@, #[trigger] old(self)@[i].name@),
    {
        if self.entries.len() == 0 {
            None
        } else {
            let e = self.entries.remove(0);
            proof {
                assert(self@ =~= old(self)@.drop_first());
            }
            Some(e)
        }
    }

    /// Withdraws the entry stored under the given key, if any: the
    /// admission of a record whose persistence failed is taken back, so
    /// the record is not retained.
    pub fn remove_entry(&mut self, name: &[u8]) -> (r: Option<StoredEntry>)
        requires
            old(self).wf(),
        ensures
            final(self).wf(),
            final(self).spec_cap() == old(self).spec_cap(),
            r is None ==> final(self)@ == old(self)@ && forall|i: int|
                0 <= i < old(self)@.len() ==> #[trigger] old(self)@[i].name@ != name@,
            r is Some ==> r->0.name@ == name@ && exists|i: int|
                0 <= i < old(self)@.len() && r->0 == old(self)@[i] && final(self)@ == #[trigger] old(
                    self,
                )@.remove(i),
    {
        let mut i: usize = 0;
        loop
            invariant
                self.wf(),
                self@ == old(self)@,
                self.spec_cap() == old(self).spec_cap(),
                i <= self@.len(),
                forall|j: int| 0 <= j < i ==> #[trigger] self@[j].name@ != name@,
            ensures
                self.wf(),
                self@ == old(self)@,
                self.spec_cap() == old(self).spec_cap(),
                i <= self@.len(),
                forall|j: int| 0 <= j < i ==> #[trigger] self@[j].name@ != name@,
                i < self@.len() ==> self@[i as int].name@ == name@,
                i == self@.len() ==> forall|j: int|
                    0 <= j < self@.len() ==> #[trigger] self@[j].name@ != name@,
            decreases self@.len() - i,
        {
            if i == self.entries.len() {
                break;
            }
            if bytes_eq(&self.entries[i].name, name) {
                break;
            }
            i = i + 1;
        }
        if i == self.entries.len() {
            None
        } else {
            let e = self.entries.remove(i);
            proof {
                assert(entries_sorted(self@)) by {
                    assert forall|a: int, b: int|
                        0 <= a <= b < self@.len() implies lex_le(
                        #[trigger] self@[a].name@,
                        #[trigger] self@[b].name@,
                    ) by {
                        let pa = if a < i { a } else { a + 1 };
                        let pb = if b < i { b } else { b + 1 };
                        assert(self@[a] == old(self)@[pa] && self@[b] == old(self)@[pb]);
                    }
                }
            }
            Some(e)
        }
    }

    /// Evicts oldest entries, one at a time and in key order, until the
    /// resident total is at or under the capacity.
    fn enforce_cap(&mut self) -> (evicted: Vec<StoredEntry>)
        requires
            old(self).wf(),
        ensures
            final(self).wf(),
            final(self).spec_cap() == old(self).spec_cap(),
            evicted@.len() <= old(self)@.len(),
            evicted@ == old(self)@.take(evicted@.len() as int),
            final(self)@ == old(self)@.skip(evicted@.len() as int),
            total_size(final(self)@) <= old(self).spec_cap(),
            evicted@.len() > 0 ==> total_size(final(self)@) + evicted@.last().data@.len()
                > old(self).spec_cap(),
    {
        let mut total = total_of(&self.entries);
        let mut evicted: Vec<StoredEntry> = Vec::new();
        proof {
            assert(old(self)@.skip(0) =~= old(self)@);
            assert(evicted@ =~= old(self)@.take(0));
        }
        loop
            invariant
                self.wf(),
                self.spec_cap() == old(self).spec_cap(),
                total == total_size(self@),
                evicted@.len() <= old(self)@.len(),
                evicted@ == old(self)@.take(evicted@.len() as int),
                self@ == old(self)@.skip(evicted@.len() as int),
                evicted@.len() > 0 ==> total_size(self@) + evicted@.last().data@.len()
                    > old(self).spec_cap(),
            ensures
                self.wf(),
                self.spec_cap() == old(self).spec_cap(),
                evicted@.len() <= old(self)@.len(),
                evicted@ == old(self)@.take(evicted@.len() as int),
                self@ == old(self)@.skip(evicted@.len() as int),
                total_size(self@) <= old(self).spec_cap(),
                evicted@.len() > 0 ==> total_size(self@) + evicted@.last().data@.len()
                    > old(self).spec_cap(),
            decreases self@.len(),
        {
            if total <= self.cap_bytes as u128 {
                break;
            }
            proof {
                if self@.len() == 0 {
                    assert(total_size(self@) == 0);
                }
                lemma_total_size_nonneg(self@.drop_first());
            }
            let ghost prev = self@;
            let ghost prev_evicted = evicted@;
            let e = self.entries.remove(0);
            let sz = e.data.len();
            total = total - sz as u128;
            evicted.push(e);
            proof {
                assert(self@ =~= prev.drop_first());
                assert(evicted@ =~= old(self)@.take(evicted@.len() as int)) by {
                    assert(evicted@ =~= prev_evicted.push(e));
                    assert(old(self)@.skip(prev_evicted.len() as int)[0]
                        == old(self)@[prev_evicted.len() as int]);
                }
                assert(self@ =~= old(self)@.skip(evicted@.len() as int));
            }
        }
        evicted
    }
}

/// Law: reopening a queue against the same stored entries preserves the
/// head. Whatever order storage returned the entries in, the entry that
/// `peek_oldest` finds after the reopen carries the same key as before:
/// both heads are minimal keys of the same collection of entries.
pub proof fn lemma_reopen_preserves_head(s: Seq<StoredEntry>, t: Seq<StoredEntry>)
    requires
        entries_sorted(s),
        entries_sorted(t),
        s.to_multiset() == t.to_multiset(),
        s.len() > 0,
    ensures
        t.len() > 0,
        lex_le(s[0].name@, t[0].name@),
        lex_le(t[0].name@, s[0].name@),
{
    vstd::seq_lib::to_multiset_len(s);
    vstd::seq_lib::to_multiset_len(t);
    assert(t.len() == s.len());
    assert(s.to_multiset().count(s[0]) > 0) by {
        assert(s.contains(s[0]));
    }
    assert(t.contains(s[0]));
    let i = choose|i: int| 0 <= i < t.len() && t[i] == s[0];
    assert(lex_le(t[0].name@, t[i].name@));
    assert(t.to_multiset().count(t[0]) > 0) by {
        assert(t.contains(t[0]));
    }
    assert(s.contains(t[0]));
    let j = choose|j: int| 0 <= j < s.len() && s[j] == t[0];
    assert(lex_le(s[0].name@, s[j].name@));
}

/// No two resident entries share a key: what holds of a storage that
/// keeps one file per key.
pub open spec fn distinct_names(s: Seq<StoredEntry>) -> bool {
    forall|i: int, j: int|
        0 <= i < j < s.len() ==> #[trigger] s[i].name@ != #[trigger] s[j].name@
}

/// Law: reopening against the same stored entries restores the same
/// queue. With pairwise-distinct keys — one file per key — a key-sorted
/// run is determined by what it holds: any two sorted arrangements of the
/// same entries are equal, so the reopened queue presents every record in
/// the same relative order as before, not only the head. Entries that tie
/// on a key may swap; their order is arbitrary, as the key format
/// documents.
pub proof fn lemma_reopen_preserves_order(s: Seq<StoredEntry>, t: Seq<StoredEntry>)
    requires
        entries_sorted(s),
        entries_sorted(t),
        distinct_names(s),
        s.to_multiset() == t.to_multiset(),
    ensures
        s == t,
    decreases s.len(),
{
    vstd::seq_lib::to_multiset_len(s);
    vstd::seq_lib::to_multiset_len(t);
    assert(t.len() == s.len());
    if s.len() == 0 {
        assert(s =~= t);
    } else {
        lemma_reopen_preserves_head(s, t);
        crate::order::lemma_lex_le_antisym(s[0].name@, t[0].name@);
        assert(t.to_multiset().count(t[0]) > 0) by {
            assert(t.contains(t[0]));
        }
        assert(s.contains(t[0]));
        let j = choose|j: int| 0 <= j < s.len() && s[j] == t[0];
        assert(j == 0) by {
            if j > 0 {
                assert(s[0].name@ != s[j].name@);
            }
        }
        assert(s[0] == t[0]);
        vstd::seq_lib::to_multiset_remove(s, 0);
        vstd::seq_lib::to_multiset_remove(t, 0);
        assert(s.remove(0) =~= s.drop_first());
        assert(t.remove(0) =~= t.drop_first());
        assert(s.drop_first().to_multiset() == t.drop_first().to_multiset());
        assert(entries_sorted(s.drop_first())) by {
            assert forall|a: int, b: int|
                0 <= a <= b < s.drop_first().len() implies lex_le(
                #[trigger] s.drop_first()[a].name@,
                #[trigger] s.drop_first()[b].name@,
            ) by {
                assert(s.drop_first()[a] == s[a + 1] && s.drop_first()[b] == s[b + 1]);
            }
        }
        assert(entries_sorted(t.drop_first())) by {
            assert forall|a: int, b: int|
                0 <= a <= b < t.drop_first().len() implies lex_le(
                #[trigger] t.drop_first()[a].name@,
                #[trigger] t.drop_first()[b].name@,
            ) by {
                assert(t.drop_first()[a] == t[a + 1] && t.drop_first()[b] == t[b + 1]);
            }
        }
        assert(distinct_names(s.drop_first())) by {
            assert forall|a: int, b: int|
                0 <= a < b < s.drop_first().len() implies #[trigger] s.drop_first()[a].name@
                != #[trigger] s.drop_first()[b].name@ by {
                assert(s.drop_first()[a] == s[a + 1] && s.drop_first()[b] == s[b + 1]);
            }
        }
        lemma_reopen_preserves_order(s.drop_first(), t.drop_first());
        assert forall|i: int| 0 <= i < s.len() implies s[i] == t[i] by {
            if i > 0 {
                assert(s[i] == s.drop_first()[i - 1]);
                assert(t[i] == t.drop_first()[i - 1]);
            }
        }
        assert(s =~= t);
    }
}

/// The resident total of a run of entries, summed without overflow.
fn total_of(entries: &Vec<StoredEntry>) -> (t: u128)
    ensures
        t == total_size(entries@),
{
    let mut t: u128 = 0;
    let mut i: usize = 0;
    proof {
        assert(entries@.take(0) =~= Seq::<StoredEntry>::empty());
    }
    while i < entries.len()
        invariant
            i <= entries@.len(),
            t == total_size(entries@.take(i as int)),
            t <= i * 0xffff_ffff_ffff_ffff,
        decreases entries@.len() - i,
    {
        proof {
            assert(entries@.take(i + 1) =~= entries@.take(i as int).push(entries@[i as int]));
            lemma_total_size_push(entries@.take(i as int), entries@[i as int]);
        }
        t = t + entries[i].data.len() as u128;
        i = i + 1;
    }
    proof {
        assert(entries@.take(entries@.len() as int) =~= entries@);
    }
    t
}

/// A copy of a byte record.
pub(crate) fn clone_bytes(v: &Vec<u8>) -> (r: Vec<u8>)
    ensures
        r@ == v@,
{
    let mut r: Vec<u8> = Vec::new();
    let mut i: usize = 0;
    while i < v.len()
        invariant
            i <= v@.len(),
            r@ == v@.take(i as int),
        decreases v@.len() - i,
    {
        r.push(v[i]);
        proof {
            assert(v@.take(i + 1) =~= v@.take(i as int).push(v@[i as int]));
        }
        i = i + 1;
    }
    proof {
        assert(v@.take(v@.len() as int) =~= v@);
    }
    r
}

/// Places one entry at its key position, keeping the run sorted.
fn insert_sorted(v: &mut Vec<StoredEntry>, e: StoredEntry)
    requires
        entries_sorted(old(v)@),
    ensures
        entries_sorted(final(v)@),
        final(v)@.to_multiset() == old(v)@.to_multiset().insert(e),
        final(v)@.len() == old(v)@.len() + 1,
        exists|p: int| 0 <= p <= old(v)@.len() && final(v)@ == old(v)@.insert(p, e),
{
    // Scan for the first entry whose key is strictly greater than the new
    // entry's key; the new entry goes just before it.
    let mut p: usize = 0;
    loop
        invariant
            entries_sorted(v@),
            v@ == old(v)@,
            p <= v@.len(),
            forall|j: int| 0 <= j < p ==> lex_le(#[trigger] v@[j].name@, e.name@),
        ensures
            entries_sorted(v@),
            v@ == old(v)@,
            p <= v@.len(),
            forall|j: int| 0 <= j < p ==> lex_le(#[trigger] v@[j].name@, e.name@),
            p < v@.len() ==> !lex_le(v@[p as int].name@, e.name@),
        decreases v@.len() - p,
    {
        if p == v.len() {
            break;
        }
        if !bytes_le(&v[p].name, &e.name) {
            break;
        }
        p = p + 1;
    }
    proof {
        if p < v@.len() {
            lemma_lex_le_total(v@[p as int].name@, e.name@);
        }
        assert forall|j: int| p <= j < v@.len() implies lex_le(
            e.name@,
            #[trigger] v@[j].name@,
        ) by {
            lemma_lex_le_trans(e.name@, v@[p as int].name@, v@[j].name@);
        }
    }
    let ghost prev = v@;
    v.insert(p, e);
    proof {
        assert(entries_sorted(v@)) by {
            assert forall|i: int, j: int|
                0 <= i <= j < v@.len() implies lex_le(
                #[trigger] v@[i].name@,
                #[trigger] v@[j].name@,
            ) by {
                if i == j {
                    crate::order::lemma_lex_le_refl(v@[i].name@);
                } else if j < p {
                    assert(v@[i] == prev[i] && v@[j] == prev[j]);
                } else if i > p {
                    assert(v@[i] == prev[i - 1] && v@[j] == prev[j - 1]);
                } else if i == p && j == p {
                } else if i < p && j == p {
                    assert(v@[i] == prev[i]);
                } else if i == p && j > p {
                    assert(v@[j] == prev[j - 1]);
                } else {
                    // i < p < j: both sides relate through the new entry's
                    // position in the old run.
                    assert(v@[i] == prev[i] && v@[j] == prev[j - 1]);
                    lemma_lex_le_trans(prev[i].name@, e.name@, prev[j - 1].name@);
                }
            }
        }
        vstd::seq_lib::to_multiset_insert(prev, p as int, e);
    }
}

} // verus!
