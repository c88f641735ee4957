//! Pending correlation state: the receipt ids currently awaited, each mapped
//! to the hash of the transaction that produced it. The two containers of the
//! design — the awaited receipt set and the receipt-to-hash map — are held as
//! one association list; the set of awaited receipts is the key set of the
//! map, and the lockstep law below states that the two agree.

use vstd::prelude::*;

verus! {

broadcast use vstd::set::group_set_axioms, vstd::map::group_map_axioms;

struct PendingEntry {
    receipt_id: String,
    tx_hash: String,
}

/// The mathematical map an entry list stands for: later entries win, as the
/// engine overwrites on re-registration.
spec fn assoc_map(entries: Seq<PendingEntry>) -> Map<Seq<char>, Seq<char>>
    decreases entries.len(),
{
    if entries.len() == 0 {
        Map::empty()
    } else {
        assoc_map(entries.drop_last()).insert(
            entries.last().receipt_id@,
            entries.last().tx_hash@,
        )
    }
}

/// The set of receipt ids an entry list holds.
spec fn keys_of(entries: Seq<PendingEntry>) -> Set<Seq<char>> {
    Set::new(|k: Seq<char>| exists|i: int| 0 <= i < entries.len() && entries[i].receipt_id@ == k)
}

/// No receipt id occurs twice in the entry list.
spec fn keys_distinct(entries: Seq<PendingEntry>) -> bool {
    forall|i: int, j: int|
        0 <= i < j < entries.len() ==> entries[i].receipt_id@ != entries[j].receipt_id@
}

proof fn lemma_assoc_dom(entries: Seq<PendingEntry>)
    ensures
        assoc_map(entries).dom() =~= keys_of(entries),
    decreases entries.len(),
{
    if entries.len() == 0 {
    } else {
        let prefix = entries.drop_last();
        lemma_assoc_dom(prefix);
        assert forall|k: Seq<char>| keys_of(entries).contains(k) implies assoc_map(
            entries,
        ).dom().contains(k) by {
            let i = choose|i: int| 0 <= i < entries.len() && entries[i].receipt_id@ == k;
            if i < entries.len() - 1 {
                assert(prefix[i].receipt_id@ == k);
                assert(keys_of(prefix).contains(k));
            }
        }
        assert forall|k: Seq<char>| assoc_map(entries).dom().contains(k) implies keys_of(
            entries,
        ).contains(k) by {
            if k == entries.last().receipt_id@ {
                assert(entries[entries.len() - 1].receipt_id@ == k);
            } else {
                let i = choose|i: int| 0 <= i < prefix.len() && prefix[i].receipt_id@ == k;
                assert(entries[i].receipt_id@ == k);
            }
        }
    }
}

proof fn lemma_assoc_get(entries: Seq<PendingEntry>, i: int)
    requires
        keys_distinct(entries),
        0 <= i < entries.len(),
    ensures
        assoc_map(entries).dom().contains(entries[i].receipt_id@),
        assoc_map(entries)[entries[i].receipt_id@] == entries[i].tx_hash@,
    decreases entries.len(),
{
    if i == entries.len() - 1 {
    } else {
        let prefix = entries.drop_last();
        lemma_assoc_get(prefix, i);
        assert(entries[i].receipt_id@ != entries.last().receipt_id@);
    }
}

proof fn lemma_distinct_remove(entries: Seq<PendingEntry>, i: int)
    requires
        keys_distinct(entries),
        0 <= i < entries.len(),
    ensures
        keys_distinct(entries.remove(i)),
        !keys_of(entries.remove(i)).contains(entries[i].receipt_id@),
{
    let shorter = entries.remove(i);
    assert forall|a: int, b: int|
        0 <= a < b < shorter.len() implies shorter[a].receipt_id@ != shorter[b].receipt_id@ by {
        let a0 = if a < i { a } else { a + 1 };
        let b0 = if b < i { b } else { b + 1 };
        assert(entries[a0].receipt_id@ != entries[b0].receipt_id@);
    }
    assert forall|j: int|
        0 <= j < shorter.len() implies shorter[j].receipt_id@ != entries[i].receipt_id@ by {
        let j0 = if j < i { j } else { j + 1 };
        assert(shorter[j] == entries[j0]);
    }
    if keys_of(shorter).contains(entries[i].receipt_id@) {
        let j = choose|j: int|
            0 <= j < shorter.len() && shorter[j].receipt_id@ == entries[i].receipt_id@;
        assert(false);
    }
}

proof fn lemma_assoc_remove(entries: Seq<PendingEntry>, i: int)
    requires
        keys_distinct(entries),
        0 <= i < entries.len(),
    ensures
        assoc_map(entries.remove(i)) =~= assoc_map(entries).remove(entries[i].receipt_id@),
    decreases entries.len(),
{
    let k = entries[i].receipt_id@;
    let prefix = entries.drop_last();
    if i == entries.len() - 1 {
        assert(entries.remove(i) =~= prefix);
        lemma_assoc_dom(prefix);
        lemma_distinct_remove(entries, i);
        assert(entries.remove(i) =~= prefix);
        assert(!keys_of(prefix).contains(k)) by {
            if keys_of(prefix).contains(k) {
                let j = choose|j: int| 0 <= j < prefix.len() && prefix[j].receipt_id@ == k;
                assert(entries[j].receipt_id@ == entries[i].receipt_id@);
                assert(false);
            }
        }
        assert(assoc_map(prefix) =~= assoc_map(prefix).insert(
            k,
            entries.last().tx_hash@,
        ).remove(k));
    } else {
        assert(keys_distinct(prefix));
        lemma_assoc_remove(prefix, i);
        assert(entries.remove(i).drop_last() =~= prefix.remove(i));
        assert(entries.remove(i).last() == entries.last());
        assert(assoc_map(entries.remove(i)) == assoc_map(prefix.remove(i)).insert(
            entries.last().receipt_id@,
            entries.last().tx_hash@,
        ));
        assert(entries.last().receipt_id@ != k);
    }
}

proof fn lemma_assoc_card(entries: Seq<PendingEntry>)
    requires
        keys_distinct(entries),
    ensures
        assoc_map(entries).dom().finite(),
        assoc_map(entries).dom().len() == entries.len(),
    decreases entries.len(),
{
    if entries.len() == 0 {
        assert(assoc_map(entries).dom() =~= Set::<Seq<char>>::empty());
    } else {
        let prefix = entries.drop_last();
        let k = entries.last().receipt_id@;
        lemma_assoc_card(prefix);
        lemma_assoc_dom(prefix);
        assert(!keys_of(prefix).contains(k)) by {
            if keys_of(prefix).contains(k) {
                let j = choose|j: int| 0 <= j < prefix.len() && prefix[j].receipt_id@ == k;
                assert(entries[j].receipt_id@ == entries[entries.len() - 1].receipt_id@);
                assert(false);
            }
        }
        assert(assoc_map(entries).dom() =~= assoc_map(prefix).dom().insert(k));
    }
}

/// The pending correlation state: one entry per matched transaction whose
/// receipt outcome has not yet been observed. Created empty, grown on
/// registration, shrunk on resolution; there is no expiry.
pub struct PendingState {
    entries: Vec<PendingEntry>,
}

impl PendingState {
    /// The map from awaited receipt id to the originating transaction hash.
    pub closed spec fn map_view(self) -> Map<Seq<char>, Seq<char>> {
        assoc_map(self.entries@)
    }

    /// The set of receipt ids currently awaited.
    pub closed spec fn receipt_set(self) -> Set<Seq<char>> {
        keys_of(self.entries@)
    }

    /// Well-formedness: no receipt id is tracked twice.
    pub closed spec fn wf(self) -> bool {
        keys_distinct(self.entries@)
    }

    /// A fresh, empty state.
    pub fn new() -> (s: PendingState)
        ensures
            s.wf(),
            s.map_view() == Map::<Seq<char>, Seq<char>>::empty(),
            s.receipt_set() == Set::<Seq<char>>::empty(),
    {
        let s = PendingState { entries: Vec::new() };
        proof {
            assert(s.receipt_set() =~= Set::<Seq<char>>::empty());
        }
        s
    }

    /// The index of the entry holding `receipt_id`, if any.
    fn find(&self, receipt_id: &String) -> (r: Option<usize>)
        ensures
            match r {
                Some(i) => i < self.entries@.len() && self.entries@[i as int].receipt_id@
                    == receipt_id@,
                None => !self.receipt_set().contains(receipt_id@),
            },
    {
        let mut i: usize = 0;
        while i < self.entries.len()
            invariant
                i <= self.entries@.len(),
                forall|j: int| 0 <= j < i ==> self.entries@[j].receipt_id@ != receipt_id@,
            decreases self.entries@.len() - i,
        {
            if self.entries[i].receipt_id == *receipt_id {
                return Some(i);
            }
            i = i + 1;
        }
        proof {
            if self.receipt_set().contains(receipt_id@) {
                let j = choose|j: int|
                    0 <= j < self.entries@.len() && self.entries@[j].receipt_id@ == receipt_id@;
                assert(false);
            }
        }
        None
    }

    /// How many receipt ids are awaited.
    pub fn len(&self) -> (n: usize)
        requires
            self.wf(),
        ensures
            n == self.map_view().dom().len(),
    {
        proof {
            lemma_assoc_card(self.entries@);
        }
        self.entries.len()
    }

    /// Whether `receipt_id` is currently awaited.
    pub fn contains(&self, receipt_id: &String) -> (r: bool)
        ensures
            r == self.receipt_set().contains(receipt_id@),
    {
        match self.find(receipt_id) {
            Some(i) => {
                proof {
                    assert(self.entries@[i as int].receipt_id@ == receipt_id@);
                }
                true
            },
            None => false,
        }
    }

    /// Awaits `receipt_id`, remembering `tx_hash` as the hash of the
    /// transaction that produced it. Re-registering an id replaces its hash.
    pub fn register(&mut self, receipt_id: String, tx_hash: String)
        requires
            old(self).wf(),
        ensures
            final(self).wf(),
            final(self).map_view() == old(self).map_view().insert(receipt_id@, tx_hash@),
    {
        let ghost s0 = self.entries@;
        let ghost k = receipt_id@;
        match self.find(&receipt_id) {
            Some(i) => {
                proof {
                    lemma_distinct_remove(s0, i as int);
                    lemma_assoc_remove(s0, i as int);
                }
                self.entries.remove(i);
                let ghost s1 = self.entries@;
                self.entries.push(PendingEntry { receipt_id, tx_hash });
                proof {
                    assert(self.entries@.drop_last() =~= s1);
                    assert(assoc_map(self.entries@) == assoc_map(s1).insert(k, tx_hash@));
                    assert(assoc_map(s0).remove(k).insert(k, tx_hash@) =~= assoc_map(s0).insert(
                        k,
                        tx_hash@,
                    ));
                    assert forall|a: int, b: int|
                        0 <= a < b < self.entries@.len() implies self.entries@[a].receipt_id@
                        != self.entries@[b].receipt_id@ by {
                        if b == self.entries@.len() - 1 {
                            assert(!keys_of(s1).contains(k));
                            assert(s1[a].receipt_id@ != k);
                        }
                    }
                }
            },
            None => {
                self.entries.push(PendingEntry { receipt_id, tx_hash });
                proof {
                    assert(self.entries@.drop_last() =~= s0);
                    assert(assoc_map(self.entries@) == assoc_map(s0).insert(k, tx_hash@));
                    assert forall|a: int, b: int|
                        0 <= a < b < self.entries@.len() implies self.entries@[a].receipt_id@
                        != self.entries@[b].receipt_id@ by {
                        if b == self.entries@.len() - 1 {
                            assert(!keys_of(s0).contains(k));
                            assert(s0[a].receipt_id@ != k);
                        }
                    }
                }
            },
        }
    }

    /// Consumes `receipt_id` if it is awaited: removes it and returns the
    /// originating transaction hash. A receipt id is consumed at most once;
    /// an id that is not awaited returns nothing and changes nothing.
    pub fn resolve(&mut self, receipt_id: &String) -> (r: Option<String>)
        requires
            old(self).wf(),
        ensures
            final(self).wf(),
            r is Some <==> old(self).map_view().dom().contains(receipt_id@),
            match r {
                Some(h) => h@ == old(self).map_view()[receipt_id@] && final(self).map_view()
                    == old(self).map_view().remove(receipt_id@),
                None => *final(self) == *old(self),
            },
    {
        let ghost s0 = self.entries@;
        proof {
            lemma_assoc_dom(s0);
        }
        match self.find(receipt_id) {
            Some(i) => {
                proof {
                    lemma_assoc_get(s0, i as int);
                    lemma_distinct_remove(s0, i as int);
                    lemma_assoc_remove(s0, i as int);
                }
                let entry = self.entries.remove(i);
                proof {
                    assert(s0[i as int].receipt_id@ == receipt_id@);
                }
                Some(entry.tx_hash)
            },
            None => None,
        }
    }
}

/// Lockstep law: in a well-formed state, the set of awaited receipt ids
/// equals the key set of the receipt-to-transaction-hash map exactly. Every
/// constructor and method of `PendingState` keeps well-formedness, so this
/// holds at every point between processing steps.
pub proof fn lemma_lockstep(s: PendingState)
    requires
        s.wf(),
    ensures
        s.receipt_set() =~= s.map_view().dom(),
{
    lemma_assoc_dom(s.entries@);
}

} // verus!
