//! The UTXO ledger: an in-memory associative store from output references
//! (transaction id, output index) to output records (script, value).
//!
//! An entry exists exactly while its output has been produced by a processed
//! block and not yet consumed by one.  Consuming an absent reference fails
//! with [`UnknownOutputError`] and leaves the ledger unchanged.

use vstd::prelude::*;

verus! {

/// Identity of a transaction output: the creating transaction's id and the
/// index of the output within that transaction.
#[derive(Debug)]
pub struct OutputRef {
    pub txid: Vec<u8>,
    pub vout: usize,
}

/// The data stored for an unspent output: its locking script and its value.
#[derive(Debug)]
pub struct OutputRecord {
    pub script: Vec<u8>,
    pub value: u64,
}

/// Error returned when a consumed reference was never recorded (or was
/// already consumed); it carries the offending reference.
#[derive(Debug)]
pub struct UnknownOutputError {
    pub txid: Vec<u8>,
    pub vout: usize,
}

/// The mathematical key a reference stands for.
pub open spec fn key_of(r: OutputRef) -> (Seq<u8>, int) {
    (r.txid@, r.vout as int)
}

/// The mathematical value a record stands for.
pub open spec fn rec_of(o: OutputRecord) -> (Seq<u8>, u64) {
    (o.script@, o.value)
}

/// The map described by a sequence of entries, later entries winning.
pub open spec fn entries_map(s: Seq<(OutputRef, OutputRecord)>) -> Map<(Seq<u8>, int), (Seq<u8>, u64)>
    decreases s.len(),
{
    if s.len() == 0 {
        Map::empty()
    } else {
        entries_map(s.drop_last()).insert(key_of(s.last().0), rec_of(s.last().1))
    }
}

/// No two entries share a key.
pub open spec fn unique_keys(s: Seq<(OutputRef, OutputRecord)>) -> bool {
    forall|i: int, j: int|
        0 <= i < j < s.len() ==> key_of(#[trigger] s[i].0) != key_of(#[trigger] s[j].0)
}

/// A key is in the map exactly when some entry carries it.
pub proof fn lemma_entries_map_contains(s: Seq<(OutputRef, OutputRecord)>, k: (Seq<u8>, int))
    ensures
        entries_map(s).contains_key(k) <==> exists|i: int|
            0 <= i < s.len() && key_of(#[trigger] s[i].0) == k,
    decreases s.len(),
{
    if s.len() > 0 {
        lemma_entries_map_contains(s.drop_last(), k);
        if key_of(s.last().0) == k {
            assert(key_of(s[s.len() - 1].0) == k);
        }
        if entries_map(s).contains_key(k) && key_of(s.last().0) != k {
            let i = choose|i: int| 0 <= i < s.drop_last().len() && key_of(#[trigger] s.drop_last()[i].0) == k;
            assert(key_of(s[i].0) == k);
        }
        if exists|i: int| 0 <= i < s.len() && key_of(#[trigger] s[i].0) == k {
            let i = choose|i: int| 0 <= i < s.len() && key_of(#[trigger] s[i].0) == k;
            if i < s.len() - 1 {
                assert(key_of(s.drop_last()[i].0) == k);
            }
        }
    }
}

/// With unique keys, the map sends each entry's key to that entry's record.
pub proof fn lemma_entries_map_index(s: Seq<(OutputRef, OutputRecord)>, i: int)
    requires
        unique_keys(s),
        0 <= i < s.len(),
    ensures
        entries_map(s).contains_key(key_of(s[i].0)),
        entries_map(s)[key_of(s[i].0)] == rec_of(s[i].1),
    decreases s.len(),
{
    if i == s.len() - 1 {
        assert(s.last() == s[i]);
    } else {
        assert(unique_keys(s.drop_last())) by {
            assert(forall|p: int, q: int|
                0 <= p < q < s.drop_last().len() ==> key_of(#[trigger] s.drop_last()[p].0)
                    != key_of(#[trigger] s.drop_last()[q].0)) by {
                assert(forall|p: int| 0 <= p < s.drop_last().len() ==> #[trigger] s.drop_last()[p] == s[p]);
            }
        }
        assert(s.drop_last()[i] == s[i]);
        lemma_entries_map_index(s.drop_last(), i);
        assert(key_of(s[i].0) != key_of(s.last().0)) by {
            assert(key_of(s[i].0) != key_of(s[s.len() - 1].0));
        }
    }
}

/// Uniqueness survives removing an entry.
pub proof fn lemma_unique_keys_remove(s: Seq<(OutputRef, OutputRecord)>, i: int)
    requires
        unique_keys(s),
        0 <= i < s.len(),
    ensures
        unique_keys(s.remove(i)),
{
    assert forall|p: int, q: int| 0 <= p < q < s.remove(i).len() implies key_of(
        #[trigger] s.remove(i)[p].0,
    ) != key_of(#[trigger] s.remove(i)[q].0) by {
        let p0: int = if p < i { p } else { p + 1 };
        let q0: int = if q < i { q } else { q + 1 };
        assert(s.remove(i)[p] == s[p0]);
        assert(s.remove(i)[q] == s[q0]);
    }
}

/// With unique keys, removing the entry at `i` removes exactly its key from
/// the map.
pub proof fn lemma_entries_map_remove(s: Seq<(OutputRef, OutputRecord)>, i: int)
    requires
        unique_keys(s),
        0 <= i < s.len(),
    ensures
        entries_map(s.remove(i)) == entries_map(s).remove(key_of(s[i].0)),
    decreases s.len(),
{
    let k = key_of(s[i].0);
    if i == s.len() - 1 {
        assert(s.remove(i) =~= s.drop_last());
        assert(!entries_map(s.drop_last()).contains_key(k)) by {
            lemma_entries_map_contains(s.drop_last(), k);
            assert forall|j: int| 0 <= j < s.drop_last().len() implies key_of(
                #[trigger] s.drop_last()[j].0,
            ) != k by {
                assert(s.drop_last()[j] == s[j]);
                assert(key_of(s[j].0) != key_of(s[s.len() - 1].0));
            }
        }
        assert(entries_map(s.drop_last()).insert(k, rec_of(s.last().1)).remove(k)
            =~= entries_map(s.drop_last()));
    } else {
        let kl = key_of(s.last().0);
        let vl = rec_of(s.last().1);
        assert(k != kl) by {
            assert(key_of(s[i].0) != key_of(s[s.len() - 1].0));
        }
        assert(unique_keys(s.drop_last())) by {
            assert(forall|p: int| 0 <= p < s.drop_last().len() ==> #[trigger] s.drop_last()[p] == s[p]);
        }
        assert(s.remove(i).drop_last() =~= s.drop_last().remove(i)) by {
            assert forall|j: int| 0 <= j < s.remove(i).drop_last().len() implies s.remove(
                i,
            ).drop_last()[j] == s.drop_last().remove(i)[j] by {
                if j < i {
                    assert(s.remove(i)[j] == s[j]);
                    assert(s.drop_last()[j] == s[j]);
                } else {
                    assert(s.remove(i)[j] == s[j + 1]);
                    assert(s.drop_last()[j + 1] == s[j + 1]);
                }
            }
        }
        assert(s.remove(i).last() == s[s.len() - 1]);
        lemma_entries_map_remove(s.drop_last(), i);
        assert(s.drop_last()[i] == s[i]);
        assert(entries_map(s.remove(i)) == entries_map(s.drop_last()).remove(k).insert(kl, vl));
        assert(entries_map(s.drop_last()).remove(k).insert(kl, vl)
            =~= entries_map(s.drop_last()).insert(kl, vl).remove(k));
    }
}

/// Appending an entry inserts exactly its key.
pub proof fn lemma_entries_map_push(s: Seq<(OutputRef, OutputRecord)>, e: (OutputRef, OutputRecord))
    ensures
        entries_map(s.push(e)) == entries_map(s).insert(key_of(e.0), rec_of(e.1)),
{
    assert(s.push(e).drop_last() =~= s);
    assert(s.push(e).last() == e);
}

/// Copy a byte vector.
pub fn copy_bytes(v: &Vec<u8>) -> (r: Vec<u8>)
    ensures
        r@ == v@,
{
    let mut r: Vec<u8> = Vec::new();
    let mut i: usize = 0;
    while i < v.len()
        invariant
            i <= v.len(),
            r@ == v@.subrange(0, i as int),
        decreases v.len() - i,
    {
        r.push(v[i]);
        i = i + 1;
    }
    assert(v@.subrange(0, v@.len() as int) =~= v@);
    r
}

/// Byte-vector equality.
pub fn bytes_eq(a: &Vec<u8>, b: &Vec<u8>) -> (r: bool)
    ensures
        r == (a@ == b@),
{
    if a.len() != b.len() {
        assert(a@ != b@) by {
            assert(a@.len() != b@.len());
        }
        return false;
    }
    let mut i: usize = 0;
    while i < a.len()
        invariant
            i <= a.len(),
            a@.len() == b@.len(),
            forall|j: int| 0 <= j < i ==> a@[j] == b@[j],
        decreases a.len() - i,
    {
        if a[i] != b[i] {
            return false;
        }
        i = i + 1;
    }
    assert(a@ =~= b@);
    true
}

impl Clone for OutputRecord {
    /// The copy carries the same script bytes and the same value.
    fn clone(&self) -> (r: Self)
        ensures
            rec_of(r) == rec_of(*self),
    {
        OutputRecord { script: copy_bytes(&self.script), value: self.value }
    }
}

/// The in-memory store of currently unspent outputs.
#[derive(Debug)]
pub struct UtxoLedger {
    entries: Vec<(OutputRef, OutputRecord)>,
}

impl UtxoLedger {
    /// The abstract content: a finite map from keys to records.
    pub closed spec fn view(&self) -> Map<(Seq<u8>, int), (Seq<u8>, u64)> {
        entries_map(self.entries@)
    }

    /// Well-formed: no key is stored twice.
    pub closed spec fn wf(&self) -> bool {
        unique_keys(self.entries@)
    }

    /// An empty ledger.
    pub fn new() -> (r: Self)
        ensures
            r.wf(),
            r@ == Map::<(Seq<u8>, int), (Seq<u8>, u64)>::empty(),
    {
        UtxoLedger { entries: Vec::new() }
    }

    /// The index of the entry holding the given reference's key, if any.
    fn find(&self, r: &OutputRef) -> (idx: Option<usize>)
        ensures
            match idx {
                Some(i) => i < self.entries@.len() && key_of(self.entries@[i as int].0) == key_of(*r),
                None => forall|i: int|
                    0 <= i < self.entries@.len() ==> key_of(#[trigger] self.entries@[i].0) != key_of(*r),
            },
    {
        let mut i: usize = 0;
        while i < self.entries.len()
            invariant
                i <= self.entries@.len(),
                forall|j: int|
                    0 <= j < i ==> key_of(#[trigger] self.entries@[j].0) != key_of(*r),
            decreases self.entries@.len() - i,
        {
            let e = &self.entries[i];
            if e.0.vout == r.vout && bytes_eq(&e.0.txid, &r.txid) {
                return Some(i);
            }
            i = i + 1;
        }
        None
    }

    /// Insert or overwrite: afterwards the ledger holds exactly the old
    /// entries plus this reference mapped to this record, the last write
    /// winning.
    pub fn record(&mut self, r: OutputRef, rec: OutputRecord)
        requires
            old(self).wf(),
        ensures
            final(self).wf(),
            final(self)@ == old(self)@.insert(key_of(r), rec_of(rec)),
    {
        match self.find(&r) {
            Some(i) => {
                proof {
                    lemma_entries_map_remove(self.entries@, i as int);
                    lemma_unique_keys_remove(self.entries@, i as int);
                }
                let _ = self.entries.remove(i);
            },
            None => {
            },
        }
        let ghost mid = self.entries@;
        assert(forall|j: int| 0 <= j < mid.len() ==> key_of(#[trigger] mid[j].0) != key_of(r)) by {
            lemma_entries_map_contains(mid, key_of(r));
        }
        proof {
            lemma_entries_map_push(mid, (r, rec));
        }
        self.entries.push((r, rec));
        assert(self@ =~= old(self)@.insert(key_of(r), rec_of(rec)));
        assert forall|p: int, q: int| 0 <= p < q < self.entries@.len() implies key_of(
            #[trigger] self.entries@[p].0,
        ) != key_of(#[trigger] self.entries@[q].0) by {
            if q == self.entries@.len() - 1 {
                assert(self.entries@[p] == mid[p]);
            } else {
                assert(self.entries@[p] == mid[p]);
                assert(self.entries@[q] == mid[q]);
            }
        }
    }

    /// Remove and return the record for a reference.  Succeeds exactly when
    /// the reference is currently recorded; an absent reference yields
    /// [`UnknownOutputError`] and leaves the ledger as it was.
    pub fn consume(&mut self, r: &OutputRef) -> (res: Result<OutputRecord, UnknownOutputError>)
        requires
            old(self).wf(),
        ensures
            final(self).wf(),
            old(self)@.contains_key(key_of(*r)) ==> {
                &&& res matches Result::Ok(rec) && rec_of(rec) == old(self)@[key_of(*r)]
                &&& final(self)@ == old(self)@.remove(key_of(*r))
            },
            !old(self)@.contains_key(key_of(*r)) ==> {
                &&& res matches Result::Err(e) && e.txid@ == r.txid@ && e.vout == r.vout
                &&& final(self)@ == old(self)@
            },
    {
        match self.find(r) {
            Some(i) => {
                proof {
                    lemma_entries_map_index(self.entries@, i as int);
                    lemma_entries_map_remove(self.entries@, i as int);
                    lemma_unique_keys_remove(self.entries@, i as int);
                }
                let (_, rec) = self.entries.remove(i);
                Ok(rec)
            },
            None => {
                proof {
                    lemma_entries_map_contains(self.entries@, key_of(*r));
                }
                Err(UnknownOutputError { txid: copy_bytes(&r.txid), vout: r.vout })
            },
        }
    }

}

/// Recording a value and then consuming its key returns exactly that value
/// — the last one recorded for the key — and leaves the key absent; this
/// holds over any ledger content, so over any earlier sequence of records
/// and consumes.
pub proof fn lemma_ledger_round_trip(
    m: Map<(Seq<u8>, int), (Seq<u8>, u64)>,
    k: (Seq<u8>, int),
    v: (Seq<u8>, u64),
)
    ensures
        m.insert(k, v).contains_key(k),
        m.insert(k, v)[k] == v,
        !m.insert(k, v).remove(k).contains_key(k),
{
}

} // verus!
