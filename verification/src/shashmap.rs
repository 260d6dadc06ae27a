//! The utxo index ("slip hashmap"): the authoritative spend state of every
//! known slip, keyed by slip fingerprint. Absent means unknown, -1 known
//! and unspent, a positive value the id of the block that spent the slip.

use vstd::prelude::*;

use crate::slip::{enc_slip_body, Slip, SlipView};
use crate::transaction::Transaction;

verus! {

/// One entry of the index: a slip fingerprint and its spend state.
#[derive(Clone, Debug)]
pub struct UtxoEntry {
    pub key: Vec<u8>,
    pub val: i64,
}

/// The utxo index. The entry list carries each fingerprint at most once;
/// its mathematical image is a map from fingerprints to spend states.
#[derive(Clone, Debug)]
pub struct Shashmap {
    pub entries: Vec<UtxoEntry>,
}

/// The map an entry list stands for.
pub open spec fn map_of(s: Seq<UtxoEntry>) -> Map<Seq<u8>, int>
    decreases s.len(),
{
    if s.len() == 0 {
        Map::<Seq<u8>, int>::empty()
    } else {
        map_of(s.drop_last()).insert(s.last().key@, s.last().val as int)
    }
}

/// Whether an entry list carries each fingerprint at most once.
pub open spec fn unique_keys(s: Seq<UtxoEntry>) -> bool {
    forall|i: int, j: int| 0 <= i < j < s.len() ==> s[i].key@ != s[j].key@
}

impl View for Shashmap {
    type V = Map<Seq<u8>, int>;

    open spec fn view(&self) -> Map<Seq<u8>, int> {
        map_of(self.entries@)
    }
}

impl Shashmap {
    /// The index's own invariant: no fingerprint appears twice.
    pub open spec fn wf(&self) -> bool {
        unique_keys(self.entries@)
    }
}

/// An entry of the list is in the map, with its value.
pub proof fn lemma_map_of_index(s: Seq<UtxoEntry>, i: int)
    requires
        unique_keys(s),
        0 <= i < s.len(),
    ensures
        map_of(s).contains_key(s[i].key@),
        map_of(s)[s[i].key@] == s[i].val as int,
    decreases s.len(),
{
    if i == s.len() - 1 {
    } else {
        lemma_map_of_index(s.drop_last(), i);
        assert(s.drop_last()[i] == s[i]);
        assert(s[i].key@ != s.last().key@);
    }
}

/// A fingerprint on no entry of the list is not in the map.
pub proof fn lemma_map_of_absent(s: Seq<UtxoEntry>, k: Seq<u8>)
    requires
        forall|i: int| 0 <= i < s.len() ==> s[i].key@ != k,
    ensures
        !map_of(s).contains_key(k),
    decreases s.len(),
{
    if s.len() > 0 {
        lemma_map_of_absent(s.drop_last(), k);
    }
}

/// Overwriting the entry that holds `k` updates the map at `k`.
proof fn lemma_map_of_update(s: Seq<UtxoEntry>, i: int, e: UtxoEntry)
    requires
        unique_keys(s),
        0 <= i < s.len(),
        s[i].key@ == e.key@,
    ensures
        map_of(s.update(i, e)) == map_of(s).insert(e.key@, e.val as int),
        unique_keys(s.update(i, e)),
    decreases s.len(),
{
    let s2 = s.update(i, e);
    assert(forall|j: int| 0 <= j < s.len() && j != i ==> s2[j] == s[j]);
    if i == s.len() - 1 {
        assert(s2.drop_last() =~= s.drop_last());
        assert(s2.last() == e);
        assert(map_of(s2) == map_of(s.drop_last()).insert(e.key@, e.val as int));
        assert(map_of(s) == map_of(s.drop_last()).insert(s[i].key@, s[i].val as int));
        assert(map_of(s).insert(e.key@, e.val as int) =~= map_of(s.drop_last()).insert(
            e.key@,
            e.val as int,
        ));
    } else {
        assert(s2.drop_last() =~= s.drop_last().update(i, e));
        lemma_map_of_update(s.drop_last(), i, e);
        assert(s2.last() == s.last());
        assert(map_of(s2) == map_of(s.drop_last()).insert(e.key@, e.val as int).insert(
            s.last().key@,
            s.last().val as int,
        ));
        assert(s.last().key@ != e.key@);
        assert(map_of(s.drop_last()).insert(e.key@, e.val as int).insert(
            s.last().key@,
            s.last().val as int,
        ) =~= map_of(s.drop_last()).insert(s.last().key@, s.last().val as int).insert(
            e.key@,
            e.val as int,
        ));
    }
}

/// Removing the entry that holds `k` removes `k` from the map.
proof fn lemma_map_of_remove(s: Seq<UtxoEntry>, i: int)
    requires
        unique_keys(s),
        0 <= i < s.len(),
    ensures
        map_of(s.remove(i)) == map_of(s).remove(s[i].key@),
        unique_keys(s.remove(i)),
    decreases s.len(),
{
    let s2 = s.remove(i);
    if i == s.len() - 1 {
        assert(s2 =~= s.drop_last());
        lemma_map_of_absent_of_unique(s, i);
        assert(map_of(s) == map_of(s.drop_last()).insert(s[i].key@, s[i].val as int));
        assert(!map_of(s.drop_last()).contains_key(s[i].key@));
        assert(map_of(s).remove(s[i].key@) =~= map_of(s.drop_last()));
    } else {
        assert(s2.drop_last() =~= s.drop_last().remove(i));
        assert(s2.last() == s.last());
        lemma_map_of_remove(s.drop_last(), i);
        assert(map_of(s2) == map_of(s.drop_last()).remove(s[i].key@).insert(
            s.last().key@,
            s.last().val as int,
        ));
        assert(s.last().key@ != s[i].key@);
        assert(map_of(s.drop_last()).remove(s[i].key@).insert(
            s.last().key@,
            s.last().val as int,
        ) =~= map_of(s.drop_last()).insert(s.last().key@, s.last().val as int).remove(s[i].key@));
    }
}

/// In a unique list, the map over all entries but `i` lacks entry `i`'s
/// key.
proof fn lemma_map_of_absent_of_unique(s: Seq<UtxoEntry>, i: int)
    requires
        unique_keys(s),
        0 <= i < s.len(),
        i == s.len() - 1,
    ensures
        !map_of(s.drop_last()).contains_key(s[i].key@),
{
    assert(forall|j: int| 0 <= j < s.drop_last().len() ==> s.drop_last()[j].key@ != s[i].key@);
    lemma_map_of_absent(s.drop_last(), s[i].key@);
}

/// Appending an entry with a fresh key inserts it into the map.
proof fn lemma_map_of_push(s: Seq<UtxoEntry>, e: UtxoEntry)
    requires
        unique_keys(s),
        forall|i: int| 0 <= i < s.len() ==> s[i].key@ != e.key@,
    ensures
        map_of(s.push(e)) == map_of(s).insert(e.key@, e.val as int),
        unique_keys(s.push(e)),
{
    assert(s.push(e).drop_last() =~= s);
    assert(s.push(e).last() == e);
}

/// Entry lists equal key for key and value for value stand for the same
/// map.
pub proof fn lemma_map_of_congruence(a: Seq<UtxoEntry>, b: Seq<UtxoEntry>)
    requires
        a.len() == b.len(),
        forall|j: int| 0 <= j < a.len() ==> a[j].key@ == b[j].key@ && a[j].val == b[j].val,
    ensures
        map_of(a) == map_of(b),
        unique_keys(b) ==> unique_keys(a),
    decreases a.len(),
{
    if a.len() > 0 {
        lemma_map_of_congruence(a.drop_last(), b.drop_last());
        assert(map_of(a) == map_of(a.drop_last()).insert(a.last().key@, a.last().val as int));
        assert(a.last().key@ == b.last().key@ && a.last().val == b.last().val);
    }
}

/// Setting `k` to `v` on every fingerprint of `ss` in turn, left to right.
pub open spec fn spend_all(m: Map<Seq<u8>, int>, ss: Seq<SlipView>, v: int) -> Map<Seq<u8>, int>
    decreases ss.len(),
{
    if ss.len() == 0 {
        m
    } else {
        spend_all(m.insert(enc_slip_body(ss[0].body), v), ss.skip(1), v)
    }
}

/// Removing every fingerprint of `ss` in turn, left to right.
pub open spec fn remove_all(m: Map<Seq<u8>, int>, ss: Seq<SlipView>) -> Map<Seq<u8>, int>
    decreases ss.len(),
{
    if ss.len() == 0 {
        m
    } else {
        remove_all(m.remove(enc_slip_body(ss[0].body)), ss.skip(1))
    }
}

/// Every key of `spend_all(m, ss, v)` holds `v` or its value in `m`.
pub proof fn lemma_spend_all_values(m: Map<Seq<u8>, int>, ss: Seq<SlipView>, v: int)
    ensures
        forall|k: Seq<u8>|
            #[trigger] spend_all(m, ss, v).contains_key(k) ==> (spend_all(m, ss, v)[k] == v || (
            m.contains_key(k) && spend_all(m, ss, v)[k] == m[k])),
    decreases ss.len(),
{
    if ss.len() > 0 {
        let fp = enc_slip_body(ss[0].body);
        let m2 = m.insert(fp, v);
        lemma_spend_all_values(m2, ss.skip(1), v);
        assert(spend_all(m, ss, v) == spend_all(m2, ss.skip(1), v));
        assert forall|k: Seq<u8>| #[trigger] spend_all(m, ss, v).contains_key(k) implies (spend_all(
            m,
            ss,
            v,
        )[k] == v || (m.contains_key(k) && spend_all(m, ss, v)[k] == m[k])) by {
            if spend_all(m2, ss.skip(1), v)[k] == v {
            } else {
                assert(m2.contains_key(k) && spend_all(m2, ss.skip(1), v)[k] == m2[k]);
                if k == fp {
                    assert(m2[k] == v);
                } else {
                    assert(m2[k] == m[k]);
                }
            }
        }
    }
}

/// Every key of `remove_all(m, ss)` holds its value in `m`.
pub proof fn lemma_remove_all_values(m: Map<Seq<u8>, int>, ss: Seq<SlipView>)
    ensures
        forall|k: Seq<u8>|
            #[trigger] remove_all(m, ss).contains_key(k) ==> (m.contains_key(k) && remove_all(
                m,
                ss,
            )[k] == m[k]),
    decreases ss.len(),
{
    if ss.len() > 0 {
        let fp = enc_slip_body(ss[0].body);
        let m2 = m.remove(fp);
        lemma_remove_all_values(m2, ss.skip(1));
        assert(remove_all(m, ss) == remove_all(m2, ss.skip(1)));
        assert forall|k: Seq<u8>| #[trigger] remove_all(m, ss).contains_key(k) implies (
        m.contains_key(k) && remove_all(m, ss)[k] == m[k]) by {
            assert(m2.contains_key(k) && remove_all(m2, ss.skip(1))[k] == m2[k]);
            assert(k != fp);
            assert(m2[k] == m[k]);
        }
    }
}

impl Shashmap {
    /// An empty utxo index.
    pub fn new() -> (r: Shashmap)
        ensures
            r@ == Map::<Seq<u8>, int>::empty(),
            r.wf(),
    {
        Shashmap { entries: Vec::new() }
    }

    /// A copy of the whole index, used to restore it wholesale when a
    /// candidate chain fails validation mid-application.
    pub fn snapshot(&self) -> (r: Shashmap)
        requires
            self.wf(),
        ensures
            r.wf(),
            r@ == self@,
    {
        let n = self.entries.len();
        let mut entries: Vec<UtxoEntry> = Vec::new();
        let mut i: usize = 0;
        while i < n
            invariant
                n == self.entries@.len(),
                i <= n,
                entries@.len() == i,
                forall|j: int|
                    0 <= j < i ==> entries@[j].key@ == self.entries@[j].key@ && entries@[j].val
                        == self.entries@[j].val,
            decreases n - i,
        {
            entries.push(
                UtxoEntry {
                    key: crate::bytes::copy_bytes(&self.entries[i].key),
                    val: self.entries[i].val,
                },
            );
            i += 1;
        }
        let r = Shashmap { entries };
        proof {
            lemma_map_of_congruence(r.entries@, self.entries@);
        }
        r
    }

    /// Replaces the whole index with a snapshot taken earlier.
    pub fn restore(&mut self, saved: Shashmap)
        requires
            saved.wf(),
        ensures
            final(self).wf(),
            final(self)@ == saved@,
    {
        self.entries = saved.entries;
    }

    /// The position of the entry holding fingerprint `key`, if any.
    fn find(&self, key: &[u8]) -> (r: Option<usize>)
        ensures
            match r {
                Some(i) => i < self.entries@.len() && self.entries@[i as int].key@ == key@,
                None => forall|i: int| 0 <= i < self.entries@.len() ==> self.entries@[i].key@ != key@,
            },
    {
        let n = self.entries.len();
        let mut i: usize = 0;
        while i < n
            invariant
                n == self.entries@.len(),
                i <= n,
                forall|j: int| 0 <= j < i ==> self.entries@[j].key@ != key@,
            decreases n - i,
        {
            if crate::bytes::bytes_eq(self.entries[i].key.as_slice(), key) {
                return Some(i);
            }
            i += 1;
        }
        None
    }

    /// Sets fingerprint `x` to `y`, inserting or overwriting.
    pub fn insert(&mut self, x: Vec<u8>, y: u32)
        requires
            old(self).wf(),
        ensures
            final(self).wf(),
            final(self)@ == old(self)@.insert(x@, y as int),
    {
        self.set_value(x, y as i64);
    }

    /// Sets fingerprint `key` to `val`, inserting or overwriting.
    fn set_value(&mut self, key: Vec<u8>, val: i64)
        requires
            old(self).wf(),
        ensures
            final(self).wf(),
            final(self)@ == old(self)@.insert(key@, val as int),
    {
        match self.find(key.as_slice()) {
            Some(i) => {
                let ghost s = self.entries@;
                let e = UtxoEntry { key, val };
                proof {
                    lemma_map_of_update(s, i as int, e);
                }
                self.entries.set(i, e);
            },
            None => {
                let ghost s = self.entries@;
                let e = UtxoEntry { key, val };
                proof {
                    lemma_map_of_push(s, e);
                }
                self.entries.push(e);
            },
        }
    }

    /// Removes fingerprint `key` if present.
    fn remove_key(&mut self, key: &[u8])
        requires
            old(self).wf(),
        ensures
            final(self).wf(),
            final(self)@ == old(self)@.remove(key@),
    {
        match self.find(key) {
            Some(i) => {
                let ghost s = self.entries@;
                proof {
                    lemma_map_of_remove(s, i as int);
                }
                self.entries.remove(i);
            },
            None => {
                proof {
                    lemma_map_of_absent(self.entries@, key@);
                    assert(self@.remove(key@) =~= self@);
                }
            },
        }
    }

    /// The spend state recorded for a slip fingerprint: nothing when the
    /// slip is unknown, -1 when it is unspent, the spending block id
    /// otherwise.
    pub fn return_value(&self, slip_index: Vec<u8>) -> (r: Option<&i64>)
        requires
            self.wf(),
        ensures
            match r {
                Some(v) => self@.contains_key(slip_index@) && *v as int == self@[slip_index@],
                None => !self@.contains_key(slip_index@),
            },
    {
        match self.find(slip_index.as_slice()) {
            Some(i) => {
                proof {
                    lemma_map_of_index(self.entries@, i as int);
                }
                Some(&self.entries[i].val)
            },
            None => {
                proof {
                    lemma_map_of_absent(self.entries@, slip_index@);
                }
                None
            },
        }
    }

    /// Marks every output slip of `tx` known and unspent.
    pub fn insert_new_transaction(&mut self, tx: &Transaction)
        requires
            old(self).wf(),
        ensures
            final(self).wf(),
            final(self)@ == spend_all(old(self)@, tx@.body.to, -1),
    {
        let n = tx.body.to.len();
        let mut i: usize = 0;
        proof {
            assert(tx@.body.to.skip(0) =~= tx@.body.to);
        }
        while i < n
            invariant
                n == tx.body.to@.len(),
                i <= n,
                self.wf(),
                spend_all(self@, tx@.body.to.skip(i as int), -1) == spend_all(
                    old(self)@,
                    tx@.body.to,
                    -1,
                ),
            decreases n - i,
        {
            proof {
                assert(tx@.body.to.skip(i as int)[0] == tx@.body.to[i as int]);
                assert(tx@.body.to.skip(i as int).skip(1) =~= tx@.body.to.skip(i + 1));
            }
            let fp = tx.body.to[i].return_signature_source();
            self.set_value(fp, -1);
            i += 1;
        }
        proof {
            assert(tx@.body.to.skip(n as int) =~= Seq::<SlipView>::empty());
        }
    }

    /// Marks every input slip of `tx` spent at block `bid`.
    pub fn spend_transaction(&mut self, tx: &Transaction, bid: u32)
        requires
            old(self).wf(),
        ensures
            final(self).wf(),
            final(self)@ == spend_all(old(self)@, tx@.body.from, bid as int),
    {
        let n = tx.body.from.len();
        let mut i: usize = 0;
        proof {
            assert(tx@.body.from.skip(0) =~= tx@.body.from);
        }
        while i < n
            invariant
                n == tx.body.from@.len(),
                i <= n,
                self.wf(),
                spend_all(self@, tx@.body.from.skip(i as int), bid as int) == spend_all(
                    old(self)@,
                    tx@.body.from,
                    bid as int,
                ),
            decreases n - i,
        {
            proof {
                assert(tx@.body.from.skip(i as int)[0] == tx@.body.from[i as int]);
                assert(tx@.body.from.skip(i as int).skip(1) =~= tx@.body.from.skip(i + 1));
            }
            let fp = tx.body.from[i].return_signature_source();
            self.set_value(fp, bid as i64);
            i += 1;
        }
        proof {
            assert(tx@.body.from.skip(n as int) =~= Seq::<SlipView>::empty());
        }
    }

    /// Undoes `tx`: its inputs become unspent again and its outputs cease
    /// to exist.
    pub fn unspend_transaction(&mut self, tx: &Transaction)
        requires
            old(self).wf(),
        ensures
            final(self).wf(),
            final(self)@ == remove_all(spend_all(old(self)@, tx@.body.from, -1), tx@.body.to),
    {
        let n = tx.body.from.len();
        let mut i: usize = 0;
        proof {
            assert(tx@.body.from.skip(0) =~= tx@.body.from);
        }
        while i < n
            invariant
                n == tx.body.from@.len(),
                i <= n,
                self.wf(),
                spend_all(self@, tx@.body.from.skip(i as int), -1) == spend_all(
                    old(self)@,
                    tx@.body.from,
                    -1,
                ),
            decreases n - i,
        {
            proof {
                assert(tx@.body.from.skip(i as int)[0] == tx@.body.from[i as int]);
                assert(tx@.body.from.skip(i as int).skip(1) =~= tx@.body.from.skip(i + 1));
            }
            let fp = tx.body.from[i].return_signature_source();
            self.set_value(fp, -1);
            i += 1;
        }
        proof {
            assert(tx@.body.from.skip(n as int) =~= Seq::<SlipView>::empty());
        }
        let ghost mid = self@;
        let m = tx.body.to.len();
        let mut j: usize = 0;
        proof {
            assert(tx@.body.to.skip(0) =~= tx@.body.to);
        }
        while j < m
            invariant
                m == tx.body.to@.len(),
                j <= m,
                self.wf(),
                remove_all(self@, tx@.body.to.skip(j as int)) == remove_all(mid, tx@.body.to),
            decreases m - j,
        {
            proof {
                assert(tx@.body.to.skip(j as int)[0] == tx@.body.to[j as int]);
                assert(tx@.body.to.skip(j as int).skip(1) =~= tx@.body.to.skip(j + 1));
            }
            let fp = tx.body.to[j].return_signature_source();
            self.remove_key(fp.as_slice());
            j += 1;
        }
        proof {
            assert(tx@.body.to.skip(m as int) =~= Seq::<SlipView>::empty());
        }
    }

    /// Marks one slip spent at block `bid`.
    pub fn spend_slip(&mut self, slip: &Slip, bid: u32)
        requires
            old(self).wf(),
        ensures
            final(self).wf(),
            final(self)@ == old(self)@.insert(enc_slip_body(slip@.body), bid as int),
    {
        let fp = slip.return_signature_source();
        self.set_value(fp, bid as i64);
    }

    /// Marks one slip known and unspent.
    pub fn unspend_slip(&mut self, slip: &Slip, _bid: u32)
        requires
            old(self).wf(),
        ensures
            final(self).wf(),
            final(self)@ == old(self)@.insert(enc_slip_body(slip@.body), -1),
    {
        let fp = slip.return_signature_source();
        self.set_value(fp, -1);
    }
}

} // verus!
