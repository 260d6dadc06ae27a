//! The wallet: the node's keys and the slips it may spend. The chain hands
//! the wallet each accepted block so it can credit outputs paying its key
//! and drop inputs spent from it.

use vstd::prelude::*;

use crate::block::Block;
use crate::slip::{enc_slip_body, Slip, SlipSpentStatus, SlipView};
use crate::transaction::{
    slips_view, sum_amts, sum_amts_to, Transaction, TransactionBroadcastType,
};

verus! {

/// The wallet's own data: keys, slips and defaults. The version is held
/// in hundredths.
#[derive(Debug)]
pub struct WalletBody {
    pub balance: u64,
    pub privatekey: Vec<u8>,
    pub publickey: Vec<u8>,
    pub slips: Vec<Slip>,
    pub default_fee: u64,
    pub version: u32,
    pub pending: Vec<Transaction>,
}

/// A wallet: its body and a cap on how many slips it keeps.
#[derive(Debug)]
pub struct Wallet {
    pub body: WalletBody,
    pub slips_limit: u32,
}

impl WalletBody {
    /// A fresh wallet body with a newly generated keypair.
    pub fn new() -> (r: WalletBody)
        ensures
            r.privatekey@.len() == 32,
            r.publickey@.len() == 33,
            r.slips@.len() == 0,
            r.balance == 0u64,
            r.default_fee == 200_000_000u64,
            r.version == 215u32,
    {
        let (privatekey, publickey) = crate::crypto::generate_keys();
        WalletBody {
            balance: 0,
            privatekey,
            publickey,
            slips: Vec::new(),
            default_fee: 200_000_000,
            version: 215,
            pending: Vec::new(),
        }
    }
}

/// The sum of the amounts of the unspent slips among `ss`.
pub open spec fn sum_unspent(ss: Seq<SlipView>) -> int
    decreases ss.len(),
{
    if ss.len() == 0 {
        0
    } else {
        (if ss[0].spent_status == SlipSpentStatus::Unspent {
            ss[0].body.amt as int
        } else {
            0
        }) + sum_unspent(ss.skip(1))
    }
}

/// Unspent sums are never negative.
pub proof fn lemma_sum_unspent_nonneg(ss: Seq<SlipView>)
    ensures
        sum_unspent(ss) >= 0,
    decreases ss.len(),
{
    if ss.len() > 0 {
        lemma_sum_unspent_nonneg(ss.skip(1));
    }
}

/// The slips kept when every slip fingerprinting to `fp` is dropped.
pub open spec fn slips_without(ss: Seq<SlipView>, fp: Seq<u8>) -> Seq<SlipView>
    decreases ss.len(),
{
    if ss.len() == 0 {
        Seq::<SlipView>::empty()
    } else if enc_slip_body(ss[0].body) == fp {
        slips_without(ss.skip(1), fp)
    } else {
        seq![ss[0]] + slips_without(ss.skip(1), fp)
    }
}

/// Keeping one more slip extends the kept prefix; dropping one leaves it.
pub proof fn lemma_slips_without_snoc(ss: Seq<SlipView>, i: int, fp: Seq<u8>)
    requires
        0 < i <= ss.len(),
    ensures
        slips_without(ss.take(i), fp) == if enc_slip_body(ss[i - 1].body) == fp {
            slips_without(ss.take(i - 1), fp)
        } else {
            slips_without(ss.take(i - 1), fp) + seq![ss[i - 1]]
        },
    decreases i,
{
    if i == 1 {
        let t1 = ss.take(1);
        assert(t1[0] == ss[0]);
        assert(t1.skip(1) =~= Seq::<SlipView>::empty());
        assert(ss.take(0) =~= Seq::<SlipView>::empty());
        if enc_slip_body(ss[0].body) == fp {
        } else {
            assert(slips_without(t1, fp) =~= slips_without(ss.take(0), fp) + seq![ss[0]]);
        }
    } else {
        lemma_slips_without_snoc(ss.skip(1), i - 1, fp);
        assert(ss.take(i)[0] == ss[0]);
        assert(ss.take(i).skip(1) =~= ss.skip(1).take(i - 1));
        assert(ss.take(i - 1)[0] == ss[0]);
        assert(ss.take(i - 1).skip(1) =~= ss.skip(1).take(i - 2));
        assert(ss.skip(1)[i - 2] == ss[i - 1]);
        if enc_slip_body(ss[0].body) == fp {
        } else {
            if enc_slip_body(ss[i - 1].body) == fp {
            } else {
                assert(seq![ss[0]] + (slips_without(ss.skip(1).take(i - 2), fp) + seq![ss[i - 1]])
                    =~= (seq![ss[0]] + slips_without(ss.skip(1).take(i - 2), fp)) + seq![
                    ss[i - 1],
                ]);
            }
        }
    }
}

/// The wallet's slips after dropping, in order, every input slip of a
/// transaction that pays `key`.
pub open spec fn slips_after_removals(
    ss: Seq<SlipView>,
    from: Seq<SlipView>,
    key: Seq<u8>,
) -> Seq<SlipView>
    decreases from.len(),
{
    if from.len() == 0 {
        ss
    } else {
        slips_after_removals(
            if from[0].body.add == key {
                slips_without(ss, enc_slip_body(from[0].body))
            } else {
                ss
            },
            from.skip(1),
            key,
        )
    }
}

/// The wallet's slips after appending, in order, every output slip of a
/// transaction that pays `key`.
pub open spec fn slips_after_credits(
    ss: Seq<SlipView>,
    to: Seq<SlipView>,
    key: Seq<u8>,
) -> Seq<SlipView>
    decreases to.len(),
{
    if to.len() == 0 {
        ss
    } else {
        slips_after_credits(
            if to[0].body.add == key {
                ss + seq![to[0]]
            } else {
                ss
            },
            to.skip(1),
            key,
        )
    }
}

/// One transaction's effect on the wallet's slips: inputs paying `key`
/// are dropped, then outputs paying `key` are credited.
pub open spec fn slips_after_tx(
    ss: Seq<SlipView>,
    t: crate::transaction::TransactionBodyView,
    key: Seq<u8>,
) -> Seq<SlipView> {
    slips_after_credits(slips_after_removals(ss, t.from, key), t.to, key)
}

/// A whole block's effect on the wallet's slips, transaction by
/// transaction.
pub open spec fn slips_after_block(
    ss: Seq<SlipView>,
    txs: Seq<crate::transaction::TransactionView>,
    key: Seq<u8>,
) -> Seq<SlipView>
    decreases txs.len(),
{
    if txs.len() == 0 {
        ss
    } else {
        slips_after_block(slips_after_tx(ss, txs[0].body, key), txs.skip(1), key)
    }
}

/// The inputs the wallet selects to cover a spend of `need`: walking the
/// slips in order, each unspent one is taken until the running total
/// exceeds `need`; nothing is selected when the unspent slips together
/// cannot.
pub open spec fn pick_inputs(ss: Seq<SlipView>, need: int) -> Option<Seq<SlipView>>
    decreases ss.len(),
{
    if ss.len() == 0 {
        None
    } else if ss[0].spent_status == SlipSpentStatus::Unspent {
        if ss[0].body.amt > need {
            Some(seq![ss[0]])
        } else {
            match pick_inputs(ss.skip(1), need - ss[0].body.amt) {
                Some(rest) => Some(seq![ss[0]] + rest),
                None => None,
            }
        }
    } else {
        pick_inputs(ss.skip(1), need)
    }
}

/// A selection with a prefix already taken.
pub open spec fn picked_with(p: Seq<SlipView>, o: Option<Seq<SlipView>>) -> Option<Seq<SlipView>> {
    match o {
        Some(r) => Some(p + r),
        None => None,
    }
}

impl Wallet {
    /// A fresh wallet with a newly generated keypair.
    pub fn new() -> (r: Wallet)
        ensures
            r.body.privatekey@.len() == 32,
            r.body.publickey@.len() == 33,
            r.body.slips@.len() == 0,
    {
        Wallet { body: WalletBody::new(), slips_limit: 10000 }
    }

    /// The wallet's public key.
    pub fn return_publickey(&self) -> (r: &Vec<u8>)
        ensures
            r@ == self.body.publickey@,
    {
        &self.body.publickey
    }

    /// Signs arbitrary bytes: the data is hashed, the digest signed with
    /// the wallet's private key.
    pub fn create_signature(&self, data: &[u8]) -> (r: Vec<u8>)
        requires
            self.body.privatekey@.len() == 32,
        ensures
            r@.len() == 64,
    {
        let mut data_vec: Vec<u8> = Vec::new();
        let n = data.len();
        let mut i: usize = 0;
        while i < n
            invariant
                n == data@.len(),
                i <= n,
                data_vec@.len() == i,
            decreases n - i,
        {
            data_vec.push(data[i]);
            i += 1;
        }
        let hashed = crate::crypto::sha256_hash(data_vec);
        crate::crypto::sign_digest(self.body.privatekey.as_slice(), hashed.as_slice())
    }

    /// Adds a slip to the wallet.
    pub fn add_slip(&mut self, slip: Slip)
        ensures
            slips_view(final(self).body.slips@) == slips_view(old(self).body.slips@) + seq![slip@],
            final(self).body.publickey@ == old(self).body.publickey@,
            final(self).body.privatekey@ == old(self).body.privatekey@,
    {
        self.body.slips.push(slip);
        proof {
            assert(slips_view(self.body.slips@) =~= slips_view(old(self).body.slips@) + seq![
                self.body.slips@.last()@,
            ]);
        }
    }

    /// Removes every held slip whose fingerprint matches `slip`'s; the
    /// fingerprint is the canonical serialization of the body, so this
    /// drops exactly the slips with the same body bytes.
    pub fn remove_slip(&mut self, slip: &Slip)
        ensures
            slips_view(final(self).body.slips@) == slips_without(
                slips_view(old(self).body.slips@),
                enc_slip_body(slip@.body),
            ),
            final(self).body.publickey@ == old(self).body.publickey@,
            final(self).body.privatekey@ == old(self).body.privatekey@,
    {
        let ghost sv = slips_view(self.body.slips@);
        let ghost fpv = enc_slip_body(slip@.body);
        let fp = slip.return_signature_source();
        let mut kept: Vec<Slip> = Vec::new();
        let n = self.body.slips.len();
        let mut i: usize = 0;
        proof {
            assert(sv.take(0) =~= Seq::<SlipView>::empty());
        }
        while i < n
            invariant
                n == self.body.slips@.len(),
                sv == slips_view(self.body.slips@),
                sv.len() == n,
                i <= n,
                fp@ == fpv,
                slips_view(kept@) == slips_without(sv.take(i as int), fpv),
            decreases n - i,
        {
            let cur = &self.body.slips[i];
            let cur_fp = cur.return_signature_source();
            let ghost before = kept@;
            proof {
                assert(sv[i as int] == self.body.slips@[i as int]@);
                lemma_slips_without_snoc(sv, i + 1, fpv);
            }
            if !crate::bytes::bytes_eq(cur_fp.as_slice(), fp.as_slice()) {
                kept.push(crate::transaction::copy_slip(cur));
                proof {
                    assert(slips_view(kept@) =~= slips_view(before) + seq![sv[i as int]]);
                }
            }
            i += 1;
        }
        proof {
            assert(sv.take(n as int) =~= sv);
        }
        self.body.slips = kept;
    }

    /// The wallet's spendable balance: the amounts of its unspent slips.
    pub fn return_balance(&self) -> (r: u64)
        requires
            sum_unspent(slips_view(self.body.slips@)) <= u64::MAX,
        ensures
            r as int == sum_unspent(slips_view(self.body.slips@)),
    {
        proof {
            lemma_sum_unspent_nonneg(slips_view(self.body.slips@));
        }
        let ghost sv = slips_view(self.body.slips@);
        let n = self.body.slips.len();
        let mut acc: u64 = 0;
        let mut i: usize = 0;
        proof {
            assert(sv.skip(0) =~= sv);
        }
        while i < n
            invariant
                n == self.body.slips@.len(),
                sv == slips_view(self.body.slips@),
                sv.len() == n,
                i <= n,
                acc + sum_unspent(sv.skip(i as int)) == sum_unspent(sv),
                sum_unspent(sv) <= u64::MAX,
                acc <= sum_unspent(sv),
            decreases n - i,
        {
            proof {
                assert(sv.skip(i as int)[0] == self.body.slips@[i as int]@);
                assert(sv.skip(i as int).skip(1) =~= sv.skip(i + 1));
                lemma_sum_unspent_nonneg(sv.skip(i + 1));
            }
            let s = &self.body.slips[i];
            if matches!(s.spent_status, SlipSpentStatus::Unspent) {
                acc = acc + s.body.amt;
            }
            i += 1;
        }
        proof {
            assert(sv.skip(n as int) =~= Seq::<SlipView>::empty());
        }
        acc
    }

    /// The first unspent slips whose amounts together exceed `amt`,
    /// following `pick_inputs`; or nothing when all unspent slips
    /// together do not exceed it (or their total leaves the machine
    /// range).
    pub fn return_available_inputs(&self, amt: u64) -> (r: Option<Vec<Slip>>)
        ensures
            match r {
                Some(v) => sum_amts(slips_view(v@)) > amt && sum_amts(slips_view(v@))
                    <= u64::MAX && v@.len() <= self.body.slips@.len() && forall|i: int|
                    0 <= i < v@.len() ==> (#[trigger] slips_view(v@)[i]).spent_status
                        == SlipSpentStatus::Unspent,
                None => sum_unspent(slips_view(self.body.slips@)) <= amt || sum_unspent(
                    slips_view(self.body.slips@),
                ) > u64::MAX,
            },
            sum_unspent(slips_view(self.body.slips@)) <= u64::MAX ==> match r {
                Some(v) => pick_inputs(slips_view(self.body.slips@), amt as int) == Some(
                    slips_view(v@),
                ),
                None => pick_inputs(slips_view(self.body.slips@), amt as int) is None,
            },
            (sum_unspent(slips_view(self.body.slips@)) > amt && sum_unspent(
                slips_view(self.body.slips@),
            ) <= u64::MAX) ==> r is Some,
    {
        let mut picked: Vec<Slip> = Vec::new();
        let n = self.body.slips.len();
        let ghost sv = slips_view(self.body.slips@);
        let mut total: u64 = 0;
        let mut i: usize = 0;
        proof {
            assert(sv.skip(0) =~= sv);
            lemma_sum_unspent_nonneg(sv);
            assert(slips_view(picked@) =~= Seq::<SlipView>::empty());
            match pick_inputs(sv, amt as int) {
                Some(r0) => {
                    assert(Seq::<SlipView>::empty() + r0 =~= r0);
                },
                None => {},
            }
        }
        while i < n
            invariant
                n == self.body.slips@.len(),
                sv == slips_view(self.body.slips@),
                sv.len() == n,
                i <= n,
                total as int == sum_amts(slips_view(picked@)),
                total <= amt,
                sum_unspent(sv) == total + sum_unspent(sv.skip(i as int)),
                picked@.len() <= i,
                forall|j: int|
                    0 <= j < picked@.len() ==> (#[trigger] slips_view(picked@)[j]).spent_status
                        == SlipSpentStatus::Unspent,
                picked_with(slips_view(picked@), pick_inputs(sv.skip(i as int), amt - total))
                    == pick_inputs(sv, amt as int),
            decreases n - i,
        {
            proof {
                assert(sv.skip(i as int)[0] == self.body.slips@[i as int]@);
                assert(sv.skip(i as int).skip(1) =~= sv.skip(i + 1));
            }
            let s = &self.body.slips[i];
            if matches!(s.spent_status, SlipSpentStatus::Unspent) {
                let ghost before = picked@;
                if s.body.amt > u64::MAX - total {
                    // the running sum would leave the machine range; the
                    // caller treats this as having no usable inputs
                    proof {
                        lemma_sum_unspent_nonneg(sv.skip(i + 1));
                        assert(sum_unspent(sv.skip(i as int)) == self.body.slips@[i as int]@.body.amt
                            + sum_unspent(sv.skip(i + 1)));
                    }
                    return None;
                }
                picked.push(crate::transaction::copy_slip(s));
                proof {
                    assert(slips_view(picked@) =~= slips_view(before) + seq![
                        self.body.slips@[i as int]@,
                    ]);
                    lemma_sum_amts_snoc(slips_view(before), self.body.slips@[i as int]@);
                }
                total = total + s.body.amt;
                if total > amt {
                    proof {
                        lemma_sum_unspent_nonneg(sv.skip(i + 1));
                        let head = sv.skip(i as int)[0];
                        assert(pick_inputs(sv.skip(i as int), amt - (total - head.body.amt))
                            == Some(seq![head]));
                        assert(slips_view(before) + seq![head] =~= slips_view(picked@));
                    }
                    return Some(picked);
                }
                proof {
                    let head = sv.skip(i as int)[0];
                    match pick_inputs(sv.skip(i + 1), amt - total) {
                        Some(rest) => {
                            assert((slips_view(before) + seq![head]) + rest =~= slips_view(before)
                                + (seq![head] + rest));
                        },
                        None => {},
                    }
                }
            }
            i += 1;
        }
        proof {
            assert(sv.skip(n as int) =~= Seq::<SlipView>::empty());
        }
        None
    }

    /// Builds a transaction of the given type paying `fee` plus `amt`,
    /// funded from the wallet's unspent slips, with the change returned to
    /// `publickey`; or nothing when the wallet cannot cover the total.
    pub fn create_transaction(
        &self,
        publickey: Vec<u8>,
        tx_type: TransactionBroadcastType,
        fee: u64,
        amt: u64,
    ) -> (r: Option<Transaction>)
        requires
            publickey@.len() == 33,
            fee + amt <= u64::MAX,
            self.body.slips@.len() <= u32::MAX,
        ensures
            match r {
                Some(tx) => {
                    &&& tx@.body.typ == tx_type
                    &&& tx@.body.to.len() == 1
                    &&& sum_amts(tx@.body.from) > fee + amt
                    &&& tx@.body.to[0].body.amt as int == sum_amts(tx@.body.from) - (fee + amt)
                    &&& (sum_unspent(slips_view(self.body.slips@)) <= u64::MAX ==> pick_inputs(
                        slips_view(self.body.slips@),
                        fee + amt,
                    ) == Some(tx@.body.from))
                },
                None => sum_unspent(slips_view(self.body.slips@)) <= fee + amt || sum_unspent(
                    slips_view(self.body.slips@),
                ) > u64::MAX,
            },
            (sum_unspent(slips_view(self.body.slips@)) > fee + amt && sum_unspent(
                slips_view(self.body.slips@),
            ) <= u64::MAX) ==> r is Some,
    {
        let total = fee + amt;
        match self.return_available_inputs(total) {
            Some(slips) => {
                let from_amt = crate::transaction::sum_slip_amts(&slips);
                proof {
                    crate::transaction::lemma_sum_amts_nonneg(slips_view(slips@));
                }
                let to_recover_amt = (from_amt - (total as u128)) as u64;
                let mut tx = Transaction::new();
                tx.set_tx_type(tx_type);
                let m = slips.len();
                let mut i: usize = 0;
                while i < m
                    invariant
                        m == slips@.len(),
                        i <= m,
                        tx@.body.from == slips_view(slips@).take(i as int),
                        tx@.body.to.len() == 0,
                        tx@.body.typ == tx_type,
                    decreases m - i,
                {
                    tx.add_from_slip(crate::transaction::copy_slip(&slips[i]));
                    proof {
                        assert(slips_view(slips@).take(i + 1) =~= slips_view(slips@).take(i as int)
                            + seq![slips@[i as int]@]);
                    }
                    i += 1;
                }
                proof {
                    assert(slips_view(slips@).take(m as int) =~= slips_view(slips@));
                }
                let mut to_slip = Slip::new(publickey);
                to_slip.set_amt(to_recover_amt);
                let ghost before_to = tx@.body.to;
                tx.add_to_slip(to_slip);
                proof {
                    assert(tx@.body.to =~= seq![tx@.body.to[0]]);
                    assert(sum_amts(tx@.body.to) == tx@.body.to[0].body.amt + sum_amts(
                        tx@.body.to.skip(1),
                    ));
                    assert(tx@.body.to.skip(1) =~= Seq::<SlipView>::empty());
                }
                Some(tx)
            },
            None => None,
        }
    }
}

/// Appending one slip adds its amount to the sum.
pub proof fn lemma_sum_amts_snoc(ss: Seq<SlipView>, s: SlipView)
    ensures
        sum_amts(ss + seq![s]) == sum_amts(ss) + s.body.amt,
    decreases ss.len(),
{
    if ss.len() == 0 {
        assert(ss + seq![s] =~= seq![s]);
        assert((seq![s])[0] == s);
        assert((seq![s]).skip(1) =~= Seq::<SlipView>::empty());
        assert(sum_amts(seq![s]) == s.body.amt + sum_amts((seq![s]).skip(1)));
    } else {
        let w = ss + seq![s];
        assert(w[0] == ss[0]);
        assert(w.skip(1) =~= ss.skip(1) + seq![s]);
        assert(sum_amts(w) == w[0].body.amt + sum_amts(w.skip(1)));
        lemma_sum_amts_snoc(ss.skip(1), s);
        assert(sum_amts(ss) == ss[0].body.amt + sum_amts(ss.skip(1)));
    }
}



/// Applies one accepted block to the wallet, as the chain does on
/// success: for each transaction, in order, the inputs paying the
/// wallet's key are dropped from its slips and the outputs paying it are
/// credited.
pub fn apply_block_to_wallet(wallet: &mut Wallet, blk: &Block)
    ensures
        slips_view(final(wallet).body.slips@) == slips_after_block(
            slips_view(old(wallet).body.slips@),
            blk@.body.txs,
            old(wallet).body.publickey@,
        ),
        final(wallet).body.publickey@ == old(wallet).body.publickey@,
        final(wallet).body.privatekey@ == old(wallet).body.privatekey@,
{
    let ghost txs = blk@.body.txs;
    let ghost key = wallet.body.publickey@;
    let n = blk.body.txs.len();
    let mut i: usize = 0;
    proof {
        assert(txs.skip(0) =~= txs);
    }
    while i < n
        invariant
            n == blk.body.txs@.len(),
            txs == blk@.body.txs,
            txs.len() == n,
            i <= n,
            key == wallet.body.publickey@,
            wallet.body.publickey@ == old(wallet).body.publickey@,
            wallet.body.privatekey@ == old(wallet).body.privatekey@,
            slips_after_block(slips_view(wallet.body.slips@), txs.skip(i as int), key)
                == slips_after_block(slips_view(old(wallet).body.slips@), txs, key),
        decreases n - i,
    {
        proof {
            assert(txs.skip(i as int)[0] == txs[i as int]);
            assert(txs.skip(i as int).skip(1) =~= txs.skip(i + 1));
            assert(blk@.body.txs[i as int] == blk.body.txs@[i as int]@);
        }
        let tx = &blk.body.txs[i];
        let ghost from = tx@.body.from;
        let ghost entry_slips = slips_view(wallet.body.slips@);
        let m = tx.body.from.len();
        let mut j: usize = 0;
        proof {
            assert(from.skip(0) =~= from);
        }
        while j < m
            invariant
                m == tx.body.from@.len(),
                from == tx@.body.from,
                from.len() == m,
                j <= m,
                key == wallet.body.publickey@,
                wallet.body.publickey@ == old(wallet).body.publickey@,
                wallet.body.privatekey@ == old(wallet).body.privatekey@,
                slips_after_removals(slips_view(wallet.body.slips@), from.skip(j as int), key)
                    == slips_after_removals(entry_slips, from, key),
            decreases m - j,
        {
            proof {
                assert(from.skip(j as int)[0] == from[j as int]);
                assert(from.skip(j as int).skip(1) =~= from.skip(j + 1));
                assert(tx@.body.from[j as int] == tx.body.from@[j as int]@);
            }
            let slip = &tx.body.from[j];
            if slip.pays(wallet.body.publickey.as_slice()) {
                wallet.remove_slip(slip);
            }
            j += 1;
        }
        proof {
            assert(from.skip(m as int) =~= Seq::<SlipView>::empty());
        }
        let ghost to = tx@.body.to;
        let ghost mid_slips = slips_view(wallet.body.slips@);
        let t = tx.body.to.len();
        let mut k: usize = 0;
        proof {
            assert(to.skip(0) =~= to);
        }
        while k < t
            invariant
                t == tx.body.to@.len(),
                to == tx@.body.to,
                to.len() == t,
                k <= t,
                key == wallet.body.publickey@,
                wallet.body.publickey@ == old(wallet).body.publickey@,
                wallet.body.privatekey@ == old(wallet).body.privatekey@,
                slips_after_credits(slips_view(wallet.body.slips@), to.skip(k as int), key)
                    == slips_after_credits(mid_slips, to, key),
            decreases t - k,
        {
            proof {
                assert(to.skip(k as int)[0] == to[k as int]);
                assert(to.skip(k as int).skip(1) =~= to.skip(k + 1));
                assert(tx@.body.to[k as int] == tx.body.to@[k as int]@);
            }
            let slip = &tx.body.to[k];
            if slip.pays(wallet.body.publickey.as_slice()) {
                wallet.add_slip(crate::transaction::copy_slip(slip));
            }
            k += 1;
        }
        proof {
            assert(to.skip(t as int) =~= Seq::<SlipView>::empty());
            assert(slips_view(wallet.body.slips@) == slips_after_tx(
                entry_slips,
                txs[i as int].body,
                key,
            ));
        }
        i += 1;
    }
    proof {
        assert(txs.skip(n as int) =~= Seq::<crate::transaction::TransactionView>::empty());
    }
}

} // verus!

