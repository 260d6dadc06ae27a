//! Transactions: input and output slips, a signature over the body bytes,
//! routing hops and an opaque payload. The difference between input and
//! output amounts is the transaction fee.

use vstd::prelude::*;

use crate::bytes::{
    dec_bytes, dec_u32, dec_u64, dec_u8, lemma_concat_split, lemma_dec_u32, lemma_dec_u64,
    push_bytes, push_u32_be, push_u64_be, u32_be, u64_be, zero_bytes,
};
use crate::hop::{dec_hop, enc_hop, wf_hop, Hop, HopView};
use crate::slip::{
    dec_slip, enc_slip, encode_slip, wf_slip, Slip, SlipView,
};

verus! {

/// The role a transaction plays on the wire.
#[derive(Clone, Copy, Debug, PartialEq, Eq, Structural)]
pub enum TransactionBroadcastType {
    Normal,
    GoldenTicket,
    Fee,
    Rebroadcast,
    VIP,
    GoldenChunk,
}

/// The wire byte for a transaction type.
pub open spec fn tx_typ_byte(t: TransactionBroadcastType) -> u8 {
    match t {
        TransactionBroadcastType::Normal => 0,
        TransactionBroadcastType::GoldenTicket => 1,
        TransactionBroadcastType::Fee => 2,
        TransactionBroadcastType::Rebroadcast => 3,
        TransactionBroadcastType::VIP => 4,
        TransactionBroadcastType::GoldenChunk => 5,
    }
}

/// The transaction type a wire byte stands for.
pub open spec fn dec_tx_typ(b: u8) -> Option<TransactionBroadcastType> {
    if b == 0 {
        Some(TransactionBroadcastType::Normal)
    } else if b == 1 {
        Some(TransactionBroadcastType::GoldenTicket)
    } else if b == 2 {
        Some(TransactionBroadcastType::Fee)
    } else if b == 3 {
        Some(TransactionBroadcastType::Rebroadcast)
    } else if b == 4 {
        Some(TransactionBroadcastType::VIP)
    } else if b == 5 {
        Some(TransactionBroadcastType::GoldenChunk)
    } else {
        None
    }
}

/// The body of a transaction. The version field is stored in hundredths.
#[derive(Clone, Debug, PartialEq)]
pub struct TransactionBody {
    pub id: u32,
    pub ts: u64,
    pub to: Vec<Slip>,
    pub from: Vec<Slip>,
    pub sig: Vec<u8>,
    pub ver: u32,
    pub typ: TransactionBroadcastType,
    pub path: Vec<Hop>,
    pub msg: Vec<u8>,
    pub ps: u8,
}

/// A transaction: its body plus a validity byte.
#[derive(Clone, Debug, PartialEq)]
pub struct Transaction {
    pub body: TransactionBody,
    pub is_valid: u8,
}

/// Mathematical image of a transaction body.
pub ghost struct TransactionBodyView {
    pub id: u32,
    pub ts: u64,
    pub to: Seq<SlipView>,
    pub from: Seq<SlipView>,
    pub sig: Seq<u8>,
    pub ver: u32,
    pub typ: TransactionBroadcastType,
    pub path: Seq<HopView>,
    pub msg: Seq<u8>,
    pub ps: u8,
}

/// Mathematical image of a transaction.
pub ghost struct TransactionView {
    pub body: TransactionBodyView,
    pub is_valid: u8,
}

/// The mathematical images of a sequence of slips.
pub open spec fn slips_view(v: Seq<Slip>) -> Seq<SlipView> {
    v.map_values(|s: Slip| s@)
}

/// The mathematical images of a sequence of hops.
pub open spec fn hops_view(v: Seq<Hop>) -> Seq<HopView> {
    v.map_values(|h: Hop| h@)
}

impl View for TransactionBody {
    type V = TransactionBodyView;

    open spec fn view(&self) -> TransactionBodyView {
        TransactionBodyView {
            id: self.id,
            ts: self.ts,
            to: slips_view(self.to@),
            from: slips_view(self.from@),
            sig: self.sig@,
            ver: self.ver,
            typ: self.typ,
            path: hops_view(self.path@),
            msg: self.msg@,
            ps: self.ps,
        }
    }
}

impl View for Transaction {
    type V = TransactionView;

    open spec fn view(&self) -> TransactionView {
        TransactionView { body: self.body@, is_valid: self.is_valid }
    }
}

/// A transaction body is well formed when its signature has 64 bytes, its
/// slips and hops are well formed, and its lists and payload are short
/// enough for 32-bit length prefixes.
pub open spec fn wf_tx_body(t: TransactionBodyView) -> bool {
    &&& t.sig.len() == 64
    &&& forall|i: int| 0 <= i < t.to.len() ==> wf_slip(#[trigger] t.to[i])
    &&& forall|i: int| 0 <= i < t.from.len() ==> wf_slip(#[trigger] t.from[i])
    &&& forall|i: int| 0 <= i < t.path.len() ==> wf_hop(#[trigger] t.path[i])
    &&& t.to.len() <= u32::MAX
    &&& t.from.len() <= u32::MAX
    &&& t.path.len() <= u32::MAX
    &&& t.msg.len() <= u32::MAX
}

/// A transaction is well formed when its body is.
pub open spec fn wf_tx(t: TransactionView) -> bool {
    wf_tx_body(t.body)
}

/// The sum of the amounts of a sequence of slips.
pub open spec fn sum_amts(ss: Seq<SlipView>) -> int
    decreases ss.len(),
{
    if ss.len() == 0 {
        0
    } else {
        ss[0].body.amt + sum_amts(ss.skip(1))
    }
}

/// The sum of the amounts of the slips paying `addr`.
pub open spec fn sum_amts_to(ss: Seq<SlipView>, addr: Seq<u8>) -> int
    decreases ss.len(),
{
    if ss.len() == 0 {
        0
    } else {
        (if ss[0].body.add == addr {
            ss[0].body.amt as int
        } else {
            0
        }) + sum_amts_to(ss.skip(1), addr)
    }
}

/// Slip amount sums are never negative.
pub proof fn lemma_sum_amts_nonneg(ss: Seq<SlipView>)
    ensures
        sum_amts(ss) >= 0,
    decreases ss.len(),
{
    if ss.len() > 0 {
        lemma_sum_amts_nonneg(ss.skip(1));
    }
}

/// Filtered slip amount sums are never negative and never exceed the
/// unfiltered sum.
pub proof fn lemma_sum_amts_to_bounds(ss: Seq<SlipView>, addr: Seq<u8>)
    ensures
        0 <= sum_amts_to(ss, addr),
        sum_amts_to(ss, addr) <= sum_amts(ss),
    decreases ss.len(),
{
    if ss.len() > 0 {
        lemma_sum_amts_to_bounds(ss.skip(1), addr);
    }
}

/// The fee a transaction pays: input amounts minus output amounts, clamped
/// at zero.
pub open spec fn tx_fee(t: TransactionBodyView) -> int {
    if sum_amts(t.from) >= sum_amts(t.to) {
        sum_amts(t.from) - sum_amts(t.to)
    } else {
        0
    }
}

/// The fee usable by `addr`: inputs from `addr` minus outputs back to
/// `addr`, clamped at zero.
pub open spec fn tx_fees_usable(t: TransactionBodyView, addr: Seq<u8>) -> int {
    if sum_amts_to(t.from, addr) >= sum_amts_to(t.to, addr) {
        sum_amts_to(t.from, addr) - sum_amts_to(t.to, addr)
    } else {
        0
    }
}

/// Canonical serialization of a sequence of slips.
pub open spec fn enc_slips(ss: Seq<SlipView>) -> Seq<u8>
    decreases ss.len(),
{
    if ss.len() == 0 {
        Seq::<u8>::empty()
    } else {
        enc_slip(ss[0]) + enc_slips(ss.skip(1))
    }
}

/// Canonical serialization of a sequence of hops.
pub open spec fn enc_hops(hh: Seq<HopView>) -> Seq<u8>
    decreases hh.len(),
{
    if hh.len() == 0 {
        Seq::<u8>::empty()
    } else {
        enc_hop(hh[0]) + enc_hops(hh.skip(1))
    }
}

/// Decoding of `n` slips at `pos`.
pub open spec fn dec_slips(data: Seq<u8>, pos: int, n: int) -> Option<(Seq<SlipView>, int)>
    decreases n,
{
    if n <= 0 {
        Some((Seq::<SlipView>::empty(), pos))
    } else {
        match dec_slip(data, pos) {
            None => None,
            Some((s, p1)) => match dec_slips(data, p1, n - 1) {
                None => None,
                Some((rest, p2)) => Some((seq![s] + rest, p2)),
            },
        }
    }
}

/// Decoding of `n` hops at `pos`.
pub open spec fn dec_hops(data: Seq<u8>, pos: int, n: int) -> Option<(Seq<HopView>, int)>
    decreases n,
{
    if n <= 0 {
        Some((Seq::<HopView>::empty(), pos))
    } else {
        match dec_hop(data, pos) {
            None => None,
            Some((h, p1)) => match dec_hops(data, p1, n - 1) {
                None => None,
                Some((rest, p2)) => Some((seq![h] + rest, p2)),
            },
        }
    }
}

/// Well-formed slips encoded at `pos` decode to themselves.
pub proof fn lemma_dec_enc_slips(data: Seq<u8>, pos: int, ss: Seq<SlipView>)
    requires
        forall|i: int| 0 <= i < ss.len() ==> wf_slip(#[trigger] ss[i]),
        0 <= pos,
        pos + enc_slips(ss).len() <= data.len(),
        data.subrange(pos, pos + enc_slips(ss).len()) == enc_slips(ss),
    ensures
        dec_slips(data, pos, ss.len() as int) == Some((ss, pos + enc_slips(ss).len())),
    decreases ss.len(),
{
    if ss.len() == 0 {
        assert(dec_slips(data, pos, 0) == Some((Seq::<SlipView>::empty(), pos)));
        assert(ss =~= Seq::<SlipView>::empty());
    } else {
        let head = ss[0];
        let rest = ss.skip(1);
        lemma_concat_split(data, pos, enc_slip(head), enc_slips(rest));
        lemma_dec_enc_slip(data, pos, head);
        lemma_dec_enc_slips(data, pos + enc_slip(head).len(), rest);
        assert(seq![head] + rest =~= ss);
    }
}

/// Well-formed hops encoded at `pos` decode to themselves.
pub proof fn lemma_dec_enc_hops(data: Seq<u8>, pos: int, hh: Seq<HopView>)
    requires
        forall|i: int| 0 <= i < hh.len() ==> wf_hop(#[trigger] hh[i]),
        0 <= pos,
        pos + enc_hops(hh).len() <= data.len(),
        data.subrange(pos, pos + enc_hops(hh).len()) == enc_hops(hh),
    ensures
        dec_hops(data, pos, hh.len() as int) == Some((hh, pos + enc_hops(hh).len())),
    decreases hh.len(),
{
    if hh.len() == 0 {
        assert(hh =~= Seq::<HopView>::empty());
    } else {
        let head = hh[0];
        let rest = hh.skip(1);
        lemma_concat_split(data, pos, enc_hop(head), enc_hops(rest));
        crate::hop::lemma_dec_enc_hop(data, pos, head);
        lemma_dec_enc_hops(data, pos + enc_hop(head).len(), rest);
        assert(seq![head] + rest =~= hh);
    }
}

/// Canonical serialization of a transaction body: identifiers, the two
/// slip lists and the hop list with 32-bit count prefixes, the signature,
/// the length-prefixed payload and the paysplit vote byte.
pub open spec fn enc_tx_body(t: TransactionBodyView) -> Seq<u8> {
    u32_be(t.id) + u64_be(t.ts) + u32_be(t.to.len() as u32) + enc_slips(t.to) + u32_be(
        t.from.len() as u32,
    ) + enc_slips(t.from) + t.sig + u32_be(t.ver) + seq![tx_typ_byte(t.typ)] + u32_be(
        t.path.len() as u32,
    ) + enc_hops(t.path) + u32_be(t.msg.len() as u32) + t.msg + seq![t.ps]
}

/// Canonical serialization of a transaction: its body plus the validity
/// byte.
pub open spec fn enc_tx(t: TransactionView) -> Seq<u8> {
    enc_tx_body(t.body) + seq![t.is_valid]
}

/// Decoding of a transaction body at `pos`.
pub open spec fn dec_tx_body(data: Seq<u8>, pos: int) -> Option<(TransactionBodyView, int)> {
    match dec_u32(data, pos) {
        None => None,
        Some((id, p1)) => match dec_u64(data, p1) {
            None => None,
            Some((ts, p2)) => match dec_u32(data, p2) {
                None => None,
                Some((nto, p3)) => match dec_slips(data, p3, nto as int) {
                    None => None,
                    Some((to, p4)) => match dec_u32(data, p4) {
                        None => None,
                        Some((nfrom, p5)) => match dec_slips(data, p5, nfrom as int) {
                            None => None,
                            Some((from, p6)) => match dec_bytes(data, p6, 64) {
                                None => None,
                                Some((sig, p7)) => match dec_u32(data, p7) {
                                    None => None,
                                    Some((ver, p8)) => match dec_u8(data, p8) {
                                        None => None,
                                        Some((tb, p9)) => match dec_tx_typ(tb) {
                                            None => None,
                                            Some(typ) => match dec_u32(data, p9) {
                                                None => None,
                                                Some((npath, p10)) => match dec_hops(
                                                    data,
                                                    p10,
                                                    npath as int,
                                                ) {
                                                    None => None,
                                                    Some((path, p11)) => match dec_u32(data, p11) {
                                                        None => None,
                                                        Some((nmsg, p12)) => match dec_bytes(
                                                            data,
                                                            p12,
                                                            nmsg as int,
                                                        ) {
                                                            None => None,
                                                            Some((msg, p13)) => match dec_u8(
                                                                data,
                                                                p13,
                                                            ) {
                                                                None => None,
                                                                Some((ps, p14)) => Some(
                                                                    (
                                                                        TransactionBodyView {
                                                                            id,
                                                                            ts,
                                                                            to,
                                                                            from,
                                                                            sig,
                                                                            ver,
                                                                            typ,
                                                                            path,
                                                                            msg,
                                                                            ps,
                                                                        },
                                                                        p14,
                                                                    ),
                                                                ),
                                                            },
                                                        },
                                                    },
                                                },
                                            },
                                        },
                                    },
                                },
                            },
                        },
                    },
                },
            },
        },
    }
}

/// Decoding of a transaction at `pos`.
pub open spec fn dec_tx(data: Seq<u8>, pos: int) -> Option<(TransactionView, int)> {
    match dec_tx_body(data, pos) {
        None => None,
        Some((body, p1)) => match dec_u8(data, p1) {
            None => None,
            Some((is_valid, p2)) => Some((TransactionView { body, is_valid }, p2)),
        },
    }
}

/// A well-formed transaction body encoded at `pos` decodes to itself.
#[verifier::rlimit(100)]
#[verifier::spinoff_prover]
pub proof fn lemma_dec_enc_tx_body(data: Seq<u8>, pos: int, t: TransactionBodyView)
    requires
        wf_tx_body(t),
        0 <= pos,
        pos + enc_tx_body(t).len() <= data.len(),
        data.subrange(pos, pos + enc_tx_body(t).len()) == enc_tx_body(t),
    ensures
        dec_tx_body(data, pos) == Some((t, pos + enc_tx_body(t).len())),
{
    let f01 = u32_be(t.id);
    let f02 = u64_be(t.ts);
    let f03 = u32_be(t.to.len() as u32);
    let f04 = enc_slips(t.to);
    let f05 = u32_be(t.from.len() as u32);
    let f06 = enc_slips(t.from);
    let f07 = t.sig;
    let f08 = u32_be(t.ver);
    let f09 = seq![tx_typ_byte(t.typ)];
    let f10 = u32_be(t.path.len() as u32);
    let f11 = enc_hops(t.path);
    let f12 = u32_be(t.msg.len() as u32);
    let f13 = t.msg;
    let f14 = seq![t.ps];
    let e13 = f01 + f02 + f03 + f04 + f05 + f06 + f07 + f08 + f09 + f10 + f11 + f12 + f13;
    let e12 = f01 + f02 + f03 + f04 + f05 + f06 + f07 + f08 + f09 + f10 + f11 + f12;
    let e11 = f01 + f02 + f03 + f04 + f05 + f06 + f07 + f08 + f09 + f10 + f11;
    let e10 = f01 + f02 + f03 + f04 + f05 + f06 + f07 + f08 + f09 + f10;
    let e09 = f01 + f02 + f03 + f04 + f05 + f06 + f07 + f08 + f09;
    let e08 = f01 + f02 + f03 + f04 + f05 + f06 + f07 + f08;
    let e07 = f01 + f02 + f03 + f04 + f05 + f06 + f07;
    let e06 = f01 + f02 + f03 + f04 + f05 + f06;
    let e05 = f01 + f02 + f03 + f04 + f05;
    let e04 = f01 + f02 + f03 + f04;
    let e03 = f01 + f02 + f03;
    let e02 = f01 + f02;
    lemma_concat_split(data, pos, e13, f14);
    lemma_concat_split(data, pos, e12, f13);
    lemma_concat_split(data, pos, e11, f12);
    lemma_concat_split(data, pos, e10, f11);
    lemma_concat_split(data, pos, e09, f10);
    lemma_concat_split(data, pos, e08, f09);
    lemma_concat_split(data, pos, e07, f08);
    lemma_concat_split(data, pos, e06, f07);
    lemma_concat_split(data, pos, e05, f06);
    lemma_concat_split(data, pos, e04, f05);
    lemma_concat_split(data, pos, e03, f04);
    lemma_concat_split(data, pos, e02, f03);
    lemma_concat_split(data, pos, f01, f02);
    let p1 = pos + 4;
    let p2 = p1 + 8;
    let p3 = p2 + 4;
    let p4 = p3 + f04.len();
    let p5 = p4 + 4;
    let p6 = p5 + f06.len();
    let p7 = p6 + 64;
    let p8 = p7 + 4;
    let p9 = p8 + 1;
    let p10 = p9 + 4;
    let p11 = p10 + f11.len();
    let p12 = p11 + 4;
    let p13 = p12 + f13.len();
    let p14 = p13 + 1;
    lemma_dec_u32(data, pos, t.id);
    lemma_dec_u64(data, p1, t.ts);
    lemma_dec_u32(data, p2, t.to.len() as u32);
    lemma_dec_enc_slips(data, p3, t.to);
    lemma_dec_u32(data, p4, t.from.len() as u32);
    lemma_dec_enc_slips(data, p5, t.from);
    assert(data.subrange(p6, p7) == t.sig);
    lemma_dec_u32(data, p7, t.ver);
    assert(data[p8] == tx_typ_byte(t.typ)) by {
        assert(data.subrange(p8, p9)[0] == data[p8]);
    }
    lemma_dec_u32(data, p9, t.path.len() as u32);
    lemma_dec_enc_hops(data, p10, t.path);
    lemma_dec_u32(data, p11, t.msg.len() as u32);
    assert(data.subrange(p12, p13) == t.msg);
    assert(data[p13] == t.ps) by {
        assert(data.subrange(p13, p14)[0] == data[p13]);
    }
    assert((t.to.len() as u32) as int == t.to.len() as int);
    assert((t.from.len() as u32) as int == t.from.len() as int);
    assert((t.path.len() as u32) as int == t.path.len() as int);
    assert((t.msg.len() as u32) as int == t.msg.len() as int);
}

/// A well-formed transaction encoded at `pos` decodes to itself.
pub proof fn lemma_dec_enc_tx(data: Seq<u8>, pos: int, t: TransactionView)
    requires
        wf_tx(t),
        0 <= pos,
        pos + enc_tx(t).len() <= data.len(),
        data.subrange(pos, pos + enc_tx(t).len()) == enc_tx(t),
    ensures
        dec_tx(data, pos) == Some((t, pos + enc_tx(t).len())),
{
    lemma_concat_split(data, pos, enc_tx_body(t.body), seq![t.is_valid]);
    lemma_dec_enc_tx_body(data, pos, t.body);
    let p1 = pos + enc_tx_body(t.body).len();
    assert(data[p1] == t.is_valid) by {
        assert(data.subrange(p1, p1 + 1)[0] == data[p1]);
    }
}

use crate::slip::lemma_dec_enc_slip;

impl Transaction {
    /// A fresh transaction: no slips, a zero signature, the current time.
    pub fn new() -> (r: Transaction)
        ensures
            r@.body.id == 0u32,
            r@.body.to.len() == 0,
            r@.body.from.len() == 0,
            r@.body.sig.len() == 64,
            r@.body.ver == 10u32,
            r@.body.typ == TransactionBroadcastType::Normal,
            r@.body.path.len() == 0,
            r@.body.msg.len() == 0,
            r@.body.ps == 0u8,
            r@.is_valid == 0u8,
            wf_tx(r@),
    {
        let r = Transaction {
            body: TransactionBody {
                id: 0,
                ts: crate::helper::create_timestamp(),
                to: Vec::new(),
                from: Vec::new(),
                sig: zero_bytes(64),
                ver: 10,
                typ: TransactionBroadcastType::Normal,
                path: Vec::new(),
                msg: Vec::new(),
                ps: 0,
            },
            is_valid: 0,
        };
        proof {
            assert(slips_view(r.body.to@) =~= Seq::<SlipView>::empty());
            assert(slips_view(r.body.from@) =~= Seq::<SlipView>::empty());
            assert(hops_view(r.body.path@) =~= Seq::<HopView>::empty());
        }
        r
    }

    /// Appends an output slip.
    pub fn add_to_slip(&mut self, slip: Slip)
        ensures
            final(self)@.body.to == old(self)@.body.to + seq![slip@],
            final(self)@.body == (TransactionBodyView {
                to: final(self)@.body.to,
                ..old(self)@.body
            }),
            final(self)@.is_valid == old(self)@.is_valid,
    {
        self.body.to.push(slip);
        proof {
            assert(slips_view(self.body.to@) =~= slips_view(old(self).body.to@) + seq![
                self.body.to@[self.body.to@.len() - 1]@,
            ]);
        }
    }

    /// Appends an input slip.
    pub fn add_from_slip(&mut self, slip: Slip)
        ensures
            final(self)@.body.from == old(self)@.body.from + seq![slip@],
            final(self)@.body == (TransactionBodyView {
                from: final(self)@.body.from,
                ..old(self)@.body
            }),
            final(self)@.is_valid == old(self)@.is_valid,
    {
        self.body.from.push(slip);
        proof {
            assert(slips_view(self.body.from@) =~= slips_view(old(self).body.from@) + seq![
                self.body.from@[self.body.from@.len() - 1]@,
            ]);
        }
    }

    /// Replaces the opaque payload.
    pub fn set_msg(&mut self, msg: Vec<u8>)
        ensures
            final(self)@.body == (TransactionBodyView { msg: msg@, ..old(self)@.body }),
            final(self)@.is_valid == old(self)@.is_valid,
    {
        self.body.msg = msg;
    }

    /// Replaces the signature.
    pub fn set_sig(&mut self, sig: Vec<u8>)
        requires
            sig@.len() == 64,
        ensures
            final(self)@.body == (TransactionBodyView { sig: sig@, ..old(self)@.body }),
            final(self)@.is_valid == old(self)@.is_valid,
    {
        self.body.sig = sig;
    }

    /// Replaces the transaction type.
    pub fn set_tx_type(&mut self, tx_type: TransactionBroadcastType)
        ensures
            final(self)@.body == (TransactionBodyView { typ: tx_type, ..old(self)@.body }),
            final(self)@.is_valid == old(self)@.is_valid,
    {
        self.body.typ = tx_type;
    }

    /// The output slips, as a fresh vector.
    pub fn return_to_slips(&self) -> (r: Vec<Slip>)
        ensures
            slips_view(r@) == self@.body.to,
    {
        copy_slips(&self.body.to)
    }

    /// The input slips, as a fresh vector.
    pub fn return_from_slips(&self) -> (r: Vec<Slip>)
        ensures
            slips_view(r@) == self@.body.from,
    {
        copy_slips(&self.body.from)
    }

    /// The fee usable by `publickey`: inputs from that address minus
    /// outputs back to it, clamped at zero.
    pub fn return_fees_usable(&self, publickey: &Vec<u8>) -> (r: u64)
        requires
            sum_amts(self@.body.from) <= u64::MAX,
            self@.body.to.len() <= u32::MAX,
            self@.body.from.len() <= u32::MAX,
        ensures
            r as int == tx_fees_usable(self@.body, publickey@),
    {
        proof {
            lemma_sum_amts_to_bounds(self@.body.from, publickey@);
            lemma_sum_amts_to_bounds(self@.body.to, publickey@);
        }
        let input_fees = sum_slip_amts_to(&self.body.from, publickey);
        let output_fees = sum_slip_amts_to(&self.body.to, publickey);
        if input_fees < output_fees {
            0
        } else {
            (input_fees - output_fees) as u64
        }
    }

    /// The fee-work this transaction contributes to block production: its
    /// fee, inputs minus outputs, clamped at zero.
    pub fn return_work_available(&self) -> (r: u64)
        requires
            sum_amts(self@.body.from) <= u64::MAX,
            self@.body.to.len() <= u32::MAX,
            self@.body.from.len() <= u32::MAX,
        ensures
            r as int == tx_fee(self@.body),
    {
        proof {
            lemma_sum_amts_nonneg(self@.body.from);
            lemma_sum_amts_nonneg(self@.body.to);
        }
        let input_amt = sum_slip_amts(&self.body.from);
        let output_amt = sum_slip_amts(&self.body.to);
        if input_amt < output_amt {
            0
        } else {
            (input_amt - output_amt) as u64
        }
    }

    /// The body as it is hashed for signing: the signature field itself
    /// reads as 64 zero bytes, so signing and verifying see the same
    /// bytes.
    pub open spec fn signing_body(t: TransactionBodyView) -> TransactionBodyView {
        TransactionBodyView { sig: Seq::<u8>::new(64, |i: int| 0u8), ..t }
    }

    /// The canonical serialization of the body with a zeroed signature
    /// field, as a fresh vector.
    pub fn return_signing_source(&self) -> (r: Vec<u8>)
        requires
            self@.body.to.len() <= u32::MAX,
            self@.body.from.len() <= u32::MAX,
            self@.body.path.len() <= u32::MAX,
            self@.body.msg.len() <= u32::MAX,
        ensures
            r@ == enc_tx_body(Self::signing_body(self@.body)),
    {
        let mut blank = copy_tx(self);
        blank.set_sig(zero_bytes(64));
        proof {
            assert(blank@.body =~= Self::signing_body(self@.body)) by {
                assert(blank@.body.sig =~= Seq::<u8>::new(64, |i: int| 0u8));
            }
        }
        blank.return_signature_source()
    }

    /// Whether this transaction's signature verifies under `publickey`:
    /// the stored 64-byte signature, checked against the SHA-256 digest
    /// of the body serialized with a zeroed signature field.
    pub fn signature_verifies(&self, publickey: &Vec<u8>) -> (r: bool)
        requires
            wf_tx(self@),
            publickey@.len() == 33,
        ensures
            r == crate::crypto::ecdsa_verifies(
                publickey@,
                crate::crypto::sha256_of(enc_tx_body(Self::signing_body(self@.body))),
                self@.body.sig,
            ),
    {
        let source = self.return_signing_source();
        let digest = crate::crypto::sha256_hash(source);
        crate::crypto::verify_signature(
            publickey.as_slice(),
            digest.as_slice(),
            self.body.sig.as_slice(),
        )
    }

    /// The canonical serialization of the body: what gets signed.
    pub fn return_signature_source(&self) -> (r: Vec<u8>)
        requires
            self@.body.to.len() <= u32::MAX,
            self@.body.from.len() <= u32::MAX,
            self@.body.path.len() <= u32::MAX,
            self@.body.msg.len() <= u32::MAX,
        ensures
            r@ == enc_tx_body(self@.body),
    {
        let mut buf: Vec<u8> = Vec::new();
        encode_tx_body(&mut buf, &self.body);
        buf
    }
}

/// A fresh copy of a slip.
pub fn copy_slip(s: &Slip) -> (r: Slip)
    ensures
        r@ == s@,
{
    Slip {
        body: crate::slip::SlipBody {
            add: crate::bytes::copy_bytes(&s.body.add),
            typ: s.body.typ,
            amt: s.body.amt,
            bid: s.body.bid,
            tid: s.body.tid,
            sid: s.body.sid,
            bsh: crate::bytes::copy_bytes(&s.body.bsh),
        },
        lc: s.lc,
        is_valid: s.is_valid,
        spent_status: s.spent_status,
    }
}

/// A fresh copy of a vector of slips.
pub fn copy_slips(v: &Vec<Slip>) -> (r: Vec<Slip>)
    ensures
        slips_view(r@) == slips_view(v@),
{
    let mut out: Vec<Slip> = Vec::new();
    let n = v.len();
    let mut i: usize = 0;
    while i < n
        invariant
            n == v@.len(),
            i <= n,
            out@.len() == i,
            forall|j: int| 0 <= j < i ==> out@[j]@ == v@[j]@,
        decreases n - i,
    {
        out.push(copy_slip(&v[i]));
        i += 1;
    }
    proof {
        assert(slips_view(out@) =~= slips_view(v@));
    }
    out
}

/// The sum of the amounts of the given slips, exact in 128 bits.
pub fn sum_slip_amts(v: &Vec<Slip>) -> (r: u128)
    requires
        v@.len() <= u32::MAX,
    ensures
        r as int == sum_amts(slips_view(v@)),
{
    let n = v.len();
    let mut acc: u128 = 0;
    let mut i: usize = 0;
    proof {
        assert(slips_view(v@).skip(0) =~= slips_view(v@));
    }
    while i < n
        invariant
            n == v@.len(),
            n <= u32::MAX,
            i <= n,
            acc + sum_amts(slips_view(v@).skip(i as int)) == sum_amts(slips_view(v@)),
            acc <= i * (u64::MAX as int),
        decreases n - i,
    {
        proof {
            assert(slips_view(v@).skip(i as int)[0] == v@[i as int]@);
            assert(slips_view(v@).skip(i as int).skip(1) =~= slips_view(v@).skip(i + 1));
            assert(i * (u64::MAX as int) + (u64::MAX as int) == (i + 1) * (u64::MAX as int))
                by (nonlinear_arith);
            assert((i + 1) * (u64::MAX as int) <= (u32::MAX as int) * (u64::MAX as int))
                by (nonlinear_arith)
                requires i + 1 <= u32::MAX as int;
        }
        acc = acc + (v[i].body.amt as u128);
        i += 1;
    }
    proof {
        assert(slips_view(v@).skip(n as int) =~= Seq::<SlipView>::empty());
    }
    acc
}

/// The sum of the amounts of the slips paying `addr`, exact in 128 bits.
pub fn sum_slip_amts_to(v: &Vec<Slip>, addr: &Vec<u8>) -> (r: u128)
    requires
        v@.len() <= u32::MAX,
    ensures
        r as int == sum_amts_to(slips_view(v@), addr@),
{
    let n = v.len();
    let mut acc: u128 = 0;
    let mut i: usize = 0;
    proof {
        assert(slips_view(v@).skip(0) =~= slips_view(v@));
    }
    while i < n
        invariant
            n == v@.len(),
            n <= u32::MAX,
            i <= n,
            acc + sum_amts_to(slips_view(v@).skip(i as int), addr@) == sum_amts_to(
                slips_view(v@),
                addr@,
            ),
            acc <= i * (u64::MAX as int),
        decreases n - i,
    {
        proof {
            assert(slips_view(v@).skip(i as int)[0] == v@[i as int]@);
            assert(slips_view(v@).skip(i as int).skip(1) =~= slips_view(v@).skip(i + 1));
            assert(i * (u64::MAX as int) + (u64::MAX as int) == (i + 1) * (u64::MAX as int))
                by (nonlinear_arith);
            assert((i + 1) * (u64::MAX as int) <= (u32::MAX as int) * (u64::MAX as int))
                by (nonlinear_arith)
                requires i + 1 <= u32::MAX as int;
        }
        if v[i].pays(addr.as_slice()) {
            acc = acc + (v[i].body.amt as u128);
        }
        i += 1;
    }
    proof {
        assert(slips_view(v@).skip(n as int) =~= Seq::<SlipView>::empty());
    }
    acc
}

/// Appends the canonical serialization of a transaction body to `buf`.
pub fn encode_tx_body(buf: &mut Vec<u8>, t: &TransactionBody)
    requires
        t@.to.len() <= u32::MAX,
        t@.from.len() <= u32::MAX,
        t@.path.len() <= u32::MAX,
        t@.msg.len() <= u32::MAX,
    ensures
        final(buf)@ == old(buf)@ + enc_tx_body(t@),
{
    let ghost orig = buf@;
    push_u32_be(buf, t.id);
    push_u64_be(buf, t.ts);
    push_u32_be(buf, t.to.len() as u32);
    encode_slips(buf, &t.to);
    push_u32_be(buf, t.from.len() as u32);
    encode_slips(buf, &t.from);
    push_bytes(buf, &t.sig);
    push_u32_be(buf, t.ver);
    let st = tx_typ_to_slip_typ(t.typ);
    buf.push(crate::slip::typ_byte_exec(st));
    push_u32_be(buf, t.path.len() as u32);
    encode_hops(buf, &t.path);
    push_u32_be(buf, t.msg.len() as u32);
    push_bytes(buf, &t.msg);
    buf.push(t.ps);
    assert(buf@ =~= orig + enc_tx_body(t@));
}

/// The slip-type twin of a transaction type; the two share one wire byte
/// assignment.
pub fn tx_typ_to_slip_typ(t: TransactionBroadcastType) -> (r: crate::slip::SlipBroadcastType)
    ensures
        crate::slip::typ_byte(r) == tx_typ_byte(t),
{
    match t {
        TransactionBroadcastType::Normal => crate::slip::SlipBroadcastType::Normal,
        TransactionBroadcastType::GoldenTicket => crate::slip::SlipBroadcastType::GoldenTicket,
        TransactionBroadcastType::Fee => crate::slip::SlipBroadcastType::Fee,
        TransactionBroadcastType::Rebroadcast => crate::slip::SlipBroadcastType::Rebroadcast,
        TransactionBroadcastType::VIP => crate::slip::SlipBroadcastType::VIP,
        TransactionBroadcastType::GoldenChunk => crate::slip::SlipBroadcastType::GoldenChunk,
    }
}

/// Appends the canonical serialization of a transaction to `buf`.
pub fn encode_tx(buf: &mut Vec<u8>, t: &Transaction)
    requires
        t@.body.to.len() <= u32::MAX,
        t@.body.from.len() <= u32::MAX,
        t@.body.path.len() <= u32::MAX,
        t@.body.msg.len() <= u32::MAX,
    ensures
        final(buf)@ == old(buf)@ + enc_tx(t@),
{
    let ghost orig = buf@;
    encode_tx_body(buf, &t.body);
    buf.push(t.is_valid);
    assert(buf@ =~= orig + enc_tx(t@));
}

/// Appends the canonical serialization of each slip in turn to `buf`.
pub fn encode_slips(buf: &mut Vec<u8>, v: &Vec<Slip>)
    ensures
        final(buf)@ == old(buf)@ + enc_slips(slips_view(v@)),
{
    let ghost orig = buf@;
    let n = v.len();
    let mut i: usize = 0;
    while i < n
        invariant
            n == v@.len(),
            i <= n,
            buf@ == orig + enc_slips(slips_view(v@).take(i as int)),
        decreases n - i,
    {
        encode_slip(buf, &v[i]);
        i += 1;
        proof {
            lemma_enc_slips_snoc(slips_view(v@), i as int);
        }
    }
    proof {
        assert(slips_view(v@).take(n as int) =~= slips_view(v@));
    }
}

/// Appends the canonical serialization of each hop in turn to `buf`.
pub fn encode_hops(buf: &mut Vec<u8>, v: &Vec<Hop>)
    ensures
        final(buf)@ == old(buf)@ + enc_hops(hops_view(v@)),
{
    let ghost orig = buf@;
    let n = v.len();
    let mut i: usize = 0;
    while i < n
        invariant
            n == v@.len(),
            i <= n,
            buf@ == orig + enc_hops(hops_view(v@).take(i as int)),
        decreases n - i,
    {
        crate::hop::encode_hop(buf, &v[i]);
        i += 1;
        proof {
            lemma_enc_hops_snoc(hops_view(v@), i as int);
        }
    }
    proof {
        assert(hops_view(v@).take(n as int) =~= hops_view(v@));
    }
}

/// Encoding one more slip extends the encoding of a prefix.
proof fn lemma_enc_slips_snoc(ss: Seq<SlipView>, i: int)
    requires
        0 < i <= ss.len(),
    ensures
        enc_slips(ss.take(i)) == enc_slips(ss.take(i - 1)) + enc_slip(ss[i - 1]),
    decreases i,
{
    if i == 1 {
        assert(ss.take(1)[0] == ss[0]);
        assert(ss.take(1).skip(1) =~= Seq::<SlipView>::empty());
        assert(ss.take(0) =~= Seq::<SlipView>::empty());
        assert(enc_slips(ss.take(1)) =~= enc_slip(ss[0]) + Seq::<u8>::empty());
        assert(enc_slips(ss.take(1)) =~= enc_slips(ss.take(0)) + enc_slip(ss[0]));
    } else {
        lemma_enc_slips_snoc(ss.skip(1), i - 1);
        assert(ss.take(i)[0] == ss[0]);
        assert(ss.take(i).skip(1) =~= ss.skip(1).take(i - 1));
        assert(ss.take(i - 1)[0] == ss[0]);
        assert(ss.take(i - 1).skip(1) =~= ss.skip(1).take(i - 2));
        assert(ss.skip(1)[i - 2] == ss[i - 1]);
        assert(enc_slips(ss.take(i)) == enc_slip(ss[0]) + enc_slips(ss.skip(1).take(i - 1)));
        assert(enc_slips(ss.skip(1).take(i - 1)) == enc_slips(ss.skip(1).take(i - 2)) + enc_slip(
            ss[i - 1],
        ));
        assert(enc_slips(ss.take(i)) =~= enc_slips(ss.take(i - 1)) + enc_slip(ss[i - 1]));
    }
}

/// Encoding one more hop extends the encoding of a prefix.
proof fn lemma_enc_hops_snoc(hh: Seq<HopView>, i: int)
    requires
        0 < i <= hh.len(),
    ensures
        enc_hops(hh.take(i)) == enc_hops(hh.take(i - 1)) + enc_hop(hh[i - 1]),
    decreases i,
{
    if i == 1 {
        assert(hh.take(1)[0] == hh[0]);
        assert(hh.take(1).skip(1) =~= Seq::<HopView>::empty());
        assert(hh.take(0) =~= Seq::<HopView>::empty());
        assert(enc_hops(hh.take(1)) == enc_hop(hh.take(1)[0]) + enc_hops(hh.take(1).skip(1)));
        assert(enc_hops(Seq::<HopView>::empty()) == Seq::<u8>::empty());
        assert(enc_hops(hh.take(1)) =~= enc_hops(hh.take(0)) + enc_hop(hh[0]));
    } else {
        lemma_enc_hops_snoc(hh.skip(1), i - 1);
        assert(hh.take(i)[0] == hh[0]);
        assert(hh.take(i).skip(1) =~= hh.skip(1).take(i - 1));
        assert(hh.take(i - 1)[0] == hh[0]);
        assert(hh.take(i - 1).skip(1) =~= hh.skip(1).take(i - 2));
        assert(hh.skip(1)[i - 2] == hh[i - 1]);
        assert(enc_hops(hh.take(i)) == enc_hop(hh[0]) + enc_hops(hh.skip(1).take(i - 1)));
        assert(enc_hops(hh.skip(1).take(i - 1)) == enc_hops(hh.skip(1).take(i - 2)) + enc_hop(
            hh[i - 1],
        ));
        assert(enc_hops(hh.take(i)) =~= enc_hops(hh.take(i - 1)) + enc_hop(hh[i - 1]));
    }
}

/// Reads `n` slips at `pos`, following `dec_slips`.
pub fn decode_slips(data: &[u8], pos: usize, n: u32) -> (r: Option<(Vec<Slip>, usize)>)
    ensures
        match r {
            Some((v, p2)) => dec_slips(data@, pos as int, n as int) == Some(
                (slips_view(v@), p2 as int),
            ) && (forall|i: int| 0 <= i < v@.len() ==> wf_slip(#[trigger] slips_view(v@)[i]))
                && v@.len() == n,
            None => dec_slips(data@, pos as int, n as int) is None,
        },
    decreases n,
{
    if n == 0 {
        let v: Vec<Slip> = Vec::new();
        proof {
            assert(slips_view(v@) =~= Seq::<SlipView>::empty());
        }
        Some((v, pos))
    } else {
        let (s, p1) = match crate::slip::decode_slip(data, pos) {
            Some(x) => x,
            None => { return None; },
        };
        let (mut rest, p2) = match decode_slips(data, p1, n - 1) {
            Some(x) => x,
            None => { return None; },
        };
        let ghost before = rest@;
        rest.insert(0, s);
        proof {
            assert(slips_view(rest@) =~= seq![s@] + slips_view(before)) by {
                assert(forall|i: int| 0 <= i < rest@.len() ==> slips_view(rest@)[i] == rest@[i]@);
            }
        }
        Some((rest, p2))
    }
}

/// Reads `n` hops at `pos`, following `dec_hops`.
pub fn decode_hops(data: &[u8], pos: usize, n: u32) -> (r: Option<(Vec<Hop>, usize)>)
    ensures
        match r {
            Some((v, p2)) => dec_hops(data@, pos as int, n as int) == Some(
                (hops_view(v@), p2 as int),
            ) && (forall|i: int| 0 <= i < v@.len() ==> wf_hop(#[trigger] hops_view(v@)[i]))
                && v@.len() == n,
            None => dec_hops(data@, pos as int, n as int) is None,
        },
    decreases n,
{
    if n == 0 {
        let v: Vec<Hop> = Vec::new();
        proof {
            assert(hops_view(v@) =~= Seq::<HopView>::empty());
        }
        Some((v, pos))
    } else {
        let (h, p1) = match crate::hop::decode_hop(data, pos) {
            Some(x) => x,
            None => { return None; },
        };
        let (mut rest, p2) = match decode_hops(data, p1, n - 1) {
            Some(x) => x,
            None => { return None; },
        };
        let ghost before = rest@;
        rest.insert(0, h);
        proof {
            assert(hops_view(rest@) =~= seq![h@] + hops_view(before)) by {
                assert(forall|i: int| 0 <= i < rest@.len() ==> hops_view(rest@)[i] == rest@[i]@);
            }
        }
        Some((rest, p2))
    }
}

/// Reads a transaction at `pos`, following `dec_tx`.
pub fn decode_tx(data: &[u8], pos: usize) -> (r: Option<(Transaction, usize)>)
    ensures
        match r {
            Some((t, p2)) => dec_tx(data@, pos as int) == Some((t@, p2 as int)) && wf_tx(t@),
            None => dec_tx(data@, pos as int) is None,
        },
{
    let (id, p1) = match crate::bytes::read_u32_be(data, pos) {
        Some(x) => x,
        None => { return None; },
    };
    let (ts, p2) = match crate::bytes::read_u64_be(data, p1) {
        Some(x) => x,
        None => { return None; },
    };
    let (nto, p3) = match crate::bytes::read_u32_be(data, p2) {
        Some(x) => x,
        None => { return None; },
    };
    let (to, p4) = match decode_slips(data, p3, nto) {
        Some(x) => x,
        None => { return None; },
    };
    let (nfrom, p5) = match crate::bytes::read_u32_be(data, p4) {
        Some(x) => x,
        None => { return None; },
    };
    let (from, p6) = match decode_slips(data, p5, nfrom) {
        Some(x) => x,
        None => { return None; },
    };
    let (sig, p7) = match crate::bytes::read_bytes(data, p6, 64) {
        Some(x) => x,
        None => { return None; },
    };
    let (ver, p8) = match crate::bytes::read_u32_be(data, p7) {
        Some(x) => x,
        None => { return None; },
    };
    let (tb, p9) = match crate::bytes::read_u8(data, p8) {
        Some(x) => x,
        None => { return None; },
    };
    let typ = match decode_tx_typ(tb) {
        Some(t) => t,
        None => { return None; },
    };
    let (npath, p10) = match crate::bytes::read_u32_be(data, p9) {
        Some(x) => x,
        None => { return None; },
    };
    let (path, p11) = match decode_hops(data, p10, npath) {
        Some(x) => x,
        None => { return None; },
    };
    let (nmsg, p12) = match crate::bytes::read_u32_be(data, p11) {
        Some(x) => x,
        None => { return None; },
    };
    let (msg, p13) = match crate::bytes::read_bytes(data, p12, nmsg as usize) {
        Some(x) => x,
        None => { return None; },
    };
    let (ps, p14) = match crate::bytes::read_u8(data, p13) {
        Some(x) => x,
        None => { return None; },
    };
    let (is_valid, p15) = match crate::bytes::read_u8(data, p14) {
        Some(x) => x,
        None => { return None; },
    };
    let t = Transaction {
        body: TransactionBody { id, ts, to, from, sig, ver, typ, path, msg, ps },
        is_valid,
    };
    Some((t, p15))
}

/// The transaction type a wire byte stands for.
pub fn decode_tx_typ(b: u8) -> (r: Option<TransactionBroadcastType>)
    ensures
        r == dec_tx_typ(b),
{
    if b == 0 {
        Some(TransactionBroadcastType::Normal)
    } else if b == 1 {
        Some(TransactionBroadcastType::GoldenTicket)
    } else if b == 2 {
        Some(TransactionBroadcastType::Fee)
    } else if b == 3 {
        Some(TransactionBroadcastType::Rebroadcast)
    } else if b == 4 {
        Some(TransactionBroadcastType::VIP)
    } else if b == 5 {
        Some(TransactionBroadcastType::GoldenChunk)
    } else {
        None
    }
}

/// A fresh copy of a transaction.
pub fn copy_tx(t: &Transaction) -> (r: Transaction)
    ensures
        r@ == t@,
{
    let mut path: Vec<Hop> = Vec::new();
    let n = t.body.path.len();
    let mut i: usize = 0;
    while i < n
        invariant
            n == t.body.path@.len(),
            i <= n,
            path@.len() == i,
            forall|j: int| 0 <= j < i ==> path@[j]@ == t.body.path@[j]@,
        decreases n - i,
    {
        let h = &t.body.path[i];
        path.push(
            Hop {
                from: crate::bytes::copy_bytes(&h.from),
                to: crate::bytes::copy_bytes(&h.to),
                sig: crate::bytes::copy_bytes(&h.sig),
            },
        );
        i += 1;
    }
    proof {
        assert(hops_view(path@) =~= hops_view(t.body.path@));
    }
    Transaction {
        body: TransactionBody {
            id: t.body.id,
            ts: t.body.ts,
            to: copy_slips(&t.body.to),
            from: copy_slips(&t.body.from),
            sig: crate::bytes::copy_bytes(&t.body.sig),
            ver: t.body.ver,
            typ: t.body.typ,
            path,
            msg: crate::bytes::copy_bytes(&t.body.msg),
            ps: t.body.ps,
        },
        is_valid: t.is_valid,
    }
}

} // verus!
