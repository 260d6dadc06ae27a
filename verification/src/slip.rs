//! Slips: single transaction-output records. A slip's body is immutable
//! once created; its spend state lives in the utxo index, keyed by the
//! slip's fingerprint, the canonical serialization of the body.

use vstd::prelude::*;

use crate::bytes::{
    bytes_eq, dec_bytes, dec_u32, dec_u64, dec_u8, lemma_concat_split, lemma_dec_u32,
    lemma_dec_u64, push_u32_be, push_u64_be, u32_be, u64_be, zero_bytes,
};

verus! {

/// The role a slip plays on the wire.
#[derive(Clone, Copy, Debug, PartialEq, Eq, Structural)]
pub enum SlipBroadcastType {
    Normal,
    GoldenTicket,
    Fee,
    Rebroadcast,
    VIP,
    GoldenChunk,
}

/// The spend state a wallet remembers for a slip it holds.
#[derive(Clone, Copy, Debug, PartialEq, Eq, Structural)]
pub enum SlipSpentStatus {
    Unspent,
    Spent,
    Pending,
}

/// The immutable body of a slip: recipient, amount, type and the
/// coordinates of its origin.
#[derive(Clone, Debug, PartialEq)]
pub struct SlipBody {
    pub add: Vec<u8>,
    pub typ: SlipBroadcastType,
    pub amt: u64,
    pub bid: u32,
    pub tid: u32,
    pub sid: u32,
    pub bsh: Vec<u8>,
}

/// A slip: its body plus bookkeeping bytes.
#[derive(Clone, Debug, PartialEq)]
pub struct Slip {
    pub body: SlipBody,
    pub lc: u8,
    pub is_valid: u8,
    pub spent_status: SlipSpentStatus,
}

/// Mathematical image of a slip body.
pub ghost struct SlipBodyView {
    pub add: Seq<u8>,
    pub typ: SlipBroadcastType,
    pub amt: u64,
    pub bid: u32,
    pub tid: u32,
    pub sid: u32,
    pub bsh: Seq<u8>,
}

/// Mathematical image of a slip.
pub ghost struct SlipView {
    pub body: SlipBodyView,
    pub lc: u8,
    pub is_valid: u8,
    pub spent_status: SlipSpentStatus,
}

impl View for SlipBody {
    type V = SlipBodyView;

    open spec fn view(&self) -> SlipBodyView {
        SlipBodyView {
            add: self.add@,
            typ: self.typ,
            amt: self.amt,
            bid: self.bid,
            tid: self.tid,
            sid: self.sid,
            bsh: self.bsh@,
        }
    }
}

impl View for Slip {
    type V = SlipView;

    open spec fn view(&self) -> SlipView {
        SlipView {
            body: self.body@,
            lc: self.lc,
            is_valid: self.is_valid,
            spent_status: self.spent_status,
        }
    }
}

/// A slip body is well formed when its recipient is a 33-byte compressed
/// public key and its origin hash has 32 bytes.
pub open spec fn wf_slip_body(b: SlipBodyView) -> bool {
    b.add.len() == 33 && b.bsh.len() == 32
}

/// A slip is well formed when its body is.
pub open spec fn wf_slip(s: SlipView) -> bool {
    wf_slip_body(s.body)
}

/// The wire byte for a slip type.
pub open spec fn typ_byte(t: SlipBroadcastType) -> u8 {
    match t {
        SlipBroadcastType::Normal => 0,
        SlipBroadcastType::GoldenTicket => 1,
        SlipBroadcastType::Fee => 2,
        SlipBroadcastType::Rebroadcast => 3,
        SlipBroadcastType::VIP => 4,
        SlipBroadcastType::GoldenChunk => 5,
    }
}

/// The slip type a wire byte stands for.
pub open spec fn dec_typ(b: u8) -> Option<SlipBroadcastType> {
    if b == 0 {
        Some(SlipBroadcastType::Normal)
    } else if b == 1 {
        Some(SlipBroadcastType::GoldenTicket)
    } else if b == 2 {
        Some(SlipBroadcastType::Fee)
    } else if b == 3 {
        Some(SlipBroadcastType::Rebroadcast)
    } else if b == 4 {
        Some(SlipBroadcastType::VIP)
    } else if b == 5 {
        Some(SlipBroadcastType::GoldenChunk)
    } else {
        None
    }
}

/// The wire byte for a spent status.
pub open spec fn status_byte(s: SlipSpentStatus) -> u8 {
    match s {
        SlipSpentStatus::Unspent => 0,
        SlipSpentStatus::Spent => 1,
        SlipSpentStatus::Pending => 2,
    }
}

/// The spent status a wire byte stands for.
pub open spec fn dec_status(b: u8) -> Option<SlipSpentStatus> {
    if b == 0 {
        Some(SlipSpentStatus::Unspent)
    } else if b == 1 {
        Some(SlipSpentStatus::Spent)
    } else if b == 2 {
        Some(SlipSpentStatus::Pending)
    } else {
        None
    }
}

/// Canonical serialization of a slip body: recipient, type byte, amount,
/// then the origin coordinates, every integer big-endian. This is the
/// slip's fingerprint in the utxo index.
pub open spec fn enc_slip_body(b: SlipBodyView) -> Seq<u8> {
    b.add + seq![typ_byte(b.typ)] + u64_be(b.amt) + u32_be(b.bid) + u32_be(b.tid) + u32_be(b.sid)
        + b.bsh
}

/// Canonical serialization of a slip: its body followed by the
/// bookkeeping bytes.
pub open spec fn enc_slip(s: SlipView) -> Seq<u8> {
    enc_slip_body(s.body) + seq![s.lc] + seq![s.is_valid] + seq![status_byte(s.spent_status)]
}

/// Decoding of a slip body at `pos`.
pub open spec fn dec_slip_body(data: Seq<u8>, pos: int) -> Option<(SlipBodyView, int)> {
    match dec_bytes(data, pos, 33) {
        None => None,
        Some((add, p1)) => match dec_u8(data, p1) {
            None => None,
            Some((tb, p2)) => match dec_typ(tb) {
                None => None,
                Some(typ) => match dec_u64(data, p2) {
                    None => None,
                    Some((amt, p3)) => match dec_u32(data, p3) {
                        None => None,
                        Some((bid, p4)) => match dec_u32(data, p4) {
                            None => None,
                            Some((tid, p5)) => match dec_u32(data, p5) {
                                None => None,
                                Some((sid, p6)) => match dec_bytes(data, p6, 32) {
                                    None => None,
                                    Some((bsh, p7)) => Some(
                                        (SlipBodyView { add, typ, amt, bid, tid, sid, bsh }, p7),
                                    ),
                                },
                            },
                        },
                    },
                },
            },
        },
    }
}

/// Decoding of a slip at `pos`.
pub open spec fn dec_slip(data: Seq<u8>, pos: int) -> Option<(SlipView, int)> {
    match dec_slip_body(data, pos) {
        None => None,
        Some((body, p1)) => match dec_u8(data, p1) {
            None => None,
            Some((lc, p2)) => match dec_u8(data, p2) {
                None => None,
                Some((is_valid, p3)) => match dec_u8(data, p3) {
                    None => None,
                    Some((sb, p4)) => match dec_status(sb) {
                        None => None,
                        Some(spent_status) => Some(
                            (SlipView { body, lc, is_valid, spent_status }, p4),
                        ),
                    },
                },
            },
        },
    }
}

/// A well-formed slip body encoded at `pos` decodes to itself.
pub proof fn lemma_dec_enc_slip_body(data: Seq<u8>, pos: int, b: SlipBodyView)
    requires
        wf_slip_body(b),
        0 <= pos,
        pos + enc_slip_body(b).len() <= data.len(),
        data.subrange(pos, pos + enc_slip_body(b).len()) == enc_slip_body(b),
    ensures
        enc_slip_body(b).len() == 86,
        dec_slip_body(data, pos) == Some((b, pos + 86)),
{
    let e6 = b.add + seq![typ_byte(b.typ)] + u64_be(b.amt) + u32_be(b.bid) + u32_be(b.tid)
        + u32_be(b.sid);
    let e5 = b.add + seq![typ_byte(b.typ)] + u64_be(b.amt) + u32_be(b.bid) + u32_be(b.tid);
    let e4 = b.add + seq![typ_byte(b.typ)] + u64_be(b.amt) + u32_be(b.bid);
    let e3 = b.add + seq![typ_byte(b.typ)] + u64_be(b.amt);
    let e2 = b.add + seq![typ_byte(b.typ)];
    lemma_concat_split(data, pos, e6, b.bsh);
    lemma_concat_split(data, pos, e5, u32_be(b.sid));
    lemma_concat_split(data, pos, e4, u32_be(b.tid));
    lemma_concat_split(data, pos, e3, u32_be(b.bid));
    lemma_concat_split(data, pos, e2, u64_be(b.amt));
    lemma_concat_split(data, pos, b.add, seq![typ_byte(b.typ)]);
    assert(data.subrange(pos, pos + 33) == b.add);
    assert(data[pos + 33] == typ_byte(b.typ)) by {
        assert(data.subrange(pos + 33, pos + 34) == seq![typ_byte(b.typ)]);
        assert(data.subrange(pos + 33, pos + 34)[0] == data[pos + 33]);
    }
    lemma_dec_u64(data, pos + 34, b.amt);
    lemma_dec_u32(data, pos + 42, b.bid);
    lemma_dec_u32(data, pos + 46, b.tid);
    lemma_dec_u32(data, pos + 50, b.sid);
    assert(data.subrange(pos + 54, pos + 86) == b.bsh);
}

/// A well-formed slip encoded at `pos` decodes to itself.
pub proof fn lemma_dec_enc_slip(data: Seq<u8>, pos: int, s: SlipView)
    requires
        wf_slip(s),
        0 <= pos,
        pos + enc_slip(s).len() <= data.len(),
        data.subrange(pos, pos + enc_slip(s).len()) == enc_slip(s),
    ensures
        enc_slip(s).len() == 89,
        dec_slip(data, pos) == Some((s, pos + 89)),
{
    let e2 = enc_slip_body(s.body) + seq![s.lc] + seq![s.is_valid];
    let e1 = enc_slip_body(s.body) + seq![s.lc];
    lemma_concat_split(data, pos, e2, seq![status_byte(s.spent_status)]);
    lemma_concat_split(data, pos, e1, seq![s.is_valid]);
    lemma_concat_split(data, pos, enc_slip_body(s.body), seq![s.lc]);
    lemma_dec_enc_slip_body(data, pos, s.body);
    assert(data[pos + 86] == s.lc) by {
        assert(data.subrange(pos + 86, pos + 87)[0] == data[pos + 86]);
    }
    assert(data[pos + 87] == s.is_valid) by {
        assert(data.subrange(pos + 87, pos + 88)[0] == data[pos + 87]);
    }
    assert(data[pos + 88] == status_byte(s.spent_status)) by {
        assert(data.subrange(pos + 88, pos + 89)[0] == data[pos + 88]);
    }
}

/// Fingerprints identify slip bodies: two well-formed bodies with the
/// same canonical serialization are the same body. This is what lets the
/// utxo index key spend state by fingerprint.
pub proof fn lemma_enc_slip_body_injective(a: SlipBodyView, b: SlipBodyView)
    requires
        wf_slip_body(a),
        wf_slip_body(b),
        enc_slip_body(a) == enc_slip_body(b),
    ensures
        a == b,
{
    let data = enc_slip_body(a);
    assert(data.subrange(0, data.len() as int) =~= data);
    lemma_dec_enc_slip_body(data, 0, a);
    lemma_dec_enc_slip_body(data, 0, b);
}

impl Slip {
    /// A fresh slip paying `publickey`: amount zero, default coordinates.
    pub fn new(publickey: Vec<u8>) -> (r: Slip)
        requires
            publickey@.len() == 33,
        ensures
            r@.body.add == publickey@,
            r@.body.typ == SlipBroadcastType::Normal,
            r@.body.amt == 0u64,
            r@.body.bid == 0u32,
            r@.body.tid == 0u32,
            r@.body.sid == 0u32,
            r@.body.bsh.len() == 32,
            forall|j: int| 0 <= j < 32 ==> r@.body.bsh[j] == 0u8,
            r@.lc == 0u8,
            r@.is_valid == 0u8,
            r@.spent_status == SlipSpentStatus::Spent,
            wf_slip(r@),
    {
        Slip {
            body: SlipBody {
                add: publickey,
                typ: SlipBroadcastType::Normal,
                amt: 0,
                bid: 0,
                tid: 0,
                sid: 0,
                bsh: zero_bytes(32),
            },
            lc: 0,
            is_valid: 0,
            spent_status: SlipSpentStatus::Spent,
        }
    }

    /// Sets the amount; every other field keeps its value.
    pub fn set_amt(&mut self, amt: u64)
        ensures
            final(self)@ == (SlipView {
                body: SlipBodyView { amt, ..old(self)@.body },
                ..old(self)@
            }),
    {
        self.body.amt = amt;
    }

    /// The slip's amount.
    pub fn return_amt(&self) -> (r: u64)
        ensures
            r == self@.body.amt,
    {
        self.body.amt
    }

    /// The slip's recipient address.
    pub fn return_add(&self) -> (r: &Vec<u8>)
        ensures
            r@ == self@.body.add,
    {
        &self.body.add
    }

    /// Whether this slip pays the given address.
    pub fn pays(&self, publickey: &[u8]) -> (r: bool)
        ensures
            r <==> self@.body.add == publickey@,
    {
        bytes_eq(self.body.add.as_slice(), publickey)
    }

    /// The slip's fingerprint: the canonical serialization of its body,
    /// the key under which the utxo index tracks its spend state.
    pub fn return_signature_source(&self) -> (r: Vec<u8>)
        ensures
            r@ == enc_slip_body(self@.body),
    {
        let mut buf: Vec<u8> = Vec::new();
        encode_slip_body(&mut buf, &self.body);
        buf
    }
}

/// Appends the canonical serialization of a slip body to `buf`.
pub fn encode_slip_body(buf: &mut Vec<u8>, b: &SlipBody)
    ensures
        final(buf)@ == old(buf)@ + enc_slip_body(b@),
{
    let ghost orig = buf@;
    crate::bytes::push_bytes(buf, &b.add);
    buf.push(typ_byte_exec(b.typ));
    push_u64_be(buf, b.amt);
    push_u32_be(buf, b.bid);
    push_u32_be(buf, b.tid);
    push_u32_be(buf, b.sid);
    crate::bytes::push_bytes(buf, &b.bsh);
    assert(buf@ =~= orig + enc_slip_body(b@));
}

/// Appends the canonical serialization of a slip to `buf`.
pub fn encode_slip(buf: &mut Vec<u8>, s: &Slip)
    ensures
        final(buf)@ == old(buf)@ + enc_slip(s@),
{
    let ghost orig = buf@;
    encode_slip_body(buf, &s.body);
    buf.push(s.lc);
    buf.push(s.is_valid);
    buf.push(status_byte_exec(s.spent_status));
    assert(buf@ =~= orig + enc_slip(s@));
}

/// The wire byte for a slip type.
pub fn typ_byte_exec(t: SlipBroadcastType) -> (r: u8)
    ensures
        r == typ_byte(t),
{
    match t {
        SlipBroadcastType::Normal => 0,
        SlipBroadcastType::GoldenTicket => 1,
        SlipBroadcastType::Fee => 2,
        SlipBroadcastType::Rebroadcast => 3,
        SlipBroadcastType::VIP => 4,
        SlipBroadcastType::GoldenChunk => 5,
    }
}

/// The wire byte for a spent status.
pub fn status_byte_exec(s: SlipSpentStatus) -> (r: u8)
    ensures
        r == status_byte(s),
{
    match s {
        SlipSpentStatus::Unspent => 0,
        SlipSpentStatus::Spent => 1,
        SlipSpentStatus::Pending => 2,
    }
}

/// Reads a slip at `pos`, following `dec_slip`.
pub fn decode_slip(data: &[u8], pos: usize) -> (r: Option<(Slip, usize)>)
    ensures
        match r {
            Some((s, p2)) => dec_slip(data@, pos as int) == Some((s@, p2 as int)) && wf_slip(s@),
            None => dec_slip(data@, pos as int) is None,
        },
{
    let (add, p1) = match crate::bytes::read_bytes(data, pos, 33) {
        Some(x) => x,
        None => { return None; },
    };
    let (tb, p2) = match crate::bytes::read_u8(data, p1) {
        Some(x) => x,
        None => { return None; },
    };
    let typ = match decode_typ(tb) {
        Some(t) => t,
        None => { return None; },
    };
    let (amt, p3) = match crate::bytes::read_u64_be(data, p2) {
        Some(x) => x,
        None => { return None; },
    };
    let (bid, p4) = match crate::bytes::read_u32_be(data, p3) {
        Some(x) => x,
        None => { return None; },
    };
    let (tid, p5) = match crate::bytes::read_u32_be(data, p4) {
        Some(x) => x,
        None => { return None; },
    };
    let (sid, p6) = match crate::bytes::read_u32_be(data, p5) {
        Some(x) => x,
        None => { return None; },
    };
    let (bsh, p7) = match crate::bytes::read_bytes(data, p6, 32) {
        Some(x) => x,
        None => { return None; },
    };
    let (lc, p8) = match crate::bytes::read_u8(data, p7) {
        Some(x) => x,
        None => { return None; },
    };
    let (is_valid, p9) = match crate::bytes::read_u8(data, p8) {
        Some(x) => x,
        None => { return None; },
    };
    let (sb, p10) = match crate::bytes::read_u8(data, p9) {
        Some(x) => x,
        None => { return None; },
    };
    let spent_status = match decode_status(sb) {
        Some(s) => s,
        None => { return None; },
    };
    let slip = Slip {
        body: SlipBody { add, typ, amt, bid, tid, sid, bsh },
        lc,
        is_valid,
        spent_status,
    };
    Some((slip, p10))
}

/// The slip type a wire byte stands for.
pub fn decode_typ(b: u8) -> (r: Option<SlipBroadcastType>)
    ensures
        r == dec_typ(b),
{
    if b == 0 {
        Some(SlipBroadcastType::Normal)
    } else if b == 1 {
        Some(SlipBroadcastType::GoldenTicket)
    } else if b == 2 {
        Some(SlipBroadcastType::Fee)
    } else if b == 3 {
        Some(SlipBroadcastType::Rebroadcast)
    } else if b == 4 {
        Some(SlipBroadcastType::VIP)
    } else if b == 5 {
        Some(SlipBroadcastType::GoldenChunk)
    } else {
        None
    }
}

/// The spent status a wire byte stands for.
pub fn decode_status(b: u8) -> (r: Option<SlipSpentStatus>)
    ensures
        r == dec_status(b),
{
    if b == 0 {
        Some(SlipSpentStatus::Unspent)
    } else if b == 1 {
        Some(SlipSpentStatus::Spent)
    } else if b == 2 {
        Some(SlipSpentStatus::Pending)
    } else {
        None
    }
}

} // verus!
