//! Routing hops: one relay step a transaction took on its way in, with the
//! relay's signature.

use vstd::prelude::*;

use crate::bytes::{dec_bytes, lemma_concat_split};

verus! {

/// One routing hop: sender, receiver and the hop signature.
#[derive(Clone, Debug, PartialEq)]
pub struct Hop {
    pub from: Vec<u8>,
    pub to: Vec<u8>,
    pub sig: Vec<u8>,
}

/// Mathematical image of a hop.
pub ghost struct HopView {
    pub from: Seq<u8>,
    pub to: Seq<u8>,
    pub sig: Seq<u8>,
}

impl View for Hop {
    type V = HopView;

    open spec fn view(&self) -> HopView {
        HopView { from: self.from@, to: self.to@, sig: self.sig@ }
    }
}

/// A hop is well formed when its addresses are 33-byte keys and its
/// signature has 64 bytes.
pub open spec fn wf_hop(h: HopView) -> bool {
    h.from.len() == 33 && h.to.len() == 33 && h.sig.len() == 64
}

/// Canonical serialization of a hop: sender, receiver, signature.
pub open spec fn enc_hop(h: HopView) -> Seq<u8> {
    h.from + h.to + h.sig
}

/// Decoding of a hop at `pos`.
pub open spec fn dec_hop(data: Seq<u8>, pos: int) -> Option<(HopView, int)> {
    match dec_bytes(data, pos, 33) {
        None => None,
        Some((from, p1)) => match dec_bytes(data, p1, 33) {
            None => None,
            Some((to, p2)) => match dec_bytes(data, p2, 64) {
                None => None,
                Some((sig, p3)) => Some((HopView { from, to, sig }, p3)),
            },
        },
    }
}

/// A well-formed hop encoded at `pos` decodes to itself.
pub proof fn lemma_dec_enc_hop(data: Seq<u8>, pos: int, h: HopView)
    requires
        wf_hop(h),
        0 <= pos,
        pos + enc_hop(h).len() <= data.len(),
        data.subrange(pos, pos + enc_hop(h).len()) == enc_hop(h),
    ensures
        enc_hop(h).len() == 130,
        dec_hop(data, pos) == Some((h, pos + 130)),
{
    lemma_concat_split(data, pos, h.from + h.to, h.sig);
    lemma_concat_split(data, pos, h.from, h.to);
}

impl Hop {
    /// A hop from `from` to `to` carrying signature `sig`.
    pub fn new(to: Vec<u8>, from: Vec<u8>, sig: Vec<u8>) -> (r: Hop)
        requires
            to@.len() == 33,
            from@.len() == 33,
            sig@.len() == 64,
        ensures
            r@.to == to@,
            r@.from == from@,
            r@.sig == sig@,
            wf_hop(r@),
    {
        Hop { to, from, sig }
    }
}

/// Appends the canonical serialization of a hop to `buf`.
pub fn encode_hop(buf: &mut Vec<u8>, h: &Hop)
    ensures
        final(buf)@ == old(buf)@ + enc_hop(h@),
{
    let ghost orig = buf@;
    crate::bytes::push_bytes(buf, &h.from);
    crate::bytes::push_bytes(buf, &h.to);
    crate::bytes::push_bytes(buf, &h.sig);
    assert(buf@ =~= orig + enc_hop(h@));
}

/// Reads a hop at `pos`, following `dec_hop`.
pub fn decode_hop(data: &[u8], pos: usize) -> (r: Option<(Hop, usize)>)
    ensures
        match r {
            Some((h, p2)) => dec_hop(data@, pos as int) == Some((h@, p2 as int)) && wf_hop(h@),
            None => dec_hop(data@, pos as int) is None,
        },
{
    let (from, p1) = match crate::bytes::read_bytes(data, pos, 33) {
        Some(x) => x,
        None => { return None; },
    };
    let (to, p2) = match crate::bytes::read_bytes(data, p1, 33) {
        Some(x) => x,
        None => { return None; },
    };
    let (sig, p3) = match crate::bytes::read_bytes(data, p2, 64) {
        Some(x) => x,
        None => { return None; },
    };
    Some((Hop { from, to, sig }, p3))
}

} // verus!
