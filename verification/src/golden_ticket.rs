//! Golden tickets: lottery solutions against a target block hash. The
//! carried vote nudges the next block's difficulty and paysplit, both held
//! in hundredths.

use vstd::prelude::*;

use crate::bytes::{dec_bytes, dec_u8, lemma_concat_split};

verus! {

/// A golden-ticket record: target block hash, vote, random preimage and
/// the solver's public key.
#[derive(Clone, Debug, PartialEq)]
pub struct GoldenTicket {
    pub target: Vec<u8>,
    pub vote: u8,
    pub random: Vec<u8>,
    pub publickey: Vec<u8>,
}

/// Mathematical image of a golden ticket.
pub ghost struct GoldenTicketView {
    pub target: Seq<u8>,
    pub vote: u8,
    pub random: Seq<u8>,
    pub publickey: Seq<u8>,
}

impl View for GoldenTicket {
    type V = GoldenTicketView;

    open spec fn view(&self) -> GoldenTicketView {
        GoldenTicketView {
            target: self.target@,
            vote: self.vote,
            random: self.random@,
            publickey: self.publickey@,
        }
    }
}

/// A golden ticket is well formed when its hashes have 32 bytes and its
/// key 33.
pub open spec fn wf_gt(g: GoldenTicketView) -> bool {
    g.target.len() == 32 && g.random.len() == 32 && g.publickey.len() == 33
}

/// A difficulty or paysplit moved one hundredth by a vote: up for vote
/// one, down otherwise, saturating at the ends of the range.
pub open spec fn vote_adjust(vote: u8, v: u64) -> u64 {
    if vote == 1 {
        if v < u64::MAX {
            (v + 1) as u64
        } else {
            u64::MAX
        }
    } else {
        if v > 0 {
            (v - 1) as u64
        } else {
            0
        }
    }
}

/// Canonical serialization of a golden ticket: target, vote byte, random
/// preimage, public key.
pub open spec fn enc_gt(g: GoldenTicketView) -> Seq<u8> {
    g.target + seq![g.vote] + g.random + g.publickey
}

/// Decoding of a golden ticket at `pos`.
pub open spec fn dec_gt(data: Seq<u8>, pos: int) -> Option<(GoldenTicketView, int)> {
    match dec_bytes(data, pos, 32) {
        None => None,
        Some((target, p1)) => match dec_u8(data, p1) {
            None => None,
            Some((vote, p2)) => match dec_bytes(data, p2, 32) {
                None => None,
                Some((random, p3)) => match dec_bytes(data, p3, 33) {
                    None => None,
                    Some((publickey, p4)) => Some(
                        (GoldenTicketView { target, vote, random, publickey }, p4),
                    ),
                },
            },
        },
    }
}

/// A well-formed golden ticket encoded at `pos` decodes to itself.
pub proof fn lemma_dec_enc_gt(data: Seq<u8>, pos: int, g: GoldenTicketView)
    requires
        wf_gt(g),
        0 <= pos,
        pos + enc_gt(g).len() <= data.len(),
        data.subrange(pos, pos + enc_gt(g).len()) == enc_gt(g),
    ensures
        enc_gt(g).len() == 98,
        dec_gt(data, pos) == Some((g, pos + 98)),
{
    lemma_concat_split(data, pos, g.target + seq![g.vote] + g.random, g.publickey);
    lemma_concat_split(data, pos, g.target + seq![g.vote], g.random);
    lemma_concat_split(data, pos, g.target, seq![g.vote]);
    assert(data[pos + 32] == g.vote) by {
        assert(data.subrange(pos + 32, pos + 33)[0] == data[pos + 32]);
    }
}

impl GoldenTicket {
    /// A golden ticket with the given vote, target, preimage and solver.
    pub fn new(vote: u8, target: Vec<u8>, random: Vec<u8>, publickey: Vec<u8>) -> (r: GoldenTicket)
        requires
            target@.len() == 32,
            random@.len() == 32,
            publickey@.len() == 33,
        ensures
            r@.vote == vote,
            r@.target == target@,
            r@.random == random@,
            r@.publickey == publickey@,
            wf_gt(r@),
    {
        GoldenTicket { target, vote, random, publickey }
    }

    /// The difficulty for the next block, one hundredth above or below the
    /// previous one as the vote says.
    pub fn calculate_difficulty(&self, prev_difficulty: u64) -> (r: u64)
        ensures
            r == vote_adjust(self@.vote, prev_difficulty),
    {
        if self.vote == 1 {
            if prev_difficulty < u64::MAX {
                prev_difficulty + 1
            } else {
                u64::MAX
            }
        } else {
            if prev_difficulty > 0 {
                prev_difficulty - 1
            } else {
                0
            }
        }
    }

    /// The paysplit for the next block, one hundredth above or below the
    /// previous one as the vote says.
    pub fn calculate_paysplit(&self, prev_paysplit: u64) -> (r: u64)
        ensures
            r == vote_adjust(self@.vote, prev_paysplit),
    {
        if self.vote == 1 {
            if prev_paysplit < u64::MAX {
                prev_paysplit + 1
            } else {
                u64::MAX
            }
        } else {
            if prev_paysplit > 0 {
                prev_paysplit - 1
            } else {
                0
            }
        }
    }

    /// The canonical serialization of this ticket, what a golden-ticket
    /// transaction carries as its payload.
    pub fn serialize(&self) -> (r: Vec<u8>)
        ensures
            r@ == enc_gt(self@),
    {
        let mut buf: Vec<u8> = Vec::new();
        crate::bytes::push_bytes(&mut buf, &self.target);
        buf.push(self.vote);
        crate::bytes::push_bytes(&mut buf, &self.random);
        crate::bytes::push_bytes(&mut buf, &self.publickey);
        assert(buf@ =~= enc_gt(self@));
        buf
    }
}

/// Reads a golden ticket at `pos`, following `dec_gt`.
pub fn decode_gt(data: &[u8], pos: usize) -> (r: Option<(GoldenTicket, usize)>)
    ensures
        match r {
            Some((g, p2)) => dec_gt(data@, pos as int) == Some((g@, p2 as int)) && wf_gt(g@),
            None => dec_gt(data@, pos as int) is None,
        },
{
    let (target, p1) = match crate::bytes::read_bytes(data, pos, 32) {
        Some(x) => x,
        None => { return None; },
    };
    let (vote, p2) = match crate::bytes::read_u8(data, p1) {
        Some(x) => x,
        None => { return None; },
    };
    let (random, p3) = match crate::bytes::read_bytes(data, p2, 32) {
        Some(x) => x,
        None => { return None; },
    };
    let (publickey, p4) = match crate::bytes::read_bytes(data, p3, 33) {
        Some(x) => x,
        None => { return None; },
    };
    Some((GoldenTicket { target, vote, random, publickey }, p4))
}

} // verus!
