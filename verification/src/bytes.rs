//! Byte-level helpers: equality of byte strings and big-endian integer
//! encodings, the building blocks of the canonical wire format.

use vstd::prelude::*;

verus! {

/// Big-endian four-byte encoding of a 32-bit integer.
pub open spec fn u32_be(x: u32) -> Seq<u8> {
    seq![
        (x >> 24) as u8,
        ((x >> 16) & 0xff) as u8,
        ((x >> 8) & 0xff) as u8,
        (x & 0xff) as u8,
    ]
}

/// Big-endian eight-byte encoding of a 64-bit integer.
pub open spec fn u64_be(x: u64) -> Seq<u8> {
    seq![
        (x >> 56) as u8,
        ((x >> 48) & 0xff) as u8,
        ((x >> 40) & 0xff) as u8,
        ((x >> 32) & 0xff) as u8,
        ((x >> 24) & 0xff) as u8,
        ((x >> 16) & 0xff) as u8,
        ((x >> 8) & 0xff) as u8,
        (x & 0xff) as u8,
    ]
}

/// The 32-bit integer read from four big-endian bytes.
pub open spec fn u32_from_be(b0: u8, b1: u8, b2: u8, b3: u8) -> u32 {
    ((b0 as u32) << 24) | ((b1 as u32) << 16) | ((b2 as u32) << 8) | (b3 as u32)
}

/// The 64-bit integer read from eight big-endian bytes.
pub open spec fn u64_from_be(b0: u8, b1: u8, b2: u8, b3: u8, b4: u8, b5: u8, b6: u8, b7: u8) -> u64 {
    ((b0 as u64) << 56) | ((b1 as u64) << 48) | ((b2 as u64) << 40) | ((b3 as u64) << 32)
        | ((b4 as u64) << 24) | ((b5 as u64) << 16) | ((b6 as u64) << 8) | (b7 as u64)
}

/// Reading back the four big-endian bytes of `x` yields `x`.
pub proof fn lemma_u32_be_round_trip(x: u32)
    ensures
        u32_from_be(
            u32_be(x)[0],
            u32_be(x)[1],
            u32_be(x)[2],
            u32_be(x)[3],
        ) == x,
{
    assert(((((x >> 24) as u8) as u32) << 24) | (((((x >> 16) & 0xff) as u8) as u32) << 16)
        | (((((x >> 8) & 0xff) as u8) as u32) << 8) | (((x & 0xff) as u8) as u32) == x)
        by (bit_vector);
}

/// Reading back the eight big-endian bytes of `x` yields `x`.
pub proof fn lemma_u64_be_round_trip(x: u64)
    ensures
        u64_from_be(
            u64_be(x)[0],
            u64_be(x)[1],
            u64_be(x)[2],
            u64_be(x)[3],
            u64_be(x)[4],
            u64_be(x)[5],
            u64_be(x)[6],
            u64_be(x)[7],
        ) == x,
{
    assert(((((x >> 56) as u8) as u64) << 56) | (((((x >> 48) & 0xff) as u8) as u64) << 48)
        | (((((x >> 40) & 0xff) as u8) as u64) << 40) | (((((x >> 32) & 0xff) as u8) as u64) << 32)
        | (((((x >> 24) & 0xff) as u8) as u64) << 24) | (((((x >> 16) & 0xff) as u8) as u64) << 16)
        | (((((x >> 8) & 0xff) as u8) as u64) << 8) | (((x & 0xff) as u8) as u64) == x)
        by (bit_vector);
}

/// Appends the four big-endian bytes of `x` to `buf`.
pub fn push_u32_be(buf: &mut Vec<u8>, x: u32)
    ensures
        final(buf)@ == old(buf)@ + u32_be(x),
{
    buf.push((x >> 24) as u8);
    buf.push(((x >> 16) & 0xff) as u8);
    buf.push(((x >> 8) & 0xff) as u8);
    buf.push((x & 0xff) as u8);
    assert(buf@ =~= old(buf)@ + u32_be(x));
}

/// Appends the eight big-endian bytes of `x` to `buf`.
pub fn push_u64_be(buf: &mut Vec<u8>, x: u64)
    ensures
        final(buf)@ == old(buf)@ + u64_be(x),
{
    buf.push((x >> 56) as u8);
    buf.push(((x >> 48) & 0xff) as u8);
    buf.push(((x >> 40) & 0xff) as u8);
    buf.push(((x >> 32) & 0xff) as u8);
    buf.push(((x >> 24) & 0xff) as u8);
    buf.push(((x >> 16) & 0xff) as u8);
    buf.push(((x >> 8) & 0xff) as u8);
    buf.push((x & 0xff) as u8);
    assert(buf@ =~= old(buf)@ + u64_be(x));
}

/// Writing the four big-endian bytes read into an integer gives the bytes
/// back.
pub proof fn lemma_u32_from_be_bytes(b0: u8, b1: u8, b2: u8, b3: u8)
    ensures
        u32_be(u32_from_be(b0, b1, b2, b3)) =~= seq![b0, b1, b2, b3],
{
    let x = u32_from_be(b0, b1, b2, b3);
    assert((((b0 as u32) << 24) | ((b1 as u32) << 16) | ((b2 as u32) << 8) | (b3 as u32)) >> 24
        == b0 as u32 && ((((b0 as u32) << 24) | ((b1 as u32) << 16) | ((b2 as u32) << 8) | (
    b3 as u32)) >> 16) & 0xff == b1 as u32 && ((((b0 as u32) << 24) | ((b1 as u32) << 16) | ((
    b2 as u32) << 8) | (b3 as u32)) >> 8) & 0xff == b2 as u32 && (((b0 as u32) << 24) | ((
    b1 as u32) << 16) | ((b2 as u32) << 8) | (b3 as u32)) & 0xff == b3 as u32) by (bit_vector);
}

/// Writing the eight big-endian bytes read into an integer gives the bytes
/// back.
pub proof fn lemma_u64_from_be_bytes(b0: u8, b1: u8, b2: u8, b3: u8, b4: u8, b5: u8, b6: u8, b7: u8)
    ensures
        u64_be(u64_from_be(b0, b1, b2, b3, b4, b5, b6, b7)) =~= seq![b0, b1, b2, b3, b4, b5, b6, b7],
{
    let x = u64_from_be(b0, b1, b2, b3, b4, b5, b6, b7);
    assert({
        let y = (((b0 as u64) << 56) | ((b1 as u64) << 48) | ((b2 as u64) << 40) | ((b3 as u64)
            << 32) | ((b4 as u64) << 24) | ((b5 as u64) << 16) | ((b6 as u64) << 8) | (b7 as u64));
        y >> 56 == b0 as u64 && (y >> 48) & 0xff == b1 as u64 && (y >> 40) & 0xff == b2 as u64 && (y
            >> 32) & 0xff == b3 as u64 && (y >> 24) & 0xff == b4 as u64 && (y >> 16) & 0xff
            == b5 as u64 && (y >> 8) & 0xff == b6 as u64 && y & 0xff == b7 as u64
    }) by (bit_vector);
}

/// Decoding of one byte at `pos`.
pub open spec fn dec_u8(data: Seq<u8>, pos: int) -> Option<(u8, int)> {
    if 0 <= pos && pos + 1 <= data.len() {
        Some((data[pos], pos + 1))
    } else {
        None
    }
}

/// Decoding of a big-endian 32-bit integer at `pos`.
pub open spec fn dec_u32(data: Seq<u8>, pos: int) -> Option<(u32, int)> {
    if 0 <= pos && pos + 4 <= data.len() {
        Some((u32_from_be(data[pos], data[pos + 1], data[pos + 2], data[pos + 3]), pos + 4))
    } else {
        None
    }
}

/// Decoding of a big-endian 64-bit integer at `pos`.
pub open spec fn dec_u64(data: Seq<u8>, pos: int) -> Option<(u64, int)> {
    if 0 <= pos && pos + 8 <= data.len() {
        Some(
            (
                u64_from_be(
                    data[pos],
                    data[pos + 1],
                    data[pos + 2],
                    data[pos + 3],
                    data[pos + 4],
                    data[pos + 5],
                    data[pos + 6],
                    data[pos + 7],
                ),
                pos + 8,
            ),
        )
    } else {
        None
    }
}

/// Decoding of `n` raw bytes at `pos`.
pub open spec fn dec_bytes(data: Seq<u8>, pos: int, n: int) -> Option<(Seq<u8>, int)> {
    if 0 <= pos && 0 <= n && pos + n <= data.len() {
        Some((data.subrange(pos, pos + n), pos + n))
    } else {
        None
    }
}

/// A big-endian 32-bit integer encoded at `pos` decodes to itself.
pub proof fn lemma_dec_u32(data: Seq<u8>, pos: int, x: u32)
    requires
        0 <= pos,
        pos + 4 <= data.len(),
        data.subrange(pos, pos + 4) == u32_be(x),
    ensures
        dec_u32(data, pos) == Some((x, pos + 4)),
{
    assert(data[pos] == u32_be(x)[0]);
    assert(data[pos + 1] == u32_be(x)[1]);
    assert(data[pos + 2] == u32_be(x)[2]);
    assert(data[pos + 3] == u32_be(x)[3]);
    lemma_u32_be_round_trip(x);
}

/// A big-endian 64-bit integer encoded at `pos` decodes to itself.
pub proof fn lemma_dec_u64(data: Seq<u8>, pos: int, x: u64)
    requires
        0 <= pos,
        pos + 8 <= data.len(),
        data.subrange(pos, pos + 8) == u64_be(x),
    ensures
        dec_u64(data, pos) == Some((x, pos + 8)),
{
    assert(forall|j: int| 0 <= j < 8 ==> data[pos + j] == u64_be(x)[j]);
    lemma_u64_be_round_trip(x);
}

/// Reads one byte at `pos`.
pub fn read_u8(data: &[u8], pos: usize) -> (r: Option<(u8, usize)>)
    ensures
        match r {
            Some((v, p2)) => dec_u8(data@, pos as int) == Some((v, p2 as int)),
            None => dec_u8(data@, pos as int) is None,
        },
{
    if pos < data.len() {
        Some((data[pos], pos + 1))
    } else {
        None
    }
}

/// Reads a big-endian 32-bit integer at `pos`.
pub fn read_u32_be(data: &[u8], pos: usize) -> (r: Option<(u32, usize)>)
    ensures
        match r {
            Some((v, p2)) => dec_u32(data@, pos as int) == Some((v, p2 as int)),
            None => dec_u32(data@, pos as int) is None,
        },
{
    if pos < data.len() && data.len() - pos >= 4 {
        let b0 = data[pos];
        let b1 = data[pos + 1];
        let b2 = data[pos + 2];
        let b3 = data[pos + 3];
        let v = ((b0 as u32) << 24) | ((b1 as u32) << 16) | ((b2 as u32) << 8) | (b3 as u32);
        Some((v, pos + 4))
    } else {
        None
    }
}

/// Reads a big-endian 64-bit integer at `pos`.
pub fn read_u64_be(data: &[u8], pos: usize) -> (r: Option<(u64, usize)>)
    ensures
        match r {
            Some((v, p2)) => dec_u64(data@, pos as int) == Some((v, p2 as int)),
            None => dec_u64(data@, pos as int) is None,
        },
{
    if pos < data.len() && data.len() - pos >= 8 {
        let b0 = data[pos];
        let b1 = data[pos + 1];
        let b2 = data[pos + 2];
        let b3 = data[pos + 3];
        let b4 = data[pos + 4];
        let b5 = data[pos + 5];
        let b6 = data[pos + 6];
        let b7 = data[pos + 7];
        let v = ((b0 as u64) << 56) | ((b1 as u64) << 48) | ((b2 as u64) << 40) | ((b3 as u64)
            << 32) | ((b4 as u64) << 24) | ((b5 as u64) << 16) | ((b6 as u64) << 8) | (b7 as u64);
        Some((v, pos + 8))
    } else {
        None
    }
}

/// Reads `n` raw bytes at `pos` into a fresh vector.
pub fn read_bytes(data: &[u8], pos: usize, n: usize) -> (r: Option<(Vec<u8>, usize)>)
    ensures
        match r {
            Some((v, p2)) => dec_bytes(data@, pos as int, n as int) == Some((v@, p2 as int)),
            None => dec_bytes(data@, pos as int, n as int) is None,
        },
{
    if pos <= data.len() && data.len() - pos >= n {
        let len = data.len();
        let mut v: Vec<u8> = Vec::new();
        let mut i: usize = 0;
        while i < n
            invariant
                pos + n <= len,
                len == data@.len(),
                i <= n,
                v@.len() == i,
                forall|j: int| 0 <= j < i ==> v@[j] == data@[pos + j],
            decreases n - i,
        {
            v.push(data[pos + i]);
            i += 1;
        }
        assert(v@ =~= data@.subrange(pos as int, pos + n as int));
        Some((v, pos + n))
    } else {
        None
    }
}

/// Splits an equation over a concatenation at `pos` into equations over its
/// two parts.
pub proof fn lemma_concat_split(data: Seq<u8>, pos: int, a: Seq<u8>, b: Seq<u8>)
    requires
        0 <= pos,
        pos + a.len() + b.len() <= data.len(),
        data.subrange(pos, pos + a.len() + b.len()) == a + b,
    ensures
        data.subrange(pos, pos + a.len()) == a,
        data.subrange(pos + a.len(), pos + a.len() + b.len()) == b,
{
    let whole = data.subrange(pos, pos + a.len() + b.len());
    assert forall|j: int| 0 <= j < a.len() implies data[pos + j] == a[j] by {
        assert(whole[j] == (a + b)[j]);
    }
    assert forall|j: int| 0 <= j < b.len() implies data[pos + a.len() + j] == b[j] by {
        assert(whole[a.len() + j] == (a + b)[a.len() + j]);
    }
    assert(data.subrange(pos, pos + a.len()) =~= a);
    assert(data.subrange(pos + a.len(), pos + a.len() + b.len()) =~= b);
}

/// Whether two byte strings hold the same bytes.
pub fn bytes_eq(a: &[u8], b: &[u8]) -> (r: bool)
    ensures
        r <==> a@ == b@,
{
    if a.len() != b.len() {
        assert(a@ != b@);
        return false;
    }
    let n = a.len();
    let mut i: usize = 0;
    while i < n
        invariant
            n == a@.len() && n == b@.len(),
            i <= n,
            forall|j: int| 0 <= j < i ==> a@[j] == b@[j],
        decreases n - i,
    {
        if a[i] != b[i] {
            return false;
        }
        i += 1;
    }
    assert(a@ =~= b@);
    true
}

/// Appends every byte of `src` to `buf`.
pub fn push_bytes(buf: &mut Vec<u8>, src: &Vec<u8>)
    ensures
        final(buf)@ == old(buf)@ + src@,
{
    let ghost orig = buf@;
    let n = src.len();
    let mut i: usize = 0;
    while i < n
        invariant
            n == src@.len(),
            i <= n,
            buf@ == orig + src@.subrange(0, i as int),
        decreases n - i,
    {
        buf.push(src[i]);
        i += 1;
        assert(buf@ =~= orig + src@.subrange(0, i as int));
    }
    assert(src@.subrange(0, n as int) =~= src@);
}

/// A fresh vector holding the same bytes as `src`.
pub fn copy_bytes(src: &Vec<u8>) -> (r: Vec<u8>)
    ensures
        r@ == src@,
{
    let mut v: Vec<u8> = Vec::new();
    push_bytes(&mut v, src);
    v
}

/// A vector holding `n` zero bytes.
pub fn zero_bytes(n: usize) -> (r: Vec<u8>)
    ensures
        r@.len() == n,
        forall|j: int| 0 <= j < n ==> r@[j] == 0u8,
{
    let mut v: Vec<u8> = Vec::new();
    let mut i: usize = 0;
    while i < n
        invariant
            i <= n,
            v@.len() == i,
            forall|j: int| 0 <= j < i ==> v@[j] == 0u8,
        decreases n - i,
    {
        v.push(0u8);
        i += 1;
    }
    v
}

} // verus!
