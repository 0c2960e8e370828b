//! Frames: a 4-byte big-endian length followed by that many payload bytes.

use vstd::prelude::*;

verus! {

pub const FRAME_HEADER_SIZE: usize = 4;

/// The big-endian bytes of `n`.
pub open spec fn be_bytes(n: u32) -> Seq<u8> {
    seq![
        (n / 0x1000000) as u8,
        ((n / 0x10000) % 0x100) as u8,
        ((n / 0x100) % 0x100) as u8,
        (n % 0x100) as u8,
    ]
}

/// The number that four big-endian bytes denote.
pub open spec fn be_value(b: Seq<u8>) -> int
    recommends
        b.len() == 4,
{
    b[0] * 0x1000000 + b[1] * 0x10000 + b[2] * 0x100 + b[3]
}

/// The frame that carries `payload`.
pub open spec fn frame_bytes(payload: Seq<u8>) -> Seq<u8> {
    be_bytes(payload.len() as u32) + payload
}

/// Reading the header bytes of a length gives the length back.
pub proof fn lemma_be_round_trip(n: u32)
    ensures
        be_value(be_bytes(n)) == n,
{
    let b = be_bytes(n);
    assert(b[0] * 0x1000000 + b[1] * 0x10000 + b[2] * 0x100 + b[3] == n) by (nonlinear_arith)
        requires
            b[0] == n / 0x1000000,
            b[1] == (n / 0x10000) % 0x100,
            b[2] == (n / 0x100) % 0x100,
            b[3] == n % 0x100,
            0 <= n < 0x100000000,
    ;
}

/// The header bytes of a frame whose payload has `n` bytes.
pub fn header_bytes(n: u32) -> (r: [u8; 4])
    ensures
        r@ == be_bytes(n),
{
    let r = [
        (n / 0x1000000) as u8,
        ((n / 0x10000) % 0x100) as u8,
        ((n / 0x100) % 0x100) as u8,
        (n % 0x100) as u8,
    ];
    assert(r@ =~= be_bytes(n));
    r
}

/// The payload length that a frame header gives.
pub fn header_value(b: &[u8]) -> (r: u32)
    requires
        b@.len() == 4,
    ensures
        r == be_value(b@),
{
    (b[0] as u32) * 0x1000000 + (b[1] as u32) * 0x10000 + (b[2] as u32) * 0x100 + (b[3] as u32)
}

/// The frame that carries `payload`.
pub fn encode_frame(payload: &[u8]) -> (r: Vec<u8>)
    requires
        payload@.len() <= u32::MAX,
    ensures
        r@ == frame_bytes(payload@),
{
    let h = header_bytes(payload.len() as u32);
    let mut r: Vec<u8> = Vec::new();
    let mut i: usize = 0;
    while i < 4
        invariant
            i <= 4,
            r@ == h@.subrange(0, i as int),
        decreases 4 - i,
    {
        r.push(h[i]);
        i = i + 1;
        assert(r@ =~= h@.subrange(0, i as int));
    }
    let mut j: usize = 0;
    while j < payload.len()
        invariant
            j <= payload@.len(),
            r@ == h@ + payload@.subrange(0, j as int),
        decreases payload@.len() - j,
    {
        r.push(payload[j]);
        j = j + 1;
        assert(r@ =~= h@ + payload@.subrange(0, j as int));
    }
    assert(payload@.subrange(0, payload@.len() as int) =~= payload@);
    r
}

} // verus!
