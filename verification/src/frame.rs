//! Binary transfer frames: a transfer id of 16 bytes, the chunk's index in four
//! bytes, the most significant first, and the chunk.

use crate::digits::{hex, lemma_hex_ascii, lemma_hex_digits, lemma_hex_len, parse_radix, parsed};
use crate::text::{byte_len, bytes_of, chars_of, slice_text};
use vstd::prelude::*;
use vstd::slice::slice_subrange;

verus! {

pub const TRANSFER_ID_BYTES: usize = 16;

pub const BINARY_HEADER_BYTES: usize = 20;

/// A frame taken apart.
#[derive(Debug, Clone, PartialEq, Eq)]
pub struct BinaryFrame<'a> {
    pub transfer_id: [u8; 16],
    pub chunk_index: u32,
    pub payload: &'a [u8],
}

#[derive(Debug, Clone, Copy, PartialEq, Eq, Structural)]
pub enum BinaryFrameError {
    TooShort,
}

impl BinaryFrameError {
    pub fn message(&self) -> (r: &'static str)
        ensures
            r@ == "binary transfer frame shorter than 20 bytes"@,
    {
        "binary transfer frame shorter than 20 bytes"
    }
}

/// A number in four bytes, the most significant first.
pub open spec fn big_endian(n: u32) -> Seq<u8> {
    seq![(n / 0x1000000) as u8, (n / 0x10000 % 0x100) as u8, (n / 0x100 % 0x100) as u8, (n % 0x100) as u8]
}

/// The bytes of a frame.
pub open spec fn frame_bytes(transfer_id: Seq<u8>, chunk_index: u32, payload: Seq<u8>) -> Seq<u8> {
    transfer_id + big_endian(chunk_index) + payload
}

/// Whether bytes are long enough to be a frame.
pub fn is_binary_transfer_frame(frame: &[u8]) -> (r: bool)
    ensures
        r == (frame@.len() >= BINARY_HEADER_BYTES),
{
    frame.len() >= BINARY_HEADER_BYTES
}

/// The first sixteen bytes.
fn first_sixteen(frame: &[u8]) -> (r: [u8; 16])
    requires
        frame@.len() >= 16,
    ensures
        r@ == frame@.subrange(0, 16),
{
    let r = [
        frame[0],
        frame[1],
        frame[2],
        frame[3],
        frame[4],
        frame[5],
        frame[6],
        frame[7],
        frame[8],
        frame[9],
        frame[10],
        frame[11],
        frame[12],
        frame[13],
        frame[14],
        frame[15],
    ];
    assert(r@ =~= frame@.subrange(0, 16));
    r
}

proof fn lemma_big_endian(a: u8, b: u8, c: u8, d: u8, n: u32)
    requires
        n == a * 0x1000000 + b * 0x10000 + c * 0x100 + d,
    ensures
        big_endian(n) == seq![a, b, c, d],
{
    assert(n / 0x1000000 == a);
    assert(n / 0x10000 == a * 0x100 + b);
    assert(n / 0x100 == a * 0x10000 + b * 0x100 + c);
    assert(n / 0x10000 % 0x100 == b);
    assert(n / 0x100 % 0x100 == c);
    assert(n % 0x100 == d);
}

/// Takes a frame apart. Bytes shorter than a header are no frame; all others are
/// the frame that `frame_bytes` makes of the parts.
pub fn decode_binary_frame<'a>(frame: &'a [u8]) -> (r: Result<BinaryFrame<'a>, BinaryFrameError>)
    ensures
        r is Err <==> frame@.len() < BINARY_HEADER_BYTES,
        r matches Ok(f) ==> frame@ == frame_bytes(f.transfer_id@, f.chunk_index, f.payload@),
{
    if frame.len() < BINARY_HEADER_BYTES {
        return Err(BinaryFrameError::TooShort);
    }
    let transfer_id = first_sixteen(frame);
    let a: u32 = frame[16] as u32;
    let b: u32 = frame[17] as u32;
    let c: u32 = frame[18] as u32;
    let d: u32 = frame[19] as u32;
    let chunk_index: u32 = a * 0x1000000 + b * 0x10000 + c * 0x100 + d;
    let payload = slice_subrange(frame, BINARY_HEADER_BYTES, frame.len());
    proof {
        lemma_big_endian(frame@[16], frame@[17], frame@[18], frame@[19], chunk_index);
        assert(big_endian(chunk_index) =~= frame@.subrange(16, 20));
    }
    assert(frame@ =~= frame@.subrange(0, 16) + frame@.subrange(16, 20) + frame@.subrange(20, frame@.len() as int));
    Ok(BinaryFrame { transfer_id, chunk_index, payload })
}

/// Puts a frame together.
pub fn encode_binary_frame(transfer_id: [u8; 16], chunk_index: u32, payload: &[u8]) -> (r: Vec<u8>)
    ensures
        r@ == frame_bytes(transfer_id@, chunk_index, payload@),
{
    let mut out: Vec<u8> = Vec::new();
    let mut i: usize = 0;
    while i < 16
        invariant
            i <= 16,
            out@ == transfer_id@.take(i as int),
        decreases 16 - i,
    {
        out.push(transfer_id[i]);
        i = i + 1;
        assert(transfer_id@.take(i as int) =~= transfer_id@.take(i - 1).push(transfer_id@[i - 1]));
    }
    assert(transfer_id@.take(16) =~= transfer_id@);
    out.push((chunk_index / 0x1000000) as u8);
    out.push((chunk_index / 0x10000 % 0x100) as u8);
    out.push((chunk_index / 0x100 % 0x100) as u8);
    out.push((chunk_index % 0x100) as u8);
    assert(out@ =~= transfer_id@ + big_endian(chunk_index));
    out.extend_from_slice(payload);
    assert(out@ =~= frame_bytes(transfer_id@, chunk_index, payload@));
    out
}

/// A frame that was put together comes apart into the same parts: two triples
/// with the same bytes are the same.
pub proof fn frame_parts_are_unique(
    id1: Seq<u8>,
    index1: u32,
    payload1: Seq<u8>,
    id2: Seq<u8>,
    index2: u32,
    payload2: Seq<u8>,
)
    requires
        id1.len() == TRANSFER_ID_BYTES,
        id2.len() == TRANSFER_ID_BYTES,
        frame_bytes(id1, index1, payload1) == frame_bytes(id2, index2, payload2),
    ensures
        id1 == id2,
        index1 == index2,
        payload1 == payload2,
{
    let f = frame_bytes(id1, index1, payload1);
    let g = frame_bytes(id2, index2, payload2);
    assert(f.subrange(0, 16) =~= id1);
    assert(g.subrange(0, 16) =~= id2);
    assert(f.subrange(20, f.len() as int) =~= payload1);
    assert(g.subrange(20, g.len() as int) =~= payload2);
    assert(f[16] == big_endian(index1)[0] && f[17] == big_endian(index1)[1]);
    assert(f[18] == big_endian(index1)[2] && f[19] == big_endian(index1)[3]);
    assert(g[16] == big_endian(index2)[0] && g[17] == big_endian(index2)[1]);
    assert(g[18] == big_endian(index2)[2] && g[19] == big_endian(index2)[3]);
}

/// The pair of hexadecimal digits of the `i`-th byte.
pub open spec fn pair_at(s: Seq<char>, i: int) -> Seq<char> {
    s.subrange(2 * i, 2 * i + 2)
}

/// The transfer id that 32 hexadecimal digits are, or what is wrong with them.
pub open spec fn transfer_id_of(s: Seq<char>) -> Result<Seq<u8>, Seq<char>> {
    if bytes_of(s).len() != 32 {
        Err("transfer_id must be 32 hex characters"@)
    } else if s.len() == 32 && forall|i: int| 0 <= i < 16 ==> parsed(#[trigger] pair_at(s, i), 16, 255) is Some {
        Ok(Seq::new(16, |i: int| parsed(pair_at(s, i), 16, 255)->0 as u8))
    } else {
        Err("invalid transfer_id hex: invalid digit found in string"@)
    }
}

/// Reads a transfer id in hexadecimal.
pub fn decode_transfer_id_hex(value: &str) -> (r: Result<[u8; 16], String>)
    ensures
        match r {
            Ok(id) => transfer_id_of(value@) == Ok::<Seq<u8>, Seq<char>>(id@),
            Err(e) => transfer_id_of(value@) == Err::<Seq<u8>, Seq<char>>(e@),
        },
{
    if byte_len(value) != 32 {
        return Err("transfer_id must be 32 hex characters".to_owned());
    }
    let chars = chars_of(value);
    if chars.len() != 32 {
        return Err("invalid transfer_id hex: invalid digit found in string".to_owned());
    }
    let mut bytes = [0u8;16];
    let mut i: usize = 0;
    while i < 16
        invariant
            i <= 16,
            chars@ == value@,
            chars@.len() == 32,
            bytes_of(value@).len() == 32,
            forall|j: int|
                0 <= j < i ==> parsed(#[trigger] pair_at(value@, j), 16, 255) == Some(bytes@[j] as int),
        decreases 16 - i,
    {
        let pair = slice_text(&chars, 2 * i, 2 * i + 2);
        assert(pair@ == pair_at(value@, i as int));
        match parse_radix(&pair, 16, 255) {
            Some(v) => {
                bytes[i] = v as u8;
            },
            None => {
                assert(parsed(pair_at(value@, i as int), 16, 255) is None);
                return Err("invalid transfer_id hex: invalid digit found in string".to_owned());
            },
        }
        i = i + 1;
    }
    assert(bytes@ =~= Seq::new(16, |i: int| parsed(pair_at(value@, i), 16, 255)->0 as u8));
    Ok(bytes)
}

/// A transfer id written in hexadecimal reads back as itself.
pub proof fn transfer_id_round_trip(id: Seq<u8>)
    requires
        id.len() == TRANSFER_ID_BYTES,
    ensures
        transfer_id_of(hex(id)) == Ok::<Seq<u8>, Seq<char>>(id),
{
    let s = hex(id);
    lemma_hex_len(id);
    lemma_hex_ascii(id);
    vstd::utf8::is_ascii_chars_encode_utf8(s);
    assert forall|i: int| 0 <= i < 16 implies parsed(#[trigger] pair_at(s, i), 16, 255) == Some(id[i] as int) by {
        lemma_hex_digits(id, i);
        let p = pair_at(s, i);
        reveal_with_fuel(crate::digits::digits_value, 3);
        assert(p.drop_last() =~= seq![p[0]]);
        assert(p.drop_last().drop_last() =~= Seq::empty());
    }
    assert(Seq::new(16, |i: int| parsed(pair_at(s, i), 16, 255)->0 as u8) =~= id);
}

/// A frame is the name of the transfer, the place of the chunk with its highest byte first,
/// and the chunk.
pub proof fn frames_hold_their_parts(id: Seq<u8>, index: u32, payload: Seq<u8>)
    requires
        id.len() == 16,
    ensures
        ({
            let f = frame_bytes(id, index, payload);
            &&& f.len() == 20 + payload.len()
            &&& f.take(16) == id
            &&& f[16] * 0x1000000 + f[17] * 0x10000 + f[18] * 0x100 + f[19] == index
            &&& f.skip(20) == payload
        }),
{
    let f = frame_bytes(id, index, payload);
    assert(f.take(16) =~= id);
    assert(f.skip(20) =~= payload);
    assert((index / 0x1000000) < 0x100 && (index / 0x10000 % 0x100) < 0x100);
}

} // verus!
