//! Wire protocol constants and length-prefixed framing.
//!
//! TCP is a byte stream, so every payload travels behind a big-endian `u32`
//! length prefix. Frames with an empty payload, or claiming more than
//! `MAX_FRAME_SIZE` bytes, are rejected.
use vstd::prelude::*;
use vstd::slice::{slice_subrange, slice_to_vec};

verus! {

/// Stable wire codes for building types (append only, never reuse a number).
pub const BUILDING_CODE_MINING_DRILL: u8 = 0;
pub const BUILDING_CODE_TRANSPORT_LINE: u8 = 1;
pub const BUILDING_CODE_SMELTER: u8 = 2;
pub const BUILDING_CODE_ASSEMBLER: u8 = 3;
pub const BUILDING_CODE_GENERATOR: u8 = 4;

/// Current protocol version; bumped on any incompatible wire change.
pub const PROTOCOL_VERSION: u32 = 1;

/// Default TCP port of the server.
pub const DEFAULT_SERVER_PORT: u16 = 7777;

/// Largest payload a frame may carry: 16 MiB.
pub const MAX_FRAME_SIZE: u32 = 16777216;

/// Declares `bincode::ErrorKind`, the error a failed encoding or decoding
/// carries, so that `FrameError` can hold it; its contents stay opaque.
#[verifier::external_type_specification]
#[verifier::external_body]
pub struct ExBincodeErrorKind(bincode::ErrorKind);

/// Errors while encoding or decoding frames.
#[derive(Debug)]
pub enum FrameError {
    /// The message could not be serialized or deserialized.
    Encoding(Box<bincode::ErrorKind>),
    /// The frame's size exceeds `MAX_FRAME_SIZE`.
    TooLarge(u32),
    /// Not enough bytes yet for a whole frame.
    Incomplete,
    /// A length prefix of zero.
    EmptyFrame,
}

/// The four big-endian bytes of `n`.
pub open spec fn be_bytes(n: u32) -> Seq<u8> {
    seq![
        (n / 0x100_0000) as u8,
        ((n / 0x1_0000) % 0x100) as u8,
        ((n / 0x100) % 0x100) as u8,
        (n % 0x100) as u8,
    ]
}

/// The number that four big-endian bytes at the start of `b` encode.
pub open spec fn be_value(b: Seq<u8>) -> nat
    recommends
        b.len() >= 4,
{
    (b[0] as nat) * 0x100_0000 + (b[1] as nat) * 0x1_0000 + (b[2] as nat) * 0x100 + (b[3] as nat)
}

/// The frame carrying `payload`: its length, big-endian, then the bytes.
pub open spec fn framed(payload: Seq<u8>) -> Seq<u8> {
    be_bytes(payload.len() as u32) + payload
}

/// Decoding four big-endian bytes gives back the number.
pub proof fn lemma_be_round_trip(n: u32, rest: Seq<u8>)
    ensures
        be_value(be_bytes(n) + rest) == n,
{
    let b = be_bytes(n) + rest;
    let x = n as int;
    assert(b[0] == (x / 0x100_0000) as u8);
    assert(b[1] == ((x / 0x1_0000) % 0x100) as u8);
    assert(b[2] == ((x / 0x100) % 0x100) as u8);
    assert(b[3] == (x % 0x100) as u8);
    assert(x / 0x100_0000 < 0x100) by (nonlinear_arith)
        requires 0 <= x < 0x1_0000_0000;
    assert((x / 0x100_0000) * 0x100_0000 + ((x / 0x1_0000) % 0x100) * 0x1_0000 + ((x / 0x100) % 0x100)
        * 0x100 + x % 0x100 == x) by (nonlinear_arith)
        requires 0 <= x;
}

/// Wraps `payload` in a frame: a big-endian `u32` length, then the bytes.
/// A payload over `MAX_FRAME_SIZE` bytes is refused with `TooLarge`,
/// carrying the length truncated to `u32`.
pub fn frame(payload: &[u8]) -> (r: Result<Vec<u8>, FrameError>)
    ensures
        payload@.len() > MAX_FRAME_SIZE ==> (r matches Err(FrameError::TooLarge(n)) && n == (
        payload@.len() as u32)),
        payload@.len() <= MAX_FRAME_SIZE ==> (r matches Ok(out) && out@ == framed(payload@)),
{
    let len = payload.len();
    if len as u64 > MAX_FRAME_SIZE as u64 {
        return Err(FrameError::TooLarge(#[verifier::truncate] (len as u32)));
    }
    let n = len as u32;
    let mut out: Vec<u8> = Vec::with_capacity(4 + len);
    out.push((n / 0x100_0000) as u8);
    out.push(((n / 0x1_0000) % 0x100) as u8);
    out.push(((n / 0x100) % 0x100) as u8);
    out.push((n % 0x100) as u8);
    let ghost head = out@;
    let mut i: usize = 0;
    while i < len
        invariant
            len == payload@.len(),
            0 <= i <= len,
            out@ == head + payload@.subrange(0, i as int),
        decreases len - i,
    {
        out.push(payload[i]);
        i = i + 1;
        proof {
            assert(payload@.subrange(0, i as int) =~= payload@.subrange(0, i - 1).push(payload@[i - 1]));
        }
    }
    proof {
        assert(payload@.subrange(0, len as int) =~= payload@);
        assert(head =~= be_bytes(n));
    }
    Ok(out)
}

/// Reads one frame from the front of `buf`: the payload and the number of
/// bytes consumed. `Incomplete` means more bytes are needed; a zero length is
/// `EmptyFrame`; a declared length over `MAX_FRAME_SIZE` is `TooLarge`.
pub fn try_read_frame(buf: &[u8]) -> (r: Result<(Vec<u8>, usize), FrameError>)
    ensures
        buf@.len() < 4 ==> r matches Err(FrameError::Incomplete),
        buf@.len() >= 4 ==> ({
            let n = be_value(buf@);
            if n == 0 {
                r matches Err(FrameError::EmptyFrame)
            } else if n > MAX_FRAME_SIZE {
                (r matches Err(FrameError::TooLarge(m)) && m == n)
            } else if buf@.len() < 4 + n {
                r matches Err(FrameError::Incomplete)
            } else {
                (r matches Ok((payload, used)) && payload@ == buf@.subrange(4, 4 + n as int) && used == 4 + n)
            }
        }),
{
    if buf.len() < 4 {
        return Err(FrameError::Incomplete);
    }
    let len: u32 = (buf[0] as u32) * 0x100_0000 + (buf[1] as u32) * 0x1_0000 + (buf[2] as u32) * 0x100
        + (buf[3] as u32);
    if len == 0 {
        return Err(FrameError::EmptyFrame);
    }
    if len > MAX_FRAME_SIZE {
        return Err(FrameError::TooLarge(len));
    }
    let total = 4 + len as usize;
    if buf.len() < total {
        return Err(FrameError::Incomplete);
    }
    let payload = slice_to_vec(slice_subrange(buf, 4, total));
    Ok((payload, total))
}

/// Reading back a frame gives the payload, consuming exactly the frame,
/// whatever bytes follow it.
pub proof fn lemma_frame_round_trip(payload: Seq<u8>, rest: Seq<u8>)
    requires
        0 < payload.len() <= MAX_FRAME_SIZE,
    ensures
        ({
            let buf = framed(payload) + rest;
            &&& buf.len() >= 4 + payload.len()
            &&& be_value(buf) == payload.len()
            &&& buf.subrange(4, 4 + payload.len() as int) == payload
        }),
{
    let n = payload.len() as u32;
    let buf = framed(payload) + rest;
    assert(buf =~= be_bytes(n) + (payload + rest));
    lemma_be_round_trip(n, payload + rest);
    assert(buf.subrange(4, 4 + payload.len() as int) =~= payload);
}

} // verus!
