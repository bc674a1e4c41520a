//! The length-prefixed frame format of the mock wire:
//! `[flag: 1 byte][length: 4 bytes, big-endian][payload: length bytes]`.

use vstd::prelude::*;

verus! {

/// Number of header bytes in front of every payload.
pub const HEADER_LEN: usize = 5;

/// Largest payload length that the 4-byte length field can carry.
pub const MAX_PAYLOAD_LEN: usize = 0xffff_ffff;

/// Why a byte sequence is not a frame of the expected message.
#[derive(Clone, Copy, Debug, PartialEq, Eq, Structural)]
pub enum WireFormatError {
    /// Fewer bytes than a header.
    TooShort,
    /// The flag byte asks for a compression this transport does not support.
    UnsupportedCompression,
    /// The header declares more payload bytes than are present.
    LengthMismatch,
    /// The payload does not parse as the target message type.
    DecodeFailure,
}

/// The four big-endian bytes of `n` (`n < 2^32`).
pub open spec fn be32(n: nat) -> Seq<u8> {
    seq![
        (n / 0x100_0000 % 0x100) as u8,
        (n / 0x1_0000 % 0x100) as u8,
        (n / 0x100 % 0x100) as u8,
        (n % 0x100) as u8,
    ]
}

/// The frame that carries `payload`: flag 0, its length, then its bytes.
pub open spec fn frame_of(payload: Seq<u8>) -> Seq<u8> {
    seq![0u8] + be32(payload.len()) + payload
}

/// The payload length that the header of `b` declares (`b.len() >= 5`).
pub open spec fn declared_len(b: Seq<u8>) -> nat {
    (b[1] as nat) * 0x100_0000 + (b[2] as nat) * 0x1_0000 + (b[3] as nat) * 0x100 + (b[4] as nat)
}

/// What decoding the frame at the start of `b` gives: its payload, or why it fails.
pub open spec fn frame_payload(b: Seq<u8>) -> Result<Seq<u8>, WireFormatError> {
    if b.len() < 5 {
        Err(WireFormatError::TooShort)
    } else if b[0] != 0 {
        Err(WireFormatError::UnsupportedCompression)
    } else if b.len() < 5 + declared_len(b) {
        Err(WireFormatError::LengthMismatch)
    } else {
        Ok(b.subrange(5, 5 + declared_len(b) as int))
    }
}

/// Wraps `payload` in a frame.
pub fn encode_frame(payload: &[u8]) -> (r: Vec<u8>)
    requires
        payload@.len() <= MAX_PAYLOAD_LEN,
    ensures
        r@ == frame_of(payload@),
{
    let n: usize = payload.len();
    let mut out: Vec<u8> = Vec::with_capacity(n);
    out.push(0u8);
    out.push((n / 0x100_0000 % 0x100) as u8);
    out.push((n / 0x1_0000 % 0x100) as u8);
    out.push((n / 0x100 % 0x100) as u8);
    out.push((n % 0x100) as u8);
    let mut i: usize = 0;
    while i < n
        invariant
            n == payload@.len(),
            i <= n,
            out@ == seq![0u8] + be32(n as nat) + payload@.subrange(0, i as int),
        decreases n - i,
    {
        out.push(payload[i]);
        i = i + 1;
        assert(payload@.subrange(0, i as int) =~= payload@.subrange(0, i - 1) + seq![payload@[i - 1]]);
    }
    assert(payload@.subrange(0, n as int) =~= payload@);
    out
}

/// Copies `b[start..end]` into a new vector.
pub(crate) fn copy_range(b: &[u8], start: usize, end: usize) -> (r: Vec<u8>)
    requires
        start <= end <= b@.len(),
    ensures
        r@ == b@.subrange(start as int, end as int),
{
    let mut out: Vec<u8> = Vec::with_capacity(end - start);
    let mut i: usize = start;
    while i < end
        invariant
            start <= i <= end <= b@.len(),
            out@ == b@.subrange(start as int, i as int),
        decreases end - i,
    {
        out.push(b[i]);
        i = i + 1;
        assert(b@.subrange(start as int, i as int) =~= b@.subrange(start as int, i - 1) + seq![b@[i - 1]]);
    }
    out
}

/// Reads the frame at the start of `bytes` and returns its payload, consuming
/// exactly the declared length; bytes after the frame are ignored.
pub fn decode_frame(bytes: &[u8]) -> (r: Result<Vec<u8>, WireFormatError>)
    ensures
        match (r, frame_payload(bytes@)) {
            (Ok(p), Ok(q)) => p@ == q,
            (Err(e), Err(f)) => e == f,
            _ => false,
        },
{
    if bytes.len() < HEADER_LEN {
        return Err(WireFormatError::TooShort);
    }
    if bytes[0] != 0 {
        return Err(WireFormatError::UnsupportedCompression);
    }
    let n: usize = (bytes[1] as usize) * 0x100_0000 + (bytes[2] as usize) * 0x1_0000
        + (bytes[3] as usize) * 0x100 + (bytes[4] as usize);
    if bytes.len() - HEADER_LEN < n {
        return Err(WireFormatError::LengthMismatch);
    }
    Ok(copy_range(bytes, HEADER_LEN, HEADER_LEN + n))
}

/// The header of a frame with `n` payload bytes decodes back to `n`.
pub proof fn lemma_declared_len_of_frame(payload: Seq<u8>)
    requires
        payload.len() <= MAX_PAYLOAD_LEN,
    ensures
        frame_of(payload).len() == 5 + payload.len(),
        declared_len(frame_of(payload)) == payload.len(),
{
    let f = frame_of(payload);
    let n = payload.len();
    assert(f[1] == (n / 0x100_0000 % 0x100) as u8);
    assert(f[2] == (n / 0x1_0000 % 0x100) as u8);
    assert(f[3] == (n / 0x100 % 0x100) as u8);
    assert(f[4] == (n % 0x100) as u8);
}

/// Decoding the frame of any payload gives that payload back.
pub proof fn lemma_frame_round_trip(payload: Seq<u8>)
    requires
        payload.len() <= MAX_PAYLOAD_LEN,
    ensures
        frame_payload(frame_of(payload)) == Ok::<Seq<u8>, WireFormatError>(payload),
{
    lemma_declared_len_of_frame(payload);
    let f = frame_of(payload);
    assert(f.subrange(5, 5 + payload.len() as int) =~= payload);
}

/// Fewer bytes than a header always fail with `TooShort`; a complete header
/// with a non-zero flag always fails with `UnsupportedCompression`; a zero
/// flag with a declared length beyond the bytes present always fails with
/// `LengthMismatch`.
pub proof fn lemma_frame_rejections(b: Seq<u8>)
    ensures
        b.len() < 5 ==> frame_payload(b) == Err::<Seq<u8>, WireFormatError>(WireFormatError::TooShort),
        b.len() >= 5 && b[0] != 0 ==> frame_payload(b) == Err::<Seq<u8>, WireFormatError>(
            WireFormatError::UnsupportedCompression,
        ),
        b.len() >= 5 && b[0] == 0 && declared_len(b) > b.len() - 5 ==> frame_payload(b) == Err::<
            Seq<u8>,
            WireFormatError,
        >(WireFormatError::LengthMismatch),
{
}

/// The request path that names `method` of `service`: `/{service}/{method}`.
pub open spec fn grpc_path_of(service: Seq<char>, method: Seq<char>) -> Seq<char> {
    seq!['/'] + service + seq!['/'] + method
}

} // verus!
