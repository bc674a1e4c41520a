//! The protobuf wire format, as far as the shipped message types need it:
//! varints, field keys and the fields that follow them.

use vstd::prelude::*;
use vstd::utf8::{decode_utf8, encode_utf8, valid_utf8};

verus! {

/// The LEB128 encoding of `v`: seven bits per byte, low bits first, the high
/// bit set on every byte but the last.
pub open spec fn varint(v: nat) -> Seq<u8>
    decreases v,
{
    if v < 0x80 {
        seq![v as u8]
    } else {
        seq![(v % 0x80 + 0x80) as u8] + varint(v / 0x80)
    }
}

/// The LEB128 value at the start of `b` and the number of bytes it takes.
pub open spec fn varint_at(b: Seq<u8>) -> Option<(nat, nat)>
    decreases b.len(),
{
    if b.len() == 0 {
        None
    } else if b[0] < 0x80 {
        Some((b[0] as nat, 1nat))
    } else {
        match varint_at(b.drop_first()) {
            Some((v, n)) => Some(((b[0] - 0x80) as nat + 0x80 * v, n + 1)),
            None => None,
        }
    }
}

/// A varint as protobuf reads it: at most ten bytes, with a value that fits
/// in 64 bits.
pub open spec fn read_varint(b: Seq<u8>) -> Option<(nat, nat)> {
    match varint_at(b) {
        Some((v, n)) => if n <= 10 && v <= u64::MAX {
            Some((v, n))
        } else {
            None
        },
        None => None,
    }
}

/// The 64-bit pattern that protobuf writes for an `int32`: negative values
/// are sign-extended.
pub open spec fn int32_bits(c: i32) -> nat {
    if c >= 0 {
        c as nat
    } else {
        (c + 0x1_0000_0000_0000_0000) as nat
    }
}

/// Appends a length-delimited field of tag `tag` holding `value`.
/// Relies on `prost::encoding::bytes::encode`, which appends the varint key
/// `tag * 8 + 2`, the varint length of `value`, then its bytes.
#[verifier::external_body]
pub(crate) fn encode_bytes(tag: u32, value: &Vec<u8>, buf: &mut Vec<u8>)
    requires
        1 <= tag < 0x2000_0000,
    ensures
        final(buf)@ == old(buf)@ + varint(tag as nat * 8 + 2) + varint(value@.len()) + value@,
{
    prost::encoding::bytes::encode(tag, value, buf)
}

/// Appends a string field of tag `tag` holding `value`.
/// Relies on `prost::encoding::string::encode`, which appends the varint key
/// `tag * 8 + 2`, the varint length of the UTF-8 bytes, then those bytes.
#[verifier::external_body]
pub(crate) fn encode_string(tag: u32, value: &String, buf: &mut Vec<u8>)
    requires
        1 <= tag < 0x2000_0000,
    ensures
        final(buf)@ == old(buf)@ + varint(tag as nat * 8 + 2) + varint(encode_utf8(value@).len())
            + encode_utf8(value@),
{
    prost::encoding::string::encode(tag, value, buf)
}

/// Appends an `int32` field of tag `tag` holding `value`.
/// Relies on `prost::encoding::int32::encode`, which appends the varint key
/// `tag * 8`, then the varint of `value` sign-extended to 64 bits.
#[verifier::external_body]
pub(crate) fn encode_int32(tag: u32, value: &i32, buf: &mut Vec<u8>)
    requires
        1 <= tag < 0x2000_0000,
    ensures
        final(buf)@ == old(buf)@ + varint(tag as nat * 8) + varint(int32_bits(*value)),
{
    prost::encoding::int32::encode(tag, value, buf)
}

/// A varint followed by anything reads back as its value.
pub proof fn lemma_varint_at(v: nat, rest: Seq<u8>)
    ensures
        varint_at(varint(v) + rest) == Some((v, varint(v).len())),
    decreases v,
{
    let s = varint(v) + rest;
    if v < 0x80 {
        assert(s[0] == v as u8);
    } else {
        lemma_varint_at(v / 0x80, rest);
        assert(s.drop_first() =~= varint(v / 0x80) + rest);
        assert(s[0] == (v % 0x80 + 0x80) as u8);
    }
}

/// `128^k`.
pub open spec fn pow128(k: nat) -> nat
    decreases k,
{
    if k == 0 {
        1
    } else {
        0x80 * pow128((k - 1) as nat)
    }
}

/// A value below `128^k` takes at most `k` bytes.
pub proof fn lemma_varint_len(v: nat, k: nat)
    requires
        k >= 1,
        v < pow128(k),
    ensures
        varint(v).len() <= k,
    decreases v,
{
    if v >= 0x80 {
        let p = pow128((k - 1) as nat);
        assert(k >= 2) by {
            if k == 1 {
                assert(pow128(0) == 1);
            }
        }
        assert(v / 0x80 < p) by (nonlinear_arith)
            requires
                v < 0x80 * p,
        ;
        lemma_varint_len(v / 0x80, (k - 1) as nat);
    }
}

/// Every 64-bit value reads back from its encoding, which takes at most ten
/// bytes.
pub proof fn lemma_read_varint(v: nat, rest: Seq<u8>)
    requires
        v <= u64::MAX,
    ensures
        varint(v).len() <= 10,
        read_varint(varint(v) + rest) == Some((v, varint(v).len())),
{
    assert(pow128(10) == 0x80 * 0x80 * 0x80 * 0x80 * 0x80 * 0x80 * 0x80 * 0x80 * 0x80 * 0x80) by {
        reveal_with_fuel(pow128, 11);
    }
    lemma_varint_len(v, 10);
    lemma_varint_at(v, rest);
}

/// The field key at the start of `b`: its tag, its wire type and the number
/// of bytes it takes. Keys above 32 bits, tag 0 and the wire types 6 and 7
/// do not read.
pub open spec fn key_at(b: Seq<u8>) -> Option<(nat, nat, nat)> {
    match read_varint(b) {
        Some((key, kn)) => if key > u32::MAX || key % 8 > 5 || key / 8 == 0 {
            None
        } else {
            Some((key / 8, key % 8, kn))
        },
        None => None,
    }
}

/// The value of a length-delimited field of wire type `wt` whose key has
/// been read, and the number of bytes it takes.
pub open spec fn bytes_value(wt: nat, b: Seq<u8>) -> Option<(Seq<u8>, nat)> {
    if wt != 2 {
        None
    } else {
        match read_varint(b) {
            Some((l, ln)) => if ln + l <= b.len() {
                Some((b.subrange(ln as int, (ln + l) as int), ln + l))
            } else {
                None
            },
            None => None,
        }
    }
}

/// The `int32` that protobuf reads from a varint value: its low 32 bits, as
/// a two's-complement number.
pub open spec fn int32_of(x: nat) -> i32 {
    let low = x % 0x1_0000_0000;
    if low >= 0x8000_0000 {
        (low - 0x1_0000_0000) as i32
    } else {
        low as i32
    }
}

/// The value of an `int32` field of wire type `wt` whose key has been read,
/// and the number of bytes it takes.
pub open spec fn int32_value(wt: nat, b: Seq<u8>) -> Option<(i32, nat)> {
    if wt != 0 {
        None
    } else {
        match read_varint(b) {
            Some((x, n)) => Some((int32_of(x), n)),
            None => None,
        }
    }
}

/// The number of bytes that skipping an unknown field of wire type `wt` and
/// tag `tag` at the start of `b` takes, if the field is well formed.
pub uninterp spec fn skipped_len(wt: nat, tag: nat, b: Seq<u8>) -> Option<nat>;

/// Reads the field key at `b[pos..]`; gives its tag, its wire type and the
/// number of bytes left after it.
/// Relies on `prost::encoding::decode_key`, which reads a varint key and
/// rejects keys above 32 bits, wire types 6 and 7, and tag 0.
#[verifier::external_body]
pub(crate) fn decode_key_at(b: &[u8], pos: usize) -> (r: Option<(u32, u8, usize)>)
    requires
        pos <= b@.len(),
    ensures
        match (r, key_at(b@.subrange(pos as int, b@.len() as int))) {
            (Some((t, w, rest)), Some((tag, wt, kn))) => t == tag && w == wt && rest + kn == b@.len() - pos,
            (None, None) => true,
            _ => false,
        },
{
    let mut buf: &[u8] = &b[pos..];
    match prost::encoding::decode_key(&mut buf) {
        Ok((tag, wire_type)) => Some((tag, wire_type as u8, buf.len())),
        Err(_) => None,
    }
}

/// Reads a length-delimited value of wire type `wt` at `b[pos..]`; gives the
/// value and the number of bytes left after it.
/// Relies on `prost::encoding::bytes::merge`, which checks the wire type,
/// reads a varint length and takes that many bytes if they are present.
#[verifier::external_body]
pub(crate) fn merge_bytes_at(wt: u8, b: &[u8], pos: usize) -> (r: Option<(Vec<u8>, usize)>)
    requires
        pos <= b@.len(),
        wt <= 5,
    ensures
        match (r, bytes_value(wt as nat, b@.subrange(pos as int, b@.len() as int))) {
            (Some((v, rest)), Some((x, n))) => v@ == x && rest + n == b@.len() - pos,
            (None, None) => true,
            _ => false,
        },
{
    let wire_type = match prost::encoding::WireType::try_from(u64::from(wt)) {
        Ok(w) => w,
        Err(_) => return None,
    };
    let mut buf: &[u8] = &b[pos..];
    let mut value: Vec<u8> = Vec::new();
    match prost::encoding::bytes::merge(wire_type, &mut value, &mut buf, Default::default()) {
        Ok(()) => Some((value, buf.len())),
        Err(_) => None,
    }
}

/// Reads a string value of wire type `wt` at `b[pos..]`; gives the text and
/// the number of bytes left after it.
/// Relies on `prost::encoding::string::merge`, which reads the value as
/// `bytes::merge` does and accepts it exactly when it is valid UTF-8.
#[verifier::external_body]
pub(crate) fn merge_string_at(wt: u8, b: &[u8], pos: usize) -> (r: Option<(String, usize)>)
    requires
        pos <= b@.len(),
        wt <= 5,
    ensures
        match (r, bytes_value(wt as nat, b@.subrange(pos as int, b@.len() as int))) {
            (Some((v, rest)), Some((x, n))) => valid_utf8(x) && v@ == decode_utf8(x) && rest + n
                == b@.len() - pos,
            (None, Some((x, n))) => !valid_utf8(x),
            (None, None) => true,
            _ => false,
        },
{
    let wire_type = match prost::encoding::WireType::try_from(u64::from(wt)) {
        Ok(w) => w,
        Err(_) => return None,
    };
    let mut buf: &[u8] = &b[pos..];
    let mut value = String::new();
    match prost::encoding::string::merge(wire_type, &mut value, &mut buf, Default::default()) {
        Ok(()) => Some((value, buf.len())),
        Err(_) => None,
    }
}

/// Reads an `int32` value of wire type `wt` at `b[pos..]`; gives the number
/// and the number of bytes left after it.
/// Relies on `prost::encoding::int32::merge`, which checks the wire type,
/// reads a varint and keeps its low 32 bits.
#[verifier::external_body]
pub(crate) fn merge_int32_at(wt: u8, b: &[u8], pos: usize) -> (r: Option<(i32, usize)>)
    requires
        pos <= b@.len(),
        wt <= 5,
    ensures
        match (r, int32_value(wt as nat, b@.subrange(pos as int, b@.len() as int))) {
            (Some((v, rest)), Some((x, n))) => v == x && rest + n == b@.len() - pos,
            (None, None) => true,
            _ => false,
        },
{
    let wire_type = match prost::encoding::WireType::try_from(u64::from(wt)) {
        Ok(w) => w,
        Err(_) => return None,
    };
    let mut buf: &[u8] = &b[pos..];
    let mut value: i32 = 0;
    match prost::encoding::int32::merge(wire_type, &mut value, &mut buf, Default::default()) {
        Ok(()) => Some((value, buf.len())),
        Err(_) => None,
    }
}

/// Skips an unknown field of wire type `wt` and tag `tag` at `b[pos..]`;
/// gives the number of bytes left after it.
/// Relies on `prost::encoding::skip_field`, which skips a varint, a fixed
/// value, a length-delimited value or a whole group, and only ever advances
/// within the input.
#[verifier::external_body]
pub(crate) fn skip_field_at(wt: u8, tag: u32, b: &[u8], pos: usize) -> (r: Option<usize>)
    requires
        pos <= b@.len(),
        wt <= 5,
    ensures
        match r {
            Some(rest) => rest <= b@.len() - pos && skipped_len(
                wt as nat,
                tag as nat,
                b@.subrange(pos as int, b@.len() as int),
            ) == Some((b@.len() - pos - rest) as nat),
            None => skipped_len(wt as nat, tag as nat, b@.subrange(pos as int, b@.len() as int)) is None,
        },
{
    let wire_type = match prost::encoding::WireType::try_from(u64::from(wt)) {
        Ok(w) => w,
        Err(_) => return None,
    };
    let mut buf: &[u8] = &b[pos..];
    match prost::encoding::skip_field(wire_type, tag, &mut buf, Default::default()) {
        Ok(()) => Some(buf.len()),
        Err(_) => None,
    }
}

} // verus!
