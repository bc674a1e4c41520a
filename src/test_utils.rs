//! Message types for tests, with their protobuf encoding, and helpers that
//! build messages and response items.

use vstd::prelude::*;
use vstd::utf8::{decode_utf8, encode_utf8, valid_utf8};
use crate::frame::copy_range;
use crate::message::WireMessage;
use crate::proto::{
    bytes_value, decode_key_at, encode_bytes, encode_int32, encode_string, int32_bits, int32_of,
    int32_value, key_at, lemma_read_varint, merge_bytes_at, merge_int32_at, merge_string_at,
    read_varint, skip_field_at, skipped_len, varint,
};
use crate::status::Status;

verus! {

/// A length-delimited field with the one-byte key `key`, left out when `x`
/// is empty.
pub open spec fn bytes_field(key: u8, x: Seq<u8>) -> Seq<u8> {
    if x.len() == 0 {
        seq![]
    } else {
        seq![key] + varint(x.len()) + x
    }
}

/// Appends the field that `bytes_field(key, x)` describes; `key` is the
/// one-byte key of tag `tag`.
fn put_bytes_field(buf: &mut Vec<u8>, tag: u32, key: u8, x: &Vec<u8>)
    requires
        1 <= tag < 16,
        key as nat == tag * 8 + 2,
    ensures
        final(buf)@ == old(buf)@ + bytes_field(key, x@),
{
    if x.len() == 0 {
        assert(old(buf)@ + bytes_field(key, x@) =~= old(buf)@);
        return;
    }
    encode_bytes(tag, x, buf);
    assert(varint(key as nat) == seq![key]);
    assert(buf@ =~= old(buf)@ + bytes_field(key, x@));
}

/// A length-delimited field reads back as its key, then its bytes, and
/// leaves what follows it.
pub proof fn lemma_bytes_field(key: u8, tag: nat, x: Seq<u8>, rest: Seq<u8>)
    requires
        x.len() > 0,
        x.len() <= u64::MAX,
        key < 0x80,
        key as nat == tag * 8 + 2,
        tag >= 1,
    ensures
        key_at(bytes_field(key, x) + rest) == Some((tag, 2nat, 1nat)),
        bytes_value(2, (bytes_field(key, x) + rest).subrange(1, (bytes_field(key, x) + rest).len() as int))
            == Some((x, (bytes_field(key, x).len() - 1) as nat)),
        (bytes_field(key, x) + rest).subrange(
            bytes_field(key, x).len() as int,
            (bytes_field(key, x) + rest).len() as int,
        ) == rest,
{
    let b = bytes_field(key, x) + rest;
    let tail = varint(x.len()) + x + rest;
    assert(varint(key as nat) == seq![key]);
    assert(b =~= varint(key as nat) + tail);
    lemma_read_varint(key as nat, tail);
    assert(b.subrange(1, b.len() as int) =~= tail);
    assert(tail =~= varint(x.len()) + (x + rest));
    lemma_read_varint(x.len(), x + rest);
    let ln = varint(x.len()).len();
    assert(tail.subrange(ln as int, (ln + x.len()) as int) =~= x);
    assert(b.subrange(bytes_field(key, x).len() as int, b.len() as int) =~= rest);
}

/// A request message for tests: an id and some data, both bytes.
#[derive(Clone, Debug)]
pub struct TestRequest {
    pub id: Vec<u8>,
    pub data: Vec<u8>,
}

impl View for TestRequest {
    type V = (Seq<u8>, Seq<u8>);

    open spec fn view(&self) -> (Seq<u8>, Seq<u8>) {
        (self.id@, self.data@)
    }
}

/// What the fields of `b` set, starting from the field values `acc`: a
/// later field replaces an earlier one of the same tag; unknown fields are
/// skipped.
pub open spec fn request_fields(b: Seq<u8>, acc: (Seq<u8>, Seq<u8>)) -> Option<(Seq<u8>, Seq<u8>)>
    decreases b.len(),
{
    if b.len() == 0 {
        Some(acc)
    } else {
        match key_at(b) {
            Some((tag, wt, kn)) => {
                let rest = b.subrange(kn as int, b.len() as int);
                let step: Option<(nat, (Seq<u8>, Seq<u8>))> = if tag == 1 {
                    match bytes_value(wt, rest) {
                        Some((x, u)) => Some((kn + u, (x, acc.1))),
                        None => None,
                    }
                } else if tag == 2 {
                    match bytes_value(wt, rest) {
                        Some((x, u)) => Some((kn + u, (acc.0, x))),
                        None => None,
                    }
                } else {
                    match skipped_len(wt, tag, rest) {
                        Some(u) => Some((kn + u, acc)),
                        None => None,
                    }
                };
                match step {
                    Some((n, a)) => if 1 <= n <= b.len() {
                        request_fields(b.subrange(n as int, b.len() as int), a)
                    } else {
                        None
                    },
                    None => None,
                }
            },
            None => None,
        }
    }
}

impl TestRequest {
    pub fn new(id: &str, data: &str) -> (r: TestRequest)
        ensures
            r.id@ == encode_utf8(id@),
            r.data@ == encode_utf8(data@),
    {
        let i = id.as_bytes();
        let d = data.as_bytes();
        let r = TestRequest { id: copy_range(i, 0, i.len()), data: copy_range(d, 0, d.len()) };
        assert(r.id@ =~= i@);
        assert(r.data@ =~= d@);
        r
    }
}

impl WireMessage for TestRequest {
    open spec fn wire(v: (Seq<u8>, Seq<u8>)) -> Seq<u8> {
        bytes_field(0x0a, v.0) + bytes_field(0x12, v.1)
    }

    open spec fn parse(b: Seq<u8>) -> Option<(Seq<u8>, Seq<u8>)> {
        request_fields(b, (seq![], seq![]))
    }

    proof fn lemma_parse_wire(v: (Seq<u8>, Seq<u8>)) {
        let f1 = bytes_field(0x0a, v.0);
        let f2 = bytes_field(0x12, v.1);
        let e = Seq::<u8>::empty();
        assert(f2 + e =~= f2);
        if v.1.len() > 0 {
            lemma_bytes_field(0x12, 2, v.1, e);
        }
        assert(request_fields(f2, (v.0, e)) == Some(v)) by {
            if v.1.len() > 0 {
                assert(key_at(f2) == Some((2nat, 2nat, 1nat)));
                assert(f2.subrange(f2.len() as int, f2.len() as int) =~= e);
                assert(request_fields(e, (v.0, v.1)) == Some((v.0, v.1)));
            } else {
                assert(f2 =~= e);
                assert(v.1 =~= e);
            }
        }
        if v.0.len() > 0 {
            lemma_bytes_field(0x0a, 1, v.0, f2);
            assert(f1 + f2 =~= Self::wire(v));
        } else {
            assert(f1 + f2 =~= f2);
            if v.1.len() > 0 {
                assert(f2.subrange(f2.len() as int, f2.len() as int) =~= e);
            } else {
                assert(f2 =~= e);
                assert(v.1 =~= e);
            }
        }
        assert(v.0.len() == 0 ==> v.0 =~= e);
    }

    fn encode_payload(&self) -> (r: Vec<u8>) {
        let mut buf: Vec<u8> = Vec::new();
        put_bytes_field(&mut buf, 1, 0x0a, &self.id);
        put_bytes_field(&mut buf, 2, 0x12, &self.data);
        assert(buf@ =~= Self::wire(self@));
        buf
    }

    fn decode_payload(b: &[u8]) -> (r: Option<Self>) {
        let mut id: Vec<u8> = Vec::new();
        let mut data: Vec<u8> = Vec::new();
        let mut pos: usize = 0;
        assert(b@.subrange(0, b@.len() as int) =~= b@);
        while pos < b.len()
            invariant
                pos <= b@.len(),
                request_fields(b@, (seq![], seq![])) == request_fields(
                    b@.subrange(pos as int, b@.len() as int),
                    (id@, data@),
                ),
            decreases b@.len() - pos,
        {
            let ghost s = b@.subrange(pos as int, b@.len() as int);
            let ghost acc = (id@, data@);
            let (tag, wt, after_key) = match decode_key_at(b, pos) {
                None => return None,
                Some(k) => k,
            };
            let at: usize = b.len() - after_key;
            let ghost kn = (at - pos) as nat;
            assert(b@.subrange(at as int, b@.len() as int) =~= s.subrange(kn as int, s.len() as int));
            let left: usize = if tag == 1 {
                match merge_bytes_at(wt, b, at) {
                    Some((v, rest)) => {
                        id = v;
                        rest
                    },
                    None => return None,
                }
            } else if tag == 2 {
                match merge_bytes_at(wt, b, at) {
                    Some((v, rest)) => {
                        data = v;
                        rest
                    },
                    None => return None,
                }
            } else {
                match skip_field_at(wt, tag, b, at) {
                    Some(rest) => rest,
                    None => return None,
                }
            };
            let next: usize = b.len() - left;
            if next <= pos {
                return None;
            }
            assert(b@.subrange(next as int, b@.len() as int) =~= s.subrange(
                next - pos,
                s.len() as int,
            ));
            assert(request_fields(s, acc) == request_fields(
                b@.subrange(next as int, b@.len() as int),
                (id@, data@),
            ));
            pos = next;
        }
        assert(b@.subrange(pos as int, b@.len() as int) =~= Seq::<u8>::empty());
        Some(TestRequest { id, data })
    }
}

/// A varint field with the one-byte key `key`, left out when `x` is zero.
pub open spec fn varint_field(key: u8, x: nat) -> Seq<u8> {
    if x == 0 {
        seq![]
    } else {
        seq![key] + varint(x)
    }
}

/// A response message for tests: a numeric code and a text.
#[derive(Clone, Debug)]
pub struct TestResponse {
    pub code: i32,
    pub message: String,
}

impl View for TestResponse {
    type V = (i32, Seq<char>);

    open spec fn view(&self) -> (i32, Seq<char>) {
        (self.code, self.message@)
    }
}

/// What the fields of `b` set, starting from the field values `acc`.
pub open spec fn response_fields(b: Seq<u8>, acc: (i32, Seq<char>)) -> Option<(i32, Seq<char>)>
    decreases b.len(),
{
    if b.len() == 0 {
        Some(acc)
    } else {
        match key_at(b) {
            Some((tag, wt, kn)) => {
                let rest = b.subrange(kn as int, b.len() as int);
                let step: Option<(nat, (i32, Seq<char>))> = if tag == 1 {
                    match int32_value(wt, rest) {
                        Some((c, u)) => Some((kn + u, (c, acc.1))),
                        None => None,
                    }
                } else if tag == 2 {
                    match bytes_value(wt, rest) {
                        Some((x, u)) => if valid_utf8(x) {
                            Some((kn + u, (acc.0, decode_utf8(x))))
                        } else {
                            None
                        },
                        None => None,
                    }
                } else {
                    match skipped_len(wt, tag, rest) {
                        Some(u) => Some((kn + u, acc)),
                        None => None,
                    }
                };
                match step {
                    Some((n, a)) => if 1 <= n <= b.len() {
                        response_fields(b.subrange(n as int, b.len() as int), a)
                    } else {
                        None
                    },
                    None => None,
                }
            },
            None => None,
        }
    }
}

/// The varint field of an `int32` reads back as its key, then that number,
/// and leaves what follows it.
proof fn lemma_int32_field(c: i32, rest: Seq<u8>)
    requires
        c != 0,
    ensures
        key_at(varint_field(0x08, int32_bits(c)) + rest) == Some((1nat, 0nat, 1nat)),
        int32_value(0, (varint_field(0x08, int32_bits(c)) + rest).subrange(
            1,
            (varint_field(0x08, int32_bits(c)) + rest).len() as int,
        )) == Some((c, (varint_field(0x08, int32_bits(c)).len() - 1) as nat)),
        (varint_field(0x08, int32_bits(c)) + rest).subrange(
            varint_field(0x08, int32_bits(c)).len() as int,
            (varint_field(0x08, int32_bits(c)) + rest).len() as int,
        ) == rest,
{
    let x = int32_bits(c);
    let b = varint_field(0x08, x) + rest;
    let tail = varint(x) + rest;
    assert(varint(8) == seq![8u8]);
    assert(b =~= varint(8) + tail);
    lemma_read_varint(8, tail);
    assert(b.subrange(1, b.len() as int) =~= tail);
    lemma_read_varint(x, rest);
    assert(int32_of(x) == c);
    assert(b.subrange(varint_field(0x08, x).len() as int, b.len() as int) =~= rest);
}

impl TestResponse {
    pub fn new(code: i32, message: &str) -> (r: TestResponse)
        ensures
            r.code == code,
            r.message@ == message@,
    {
        TestResponse { code, message: message.to_owned() }
    }
}

impl WireMessage for TestResponse {
    open spec fn wire(v: (i32, Seq<char>)) -> Seq<u8> {
        varint_field(0x08, int32_bits(v.0)) + bytes_field(0x12, encode_utf8(v.1))
    }

    open spec fn parse(b: Seq<u8>) -> Option<(i32, Seq<char>)> {
        response_fields(b, (0i32, seq![]))
    }

    proof fn lemma_parse_wire(v: (i32, Seq<char>)) {
        let u = encode_utf8(v.1);
        let f1 = varint_field(0x08, int32_bits(v.0));
        let f2 = bytes_field(0x12, u);
        let e = Seq::<u8>::empty();
        vstd::utf8::encode_utf8_valid_utf8(v.1);
        vstd::utf8::encode_utf8_decode_utf8(v.1);
        assert(f2 + e =~= f2);
        if u.len() > 0 {
            lemma_bytes_field(0x12, 2, u, e);
        }
        assert(response_fields(f2, (v.0, seq![])) == Some(v)) by {
            if u.len() > 0 {
                assert(key_at(f2) == Some((2nat, 2nat, 1nat)));
                assert(f2.subrange(f2.len() as int, f2.len() as int) =~= e);
                assert(response_fields(e, (v.0, v.1)) == Some((v.0, v.1)));
            } else {
                assert(f2 =~= e);
                assert(v.1.len() == 0) by {
                    if v.1.len() > 0 {
                        assert(decode_utf8(u).len() == 0);
                    }
                }
                assert(v.1 =~= seq![]);
            }
        }
        if v.0 != 0 {
            lemma_int32_field(v.0, f2);
            assert(int32_bits(v.0) != 0);
            assert(f1 + f2 =~= Self::wire(v));
        } else {
            assert(f1 + f2 =~= f2);
            if u.len() > 0 {
                assert(f2.subrange(f2.len() as int, f2.len() as int) =~= e);
            } else {
                assert(f2 =~= e);
            }
        }
    }

    fn encode_payload(&self) -> (r: Vec<u8>) {
        let mut buf: Vec<u8> = Vec::new();
        if self.code != 0 {
            encode_int32(1, &self.code, &mut buf);
            assert(varint(8) == seq![8u8]);
        }
        assert(buf@ =~= varint_field(0x08, int32_bits(self.code)));
        let ghost u = encode_utf8(self.message@);
        if !self.message.as_str().is_empty() {
            let ghost before = buf@;
            encode_string(2, &self.message, &mut buf);
            proof {
                vstd::utf8::encode_utf8_decode_utf8(self.message@);
                if u.len() == 0 {
                    assert(u =~= Seq::<u8>::empty());
                    assert(decode_utf8(Seq::<u8>::empty()) =~= Seq::<char>::empty());
                }
                assert(varint(0x12) == seq![0x12u8]);
            }
            assert(buf@ =~= before + bytes_field(0x12, u));
        } else {
            assert(self.message@ =~= Seq::<char>::empty());
            assert(u =~= Seq::<u8>::empty());
        }
        assert(buf@ =~= Self::wire(self@));
        buf
    }

    fn decode_payload(b: &[u8]) -> (r: Option<Self>) {
        let mut code: i32 = 0;
        let mut message: String = String::new();
        let mut pos: usize = 0;
        assert(b@.subrange(0, b@.len() as int) =~= b@);
        assert(message@ =~= seq![]);
        while pos < b.len()
            invariant
                pos <= b@.len(),
                response_fields(b@, (0i32, seq![])) == response_fields(
                    b@.subrange(pos as int, b@.len() as int),
                    (code, message@),
                ),
            decreases b@.len() - pos,
        {
            let ghost s = b@.subrange(pos as int, b@.len() as int);
            let ghost acc = (code, message@);
            let (tag, wt, after_key) = match decode_key_at(b, pos) {
                None => return None,
                Some(k) => k,
            };
            let at: usize = b.len() - after_key;
            let ghost kn = (at - pos) as nat;
            assert(b@.subrange(at as int, b@.len() as int) =~= s.subrange(kn as int, s.len() as int));
            let left: usize = if tag == 1 {
                match merge_int32_at(wt, b, at) {
                    Some((v, rest)) => {
                        code = v;
                        rest
                    },
                    None => return None,
                }
            } else if tag == 2 {
                match merge_string_at(wt, b, at) {
                    Some((v, rest)) => {
                        message = v;
                        rest
                    },
                    None => return None,
                }
            } else {
                match skip_field_at(wt, tag, b, at) {
                    Some(rest) => rest,
                    None => return None,
                }
            };
            let next: usize = b.len() - left;
            if next <= pos {
                return None;
            }
            assert(b@.subrange(next as int, b@.len() as int) =~= s.subrange(
                next - pos,
                s.len() as int,
            ));
            assert(response_fields(s, acc) == response_fields(
                b@.subrange(next as int, b@.len() as int),
                (code, message@),
            ));
            pos = next;
        }
        assert(b@.subrange(pos as int, b@.len() as int) =~= Seq::<u8>::empty());
        Some(TestResponse { code, message })
    }
}

/// The decimal digits of `n`, as ASCII bytes.
pub open spec fn decimal(n: nat) -> Seq<u8>
    decreases n,
{
    if n < 10 {
        seq![(n + 48) as u8]
    } else {
        decimal(n / 10).push((n % 10 + 48) as u8)
    }
}

/// Appends the decimal digits of `n`.
fn push_decimal(out: &mut Vec<u8>, n: usize)
    ensures
        final(out)@ == old(out)@ + decimal(n as nat),
    decreases n,
{
    if n >= 10 {
        push_decimal(out, n / 10);
    }
    out.push((n % 10 + 48) as u8);
    assert(out@ =~= old(out)@ + decimal(n as nat));
}

/// Appends the bytes of `x`.
fn push_bytes(out: &mut Vec<u8>, x: &[u8])
    ensures
        final(out)@ == old(out)@ + x@,
{
    let mut i: usize = 0;
    while i < x.len()
        invariant
            i <= x@.len(),
            out@ == old(out)@ + x@.subrange(0, i as int),
        decreases x@.len() - i,
    {
        out.push(x[i]);
        i = i + 1;
        assert(x@.subrange(0, i as int) =~= x@.subrange(0, i - 1).push(x@[i - 1]));
    }
    assert(x@.subrange(0, x@.len() as int) =~= x@);
}

/// `count` requests whose ids are `0`, `1`, ... and whose data are
/// `test_data_0`, `test_data_1`, ...
pub fn create_test_messages(count: usize) -> (r: Vec<TestRequest>)
    ensures
        r@.len() == count,
        forall|i: int|
            0 <= i < count ==> (#[trigger] r@[i]).id@ == decimal(i as nat) && r@[i].data@
                == encode_utf8("test_data_"@) + decimal(i as nat),
{
    let prefix = "test_data_".as_bytes();
    let mut messages: Vec<TestRequest> = Vec::with_capacity(count);
    let mut i: usize = 0;
    while i < count
        invariant
            i <= count,
            prefix@ == encode_utf8("test_data_"@),
            messages@.len() == i,
            forall|j: int|
                0 <= j < i ==> (#[trigger] messages@[j]).id@ == decimal(j as nat) && messages@[j].data@
                    == encode_utf8("test_data_"@) + decimal(j as nat),
        decreases count - i,
    {
        let mut id: Vec<u8> = Vec::new();
        push_decimal(&mut id, i);
        let mut data: Vec<u8> = Vec::new();
        push_bytes(&mut data, prefix);
        push_decimal(&mut data, i);
        assert(id@ =~= decimal(i as nat));
        messages.push(TestRequest { id, data });
        i = i + 1;
    }
    messages
}

/// Whether two byte sequences are equal.
fn bytes_equal(a: &[u8], b: &[u8]) -> (r: bool)
    ensures
        r == (a@ == b@),
{
    if a.len() != b.len() {
        return false;
    }
    let mut i: usize = 0;
    while i < a.len()
        invariant
            i <= a@.len(),
            a@.len() == b@.len(),
            a@.subrange(0, i as int) == b@.subrange(0, i as int),
        decreases a@.len() - i,
    {
        if a[i] != b[i] {
            assert(a@[i as int] != b@[i as int]);
            return false;
        }
        i = i + 1;
        assert(a@.subrange(0, i as int) =~= a@.subrange(0, i - 1).push(a@[i - 1]));
        assert(b@.subrange(0, i as int) =~= b@.subrange(0, i - 1).push(b@[i - 1]));
    }
    assert(a@ =~= a@.subrange(0, i as int));
    assert(b@ =~= b@.subrange(0, i as int));
    true
}

/// Whether `message` has the id `id` and the data `data` (as UTF-8 bytes).
/// A mismatch is reported as `false`, not as a panic: the caller asserts on
/// the result.
pub fn assert_message_eq(message: &TestRequest, id: &str, data: &str) -> (r: bool)
    ensures
        r == (message.id@ == encode_utf8(id@) && message.data@ == encode_utf8(data@)),
{
    bytes_equal(message.id.as_slice(), id.as_bytes()) && bytes_equal(
        message.data.as_slice(),
        data.as_bytes(),
    )
}

/// Whether `response` has the code `code` and the text `message`.
/// A mismatch is reported as `false`, not as a panic: the caller asserts on
/// the result.
pub fn assert_response_eq(response: &TestResponse, code: i32, message: &str) -> (r: bool)
    ensures
        r == (response.code == code && response.message@ == message@),
{
    let expected = message.to_owned();
    response.code == code && response.message == expected
}

/// The items of a response stream that yields `responses` in order.
pub fn stream_items<T>(responses: Vec<T>) -> (r: Vec<Result<T, Status>>)
    ensures
        r@.len() == responses@.len(),
        forall|i: int| 0 <= i < r@.len() ==> #[trigger] r@[i] == Ok::<T, Status>(responses@[i]),
{
    let ghost all = responses@;
    let mut rest = responses;
    let mut out: Vec<Result<T, Status>> = Vec::new();
    while rest.len() > 0
        invariant
            out@.len() + rest@.len() == all.len(),
            rest@ == all.subrange(out@.len() as int, all.len() as int),
            forall|i: int| 0 <= i < out@.len() ==> #[trigger] out@[i] == Ok::<T, Status>(all[i]),
        decreases rest@.len(),
    {
        let x = rest.remove(0);
        assert(x == all[out@.len() as int]);
        out.push(Ok(x));
        assert(rest@ =~= all.subrange(out@.len() as int, all.len() as int));
    }
    out
}

/// Whether `i` is among `indices`.
fn contains_index(indices: &Vec<usize>, i: usize) -> (r: bool)
    ensures
        r == indices@.contains(i),
{
    let mut k: usize = 0;
    while k < indices.len()
        invariant
            k <= indices@.len(),
            forall|j: int| 0 <= j < k ==> indices@[j] != i,
        decreases indices@.len() - k,
    {
        if indices[k] == i {
            assert(indices@[k as int] == i);
            return true;
        }
        k = k + 1;
    }
    false
}

/// The items of a response stream that yields `responses` in order but
/// fails with `error_status` at the first position listed in
/// `error_indices`; the stream ends after that error.
pub fn stream_items_with_errors<T>(
    responses: Vec<T>,
    error_indices: &Vec<usize>,
    error_status: Status,
) -> (r: Vec<Result<T, Status>>)
    ensures
        r@.len() <= responses@.len(),
        forall|i: int|
            0 <= i < r@.len() ==> if error_indices@.contains(i as usize) {
                i == r@.len() - 1 && #[trigger] r@[i] == Err::<T, Status>(error_status)
            } else {
                r@[i] == Ok::<T, Status>(responses@[i])
            },
        r@.len() < responses@.len() ==> r@.len() > 0 && error_indices@.contains(
            (r@.len() - 1) as usize,
        ),
{
    let ghost all = responses@;
    let mut rest = responses;
    let mut out: Vec<Result<T, Status>> = Vec::new();
    let mut i: usize = 0;
    while rest.len() > 0
        invariant
            i == out@.len(),
            all == responses@,
            out@.len() + rest@.len() == all.len(),
            rest@ == all.subrange(i as int, all.len() as int),
            forall|j: int|
                0 <= j < i ==> !error_indices@.contains(j as usize) && #[trigger] out@[j] == Ok::<
                    T,
                    Status,
                >(all[j]),
        decreases rest@.len(),
    {
        if contains_index(error_indices, i) {
            out.push(Err(error_status));
            assert(out@[i as int] == Err::<T, Status>(error_status));
            assert(out@.len() <= all.len());
            assert(all == responses@);
            return out;
        }
        let x = rest.remove(0);
        assert(x == all[i as int]);
        out.push(Ok(x));
        i = out.len();
        assert(rest@ =~= all.subrange(i as int, all.len() as int));
    }
    out
}

} // verus!
