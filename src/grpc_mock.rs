//! Encoding and decoding whole messages on the mock wire, request paths, and
//! a direct call of a handler.

use vstd::prelude::*;
use crate::frame::{
    declared_len, decode_frame, encode_frame, frame_of, frame_payload, grpc_path_of, WireFormatError,
    MAX_PAYLOAD_LEN,
};
use crate::message::WireMessage;
use crate::response::{append_decimal, decimal_text};
use crate::status::{Code, Status};

verus! {

/// What decoding the frame `b` as a message of type `T` gives.
pub open spec fn message_of_frame<T: WireMessage>(b: Seq<u8>) -> Result<T::V, WireFormatError> {
    match frame_payload(b) {
        Err(e) => Err(e),
        Ok(p) => match T::parse(p) {
            Some(v) => Ok(v),
            None => Err(WireFormatError::DecodeFailure),
        },
    }
}

/// The status code that reports each framing error.
pub open spec fn wire_error_code(e: WireFormatError) -> Code {
    match e {
        WireFormatError::UnsupportedCompression => Code::Unimplemented,
        _ => Code::InvalidArgument,
    }
}

/// Frames the encoding of `message`.
pub fn encode_message<T: WireMessage>(message: &T) -> (r: Vec<u8>)
    requires
        T::wire(message@).len() <= MAX_PAYLOAD_LEN,
    ensures
        r@ == frame_of(T::wire(message@)),
{
    let payload = message.encode_payload();
    encode_frame(payload.as_slice())
}

/// Encodes a request message as one frame.
pub fn encode_grpc_request<T: WireMessage>(request: T) -> (r: Vec<u8>)
    requires
        T::wire(request@).len() <= MAX_PAYLOAD_LEN,
    ensures
        r@ == frame_of(T::wire(request@)),
{
    encode_message(&request)
}

/// Encodes a response message as one frame.
pub fn encode_grpc_response<T: WireMessage>(response: T) -> (r: Vec<u8>)
    requires
        T::wire(response@).len() <= MAX_PAYLOAD_LEN,
    ensures
        r@ == frame_of(T::wire(response@)),
{
    encode_message(&response)
}

/// Decodes the frame at the start of `bytes` as a message of type `T`.
pub fn decode_message<T: WireMessage>(bytes: &[u8]) -> (r: Result<T, WireFormatError>)
    ensures
        match (r, message_of_frame::<T>(bytes@)) {
            (Ok(m), Ok(v)) => m@ == v,
            (Err(e), Err(f)) => e == f,
            _ => false,
        },
{
    match decode_frame(bytes) {
        Err(e) => Err(e),
        Ok(payload) => match T::decode_payload(payload.as_slice()) {
            Some(m) => Ok(m),
            None => Err(WireFormatError::DecodeFailure),
        },
    }
}

/// The status that reports a framing error to a caller.
pub fn wire_error_status(e: WireFormatError) -> (r: Status)
    ensures
        r.code == wire_error_code(e),
{
    match e {
        WireFormatError::TooShort => Status::new(Code::InvalidArgument, "Message too short"),
        WireFormatError::UnsupportedCompression => Status::new(
            Code::Unimplemented,
            "Compression not supported",
        ),
        WireFormatError::LengthMismatch => Status::new(Code::InvalidArgument, "Message incomplete"),
        WireFormatError::DecodeFailure => Status::new(
            Code::InvalidArgument,
            "Failed to decode message",
        ),
    }
}

/// Decodes the frame at the start of `bytes` as a message of type `T`,
/// reporting a failure as a status.
pub fn decode_grpc_message<T: WireMessage>(bytes: &[u8]) -> (r: Result<T, Status>)
    ensures
        match (r, message_of_frame::<T>(bytes@)) {
            (Ok(m), Ok(v)) => m@ == v,
            (Err(s), Err(e)) => s.code == wire_error_code(e),
            _ => false,
        },
{
    match decode_message::<T>(bytes) {
        Ok(m) => Ok(m),
        Err(WireFormatError::LengthMismatch) => Err(incomplete_status(bytes)),
        Err(e) => Err(wire_error_status(e)),
    }
}

/// The status for a frame that declares more payload than `bytes` holds:
/// `Message incomplete: expected {declared} bytes, got {present}`.
fn incomplete_status(bytes: &[u8]) -> (r: Status)
    requires
        bytes@.len() >= 5,
    ensures
        r.code == Code::InvalidArgument,
        r.message@ == "Message incomplete: expected "@ + decimal_text(declared_len(bytes@)) + " bytes, got "@
            + decimal_text((bytes@.len() - 5) as nat),
{
    let declared: u64 = (bytes[1] as u64) * 0x100_0000 + (bytes[2] as u64) * 0x1_0000
        + (bytes[3] as u64) * 0x100 + (bytes[4] as u64);
    let present: u64 = (bytes.len() - 5) as u64;
    let mut message = String::new();
    append_str(&mut message, "Message incomplete: expected ");
    append_decimal(&mut message, declared);
    append_str(&mut message, " bytes, got ");
    append_decimal(&mut message, present);
    assert(message@ =~= "Message incomplete: expected "@ + decimal_text(declared_len(bytes@))
        + " bytes, got "@ + decimal_text((bytes@.len() - 5) as nat));
    Status::from_string(Code::InvalidArgument, message)
}

/// Decoding the frame of any message gives the message back.
pub proof fn lemma_message_round_trip<T: WireMessage>(v: T::V)
    requires
        T::wire(v).len() <= MAX_PAYLOAD_LEN,
    ensures
        message_of_frame::<T>(frame_of(T::wire(v))) == Ok::<T::V, WireFormatError>(v),
{
    crate::frame::lemma_frame_round_trip(T::wire(v));
    T::lemma_parse_wire(v);
}

/// Appends `t` to `s`.
/// Relies on `String::push_str`, which appends the characters of `t`.
#[verifier::external_body]
pub(crate) fn append_str(s: &mut String, t: &str)
    ensures
        final(s)@ == old(s)@ + t@,
{
    s.push_str(t)
}

/// The request path of `method` on `service`: `/{service}/{method}`.
pub fn grpc_path(service_name: &str, method_name: &str) -> (r: String)
    ensures
        r@ == grpc_path_of(service_name@, method_name@),
{
    let mut path = String::new();
    append_str(&mut path, "/");
    append_str(&mut path, service_name);
    append_str(&mut path, "/");
    append_str(&mut path, method_name);
    proof {
        reveal_strlit("/");
        assert(path@ =~= grpc_path_of(service_name@, method_name@));
    }
    path
}

/// Calls `handler` on `request`, as a service method would be called.
pub fn mock_grpc_call<Req, Resp, F>(
    service_name: &str,
    method_name: &str,
    request: Req,
    handler: F,
) -> (r: Result<Resp, Status>) where F: FnOnce(Req) -> Result<Resp, Status>
    requires
        handler.requires((request,)),
    ensures
        handler.ensures((request,), r),
{
    handler(request)
}

#[verifier::external_type_specification]
#[verifier::external_body]
pub struct ExUri(http::Uri);

/// Whether the HTTP URI builder accepts `scheme`, `authority` and `path`
/// (a path-and-query) as the parts of one URI.
pub uninterp spec fn uri_parts_ok(scheme: Seq<char>, authority: Seq<char>, path: Seq<char>) -> bool;

/// Builds the URI `{scheme}://{authority}{path}`, or fails where a part is
/// not valid, and hands back the built URI's scheme, authority and path.
/// Relies on `http::uri::Builder`, whose outcome depends on the three parts
/// alone, and on `Uri::scheme_str`, `Uri::authority` and `Uri::path`, which
/// give an accepted scheme and authority as they were written and the path
/// as the part of the path-and-query before any `?` or `#`.
#[verifier::external_body]
fn build_uri(scheme: &str, authority: &str, path: &str) -> (r: Option<
    (http::Uri, Option<String>, Option<String>, String),
>)
    ensures
        r is Some <==> uri_parts_ok(scheme@, authority@, path@),
        r matches Some((u, s, a, p)) ==> (s matches Some(t) && t@ == scheme@) && (a matches Some(t)
            && t@ == authority@) && (!path@.contains('?') && !path@.contains('#') ==> p@ == path@),
{
    match http::Uri::builder().scheme(scheme).authority(authority).path_and_query(path).build() {
        Ok(u) => {
            let s = u.scheme_str().map(str::to_owned);
            let a = u.authority().map(http::uri::Authority::as_str).map(str::to_owned);
            let p = u.path().to_owned();
            Some((u, s, a, p))
        },
        Err(_) => None,
    }
}

/// A built request URI and the parts it reports.
pub struct GrpcUri {
    pub uri: http::Uri,
    pub scheme: String,
    pub authority: String,
    pub path: String,
}

/// The URI that names `method` of `service`: scheme `http`, authority
/// `localhost` and the path `/{service}/{method}`. Names that do not make a
/// valid path are reported as an invalid argument.
pub fn create_grpc_uri(service_name: &str, method_name: &str) -> (r: Result<GrpcUri, Status>)
    ensures
        r is Ok <==> uri_parts_ok("http"@, "localhost"@, grpc_path_of(service_name@, method_name@)),
        r matches Err(s) ==> s.code == Code::InvalidArgument,
        r matches Ok(g) ==> g.scheme@ == "http"@ && g.authority@ == "localhost"@,
        r matches Ok(g) ==> (!grpc_path_of(service_name@, method_name@).contains('?')
            && !grpc_path_of(service_name@, method_name@).contains('#') ==> g.path@ == grpc_path_of(
            service_name@,
            method_name@,
        )),
{
    let path = grpc_path(service_name, method_name);
    match build_uri("http", "localhost", path.as_str()) {
        Some((uri, Some(scheme), Some(authority), path)) => Ok(GrpcUri { uri, scheme, authority, path }),
        _ => Err(Status::new(Code::InvalidArgument, "invalid service or method name")),
    }
}

} // verus!
