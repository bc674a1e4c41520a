//! A mock of an outbound RPC client: an ordered registry of handlers per
//! (service, method), each answering unconditionally or when a predicate on
//! the decoded request holds, with the most recently registered handler
//! consulted first.

use vstd::prelude::*;
use crate::frame::{copy_range, frame_of, MAX_PAYLOAD_LEN};
use crate::grpc_mock::{decode_grpc_message, encode_message, message_of_frame, wire_error_code};
use crate::message::WireMessage;
use crate::status::{Code, Status};
use vstd::utf8::encode_utf8;

verus! {

/// What a mocked call answers: a response or an error status, with metadata
/// pairs and a simulated delay.
pub struct MockResponseDefinition<Resp> {
    /// The response to return.
    pub response: Option<Resp>,
    /// The status to return instead of a response.
    pub status: Option<Status>,
    /// Metadata key/value pairs attached to a successful response.
    pub metadata_pairs: Vec<(String, String)>,
    /// Latency, in milliseconds, to simulate before the answer is returned.
    pub delay_ms: Option<u64>,
}

/// The contents of a list of metadata pairs.
pub open spec fn pairs_view(m: Seq<(String, String)>) -> Seq<(Seq<char>, Seq<char>)> {
    m.map_values(|p: (String, String)| (p.0@, p.1@))
}

impl<Resp> MockResponseDefinition<Resp> {
    /// A definition that answers with `response`.
    pub fn ok(response: Resp) -> (r: Self)
        ensures
            r.response == Some(response),
            r.status is None,
            r.metadata_pairs@.len() == 0,
            r.delay_ms is None,
    {
        MockResponseDefinition {
            response: Some(response),
            status: None,
            metadata_pairs: Vec::new(),
            delay_ms: None,
        }
    }

    /// A definition that fails with `status`.
    pub fn err(status: Status) -> (r: Self)
        ensures
            r.response is None,
            r.status == Some(status),
            r.metadata_pairs@.len() == 0,
            r.delay_ms is None,
    {
        MockResponseDefinition { response: None, status: Some(status), metadata_pairs: Vec::new(), delay_ms: None }
    }

    /// Adds a metadata pair after those already present.
    pub fn with_metadata(self, key: &str, value: &str) -> (r: Self)
        ensures
            r.response == self.response,
            r.status == self.status,
            r.delay_ms == self.delay_ms,
            pairs_view(r.metadata_pairs@) == pairs_view(self.metadata_pairs@).push((key@, value@)),
    {
        let mut d = self;
        let ghost before = d.metadata_pairs@;
        d.metadata_pairs.push((key.to_owned(), value.to_owned()));
        assert(pairs_view(d.metadata_pairs@) =~= pairs_view(before).push((key@, value@)));
        d
    }

    /// Sets the simulated delay, replacing any earlier one.
    pub fn with_delay(self, delay_ms: u64) -> (r: Self)
        ensures
            r.response == self.response,
            r.status == self.status,
            r.metadata_pairs == self.metadata_pairs,
            r.delay_ms == Some(delay_ms),
    {
        let mut d = self;
        d.delay_ms = Some(delay_ms);
        d
    }
}

impl<Resp> Default for MockResponseDefinition<Resp> {
    /// A definition with neither a response nor a status.
    fn default() -> (r: Self)
        ensures
            r.response is None,
            r.status is None,
            r.metadata_pairs@.len() == 0,
            r.delay_ms is None,
    {
        MockResponseDefinition { response: None, status: None, metadata_pairs: Vec::new(), delay_ms: None }
    }
}

/// A successful answer of a mocked call.
#[derive(Debug)]
pub struct MockReply {
    /// The framed response message.
    pub body: Vec<u8>,
    /// The metadata pairs of the response, in the order they were added.
    pub metadata: Vec<(String, String)>,
    /// The latency to simulate before handing the answer to the caller.
    pub delay_ms: Option<u64>,
}

/// What a registered handler answers once it has been chosen.
pub enum HandlerReply {
    Respond(MockReply),
    Fail(Status),
    /// The definition held neither a response nor a status.
    Undefined,
}

/// One registered handler.
pub struct MockHandler<P> {
    pub service: String,
    pub method: String,
    /// `None` answers every request; `Some(p)` answers those on which `p` holds.
    pub predicate: Option<P>,
    pub reply: HandlerReply,
}

/// Whether `r` is the answer `reply` describes.
pub open spec fn answers(r: Result<MockReply, Status>, reply: HandlerReply) -> bool {
    match reply {
        HandlerReply::Respond(m) => r matches Ok(a) && a.body@ == m.body@ && pairs_view(a.metadata@)
            == pairs_view(m.metadata@) && a.delay_ms == m.delay_ms,
        HandlerReply::Fail(s) => r matches Err(e) && e.code == s.code && e.message@ == s.message@,
        HandlerReply::Undefined => r matches Err(e) && e.code == Code::Internal,
    }
}

/// Whether handler `h` is registered for `method` of `service`.
pub open spec fn serves<P>(h: MockHandler<P>, service: Seq<char>, method: Seq<char>) -> bool {
    h.service@ == service && h.method@ == method
}

/// Whether handler `h` lets the request go on to older handlers: it serves
/// another method, or the request decoded and its predicate answered false.
pub open spec fn passes<Req, P: Fn(&Req) -> bool>(
    h: MockHandler<P>,
    service: Seq<char>,
    method: Seq<char>,
    request: Result<Req, Status>,
) -> bool {
    !serves(h, service, method) || (h.predicate matches Some(p) && request matches Ok(m) && p.ensures(
        (&m,),
        false,
    ))
}

/// Whether handler `h` takes the request: it serves the method and is
/// unconditional, or the request decoded and its predicate answered true.
pub open spec fn takes<Req, P: Fn(&Req) -> bool>(
    h: MockHandler<P>,
    service: Seq<char>,
    method: Seq<char>,
    request: Result<Req, Status>,
) -> bool {
    serves(h, service, method) && (h.predicate is None || (h.predicate matches Some(p)
        && request matches Ok(m) && p.ensures((&m,), true)))
}

/// Whether handler `h` stops the search because it needs the decoded
/// request and decoding failed.
pub open spec fn stops_undecodable<Req, P>(
    h: MockHandler<P>,
    service: Seq<char>,
    method: Seq<char>,
    request: Result<Req, Status>,
) -> bool {
    serves(h, service, method) && h.predicate is Some && request is Err
}

/// Whether every handler of `hs` from index `from` on passes the request.
pub open spec fn all_pass_from<Req, P: Fn(&Req) -> bool>(
    hs: Seq<MockHandler<P>>,
    from: int,
    service: Seq<char>,
    method: Seq<char>,
    request: Result<Req, Status>,
) -> bool {
    forall|j: int| from <= j < hs.len() ==> #[trigger] passes(hs[j], service, method, request)
}

/// Whether `r` is what dispatching `request` to `method` of `service` over
/// the handlers `hs` gives, searching from the most recently registered:
/// the first handler that takes the request answers; one that needs an
/// undecodable request ends the search with the decoding error; when every
/// handler passes, the call is unimplemented.
pub open spec fn dispatched<Req, P: Fn(&Req) -> bool>(
    hs: Seq<MockHandler<P>>,
    service: Seq<char>,
    method: Seq<char>,
    request: Result<Req, Status>,
    r: Result<MockReply, Status>,
) -> bool {
    ||| exists|k: int|
        0 <= k < hs.len() && #[trigger] takes(hs[k], service, method, request) && all_pass_from(
            hs,
            k + 1,
            service,
            method,
            request,
        ) && answers(r, hs[k].reply)
    ||| exists|k: int|
        0 <= k < hs.len() && #[trigger] stops_undecodable(hs[k], service, method, request)
            && all_pass_from(hs, k + 1, service, method, request) && (r matches Err(e)
            && request matches Err(d) && e.code == d.code && e.message@ == d.message@)
    ||| all_pass_from(hs, 0, service, method, request) && (r matches Err(e) && e.code
        == Code::Unimplemented)
}

/// Whether `b` may stand in a metadata value: visible ASCII, a space, a tab,
/// or any byte from 128 up.
pub open spec fn header_value_byte(b: u8) -> bool {
    (b >= 32 && b != 127) || b == 9
}

/// Whether `s` is accepted as a metadata value: every byte of its UTF-8
/// encoding may stand in one.
pub open spec fn header_value_ok(s: Seq<char>) -> bool {
    forall|i: int| 0 <= i < encode_utf8(s).len() ==> header_value_byte(#[trigger] encode_utf8(s)[i])
}

/// Whether `s` is accepted as a metadata key by the HTTP header-name parser.
pub uninterp spec fn header_name_ok(s: Seq<char>) -> bool;

/// Relies on `http::HeaderValue::from_str`, which accepts a string exactly
/// when every byte of it is a tab, or at least 32 and not 127.
#[verifier::external_body]
fn is_header_value(s: &str) -> (r: bool)
    ensures
        r == header_value_ok(s@),
{
    http::HeaderValue::from_str(s).is_ok()
}

/// Relies on `http::HeaderName::from_str`, whether it accepts `s`.
#[verifier::external_body]
fn is_header_name(s: &str) -> (r: bool)
    ensures
        r == header_name_ok(s@),
{
    s.parse::<http::HeaderName>().is_ok()
}

/// The pairs of `m` whose key and value are accepted, in order.
pub open spec fn kept_pairs(m: Seq<(Seq<char>, Seq<char>)>) -> Seq<(Seq<char>, Seq<char>)>
    decreases m.len(),
{
    if m.len() == 0 {
        m
    } else {
        let rest = kept_pairs(m.drop_last());
        let p = m.last();
        if header_name_ok(p.0) && header_value_ok(p.1) {
            rest.push(p)
        } else {
            rest
        }
    }
}

/// The metadata of an answer: the pairs whose key and value are accepted as
/// header names and values, in the order they were added; others are dropped.
fn accepted_pairs(m: &Vec<(String, String)>) -> (r: Vec<(String, String)>)
    ensures
        pairs_view(r@) == kept_pairs(pairs_view(m@)),
{
    let mut out: Vec<(String, String)> = Vec::new();
    let mut i: usize = 0;
    while i < m.len()
        invariant
            i <= m@.len(),
            pairs_view(out@) == kept_pairs(pairs_view(m@.subrange(0, i as int))),
        decreases m@.len() - i,
    {
        let ghost before = out@;
        let ghost prefix = pairs_view(m@.subrange(0, i as int));
        let ok = is_header_name(m[i].0.as_str()) && is_header_value(m[i].1.as_str());
        if ok {
            let k = m[i].0.clone();
            let v = m[i].1.clone();
            out.push((k, v));
            assert(out@ == before.push((k, v)));
            assert(pairs_view(out@) =~= pairs_view(before).push((k@, v@)));
        }
        i = i + 1;
        assert(pairs_view(m@.subrange(0, i as int)).drop_last() =~= prefix);
        assert(pairs_view(m@.subrange(0, i as int)).last() == (m@[i - 1].0@, m@[i - 1].1@));
    }
    assert(m@.subrange(0, m@.len() as int) =~= m@);
    out
}

/// Copies a list of metadata pairs.
fn copy_pairs(m: &Vec<(String, String)>) -> (r: Vec<(String, String)>)
    ensures
        pairs_view(r@) == pairs_view(m@),
{
    let mut out: Vec<(String, String)> = Vec::new();
    let mut i: usize = 0;
    while i < m.len()
        invariant
            i <= m@.len(),
            pairs_view(out@) == pairs_view(m@.subrange(0, i as int)),
        decreases m@.len() - i,
    {
        let ghost before = out@;
        let k = m[i].0.clone();
        let v = m[i].1.clone();
        out.push((k, v));
        i = i + 1;
        assert(out@ == before.push((k, v)));
        assert(pairs_view(before).len() == before.len());
        assert(out@.len() == i);
        assert forall|j: int| 0 <= j < i implies #[trigger] pairs_view(out@)[j] == pairs_view(
            m@.subrange(0, i as int),
        )[j] by {
            if j < i - 1 {
                assert(pairs_view(before)[j] == pairs_view(m@.subrange(0, i - 1))[j]);
                assert(out@[j] == before[j]);
                assert(m@.subrange(0, i as int)[j] == m@.subrange(0, i - 1)[j]);
            } else {
                assert(m@.subrange(0, i as int)[j] == m@[i - 1]);
            }
        }
        assert(pairs_view(out@) =~= pairs_view(m@.subrange(0, i as int)));
    }
    assert(m@.subrange(0, m@.len() as int) =~= m@);
    out
}

/// The answer a chosen handler gives.
fn answer_of(reply: &HandlerReply) -> (r: Result<MockReply, Status>)
    ensures
        answers(r, *reply),
{
    match reply {
        HandlerReply::Respond(m) => {
            let body = copy_range(m.body.as_slice(), 0, m.body.len());
            assert(body@ =~= m.body@);
            Ok(MockReply { body, metadata: copy_pairs(&m.metadata), delay_ms: m.delay_ms })
        },
        HandlerReply::Fail(s) => Err(s.duplicate()),
        HandlerReply::Undefined => Err(
            Status::new(
                Code::Internal,
                "Invalid MockResponseDefinition: both response and status are None",
            ),
        ),
    }
}

/// Whether the predicate of `h`, if any, can be called on every request.
pub open spec fn callable<Req, P: Fn(&Req) -> bool>(h: MockHandler<P>) -> bool {
    match h.predicate {
        Some(p) => forall|m: Req| #[trigger] p.requires((&m,)),
        None => true,
    }
}

/// Whether `reply` is what a chosen handler built from `def` answers: the
/// status if one is set; else the framed response with the accepted metadata
/// and the delay; else an internal error.
pub open spec fn reply_defined_by<Resp: WireMessage>(
    reply: HandlerReply,
    def: MockResponseDefinition<Resp>,
) -> bool {
    match def.status {
        Some(s) => reply matches HandlerReply::Fail(t) && t.code == s.code && t.message@ == s.message@,
        None => match def.response {
            Some(m) => reply matches HandlerReply::Respond(a) && a.body@ == frame_of(Resp::wire(m@))
                && pairs_view(a.metadata@) == kept_pairs(pairs_view(def.metadata_pairs@))
                && a.delay_ms == def.delay_ms,
            None => reply is Undefined,
        },
    }
}

/// Whether a definition can be encoded on the wire.
pub open spec fn encodable<Resp: WireMessage>(def: MockResponseDefinition<Resp>) -> bool {
    def.response matches Some(m) ==> Resp::wire(m@).len() <= MAX_PAYLOAD_LEN
}

/// The handler reply that `def` defines.
fn reply_of<Resp: WireMessage>(def: &MockResponseDefinition<Resp>) -> (r: HandlerReply)
    requires
        encodable(*def),
    ensures
        reply_defined_by(r, *def),
{
    match &def.status {
        Some(s) => HandlerReply::Fail(s.duplicate()),
        None => match &def.response {
            Some(m) => HandlerReply::Respond(
                MockReply {
                    body: encode_message(m),
                    metadata: accepted_pairs(&def.metadata_pairs),
                    delay_ms: def.delay_ms,
                },
            ),
            None => HandlerReply::Undefined,
        },
    }
}

/// Whether `d` is what decoding the request frame `b` as a `Req` gives.
pub open spec fn decoded_request<Req: WireMessage>(b: Seq<u8>, d: Result<Req, Status>) -> bool {
    match (d, message_of_frame::<Req>(b)) {
        (Ok(m), Ok(v)) => m@ == v,
        (Err(s), Err(e)) => s.code == wire_error_code(e),
        _ => false,
    }
}

/// The registry behind a mocked client.
pub struct MockableGrpcClient<Req, P> {
    handlers: Vec<MockHandler<P>>,
    marker: std::marker::PhantomData<Req>,
}

impl<Req: WireMessage, P: Fn(&Req) -> bool> MockableGrpcClient<Req, P> {
    /// The registered handlers, oldest first.
    pub closed spec fn handlers(&self) -> Seq<MockHandler<P>> {
        self.handlers@
    }

    /// Every predicate can be called on every request.
    pub open spec fn well_formed(&self) -> bool {
        forall|i: int| 0 <= i < self.handlers().len() ==> callable(#[trigger] self.handlers()[i])
    }

    /// A client with no handler.
    pub fn new() -> (r: Self)
        ensures
            r.handlers().len() == 0,
            r.well_formed(),
    {
        MockableGrpcClient { handlers: Vec::new(), marker: std::marker::PhantomData }
    }

    /// Removes every handler of every method.
    pub fn reset(&mut self)
        ensures
            final(self).handlers().len() == 0,
            final(self).well_formed(),
    {
        self.handlers.clear();
    }

    /// Appends a handler, which becomes the first one consulted.
    pub fn register_handler(&mut self, handler: MockHandler<P>)
        requires
            old(self).well_formed(),
            callable(handler),
        ensures
            final(self).handlers() == old(self).handlers().push(handler),
            final(self).well_formed(),
    {
        let ghost before = self.handlers@;
        self.handlers.push(handler);
        assert forall|i: int| 0 <= i < self.handlers().len() implies callable(
            #[trigger] self.handlers()[i],
        ) by {
            if i < before.len() {
                assert(self.handlers()[i] == before[i]);
                assert(callable(old(self).handlers()[i]));
            } else {
                assert(self.handlers()[i] == handler);
            }
        }
    }

    /// Chooses the answer to `request` for `method` of `service`, given the
    /// request as decoded (or the decoding error).
    pub fn resolve(&self, service_name: &str, method_name: &str, request: Result<Req, Status>) -> (r:
        Result<MockReply, Status>)
        requires
            self.well_formed(),
        ensures
            dispatched(self.handlers(), service_name@, method_name@, request, r),
    {
        let service = service_name.to_owned();
        let method = method_name.to_owned();
        let ghost hs = self.handlers();
        let mut i: usize = self.handlers.len();
        while i > 0
            invariant
                i <= hs.len(),
                hs == self.handlers(),
                self.well_formed(),
                service@ == service_name@,
                method@ == method_name@,
                all_pass_from(hs, i as int, service_name@, method_name@, request),
            decreases i,
        {
            i = i - 1;
            let h = &self.handlers[i];
            if h.service == service && h.method == method {
                match &h.predicate {
                    None => {
                        assert(takes(hs[i as int], service_name@, method_name@, request));
                        return answer_of(&h.reply);
                    },
                    Some(p) => {
                        match &request {
                            Err(e) => {
                                assert(stops_undecodable(hs[i as int], service_name@, method_name@, request));
                                return Err(e.duplicate());
                            },
                            Ok(m) => {
                                assert(self.handlers()[i as int].predicate matches Some(q) && q == *p);
                                let hit = p(m);
                                if hit {
                                    assert(takes(hs[i as int], service_name@, method_name@, request));
                                    return answer_of(&h.reply);
                                }
                                assert(passes(hs[i as int], service_name@, method_name@, request));
                            },
                        }
                    },
                }
            } else {
                assert(passes(hs[i as int], service_name@, method_name@, request));
            }
            assert forall|j: int| i <= j < hs.len() implies #[trigger] passes(
                hs[j],
                service_name@,
                method_name@,
                request,
            ) by {}
        }
        Err(Status::new(Code::Unimplemented, "No mock handler configured for this method"))
    }

    /// Answers a call of `method` on `service` with the framed request
    /// `request_bytes`. The request is decoded once; the decoding error
    /// matters only if a conditional handler is reached.
    pub fn handle_request(&self, service_name: &str, method_name: &str, request_bytes: &[u8]) -> (r:
        Result<MockReply, Status>)
        requires
            self.well_formed(),
        ensures
            exists|d: Result<Req, Status>|
                decoded_request(request_bytes@, d) && dispatched(
                    self.handlers(),
                    service_name@,
                    method_name@,
                    d,
                    r,
                ),
    {
        let d = decode_grpc_message::<Req>(request_bytes);
        let ghost dg = d;
        let r = self.resolve(service_name, method_name, d);
        assert(decoded_request(request_bytes@, dg));
        r
    }

    /// Starts configuring the handlers of `method` on `service`.
    pub fn mock<Resp: WireMessage>(self, service_name: &str, method_name: &str) -> (r: MockBuilder<
        Req,
        Resp,
        P,
    >)
        requires
            self.well_formed(),
        ensures
            r.client.handlers() == self.handlers(),
            r.client.well_formed(),
            r.service_name@ == service_name@,
            r.method_name@ == method_name@,
    {
        MockBuilder {
            client: self,
            service_name: service_name.to_owned(),
            method_name: method_name.to_owned(),
            marker: std::marker::PhantomData,
        }
    }
}

/// Configures the handlers of one method of a client; each call adds a
/// handler that is consulted before those added earlier.
pub struct MockBuilder<Req, Resp, P> {
    pub client: MockableGrpcClient<Req, P>,
    pub service_name: String,
    pub method_name: String,
    /// The type of the configured responses.
    pub marker: std::marker::PhantomData<Resp>,
}

impl<Req: WireMessage, Resp: WireMessage, P: Fn(&Req) -> bool> MockBuilder<Req, Resp, P> {
    /// Adds a handler that answers every request with `response_def`.
    pub fn respond_with(self, response_def: MockResponseDefinition<Resp>) -> (r: Self)
        requires
            self.client.well_formed(),
            encodable(response_def),
        ensures
            r.client.well_formed(),
            r.service_name@ == self.service_name@,
            r.method_name@ == self.method_name@,
            r.client.handlers().len() == self.client.handlers().len() + 1,
            r.client.handlers().drop_last() == self.client.handlers(),
            r.client.handlers().last().service@ == self.service_name@,
            r.client.handlers().last().method@ == self.method_name@,
            r.client.handlers().last().predicate is None,
            reply_defined_by(r.client.handlers().last().reply, response_def),
    {
        let mut b = self;
        let handler = MockHandler {
            service: b.service_name.clone(),
            method: b.method_name.clone(),
            predicate: None,
            reply: reply_of(&response_def),
        };
        b.client.register_handler(handler);
        assert(b.client.handlers().drop_last() =~= self.client.handlers());
        b
    }

    /// Adds a handler that answers with `response_def` the requests that
    /// decode and satisfy `predicate`, and lets the others go on to the
    /// handlers added earlier.
    pub fn respond_when(self, predicate: P, response_def: MockResponseDefinition<Resp>) -> (r: Self)
        requires
            self.client.well_formed(),
            encodable(response_def),
            forall|m: Req| #[trigger] predicate.requires((&m,)),
        ensures
            r.client.well_formed(),
            r.service_name@ == self.service_name@,
            r.method_name@ == self.method_name@,
            r.client.handlers().len() == self.client.handlers().len() + 1,
            r.client.handlers().drop_last() == self.client.handlers(),
            r.client.handlers().last().service@ == self.service_name@,
            r.client.handlers().last().method@ == self.method_name@,
            r.client.handlers().last().predicate == Some(predicate),
            reply_defined_by(r.client.handlers().last().reply, response_def),
    {
        let mut b = self;
        let handler = MockHandler {
            service: b.service_name.clone(),
            method: b.method_name.clone(),
            predicate: Some(predicate),
            reply: reply_of(&response_def),
        };
        b.client.register_handler(handler);
        assert(b.client.handlers().drop_last() =~= self.client.handlers());
        b
    }

    /// The configured client.
    pub fn into_client(self) -> (r: MockableGrpcClient<Req, P>)
        ensures
            r == self.client,
    {
        self.client
    }
}

} // verus!

verus! {

/// Whether the predicate of `h`, when it is consulted on `request`, gives
/// one answer only.
pub open spec fn decides<Req, P: Fn(&Req) -> bool>(h: MockHandler<P>, request: Result<Req, Status>) -> bool {
    match (h.predicate, request) {
        (Some(p), Ok(m)) => !(p.ensures((&m,), true) && p.ensures((&m,), false)),
        _ => true,
    }
}

/// The most recently registered handler that takes a request answers it:
/// when handler `k` takes the request and every handler registered after it
/// passes, the dispatch gives the answer of handler `k`, whatever older
/// handlers would have said.
pub proof fn lemma_latest_taker_answers<Req, P: Fn(&Req) -> bool>(
    hs: Seq<MockHandler<P>>,
    service: Seq<char>,
    method: Seq<char>,
    request: Result<Req, Status>,
    k: int,
    r: Result<MockReply, Status>,
)
    requires
        forall|j: int| 0 <= j < hs.len() ==> decides(#[trigger] hs[j], request),
        0 <= k < hs.len(),
        takes(hs[k], service, method, request),
        all_pass_from(hs, k + 1, service, method, request),
        dispatched(hs, service, method, request, r),
    ensures
        answers(r, hs[k].reply),
{
    assert(decides(hs[k], request));
    assert(!passes(hs[k], service, method, request));
    if exists|i: int|
        0 <= i < hs.len() && #[trigger] takes(hs[i], service, method, request) && all_pass_from(
            hs,
            i + 1,
            service,
            method,
            request,
        ) && answers(r, hs[i].reply) {
        let i = choose|i: int|
            0 <= i < hs.len() && #[trigger] takes(hs[i], service, method, request) && all_pass_from(
                hs,
                i + 1,
                service,
                method,
                request,
            ) && answers(r, hs[i].reply);
        if i > k {
            assert(passes(hs[i], service, method, request));
            assert(decides(hs[i], request));
        } else if i < k {
            assert(passes(hs[k], service, method, request));
        }
    } else if exists|i: int|
        0 <= i < hs.len() && #[trigger] stops_undecodable(hs[i], service, method, request)
            && all_pass_from(hs, i + 1, service, method, request) {
        let i = choose|i: int|
            0 <= i < hs.len() && #[trigger] stops_undecodable(hs[i], service, method, request)
                && all_pass_from(hs, i + 1, service, method, request);
        if i > k {
            assert(passes(hs[i], service, method, request));
        } else if i < k {
            assert(passes(hs[k], service, method, request));
        }
    } else {
        assert(passes(hs[k], service, method, request));
    }
}

/// Dispatching a call of a method for which no handler is registered fails
/// as unimplemented.
pub proof fn lemma_unregistered_is_unimplemented<Req, P: Fn(&Req) -> bool>(
    hs: Seq<MockHandler<P>>,
    service: Seq<char>,
    method: Seq<char>,
    request: Result<Req, Status>,
    r: Result<MockReply, Status>,
)
    requires
        forall|j: int| 0 <= j < hs.len() ==> !serves(#[trigger] hs[j], service, method),
        dispatched(hs, service, method, request, r),
    ensures
        r matches Err(e) && e.code == Code::Unimplemented,
{
    if exists|i: int|
        0 <= i < hs.len() && #[trigger] takes(hs[i], service, method, request) && all_pass_from(
            hs,
            i + 1,
            service,
            method,
            request,
        ) && answers(r, hs[i].reply) {
        let i = choose|i: int|
            0 <= i < hs.len() && #[trigger] takes(hs[i], service, method, request) && all_pass_from(
                hs,
                i + 1,
                service,
                method,
                request,
            ) && answers(r, hs[i].reply);
        assert(!serves(hs[i], service, method));
    } else if exists|i: int|
        0 <= i < hs.len() && #[trigger] stops_undecodable(hs[i], service, method, request)
            && all_pass_from(hs, i + 1, service, method, request) {
        let i = choose|i: int|
            0 <= i < hs.len() && #[trigger] stops_undecodable(hs[i], service, method, request)
                && all_pass_from(hs, i + 1, service, method, request);
        assert(!serves(hs[i], service, method));
    }
}

/// With an unconditional handler registered first and a conditional one
/// after it for the same method, a request that decodes goes to the newer
/// handler when its predicate holds and falls through to the older one when
/// it does not.
pub proof fn lemma_newer_conditional_before_older_default<Req, P: Fn(&Req) -> bool>(
    hs: Seq<MockHandler<P>>,
    service: Seq<char>,
    method: Seq<char>,
    m: Req,
    verdict: bool,
    r: Result<MockReply, Status>,
)
    requires
        hs.len() == 2,
        serves(hs[0], service, method),
        hs[0].predicate is None,
        serves(hs[1], service, method),
        hs[1].predicate matches Some(p) && forall|b: bool| #[trigger] p.ensures((&m,), b) ==> b == verdict,
        dispatched(hs, service, method, Ok::<Req, Status>(m), r),
    ensures
        verdict ==> answers(r, hs[1].reply),
        !verdict ==> answers(r, hs[0].reply),
{
    let request = Ok::<Req, Status>(m);
    assert forall|j: int| 0 <= j < hs.len() implies decides(#[trigger] hs[j], request) by {
        if j == 1 {
            let p = hs[1].predicate->Some_0;
            if p.ensures((&m,), true) && p.ensures((&m,), false) {
                assert(true == verdict);
                assert(false == verdict);
            }
        }
    }
    let p = hs[1].predicate->Some_0;
    if verdict {
        if !p.ensures((&m,), true) {
            if exists|k: int|
                0 <= k < hs.len() && #[trigger] takes(hs[k], service, method, request) && all_pass_from(
                    hs,
                    k + 1,
                    service,
                    method,
                    request,
                ) && answers(r, hs[k].reply) {
                let k = choose|k: int|
                    0 <= k < hs.len() && #[trigger] takes(hs[k], service, method, request)
                        && all_pass_from(hs, k + 1, service, method, request) && answers(r, hs[k].reply);
                if k == 0 {
                    assert(passes(hs[1], service, method, request));
                }
            } else if exists|k: int|
                0 <= k < hs.len() && #[trigger] stops_undecodable(hs[k], service, method, request)
                    && all_pass_from(hs, k + 1, service, method, request) {
            } else {
                assert(passes(hs[0], service, method, request));
            }
        } else {
            lemma_latest_taker_answers(hs, service, method, request, 1, r);
        }
    } else {
        assert(all_pass_from(hs, 1, service, method, request)) by {
            assert forall|j: int| 1 <= j < hs.len() implies #[trigger] passes(
                hs[j],
                service,
                method,
                request,
            ) by {
                if !p.ensures((&m,), false) {
                    assert(!takes(hs[1], service, method, request));
                    if exists|k: int|
                        0 <= k < hs.len() && #[trigger] takes(hs[k], service, method, request)
                            && all_pass_from(hs, k + 1, service, method, request) && answers(
                            r,
                            hs[k].reply,
                        ) {
                        let k = choose|k: int|
                            0 <= k < hs.len() && #[trigger] takes(hs[k], service, method, request)
                                && all_pass_from(hs, k + 1, service, method, request) && answers(
                                r,
                                hs[k].reply,
                            );
                        if k == 0 {
                            assert(passes(hs[1], service, method, request));
                        }
                    } else if exists|k: int|
                        0 <= k < hs.len() && #[trigger] stops_undecodable(hs[k], service, method, request)
                            && all_pass_from(hs, k + 1, service, method, request) {
                    } else {
                        assert(passes(hs[0], service, method, request));
                    }
                }
            }
        }
        lemma_latest_taker_answers(hs, service, method, request, 0, r);
    }
}

} // verus!
