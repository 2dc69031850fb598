//! The decisions of the mirror between receiving a request and answering it.
//!
//! Handling one request alternates between decisions and work on the
//! network. The decisions are the functions [`admit_request`],
//! [`decode_request_body`], [`plan_requests`], [`classify_answer`] and
//! [`aggregate`]; whoever drives them reads the body after the first, sends
//! the planned requests after the third, tells with the fourth what each
//! answer counts as, and answers with what the last returns. An `Err` of the
//! first two is the answer that ends the handling early.

use vstd::prelude::*;
use vstd::slice::slice_to_vec;
use vstd::string::*;
use crate::dsn::{
    from_request, key_in, key_source, Dsn, DsnKeyRing, DsnKeyRingModel, DsnModel, Registry,
};
use crate::http::{first_value, Headers, HeaderModel, RequestUri, RequestUriModel};
use crate::request::{
    decode_body, decoded, deflate_decoded, envelope_rewritten, forwarded, gzip_decoded,
    make_outbound_request, outbound_uri, replace_envelope_dsn, OutboundRequest,
    OutboundRequestModel,
};
use crate::text::same_text;

verus! {

/// The status of a successful answer.
pub const STATUS_OK: u16 = 200;

/// The status of the answer to a request that cannot be mirrored.
pub const STATUS_BAD_REQUEST: u16 = 400;

/// The status of the answer to a request that is no POST.
pub const STATUS_METHOD_NOT_ALLOWED: u16 = 405;

/// The header that names the encoding of a body.
pub const CONTENT_ENCODING: &'static str = "content-encoding";

/// The answer of the mirror to its caller.
#[derive(Debug, Clone, PartialEq)]
pub struct Response {
    pub status: u16,
    pub headers: Headers,
    pub body: Vec<u8>,
}

/// The mathematical model of a [`Response`].
pub struct ResponseModel {
    pub status: u16,
    pub headers: Seq<HeaderModel>,
    pub body: Seq<u8>,
}

impl View for Response {
    type V = ResponseModel;

    open spec fn view(&self) -> ResponseModel {
        ResponseModel { status: self.status, headers: self.headers@, body: self.body@ }
    }
}

/// How sending one outbound request ended.
#[derive(Debug, Clone, PartialEq)]
pub enum OutboundOutcome {
    /// The destination answered with success; this is the body of its answer.
    Delivered(Vec<u8>),
    /// The destination answered with this status, which is no success.
    Refused(u16),
    /// The request could not be built or sent, or no answer could be read.
    Failed(String),
}

/// Whether a status says that a request succeeded: it is one of 200 to 299.
pub open spec fn is_success(status: u16) -> bool {
    200 <= status && status < 300
}

/// The outcome that an answer with `status` and `body` stands for.
pub open spec fn outcome_of(status: u16, body: Vec<u8>) -> OutboundOutcome {
    if is_success(status) {
        OutboundOutcome::Delivered(body)
    } else {
        OutboundOutcome::Refused(status)
    }
}

/// Tells what an answer of a destination counts as: its body is delivered
/// if and only if its status says success.
pub fn classify_answer(status: u16, body: Vec<u8>) -> (r: OutboundOutcome)
    ensures
        r == outcome_of(status, body),
        r is Delivered <==> is_success(status),
{
    if 200 <= status && status < 300 {
        OutboundOutcome::Delivered(body)
    } else {
        OutboundOutcome::Refused(status)
    }
}

/// The answer to a request that is no POST.
pub open spec fn method_not_allowed() -> ResponseModel {
    ResponseModel {
        status: 405,
        headers: Seq::empty(),
        body: "Method not allowed".spec_bytes(),
    }
}

/// The answer to a request without a known key or with a body that cannot be
/// decoded.
pub open spec fn bad_request() -> ResponseModel {
    ResponseModel { status: 400, headers: Seq::empty(), body: "No DSN found".spec_bytes() }
}

/// Builds the answer to a request that is no POST.
pub fn method_not_allowed_response() -> (r: Response)
    ensures
        r@ == method_not_allowed(),
{
    Response {
        status: STATUS_METHOD_NOT_ALLOWED,
        headers: Headers::new(),
        body: slice_to_vec("Method not allowed".as_bytes()),
    }
}

/// Builds the answer to a request that cannot be mirrored.
pub fn bad_request_response() -> (r: Response)
    ensures
        r@ == bad_request(),
{
    Response {
        status: STATUS_BAD_REQUEST,
        headers: Headers::new(),
        body: slice_to_vec("No DSN found".as_bytes()),
    }
}

/// The key ring that a request is mirrored to, or the answer that turns it
/// away: first a request that is no POST, then one without a key, then one
/// whose key is not registered.
pub open spec fn admitted(
    method: Seq<char>,
    uri: RequestUriModel,
    headers: Seq<HeaderModel>,
    keymap: Map<Seq<char>, DsnKeyRingModel>,
) -> Result<DsnKeyRingModel, ResponseModel> {
    if method != "POST"@ {
        Err(method_not_allowed())
    } else {
        match key_in(key_source(uri, headers)) {
            None => Err(bad_request()),
            Some(k) => if keymap.contains_key(k) {
                Ok(keymap[k])
            } else {
                Err(bad_request())
            },
        }
    }
}

/// Whether the outcome of admission is the one that `expected` describes.
pub open spec fn admitted_as(
    r: Result<&DsnKeyRing, Response>,
    expected: Result<DsnKeyRingModel, ResponseModel>,
) -> bool {
    match r {
        Ok(ring) => expected == Ok::<DsnKeyRingModel, ResponseModel>(ring.deep_view()),
        Err(e) => expected == Err::<DsnKeyRingModel, ResponseModel>(e@),
    }
}

/// Decides whether a request is mirrored, and to which key ring. Only a POST
/// that carries a registered key is; nothing tells an unknown key from a
/// missing one.
pub fn admit_request<'a>(method: &str, uri: &RequestUri, headers: &Headers, keymap: &'a Registry) -> (r:
    Result<&'a DsnKeyRing, Response>)
    ensures
        admitted_as(r, admitted(method@, uri@, headers@, keymap@)),
        method@ != "POST"@ ==> r is Err && r->Err_0@ == method_not_allowed(),
{
    if !same_text(method, "POST") {
        return Err(method_not_allowed_response());
    }
    let public_key = match from_request(uri, headers) {
        Some(k) => k,
        None => {
            return Err(bad_request_response());
        },
    };
    match keymap.get(public_key.as_str()) {
        Some(ring) => Ok(ring),
        None => Err(bad_request_response()),
    }
}

/// The body that is mirrored: the body as received where no encoding is
/// declared, else what the declared encoding decodes it to, or the answer
/// that turns the request away.
pub open spec fn body_decoded(headers: Seq<HeaderModel>, body: Seq<u8>) -> Result<
    Seq<u8>,
    ResponseModel,
> {
    match first_value(headers, CONTENT_ENCODING@) {
        None => Ok(body),
        Some(encoding) => match decoded(encoding, gzip_decoded(body), deflate_decoded(body)) {
            Ok(b) => Ok(b),
            Err(_) => Err(bad_request()),
        },
    }
}

/// Whether the outcome of reading a body is the one that `expected`
/// describes.
pub open spec fn body_decoded_as(
    r: Result<Vec<u8>, Response>,
    expected: Result<Seq<u8>, ResponseModel>,
) -> bool {
    match r {
        Ok(b) => expected == Ok::<Seq<u8>, ResponseModel>(b@),
        Err(e) => expected == Err::<Seq<u8>, ResponseModel>(e@),
    }
}

/// Decodes the body of an admitted request if its headers declare an
/// encoding. A body that cannot be decoded is not forwarded.
pub fn decode_request_body(headers: &Headers, body: Vec<u8>) -> (r: Result<Vec<u8>, Response>)
    ensures
        body_decoded_as(r, body_decoded(headers@, body@)),
{
    match headers.get(CONTENT_ENCODING) {
        None => Ok(body),
        Some(encoding) => match decode_body(encoding.as_str(), body.as_slice()) {
            Ok(decompressed) => Ok(decompressed),
            Err(_) => Err(bad_request_response()),
        },
    }
}

/// The request that mirrors an inbound one to the DSN `d`: the rewritten
/// target and headers, and the body with its envelope header rewritten where
/// that changes it.
pub open spec fn mirrored(
    uri: RequestUriModel,
    headers: Seq<HeaderModel>,
    body: Seq<u8>,
    d: DsnModel,
) -> OutboundRequestModel {
    OutboundRequestModel {
        method: "POST"@,
        uri: outbound_uri(uri, d),
        headers: forwarded(headers, d.public_key),
        body: match envelope_rewritten(body, d) {
            Some(b) => b,
            None => body,
        },
    }
}

/// Builds the request that mirrors an inbound one to `outbound`.
pub fn mirror_request(uri: &RequestUri, headers: &Headers, body: &[u8], outbound: &Dsn) -> (r:
    OutboundRequest)
    ensures
        r.deep_view() == mirrored(uri@, headers@, body@, outbound@),
{
    let builder = make_outbound_request(uri, headers, outbound);
    let body_out = match replace_envelope_dsn(body, outbound) {
        Some(new_body) => new_body,
        None => slice_to_vec(body),
    };
    builder.body(body_out)
}

/// The requests that mirror an inbound one to the DSNs of a key ring, in the
/// order of the ring.
pub open spec fn planned(
    uri: RequestUriModel,
    headers: Seq<HeaderModel>,
    body: Seq<u8>,
    outbound: Seq<DsnModel>,
) -> Seq<OutboundRequestModel> {
    Seq::new(outbound.len(), |i: int| mirrored(uri, headers, body, outbound[i]))
}

/// Builds one request for every outbound DSN of `ring`, in their order.
pub fn plan_requests(uri: &RequestUri, headers: &Headers, body: &[u8], ring: &DsnKeyRing) -> (r: Vec<
    OutboundRequest,
>)
    ensures
        r.deep_view() == planned(uri@, headers@, body@, ring.deep_view().outbound),
{
    let mut requests: Vec<OutboundRequest> = Vec::new();
    let mut i: usize = 0;
    while i < ring.outbound.len()
        invariant
            i <= ring.outbound.len(),
            requests.len() == i,
            forall|j: int|
                0 <= j < i ==> (#[trigger] requests[j]).deep_view() == mirrored(
                    uri@,
                    headers@,
                    body@,
                    ring.outbound[j]@,
                ),
        decreases ring.outbound.len() - i,
    {
        requests.push(mirror_request(uri, headers, body, &ring.outbound[i]));
        i += 1;
    }
    requests
}

/// The headers that let a browser read the answer.
pub open spec fn cors_headers() -> Seq<HeaderModel> {
    seq![
        HeaderModel { name: "Access-Control-Allow-Origin"@, value: "*"@ },
        HeaderModel {
            name: "Access-Control-Expose-Headers"@,
            value: "x-sentry-error,x-sentry-rate-limit,retry-after"@,
        },
        HeaderModel { name: "Cross-Origin-Resource-Policy"@, value: "cross-origin"@ },
    ]
}

/// The body of the first delivered outcome, or no bytes where none was
/// delivered. Outcomes that are no success are passed over.
pub open spec fn first_delivered(outcomes: Seq<OutboundOutcome>) -> Seq<u8>
    decreases outcomes.len(),
{
    if outcomes.len() == 0 {
        Seq::empty()
    } else {
        match outcomes[0] {
            OutboundOutcome::Delivered(b) => b@,
            _ => first_delivered(outcomes.drop_first()),
        }
    }
}

/// The answer to a mirrored request, given how every send ended.
pub open spec fn aggregated(outcomes: Seq<OutboundOutcome>) -> ResponseModel {
    ResponseModel { status: 200, headers: cors_headers(), body: first_delivered(outcomes) }
}

/// Builds the answer to a mirrored request from the outcomes of all sends,
/// given in the order in which the requests were planned: the body of the
/// first that was delivered, whatever the others brought.
pub fn aggregate(outcomes: Vec<OutboundOutcome>) -> (r: Response)
    ensures
        r@ == aggregated(outcomes@),
{
    let ghost all = outcomes@;
    let mut body: Vec<u8> = Vec::new();
    let mut i: usize = 0;
    assert(all.skip(0) =~= all);
    while i < outcomes.len()
        invariant_except_break
            body@ == Seq::<u8>::empty(),
            first_delivered(all) == first_delivered(all.skip(i as int)),
        invariant
            i <= outcomes.len(),
            outcomes@ == all,
        ensures
            body@ == first_delivered(all),
        decreases outcomes.len() - i,
    {
        assert(all.skip(i as int).drop_first() =~= all.skip(i + 1));
        match &outcomes[i] {
            OutboundOutcome::Delivered(b) => {
                body = b.clone();
                break ;
            },
            _ => {},
        }
        i += 1;
    }
    let mut headers = Headers::new();
    headers.append("Access-Control-Allow-Origin", "*");
    headers.append("Access-Control-Expose-Headers", "x-sentry-error,x-sentry-rate-limit,retry-after");
    headers.append("Cross-Origin-Resource-Policy", "cross-origin");
    assert(headers@ =~= cors_headers());
    Response { status: STATUS_OK, headers, body }
}

/// A request that is no POST is answered with status 405 whatever it
/// carries.
pub proof fn lemma_only_post_is_admitted(
    method: Seq<char>,
    uri: RequestUriModel,
    headers: Seq<HeaderModel>,
    keymap: Map<Seq<char>, DsnKeyRingModel>,
)
    requires
        method != "POST"@,
    ensures
        admitted(method, uri, headers, keymap) is Err,
        admitted(method, uri, headers, keymap)->Err_0.status == 405,
{
}

/// An answer whose status is no success adds nothing to the answer of the
/// mirror: the outcomes after it decide.
pub proof fn lemma_refused_is_left_out(status: u16, body: Vec<u8>, rest: Seq<OutboundOutcome>)
    requires
        !is_success(status),
    ensures
        aggregated(seq![outcome_of(status, body)] + rest) == aggregated(rest),
{
    let all = seq![outcome_of(status, body)] + rest;
    assert(all.drop_first() =~= rest);
}

/// Where the first outcome that was delivered stands at `i`, the answer has
/// status 200 and the body of that outcome, whatever failed or was refused
/// before it.
pub proof fn lemma_first_delivered(outcomes: Seq<OutboundOutcome>, i: int)
    requires
        0 <= i < outcomes.len(),
        outcomes[i] is Delivered,
        forall|j: int| 0 <= j < i ==> !(#[trigger] outcomes[j] is Delivered),
    ensures
        aggregated(outcomes).status == 200,
        aggregated(outcomes).body == outcomes[i]->Delivered_0@,
    decreases i,
{
    if i > 0 {
        let rest = outcomes.drop_first();
        assert(rest[i - 1] == outcomes[i]);
        assert forall|j: int| 0 <= j < i - 1 implies !(#[trigger] rest[j] is Delivered) by {
            assert(!(outcomes[j + 1] is Delivered));
        }
        lemma_first_delivered(rest, i - 1);
    }
}

} // verus!
