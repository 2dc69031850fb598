//! Rewriting an inbound request for one outbound DSN.

use std::io::Read;
use vstd::prelude::*;
use vstd::slice::{slice_subrange, slice_to_vec};
use vstd::string::*;
use vstd::utf8::{decode_utf8, encode_utf8, valid_utf8};
use crate::dsn::{
    dsn_text, Dsn, DsnModel, AUTHORIZATION_HEADER, KEY_MARKER, SENTRY_X_AUTH_HEADER,
};
use crate::http::{
    first_value, inserted, lemma_first_value_push, lemma_without, without, Headers, HeaderModel,
    RequestUri, RequestUriModel,
};
use crate::text::{
    bytes_of, chars_of, each_replaced, names_match, replace_all, replace_each, replaced, rows,
    same_chars,
    same_name, same_text, segments, split_segments, utf8_text,
};

verus! {

/// The pattern that finds the key of a credential: the marker and a run of
/// lower-case hex digits.
pub const CREDENTIAL_PATTERN: &'static str = "sentry_key=([a-f0-9]+)";

/// The first path segment of the ingestion API.
pub const API_SEGMENT: &'static str = "api";

/// `target` with every credential in it rewritten to carry `public_key`,
/// written as it is.
pub open spec fn with_key(target: Seq<char>, public_key: Seq<char>) -> Seq<char> {
    each_replaced(CREDENTIAL_PATTERN@, target, KEY_MARKER@ + public_key)
}

/// Rewrites every credential in `target` to carry the public key of
/// `outbound`.
pub fn replace_public_key(target: &str, outbound: &Dsn) -> (r: String)
    ensures
        r@ == with_key(target@, outbound@.public_key),
{
    let mut replacement = String::from_str(KEY_MARKER);
    replacement.append(outbound.public_key.as_str());
    replace_each(CREDENTIAL_PATTERN, target, replacement.as_str())
}

/// The path of the outbound request: where the inbound path has exactly three
/// segments of which the first is the API's, every occurrence of the second
/// in the path gives way to `project_id`.
pub open spec fn rewritten_path(path: Seq<char>, project_id: Seq<char>) -> Seq<char> {
    let parts = segments(path);
    if parts.len() == 3 && parts[0] == API_SEGMENT@ {
        replaced(path, parts[1], project_id)
    } else {
        path
    }
}

/// Puts the outbound project into an inbound path.
pub fn rewrite_path(path: &str, project_id: &str) -> (r: String)
    ensures
        r@ == rewritten_path(path@, project_id@),
{
    let parts = split_segments(path);
    let api = chars_of(API_SEGMENT);
    if parts.len() == 3 && same_chars(&parts[0], &api) {
        replace_all(path, &parts[1], project_id)
    } else {
        String::from_str(path)
    }
}

/// The target of the outbound request: scheme and host of the DSN, the
/// rewritten path, and the rewritten query where it is not empty.
pub open spec fn outbound_uri(uri: RequestUriModel, d: DsnModel) -> Seq<char> {
    let base = d.scheme + "://"@ + d.host + rewritten_path(uri.path, d.project_id);
    let query = match uri.query {
        Some(q) => with_key(q, d.public_key),
        None => Seq::empty(),
    };
    if query.len() > 0 {
        base + "?"@ + query
    } else {
        base
    }
}

/// Whether a header of this name is never forwarded.
pub open spec fn is_dropped(name: Seq<char>) -> bool {
    same_name(name, "host"@) || same_name(name, "x-forwarded-for"@) || same_name(
        name,
        "content-length"@,
    ) || same_name(name, "content-encoding"@)
}

/// Whether a header of this name carries a credential.
pub open spec fn is_credential(name: Seq<char>) -> bool {
    same_name(name, AUTHORIZATION_HEADER@) || same_name(name, SENTRY_X_AUTH_HEADER@)
}

/// The headers of the outbound request: each inbound header in turn, unless
/// it is dropped, is set on the outbound side, a credential with its key
/// rewritten.
pub open spec fn forwarded(h: Seq<HeaderModel>, public_key: Seq<char>) -> Seq<HeaderModel>
    decreases h.len(),
{
    if h.len() == 0 {
        Seq::empty()
    } else {
        let e = h.last();
        let rest = forwarded(h.drop_last(), public_key);
        if is_dropped(e.name) {
            rest
        } else if is_credential(e.name) {
            inserted(rest, e.name, with_key(e.value, public_key))
        } else {
            inserted(rest, e.name, e.value)
        }
    }
}

/// The value of the last header called `name`.
pub open spec fn last_value(h: Seq<HeaderModel>, name: Seq<char>) -> Option<Seq<char>>
    decreases h.len(),
{
    if h.len() == 0 {
        None
    } else if same_name(h.last().name, name) {
        Some(h.last().value)
    } else {
        last_value(h.drop_last(), name)
    }
}

/// What the outbound request carries under `name`: nothing for a dropped
/// name, else the last inbound value, a credential with its key rewritten.
pub open spec fn forwarded_value(h: Seq<HeaderModel>, public_key: Seq<char>, name: Seq<char>) -> Option<
    Seq<char>,
> {
    if is_dropped(name) {
        None
    } else {
        match last_value(h, name) {
            Some(v) => Some(
                if is_credential(name) {
                    with_key(v, public_key)
                } else {
                    v
                },
            ),
            None => None,
        }
    }
}

proof fn lemma_first_value_folds(h: Seq<HeaderModel>, a: Seq<char>, b: Seq<char>)
    requires
        same_name(a, b),
    ensures
        first_value(h, a) == first_value(h, b),
    decreases h.len(),
{
    if h.len() > 0 {
        lemma_first_value_folds(h.drop_first(), a, b);
    }
}

/// Header rewriting, name by name: looking a name up in the outbound headers
/// gives nothing for a dropped name and otherwise the last inbound value of
/// that name, rewritten if it is a credential.
pub proof fn lemma_forwarded_lookup(h: Seq<HeaderModel>, public_key: Seq<char>, name: Seq<char>)
    ensures
        first_value(forwarded(h, public_key), name) == forwarded_value(h, public_key, name),
    decreases h.len(),
{
    if h.len() > 0 {
        let e = h.last();
        let rest = forwarded(h.drop_last(), public_key);
        lemma_forwarded_lookup(h.drop_last(), public_key, name);
        if !is_dropped(e.name) {
            let v = if is_credential(e.name) {
                with_key(e.value, public_key)
            } else {
                e.value
            };
            lemma_first_value_push(without(rest, e.name), HeaderModel { name: e.name, value: v }, name);
            lemma_without(rest, e.name, name);
            if same_name(e.name, name) {
                lemma_first_value_folds(without(rest, e.name), e.name, name);
            }
        }
    }
}

/// No outbound header has a dropped name.
pub proof fn lemma_forwarded_drops(h: Seq<HeaderModel>, public_key: Seq<char>, i: int)
    requires
        0 <= i < forwarded(h, public_key).len(),
    ensures
        !is_dropped(forwarded(h, public_key)[i].name),
    decreases h.len(),
{
    if h.len() > 0 {
        let e = h.last();
        let rest = forwarded(h.drop_last(), public_key);
        if is_dropped(e.name) {
            lemma_forwarded_drops(h.drop_last(), public_key, i);
        } else {
            lemma_without(rest, e.name, e.name);
            if i < without(rest, e.name).len() {
                let x = without(rest, e.name)[i];
                assert(rest.contains(x));
                let j = choose|j: int| 0 <= j < rest.len() && rest[j] == x;
                lemma_forwarded_drops(h.drop_last(), public_key, j);
            }
        }
    }
}

/// An outbound request that still lacks its body.
#[derive(Debug, Clone, PartialEq)]
pub struct RequestHead {
    pub method: String,
    pub uri: String,
    pub headers: Headers,
}

/// An outbound request, ready to be sent.
#[derive(Debug, Clone, PartialEq)]
pub struct OutboundRequest {
    pub method: String,
    pub uri: String,
    pub headers: Headers,
    pub body: Vec<u8>,
}

/// The mathematical model of an [`OutboundRequest`].
pub struct OutboundRequestModel {
    pub method: Seq<char>,
    pub uri: Seq<char>,
    pub headers: Seq<HeaderModel>,
    pub body: Seq<u8>,
}

impl DeepView for OutboundRequest {
    type V = OutboundRequestModel;

    open spec fn deep_view(&self) -> OutboundRequestModel {
        OutboundRequestModel {
            method: self.method@,
            uri: self.uri@,
            headers: self.headers@,
            body: self.body@,
        }
    }
}

impl RequestHead {
    /// Completes the request with its body.
    pub fn body(self, body: Vec<u8>) -> (r: OutboundRequest)
        ensures
            r.method == self.method,
            r.uri == self.uri,
            r.headers == self.headers,
            r.body == body,
    {
        OutboundRequest { method: self.method, uri: self.uri, headers: self.headers, body }
    }
}

fn is_dropped_exec(name: &str) -> (b: bool)
    ensures
        b == is_dropped(name@),
{
    names_match(name, "host") || names_match(name, "x-forwarded-for") || names_match(
        name,
        "content-length",
    ) || names_match(name, "content-encoding")
}

/// Copies the headers that may be forwarded, with credentials rewritten.
pub fn forward_headers(headers: &Headers, outbound: &Dsn) -> (r: Headers)
    ensures
        r@ == forwarded(headers@, outbound@.public_key),
{
    let mut out = Headers::new();
    let mut i: usize = 0;
    while i < headers.entries.len()
        invariant
            i <= headers.entries.len(),
            out@ == forwarded(headers@.take(i as int), outbound@.public_key),
        decreases headers.entries.len() - i,
    {
        assert(headers@.take(i + 1).drop_last() =~= headers@.take(i as int));
        let e = &headers.entries[i];
        if !is_dropped_exec(e.name.as_str()) {
            if names_match(e.name.as_str(), AUTHORIZATION_HEADER) || names_match(
                e.name.as_str(),
                SENTRY_X_AUTH_HEADER,
            ) {
                let updated = replace_public_key(e.value.as_str(), outbound);
                out.insert(e.name.as_str(), updated.as_str());
            } else {
                out.insert(e.name.as_str(), e.value.as_str());
            }
        }
        i += 1;
    }
    assert(headers@.take(i as int) =~= headers@);
    out
}

/// Builds the request that mirrors an inbound one to `outbound`: always a
/// POST, addressed to the outbound host and project, with the inbound
/// headers that may travel.
pub fn make_outbound_request(uri: &RequestUri, headers: &Headers, outbound: &Dsn) -> (r: RequestHead)
    ensures
        r.method@ == "POST"@,
        r.uri@ == outbound_uri(uri@, outbound@),
        r.headers@ == forwarded(headers@, outbound@.public_key),
{
    let new_path = rewrite_path(uri.path.as_str(), outbound.project_id.as_str());
    let query = match &uri.query {
        Some(value) => replace_public_key(value.as_str(), outbound),
        None => String::new(),
    };
    let mut target = outbound.scheme.clone();
    target.append("://");
    target.append(outbound.host.as_str());
    target.append(new_path.as_str());
    if !query.as_str().is_empty() {
        target.append("?");
        target.append(query.as_str());
    }
    RequestHead {
        method: String::from_str("POST"),
        uri: target,
        headers: forward_headers(headers, outbound),
    }
}

/// The JSON pointer to the DSN of an envelope header.
pub const DSN_POINTER: &'static str = "/dsn";

/// The JSON pointer to the public key of an envelope header's trace.
pub const TRACE_KEY_POINTER: &'static str = "/trace/public_key";

/// What becomes of the JSON document `text` when the value at `first` is
/// set to the string `first_value` and then the value at `second` to the
/// string `second_value`, each only where its pointer leads to a value, as
/// `serde_json` parses, resolves and prints: whether the first was set,
/// whether the second was set, and the document in compact form. `None`
/// where `text` is no JSON.
pub uninterp spec fn json_set(
    text: Seq<char>,
    first: Seq<char>,
    first_value: Seq<char>,
    second: Seq<char>,
    second_value: Seq<char>,
) -> Option<(bool, bool, Seq<char>)>;

/// What an outcome of setting values in a document stands for.
pub open spec fn set_outcome(r: Option<(bool, bool, String)>) -> Option<(bool, bool, Seq<char>)> {
    match r {
        Some((first_set, second_set, line)) => Some((first_set, second_set, line@)),
        None => None,
    }
}

/// Parses `text` once with `serde_json::from_str`, overwrites with a JSON
/// string each of the two values that `Value::pointer_mut` finds, the first
/// before the second, and prints the document. The result is a function of
/// the five strings alone.
#[verifier::external_body]
pub(crate) fn json_put(
    text: &str,
    first: &str,
    first_value: &str,
    second: &str,
    second_value: &str,
) -> (r: Option<(bool, bool, String)>)
    ensures
        set_outcome(r) == json_set(text@, first@, first_value@, second@, second_value@),
{
    match serde_json::from_str::<serde_json::Value>(text) {
        Ok(mut v) => {
            let first_set = match v.pointer_mut(first) {
                Some(slot) => { *slot = serde_json::Value::String(String::from(first_value)); true },
                None => false,
            };
            let second_set = match v.pointer_mut(second) {
                Some(slot) => { *slot = serde_json::Value::String(String::from(second_value)); true },
                None => false,
            };
            Some((first_set, second_set, v.to_string()))
        },
        Err(_) => None,
    }
}

/// The header line of an envelope after rewriting, given what the JSON
/// engine reports: the line as it prints it, if it set the DSN or the trace
/// key. `None` stands for no change.
pub open spec fn chosen_header(outcome: Option<(bool, bool, Seq<char>)>) -> Option<Seq<char>> {
    match outcome {
        Some((dsn_set, trace_key_set, line)) => if dsn_set || trace_key_set {
            Some(line)
        } else {
            None
        },
        None => None,
    }
}

/// The rewritten header line of an envelope: its DSN gives way to the
/// canonical string of `d`, the public key of its trace to that of `d`;
/// `None` where the line is no JSON or has neither.
pub open spec fn rewritten_header(text: Seq<char>, d: DsnModel) -> Option<Seq<char>> {
    chosen_header(json_set(text, DSN_POINTER@, dsn_text(d), TRACE_KEY_POINTER@, d.public_key))
}

/// Picks the rewritten header line from what the JSON engine reported.
pub fn choose_header(outcome: Option<(bool, bool, String)>) -> (r: Option<String>)
    ensures
        r.deep_view() == chosen_header(set_outcome(outcome)),
{
    match outcome {
        Some((dsn_set, trace_key_set, line)) => {
            if dsn_set || trace_key_set {
                Some(line)
            } else {
                None
            }
        },
        None => None,
    }
}

/// Rewrites the header line of an envelope for `outbound`.
pub fn rewrite_envelope_header(text: &str, outbound: &Dsn) -> (r: Option<String>)
    ensures
        r.deep_view() == rewritten_header(text@, outbound@),
{
    let canonical = outbound.to_string();
    choose_header(
        json_put(
            text,
            DSN_POINTER,
            canonical.as_str(),
            TRACE_KEY_POINTER,
            outbound.public_key.as_str(),
        ),
    )
}

/// The length of the first line of `body`: the number of bytes before its
/// first line feed, or all of them.
pub open spec fn line_len(body: Seq<u8>) -> int
    decreases body.len(),
{
    if body.len() == 0 || body[0] == 10u8 {
        0
    } else {
        1 + line_len(body.drop_first())
    }
}

/// The first line ends within the body.
pub proof fn lemma_line_len(body: Seq<u8>)
    ensures
        0 <= line_len(body) <= body.len(),
        line_len(body) < body.len() ==> body[line_len(body)] == 10u8,
        forall|j: int| 0 <= j < line_len(body) ==> #[trigger] body[j] != 10u8,
    decreases body.len(),
{
    if body.len() > 0 && body[0] != 10u8 {
        let rest = body.drop_first();
        lemma_line_len(rest);
        assert forall|j: int| 0 <= j < line_len(body) implies #[trigger] body[j] != 10u8 by {
            if j > 0 {
                assert(body[j] == rest[j - 1]);
            }
        }
    }
}

/// Finds the end of the first line.
pub fn first_line_len(body: &[u8]) -> (n: usize)
    ensures
        n == line_len(body@),
{
    let mut i: usize = 0;
    assert(body@.skip(0) =~= body@);
    while i < body.len() && body[i] != 10u8
        invariant
            i <= body.len(),
            line_len(body@) == i + line_len(body@.skip(i as int)),
        decreases body.len() - i,
    {
        assert(body@.skip(i as int).drop_first() =~= body@.skip(i + 1));
        i += 1;
    }
    i
}

/// An envelope with its first line replaced by `header`: the header, a line
/// feed, and what followed the first line feed of `body`, which is nothing
/// where `body` has no line feed.
pub open spec fn spliced(body: Seq<u8>, header: Seq<char>) -> Seq<u8> {
    let cut = line_len(body);
    let rest = if cut < body.len() {
        body.skip(cut + 1)
    } else {
        Seq::empty()
    };
    encode_utf8(header) + seq![10u8] + rest
}

/// Puts `header` in place of the first line of `body`, leaving the rest of
/// the envelope untouched.
pub fn splice_header(body: &[u8], header: &str) -> (r: Vec<u8>)
    ensures
        r@ == spliced(body@, header@),
{
    let cut = first_line_len(body);
    proof {
        lemma_line_len(body@);
    }
    let mut out = slice_to_vec(header.as_bytes());
    out.push(10u8);
    if cut < body.len() {
        let rest = slice_subrange(body, cut + 1, body.len());
        out.extend_from_slice(rest);
    }
    out
}

/// The envelope `body` rewritten for the DSN `d`: `None`, for no change,
/// where the first line is no UTF-8, no JSON, or has neither field.
pub open spec fn envelope_rewritten(body: Seq<u8>, d: DsnModel) -> Option<Seq<u8>> {
    let line = body.take(line_len(body));
    if !valid_utf8(line) {
        None
    } else {
        match rewritten_header(decode_utf8(line), d) {
            Some(h) => Some(spliced(body, h)),
            None => None,
        }
    }
}

/// Replaces the DSN and the trace key in the first line of an envelope. Only
/// the first line is read; `None` says that the body is to be sent as it is.
pub fn replace_envelope_dsn(body: &[u8], outbound: &Dsn) -> (r: Option<Vec<u8>>)
    ensures
        bytes_of(r) == envelope_rewritten(body@, outbound@),
{
    let cut = first_line_len(body);
    proof {
        lemma_line_len(body@);
    }
    let line = slice_subrange(body, 0, cut);
    let text = match utf8_text(line) {
        Some(t) => t,
        None => {
            return None;
        },
    };
    match rewrite_envelope_header(text.as_str(), outbound) {
        Some(header) => Some(splice_header(body, header.as_str())),
        None => None,
    }
}

/// An envelope in whose first line the JSON engine finds neither a DSN nor a
/// trace key is left as it is.
pub proof fn lemma_envelope_without_fields(body: Seq<u8>, d: DsnModel)
    requires
        valid_utf8(body.take(line_len(body))),
        json_set(
            decode_utf8(body.take(line_len(body))),
            DSN_POINTER@,
            dsn_text(d),
            TRACE_KEY_POINTER@,
            d.public_key,
        ) matches Some(found) && !found.0 && !found.1,
    ensures
        envelope_rewritten(body, d) is None,
{
}

/// Whether a header value is text: visible ASCII, spaces and tabs.
pub open spec fn is_header_text(value: Seq<char>) -> bool {
    forall|i: int| 0 <= i < value.len() ==> is_text_char(#[trigger] value[i])
}

/// Whether `c` is a tab or an ASCII character from the space to the tilde.
pub open spec fn is_text_char(c: char) -> bool {
    c == '\t' || (' ' <= c && c <= '~')
}

/// Why a body could not be decoded.
#[derive(Debug)]
pub enum BodyError {
    /// The encoding is neither gzip nor deflate.
    UnsupportedCodec,
    /// The body is no stream of the declared encoding.
    CouldNotDecode(std::io::Error),
    /// The value of the encoding header is no text.
    InvalidHeader,
}

/// The kinds of [`BodyError`].
pub enum BodyFault {
    UnsupportedCodec,
    CouldNotDecode,
    InvalidHeader,
}

impl BodyError {
    /// The kind of this error.
    pub open spec fn fault(&self) -> BodyFault {
        match self {
            BodyError::UnsupportedCodec => BodyFault::UnsupportedCodec,
            BodyError::CouldNotDecode(_) => BodyFault::CouldNotDecode,
            BodyError::InvalidHeader => BodyFault::InvalidHeader,
        }
    }
}

#[verifier::external_type_specification]
#[verifier::external_body]
pub struct ExIoError(std::io::Error);

/// The bytes that the gzip stream `body` holds, as `flate2` decodes it;
/// `None` where decoding fails.
pub uninterp spec fn gzip_decoded(body: Seq<u8>) -> Option<Seq<u8>>;

/// Reads `flate2::read::GzDecoder` over `body` to its end. The outcome is a
/// function of the bytes alone.
#[verifier::external_body]
pub(crate) fn gunzip(body: &[u8]) -> (r: Result<Vec<u8>, std::io::Error>)
    ensures
        match r {
            Ok(v) => gzip_decoded(body@) == Some(v@),
            Err(_) => gzip_decoded(body@) is None,
        },
{
    let mut decompressed = Vec::new();
    match flate2::read::GzDecoder::new(body).read_to_end(&mut decompressed) {
        Ok(_) => Ok(decompressed),
        Err(e) => Err(e),
    }
}

/// The bytes that the deflate stream `body` holds, as `flate2` decodes it;
/// `None` where decoding fails.
pub uninterp spec fn deflate_decoded(body: Seq<u8>) -> Option<Seq<u8>>;

/// Reads `flate2::read::DeflateDecoder` over `body` to its end. The outcome
/// is a function of the bytes alone.
#[verifier::external_body]
pub(crate) fn inflate(body: &[u8]) -> (r: Result<Vec<u8>, std::io::Error>)
    ensures
        match r {
            Ok(v) => deflate_decoded(body@) == Some(v@),
            Err(_) => deflate_decoded(body@) is None,
        },
{
    let mut decompressed = Vec::new();
    match flate2::read::DeflateDecoder::new(body).read_to_end(&mut decompressed) {
        Ok(_) => Ok(decompressed),
        Err(e) => Err(e),
    }
}

/// What decoding yields, given what the two decoders make of the body: the
/// encoding must be text and name one of them, and that one must succeed.
pub open spec fn decoded(
    encoding: Seq<char>,
    gzip: Option<Seq<u8>>,
    deflate: Option<Seq<u8>>,
) -> Result<Seq<u8>, BodyFault> {
    if !is_header_text(encoding) {
        Err(BodyFault::InvalidHeader)
    } else if encoding == "gzip"@ {
        match gzip {
            Some(b) => Ok(b),
            None => Err(BodyFault::CouldNotDecode),
        }
    } else if encoding == "deflate"@ {
        match deflate {
            Some(b) => Ok(b),
            None => Err(BodyFault::CouldNotDecode),
        }
    } else {
        Err(BodyFault::UnsupportedCodec)
    }
}

/// Whether an outcome of decoding is the one that `expected` describes.
pub open spec fn decoded_as(r: Result<Vec<u8>, BodyError>, expected: Result<Seq<u8>, BodyFault>) -> bool {
    match r {
        Ok(v) => expected == Ok::<Seq<u8>, BodyFault>(v@),
        Err(e) => expected == Err::<Seq<u8>, BodyFault>(e.fault()),
    }
}

fn is_header_text_exec(value: &str) -> (b: bool)
    ensures
        b == is_header_text(value@),
{
    let c = chars_of(value);
    let mut i: usize = 0;
    while i < c.len()
        invariant
            c@ == value@,
            i <= c.len(),
            forall|j: int| 0 <= j < i ==> is_text_char(#[trigger] value@[j]),
        decreases c.len() - i,
    {
        let d = c[i];
        if !(d == '\t' || (' ' <= d && d <= '~')) {
            return false;
        }
        i += 1;
    }
    true
}

/// Decodes a compressed body. The encoding is matched as it is written:
/// `gzip` and `deflate` are the two that are supported.
pub fn decode_body(encoding: &str, body: &[u8]) -> (r: Result<Vec<u8>, BodyError>)
    ensures
        decoded_as(r, decoded(encoding@, gzip_decoded(body@), deflate_decoded(body@))),
{
    if !is_header_text_exec(encoding) {
        Err(BodyError::InvalidHeader)
    } else if same_text(encoding, "gzip") {
        match gunzip(body) {
            Ok(v) => Ok(v),
            Err(e) => Err(BodyError::CouldNotDecode(e)),
        }
    } else if same_text(encoding, "deflate") {
        match inflate(body) {
            Ok(v) => Ok(v),
            Err(e) => Err(BodyError::CouldNotDecode(e)),
        }
    } else {
        Err(BodyError::UnsupportedCodec)
    }
}

} // verus!
