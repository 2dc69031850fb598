//! DSN identities and their parser.

use vstd::prelude::*;
use vstd::string::*;
use crate::config::{KeyRing, KeyRingModel};
use crate::http::{first_value, Headers, HeaderModel, RequestUri, RequestUriModel};
use crate::text::{
    chars_of, contains_ended, ends_in, ends_with, first_group, first_group_of, is_lower_hex,
    last_segment, last_segment_start,
};

verus! {

/// The components of a DSN.
#[derive(Debug, Clone, PartialEq)]
pub struct Dsn {
    pub public_key: String,
    pub secret_key: String,
    pub project_id: String,
    pub host: String,
    pub scheme: String,
    pub path: String,
}

/// The mathematical model of a [`Dsn`].
pub struct DsnModel {
    pub public_key: Seq<char>,
    pub secret_key: Seq<char>,
    pub project_id: Seq<char>,
    pub host: Seq<char>,
    pub scheme: Seq<char>,
    pub path: Seq<char>,
}

impl View for Dsn {
    type V = DsnModel;

    open spec fn view(&self) -> DsnModel {
        DsnModel {
            public_key: self.public_key@,
            secret_key: self.secret_key@,
            project_id: self.project_id@,
            host: self.host@,
            scheme: self.scheme@,
            path: self.path@,
        }
    }
}

impl DeepView for Dsn {
    type V = DsnModel;

    open spec fn deep_view(&self) -> DsnModel {
        self@
    }
}

/// Why a string is not a DSN.
#[derive(Debug, Clone, Copy, PartialEq, Eq, Structural)]
pub enum DsnParseError {
    MissingPublicKey,
    MissingHost,
    MissingPath,
    MissingProjectId,
    InvalidUrl,
}

/// What a URL parser reports of an absolute URL.
#[derive(Debug, Clone)]
pub struct UrlParts {
    pub scheme: String,
    /// The user name of the user-info component, empty where there is none.
    pub username: String,
    pub password: Option<String>,
    pub host: Option<String>,
    /// The path, which begins with a separator unless the URL cannot be a
    /// base.
    pub path: String,
}

/// The mathematical model of [`UrlParts`].
pub struct UrlPartsModel {
    pub scheme: Seq<char>,
    pub username: Seq<char>,
    pub password: Option<Seq<char>>,
    pub host: Option<Seq<char>>,
    pub path: Seq<char>,
}

impl DeepView for UrlParts {
    type V = UrlPartsModel;

    open spec fn deep_view(&self) -> UrlPartsModel {
        UrlPartsModel {
            scheme: self.scheme@,
            username: self.username@,
            password: self.password.deep_view(),
            host: self.host.deep_view(),
            path: self.path@,
        }
    }
}

/// What `url::Url::parse` makes of `input`: the parts of the URL, or `None`
/// where it reports an error.
pub uninterp spec fn url_parts(input: Seq<char>) -> Option<UrlPartsModel>;

/// Calls `url::Url::parse` and copies out the scheme, user name, password,
/// host and path that the parsed URL reports. The result is a function of
/// the input alone; the empty string is no absolute URL.
#[verifier::external_body]
pub(crate) fn parse_url(input: &str) -> (r: Option<UrlParts>)
    ensures
        r.deep_view() == url_parts(input@),
        input@.len() == 0 ==> r is None,
{
    match url::Url::parse(input) {
        Ok(u) => Some(UrlParts {
            scheme: u.scheme().to_string(),
            username: u.username().to_string(),
            password: u.password().map(String::from),
            host: u.host_str().map(String::from),
            path: u.path().to_string(),
        }),
        Err(_) => None,
    }
}

/// Whether `segment` can stand for a project: it is neither empty nor a bare
/// separator.
pub open spec fn names_project(segment: Seq<char>) -> bool {
    segment.len() != 0 && segment != seq!['/']
}

/// Whether the segments of a path can be told: it begins with a separator.
pub open spec fn has_segments(path: Seq<char>) -> bool {
    path.len() > 0 && path[0] == '/'
}

/// Whether a DSN names a key and a project, as every parsed DSN does: the
/// key is not empty, and the project is a segment that is not empty, holds
/// no separator, and ends the path.
pub open spec fn is_dsn(d: DsnModel) -> bool {
    &&& d.public_key.len() > 0
    &&& d.project_id.len() > 0
    &&& !d.project_id.contains('/')
    &&& ends_with(d.path, d.project_id)
}

/// The DSN that the parts of a URL describe, or the reason there is none.
pub open spec fn dsn_of_parts(p: UrlPartsModel) -> Result<DsnModel, DsnParseError> {
    if p.username.len() == 0 {
        Err(DsnParseError::MissingPublicKey)
    } else if p.host is None {
        Err(DsnParseError::MissingHost)
    } else if !has_segments(p.path) {
        Err(DsnParseError::MissingPath)
    } else if !names_project(last_segment(p.path)) {
        Err(DsnParseError::MissingProjectId)
    } else {
        Ok(
            DsnModel {
                public_key: p.username,
                secret_key: match p.password {
                    Some(s) => s,
                    None => Seq::empty(),
                },
                project_id: last_segment(p.path),
                host: p.host->0,
                scheme: p.scheme,
                path: p.path,
            },
        )
    }
}

/// The DSN that a string denotes, or the reason it denotes none.
pub open spec fn dsn_of_string(input: Seq<char>) -> Result<DsnModel, DsnParseError> {
    match url_parts(input) {
        Some(p) => dsn_of_parts(p),
        None => Err(DsnParseError::InvalidUrl),
    }
}

/// Whether an outcome of parsing is the one that `expected` describes.
pub open spec fn parsed_as(r: Result<Dsn, DsnParseError>, expected: Result<DsnModel, DsnParseError>) -> bool {
    match r {
        Ok(d) => expected == Ok::<DsnModel, DsnParseError>(d@),
        Err(e) => expected == Err::<DsnModel, DsnParseError>(e),
    }
}

/// The canonical string of a DSN: scheme, keys, host and path.
pub open spec fn dsn_text(d: DsnModel) -> Seq<char> {
    let keys = if d.secret_key.len() == 0 {
        d.public_key
    } else {
        d.public_key + ":"@ + d.secret_key
    };
    d.scheme + "://"@ + keys + "@"@ + d.host + d.path
}

fn names_project_exec(segment: &str) -> (b: bool)
    ensures
        b == names_project(segment@),
{
    let n = segment.unicode_len();
    if n == 0 {
        false
    } else if n == 1 {
        let c = segment.get_char(0);
        assert(segment@ =~= seq![c]);
        c != '/'
    } else {
        true
    }
}

impl Dsn {
    /// Builds a DSN from the parts of a parsed URL. The project is the last
    /// segment of the path.
    pub fn from_parts(parts: UrlParts) -> (r: Result<Dsn, DsnParseError>)
        ensures
            parsed_as(r, dsn_of_parts(parts.deep_view())),
            r is Ok ==> is_dsn(r->Ok_0@),
    {
        let UrlParts { scheme, username, password, host, path } = parts;
        if username.as_str().is_empty() {
            return Err(DsnParseError::MissingPublicKey);
        }
        let secret_key = match password {
            Some(v) => v,
            None => String::new(),
        };
        let host = match host {
            Some(h) => h,
            None => return Err(DsnParseError::MissingHost),
        };
        let chars = chars_of(path.as_str());
        if chars.len() == 0 || chars[0] != '/' {
            return Err(DsnParseError::MissingPath);
        }
        let start = last_segment_start(&chars);
        let project_id = String::from_str(path.as_str().substring_char(start, chars.len()));
        assert(project_id@ =~= path@.skip(start as int));
        if !names_project_exec(project_id.as_str()) {
            return Err(DsnParseError::MissingProjectId);
        }
        assert(!project_id@.contains('/')) by {
            if project_id@.contains('/') {
                let j = choose|j: int| 0 <= j < project_id@.len() && project_id@[j] == '/';
                assert(path@[start + j] == '/');
            }
        }
        Ok(Dsn { public_key: username, secret_key, project_id, host, scheme, path })
    }

    /// Parses a DSN from its URL form.
    pub fn from_string(input: String) -> (r: Result<Dsn, DsnParseError>)
        ensures
            parsed_as(r, dsn_of_string(input@)),
            r is Ok ==> is_dsn(r->Ok_0@),
            input@.len() == 0 ==> (r matches Err(e) && e == DsnParseError::InvalidUrl),
    {
        match parse_url(input.as_str()) {
            Some(parts) => Dsn::from_parts(parts),
            None => Err(DsnParseError::InvalidUrl),
        }
    }

    /// The identity under which this DSN is registered and looked up.
    pub fn key_id(&self) -> (id: String)
        ensures
            id@ == self@.public_key,
    {
        self.public_key.clone()
    }

    /// The canonical string of this DSN.
    pub fn to_string(&self) -> (s: String)
        ensures
            s@ == dsn_text(self@),
    {
        let mut s = self.scheme.clone();
        s.append("://");
        s.append(self.public_key.as_str());
        if !self.secret_key.as_str().is_empty() {
            s.append(":");
            s.append(self.secret_key.as_str());
        }
        s.append("@");
        s.append(self.host.as_str());
        s.append(self.path.as_str());
        s
    }
}

/// The last segment of a path holds no separator and ends the path.
pub proof fn lemma_last_segment(path: Seq<char>)
    ensures
        !last_segment(path).contains('/'),
        ends_with(path, last_segment(path)),
    decreases path.len(),
{
    let segment = last_segment(path);
    if path.len() == 0 || path.last() == '/' {
        assert(path.skip(path.len() - segment.len()) =~= segment);
    } else {
        let init = path.drop_last();
        lemma_last_segment(init);
        if segment.contains('/') {
            let j = choose|j: int| 0 <= j < segment.len() && segment[j] == '/';
            assert(last_segment(init)[j] == '/');
        }
        assert(path.skip(path.len() - segment.len()) =~= init.skip(
            init.len() - last_segment(init).len(),
        ).push(path.last()));
    }
}

/// A URL with user-info, a host and a path whose last segment is not empty
/// is a DSN: its project is that segment and its public key the user name.
pub proof fn lemma_parse_valid(input: Seq<char>)
    requires
        url_parts(input) is Some,
        url_parts(input)->0.username.len() > 0,
        url_parts(input)->0.host is Some,
        has_segments(url_parts(input)->0.path),
        last_segment(url_parts(input)->0.path).len() > 0,
    ensures
        dsn_of_string(input) is Ok,
        is_dsn(dsn_of_string(input)->Ok_0),
        dsn_of_string(input)->Ok_0.project_id == last_segment(url_parts(input)->0.path),
        dsn_of_string(input)->Ok_0.public_key == url_parts(input)->0.username,
{
    lemma_last_segment(url_parts(input)->0.path);
    let segment = last_segment(url_parts(input)->0.path);
    if segment == seq!['/'] {
        assert(segment[0] == '/');
    }
}

/// A URL without user-info is no DSN: its public key is missing.
pub proof fn lemma_parse_without_user(input: Seq<char>)
    requires
        url_parts(input) is Some,
        url_parts(input)->0.username.len() == 0,
    ensures
        dsn_of_string(input) == Err::<DsnModel, DsnParseError>(DsnParseError::MissingPublicKey),
{
}

/// Parsing is a function of its input: two outcomes for one string agree on
/// success, and their DSNs have the same key identity, the public key.
pub proof fn lemma_key_id_deterministic(
    input: Seq<char>,
    first: Result<Dsn, DsnParseError>,
    second: Result<Dsn, DsnParseError>,
)
    requires
        parsed_as(first, dsn_of_string(input)),
        parsed_as(second, dsn_of_string(input)),
    ensures
        first is Ok <==> second is Ok,
        first is Ok ==> first->Ok_0@ == second->Ok_0@ && first->Ok_0@.public_key == dsn_of_string(
            input,
        )->Ok_0.public_key,
        first is Err ==> first->Err_0 == second->Err_0,
{
}

/// The header that carries the credentials of an SDK.
pub const SENTRY_X_AUTH_HEADER: &'static str = "X-Sentry-Auth";

/// The standard header that may carry them instead.
pub const AUTHORIZATION_HEADER: &'static str = "Authorization";

/// The pattern that finds a key: the marker and 32 lower-case hex digits
/// after which the text ends or goes on with something else.
pub const KEY_PATTERN: &'static str = "sentry_key=([a-f0-9]{32})(?:[^a-f0-9]|$)";

/// Whether `s` has the form of a public key: 32 lower-case hex digits.
pub open spec fn is_key(s: Seq<char>) -> bool {
    s.len() == 32 && forall|i: int| 0 <= i < 32 ==> is_lower_hex(#[trigger] s[i])
}

/// The one text of a request in which a key is looked for: a query that is
/// not empty, else the first of the two credential headers that is present.
pub open spec fn key_source(uri: RequestUriModel, headers: Seq<HeaderModel>) -> Seq<char> {
    if uri.query is Some && uri.query->0.len() > 0 {
        uri.query->0
    } else if first_value(headers, SENTRY_X_AUTH_HEADER@) is Some {
        first_value(headers, SENTRY_X_AUTH_HEADER@)->0
    } else if first_value(headers, AUTHORIZATION_HEADER@) is Some {
        first_value(headers, AUTHORIZATION_HEADER@)->0
    } else {
        Seq::empty()
    }
}

/// Where a key is looked for: a query that is not empty hides the headers,
/// and the first credential header hides the second.
pub proof fn lemma_key_source_precedence(uri: RequestUriModel, headers: Seq<HeaderModel>)
    ensures
        uri.query is Some && uri.query->0.len() > 0 ==> key_source(uri, headers) == uri.query->0,
        (uri.query is None || uri.query->0.len() == 0) && first_value(
            headers,
            SENTRY_X_AUTH_HEADER@,
        ) is Some ==> key_source(uri, headers) == first_value(headers, SENTRY_X_AUTH_HEADER@)->0,
        (uri.query is None || uri.query->0.len() == 0) && first_value(
            headers,
            SENTRY_X_AUTH_HEADER@,
        ) is None && first_value(headers, AUTHORIZATION_HEADER@) is Some ==> key_source(
            uri,
            headers,
        ) == first_value(headers, AUTHORIZATION_HEADER@)->0,
        (uri.query is None || uri.query->0.len() == 0) && first_value(
            headers,
            SENTRY_X_AUTH_HEADER@,
        ) is None && first_value(headers, AUTHORIZATION_HEADER@) is None ==> key_in(
            key_source(uri, headers),
        ) is None,
        key_in(key_source(uri, headers)) is Some ==> is_key(key_in(key_source(uri, headers))->0),
{
}

/// The marker that precedes a key.
pub const KEY_MARKER: &'static str = "sentry_key=";

/// What is made of a candidate that the pattern engine found in `source`: it
/// is the key if it has the form of one and stands in `source` right after
/// the marker, with no further hex digit behind it. A run of more than 32
/// digits is no key.
pub open spec fn accepted(candidate: Option<Seq<char>>, source: Seq<char>) -> Option<Seq<char>> {
    match candidate {
        Some(k) => if is_key(k) && ends_in(KEY_MARKER@ + k, source) {
            Some(k)
        } else {
            None
        },
        None => None,
    }
}

/// The key that `source` holds: none in an empty text, else the accepted
/// first match of the key pattern.
pub open spec fn key_in(source: Seq<char>) -> Option<Seq<char>> {
    if source.len() == 0 {
        None
    } else {
        accepted(first_group_of(KEY_PATTERN@, source), source)
    }
}

fn is_key_exec(k: &str) -> (b: bool)
    ensures
        b == is_key(k@),
{
    let c = chars_of(k);
    if c.len() != 32 {
        return false;
    }
    let mut i: usize = 0;
    while i < 32
        invariant
            c@ == k@,
            c.len() == 32,
            i <= 32,
            forall|j: int| 0 <= j < i ==> is_lower_hex(#[trigger] k@[j]),
        decreases 32 - i,
    {
        let d = c[i];
        if !(('0' <= d && d <= '9') || ('a' <= d && d <= 'f')) {
            assert(!is_lower_hex(k@[i as int]));
            return false;
        }
        i += 1;
    }
    true
}

/// Keeps a candidate only if it is exactly 32 lower-case hex digits that
/// follow the marker somewhere in `source`: no digit more may follow them
/// there.
pub fn accept_key(candidate: Option<String>, source: &str) -> (r: Option<String>)
    ensures
        r.deep_view() == accepted(candidate.deep_view(), source@),
        r is Some ==> r == candidate && is_key(r->0@) && ends_in(KEY_MARKER@ + r->0@, source@),
{
    match candidate {
        Some(k) => {
            if !is_key_exec(k.as_str()) {
                return None;
            }
            let mut marked = String::from_str(KEY_MARKER);
            marked.append(k.as_str());
            let part = chars_of(marked.as_str());
            let text = chars_of(source);
            if contains_ended(&text, &part) {
                Some(k)
            } else {
                None
            }
        },
        None => None,
    }
}

/// Looks for a key in one text.
pub fn find_key(source: &str) -> (r: Option<String>)
    ensures
        r.deep_view() == key_in(source@),
        r is Some ==> is_key(r->0@) && ends_in(KEY_MARKER@ + r->0@, source@),
{
    if source.is_empty() {
        None
    } else {
        accept_key(first_group(KEY_PATTERN, source), source)
    }
}

/// Finds the public key that an incoming request was signed with: in its
/// query if it has one, else in the first credential header that is present.
pub fn from_request(uri: &RequestUri, headers: &Headers) -> (r: Option<String>)
    ensures
        r.deep_view() == key_in(key_source(uri@, headers@)),
        r is Some ==> is_key(r->0@) && ends_in(
            KEY_MARKER@ + r->0@,
            key_source(uri@, headers@),
        ),
{
    match &uri.query {
        Some(q) => {
            if !q.as_str().is_empty() {
                return find_key(q.as_str());
            }
        },
        None => {},
    }
    match headers.get(SENTRY_X_AUTH_HEADER) {
        Some(v) => find_key(v.as_str()),
        None => match headers.get(AUTHORIZATION_HEADER) {
            Some(v) => find_key(v.as_str()),
            None => None,
        },
    }
}

/// One inbound DSN and the outbound DSNs that its traffic is mirrored to.
#[derive(Debug, PartialEq)]
pub struct DsnKeyRing {
    pub inbound: Dsn,
    pub outbound: Vec<Dsn>,
}

/// The mathematical model of a [`DsnKeyRing`].
pub struct DsnKeyRingModel {
    pub inbound: DsnModel,
    pub outbound: Seq<DsnModel>,
}

impl DeepView for DsnKeyRing {
    type V = DsnKeyRingModel;

    open spec fn deep_view(&self) -> DsnKeyRingModel {
        DsnKeyRingModel { inbound: self.inbound@, outbound: self.outbound.deep_view() }
    }
}

/// The map that a list of key rings stands for: each ring under the public
/// key of its inbound DSN, a later ring in place of an earlier one.
pub open spec fn ring_map(rings: Seq<DsnKeyRingModel>) -> Map<Seq<char>, DsnKeyRingModel>
    decreases rings.len(),
{
    if rings.len() == 0 {
        Map::empty()
    } else {
        ring_map(rings.drop_last()).insert(rings.last().inbound.public_key, rings.last())
    }
}

/// Whether no two rings share the public key of their inbound DSN.
pub open spec fn distinct_keys(rings: Seq<DsnKeyRingModel>) -> bool {
    forall|i: int, j: int|
        0 <= i < j < rings.len() ==> rings[i].inbound.public_key != rings[j].inbound.public_key
}

/// Under distinct keys every ring is found in the map under its key, the
/// map has no other keys, and it has as many keys as there are rings.
pub proof fn lemma_ring_map(rings: Seq<DsnKeyRingModel>)
    requires
        distinct_keys(rings),
    ensures
        forall|i: int|
            0 <= i < rings.len() ==> ring_map(rings).contains_key(
                #[trigger] rings[i].inbound.public_key,
            ) && ring_map(rings)[rings[i].inbound.public_key] == rings[i],
        forall|k: Seq<char>| #[trigger]
            ring_map(rings).contains_key(k) ==> exists|i: int|
                0 <= i < rings.len() && #[trigger] rings[i].inbound.public_key == k,
        ring_map(rings).dom().finite(),
        ring_map(rings).dom().len() == rings.len(),
    decreases rings.len(),
{
    if rings.len() > 0 {
        let init = rings.drop_last();
        let e = rings.last();
        lemma_ring_map(init);
        assert forall|k: Seq<char>| #[trigger] ring_map(rings).contains_key(k) implies exists|
            i: int,
        |
            0 <= i < rings.len() && #[trigger] rings[i].inbound.public_key == k by {
            if k == e.inbound.public_key {
                assert(rings[rings.len() - 1].inbound.public_key == k);
            } else {
                let i = choose|i: int|
                    0 <= i < init.len() && #[trigger] init[i].inbound.public_key == k;
                assert(rings[i].inbound.public_key == k);
            }
        }
        if ring_map(init).contains_key(e.inbound.public_key) {
            let i = choose|i: int|
                0 <= i < init.len() && #[trigger] init[i].inbound.public_key
                    == e.inbound.public_key;
            assert(rings[i].inbound.public_key == rings[rings.len() - 1].inbound.public_key);
        }
        assert(ring_map(rings).dom() =~= ring_map(init).dom().insert(e.inbound.public_key));
        assert forall|i: int| 0 <= i < rings.len() implies ring_map(rings).contains_key(
            #[trigger] rings[i].inbound.public_key,
        ) && ring_map(rings)[rings[i].inbound.public_key] == rings[i] by {
            if i < init.len() {
                assert(init[i] == rings[i]);
                assert(rings[i].inbound.public_key != rings[rings.len() - 1].inbound.public_key);
            }
        }
    }
}

/// Every ring of the map stands under the public key of its inbound DSN.
pub proof fn lemma_ring_map_keys(rings: Seq<DsnKeyRingModel>, k: Seq<char>)
    requires
        ring_map(rings).contains_key(k),
    ensures
        ring_map(rings)[k].inbound.public_key == k,
    decreases rings.len(),
{
    if rings.len() > 0 && rings.last().inbound.public_key != k {
        lemma_ring_map_keys(rings.drop_last(), k);
    }
}

/// Replacing the ring that holds a key is an insertion under that key.
pub proof fn lemma_ring_map_update(rings: Seq<DsnKeyRingModel>, i: int, ring: DsnKeyRingModel)
    requires
        distinct_keys(rings),
        0 <= i < rings.len(),
        rings[i].inbound.public_key == ring.inbound.public_key,
    ensures
        ring_map(rings.update(i, ring)) == ring_map(rings).insert(ring.inbound.public_key, ring),
        distinct_keys(rings.update(i, ring)),
    decreases rings.len(),
{
    let init = rings.drop_last();
    let e = rings.last();
    let k = ring.inbound.public_key;
    if i == rings.len() - 1 {
        assert(rings.update(i, ring).drop_last() =~= init);
        assert(ring_map(rings.update(i, ring)) =~= ring_map(rings).insert(k, ring));
    } else {
        lemma_ring_map_update(init, i, ring);
        assert(rings.update(i, ring).drop_last() =~= init.update(i, ring));
        assert(rings[i].inbound.public_key != rings[rings.len() - 1].inbound.public_key);
        assert(ring_map(rings.update(i, ring)) =~= ring_map(rings).insert(k, ring));
    }
}

/// The key rings that requests are matched against, each under the public
/// key of its inbound DSN. No two rings share a key.
#[derive(Debug)]
pub struct Registry {
    rings: Vec<DsnKeyRing>,
}

impl View for Registry {
    type V = Map<Seq<char>, DsnKeyRingModel>;

    closed spec fn view(&self) -> Map<Seq<char>, DsnKeyRingModel> {
        ring_map(self.rings.deep_view())
    }
}

impl Registry {
    #[verifier::type_invariant]
    spec fn inv(self) -> bool {
        distinct_keys(self.rings.deep_view())
    }

    /// Every ring of a registry is found under the public key of its inbound
    /// DSN and under no other.
    pub proof fn lemma_keyed_by_inbound(&self, k: Seq<char>)
        requires
            self@.contains_key(k),
        ensures
            self@[k].inbound.public_key == k,
    {
        lemma_ring_map_keys(self.rings.deep_view(), k);
    }

    /// A registry without rings.
    pub fn new() -> (r: Registry)
        ensures
            r@ == Map::<Seq<char>, DsnKeyRingModel>::empty(),
    {
        let rings: Vec<DsnKeyRing> = Vec::new();
        Registry { rings }
    }

    /// The number of keys.
    pub fn len(&self) -> (n: usize)
        ensures
            self@.dom().finite(),
            n == self@.dom().len(),
    {
        proof {
            use_type_invariant(self);
            lemma_ring_map(self.rings.deep_view());
        }
        self.rings.len()
    }

    fn position(&self, key: &String) -> (r: Option<usize>)
        ensures
            match r {
                Some(i) => i < self.rings.len() && self.rings[i as int].inbound.public_key@ == key@,
                None => forall|j: int|
                    0 <= j < self.rings.len() ==> (#[trigger] self.rings[j]).inbound.public_key@
                        != key@,
            },
    {
        let mut i: usize = 0;
        while i < self.rings.len()
            invariant
                i <= self.rings.len(),
                forall|j: int|
                    0 <= j < i ==> (#[trigger] self.rings[j]).inbound.public_key@ != key@,
            decreases self.rings.len() - i,
        {
            if self.rings[i].inbound.public_key == *key {
                return Some(i);
            }
            i += 1;
        }
        None
    }

    /// The ring that is registered under `key`.
    pub fn get(&self, key: &str) -> (r: Option<&DsnKeyRing>)
        ensures
            match r {
                Some(ring) => self@.contains_key(key@) && self@[key@] == ring.deep_view()
                    && ring.inbound@.public_key == key@,
                None => !self@.contains_key(key@),
            },
    {
        proof {
            use_type_invariant(self);
            lemma_ring_map(self.rings.deep_view());
        }
        let wanted = String::from_str(key);
        match self.position(&wanted) {
            Some(i) => {
                assert(self.rings.deep_view()[i as int] == self.rings[i as int].deep_view());
                Some(&self.rings[i])
            },
            None => {
                assert forall|j: int| 0 <= j < self.rings.len() implies (
                #[trigger] self.rings.deep_view()[j]).inbound.public_key != key@ by {
                    assert(self.rings[j].inbound.public_key@ != key@);
                }
                None
            },
        }
    }

    /// Registers `ring` under the public key of its inbound DSN, in place of
    /// a ring that was registered under that key.
    pub fn insert(&mut self, ring: DsnKeyRing)
        ensures
            final(self)@ == old(self)@.insert(ring.inbound@.public_key, ring.deep_view()),
    {
        proof {
            use_type_invariant(&*self);
        }
        let found = self.position(&ring.inbound.public_key);
        let mut taken = Registry::new();
        std::mem::swap(self, &mut taken);
        let Registry { rings } = taken;
        let mut rings = rings;
        let ghost before = rings.deep_view();
        let ghost model = ring.deep_view();
        match found {
            Some(i) => {
                assert(before[i as int] == rings[i as int].deep_view());
                proof {
                    lemma_ring_map_update(before, i as int, model);
                }
                rings[i] = ring;
                assert(rings.deep_view() =~= before.update(i as int, model));
            },
            None => {
                rings.push(ring);
                assert(rings.deep_view() =~= before.push(model));
                assert(before.push(model).drop_last() =~= before);
                assert forall|a: int, b: int| 0 <= a < b < rings.deep_view().len() implies rings.deep_view()[a].inbound.public_key
                    != rings.deep_view()[b].inbound.public_key by {
                    if b == before.len() {
                        assert(old(self).rings[a].inbound.public_key@ != model.inbound.public_key);
                    }
                }
            },
        }
        *self = Registry { rings };
    }
}

/// Why a configuration yields no registry.
#[derive(Debug, Clone, Copy, PartialEq, Eq, Structural)]
pub enum KeyMapError {
    /// An entry has no inbound DSN.
    MissingInbound,
    /// The inbound DSN of an entry does not parse.
    InvalidInbound(DsnParseError),
    /// An outbound DSN of an entry does not parse.
    InvalidOutbound(DsnParseError),
}

/// The outbound DSNs of an entry: absent ones are left out, and the first
/// that does not parse fails the entry.
pub open spec fn outbound_of(entries: Seq<Option<Seq<char>>>) -> Result<Seq<DsnModel>, KeyMapError>
    decreases entries.len(),
{
    if entries.len() == 0 {
        Ok(Seq::empty())
    } else {
        match outbound_of(entries.drop_last()) {
            Err(e) => Err(e),
            Ok(ds) => match entries.last() {
                None => Ok(ds),
                Some(s) => match dsn_of_string(s) {
                    Ok(d) => Ok(ds.push(d)),
                    Err(e) => Err(KeyMapError::InvalidOutbound(e)),
                },
            },
        }
    }
}

/// The key ring that a configuration entry describes.
pub open spec fn ring_of(entry: KeyRingModel) -> Result<DsnKeyRingModel, KeyMapError> {
    match entry.inbound {
        None => Err(KeyMapError::MissingInbound),
        Some(s) => match dsn_of_string(s) {
            Err(e) => Err(KeyMapError::InvalidInbound(e)),
            Ok(inbound) => match outbound_of(entry.outbound) {
                Err(e) => Err(e),
                Ok(outbound) => Ok(DsnKeyRingModel { inbound, outbound }),
            },
        },
    }
}

/// The registry that a configuration describes: the rings of its entries in
/// order, a later one in place of an earlier one with the same key; the
/// error of the first entry that describes no ring.
pub open spec fn key_map_of(keys: Seq<KeyRingModel>) -> Result<
    Map<Seq<char>, DsnKeyRingModel>,
    KeyMapError,
>
    decreases keys.len(),
{
    if keys.len() == 0 {
        Ok(Map::empty())
    } else {
        match key_map_of(keys.drop_last()) {
            Err(e) => Err(e),
            Ok(m) => match ring_of(keys.last()) {
                Err(e) => Err(e),
                Ok(r) => Ok(m.insert(r.inbound.public_key, r)),
            },
        }
    }
}

/// Looking up what was configured: in the registry of a configuration the
/// ring of an entry stands under the public key of its inbound DSN, unless a
/// later entry has the same key.
pub proof fn lemma_key_map_lookup(keys: Seq<KeyRingModel>, i: int)
    requires
        key_map_of(keys) is Ok,
        0 <= i < keys.len(),
        forall|j: int|
            i < j < keys.len() && ring_of(#[trigger] keys[j]) is Ok ==> ring_of(
                keys[j],
            )->Ok_0.inbound.public_key != ring_of(keys[i])->Ok_0.inbound.public_key,
    ensures
        ring_of(keys[i]) is Ok,
        key_map_of(keys)->Ok_0.contains_key(ring_of(keys[i])->Ok_0.inbound.public_key),
        key_map_of(keys)->Ok_0[ring_of(keys[i])->Ok_0.inbound.public_key] == ring_of(
            keys[i],
        )->Ok_0,
    decreases keys.len(),
{
    let init = keys.drop_last();
    if i < keys.len() - 1 {
        assert(init[i] == keys[i]);
        assert forall|j: int| i < j < init.len() && ring_of(#[trigger] init[j]) is Ok implies ring_of(
            init[j],
        )->Ok_0.inbound.public_key != ring_of(init[i])->Ok_0.inbound.public_key by {
            assert(init[j] == keys[j]);
        }
        lemma_key_map_lookup(init, i);
        assert(ring_of(keys[keys.len() - 1]) is Ok);
    }
}

/// Whether an outcome of building a ring is the one that `expected`
/// describes.
pub open spec fn ring_built_as(
    r: Result<DsnKeyRing, KeyMapError>,
    expected: Result<DsnKeyRingModel, KeyMapError>,
) -> bool {
    match r {
        Ok(ring) => expected == Ok::<DsnKeyRingModel, KeyMapError>(ring.deep_view()),
        Err(e) => expected == Err::<DsnKeyRingModel, KeyMapError>(e),
    }
}

/// Whether an outcome of building a registry is the one that `expected`
/// describes.
pub open spec fn registry_built_as(
    r: Result<Registry, KeyMapError>,
    expected: Result<Map<Seq<char>, DsnKeyRingModel>, KeyMapError>,
) -> bool {
    match r {
        Ok(registry) => expected == Ok::<Map<Seq<char>, DsnKeyRingModel>, KeyMapError>(registry@),
        Err(e) => expected == Err::<Map<Seq<char>, DsnKeyRingModel>, KeyMapError>(e),
    }
}

/// Parses the DSNs of one configuration entry.
pub fn make_key_ring(entry: &KeyRing) -> (r: Result<DsnKeyRing, KeyMapError>)
    ensures
        ring_built_as(r, ring_of(entry.deep_view())),
{
    let inbound = match &entry.inbound {
        None => {
            return Err(KeyMapError::MissingInbound);
        },
        Some(s) => match Dsn::from_string(s.clone()) {
            Ok(d) => d,
            Err(e) => {
                return Err(KeyMapError::InvalidInbound(e));
            },
        },
    };
    let mut outbound: Vec<Dsn> = Vec::new();
    let mut i: usize = 0;
    let ghost entries = entry.deep_view().outbound;
    assert(outbound.deep_view() =~= Seq::<DsnModel>::empty());
    while i < entry.outbound.len()
        invariant
            i <= entry.outbound.len(),
            entries == entry.deep_view().outbound,
            entry.inbound is Some,
            dsn_of_string(entry.inbound->0@) == Ok::<DsnModel, DsnParseError>(inbound@),
            outbound_of(entries.take(i as int)) == Ok::<Seq<DsnModel>, KeyMapError>(
                outbound.deep_view(),
            ),
        decreases entry.outbound.len() - i,
    {
        assert(entries.take(i + 1).drop_last() =~= entries.take(i as int));
        let ghost before = outbound.deep_view();
        match &entry.outbound[i] {
            None => {},
            Some(s) => match Dsn::from_string(s.clone()) {
                Ok(d) => {
                    outbound.push(d);
                    assert(outbound.deep_view() =~= before.push(d@));
                },
                Err(e) => {
                    proof {
                        lemma_outbound_fails(entries, i + 1);
                    }
                    return Err(KeyMapError::InvalidOutbound(e));
                },
            },
        }
        i += 1;
    }
    assert(entries.take(i as int) =~= entries);
    Ok(DsnKeyRing { inbound, outbound })
}

/// A list of outbound entries fails as its first failing prefix does.
pub proof fn lemma_outbound_fails(entries: Seq<Option<Seq<char>>>, n: int)
    requires
        0 <= n <= entries.len(),
        outbound_of(entries.take(n)) is Err,
    ensures
        outbound_of(entries) == outbound_of(entries.take(n)),
    decreases entries.len(),
{
    if n < entries.len() {
        assert(entries.drop_last().take(n) =~= entries.take(n));
        lemma_outbound_fails(entries.drop_last(), n);
    } else {
        assert(entries.take(n) =~= entries);
    }
}

/// A configuration fails as its first failing prefix does.
pub proof fn lemma_key_map_fails(keys: Seq<KeyRingModel>, n: int)
    requires
        0 <= n <= keys.len(),
        key_map_of(keys.take(n)) is Err,
    ensures
        key_map_of(keys) == key_map_of(keys.take(n)),
    decreases keys.len(),
{
    if n < keys.len() {
        assert(keys.drop_last().take(n) =~= keys.take(n));
        lemma_key_map_fails(keys.drop_last(), n);
    } else {
        assert(keys.take(n) =~= keys);
    }
}

/// Builds the registry of a configuration, or says what is wrong with the
/// first entry that cannot be used.
pub fn try_make_key_map(keys: Vec<KeyRing>) -> (r: Result<Registry, KeyMapError>)
    ensures
        registry_built_as(r, key_map_of(keys.deep_view())),
{
    let mut i: usize = 0;
    let ghost all = keys.deep_view();
    while i < keys.len()
        invariant
            i <= keys.len(),
            all == keys.deep_view(),
            key_map_of(all.take(i as int)) is Ok,
        decreases keys.len() - i,
    {
        assert(all.take(i + 1).drop_last() =~= all.take(i as int));
        match make_key_ring(&keys[i]) {
            Ok(_) => {},
            Err(e) => {
                proof {
                    lemma_key_map_fails(all, i + 1);
                }
                return Err(e);
            },
        }
        i += 1;
    }
    assert(all.take(i as int) =~= all);
    Ok(make_key_map(keys))
}

/// Converts the key rings of a configuration into the registry that requests
/// are matched against. Every entry must have an inbound DSN, and every DSN
/// that is present must parse.
pub fn make_key_map(keys: Vec<KeyRing>) -> (r: Registry)
    requires
        key_map_of(keys.deep_view()) is Ok,
    ensures
        Ok::<Map<Seq<char>, DsnKeyRingModel>, KeyMapError>(r@) == key_map_of(keys.deep_view()),
{
    let mut keymap = Registry::new();
    let mut i: usize = 0;
    let ghost all = keys.deep_view();
    while i < keys.len()
        invariant
            i <= keys.len(),
            all == keys.deep_view(),
            key_map_of(all) is Ok,
            key_map_of(all.take(i as int)) == Ok::<Map<Seq<char>, DsnKeyRingModel>, KeyMapError>(
                keymap@,
            ),
        decreases keys.len() - i,
    {
        assert(all.take(i + 1).drop_last() =~= all.take(i as int));
        match make_key_ring(&keys[i]) {
            Ok(ring) => {
                keymap.insert(ring);
            },
            Err(_) => {
                proof {
                    lemma_key_map_fails(all, i + 1);
                }
                vstd::pervasive::unreached::<()>();
            },
        }
        i += 1;
    }
    assert(all.take(i as int) =~= all);
    keymap
}

} // verus!
