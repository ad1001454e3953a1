//! The HTTP gateway's decisions: which route a request hits, which id it
//! addresses, and what each handler answers. The gateway itself is thin
//! glue around I/O; everything it decides — route matching, id extraction,
//! error mapping, the cross-origin policy — is a pure function here, so the
//! runtime around it only moves bytes.

use vstd::prelude::*;

use crate::codec::{enc_ratings, encode_ratings, spec_decode, decode_ratings};
use crate::model::CompetencyRating;
use crate::registry::{bytes_eq, stored_or_empty, ActorRegistry};
use crate::actor::effective_record;

verus! {


/// The bytes of `/`.
pub open spec fn lit_path_root() -> Seq<u8> {
    seq![47u8]
}

/// The bytes of `/worker-version`.
pub open spec fn lit_path_version() -> Seq<u8> {
    seq![47u8, 119, 111, 114, 107, 101, 114, 45, 118, 101, 114, 115, 105, 111, 110]
}

/// The bytes of `/competency/`.
pub open spec fn lit_path_store() -> Seq<u8> {
    seq![47u8, 99, 111, 109, 112, 101, 116, 101, 110, 99, 121, 47]
}

/// The bytes of `/competencyrating/`.
pub open spec fn lit_path_actor() -> Seq<u8> {
    seq![47u8, 99, 111, 109, 112, 101, 116, 101, 110, 99, 121, 114, 97, 116, 105, 110, 103, 47]
}

/// The bytes of `Ok`.
pub open spec fn lit_body_ok() -> Seq<u8> {
    seq![79u8, 107]
}

/// The bytes of `Not found`.
pub open spec fn lit_body_not_found() -> Seq<u8> {
    seq![78u8, 111, 116, 32, 102, 111, 117, 110, 100]
}

/// The bytes of `Bad request`.
pub open spec fn lit_body_bad_request() -> Seq<u8> {
    seq![66u8, 97, 100, 32, 114, 101, 113, 117, 101, 115, 116]
}

/// The bytes of `Method not allowed`.
pub open spec fn lit_body_method_not_allowed() -> Seq<u8> {
    seq![77u8, 101, 116, 104, 111, 100, 32, 110, 111, 116, 32, 97, 108, 108, 111, 119, 101, 100]
}

/// The bytes of `Upstream failure`.
pub open spec fn lit_body_upstream_failure() -> Seq<u8> {
    seq![85u8, 112, 115, 116, 114, 101, 97, 109, 32, 102, 97, 105, 108, 117, 114, 101]
}

/// The bytes of `*`.
pub open spec fn lit_cors_origin() -> Seq<u8> {
    seq![42u8]
}

/// The bytes of `GET, HEAD, POST, OPTIONS`.
pub open spec fn lit_cors_methods() -> Seq<u8> {
    seq![71u8, 69, 84, 44, 32, 72, 69, 65, 68, 44, 32, 80, 79, 83, 84, 44, 32, 79, 80, 84, 73, 79, 78, 83]
}

fn path_root_bytes() -> (v: Vec<u8>)
    ensures
        v@ == lit_path_root(),
{
    let mut v: Vec<u8> = Vec::new();
    v.push(47);
    proof {
        assert(v@ =~= lit_path_root());
    }
    v
}

fn path_version_bytes() -> (v: Vec<u8>)
    ensures
        v@ == lit_path_version(),
{
    let mut v: Vec<u8> = Vec::new();
    v.push(47);
    v.push(119);
    v.push(111);
    v.push(114);
    v.push(107);
    v.push(101);
    v.push(114);
    v.push(45);
    v.push(118);
    v.push(101);
    v.push(114);
    v.push(115);
    v.push(105);
    v.push(111);
    v.push(110);
    proof {
        assert(v@ =~= lit_path_version());
    }
    v
}

fn path_store_bytes() -> (v: Vec<u8>)
    ensures
        v@ == lit_path_store(),
{
    let mut v: Vec<u8> = Vec::new();
    v.push(47);
    v.push(99);
    v.push(111);
    v.push(109);
    v.push(112);
    v.push(101);
    v.push(116);
    v.push(101);
    v.push(110);
    v.push(99);
    v.push(121);
    v.push(47);
    proof {
        assert(v@ =~= lit_path_store());
    }
    v
}

fn path_actor_bytes() -> (v: Vec<u8>)
    ensures
        v@ == lit_path_actor(),
{
    let mut v: Vec<u8> = Vec::new();
    v.push(47);
    v.push(99);
    v.push(111);
    v.push(109);
    v.push(112);
    v.push(101);
    v.push(116);
    v.push(101);
    v.push(110);
    v.push(99);
    v.push(121);
    v.push(114);
    v.push(97);
    v.push(116);
    v.push(105);
    v.push(110);
    v.push(103);
    v.push(47);
    proof {
        assert(v@ =~= lit_path_actor());
    }
    v
}

pub fn body_ok_bytes() -> (v: Vec<u8>)
    ensures
        v@ == lit_body_ok(),
{
    let mut v: Vec<u8> = Vec::new();
    v.push(79);
    v.push(107);
    proof {
        assert(v@ =~= lit_body_ok());
    }
    v
}

pub fn body_not_found_bytes() -> (v: Vec<u8>)
    ensures
        v@ == lit_body_not_found(),
{
    let mut v: Vec<u8> = Vec::new();
    v.push(78);
    v.push(111);
    v.push(116);
    v.push(32);
    v.push(102);
    v.push(111);
    v.push(117);
    v.push(110);
    v.push(100);
    proof {
        assert(v@ =~= lit_body_not_found());
    }
    v
}

pub fn body_bad_request_bytes() -> (v: Vec<u8>)
    ensures
        v@ == lit_body_bad_request(),
{
    let mut v: Vec<u8> = Vec::new();
    v.push(66);
    v.push(97);
    v.push(100);
    v.push(32);
    v.push(114);
    v.push(101);
    v.push(113);
    v.push(117);
    v.push(101);
    v.push(115);
    v.push(116);
    proof {
        assert(v@ =~= lit_body_bad_request());
    }
    v
}

pub fn body_method_not_allowed_bytes() -> (v: Vec<u8>)
    ensures
        v@ == lit_body_method_not_allowed(),
{
    let mut v: Vec<u8> = Vec::new();
    v.push(77);
    v.push(101);
    v.push(116);
    v.push(104);
    v.push(111);
    v.push(100);
    v.push(32);
    v.push(110);
    v.push(111);
    v.push(116);
    v.push(32);
    v.push(97);
    v.push(108);
    v.push(108);
    v.push(111);
    v.push(119);
    v.push(101);
    v.push(100);
    proof {
        assert(v@ =~= lit_body_method_not_allowed());
    }
    v
}

pub fn body_upstream_failure_bytes() -> (v: Vec<u8>)
    ensures
        v@ == lit_body_upstream_failure(),
{
    let mut v: Vec<u8> = Vec::new();
    v.push(85);
    v.push(112);
    v.push(115);
    v.push(116);
    v.push(114);
    v.push(101);
    v.push(97);
    v.push(109);
    v.push(32);
    v.push(102);
    v.push(97);
    v.push(105);
    v.push(108);
    v.push(117);
    v.push(114);
    v.push(101);
    proof {
        assert(v@ =~= lit_body_upstream_failure());
    }
    v
}

pub fn cors_origin_bytes() -> (v: Vec<u8>)
    ensures
        v@ == lit_cors_origin(),
{
    let mut v: Vec<u8> = Vec::new();
    v.push(42);
    proof {
        assert(v@ =~= lit_cors_origin());
    }
    v
}

pub fn cors_methods_bytes() -> (v: Vec<u8>)
    ensures
        v@ == lit_cors_methods(),
{
    let mut v: Vec<u8> = Vec::new();
    v.push(71);
    v.push(69);
    v.push(84);
    v.push(44);
    v.push(32);
    v.push(72);
    v.push(69);
    v.push(65);
    v.push(68);
    v.push(44);
    v.push(32);
    v.push(80);
    v.push(79);
    v.push(83);
    v.push(84);
    v.push(44);
    v.push(32);
    v.push(79);
    v.push(80);
    v.push(84);
    v.push(73);
    v.push(79);
    v.push(78);
    v.push(83);
    proof {
        assert(v@ =~= lit_cors_methods());
    }
    v
}


// ---------------------------------------------------------------------
// Routing
// ---------------------------------------------------------------------

/// The request methods the gateway distinguishes. Anything beyond the four
/// it serves is `Other` and is answered with a client error.
#[derive(Copy, Clone, PartialEq, Eq, Structural, Debug)]
pub enum Method {
    Get,
    Head,
    Post,
    Options,
    Other,
}

/// Where a request goes: a handler with its extracted id, or one of the
/// rejections the gateway answers by itself.
pub enum Route {
    Home,
    WorkerVersion,
    StoreGet(Vec<u8>),
    StorePut(Vec<u8>),
    ActorRead(Vec<u8>),
    ActorAppend(Vec<u8>),
    BadRequest,
    MethodNotAllowed,
    NoRoute,
}

/// The routing decision over the id's bytes.
pub enum RouteSpec {
    Home,
    WorkerVersion,
    StoreGet(Seq<u8>),
    StorePut(Seq<u8>),
    ActorRead(Seq<u8>),
    ActorAppend(Seq<u8>),
    BadRequest,
    MethodNotAllowed,
    NoRoute,
}

impl View for Route {
    type V = RouteSpec;

    open spec fn view(&self) -> RouteSpec {
        match self {
            Route::Home => RouteSpec::Home,
            Route::WorkerVersion => RouteSpec::WorkerVersion,
            Route::StoreGet(id) => RouteSpec::StoreGet(id@),
            Route::StorePut(id) => RouteSpec::StorePut(id@),
            Route::ActorRead(id) => RouteSpec::ActorRead(id@),
            Route::ActorAppend(id) => RouteSpec::ActorAppend(id@),
            Route::BadRequest => RouteSpec::BadRequest,
            Route::MethodNotAllowed => RouteSpec::MethodNotAllowed,
            Route::NoRoute => RouteSpec::NoRoute,
        }
    }
}

/// `b` begins with the bytes of `pre`.
pub open spec fn starts_with(b: Seq<u8>, pre: Seq<u8>) -> bool {
    pre.len() <= b.len() && b.subrange(0, pre.len() as int) == pre
}

/// An id is one path segment: it holds no slash.
pub open spec fn single_segment(id: Seq<u8>) -> bool {
    forall|i: int| 0 <= i < id.len() ==> id[i] != 47
}

/// The gateway's routing rule. A parameterized path matches when the
/// remainder after its prefix is one non-empty segment; an empty remainder
/// is a missing id and is rejected as a bad request before any collaborator
/// is contacted.
pub open spec fn spec_route(m: Method, p: Seq<u8>) -> RouteSpec {
    if p == lit_path_root() {
        if m == Method::Get {
            RouteSpec::Home
        } else {
            RouteSpec::MethodNotAllowed
        }
    } else if p == lit_path_version() {
        if m == Method::Get {
            RouteSpec::WorkerVersion
        } else {
            RouteSpec::MethodNotAllowed
        }
    } else if starts_with(p, lit_path_actor()) {
        let id = p.subrange(lit_path_actor().len() as int, p.len() as int);
        if id.len() == 0 {
            RouteSpec::BadRequest
        } else if !single_segment(id) {
            RouteSpec::NoRoute
        } else if m == Method::Get {
            RouteSpec::ActorRead(id)
        } else if m == Method::Post {
            RouteSpec::ActorAppend(id)
        } else {
            RouteSpec::MethodNotAllowed
        }
    } else if starts_with(p, lit_path_store()) {
        let id = p.subrange(lit_path_store().len() as int, p.len() as int);
        if id.len() == 0 {
            RouteSpec::BadRequest
        } else if !single_segment(id) {
            RouteSpec::NoRoute
        } else if m == Method::Get {
            RouteSpec::StoreGet(id)
        } else if m == Method::Post {
            RouteSpec::StorePut(id)
        } else {
            RouteSpec::MethodNotAllowed
        }
    } else {
        RouteSpec::NoRoute
    }
}

fn starts_with_exec(b: &Vec<u8>, pre: &Vec<u8>) -> (r: bool)
    ensures
        r == starts_with(b@, pre@),
{
    if pre.len() > b.len() {
        return false;
    }
    let mut i: usize = 0;
    while i < pre.len()
        invariant
            0 <= i <= pre@.len() <= b@.len(),
            forall|j: int| 0 <= j < i ==> b@[j] == pre@[j],
        decreases pre@.len() - i,
    {
        if b[i] != pre[i] {
            proof {
                if b@.subrange(0, pre@.len() as int) == pre@ {
                    assert(b@.subrange(0, pre@.len() as int)[i as int] == b@[i as int]);
                }
            }
            return false;
        }
        i = i + 1;
    }
    proof {
        assert(b@.subrange(0, pre@.len() as int) =~= pre@);
    }
    true
}

fn suffix_from(b: &Vec<u8>, i: usize) -> (r: Vec<u8>)
    requires
        i <= b@.len(),
    ensures
        r@ == b@.subrange(i as int, b@.len() as int),
{
    let mut out: Vec<u8> = Vec::new();
    let mut j: usize = i;
    while j < b.len()
        invariant
            i <= j <= b@.len(),
            out@ == b@.subrange(i as int, j as int),
        decreases b@.len() - j,
    {
        out.push(b[j]);
        j = j + 1;
        proof {
            assert(out@ =~= b@.subrange(i as int, j as int));
        }
    }
    out
}

fn single_segment_exec(id: &Vec<u8>) -> (r: bool)
    ensures
        r == single_segment(id@),
{
    let mut i: usize = 0;
    while i < id.len()
        invariant
            0 <= i <= id@.len(),
            forall|j: int| 0 <= j < i ==> id@[j] != 47,
        decreases id@.len() - i,
    {
        if id[i] == 47 {
            return false;
        }
        i = i + 1;
    }
    true
}

/// Decides the route for one request: the handler to run and the id it
/// addresses, or the rejection the gateway answers by itself.
pub fn route(method: Method, path: &Vec<u8>) -> (r: Route)
    ensures
        r@ == spec_route(method, path@),
{
    let root = path_root_bytes();
    if bytes_eq(path, &root) {
        return if let Method::Get = method {
            Route::Home
        } else {
            Route::MethodNotAllowed
        };
    }
    let version = path_version_bytes();
    if bytes_eq(path, &version) {
        return if let Method::Get = method {
            Route::WorkerVersion
        } else {
            Route::MethodNotAllowed
        };
    }
    let actor_prefix = path_actor_bytes();
    if starts_with_exec(path, &actor_prefix) {
        let id = suffix_from(path, actor_prefix.len());
        if id.len() == 0 {
            return Route::BadRequest;
        }
        if !single_segment_exec(&id) {
            return Route::NoRoute;
        }
        return match method {
            Method::Get => Route::ActorRead(id),
            Method::Post => Route::ActorAppend(id),
            _ => Route::MethodNotAllowed,
        };
    }
    let store_prefix = path_store_bytes();
    if starts_with_exec(path, &store_prefix) {
        let id = suffix_from(path, store_prefix.len());
        if id.len() == 0 {
            return Route::BadRequest;
        }
        if !single_segment_exec(&id) {
            return Route::NoRoute;
        }
        return match method {
            Method::Get => Route::StoreGet(id),
            Method::Post => Route::StorePut(id),
            _ => Route::MethodNotAllowed,
        };
    }
    Route::NoRoute
}

// ---------------------------------------------------------------------
// Responses
// ---------------------------------------------------------------------

/// What the gateway answers: a status, a body, and whether the permissive
/// cross-origin headers are attached.
#[derive(Debug)]
pub struct HttpResponse {
    pub status: u16,
    pub body: Vec<u8>,
    pub cors: bool,
}

/// The allowed-origin header value of the permissive cross-origin policy.
pub fn cors_allow_origin() -> (v: Vec<u8>)
    ensures
        v@ == lit_cors_origin(),
{
    cors_origin_bytes()
}

/// The allowed-methods header value of the permissive cross-origin policy.
pub fn cors_allow_methods() -> (v: Vec<u8>)
    ensures
        v@ == lit_cors_methods(),
{
    cors_methods_bytes()
}

/// A missing or empty id: rejected before any collaborator is contacted,
/// still under the cross-origin policy like every other gateway answer.
pub fn bad_request_response() -> (r: HttpResponse)
    ensures
        r.status == 400 && r.body@ == lit_body_bad_request() && r.cors,
{
    HttpResponse { status: 400, body: body_bad_request_bytes(), cors: true }
}

/// A route hit with a method its handler does not implement.
pub fn method_not_allowed_response() -> (r: HttpResponse)
    ensures
        r.status == 405 && r.body@ == lit_body_method_not_allowed() && r.cors,
{
    HttpResponse { status: 405, body: body_method_not_allowed_bytes(), cors: true }
}

/// A store or actor collaborator call failed; the caller may retry.
pub fn upstream_failure_response() -> (r: HttpResponse)
    ensures
        r.status == 500 && r.body@ == lit_body_upstream_failure() && r.cors,
{
    HttpResponse { status: 500, body: body_upstream_failure_bytes(), cors: true }
}

/// Answers a store read: the stored bytes verbatim, or not-found, both
/// under the cross-origin policy.
pub fn store_get_response(value: Option<Vec<u8>>) -> (r: HttpResponse)
    ensures
        r.cors,
        match value {
            Some(v) => r.status == 200 && r.body == v,
            None => r.status == 404 && r.body@ == lit_body_not_found(),
        },
{
    match value {
        Some(v) => HttpResponse { status: 200, body: v, cors: true },
        None => HttpResponse { status: 404, body: body_not_found_bytes(), cors: true },
    }
}

/// Decides a store write: the decoded sequence to put under the id, or the
/// client error for a malformed body. The store itself is written by the
/// caller; a sequence is handed back if and only if the body decodes.
pub fn plan_store_put(body: &[u8]) -> (r: Result<Vec<CompetencyRating>, HttpResponse>)
    ensures
        match r {
            Ok(v) => spec_decode(body@) == Some(v@),
            Err(resp) => spec_decode(body@) is None && resp.status == 400 && resp.body@
                == lit_body_bad_request() && resp.cors,
        },
{
    match decode_ratings(body) {
        Some(v) => Ok(v),
        None => Err(HttpResponse { status: 400, body: body_bad_request_bytes(), cors: true }),
    }
}

/// The response a successful store write gets.
pub fn store_put_ok_response() -> (r: HttpResponse)
    ensures
        r.status == 200 && r.body@ == lit_body_ok() && r.cors,
{
    HttpResponse { status: 200, body: body_ok_bytes(), cors: true }
}

/// Runs one actor request to completion against the registry: a read
/// answers the current sequence in wire form without changing anything; an
/// append stores the effective record and answers the grown sequence; any
/// other method is rejected untouched. All answers carry the cross-origin
/// policy.
pub fn handle_actor_route(
    reg: &mut ActorRegistry,
    method: Method,
    id: &Vec<u8>,
    rec: Option<CompetencyRating>,
) -> (r: HttpResponse)
    requires
        old(reg).wf(),
    ensures
        final(reg).wf(),
        r.cors,
        method == Method::Get ==> final(reg)@ == old(reg)@ && r.status == 200 && r.body@
            == enc_ratings(stored_or_empty(old(reg)@, id@)),
        method == Method::Post ==> final(reg)@ == old(reg)@.insert(
            id@,
            stored_or_empty(old(reg)@, id@).push(effective_record(rec)),
        ) && r.status == 200 && r.body@ == enc_ratings(final(reg)@[id@]),
        method != Method::Get && method != Method::Post ==> final(reg)@ == old(reg)@ && r.status
            == 405 && r.body@ == lit_body_method_not_allowed(),
{
    match method {
        Method::Get => {
            let ratings = reg.read(id);
            let body = encode_ratings(&ratings);
            HttpResponse { status: 200, body, cors: true }
        },
        Method::Post => {
            let ratings = reg.append(id, rec);
            let body = encode_ratings(&ratings);
            HttpResponse { status: 200, body, cors: true }
        },
        _ => method_not_allowed_response(),
    }
}


/// What a store read means for the caller: the decoded sequence, a
/// well-defined not-found, or a stored value that does not decode — a
/// distinct error, never mistaken for an absent key.
pub enum StoreValue {
    Ratings(Vec<CompetencyRating>),
    Missing,
    Corrupt,
}

/// Interprets the raw store answer for an id: an absent key is missing, a
/// present value is decoded, and a malformed stored value is corrupt.
pub fn interpret_store_get(value: Option<Vec<u8>>) -> (r: StoreValue)
    ensures
        match value {
            None => r is Missing,
            Some(v) => match spec_decode(v@) {
                Some(s) => r matches StoreValue::Ratings(rv) && rv@ == s,
                None => r is Corrupt,
            },
        },
{
    match value {
        None => StoreValue::Missing,
        Some(v) => match decode_ratings(v.as_slice()) {
            Some(rv) => StoreValue::Ratings(rv),
            None => StoreValue::Corrupt,
        },
    }
}

} // verus!
