use competency_rating::actor::{ActorRequest, ActorResponse, CompetencyActor};
use competency_rating::codec::{decode_ratings, encode_ratings};
use competency_rating::gateway::{
    handle_actor_route, method_not_allowed_response, plan_store_put, route, store_get_response,
    store_put_ok_response, Method, Route,
};
use competency_rating::model::{CompetencyRating, Rating};
use competency_rating::gateway::{interpret_store_get, StoreValue};
use competency_rating::registry::ActorRegistry;

fn rec(d: usize, p: usize, a: usize, c: usize, r: Rating) -> CompetencyRating {
    CompetencyRating { discipline_id: d, path_id: p, area_id: a, comp_id: c, rating: r }
}

fn placeholder() -> CompetencyRating {
    rec(1, 1, 1, 1, Rating::Interest(4))
}

#[test]
fn fresh_actor_reads_empty() {
    let actor = CompetencyActor::new();
    assert_eq!(actor.read(), Vec::<CompetencyRating>::new());
}

#[test]
fn fresh_registry_reads_empty_for_any_id() {
    let reg = ActorRegistry::new();
    assert_eq!(reg.read(&b"abc".to_vec()), Vec::<CompetencyRating>::new());
    assert_eq!(reg.read(&b"xyz".to_vec()), Vec::<CompetencyRating>::new());
}

#[test]
fn serial_appends_keep_call_order() {
    let mut actor = CompetencyActor::new();
    let records = vec![
        rec(1, 2, 3, 4, Rating::Interest(1)),
        rec(5, 6, 7, 8, Rating::Competency(2)),
        rec(9, 10, 11, 12, Rating::Interest(-3)),
    ];
    for r in &records {
        actor.append(Some(*r));
    }
    assert_eq!(actor.read(), records);
}

#[test]
fn append_without_record_stores_placeholder() {
    let mut actor = CompetencyActor::new();
    let after = actor.append(None);
    assert_eq!(after, vec![placeholder()]);
}

#[test]
fn actor_rejects_unsupported_requests_untouched() {
    let mut actor = CompetencyActor::new();
    actor.append(Some(rec(1, 2, 3, 4, Rating::Interest(9))));
    let resp = actor.handle(ActorRequest::Unsupported);
    assert!(matches!(resp, ActorResponse::UnsupportedMethod));
    assert_eq!(actor.read(), vec![rec(1, 2, 3, 4, Rating::Interest(9))]);
}

#[test]
fn actor_handle_read_and_append() {
    let mut actor = CompetencyActor::new();
    let r = rec(2, 3, 4, 5, Rating::Competency(6));
    match actor.handle(ActorRequest::Append(Some(r))) {
        ActorResponse::Ratings(v) => assert_eq!(v, vec![r]),
        ActorResponse::UnsupportedMethod => panic!("append must answer the sequence"),
    }
    match actor.handle(ActorRequest::Read) {
        ActorResponse::Ratings(v) => assert_eq!(v, vec![r]),
        ActorResponse::UnsupportedMethod => panic!("read must answer the sequence"),
    }
}

#[test]
fn distinct_ids_are_isolated() {
    let mut reg = ActorRegistry::new();
    let a = b"alpha".to_vec();
    let b = b"beta".to_vec();
    reg.append(&b, Some(rec(1, 1, 1, 1, Rating::Interest(1))));
    let before = reg.read(&a);
    reg.append(&b, Some(rec(2, 2, 2, 2, Rating::Competency(2))));
    reg.append(&b, None);
    assert_eq!(reg.read(&a), before);
    assert_eq!(reg.read(&b).len(), 3);
}

#[test]
fn two_appends_against_fresh_actor_read_two() {
    let mut reg = ActorRegistry::new();
    let id = b"xyz".to_vec();
    let first = handle_actor_route(&mut reg, Method::Post, &id, None);
    assert_eq!(first.status, 200);
    let second = handle_actor_route(&mut reg, Method::Post, &id, None);
    assert_eq!(second.status, 200);
    let read = handle_actor_route(&mut reg, Method::Get, &id, None);
    assert_eq!(read.status, 200);
    assert!(read.cors);
    let ratings = decode_ratings(&read.body).expect("the actor answers wire form");
    assert_eq!(ratings.len(), 2);
    assert_eq!(ratings, vec![placeholder(), placeholder()]);
}

#[test]
fn empty_actor_id_is_bad_request_before_any_actor_call() {
    let r = route(Method::Get, &b"/competencyrating/".to_vec());
    assert!(matches!(r, Route::BadRequest));
    let r = route(Method::Post, &b"/competencyrating/".to_vec());
    assert!(matches!(r, Route::BadRequest));
}

#[test]
fn routing_table() {
    assert!(matches!(route(Method::Get, &b"/".to_vec()), Route::Home));
    assert!(matches!(route(Method::Post, &b"/".to_vec()), Route::MethodNotAllowed));
    assert!(matches!(route(Method::Get, &b"/worker-version".to_vec()), Route::WorkerVersion));
    match route(Method::Get, &b"/competency/abc".to_vec()) {
        Route::StoreGet(id) => assert_eq!(id, b"abc".to_vec()),
        _ => panic!("a store read must route to the store"),
    }
    match route(Method::Post, &b"/competency/abc".to_vec()) {
        Route::StorePut(id) => assert_eq!(id, b"abc".to_vec()),
        _ => panic!("a store write must route to the store"),
    }
    match route(Method::Get, &b"/competencyrating/xyz".to_vec()) {
        Route::ActorRead(id) => assert_eq!(id, b"xyz".to_vec()),
        _ => panic!("an actor read must route to the actor"),
    }
    match route(Method::Post, &b"/competencyrating/xyz".to_vec()) {
        Route::ActorAppend(id) => assert_eq!(id, b"xyz".to_vec()),
        _ => panic!("an actor write must route to the actor"),
    }
    assert!(matches!(route(Method::Get, &b"/competency/".to_vec()), Route::BadRequest));
    assert!(matches!(route(Method::Get, &b"/competency/a/b".to_vec()), Route::NoRoute));
    assert!(matches!(route(Method::Get, &b"/elsewhere".to_vec()), Route::NoRoute));
    assert!(matches!(route(Method::Options, &b"/competency/abc".to_vec()), Route::MethodNotAllowed));
    assert!(matches!(route(Method::Head, &b"/competencyrating/xyz".to_vec()), Route::MethodNotAllowed));
}

#[test]
fn store_write_then_read_answers_the_same_record() {
    // what POST /competency/abc decides for this body, and what the later
    // GET /competency/abc answers once the store holds the written bytes
    let body = br#"[{"discipline_id":1,"path_id":1,"area_id":2,"comp_id":3,"rating":{"Interest":5}}]"#;
    let ratings = plan_store_put(body).expect("a well-formed body must decode");
    assert_eq!(ratings, vec![rec(1, 1, 2, 3, Rating::Interest(5))]);
    let ok = store_put_ok_response();
    assert_eq!(ok.status, 200);
    assert_eq!(ok.body, b"Ok".to_vec());
    assert!(ok.cors);
    let stored = encode_ratings(&ratings);
    let got = store_get_response(Some(stored.clone()));
    assert_eq!(got.status, 200);
    assert!(got.cors);
    assert_eq!(got.body, stored);
    assert_eq!(decode_ratings(&got.body).unwrap(), ratings);
}

#[test]
fn store_put_rejects_malformed_body_with_client_error() {
    let resp = plan_store_put(b"{\"not\":\"an array\"}").expect_err("malformed body");
    assert_eq!(resp.status, 400);
    assert_eq!(resp.body, b"Bad request".to_vec());
    assert!(resp.cors);
}

#[test]
fn missing_store_key_answers_not_found_with_cors() {
    let resp = store_get_response(None);
    assert_eq!(resp.status, 404);
    assert_eq!(resp.body, b"Not found".to_vec());
    assert!(resp.cors);
}

#[test]
fn unsupported_method_answers_client_error() {
    let resp = method_not_allowed_response();
    assert_eq!(resp.status, 405);
    assert!(resp.cors);
    let mut reg = ActorRegistry::new();
    let id = b"xyz".to_vec();
    let r = handle_actor_route(&mut reg, Method::Options, &id, None);
    assert_eq!(r.status, 405);
    assert!(r.cors);
    assert_eq!(reg.read(&id), Vec::<CompetencyRating>::new());
}

#[test]
fn actor_read_answers_wire_form() {
    let mut reg = ActorRegistry::new();
    let id = b"abc".to_vec();
    let r = handle_actor_route(&mut reg, Method::Get, &id, None);
    assert_eq!(r.status, 200);
    assert_eq!(r.body, b"[]".to_vec());
    let record = rec(1, 1, 2, 3, Rating::Interest(5));
    handle_actor_route(&mut reg, Method::Post, &id, Some(record));
    let r = handle_actor_route(&mut reg, Method::Get, &id, None);
    assert_eq!(
        r.body,
        br#"[{"discipline_id":1,"path_id":1,"area_id":2,"comp_id":3,"rating":{"Interest":5}}]"#
            .to_vec()
    );
}

#[test]
fn cors_header_values() {
    assert_eq!(competency_rating::gateway::cors_allow_origin(), b"*".to_vec());
    assert_eq!(
        competency_rating::gateway::cors_allow_methods(),
        b"GET, HEAD, POST, OPTIONS".to_vec()
    );
}

#[test]
fn store_read_distinguishes_missing_from_corrupt() {
    assert!(matches!(interpret_store_get(None), StoreValue::Missing));
    assert!(matches!(interpret_store_get(Some(b"not json".to_vec())), StoreValue::Corrupt));
    let stored = b"[]".to_vec();
    match interpret_store_get(Some(stored)) {
        StoreValue::Ratings(v) => assert!(v.is_empty()),
        _ => panic!("a well-formed stored value must decode"),
    }
}

#[test]
fn missing_id_answers_bad_request_with_cors() {
    let resp = competency_rating::gateway::bad_request_response();
    assert_eq!(resp.status, 400);
    assert_eq!(resp.body, b"Bad request".to_vec());
    assert!(resp.cors);
}
