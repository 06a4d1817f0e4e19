use rustaceans::auth::BasicAuth;
use rustaceans::model::{NewRustacean, Rustacean};
use rustaceans::repository::RustaceanRepository;
use rustaceans::router::Method;
use rustaceans::service::{decide, handle, not_found, Body, Decision, Payload, Response};
use rustaceans::router::Route;

const GOOD: &str = "Basic Zm9vOmJhcg==";

fn expected() -> BasicAuth {
    BasicAuth::new(b"foo".to_vec(), b"bar".to_vec())
}

fn new_payload(name: &str, email: &str) -> Payload {
    Payload::New(NewRustacean { name: name.to_string(), email: email.to_string() })
}

fn send(repo: &mut RustaceanRepository, method: Method, path: &str, header: Option<&str>, payload: Payload) -> Response {
    handle(repo, &expected(), method, path, header, payload, "2024-05-01 12:00:00".to_string())
}

fn record(r: &Response) -> Rustacean {
    match &r.body {
        Body::Record(x) => x.clone(),
        other => panic!("expected a record, got {:?}", other),
    }
}

#[test]
fn authenticated_create_reaches_store() {
    let mut repo = RustaceanRepository::new();
    let r = send(&mut repo, Method::Post, "/rustaceans", Some(GOOD), new_payload("Alice", "a@example.com"));
    assert_eq!(r.status, 200);
    assert_eq!(repo.load_all().len(), 1);
}

#[test]
fn refused_credentials_never_touch_store() {
    let mut repo = RustaceanRepository::new();
    for header in [None, Some("Basic Zm9vOmJheg=="), Some("Basic ??"), Some("Token abc")] {
        let r = send(&mut repo, Method::Post, "/rustaceans", header, new_payload("Eve", "e@x"));
        assert_eq!(r.status, 401);
        assert!(matches!(r.body, Body::Empty));
    }
    assert!(repo.load_all().is_empty());
}

#[test]
fn create_then_view_over_http() {
    let mut repo = RustaceanRepository::new();
    let made = record(&send(&mut repo, Method::Post, "/rustaceans", Some(GOOD), new_payload("Alice", "a@example.com")));
    assert_eq!(made.id, 1);
    assert_eq!(made.created_at, "2024-05-01 12:00:00");
    let r = send(&mut repo, Method::Get, "/rustaceans/1", Some(GOOD), Payload::Nothing);
    assert_eq!(r.status, 200);
    let seen = record(&r);
    assert_eq!((seen.name.as_str(), seen.email.as_str()), ("Alice", "a@example.com"));
}

#[test]
fn put_then_view_shows_new_email() {
    let mut repo = RustaceanRepository::new();
    let made = record(&send(&mut repo, Method::Post, "/rustaceans", Some(GOOD), new_payload("Alice", "a@example.com")));
    let mut changed = made.clone();
    changed.email = "alice@new.example".to_string();
    let r = send(&mut repo, Method::Put, "/rustaceans/1", Some(GOOD), Payload::Full(changed));
    assert_eq!(r.status, 200);
    let seen = record(&send(&mut repo, Method::Get, "/rustaceans/1", Some(GOOD), Payload::Nothing));
    assert_eq!(seen.email, "alice@new.example");
    assert_eq!(seen.id, made.id);
    assert_eq!(seen.created_at, made.created_at);
}

#[test]
fn delete_then_view_fails_with_500() {
    let mut repo = RustaceanRepository::new();
    send(&mut repo, Method::Post, "/rustaceans", Some(GOOD), new_payload("Bob", "b@x"));
    let r = send(&mut repo, Method::Delete, "/rustaceans/1", Some(GOOD), Payload::Nothing);
    assert_eq!(r.status, 204);
    assert!(matches!(r.body, Body::Empty));
    let r = send(&mut repo, Method::Get, "/rustaceans/1", Some(GOOD), Payload::Nothing);
    assert_eq!(r.status, 500);
    assert!(matches!(&r.body, Body::Message(m) if m == "Record not found"));
}

#[test]
fn delete_of_missing_id_is_no_content() {
    let mut repo = RustaceanRepository::new();
    let r = send(&mut repo, Method::Delete, "/rustaceans/8", Some(GOOD), Payload::Nothing);
    assert_eq!(r.status, 204);
}

#[test]
fn list_over_http() {
    let mut repo = RustaceanRepository::new();
    send(&mut repo, Method::Post, "/rustaceans", Some(GOOD), new_payload("A", "a@x"));
    send(&mut repo, Method::Post, "/rustaceans", Some(GOOD), new_payload("B", "b@x"));
    send(&mut repo, Method::Delete, "/rustaceans/1", Some(GOOD), Payload::Nothing);
    let r = send(&mut repo, Method::Get, "/rustaceans", Some(GOOD), Payload::Nothing);
    assert_eq!(r.status, 200);
    match r.body {
        Body::Records(v) => {
            assert_eq!(v.len(), 1);
            assert_eq!(v[0].id, 2);
            assert_eq!(v[0].name, "B");
        },
        other => panic!("expected records, got {:?}", other),
    }
}

#[test]
fn undefined_path_is_not_found_with_or_without_credentials() {
    let mut repo = RustaceanRepository::new();
    for header in [None, Some(GOOD), Some("Basic Zm9vOmJheg==")] {
        let r = send(&mut repo, Method::Get, "/nowhere", header, Payload::Nothing);
        assert_eq!(r.status, 404);
        assert!(matches!(&r.body, Body::Message(m) if m == "Not found!"));
    }
}

#[test]
fn not_found_body() {
    let r = not_found();
    assert_eq!(r.status, 404);
    assert!(matches!(&r.body, Body::Message(m) if m == "Not found!"));
}

#[test]
fn wrong_body_is_unprocessable() {
    let mut repo = RustaceanRepository::new();
    let r = send(&mut repo, Method::Post, "/rustaceans", Some(GOOD), Payload::Nothing);
    assert_eq!(r.status, 422);
    let r = send(&mut repo, Method::Put, "/rustaceans/1", Some(GOOD), new_payload("A", "a@x"));
    assert_eq!(r.status, 422);
    assert!(repo.load_all().is_empty());
}

#[test]
fn update_of_missing_record_is_500() {
    let mut repo = RustaceanRepository::new();
    let absent = Rustacean { id: 3, name: "N".to_string(), email: "e".to_string(), created_at: "t".to_string() };
    let r = send(&mut repo, Method::Put, "/rustaceans/3", Some(GOOD), Payload::Full(absent));
    assert_eq!(r.status, 500);
}

#[test]
fn decisions() {
    let e = expected();
    assert_eq!(decide(Method::Get, "/rustaceans/4", Some(GOOD), &e), Decision::Proceed(Route::View(4)));
    assert_eq!(decide(Method::Get, "/rustaceans/4", None, &e), Decision::Unauthorized);
    assert_eq!(decide(Method::Get, "/other", None, &e), Decision::NotFound);
}
