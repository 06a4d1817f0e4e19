use rustaceans::model::{NewRustacean, Rustacean};
use rustaceans::repository::{RustaceanRepository, StoreError};

fn payload(name: &str, email: &str) -> NewRustacean {
    NewRustacean { name: name.to_string(), email: email.to_string() }
}

#[test]
fn create_then_find_alice() {
    let mut repo = RustaceanRepository::new();
    let made = repo.create(payload("Alice", "a@example.com"), "2024-01-01 10:00:00".to_string()).unwrap();
    assert_eq!(made.id, 1);
    assert_eq!(made.created_at, "2024-01-01 10:00:00");
    let found = repo.find(made.id).unwrap();
    assert_eq!(found.name, "Alice");
    assert_eq!(found.email, "a@example.com");
    assert_eq!(found.created_at, made.created_at);
}

#[test]
fn identifiers_are_new_each_time() {
    let mut repo = RustaceanRepository::new();
    let a = repo.create(payload("A", "a@x"), "t1".to_string()).unwrap();
    let b = repo.create(payload("B", "b@x"), "t2".to_string()).unwrap();
    repo.delete(b.id);
    let c = repo.create(payload("C", "c@x"), "t3".to_string()).unwrap();
    assert_eq!((a.id, b.id, c.id), (1, 2, 3));
}

#[test]
fn save_changes_email_only() {
    let mut repo = RustaceanRepository::new();
    let made = repo.create(payload("Alice", "a@example.com"), "t0".to_string()).unwrap();
    let given = Rustacean {
        id: made.id,
        name: "Alice".to_string(),
        email: "alice@new.example".to_string(),
        created_at: "ignored".to_string(),
    };
    let saved = repo.save(given).unwrap();
    assert_eq!(saved.email, "alice@new.example");
    let found = repo.find(made.id).unwrap();
    assert_eq!(found.id, made.id);
    assert_eq!(found.email, "alice@new.example");
    assert_eq!(found.created_at, "t0");
}

#[test]
fn save_of_missing_record_fails() {
    let mut repo = RustaceanRepository::new();
    let given = Rustacean { id: 9, name: "N".to_string(), email: "e".to_string(), created_at: "t".to_string() };
    assert_eq!(repo.save(given).unwrap_err(), StoreError::NotFound);
    assert!(repo.load_all().is_empty());
}

#[test]
fn delete_then_find_fails() {
    let mut repo = RustaceanRepository::new();
    let made = repo.create(payload("Bob", "b@example.com"), "t".to_string()).unwrap();
    assert_eq!(repo.delete(made.id), 1);
    assert_eq!(repo.find(made.id).unwrap_err(), StoreError::NotFound);
}

#[test]
fn delete_of_missing_id_removes_nothing() {
    let mut repo = RustaceanRepository::new();
    repo.create(payload("Bob", "b@example.com"), "t".to_string()).unwrap();
    assert_eq!(repo.delete(77), 0);
    assert_eq!(repo.load_all().len(), 1);
}

#[test]
fn listing_holds_live_records_once() {
    let mut repo = RustaceanRepository::new();
    for (n, e) in [("A", "a@x"), ("B", "b@x"), ("C", "c@x"), ("D", "d@x")] {
        repo.create(payload(n, e), "t".to_string()).unwrap();
    }
    repo.delete(2);
    repo.delete(4);
    let all = repo.load_all();
    let ids: Vec<i32> = all.iter().map(|r| r.id).collect();
    assert_eq!(ids, vec![1, 3]);
    let names: Vec<&str> = all.iter().map(|r| r.name.as_str()).collect();
    assert_eq!(names, vec!["A", "C"]);
}

#[test]
fn empty_store_lists_nothing() {
    let repo = RustaceanRepository::new();
    assert!(repo.load_all().is_empty());
    assert_eq!(repo.find(1).unwrap_err(), StoreError::NotFound);
}

#[test]
fn error_descriptions() {
    assert_eq!(StoreError::NotFound.message(), "Record not found");
    assert_eq!(StoreError::IdsExhausted.message(), "No identifier is left to assign");
}
