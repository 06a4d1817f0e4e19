use rustaceans::router::{match_route, parse_id, Method, Route};

#[test]
fn parse_plain_and_signed_ids() {
    assert_eq!(parse_id(b"42"), Some(42));
    assert_eq!(parse_id(b"-7"), Some(-7));
    assert_eq!(parse_id(b"+3"), Some(3));
    assert_eq!(parse_id(b"007"), Some(7));
}

#[test]
fn parse_id_limits() {
    assert_eq!(parse_id(b"2147483647"), Some(i32::MAX));
    assert_eq!(parse_id(b"-2147483648"), Some(i32::MIN));
    assert_eq!(parse_id(b"2147483648"), None);
    assert_eq!(parse_id(b"-2147483649"), None);
    assert_eq!(parse_id(b"99999999999999999999"), None);
}

#[test]
fn parse_id_rejects_non_numbers() {
    assert_eq!(parse_id(b""), None);
    assert_eq!(parse_id(b"-"), None);
    assert_eq!(parse_id(b"4a"), None);
    assert_eq!(parse_id(b" 4"), None);
}

#[test]
fn routes_of_collection() {
    assert_eq!(match_route(Method::Get, "/rustaceans"), Some(Route::List));
    assert_eq!(match_route(Method::Post, "/rustaceans"), Some(Route::Create));
    assert_eq!(match_route(Method::Delete, "/rustaceans"), None);
}

#[test]
fn routes_of_one_record() {
    assert_eq!(match_route(Method::Get, "/rustaceans/5"), Some(Route::View(5)));
    assert_eq!(match_route(Method::Put, "/rustaceans/5"), Some(Route::Update(5)));
    assert_eq!(match_route(Method::Delete, "/rustaceans/12"), Some(Route::Remove(12)));
    assert_eq!(match_route(Method::Post, "/rustaceans/5"), None);
}

#[test]
fn unknown_paths_have_no_route() {
    assert_eq!(match_route(Method::Get, "/"), None);
    assert_eq!(match_route(Method::Get, "/rustacean"), None);
    assert_eq!(match_route(Method::Get, "/rustaceans/"), None);
    assert_eq!(match_route(Method::Get, "/rustaceans/abc"), None);
    assert_eq!(match_route(Method::Get, "/rustaceansX"), None);
    assert_eq!(match_route(Method::Other, "/rustaceans"), None);
}
