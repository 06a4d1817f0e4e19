use vstd::prelude::*;
use vstd::string::{StringExecFns, StringSliceAdditionalSpecFns};
use crate::auth::{authorized, is_authorized, BasicAuth};
use crate::model::{NewRustacean, RecordView, Rustacean};
use crate::repository::{find_in, RustaceanRepository, StoreError, StoreView};
use crate::router::{match_route, route_of, Method, Route};

verus! {

/// What the service sends back, before it is written out as JSON.
#[derive(Clone, Debug)]
pub enum Body {
    /// No body.
    Empty,
    /// A JSON array of records.
    Records(Vec<Rustacean>),
    /// A JSON object for one record.
    Record(Rustacean),
    /// A JSON string.
    Message(String),
}

pub ghost enum BodyView {
    Empty,
    Records(Seq<RecordView>),
    Record(RecordView),
    Message(Seq<char>),
}

impl View for Body {
    type V = BodyView;

    open spec fn view(&self) -> BodyView {
        match self {
            Body::Empty => BodyView::Empty,
            Body::Records(v) => BodyView::Records(v@.map_values(|x: Rustacean| x@)),
            Body::Record(x) => BodyView::Record(x@),
            Body::Message(m) => BodyView::Message(m@),
        }
    }
}

/// An HTTP status and a body.
#[derive(Clone, Debug)]
pub struct Response {
    pub status: u16,
    pub body: Body,
}

/// A request body, already read from JSON by the caller.
#[derive(Clone, Debug)]
pub enum Payload {
    Nothing,
    New(NewRustacean),
    Full(Rustacean),
}

/// What authentication and the router make of a request before any record is
/// touched.
#[derive(Clone, Copy, Debug, PartialEq, Eq, Structural)]
pub enum Decision {
    NotFound,
    Unauthorized,
    Proceed(Route),
}

pub open spec fn header_bytes(header: Option<&str>) -> Option<Seq<u8>> {
    match header {
        Some(h) => Some(h.spec_bytes()),
        None => None,
    }
}

/// A path that no route has is not found, whatever the credentials; a
/// matched route goes on only when authenticated.
pub open spec fn decision_of(
    method: Method,
    path: Seq<u8>,
    header: Option<Seq<u8>>,
    user: Seq<u8>,
    password: Seq<u8>,
) -> Decision {
    match route_of(method, path) {
        None => Decision::NotFound,
        Some(r) => if authorized(header, user, password) {
            Decision::Proceed(r)
        } else {
            Decision::Unauthorized
        },
    }
}

/// Authentication decides every matched request: with the expected credentials it
/// goes on to the store, and with missing or wrong ones it is refused and the
/// store is never reached.
pub proof fn lemma_authentication_guards_store(
    method: Method,
    path: Seq<u8>,
    header: Option<Seq<u8>>,
    user: Seq<u8>,
    password: Seq<u8>,
)
    requires
        route_of(method, path) is Some,
    ensures
        authorized(header, user, password) ==> decision_of(method, path, header, user, password)
            == Decision::Proceed(route_of(method, path)->Some_0),
        !authorized(header, user, password) ==> decision_of(method, path, header, user, password)
            == Decision::Unauthorized,
{
}

/// A path that no route has is not found, with any header or none.
pub proof fn lemma_unmatched_path_not_found(
    method: Method,
    path: Seq<u8>,
    header: Option<Seq<u8>>,
    user: Seq<u8>,
    password: Seq<u8>,
)
    requires
        route_of(method, path) is None,
    ensures
        decision_of(method, path, header, user, password) == Decision::NotFound,
        decision_of(method, path, None, user, password) == Decision::NotFound,
{
}

/// Routes a request and authenticates it.
pub fn decide(method: Method, path: &str, header: Option<&str>, expected: &BasicAuth) -> (r: Decision)
    ensures
        r == decision_of(method, path.spec_bytes(), header_bytes(header), expected.username@, expected.password@),
{
    match match_route(method, path) {
        None => Decision::NotFound,
        Some(route) => if is_authorized(header, expected) {
            Decision::Proceed(route)
        } else {
            Decision::Unauthorized
        },
    }
}

/// The answer to a path that no route has: 404 and the JSON string
/// `"Not found!"`.
pub fn not_found() -> (r: Response)
    ensures
        r.status == 404,
        r.body@ == BodyView::Message("Not found!"@),
{
    Response { status: 404, body: Body::Message(String::from_str("Not found!")) }
}

/// The answer to a request that fails authentication.
pub fn unauthorized() -> (r: Response)
    ensures
        r.status == 401,
        r.body@ == BodyView::Empty,
{
    Response { status: 401, body: Body::Empty }
}

/// The answer to a body that is not what the route takes.
pub fn unprocessable() -> (r: Response)
    ensures
        r.status == 422,
        r.body@ == BodyView::Empty,
{
    Response { status: 422, body: Body::Empty }
}

/// A store error becomes 500 with its description as a JSON string.
pub fn store_failure(e: StoreError) -> (r: Response)
    ensures
        r.status == 500,
        e == StoreError::NotFound ==> r.body@ == BodyView::Message("Record not found"@),
        e == StoreError::IdsExhausted ==> r.body@ == BodyView::Message("No identifier is left to assign"@),
{
    Response { status: 500, body: Body::Message(e.message()) }
}

/// What a store operation gave back.
#[derive(Clone, Debug)]
pub enum Outcome {
    Records(Vec<Rustacean>),
    Record(Rustacean),
    Removed(usize),
}

/// The response to a store result, for any store: records are sent with 200,
/// a removal with 204 and no body, an error with 500 and its description.
pub fn respond(result: Result<Outcome, String>) -> (r: Response)
    ensures
        match result {
            Ok(Outcome::Records(v)) => r.status == 200 && r.body@ == BodyView::Records(v@.map_values(|x: Rustacean| x@)),
            Ok(Outcome::Record(x)) => r.status == 200 && r.body@ == BodyView::Record(x@),
            Ok(Outcome::Removed(_)) => r.status == 204 && r.body@ == BodyView::Empty,
            Err(m) => r.status == 500 && r.body@ == BodyView::Message(m@),
        },
{
    match result {
        Ok(Outcome::Records(v)) => Response { status: 200, body: Body::Records(v) },
        Ok(Outcome::Record(x)) => Response { status: 200, body: Body::Record(x) },
        Ok(Outcome::Removed(_)) => Response { status: 204, body: Body::Empty },
        Err(m) => Response { status: 500, body: Body::Message(m) },
    }
}

/// `GET /rustaceans`: every record.
pub fn get_rustaceans(repo: &RustaceanRepository) -> (r: Response)
    ensures
        r.status == 200,
        r.body@ == BodyView::Records(repo@.records),
{
    Response { status: 200, body: Body::Records(repo.load_all()) }
}

/// `GET /rustaceans/<id>`: the record, or 500 where none has the id.
pub fn view_rustacean(id: i32, repo: &RustaceanRepository) -> (r: Response)
    requires
        repo.wf(),
    ensures
        match find_in(repo@.records, id as int) {
            Some(x) => r.status == 200 && r.body@ == BodyView::Record(x),
            None => r.status == 500 && r.body@ == BodyView::Message("Record not found"@),
        },
{
    match repo.find(id) {
        Ok(x) => Response { status: 200, body: Body::Record(x) },
        Err(e) => store_failure(e),
    }
}

/// `POST /rustaceans`: stores a new record made at `created_at` and returns it.
pub fn create_rustacean(repo: &mut RustaceanRepository, new_rustacean: NewRustacean, created_at: String) -> (r: Response)
    requires
        old(repo).wf(),
    ensures
        final(repo).wf(),
        old(repo)@.next_id < i32::MAX ==> r.status == 200 && r.body@ == BodyView::Record(
            old(repo)@.inserted(new_rustacean.name@, new_rustacean.email@, created_at@),
        ) && final(repo)@ == old(repo)@.created(new_rustacean.name@, new_rustacean.email@, created_at@),
        old(repo)@.next_id == i32::MAX ==> r.status == 500 && final(repo)@ == old(repo)@,
{
    match repo.create(new_rustacean, created_at) {
        Ok(x) => Response { status: 200, body: Body::Record(x) },
        Err(e) => store_failure(e),
    }
}

/// `PUT /rustaceans/<id>`: a full update by the record's own identifier.
pub fn update_rustacean(_id: i32, repo: &mut RustaceanRepository, rustacean: Rustacean) -> (r: Response)
    requires
        old(repo).wf(),
    ensures
        final(repo).wf(),
        final(repo)@ == old(repo)@.saved(rustacean@),
        match find_in(old(repo)@.records, rustacean.id as int) {
            Some(x) => r.status == 200 && r.body@ == BodyView::Record(StoreView::overwritten(x, rustacean@)),
            None => r.status == 500 && r.body@ == BodyView::Message("Record not found"@),
        },
{
    match repo.save(rustacean) {
        Ok(x) => Response { status: 200, body: Body::Record(x) },
        Err(e) => store_failure(e),
    }
}

/// `DELETE /rustaceans/<id>`: 204 whether or not a record had the id.
pub fn delete_rustacean(id: i32, repo: &mut RustaceanRepository) -> (r: Response)
    requires
        old(repo).wf(),
    ensures
        final(repo).wf(),
        final(repo)@ == old(repo)@.deleted(id as int),
        r.status == 204,
        r.body@ == BodyView::Empty,
{
    let _removed = repo.delete(id);
    Response { status: 204, body: Body::Empty }
}

/// One request, from its method, path, `Authorization` header and body to
/// its response. Nothing reaches the store unless it is authenticated.
pub fn handle(
    repo: &mut RustaceanRepository,
    expected: &BasicAuth,
    method: Method,
    path: &str,
    header: Option<&str>,
    payload: Payload,
    now: String,
) -> (r: Response)
    requires
        old(repo).wf(),
    ensures
        final(repo).wf(),
        ({
            let d = decision_of(method, path.spec_bytes(), header_bytes(header), expected.username@, expected.password@);
            &&& d == Decision::NotFound ==> r.status == 404 && r.body@ == BodyView::Message("Not found!"@)
            &&& d == Decision::Unauthorized ==> r.status == 401
            &&& !(d is Proceed) ==> final(repo)@ == old(repo)@
            &&& d == Decision::Proceed(Route::List) ==> r.status == 200 && r.body@ == BodyView::Records(old(repo)@.records)
                && final(repo)@ == old(repo)@
            &&& forall|id: i32| d == Decision::Proceed(Route::View(id)) ==> final(repo)@ == old(repo)@ && match find_in(old(repo)@.records, id as int) {
                Some(x) => r.status == 200 && r.body@ == BodyView::Record(x),
                None => r.status == 500,
            }
            &&& forall|id: i32| d == Decision::Proceed(Route::Remove(id)) ==> r.status == 204 && final(repo)@ == old(repo)@.deleted(id as int)
            &&& d == Decision::Proceed(Route::Create) ==> match payload {
                Payload::New(n) => if old(repo)@.next_id < i32::MAX {
                    r.status == 200 && final(repo)@ == old(repo)@.created(n.name@, n.email@, now@)
                        && r.body@ == BodyView::Record(old(repo)@.inserted(n.name@, n.email@, now@))
                } else {
                    r.status == 500 && final(repo)@ == old(repo)@
                },
                _ => r.status == 422 && final(repo)@ == old(repo)@,
            }
            &&& forall|id: i32| d == Decision::Proceed(Route::Update(id)) ==> match payload {
                Payload::Full(x) => final(repo)@ == old(repo)@.saved(x@) && match find_in(old(repo)@.records, x.id as int) {
                    Some(o) => r.status == 200 && r.body@ == BodyView::Record(StoreView::overwritten(o, x@)),
                    None => r.status == 500,
                },
                _ => r.status == 422 && final(repo)@ == old(repo)@,
            }
        }),
{
    match decide(method, path, header, expected) {
        Decision::NotFound => not_found(),
        Decision::Unauthorized => unauthorized(),
        Decision::Proceed(route) => match route {
            Route::List => get_rustaceans(repo),
            Route::View(id) => view_rustacean(id, repo),
            Route::Create => match payload {
                Payload::New(n) => create_rustacean(repo, n, now),
                _ => unprocessable(),
            },
            Route::Update(id) => match payload {
                Payload::Full(x) => update_rustacean(id, repo, x),
                _ => unprocessable(),
            },
            Route::Remove(id) => delete_rustacean(id, repo),
        },
    }
}

} // verus!
