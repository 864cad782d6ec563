//! The request router/dispatcher: maps an HTTP method, path and body onto
//! one store operation and exactly one response.
//!
//! The whole request step is specified by [`spec_handle`], a pure function
//! from the store model and the request to the next store model and the
//! response, down to the exact status code and body bytes.

use vstd::prelude::*;

use crate::book::{BookModel, CreateBookRequest, patched};
use crate::decode::{parse_create, parse_create_bytes, parse_update, parse_update_bytes};
use crate::digits::{parse_u64, parse_u64_bytes};
use crate::encode::{book_json, books_json, json_of_book, json_of_books};
use crate::store::{idx_of, lemma_idx_of_props, store_wf, Storage, StoreModel};

verus! {

/// The HTTP methods the service distinguishes; any other method routes to
/// the not-found response.
#[derive(Clone, Copy)]
pub enum Method {
    Get,
    Post,
    Put,
    Delete,
    Other,
}

/// An HTTP response: the status code, whether the body is JSON (it is then
/// served as `application/json`, else as plain text), and the body bytes.
pub struct Response {
    pub status: u16,
    pub json: bool,
    pub body: Vec<u8>,
}

/// The mathematical model of a [`Response`].
#[verifier::ext_equal]
pub struct ResponseModel {
    pub status: u16,
    pub json: bool,
    pub body: Seq<u8>,
}

impl View for Response {
    type V = ResponseModel;

    open spec fn view(&self) -> ResponseModel {
        ResponseModel { status: self.status, json: self.json, body: self.body@ }
    }
}

/// The bytes `Invalid book ID`.
pub open spec fn msg_invalid_id() -> Seq<u8> {
    seq![
        ('I' as u8),
        ('n' as u8),
        ('v' as u8),
        ('a' as u8),
        ('l' as u8),
        ('i' as u8),
        ('d' as u8),
        (' ' as u8),
        ('b' as u8),
        ('o' as u8),
        ('o' as u8),
        ('k' as u8),
        (' ' as u8),
        ('I' as u8),
        ('D' as u8),
    ]
}

/// The bytes `Invalid request body`.
pub open spec fn msg_invalid_body() -> Seq<u8> {
    seq![
        ('I' as u8),
        ('n' as u8),
        ('v' as u8),
        ('a' as u8),
        ('l' as u8),
        ('i' as u8),
        ('d' as u8),
        (' ' as u8),
        ('r' as u8),
        ('e' as u8),
        ('q' as u8),
        ('u' as u8),
        ('e' as u8),
        ('s' as u8),
        ('t' as u8),
        (' ' as u8),
        ('b' as u8),
        ('o' as u8),
        ('d' as u8),
        ('y' as u8),
    ]
}

/// The bytes `Not found`.
pub open spec fn msg_not_found() -> Seq<u8> {
    seq![
        ('N' as u8),
        ('o' as u8),
        ('t' as u8),
        (' ' as u8),
        ('f' as u8),
        ('o' as u8),
        ('u' as u8),
        ('n' as u8),
        ('d' as u8),
    ]
}

/// The bytes `/books`.
pub open spec fn books_path() -> Seq<u8> {
    seq![('/' as u8), ('b' as u8), ('o' as u8), ('o' as u8), ('k' as u8), ('s' as u8)]
}

/// The bytes `/books/`.
pub open spec fn books_id_prefix() -> Seq<u8> {
    seq![('/' as u8), ('b' as u8), ('o' as u8), ('o' as u8), ('k' as u8), ('s' as u8), ('/' as u8)]
}

/// Whether `p` names a single record: `/books/` followed by an identifier
/// segment (possibly empty or malformed; the segment is judged separately).
pub open spec fn is_books_id_path(p: Seq<u8>) -> bool {
    p.len() >= 7 && p.take(7) == books_id_prefix()
}

/// The identifier segment of a `/books/{id}` path.
pub open spec fn id_part(p: Seq<u8>) -> Seq<u8> {
    p.skip(7)
}

/// A plain-text response.
pub open spec fn plain_response(status: u16, body: Seq<u8>) -> ResponseModel {
    ResponseModel { status, json: false, body }
}

/// A JSON response.
pub open spec fn json_response_model(status: u16, body: Seq<u8>) -> ResponseModel {
    ResponseModel { status, json: true, body }
}

/// The `404 Not Found` response.
pub open spec fn not_found_model() -> ResponseModel {
    plain_response(404, msg_not_found())
}

/// The `204 No Content` response: an empty, non-JSON body.
pub open spec fn no_content_model() -> ResponseModel {
    ResponseModel { status: 204, json: false, body: Seq::empty() }
}

/// One create request: a decoded body yields a new record under the next
/// identifier and a `201` with the record; a decode failure yields `400`
/// and leaves the store unchanged.
pub open spec fn spec_create_book(st: StoreModel, body: Seq<u8>) -> (StoreModel, ResponseModel) {
    match parse_create(body) {
        Some(p) => {
            let b = BookModel { id: st.next_id, title: p.title, author: p.author, isbn: p.isbn };
            (
                StoreModel { books: st.books.push(b), next_id: (st.next_id + 1) as u64 },
                json_response_model(201, json_of_book(b)),
            )
        },
        None => (st, plain_response(400, msg_invalid_body())),
    }
}

/// One list request: `200` with the JSON array of all records, in order.
pub open spec fn spec_get_all_books(st: StoreModel) -> (StoreModel, ResponseModel) {
    (st, json_response_model(200, json_of_books(st.books)))
}

/// One read request: `200` with the record, or `404`.
pub open spec fn spec_get_book(st: StoreModel, id: u64) -> (StoreModel, ResponseModel) {
    let k = idx_of(st.books, id);
    if k >= 0 {
        (st, json_response_model(200, json_of_book(st.books[k])))
    } else {
        (st, not_found_model())
    }
}

/// One update request: a decoded patch applied to the record yields `200`
/// with the updated record; `404` when the identifier is absent; a decode
/// failure yields `400`.  Only a found record is changed.
pub open spec fn spec_update_book(st: StoreModel, id: u64, body: Seq<u8>) -> (
    StoreModel,
    ResponseModel,
) {
    match parse_update(body) {
        Some(p) => {
            let k = idx_of(st.books, id);
            if k >= 0 {
                let b2 = patched(st.books[k], p);
                (
                    StoreModel { books: st.books.update(k, b2), next_id: st.next_id },
                    json_response_model(200, json_of_book(b2)),
                )
            } else {
                (st, not_found_model())
            }
        },
        None => (st, plain_response(400, msg_invalid_body())),
    }
}

/// One delete request: the record is removed and `204` returned, or `404`
/// when the identifier is absent.
pub open spec fn spec_delete_book(st: StoreModel, id: u64) -> (StoreModel, ResponseModel) {
    let k = idx_of(st.books, id);
    if k >= 0 {
        (StoreModel { books: st.books.remove(k), next_id: st.next_id }, no_content_model())
    } else {
        (st, not_found_model())
    }
}

/// One request against `/books/{id}`: a malformed identifier segment yields
/// `400` whatever the body holds; otherwise the method's operation runs.
pub open spec fn spec_book_id_request(
    st: StoreModel,
    m: Method,
    path: Seq<u8>,
    body: Seq<u8>,
) -> (StoreModel, ResponseModel) {
    match parse_u64(id_part(path)) {
        None => (st, plain_response(400, msg_invalid_id())),
        Some(id) => if m is Get {
            spec_get_book(st, id)
        } else if m is Put {
            spec_update_book(st, id, body)
        } else {
            spec_delete_book(st, id)
        },
    }
}

/// One whole request step: the routing table of the service.  Every
/// method/path pair outside the table yields `404` and leaves the store
/// unchanged.
pub open spec fn spec_handle(st: StoreModel, m: Method, path: Seq<u8>, body: Seq<u8>) -> (
    StoreModel,
    ResponseModel,
) {
    if m is Post && path == books_path() {
        spec_create_book(st, body)
    } else if m is Get && path == books_path() {
        spec_get_all_books(st)
    } else if (m is Get || m is Put || m is Delete) && is_books_id_path(path) {
        spec_book_id_request(st, m, path, body)
    } else {
        (st, not_found_model())
    }
}

/// The store after a sequence of create requests, applied in order.
pub open spec fn after_creates(st: StoreModel, bodies: Seq<Seq<u8>>) -> StoreModel
    decreases bodies.len(),
{
    if bodies.len() == 0 {
        st
    } else {
        spec_create_book(after_creates(st, bodies.drop_last()), bodies.last()).0
    }
}

/// Law: after any number of create requests with decodable payloads and no
/// other operation, a well-formed store holds exactly that many more
/// records and the counter has advanced by the same amount; well-formedness
/// means the records' identifiers are pairwise distinct, so a listing then
/// returns exactly that many records with distinct identifiers.
pub proof fn lemma_after_creates(st: StoreModel, bodies: Seq<Seq<u8>>)
    requires
        store_wf(st),
        st.next_id + bodies.len() <= u64::MAX,
        forall|k: int| 0 <= k < bodies.len() ==> parse_create(#[trigger] bodies[k]) is Some,
    ensures
        store_wf(after_creates(st, bodies)),
        after_creates(st, bodies).books.len() == st.books.len() + bodies.len(),
        after_creates(st, bodies).next_id == st.next_id + bodies.len(),
    decreases bodies.len(),
{
    if bodies.len() > 0 {
        assert forall|k: int| 0 <= k < bodies.drop_last().len() implies parse_create(
            #[trigger] bodies.drop_last()[k],
        ) is Some by {
            assert(bodies.drop_last()[k] == bodies[k]);
        }
        lemma_after_creates(st, bodies.drop_last());
        let st1 = after_creates(st, bodies.drop_last());
        assert(parse_create(bodies.last()) is Some);
        let st2 = spec_create_book(st1, bodies.last()).0;
        assert forall|i: int| 0 <= i < st2.books.len() implies (#[trigger] st2.books[i]).id
            < st2.next_id by {
            if i < st1.books.len() {
                assert(st2.books[i] == st1.books[i]);
            }
        }
        assert forall|i: int, j: int|
            #![trigger st2.books[i], st2.books[j]]
            0 <= i < j < st2.books.len() implies st2.books[i].id != st2.books[j].id by {
            if j < st1.books.len() {
                assert(st2.books[i] == st1.books[i] && st2.books[j] == st1.books[j]);
            } else {
                assert(st2.books[i] == st1.books[i]);
            }
        }
    }
}

/// Law: one whole request step, whatever the route, keeps the store well
/// formed and never decreases the identifier counter.  Since a well-formed
/// store keeps every stored identifier below the counter, an identifier
/// issued at any moment stays below the counter from then on, and any later
/// create returns a strictly greater identifier, deletions notwithstanding.
pub proof fn lemma_handle_preserves_wf(st: StoreModel, m: Method, path: Seq<u8>, body: Seq<u8>)
    requires
        store_wf(st),
        m is Post && path == books_path() ==> st.next_id < u64::MAX,
    ensures
        store_wf(spec_handle(st, m, path, body).0),
        spec_handle(st, m, path, body).0.next_id >= st.next_id,
        forall|i: int|
            0 <= i < st.books.len() ==> (#[trigger] st.books[i]).id < spec_handle(
                st,
                m,
                path,
                body,
            ).0.next_id,
{
    let st2 = spec_handle(st, m, path, body).0;
    if m is Post && path == books_path() {
        if parse_create(body) is Some {
            assert forall|i: int| 0 <= i < st2.books.len() implies (#[trigger] st2.books[i]).id
                < st2.next_id by {
                if i < st.books.len() {
                    assert(st2.books[i] == st.books[i]);
                }
            }
            assert forall|i: int, j: int|
                #![trigger st2.books[i], st2.books[j]]
                0 <= i < j < st2.books.len() implies st2.books[i].id != st2.books[j].id by {
                if j < st.books.len() {
                    assert(st2.books[i] == st.books[i] && st2.books[j] == st.books[j]);
                } else {
                    assert(st2.books[i] == st.books[i]);
                }
            }
        }
    } else if (m is Get || m is Put || m is Delete) && is_books_id_path(path) {
        match parse_u64(id_part(path)) {
            None => {},
            Some(id) => {
                let k = idx_of(st.books, id);
                if m is Put && parse_update(body) is Some && k >= 0 {
                    lemma_idx_of_props(st.books, id);
                    assert forall|i: int| 0 <= i < st2.books.len() implies (
                    #[trigger] st2.books[i]).id < st2.next_id by {
                        assert(st2.books[i].id == st.books[i].id);
                    }
                    assert forall|i: int, j: int|
                        #![trigger st2.books[i], st2.books[j]]
                        0 <= i < j < st2.books.len() implies st2.books[i].id != st2.books[j].id by {
                        assert(st2.books[i].id == st.books[i].id);
                        assert(st2.books[j].id == st.books[j].id);
                    }
                } else if m is Delete && k >= 0 {
                    lemma_idx_of_props(st.books, id);
                    assert forall|i: int| 0 <= i < st2.books.len() implies (
                    #[trigger] st2.books[i]).id < st2.next_id by {
                        if i < k {
                            assert(st2.books[i] == st.books[i]);
                        } else {
                            assert(st2.books[i] == st.books[i + 1]);
                        }
                    }
                    assert forall|i: int, j: int|
                        #![trigger st2.books[i], st2.books[j]]
                        0 <= i < j < st2.books.len() implies st2.books[i].id != st2.books[j].id by {
                        if i < k {
                            assert(st2.books[i] == st.books[i]);
                        } else {
                            assert(st2.books[i] == st.books[i + 1]);
                        }
                        if j < k {
                            assert(st2.books[j] == st.books[j]);
                        } else {
                            assert(st2.books[j] == st.books[j + 1]);
                        }
                    }
                }
            },
        }
    }
}

/// The bytes `Invalid book ID`.
fn invalid_id_bytes() -> (v: Vec<u8>)
    ensures
        v@ == msg_invalid_id(),
{
    let mut v: Vec<u8> = Vec::new();
    v.push(('I' as u8));
    v.push(('n' as u8));
    v.push(('v' as u8));
    v.push(('a' as u8));
    v.push(('l' as u8));
    v.push(('i' as u8));
    v.push(('d' as u8));
    v.push((' ' as u8));
    v.push(('b' as u8));
    v.push(('o' as u8));
    v.push(('o' as u8));
    v.push(('k' as u8));
    v.push((' ' as u8));
    v.push(('I' as u8));
    v.push(('D' as u8));
    proof {
        assert(v@ =~= msg_invalid_id());
    }
    v
}

/// The bytes `Invalid request body`.
fn invalid_body_bytes() -> (v: Vec<u8>)
    ensures
        v@ == msg_invalid_body(),
{
    let mut v: Vec<u8> = Vec::new();
    v.push(('I' as u8));
    v.push(('n' as u8));
    v.push(('v' as u8));
    v.push(('a' as u8));
    v.push(('l' as u8));
    v.push(('i' as u8));
    v.push(('d' as u8));
    v.push((' ' as u8));
    v.push(('r' as u8));
    v.push(('e' as u8));
    v.push(('q' as u8));
    v.push(('u' as u8));
    v.push(('e' as u8));
    v.push(('s' as u8));
    v.push(('t' as u8));
    v.push((' ' as u8));
    v.push(('b' as u8));
    v.push(('o' as u8));
    v.push(('d' as u8));
    v.push(('y' as u8));
    proof {
        assert(v@ =~= msg_invalid_body());
    }
    v
}

/// The bytes `Not found`.
fn not_found_bytes() -> (v: Vec<u8>)
    ensures
        v@ == msg_not_found(),
{
    let mut v: Vec<u8> = Vec::new();
    v.push(('N' as u8));
    v.push(('o' as u8));
    v.push(('t' as u8));
    v.push((' ' as u8));
    v.push(('f' as u8));
    v.push(('o' as u8));
    v.push(('u' as u8));
    v.push(('n' as u8));
    v.push(('d' as u8));
    proof {
        assert(v@ =~= msg_not_found());
    }
    v
}

/// A `400 Bad Request` response around the given plain-text message.
fn bad_request(message: Vec<u8>) -> (r: Response)
    ensures
        r@ == plain_response(400, message@),
{
    Response { status: 400, json: false, body: message }
}

/// The `404 Not Found` response.
fn not_found() -> (r: Response)
    ensures
        r@ == not_found_model(),
{
    Response { status: 404, json: false, body: not_found_bytes() }
}

/// A JSON response around already-encoded bytes.  Encoding a record cannot
/// fail, so the service has no serialization-error case.
fn json_response(status: u16, body: Vec<u8>) -> (r: Response)
    ensures
        r@ == json_response_model(status, body@),
{
    Response { status, json: true, body }
}

/// Whether `path` is exactly `/books`.
fn path_is_books(path: &[u8]) -> (r: bool)
    ensures
        r == (path@ == books_path()),
{
    let r = path.len() == 6 && path[0] == 47 && path[1] == 98 && path[2] == 111 && path[3] == 111
        && path[4] == 107 && path[5] == 115;
    proof {
        if r {
            assert(path@ =~= books_path());
        } else {
            if path@ == books_path() {
                assert(path@.len() == 6);
                assert(path@[0] == 47 && path@[1] == 98 && path@[2] == 111 && path@[3] == 111
                    && path@[4] == 107 && path@[5] == 115);
            }
        }
    }
    r
}

/// Whether `path` starts with `/books/`.
fn path_has_books_prefix(path: &[u8]) -> (r: bool)
    ensures
        r == is_books_id_path(path@),
{
    let r = path.len() >= 7 && path[0] == 47 && path[1] == 98 && path[2] == 111 && path[3] == 111
        && path[4] == 107 && path[5] == 115 && path[6] == 47;
    proof {
        if r {
            assert(path@.take(7) =~= books_id_prefix());
        } else {
            if is_books_id_path(path@) {
                assert(path@.take(7)[0] == 47 && path@.take(7)[1] == 98 && path@.take(7)[2] == 111
                    && path@.take(7)[3] == 111 && path@.take(7)[4] == 107 && path@.take(7)[5]
                    == 115 && path@.take(7)[6] == 47);
            }
        }
    }
    r
}

/// Serves `POST /books`, exactly as [`spec_create_book`] describes.
pub fn create_book(storage: &mut Storage, body: &[u8]) -> (r: Response)
    requires
        old(storage).wf(),
        old(storage)@.next_id < u64::MAX,
    ensures
        final(storage).wf(),
        final(storage)@ == spec_create_book(old(storage)@, body@).0,
        r@ == spec_create_book(old(storage)@, body@).1,
{
    match parse_create_bytes(body) {
        Some(req) => {
            let CreateBookRequest { title, author, isbn } = req;
            let book = storage.create(title, author, isbn);
            let encoded = book_json(&book);
            proof {
                assert(book@ =~= spec_create_book(old(storage)@, body@).0.books.last());
                assert(storage@ =~= spec_create_book(old(storage)@, body@).0);
            }
            json_response(201, encoded)
        },
        None => bad_request(invalid_body_bytes()),
    }
}

/// Serves `GET /books`, exactly as [`spec_get_all_books`] describes.
pub fn get_all_books(storage: &Storage) -> (r: Response)
    ensures
        r@ == spec_get_all_books(storage@).1,
{
    let all = storage.get_all();
    let encoded = books_json(&all);
    proof {
        assert(all@.map_values(|b: crate::book::Book| b@) =~= storage@.books);
    }
    json_response(200, encoded)
}

/// Serves `GET /books/{id}`, exactly as [`spec_get_book`] describes.
pub fn get_book(storage: &Storage, id: u64) -> (r: Response)
    ensures
        r@ == spec_get_book(storage@, id).1,
{
    match storage.get(id) {
        Some(book) => {
            let encoded = book_json(book);
            json_response(200, encoded)
        },
        None => not_found(),
    }
}

/// Serves `PUT /books/{id}`, exactly as [`spec_update_book`] describes.
pub fn update_book(storage: &mut Storage, id: u64, body: &[u8]) -> (r: Response)
    requires
        old(storage).wf(),
    ensures
        final(storage).wf(),
        final(storage)@ == spec_update_book(old(storage)@, id, body@).0,
        r@ == spec_update_book(old(storage)@, id, body@).1,
{
    match parse_update_bytes(body) {
        Some(patch) => {
            match storage.update(id, patch) {
                Some(book) => {
                    let encoded = book_json(&book);
                    proof {
                        assert(storage@ =~= spec_update_book(old(storage)@, id, body@).0);
                    }
                    json_response(200, encoded)
                },
                None => not_found(),
            }
        },
        None => bad_request(invalid_body_bytes()),
    }
}

/// Serves `DELETE /books/{id}`, exactly as [`spec_delete_book`] describes.
pub fn delete_book(storage: &mut Storage, id: u64) -> (r: Response)
    requires
        old(storage).wf(),
    ensures
        final(storage).wf(),
        final(storage)@ == spec_delete_book(old(storage)@, id).0,
        r@ == spec_delete_book(old(storage)@, id).1,
{
    if storage.delete(id) {
        proof {
            assert(storage@ =~= spec_delete_book(old(storage)@, id).0);
        }
        Response { status: 204, json: false, body: Vec::new() }
    } else {
        not_found()
    }
}

/// Serves one request against `/books/{id}`, exactly as
/// [`spec_book_id_request`] describes: the identifier segment is parsed
/// before anything else, and a malformed one is `400`, not `404`.
pub fn handle_book_id(storage: &mut Storage, method: Method, path: &[u8], body: &[u8]) -> (r: Response)
    requires
        old(storage).wf(),
        method is Get || method is Put || method is Delete,
        is_books_id_path(path@),
    ensures
        final(storage).wf(),
        final(storage)@ == spec_book_id_request(old(storage)@, method, path@, body@).0,
        r@ == spec_book_id_request(old(storage)@, method, path@, body@).1,
{
    match parse_u64_bytes(path, 7) {
        Some(id) => match method {
            Method::Get => get_book(storage, id),
            Method::Put => update_book(storage, id, body),
            Method::Delete => delete_book(storage, id),
            _ => {
                proof {
                    assert(false);
                }
                not_found()
            },
        },
        None => bad_request(invalid_id_bytes()),
    }
}

/// Serves one whole request, exactly as [`spec_handle`] describes: every
/// method/path pair of the routing table reaches its operation, and every
/// other pair yields `404` and leaves the store unchanged.
pub fn handle_request(storage: &mut Storage, method: Method, path: &[u8], body: &[u8]) -> (r: Response)
    requires
        old(storage).wf(),
        method is Post && path@ == books_path() ==> old(storage)@.next_id < u64::MAX,
    ensures
        final(storage).wf(),
        final(storage)@ == spec_handle(old(storage)@, method, path@, body@).0,
        r@ == spec_handle(old(storage)@, method, path@, body@).1,
{
    let books = path_is_books(path);
    let books_id = path_has_books_prefix(path);
    match method {
        Method::Post => {
            if books {
                create_book(storage, body)
            } else {
                not_found()
            }
        },
        Method::Get => {
            if books {
                get_all_books(storage)
            } else if books_id {
                handle_book_id(storage, method, path, body)
            } else {
                not_found()
            }
        },
        Method::Put => {
            if books_id {
                handle_book_id(storage, method, path, body)
            } else {
                not_found()
            }
        },
        Method::Delete => {
            if books_id {
                handle_book_id(storage, method, path, body)
            } else {
                not_found()
            }
        },
        Method::Other => not_found(),
    }
}

} // verus!
