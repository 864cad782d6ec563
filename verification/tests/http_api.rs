//! Request-level scenarios: whole HTTP steps through the dispatcher.

use bookstore::router::{handle_request, Method, Response};
use bookstore::store::Storage;

fn post(storage: &mut Storage, path: &str, body: &str) -> Response {
    handle_request(storage, Method::Post, path.as_bytes(), body.as_bytes())
}

fn get(storage: &mut Storage, path: &str) -> Response {
    handle_request(storage, Method::Get, path.as_bytes(), b"")
}

fn put(storage: &mut Storage, path: &str, body: &str) -> Response {
    handle_request(storage, Method::Put, path.as_bytes(), body.as_bytes())
}

fn delete(storage: &mut Storage, path: &str) -> Response {
    handle_request(storage, Method::Delete, path.as_bytes(), b"")
}

fn body_str(r: &Response) -> String {
    String::from_utf8(r.body.clone()).unwrap()
}

#[test]
fn create_returns_201_with_record() {
    let mut storage = Storage::new();
    let r = post(&mut storage, "/books", r#"{"title":"Dune","author":"Herbert"}"#);
    assert_eq!(r.status, 201);
    assert!(r.json);
    assert_eq!(
        body_str(&r),
        r#"{"id":1,"title":"Dune","author":"Herbert","isbn":null}"#
    );
}

#[test]
fn get_after_create_returns_same_record() {
    let mut storage = Storage::new();
    post(&mut storage, "/books", r#"{"title":"Dune","author":"Herbert"}"#);
    let r = get(&mut storage, "/books/1");
    assert_eq!(r.status, 200);
    assert!(r.json);
    assert_eq!(
        body_str(&r),
        r#"{"id":1,"title":"Dune","author":"Herbert","isbn":null}"#
    );
}

#[test]
fn get_missing_id_returns_404() {
    let mut storage = Storage::new();
    let r = get(&mut storage, "/books/99");
    assert_eq!(r.status, 404);
    assert!(!r.json);
    assert_eq!(body_str(&r), "Not found");
}

#[test]
fn put_isbn_only_keeps_other_fields() {
    let mut storage = Storage::new();
    post(&mut storage, "/books", r#"{"title":"Dune","author":"Herbert"}"#);
    let r = put(&mut storage, "/books/1", r#"{"isbn":"123"}"#);
    assert_eq!(r.status, 200);
    assert_eq!(
        body_str(&r),
        r#"{"id":1,"title":"Dune","author":"Herbert","isbn":"123"}"#
    );
}

#[test]
fn get_non_numeric_id_returns_400() {
    let mut storage = Storage::new();
    let r = get(&mut storage, "/books/abc");
    assert_eq!(r.status, 400);
    assert!(!r.json);
    assert_eq!(body_str(&r), "Invalid book ID");
}

#[test]
fn delete_then_get_returns_204_then_404() {
    let mut storage = Storage::new();
    post(&mut storage, "/books", r#"{"title":"Dune","author":"Herbert"}"#);
    let r = delete(&mut storage, "/books/1");
    assert_eq!(r.status, 204);
    assert!(r.body.is_empty());
    let r = get(&mut storage, "/books/1");
    assert_eq!(r.status, 404);
}

#[test]
fn get_all_empty_store_returns_empty_array() {
    let mut storage = Storage::new();
    let r = get(&mut storage, "/books");
    assert_eq!(r.status, 200);
    assert!(r.json);
    assert_eq!(body_str(&r), "[]");
}

#[test]
fn get_all_lists_records_in_creation_order() {
    let mut storage = Storage::new();
    post(&mut storage, "/books", r#"{"title":"A","author":"B"}"#);
    post(&mut storage, "/books", r#"{"title":"C","author":"D","isbn":"X"}"#);
    let r = get(&mut storage, "/books");
    assert_eq!(r.status, 200);
    assert_eq!(
        body_str(&r),
        r#"[{"id":1,"title":"A","author":"B","isbn":null},{"id":2,"title":"C","author":"D","isbn":"X"}]"#
    );
}

#[test]
fn create_with_bad_json_returns_400() {
    let mut storage = Storage::new();
    let r = post(&mut storage, "/books", "{\"title\":\"Dune\"");
    assert_eq!(r.status, 400);
    assert_eq!(body_str(&r), "Invalid request body");
}

#[test]
fn create_with_missing_required_field_returns_400() {
    let mut storage = Storage::new();
    let r = post(&mut storage, "/books", r#"{"title":"Dune"}"#);
    assert_eq!(r.status, 400);
    assert_eq!(body_str(&r), "Invalid request body");
}

#[test]
fn put_with_bad_body_returns_400() {
    let mut storage = Storage::new();
    post(&mut storage, "/books", r#"{"title":"Dune","author":"Herbert"}"#);
    let r = put(&mut storage, "/books/1", "not json");
    assert_eq!(r.status, 400);
    assert_eq!(body_str(&r), "Invalid request body");
}

#[test]
fn put_missing_id_returns_404() {
    let mut storage = Storage::new();
    let r = put(&mut storage, "/books/7", r#"{"title":"X"}"#);
    assert_eq!(r.status, 404);
}

#[test]
fn delete_missing_id_returns_404() {
    let mut storage = Storage::new();
    let r = delete(&mut storage, "/books/7");
    assert_eq!(r.status, 404);
    assert_eq!(body_str(&r), "Not found");
}

#[test]
fn second_delete_returns_404() {
    let mut storage = Storage::new();
    post(&mut storage, "/books", r#"{"title":"A","author":"B"}"#);
    assert_eq!(delete(&mut storage, "/books/1").status, 204);
    assert_eq!(delete(&mut storage, "/books/1").status, 404);
}

#[test]
fn unknown_route_returns_404() {
    let mut storage = Storage::new();
    assert_eq!(get(&mut storage, "/authors").status, 404);
    assert_eq!(post(&mut storage, "/books/1", "{}").status, 404);
    assert_eq!(put(&mut storage, "/books", "{}").status, 404);
    assert_eq!(delete(&mut storage, "/books").status, 404);
    assert_eq!(
        handle_request(&mut Storage::new(), Method::Other, b"/books", b"").status,
        404
    );
}

#[test]
fn id_with_sign_or_trailing_bytes_returns_400() {
    let mut storage = Storage::new();
    post(&mut storage, "/books", r#"{"title":"A","author":"B"}"#);
    assert_eq!(get(&mut storage, "/books/+1").status, 400);
    assert_eq!(get(&mut storage, "/books/-1").status, 400);
    assert_eq!(get(&mut storage, "/books/1x").status, 400);
    assert_eq!(get(&mut storage, "/books/").status, 400);
    assert_eq!(get(&mut storage, "/books/18446744073709551616").status, 400);
}

#[test]
fn deleted_id_is_never_reused() {
    let mut storage = Storage::new();
    post(&mut storage, "/books", r#"{"title":"A","author":"B"}"#);
    delete(&mut storage, "/books/1");
    let r = post(&mut storage, "/books", r#"{"title":"C","author":"D"}"#);
    assert_eq!(
        body_str(&r),
        r#"{"id":2,"title":"C","author":"D","isbn":null}"#
    );
}

#[test]
fn put_empty_object_leaves_record_unchanged() {
    let mut storage = Storage::new();
    post(&mut storage, "/books", r#"{"title":"Dune","author":"Herbert","isbn":"I"}"#);
    let before = body_str(&get(&mut storage, "/books/1"));
    let r = put(&mut storage, "/books/1", "{}");
    assert_eq!(r.status, 200);
    assert_eq!(body_str(&r), before);
    assert_eq!(body_str(&get(&mut storage, "/books/1")), before);
}

#[test]
fn put_null_fields_leave_record_unchanged() {
    let mut storage = Storage::new();
    post(&mut storage, "/books", r#"{"title":"Dune","author":"Herbert","isbn":"I"}"#);
    let before = body_str(&get(&mut storage, "/books/1"));
    let r = put(
        &mut storage,
        "/books/1",
        r#"{"title":null,"author":null,"isbn":null}"#,
    );
    assert_eq!(r.status, 200);
    assert_eq!(body_str(&get(&mut storage, "/books/1")), before);
}

#[test]
fn create_accepts_null_isbn_and_whitespace() {
    let mut storage = Storage::new();
    let r = post(
        &mut storage,
        "/books",
        " {\n\t\"isbn\" : null , \"author\" : \"B\" , \"title\" : \"A\" }\r\n",
    );
    assert_eq!(r.status, 201);
    assert_eq!(body_str(&r), r#"{"id":1,"title":"A","author":"B","isbn":null}"#);
}

#[test]
fn create_rejects_duplicate_known_keys() {
    let mut storage = Storage::new();
    let r = post(
        &mut storage,
        "/books",
        r#"{"title":"A","author":"B","title":"C"}"#,
    );
    assert_eq!(r.status, 400);
}

#[test]
fn create_ignores_unknown_members() {
    let mut storage = Storage::new();
    let r = post(
        &mut storage,
        "/books",
        r#"{"title":"A","publisher":"P","year":1965,"tags":["x",{"y":[1.5e3,true]}],"meta":null,"meta":false,"author":"B"}"#,
    );
    assert_eq!(r.status, 201);
    assert_eq!(body_str(&r), r#"{"id":1,"title":"A","author":"B","isbn":null}"#);
}

#[test]
fn create_rejects_malformed_unknown_values() {
    let mut storage = Storage::new();
    assert_eq!(
        post(&mut storage, "/books", r#"{"title":"A","author":"B","x":01}"#).status,
        400
    );
    assert_eq!(
        post(&mut storage, "/books", r#"{"title":"A","author":"B","x":nul}"#).status,
        400
    );
    assert_eq!(
        post(&mut storage, "/books", r#"{"title":"A","author":"B","x":[1,}"#).status,
        400
    );
    let deep = format!(
        r#"{{"title":"A","author":"B","x":{}1{}}}"#,
        "[".repeat(300),
        "]".repeat(300)
    );
    assert_eq!(post(&mut storage, "/books", &deep).status, 400);
}

#[test]
fn create_decodes_unicode_escapes() {
    let mut storage = Storage::new();
    let r = post(
        &mut storage,
        "/books",
        r#"{"title":"D\u0075ne","author":"H\ud83d\ude00"}"#,
    );
    assert_eq!(r.status, 201);
    assert_eq!(
        body_str(&r),
        "{\"id\":1,\"title\":\"Dune\",\"author\":\"H\u{1F600}\",\"isbn\":null}"
    );
}

#[test]
fn create_rejects_bad_unicode_escapes() {
    let mut storage = Storage::new();
    assert_eq!(
        post(&mut storage, "/books", r#"{"title":"\ud800","author":"B"}"#).status,
        400
    );
    assert_eq!(
        post(&mut storage, "/books", r#"{"title":"\uZZ11","author":"B"}"#).status,
        400
    );
}

#[test]
fn create_accepts_raw_utf8_and_rejects_invalid_utf8() {
    let mut storage = Storage::new();
    let r = post(&mut storage, "/books", "{\"title\":\"caf\u{e9}\",\"author\":\"B\"}");
    assert_eq!(r.status, 201);
    let mut bad = b"{\"title\":\"a".to_vec();
    bad.push(0xFF);
    bad.extend_from_slice(b"\",\"author\":\"B\"}");
    let r = handle_request(&mut storage, Method::Post, b"/books", &bad);
    assert_eq!(r.status, 400);
    let mut overlong = b"{\"title\":\"a".to_vec();
    overlong.extend_from_slice(&[0xC0, 0xAF]);
    overlong.extend_from_slice(b"\",\"author\":\"B\"}");
    let r = handle_request(&mut storage, Method::Post, b"/books", &overlong);
    assert_eq!(r.status, 400);
}

#[test]
fn create_rejects_trailing_bytes_after_object() {
    let mut storage = Storage::new();
    let r = post(&mut storage, "/books", r#"{"title":"A","author":"B"} extra"#);
    assert_eq!(r.status, 400);
}
