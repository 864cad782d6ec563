//! The JSON codec: exact encodings, escaping, strict identifier parsing,
//! and agreement with an independent JSON implementation.

use bookstore::book::Book;
use bookstore::decode::{parse_create_bytes, parse_update_bytes};
use bookstore::digits::parse_u64_bytes;
use bookstore::encode::{book_json, books_json};

fn book(id: u64, title: &[u8], author: &[u8], isbn: Option<&[u8]>) -> Book {
    Book { id, title: title.to_vec(), author: author.to_vec(), isbn: isbn.map(|s| s.to_vec()) }
}

#[test]
fn book_encodes_to_exact_json() {
    let b = book(7, b"Dune", b"Herbert", None);
    assert_eq!(
        String::from_utf8(book_json(&b)).unwrap(),
        r#"{"id":7,"title":"Dune","author":"Herbert","isbn":null}"#
    );
    let b = book(12, b"Dune", b"Herbert", Some(b"123"));
    assert_eq!(
        String::from_utf8(book_json(&b)).unwrap(),
        r#"{"id":12,"title":"Dune","author":"Herbert","isbn":"123"}"#
    );
}

#[test]
fn encoding_escapes_special_bytes() {
    let b = book(1, b"a\"b\\c", b"x\ny\tz\x01", None);
    assert_eq!(
        String::from_utf8(book_json(&b)).unwrap(),
        r#"{"id":1,"title":"a\"b\\c","author":"x\ny\tz\u0001","isbn":null}"#
    );
}

#[test]
fn books_encode_to_exact_json_array() {
    let v = vec![book(1, b"A", b"B", None), book(2, b"C", b"D", Some(b"E"))];
    assert_eq!(
        String::from_utf8(books_json(&v)).unwrap(),
        r#"[{"id":1,"title":"A","author":"B","isbn":null},{"id":2,"title":"C","author":"D","isbn":"E"}]"#
    );
    let none: Vec<Book> = Vec::new();
    assert_eq!(String::from_utf8(books_json(&none)).unwrap(), "[]");
}

#[test]
fn encoded_record_is_readable_by_independent_json_parser() {
    let b = book(3, b"Du\"ne\n", "caf\u{00e9}".as_bytes(), Some(b"1-2"));
    let v: serde_json::Value = serde_json::from_slice(&book_json(&b)).unwrap();
    assert_eq!(v["id"], 3);
    assert_eq!(v["title"], "Du\"ne\n");
    assert_eq!(v["author"], "caf\u{00e9}");
    assert_eq!(v["isbn"], "1-2");
}

#[test]
fn create_decode_reads_fields_and_escapes() {
    let c = parse_create_bytes(br#"{"title":"a\"b\\c\/d\be\ff\ng\rh\ti","author":"B"}"#).unwrap();
    assert_eq!(c.title, b"a\"b\\c/d\x08e\x0cf\ng\rh\ti".to_vec());
    assert_eq!(c.author, b"B".to_vec());
    assert_eq!(c.isbn, None);
}

#[test]
fn create_decode_rejects_malformed_bodies() {
    assert!(parse_create_bytes(b"").is_none());
    assert!(parse_create_bytes(b"null").is_none());
    assert!(parse_create_bytes(b"[]").is_none());
    assert!(parse_create_bytes(br#"{"title":"A"}"#).is_none());
    assert!(parse_create_bytes(br#"{"author":"B"}"#).is_none());
    assert!(parse_create_bytes(br#"{"title":null,"author":"B"}"#).is_none());
    assert!(parse_create_bytes(br#"{"title":"A","author":"B""#).is_none());
    assert!(parse_create_bytes(br#"{"title":"A" "author":"B"}"#).is_none());
    assert!(parse_create_bytes(br#"{"title":"A","author":"B",}"#).is_none());
    assert!(parse_create_bytes(b"{\"title\":\"A\x01\",\"author\":\"B\"}").is_none());
    assert!(parse_create_bytes(br#"{"title":"A","author":"B"}{}"#).is_none());
}

#[test]
fn update_decode_distinguishes_absent_null_and_string() {
    let p = parse_update_bytes(br#"{"isbn":"123"}"#).unwrap();
    assert_eq!(p.title, None);
    assert_eq!(p.author, None);
    assert_eq!(p.isbn, Some(b"123".to_vec()));
    let p = parse_update_bytes(br#"{"title":null,"author":"X"}"#).unwrap();
    assert_eq!(p.title, None);
    assert_eq!(p.author, Some(b"X".to_vec()));
    assert_eq!(p.isbn, None);
    let p = parse_update_bytes(b"{}").unwrap();
    assert_eq!(p.title, None);
    assert_eq!(p.author, None);
    assert_eq!(p.isbn, None);
}

#[test]
fn update_decode_rejects_malformed_bodies() {
    assert!(parse_update_bytes(b"").is_none());
    assert!(parse_update_bytes(b"nonsense").is_none());
    assert!(parse_update_bytes(br#"{"title":42}"#).is_none());
    assert!(parse_update_bytes(br#"{"title":"A","title":"B"}"#).is_none());
}

#[test]
fn decoder_agrees_with_independent_parser_on_simple_bodies() {
    let body = br#" { "title" : "T" , "author" : "A" , "isbn" : null } "#;
    let mine = parse_create_bytes(body).unwrap();
    let theirs: serde_json::Value = serde_json::from_slice(body).unwrap();
    assert_eq!(mine.title, theirs["title"].as_str().unwrap().as_bytes().to_vec());
    assert_eq!(mine.author, theirs["author"].as_str().unwrap().as_bytes().to_vec());
    assert!(theirs["isbn"].is_null() && mine.isbn.is_none());
}

#[test]
fn identifier_parse_is_strict() {
    assert_eq!(parse_u64_bytes(b"0", 0), Some(0));
    assert_eq!(parse_u64_bytes(b"42", 0), Some(42));
    assert_eq!(parse_u64_bytes(b"007", 0), Some(7));
    assert_eq!(parse_u64_bytes(b"18446744073709551615", 0), Some(u64::MAX));
    assert_eq!(parse_u64_bytes(b"18446744073709551616", 0), None);
    assert_eq!(parse_u64_bytes(b"99999999999999999999999", 0), None);
    assert_eq!(parse_u64_bytes(b"", 0), None);
    assert_eq!(parse_u64_bytes(b"+1", 0), None);
    assert_eq!(parse_u64_bytes(b"-1", 0), None);
    assert_eq!(parse_u64_bytes(b"1 ", 0), None);
    assert_eq!(parse_u64_bytes(b"1a", 0), None);
    assert_eq!(parse_u64_bytes(b"/books/5", 7), Some(5));
}

#[test]
fn create_decode_reads_unicode_escapes_as_utf8() {
    let c = parse_create_bytes(br#"{"title":"\u0041\u00e9\u20ac\ud83d\ude00","author":"B"}"#)
        .unwrap();
    assert_eq!(
        c.title,
        vec![0x41, 0xC3, 0xA9, 0xE2, 0x82, 0xAC, 0xF0, 0x9F, 0x98, 0x80]
    );
    assert_eq!(String::from_utf8(c.title).unwrap(), "A\u{e9}\u{20ac}\u{1F600}");
}

#[test]
fn decoder_agrees_with_independent_parser_on_unknown_members() {
    let body = br#"{"title":"T\n","extra":{"a":[1,2.5,-3e+2,true,null],"b":"\u0042"},"author":"A"}"#;
    let mine = parse_create_bytes(body).unwrap();
    let theirs: serde_json::Value = serde_json::from_slice(body).unwrap();
    assert_eq!(mine.title, theirs["title"].as_str().unwrap().as_bytes().to_vec());
    assert_eq!(mine.author, theirs["author"].as_str().unwrap().as_bytes().to_vec());
}

#[test]
fn decoder_bounds_nesting_of_ignored_values() {
    let shallow = format!(
        r#"{{"title":"A","author":"B","x":{}1{}}}"#,
        "[".repeat(5),
        "]".repeat(5)
    );
    assert!(parse_create_bytes(shallow.as_bytes()).is_some());
    let deep = format!(
        r#"{{"title":"A","author":"B","x":{}1{}}}"#,
        "[".repeat(300),
        "]".repeat(300)
    );
    assert!(parse_create_bytes(deep.as_bytes()).is_none());
    assert!(serde_json::from_slice::<serde_json::Value>(deep.as_bytes()).is_err());
}
