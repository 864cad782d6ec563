//! JSON encoding of records, down to the exact bytes.
//!
//! A record is rendered as `{"id":N,"title":T,"author":A,"isbn":I}` where the
//! text fields are JSON string literals (quotes, backslashes and control
//! bytes escaped) and an absent isbn is `null`; a collection is rendered as a
//! JSON array of records in order.  Encoding is total: it cannot fail on any
//! record, so the service never needs a serialization-error response.

use vstd::prelude::*;

use crate::book::{Book, BookModel};
use crate::digits::{dec_digits, push_decimal};

verus! {

/// The lower-case hex digit for `n < 16`.
pub open spec fn hex_digit(n: u8) -> u8 {
    if n < 10 {
        (48 + n) as u8
    } else {
        (87 + n) as u8
    }
}

/// The JSON escape of one string byte: the short escapes of JSON where they
/// exist, `\u00XX` for the remaining control bytes, and the byte itself
/// otherwise.
pub open spec fn escape_byte(b: u8) -> Seq<u8> {
    if b == 34 {
        seq![('\\' as u8), ('"' as u8)]
    } else if b == 92 {
        seq![('\\' as u8), ('\\' as u8)]
    } else if b == 8 {
        seq![('\\' as u8), ('b' as u8)]
    } else if b == 9 {
        seq![('\\' as u8), ('t' as u8)]
    } else if b == 10 {
        seq![('\\' as u8), ('n' as u8)]
    } else if b == 12 {
        seq![('\\' as u8), ('f' as u8)]
    } else if b == 13 {
        seq![('\\' as u8), ('r' as u8)]
    } else if b < 32 {
        seq![('\\' as u8), ('u' as u8), ('0' as u8), ('0' as u8), hex_digit(b / 16), hex_digit(b % 16)]
    } else {
        seq![b]
    }
}

/// The escaped form of a whole byte string.
pub open spec fn escaped(s: Seq<u8>) -> Seq<u8>
    decreases s.len(),
{
    if s.len() == 0 {
        Seq::empty()
    } else {
        escaped(s.drop_last()) + escape_byte(s.last())
    }
}

/// A JSON string literal: a quote, the escaped bytes, a quote.
pub open spec fn json_string(s: Seq<u8>) -> Seq<u8> {
    seq![('"' as u8)] + escaped(s) + seq![('"' as u8)]
}

/// The bytes `{"id":`.
pub open spec fn key_id() -> Seq<u8> {
    seq![('{' as u8), ('"' as u8), ('i' as u8), ('d' as u8), ('"' as u8), (':' as u8)]
}

/// The bytes `,"title":`.
pub open spec fn key_title() -> Seq<u8> {
    seq![(',' as u8), ('"' as u8), ('t' as u8), ('i' as u8), ('t' as u8), ('l' as u8), ('e' as u8), ('"' as u8), (':' as u8)]
}

/// The bytes `,"author":`.
pub open spec fn key_author() -> Seq<u8> {
    seq![(',' as u8), ('"' as u8), ('a' as u8), ('u' as u8), ('t' as u8), ('h' as u8), ('o' as u8), ('r' as u8), ('"' as u8), (':' as u8)]
}

/// The bytes `,"isbn":`.
pub open spec fn key_isbn() -> Seq<u8> {
    seq![(',' as u8), ('"' as u8), ('i' as u8), ('s' as u8), ('b' as u8), ('n' as u8), ('"' as u8), (':' as u8)]
}

/// The bytes `null`.
pub open spec fn lit_null() -> Seq<u8> {
    seq![('n' as u8), ('u' as u8), ('l' as u8), ('l' as u8)]
}

/// The JSON rendering of one record.
pub open spec fn json_of_book(b: BookModel) -> Seq<u8> {
    key_id() + dec_digits(b.id as nat) + key_title() + json_string(b.title) + key_author()
        + json_string(b.author) + key_isbn() + (match b.isbn {
        Some(s) => json_string(s),
        None => lit_null(),
    }) + seq![('}' as u8)]
}

/// The comma-separated renderings of the records of `s`.
pub open spec fn json_of_books_inner(s: Seq<BookModel>) -> Seq<u8>
    decreases s.len(),
{
    if s.len() == 0 {
        Seq::empty()
    } else if s.len() == 1 {
        json_of_book(s[0])
    } else {
        json_of_books_inner(s.drop_last()) + seq![(',' as u8)] + json_of_book(s.last())
    }
}

/// The JSON array holding the records of `s` in order.
pub open spec fn json_of_books(s: Seq<BookModel>) -> Seq<u8> {
    seq![('[' as u8)] + json_of_books_inner(s) + seq![(']' as u8)]
}

/// Appends the escaped form of `s` to `out`.
fn push_escaped(out: &mut Vec<u8>, s: &Vec<u8>)
    ensures
        final(out)@ == old(out)@ + escaped(s@),
{
    let mut i: usize = 0;
    while i < s.len()
        invariant
            i <= s@.len(),
            out@ == old(out)@ + escaped(s@.take(i as int)),
        decreases s@.len() - i,
    {
        let ghost before = out@;
        let b = s[i];
        proof {
            assert(s@.take(i + 1).drop_last() =~= s@.take(i as int));
            assert(s@.take(i + 1).last() == s@[i as int]);
        }
        if b == 34 {
            out.push(('\\' as u8));
            out.push(('"' as u8));
        } else if b == 92 {
            out.push(('\\' as u8));
            out.push(('\\' as u8));
        } else if b == 8 {
            out.push(('\\' as u8));
            out.push(('b' as u8));
        } else if b == 9 {
            out.push(('\\' as u8));
            out.push(('t' as u8));
        } else if b == 10 {
            out.push(('\\' as u8));
            out.push(('n' as u8));
        } else if b == 12 {
            out.push(('\\' as u8));
            out.push(('f' as u8));
        } else if b == 13 {
            out.push(('\\' as u8));
            out.push(('r' as u8));
        } else if b < 32 {
            out.push(('\\' as u8));
            out.push(('u' as u8));
            out.push(('0' as u8));
            out.push(('0' as u8));
            let hi: u8 = b / 16;
            let lo: u8 = b % 16;
            out.push(if hi < 10 { 48 + hi } else { 87 + hi });
            out.push(if lo < 10 { 48 + lo } else { 87 + lo });
        } else {
            out.push(b);
        }
        proof {
            assert(out@ =~= before + escape_byte(s@[i as int]));
            assert(out@ =~= old(out)@ + escaped(s@.take(i + 1)));
        }
        i = i + 1;
    }
    proof {
        assert(s@.take(s@.len() as int) =~= s@);
    }
}

/// Appends the JSON string literal for `s` to `out`.
fn push_json_string(out: &mut Vec<u8>, s: &Vec<u8>)
    ensures
        final(out)@ == old(out)@ + json_string(s@),
{
    out.push(('"' as u8));
    push_escaped(out, s);
    out.push(('"' as u8));
    proof {
        assert(out@ =~= old(out)@ + json_string(s@));
    }
}

/// Appends the bytes `{"id":` to `out`.
fn push_key_id(out: &mut Vec<u8>)
    ensures
        final(out)@ == old(out)@ + key_id(),
{
    out.push(('{' as u8));
    out.push(('"' as u8));
    out.push(('i' as u8));
    out.push(('d' as u8));
    out.push(('"' as u8));
    out.push((':' as u8));
    proof {
        assert(out@ =~= old(out)@ + key_id());
    }
}

/// Appends the bytes `,"title":` to `out`.
fn push_key_title(out: &mut Vec<u8>)
    ensures
        final(out)@ == old(out)@ + key_title(),
{
    out.push((',' as u8));
    out.push(('"' as u8));
    out.push(('t' as u8));
    out.push(('i' as u8));
    out.push(('t' as u8));
    out.push(('l' as u8));
    out.push(('e' as u8));
    out.push(('"' as u8));
    out.push((':' as u8));
    proof {
        assert(out@ =~= old(out)@ + key_title());
    }
}

/// Appends the bytes `,"author":` to `out`.
fn push_key_author(out: &mut Vec<u8>)
    ensures
        final(out)@ == old(out)@ + key_author(),
{
    out.push((',' as u8));
    out.push(('"' as u8));
    out.push(('a' as u8));
    out.push(('u' as u8));
    out.push(('t' as u8));
    out.push(('h' as u8));
    out.push(('o' as u8));
    out.push(('r' as u8));
    out.push(('"' as u8));
    out.push((':' as u8));
    proof {
        assert(out@ =~= old(out)@ + key_author());
    }
}

/// Appends the bytes `,"isbn":` to `out`.
fn push_key_isbn(out: &mut Vec<u8>)
    ensures
        final(out)@ == old(out)@ + key_isbn(),
{
    out.push((',' as u8));
    out.push(('"' as u8));
    out.push(('i' as u8));
    out.push(('s' as u8));
    out.push(('b' as u8));
    out.push(('n' as u8));
    out.push(('"' as u8));
    out.push((':' as u8));
    proof {
        assert(out@ =~= old(out)@ + key_isbn());
    }
}

/// Appends the bytes `null` to `out`.
fn push_null(out: &mut Vec<u8>)
    ensures
        final(out)@ == old(out)@ + lit_null(),
{
    out.push(('n' as u8));
    out.push(('u' as u8));
    out.push(('l' as u8));
    out.push(('l' as u8));
    proof {
        assert(out@ =~= old(out)@ + lit_null());
    }
}

/// Appends the JSON rendering of `b` to `out`.
#[verifier::rlimit(30)]
pub fn push_book_json(out: &mut Vec<u8>, b: &Book)
    ensures
        final(out)@ == old(out)@ + json_of_book(b@),
{
    push_key_id(out);
    push_decimal(out, b.id);
    push_key_title(out);
    push_json_string(out, &b.title);
    proof {
        assert(out@ =~= old(out)@ + key_id() + dec_digits(b.id as nat) + key_title()
            + json_string(b@.title));
    }
    push_key_author(out);
    push_json_string(out, &b.author);
    proof {
        assert(out@ =~= old(out)@ + key_id() + dec_digits(b.id as nat) + key_title()
            + json_string(b@.title) + key_author() + json_string(b@.author));
    }
    push_key_isbn(out);
    match &b.isbn {
        Some(s) => push_json_string(out, s),
        None => push_null(out),
    }
    out.push(('}' as u8));
    proof {
        assert(out@ =~= old(out)@ + json_of_book(b@));
    }
}

/// The JSON rendering of one record as a fresh byte vector.
pub fn book_json(b: &Book) -> (r: Vec<u8>)
    ensures
        r@ == json_of_book(b@),
{
    let mut out: Vec<u8> = Vec::new();
    push_book_json(&mut out, b);
    proof {
        assert(out@ =~= json_of_book(b@));
    }
    out
}

/// The JSON array rendering of a collection of records, in order.
pub fn books_json(v: &Vec<Book>) -> (r: Vec<u8>)
    ensures
        r@ == json_of_books(v@.map_values(|b: Book| b@)),
{
    let ghost s = v@.map_values(|b: Book| b@);
    let mut out: Vec<u8> = Vec::new();
    out.push(('[' as u8));
    let mut i: usize = 0;
    while i < v.len()
        invariant
            i <= v@.len(),
            s == v@.map_values(|b: Book| b@),
            out@ == seq![('[' as u8)] + json_of_books_inner(s.take(i as int)),
        decreases v@.len() - i,
    {
        let ghost before = out@;
        if i > 0 {
            out.push((',' as u8));
        }
        push_book_json(&mut out, &v[i]);
        proof {
            assert(s.take(i + 1).drop_last() =~= s.take(i as int));
            assert(s.take(i + 1).last() == s[i as int]);
            assert(s[i as int] == v@[i as int]@);
            if i == 0 {
                assert(out@ =~= seq![('[' as u8)] + json_of_books_inner(s.take(i + 1)));
            } else {
                assert(json_of_books_inner(s.take(i + 1)) == json_of_books_inner(s.take(i as int))
                    + seq![(',' as u8)] + json_of_book(s[i as int]));
                assert(out@ =~= seq![('[' as u8)] + json_of_books_inner(s.take(i + 1)));
            }
        }
        i = i + 1;
    }
    out.push((']' as u8));
    proof {
        assert(s.take(s.len() as int) =~= s);
        assert(out@ =~= json_of_books(s));
    }
    out
}

} // verus!
