//! Decoding of request bodies.
//!
//! The service accepts a JSON object whose known members are `title`,
//! `author` and `isbn`, in any order, each valued by a JSON string or
//! `null`; unknown members are read over any well-formed JSON value and
//! ignored; a known member may not repeat; surrounding whitespace is allowed
//! and the whole body must be consumed.  Strings take the short escapes
//! `\" \\ \/ \b \f \n \r \t` and `\uXXXX` (surrogate pairs included, encoded
//! as UTF-8); string bytes below 0x20 must be escaped, and bytes above 0x7F
//! must form valid UTF-8.  A `null` value, like an absent member, makes the
//! field absent.  Nesting inside ignored values is bounded at 128 levels.
//! Anything else is a decode failure.

use vstd::prelude::*;

use crate::book::{CreateBookRequest, CreateModel, UpdateBookRequest, UpdateModel};
use crate::digits::is_digit;

verus! {

/// JSON whitespace.
pub open spec fn is_ws(b: u8) -> bool {
    b == 32 || b == 9 || b == 10 || b == 13
}

/// The index of the first byte at or after `i` that is not whitespace.
pub open spec fn skip_ws(s: Seq<u8>, i: int) -> int
    decreases s.len() - i
        when 0 <= i <= s.len()
{
    if i < s.len() && is_ws(s[i]) {
        skip_ws(s, i + 1)
    } else {
        i
    }
}

/// Skipping whitespace never moves backwards nor past the end.
pub proof fn lemma_skip_ws_bounds(s: Seq<u8>, i: int)
    requires
        0 <= i <= s.len(),
    ensures
        i <= skip_ws(s, i) <= s.len(),
    decreases s.len() - i,
{
    if i < s.len() && is_ws(s[i]) {
        lemma_skip_ws_bounds(s, i + 1);
    }
}

/// The index of the first byte at or after `i` that is not a digit.
pub open spec fn skip_digits(s: Seq<u8>, i: int) -> int
    decreases s.len() - i
        when 0 <= i <= s.len()
{
    if i < s.len() && is_digit(s[i]) {
        skip_digits(s, i + 1)
    } else {
        i
    }
}

/// Skipping digits never moves backwards nor past the end.
pub proof fn lemma_skip_digits_bounds(s: Seq<u8>, i: int)
    requires
        0 <= i <= s.len(),
    ensures
        i <= skip_digits(s, i) <= s.len(),
    decreases s.len() - i,
{
    if i < s.len() && is_digit(s[i]) {
        lemma_skip_digits_bounds(s, i + 1);
    }
}

/// The single-character escapes that may follow a backslash in a string.
pub open spec fn is_escape_code(b: u8) -> bool {
    b == 34 || b == 92 || b == 47 || b == 98 || b == 102 || b == 110 || b == 114 || b == 116
}

/// The byte denoted by the escape `\c`: the named control bytes for
/// `b f n r t`, and the character itself for `" \ /`.
pub open spec fn unescape(b: u8) -> u8 {
    if b == 98 {
        8
    } else if b == 102 {
        12
    } else if b == 110 {
        10
    } else if b == 114 {
        13
    } else if b == 116 {
        9
    } else {
        b
    }
}

/// The value of one hex digit, or `-1`.
pub open spec fn hex_val(b: u8) -> int {
    if 48 <= b <= 57 {
        b - 48
    } else if 97 <= b <= 102 {
        b - 87
    } else if 65 <= b <= 70 {
        b - 55
    } else {
        -1
    }
}

/// The value of the four hex digits at `i`, or `-1` when they are missing
/// or malformed.
pub open spec fn hex4(s: Seq<u8>, i: int) -> int {
    if 0 <= i && i + 4 <= s.len() && hex_val(s[i]) >= 0 && hex_val(s[i + 1]) >= 0 && hex_val(
        s[i + 2],
    ) >= 0 && hex_val(s[i + 3]) >= 0 {
        hex_val(s[i]) * 4096 + hex_val(s[i + 1]) * 256 + hex_val(s[i + 2]) * 16 + hex_val(s[i + 3])
    } else {
        -1
    }
}

/// The UTF-8 encoding of the code point `cp`.
pub open spec fn utf8_of(cp: nat) -> Seq<u8>
    recommends
        cp <= 0x10FFFF,
{
    if cp < 0x80 {
        seq![cp as u8]
    } else if cp < 0x800 {
        seq![(192 + cp / 64) as u8, (128 + cp % 64) as u8]
    } else if cp < 0x10000 {
        seq![(224 + cp / 4096) as u8, (128 + (cp / 64) % 64) as u8, (128 + cp % 64) as u8]
    } else {
        seq![
            (240 + cp / 262144) as u8,
            (128 + (cp / 4096) % 64) as u8,
            (128 + (cp / 64) % 64) as u8,
            (128 + cp % 64) as u8,
        ]
    }
}

/// Whether `b` is a UTF-8 continuation byte.
pub open spec fn is_cont(b: u8) -> bool {
    128 <= b <= 191
}

/// Parses the body of a string starting just after its opening quote, with
/// `acc` the content read so far: yields the full content and the index
/// just after the closing quote, or nothing on an unterminated or malformed
/// string.  Escapes are decoded (`\uXXXX` to UTF-8, surrogate pairs
/// combined, lone surrogates refused); bytes above 0x7F must form strict
/// UTF-8 and are kept as they stand.
pub open spec fn str_body(s: Seq<u8>, i: int, acc: Seq<u8>) -> Option<(Seq<u8>, int)>
    decreases s.len() - i
        when 0 <= i <= s.len()
{
    if i >= s.len() {
        None
    } else if s[i] == 34 {
        Some((acc, i + 1))
    } else if s[i] == 92 {
        if i + 1 < s.len() && is_escape_code(s[i + 1]) {
            str_body(s, i + 2, acc.push(unescape(s[i + 1])))
        } else if i + 1 < s.len() && s[i + 1] == 117 {
            let cp = hex4(s, i + 2);
            if cp < 0 {
                None
            } else if cp < 0xD800 || cp >= 0xE000 {
                str_body(s, i + 6, acc + utf8_of(cp as nat))
            } else if cp < 0xDC00 {
                if i + 12 <= s.len() && s[i + 6] == 92 && s[i + 7] == 117 {
                    let lo = hex4(s, i + 8);
                    if 0xDC00 <= lo < 0xE000 {
                        str_body(
                            s,
                            i + 12,
                            acc + utf8_of((0x10000 + (cp - 0xD800) * 0x400 + (lo - 0xDC00)) as nat),
                        )
                    } else {
                        None
                    }
                } else {
                    None
                }
            } else {
                None
            }
        } else {
            None
        }
    } else if 32 <= s[i] <= 127 {
        str_body(s, i + 1, acc.push(s[i]))
    } else if 194 <= s[i] <= 223 {
        if i + 1 < s.len() && is_cont(s[i + 1]) {
            str_body(s, i + 2, acc + seq![s[i], s[i + 1]])
        } else {
            None
        }
    } else if s[i] == 224 {
        if i + 2 < s.len() && 160 <= s[i + 1] <= 191 && is_cont(s[i + 2]) {
            str_body(s, i + 3, acc + seq![s[i], s[i + 1], s[i + 2]])
        } else {
            None
        }
    } else if 225 <= s[i] <= 236 || s[i] == 238 || s[i] == 239 {
        if i + 2 < s.len() && is_cont(s[i + 1]) && is_cont(s[i + 2]) {
            str_body(s, i + 3, acc + seq![s[i], s[i + 1], s[i + 2]])
        } else {
            None
        }
    } else if s[i] == 237 {
        if i + 2 < s.len() && 128 <= s[i + 1] <= 159 && is_cont(s[i + 2]) {
            str_body(s, i + 3, acc + seq![s[i], s[i + 1], s[i + 2]])
        } else {
            None
        }
    } else if s[i] == 240 {
        if i + 3 < s.len() && 144 <= s[i + 1] <= 191 && is_cont(s[i + 2]) && is_cont(s[i + 3]) {
            str_body(s, i + 4, acc + seq![s[i], s[i + 1], s[i + 2], s[i + 3]])
        } else {
            None
        }
    } else if 241 <= s[i] <= 243 {
        if i + 3 < s.len() && is_cont(s[i + 1]) && is_cont(s[i + 2]) && is_cont(s[i + 3]) {
            str_body(s, i + 4, acc + seq![s[i], s[i + 1], s[i + 2], s[i + 3]])
        } else {
            None
        }
    } else if s[i] == 244 {
        if i + 3 < s.len() && 128 <= s[i + 1] <= 143 && is_cont(s[i + 2]) && is_cont(s[i + 3]) {
            str_body(s, i + 4, acc + seq![s[i], s[i + 1], s[i + 2], s[i + 3]])
        } else {
            None
        }
    } else {
        None
    }
}

/// A parsed member value: a string or an explicit `null`.
pub enum JsonValue {
    Null,
    Str(Seq<u8>),
}

/// Parses one known-member value at `i`: a string or the literal `null`.
pub open spec fn json_value(s: Seq<u8>, i: int) -> Option<(JsonValue, int)>
    recommends
        0 <= i <= s.len(),
{
    if i < s.len() && s[i] == 34 {
        match str_body(s, i + 1, Seq::empty()) {
            Some((t, j)) => Some((JsonValue::Str(t), j)),
            None => None,
        }
    } else if i + 4 <= s.len() && s[i] == 110 && s[i + 1] == 117 && s[i + 2] == 108 && s[i + 3]
        == 108 {
        Some((JsonValue::Null, i + 4))
    } else {
        None
    }
}

/// The end of the fraction part of a number starting at `k`, if well
/// formed.
pub open spec fn skip_frac(s: Seq<u8>, k: int) -> Option<int>
    recommends
        0 <= k <= s.len(),
{
    if k < s.len() && s[k] == 46 {
        if k + 1 < s.len() && is_digit(s[k + 1]) {
            Some(skip_digits(s, k + 1))
        } else {
            None
        }
    } else {
        Some(k)
    }
}

/// The end of the exponent part of a number starting at `k`, if well
/// formed.
pub open spec fn skip_exp(s: Seq<u8>, k: int) -> Option<int>
    recommends
        0 <= k <= s.len(),
{
    if k < s.len() && (s[k] == 101 || s[k] == 69) {
        let e = if k + 1 < s.len() && (s[k + 1] == 43 || s[k + 1] == 45) {
            k + 2
        } else {
            k + 1
        };
        if e < s.len() && is_digit(s[e]) {
            Some(skip_digits(s, e))
        } else {
            None
        }
    } else {
        Some(k)
    }
}

/// The index just after a JSON number at `i`, if one stands there: an
/// optional minus, an integer part without a leading zero, an optional
/// fraction and exponent.
pub open spec fn skip_number(s: Seq<u8>, i: int) -> Option<int>
    recommends
        0 <= i <= s.len(),
{
    let j = if i < s.len() && s[i] == 45 {
        i + 1
    } else {
        i
    };
    if !(j < s.len() && is_digit(s[j])) {
        None
    } else {
        let k = if s[j] == 48 {
            j + 1
        } else {
            skip_digits(s, j)
        };
        match skip_frac(s, k) {
            None => None,
            Some(k2) => skip_exp(s, k2),
        }
    }
}

/// Reads the key and colon of an object member at `k` and goes on to the
/// member's value.  Part of the machine that reads an ignored value.
pub open spec fn member_key_step(s: Seq<u8>, k: int, stack: Seq<bool>, fuel: nat) -> Option<int>
    decreases fuel, 1int,
{
    if !(k < s.len() && s[k] == 34) {
        None
    } else {
        match str_body(s, k + 1, Seq::empty()) {
            None => None,
            Some((key, k2)) => {
                let k3 = skip_ws(s, k2);
                if k3 < s.len() && s[k3] == 58 {
                    skip_machine(s, k3 + 1, stack, false, fuel)
                } else {
                    None
                }
            },
        }
    }
}

/// One well-formed JSON value, read and discarded: a token machine over the
/// input, with a stack of open containers (`true` is an object, `false` an
/// array) and a mode (`after` set when a value has just been completed).
/// Yields the index just after the value.  The fuel only bounds the
/// recursion: every step consumes at least one byte, so a fuel of the input
/// length plus two never runs out; the container stack is bounded at 128,
/// the nesting limit of common JSON parsers.
pub open spec fn skip_machine(s: Seq<u8>, i: int, stack: Seq<bool>, after: bool, fuel: nat) -> Option<
    int,
>
    decreases fuel, 0int,
{
    if fuel == 0 {
        None
    } else if after {
        if stack.len() == 0 {
            Some(i)
        } else {
            let j = skip_ws(s, i);
            if !(j < s.len()) {
                None
            } else if s[j] == 44 {
                if stack.last() {
                    member_key_step(s, skip_ws(s, j + 1), stack, (fuel - 1) as nat)
                } else {
                    skip_machine(s, j + 1, stack, false, (fuel - 1) as nat)
                }
            } else if stack.last() && s[j] == 125 {
                skip_machine(s, j + 1, stack.drop_last(), true, (fuel - 1) as nat)
            } else if !stack.last() && s[j] == 93 {
                skip_machine(s, j + 1, stack.drop_last(), true, (fuel - 1) as nat)
            } else {
                None
            }
        }
    } else {
        let j = skip_ws(s, i);
        if !(j < s.len()) {
            None
        } else if s[j] == 34 {
            match str_body(s, j + 1, Seq::empty()) {
                Some((t, k)) => skip_machine(s, k, stack, true, (fuel - 1) as nat),
                None => None,
            }
        } else if s[j] == 123 {
            let k = skip_ws(s, j + 1);
            if k < s.len() && s[k] == 125 {
                skip_machine(s, k + 1, stack, true, (fuel - 1) as nat)
            } else if stack.len() < 128 {
                member_key_step(s, k, stack.push(true), (fuel - 1) as nat)
            } else {
                None
            }
        } else if s[j] == 91 {
            let k = skip_ws(s, j + 1);
            if k < s.len() && s[k] == 93 {
                skip_machine(s, k + 1, stack, true, (fuel - 1) as nat)
            } else if stack.len() < 128 {
                skip_machine(s, k, stack.push(false), false, (fuel - 1) as nat)
            } else {
                None
            }
        } else if s[j] == 116 {
            if j + 4 <= s.len() && s[j + 1] == 114 && s[j + 2] == 117 && s[j + 3] == 101 {
                skip_machine(s, j + 4, stack, true, (fuel - 1) as nat)
            } else {
                None
            }
        } else if s[j] == 102 {
            if j + 5 <= s.len() && s[j + 1] == 97 && s[j + 2] == 108 && s[j + 3] == 115 && s[j + 4]
                == 101 {
                skip_machine(s, j + 5, stack, true, (fuel - 1) as nat)
            } else {
                None
            }
        } else if s[j] == 110 {
            if j + 4 <= s.len() && s[j + 1] == 117 && s[j + 2] == 108 && s[j + 3] == 108 {
                skip_machine(s, j + 4, stack, true, (fuel - 1) as nat)
            } else {
                None
            }
        } else {
            match skip_number(s, j) {
                Some(k) => skip_machine(s, k, stack, true, (fuel - 1) as nat),
                None => None,
            }
        }
    }
}

/// The index just after the well-formed JSON value at `i`, if one stands
/// there.
pub open spec fn skip_json_value(s: Seq<u8>, i: int) -> Option<int> {
    skip_machine(s, i, Seq::empty(), false, (s.len() + 2) as nat)
}

/// The field states gathered while reading an object: each known field is
/// absent until a member names it.
#[verifier::ext_equal]
pub struct FieldsModel {
    pub title: Option<JsonValue>,
    pub author: Option<JsonValue>,
    pub isbn: Option<JsonValue>,
}

/// The state before any member has been read.
pub open spec fn no_fields() -> FieldsModel {
    FieldsModel { title: None, author: None, isbn: None }
}

/// The bytes `title`.
pub open spec fn field_title() -> Seq<u8> {
    seq![('t' as u8), ('i' as u8), ('t' as u8), ('l' as u8), ('e' as u8)]
}

/// The bytes `author`.
pub open spec fn field_author() -> Seq<u8> {
    seq![('a' as u8), ('u' as u8), ('t' as u8), ('h' as u8), ('o' as u8), ('r' as u8)]
}

/// The bytes `isbn`.
pub open spec fn field_isbn() -> Seq<u8> {
    seq![('i' as u8), ('s' as u8), ('b' as u8), ('n' as u8)]
}

/// Whether `key` names one of the known fields.
pub open spec fn is_known_key(key: Seq<u8>) -> bool {
    key == field_title() || key == field_author() || key == field_isbn()
}

/// Records a known member under its key: fails on a key seen before.
pub open spec fn set_field(f: FieldsModel, key: Seq<u8>, v: JsonValue) -> Option<FieldsModel> {
    if key == field_title() {
        if f.title is None {
            Some(FieldsModel { title: Some(v), author: f.author, isbn: f.isbn })
        } else {
            None
        }
    } else if key == field_author() {
        if f.author is None {
            Some(FieldsModel { title: f.title, author: Some(v), isbn: f.isbn })
        } else {
            None
        }
    } else if key == field_isbn() {
        if f.isbn is None {
            Some(FieldsModel { title: f.title, author: f.author, isbn: Some(v) })
        } else {
            None
        }
    } else {
        None
    }
}

/// Parses members from the first key at `i` up to and including the closing
/// brace, starting from the fields `f`: yields the gathered fields and the
/// index just after the brace.  A known key takes a string or `null` and
/// may not repeat; an unknown key takes any well-formed JSON value and is
/// ignored.  The fuel only bounds the recursion: every member consumes
/// bytes, so a fuel of the input length plus two never runs out.
pub open spec fn members(s: Seq<u8>, i: int, f: FieldsModel, fuel: nat) -> Option<
    (FieldsModel, int),
>
    decreases fuel,
{
    if fuel == 0 {
        None
    } else if !(i < s.len() && s[i] == 34) {
        None
    } else {
        match str_body(s, i + 1, Seq::empty()) {
            None => None,
            Some((key, j)) => {
                let j2 = skip_ws(s, j);
                if !(j2 < s.len() && s[j2] == 58) {
                    None
                } else {
                    let j3 = skip_ws(s, j2 + 1);
                    if is_known_key(key) {
                        match json_value(s, j3) {
                            None => None,
                            Some((v, j4)) => match set_field(f, key, v) {
                                None => None,
                                Some(f2) => {
                                    let j5 = skip_ws(s, j4);
                                    if j5 < s.len() && s[j5] == 44 {
                                        members(s, skip_ws(s, j5 + 1), f2, (fuel - 1) as nat)
                                    } else if j5 < s.len() && s[j5] == 125 {
                                        Some((f2, j5 + 1))
                                    } else {
                                        None
                                    }
                                },
                            },
                        }
                    } else {
                        match skip_json_value(s, j3) {
                            None => None,
                            Some(j4) => {
                                let j5 = skip_ws(s, j4);
                                if j5 < s.len() && s[j5] == 44 {
                                    members(s, skip_ws(s, j5 + 1), f, (fuel - 1) as nat)
                                } else if j5 < s.len() && s[j5] == 125 {
                                    Some((f, j5 + 1))
                                } else {
                                    None
                                }
                            },
                        }
                    }
                }
            },
        }
    }
}

/// Parses a whole body: whitespace, an object of members, whitespace, end
/// of input.
pub open spec fn parse_doc(s: Seq<u8>) -> Option<FieldsModel> {
    let i = skip_ws(s, 0);
    if i < s.len() && s[i] == 123 {
        let j = skip_ws(s, i + 1);
        if j < s.len() && s[j] == 125 {
            if skip_ws(s, j + 1) == s.len() {
                Some(no_fields())
            } else {
                None
            }
        } else {
            match members(s, j, no_fields(), (s.len() + 2) as nat) {
                Some((f, k)) => if 0 <= k <= s.len() && skip_ws(s, k) == s.len() {
                    Some(f)
                } else {
                    None
                },
                None => None,
            }
        }
    } else {
        None
    }
}

/// The creation payload a document denotes: `title` and `author` must be
/// present strings; `isbn` may be a string, `null`, or absent, the latter
/// two leaving it unset.
pub open spec fn create_of(f: FieldsModel) -> Option<CreateModel> {
    match (f.title, f.author) {
        (Some(JsonValue::Str(t)), Some(JsonValue::Str(a))) => Some(
            CreateModel {
                title: t,
                author: a,
                isbn: match f.isbn {
                    Some(JsonValue::Str(x)) => Some(x),
                    _ => None,
                },
            },
        ),
        _ => None,
    }
}

/// Strict decode of a creation payload.
pub open spec fn parse_create(s: Seq<u8>) -> Option<CreateModel> {
    match parse_doc(s) {
        Some(f) => create_of(f),
        None => None,
    }
}

/// The patch a document denotes: a field valued by a string is to be set,
/// one valued by `null` or absent is left unchanged.
pub open spec fn update_of(f: FieldsModel) -> UpdateModel {
    UpdateModel {
        title: match f.title {
            Some(JsonValue::Str(t)) => Some(t),
            _ => None,
        },
        author: match f.author {
            Some(JsonValue::Str(a)) => Some(a),
            _ => None,
        },
        isbn: match f.isbn {
            Some(JsonValue::Str(x)) => Some(x),
            _ => None,
        },
    }
}

/// Strict decode of a patch payload.
pub open spec fn parse_update(s: Seq<u8>) -> Option<UpdateModel> {
    match parse_doc(s) {
        Some(f) => Some(update_of(f)),
        None => None,
    }
}

/// A parsed member value held by executable code.
pub enum FieldVal {
    Null,
    Str(Vec<u8>),
}

impl View for FieldVal {
    type V = JsonValue;

    open spec fn view(&self) -> JsonValue {
        match self {
            FieldVal::Null => JsonValue::Null,
            FieldVal::Str(v) => JsonValue::Str(v@),
        }
    }
}

/// The field states gathered by the executable parser.
pub struct Fields {
    pub title: Option<FieldVal>,
    pub author: Option<FieldVal>,
    pub isbn: Option<FieldVal>,
}

impl View for Fields {
    type V = FieldsModel;

    open spec fn view(&self) -> FieldsModel {
        FieldsModel {
            title: match &self.title {
                Some(v) => Some(v@),
                None => None,
            },
            author: match &self.author {
                Some(v) => Some(v@),
                None => None,
            },
            isbn: match &self.isbn {
                Some(v) => Some(v@),
                None => None,
            },
        }
    }
}

/// Moves past whitespace, exactly as [`skip_ws`] describes.
fn skip_ws_bytes(s: &[u8], start: usize) -> (r: usize)
    requires
        start <= s@.len(),
    ensures
        r as int == skip_ws(s@, start as int),
        start <= r <= s@.len(),
{
    let mut i: usize = start;
    while i < s.len() && (s[i] == 32 || s[i] == 9 || s[i] == 10 || s[i] == 13)
        invariant
            start <= i <= s@.len(),
            skip_ws(s@, start as int) == skip_ws(s@, i as int),
        decreases s@.len() - i,
    {
        i = i + 1;
    }
    i
}

/// Moves past digits, exactly as [`skip_digits`] describes.
fn skip_digits_bytes(s: &[u8], start: usize) -> (r: usize)
    requires
        start <= s@.len(),
    ensures
        r as int == skip_digits(s@, start as int),
        start <= r <= s@.len(),
{
    let mut i: usize = start;
    while i < s.len() && s[i] >= 48 && s[i] <= 57
        invariant
            start <= i <= s@.len(),
            skip_digits(s@, start as int) == skip_digits(s@, i as int),
        decreases s@.len() - i,
    {
        i = i + 1;
    }
    i
}

/// The value of one hex digit, with `255` for a byte that is none.
fn hex_nibble(b: u8) -> (r: u8)
    ensures
        hex_val(b) >= 0 ==> r as int == hex_val(b),
        hex_val(b) < 0 ==> r == 255,
{
    if b >= 48 && b <= 57 {
        b - 48
    } else if b >= 97 && b <= 102 {
        b - 87
    } else if b >= 65 && b <= 70 {
        b - 55
    } else {
        255
    }
}

/// Appends the UTF-8 encoding of `cp`, exactly as [`utf8_of`] describes.
fn push_utf8(acc: &mut Vec<u8>, cp: u32)
    requires
        cp <= 0x10FFFF,
    ensures
        final(acc)@ == old(acc)@ + utf8_of(cp as nat),
{
    if cp < 0x80 {
        acc.push(cp as u8);
    } else if cp < 0x800 {
        acc.push((192 + cp / 64) as u8);
        acc.push((128 + cp % 64) as u8);
    } else if cp < 0x10000 {
        acc.push((224 + cp / 4096) as u8);
        acc.push((128 + (cp / 64) % 64) as u8);
        acc.push((128 + cp % 64) as u8);
    } else {
        acc.push((240 + cp / 262144) as u8);
        acc.push((128 + (cp / 4096) % 64) as u8);
        acc.push((128 + (cp / 64) % 64) as u8);
        acc.push((128 + cp % 64) as u8);
    }
    proof {
        assert(acc@ =~= old(acc)@ + utf8_of(cp as nat));
    }
}

/// Reads a string body from just after its opening quote, exactly as
/// [`str_body`] describes.
#[verifier::rlimit(100)]
fn parse_str_body(s: &[u8], start: usize) -> (r: Option<(Vec<u8>, usize)>)
    requires
        start <= s@.len(),
    ensures
        match r {
            Some(p) => str_body(s@, start as int, Seq::empty()) == Some((p.0@, p.1 as int))
                && start < p.1 <= s@.len(),
            None => str_body(s@, start as int, Seq::empty()) is None,
        },
{
    let mut acc: Vec<u8> = Vec::new();
    let mut i: usize = start;
    loop
        invariant
            start <= i <= s@.len(),
            str_body(s@, start as int, Seq::empty()) == str_body(s@, i as int, acc@),
        decreases s@.len() - i,
    {
        if i >= s.len() {
            return None;
        }
        let ghost pre_i = i as int;
        let ghost pre_acc = acc@;
        let b = s[i];
        if b == 34 {
            return Some((acc, i + 1));
        }
        if b == 92 {
            if s.len() - i < 2 {
                return None;
            }
            let e = s[i + 1];
            if e == 34 || e == 92 || e == 47 || e == 98 || e == 102 || e == 110 || e == 114 || e
                == 116 {
                let u: u8 = if e == 98 {
                    8
                } else if e == 102 {
                    12
                } else if e == 110 {
                    10
                } else if e == 114 {
                    13
                } else if e == 116 {
                    9
                } else {
                    e
                };
                acc.push(u);
                i = i + 2;
                proof {
                    assert(u == unescape(e));
                    assert(str_body(s@, pre_i, pre_acc) == str_body(s@, i as int, acc@));
                }
            } else if e == 117 {
                if s.len() - i < 6 {
                    return None;
                }
                let h0 = hex_nibble(s[i + 2]);
                let h1 = hex_nibble(s[i + 3]);
                let h2 = hex_nibble(s[i + 4]);
                let h3 = hex_nibble(s[i + 5]);
                if h0 == 255 || h1 == 255 || h2 == 255 || h3 == 255 {
                    return None;
                }
                let cp: u32 = (h0 as u32) * 4096 + (h1 as u32) * 256 + (h2 as u32) * 16 + (
                h3 as u32);
                proof {
                    assert(cp as int == hex4(s@, pre_i + 2));
                }
                if cp < 0xD800 || cp >= 0xE000 {
                    push_utf8(&mut acc, cp);
                    i = i + 6;
                    proof {
                        assert(str_body(s@, pre_i, pre_acc) == str_body(s@, i as int, acc@));
                    }
                } else if cp < 0xDC00 {
                    if s.len() - i < 12 || s[i + 6] != 92 || s[i + 7] != 117 {
                        return None;
                    }
                    let g0 = hex_nibble(s[i + 8]);
                    let g1 = hex_nibble(s[i + 9]);
                    let g2 = hex_nibble(s[i + 10]);
                    let g3 = hex_nibble(s[i + 11]);
                    if g0 == 255 || g1 == 255 || g2 == 255 || g3 == 255 {
                        return None;
                    }
                    let lo: u32 = (g0 as u32) * 4096 + (g1 as u32) * 256 + (g2 as u32) * 16 + (
                    g3 as u32);
                    proof {
                        assert(lo as int == hex4(s@, pre_i + 8));
                    }
                    if lo < 0xDC00 || lo >= 0xE000 {
                        return None;
                    }
                    let full: u32 = 0x10000 + (cp - 0xD800) * 0x400 + (lo - 0xDC00);
                    push_utf8(&mut acc, full);
                    i = i + 12;
                    proof {
                        assert(str_body(s@, pre_i, pre_acc) == str_body(s@, i as int, acc@));
                    }
                } else {
                    return None;
                }
            } else {
                return None;
            }
        } else if b >= 32 && b <= 127 {
            acc.push(b);
            i = i + 1;
            proof {
                assert(str_body(s@, pre_i, pre_acc) == str_body(s@, i as int, acc@));
            }
        } else if b >= 194 && b <= 223 {
            if s.len() - i > 1 && s[i + 1] >= 128 && s[i + 1] <= 191 {
                let c1 = s[i + 1];
                acc.push(b);
                acc.push(c1);
                i = i + 2;
                proof {
                    assert(acc@ =~= pre_acc + seq![b, c1]);
                    assert(str_body(s@, pre_i, pre_acc) == str_body(s@, i as int, acc@));
                }
            } else {
                return None;
            }
        } else if b == 224 || (b >= 225 && b <= 236) || b == 237 || b == 238 || b == 239 {
            let lo1: u8 = if b == 224 {
                160
            } else {
                128
            };
            let hi1: u8 = if b == 237 {
                159
            } else {
                191
            };
            if s.len() - i > 2 && s[i + 1] >= lo1 && s[i + 1] <= hi1 && s[i + 2] >= 128 && s[i + 2]
                <= 191 {
                let c1 = s[i + 1];
                let c2 = s[i + 2];
                acc.push(b);
                acc.push(c1);
                acc.push(c2);
                i = i + 3;
                proof {
                    assert(acc@ =~= pre_acc + seq![b, c1, c2]);
                    assert(str_body(s@, pre_i, pre_acc) == str_body(s@, i as int, acc@));
                }
            } else {
                return None;
            }
        } else if b >= 240 && b <= 244 {
            let lo1: u8 = if b == 240 {
                144
            } else {
                128
            };
            let hi1: u8 = if b == 244 {
                143
            } else {
                191
            };
            if s.len() - i > 3 && s[i + 1] >= lo1 && s[i + 1] <= hi1 && s[i + 2] >= 128 && s[i + 2]
                <= 191 && s[i + 3] >= 128 && s[i + 3] <= 191 {
                let c1 = s[i + 1];
                let c2 = s[i + 2];
                let c3 = s[i + 3];
                acc.push(b);
                acc.push(c1);
                acc.push(c2);
                acc.push(c3);
                i = i + 4;
                proof {
                    assert(acc@ =~= pre_acc + seq![b, c1, c2, c3]);
                    assert(str_body(s@, pre_i, pre_acc) == str_body(s@, i as int, acc@));
                }
            } else {
                return None;
            }
        } else {
            return None;
        }
    }
}

/// Reads one known-member value, exactly as [`json_value`] describes.
fn parse_value(s: &[u8], start: usize) -> (r: Option<(FieldVal, usize)>)
    requires
        start <= s@.len(),
    ensures
        match r {
            Some(p) => json_value(s@, start as int) == Some((p.0@, p.1 as int)) && start < p.1
                <= s@.len(),
            None => json_value(s@, start as int) is None,
        },
{
    if start < s.len() && s[start] == 34 {
        match parse_str_body(s, start + 1) {
            Some((t, j)) => Some((FieldVal::Str(t), j)),
            None => None,
        }
    } else if s.len() >= 4 && start <= s.len() - 4 && s[start] == 110 && s[start + 1] == 117
        && s[start + 2] == 108 && s[start + 3] == 108 {
        Some((FieldVal::Null, start + 4))
    } else {
        None
    }
}

/// Reads past a JSON number, exactly as [`skip_number`] describes.
fn skip_number_bytes(s: &[u8], start: usize) -> (r: Option<usize>)
    requires
        start <= s@.len(),
    ensures
        match r {
            Some(k) => skip_number(s@, start as int) == Some(k as int) && start < k <= s@.len(),
            None => skip_number(s@, start as int) is None,
        },
{
    let j: usize = if start < s.len() && s[start] == 45 {
        start + 1
    } else {
        start
    };
    if !(j < s.len() && s[j] >= 48 && s[j] <= 57) {
        return None;
    }
    let k: usize = if s[j] == 48 {
        j + 1
    } else {
        skip_digits_bytes(s, j)
    };
    proof {
        if s@[j as int] != 48 {
            lemma_skip_digits_bounds(s@, j as int + 1);
            assert(skip_digits(s@, j as int) == skip_digits(s@, j as int + 1));
        }
        assert(j < k);
    }
    let k2: usize;
    if k < s.len() && s[k] == 46 {
        if k + 1 < s.len() && s[k + 1] >= 48 && s[k + 1] <= 57 {
            k2 = skip_digits_bytes(s, k + 1);
        } else {
            return None;
        }
    } else {
        k2 = k;
    }
    proof {
        assert(skip_frac(s@, k as int) == Some(k2 as int));
    }
    let k3: usize;
    if k2 < s.len() && (s[k2] == 101 || s[k2] == 69) {
        let e: usize = if k2 + 1 < s.len() && (s[k2 + 1] == 43 || s[k2 + 1] == 45) {
            k2 + 2
        } else {
            k2 + 1
        };
        if e < s.len() && s[e] >= 48 && s[e] <= 57 {
            k3 = skip_digits_bytes(s, e);
        } else {
            return None;
        }
    } else {
        k3 = k2;
    }
    proof {
        assert(skip_exp(s@, k2 as int) == Some(k3 as int));
        assert(skip_number(s@, start as int) == Some(k3 as int));
    }
    Some(k3)
}

/// Reads past one well-formed JSON value, exactly as [`skip_json_value`]
/// describes: the executable form of the token machine, with the container
/// stack held in a vector.
#[verifier::rlimit(100)]
fn skip_value_bytes(s: &[u8], start: usize) -> (r: Option<usize>)
    requires
        start <= s@.len(),
    ensures
        match r {
            Some(j) => skip_json_value(s@, start as int) == Some(j as int) && start < j
                <= s@.len(),
            None => skip_json_value(s@, start as int) is None,
        },
{
    let ghost fuel0: nat = (s@.len() + 2) as nat;
    let mut stack: Vec<bool> = Vec::new();
    let mut after: bool = false;
    let mut i: usize = start;
    let ghost mut fuel: nat = fuel0;
    loop
        invariant
            start <= i <= s@.len(),
            skip_json_value(s@, start as int) == skip_machine(s@, i as int, stack@, after, fuel),
            fuel >= s@.len() - i + 2,
            after ==> start < i,
        decreases s@.len() - i,
    {
        if after && stack.len() == 0 {
            return Some(i);
        }
        let ghost pre_i = i as int;
        let ghost pre_stack = stack@;
        let ghost pre_after = after;
        let ghost pre_fuel = fuel;
        if after {
            let j = skip_ws_bytes(s, i);
            if !(j < s.len()) {
                return None;
            }
            let top = stack[stack.len() - 1];
            let b = s[j];
            if b == 44 {
                if top {
                    let k = skip_ws_bytes(s, j + 1);
                    proof {
                        assert(skip_machine(s@, pre_i, pre_stack, pre_after, pre_fuel)
                            == member_key_step(s@, k as int, pre_stack, (pre_fuel - 1) as nat));
                    }
                    if !(k < s.len() && s[k] == 34) {
                        return None;
                    }
                    let k2 = match parse_str_body(s, k + 1) {
                        Some(p) => p.1,
                        None => {
                            return None;
                        },
                    };
                    let k3 = skip_ws_bytes(s, k2);
                    if !(k3 < s.len() && s[k3] == 58) {
                        return None;
                    }
                    i = k3 + 1;
                    after = false;
                    proof {
                        fuel = (pre_fuel - 1) as nat;
                        assert(member_key_step(s@, k as int, pre_stack, (pre_fuel - 1) as nat)
                            == skip_machine(s@, i as int, stack@, after, fuel));
                    }
                } else {
                    i = j + 1;
                    after = false;
                    proof {
                        fuel = (fuel - 1) as nat;
                    }
                }
            } else if top && b == 125 {
                stack.pop();
                i = j + 1;
                after = true;
                proof {
                    fuel = (fuel - 1) as nat;
                }
            } else if !top && b == 93 {
                stack.pop();
                i = j + 1;
                after = true;
                proof {
                    fuel = (fuel - 1) as nat;
                }
            } else {
                return None;
            }
        } else {
            let j = skip_ws_bytes(s, i);
            if !(j < s.len()) {
                return None;
            }
            let b = s[j];
            if b == 34 {
                let k = match parse_str_body(s, j + 1) {
                    Some(p) => p.1,
                    None => {
                        return None;
                    },
                };
                i = k;
                after = true;
                proof {
                    fuel = (fuel - 1) as nat;
                }
            } else if b == 123 {
                let k = skip_ws_bytes(s, j + 1);
                if k < s.len() && s[k] == 125 {
                    i = k + 1;
                    after = true;
                    proof {
                        fuel = (fuel - 1) as nat;
                    }
                } else if stack.len() < 128 {
                    stack.push(true);
                    proof {
                        assert(stack@ == pre_stack.push(true));
                        assert(skip_machine(s@, pre_i, pre_stack, pre_after, pre_fuel)
                            == member_key_step(s@, k as int, stack@, (pre_fuel - 1) as nat));
                    }
                    if !(k < s.len() && s[k] == 34) {
                        return None;
                    }
                    let k2 = match parse_str_body(s, k + 1) {
                        Some(p) => p.1,
                        None => {
                            return None;
                        },
                    };
                    let k3 = skip_ws_bytes(s, k2);
                    if !(k3 < s.len() && s[k3] == 58) {
                        return None;
                    }
                    i = k3 + 1;
                    after = false;
                    proof {
                        fuel = (pre_fuel - 1) as nat;
                        assert(member_key_step(s@, k as int, stack@, (pre_fuel - 1) as nat)
                            == skip_machine(s@, i as int, stack@, after, fuel));
                    }
                } else {
                    return None;
                }
            } else if b == 91 {
                let k = skip_ws_bytes(s, j + 1);
                if k < s.len() && s[k] == 93 {
                    i = k + 1;
                    after = true;
                    proof {
                        fuel = (fuel - 1) as nat;
                    }
                } else if stack.len() < 128 {
                    stack.push(false);
                    i = k;
                    after = false;
                    proof {
                        fuel = (fuel - 1) as nat;
                    }
                } else {
                    return None;
                }
            } else if b == 116 {
                if s.len() - j >= 4 && s[j + 1] == 114 && s[j + 2] == 117 && s[j + 3] == 101 {
                    i = j + 4;
                    after = true;
                    proof {
                        fuel = (fuel - 1) as nat;
                    }
                } else {
                    return None;
                }
            } else if b == 102 {
                if s.len() - j >= 5 && s[j + 1] == 97 && s[j + 2] == 108 && s[j + 3] == 115 && s[j
                    + 4] == 101 {
                    i = j + 5;
                    after = true;
                    proof {
                        fuel = (fuel - 1) as nat;
                    }
                } else {
                    return None;
                }
            } else if b == 110 {
                if s.len() - j >= 4 && s[j + 1] == 117 && s[j + 2] == 108 && s[j + 3] == 108 {
                    i = j + 4;
                    after = true;
                    proof {
                        fuel = (fuel - 1) as nat;
                    }
                } else {
                    return None;
                }
            } else {
                let k = match skip_number_bytes(s, j) {
                    Some(k) => k,
                    None => {
                        return None;
                    },
                };
                i = k;
                after = true;
                proof {
                    fuel = (fuel - 1) as nat;
                }
            }
        }
    }
}

/// Whether `key` is the field name `title`.
fn is_title_key(key: &Vec<u8>) -> (r: bool)
    ensures
        r == (key@ == field_title()),
{
    let r = key.len() == 5 && key[0] == 116 && key[1] == 105 && key[2] == 116 && key[3] == 108
        && key[4] == 101;
    proof {
        if r {
            assert(key@ =~= field_title());
        } else {
            if key@ == field_title() {
                assert(key@.len() == 5);
                assert(key@[0] == 116 && key@[1] == 105 && key@[2] == 116 && key@[3] == 108
                    && key@[4] == 101);
            }
        }
    }
    r
}

/// Whether `key` is the field name `author`.
fn is_author_key(key: &Vec<u8>) -> (r: bool)
    ensures
        r == (key@ == field_author()),
{
    let r = key.len() == 6 && key[0] == 97 && key[1] == 117 && key[2] == 116 && key[3] == 104
        && key[4] == 111 && key[5] == 114;
    proof {
        if r {
            assert(key@ =~= field_author());
        } else {
            if key@ == field_author() {
                assert(key@.len() == 6);
                assert(key@[0] == 97 && key@[1] == 117 && key@[2] == 116 && key@[3] == 104
                    && key@[4] == 111 && key@[5] == 114);
            }
        }
    }
    r
}

/// Whether `key` is the field name `isbn`.
fn is_isbn_key(key: &Vec<u8>) -> (r: bool)
    ensures
        r == (key@ == field_isbn()),
{
    let r = key.len() == 4 && key[0] == 105 && key[1] == 115 && key[2] == 98 && key[3] == 110;
    proof {
        if r {
            assert(key@ =~= field_isbn());
        } else {
            if key@ == field_isbn() {
                assert(key@.len() == 4);
                assert(key@[0] == 105 && key@[1] == 115 && key@[2] == 98 && key@[3] == 110);
            }
        }
    }
    r
}

/// Records a known member under its key, exactly as [`set_field`]
/// describes.
fn record_field(f: Fields, key: &Vec<u8>, v: FieldVal) -> (r: Option<Fields>)
    ensures
        match r {
            Some(f2) => set_field(f@, key@, v@) == Some(f2@),
            None => set_field(f@, key@, v@) is None,
        },
{
    if is_title_key(key) {
        match f.title {
            None => Some(Fields { title: Some(v), author: f.author, isbn: f.isbn }),
            Some(_) => None,
        }
    } else if is_author_key(key) {
        match f.author {
            None => Some(Fields { title: f.title, author: Some(v), isbn: f.isbn }),
            Some(_) => None,
        }
    } else if is_isbn_key(key) {
        match f.isbn {
            None => Some(Fields { title: f.title, author: f.author, isbn: Some(v) }),
            Some(_) => None,
        }
    } else {
        None
    }
}

/// Reads members up to the closing brace, exactly as [`members`] describes.
#[verifier::rlimit(100)]
fn parse_members(s: &[u8], start: usize, f: Fields) -> (r: Option<(Fields, usize)>)
    requires
        start <= s@.len(),
    ensures
        match r {
            Some(p) => members(s@, start as int, f@, (s@.len() + 2) as nat) == Some(
                (p.0@, p.1 as int),
            ) && p.1 <= s@.len(),
            None => members(s@, start as int, f@, (s@.len() + 2) as nat) is None,
        },
{
    let ghost f0 = f@;
    let ghost fuel0: nat = (s@.len() + 2) as nat;
    let mut fields = f;
    let mut i: usize = start;
    let ghost mut fuel: nat = fuel0;
    loop
        invariant
            start <= i <= s@.len(),
            f0 == f@,
            fuel0 == (s@.len() + 2) as nat,
            members(s@, start as int, f0, fuel0) == members(s@, i as int, fields@, fuel),
            fuel >= s@.len() - i + 2,
        decreases s@.len() - i,
    {
        if !(i < s.len() && s[i] == 34) {
            proof {
                assert(members(s@, i as int, fields@, fuel) is None);
            }
            return None;
        }
        let (key, j) = match parse_str_body(s, i + 1) {
            Some(p) => p,
            None => {
                proof {
                    assert(members(s@, i as int, fields@, fuel) is None);
                }
                return None;
            },
        };
        let ghost pre_i = i as int;
        let ghost pre_fields = fields@;
        let ghost pre_fuel = fuel;
        let j2 = skip_ws_bytes(s, j);
        if !(j2 < s.len() && s[j2] == 58) {
            proof {
                assert(members(s@, pre_i, pre_fields, pre_fuel) is None);
            }
            return None;
        }
        let j3 = skip_ws_bytes(s, j2 + 1);
        let known = is_title_key(&key) || is_author_key(&key) || is_isbn_key(&key);
        proof {
            assert(known == is_known_key(key@));
        }
        let j4: usize;
        let next_fields: Fields;
        if known {
            let (v, j4v) = match parse_value(s, j3) {
                Some(p) => p,
                None => {
                    proof {
                        assert(members(s@, pre_i, pre_fields, pre_fuel) is None);
                    }
                    return None;
                },
            };
            next_fields = match record_field(fields, &key, v) {
                Some(x) => x,
                None => {
                    proof {
                        assert(members(s@, pre_i, pre_fields, pre_fuel) is None);
                    }
                    return None;
                },
            };
            j4 = j4v;
        } else {
            j4 = match skip_value_bytes(s, j3) {
                Some(k) => k,
                None => {
                    proof {
                        assert(members(s@, pre_i, pre_fields, pre_fuel) is None);
                    }
                    return None;
                },
            };
            next_fields = fields;
        }
        let j5 = skip_ws_bytes(s, j4);
        if j5 < s.len() && s[j5] == 44 {
            let j6 = skip_ws_bytes(s, j5 + 1);
            proof {
                fuel = (pre_fuel - 1) as nat;
                assert(members(s@, pre_i, pre_fields, pre_fuel) == members(
                    s@,
                    j6 as int,
                    next_fields@,
                    fuel,
                ));
            }
            i = j6;
            fields = next_fields;
        } else if j5 < s.len() && s[j5] == 125 {
            proof {
                assert(members(s@, pre_i, pre_fields, pre_fuel) == Some(
                    (next_fields@, j5 + 1 as int),
                ));
            }
            return Some((next_fields, j5 + 1));
        } else {
            proof {
                assert(members(s@, pre_i, pre_fields, pre_fuel) is None);
            }
            return None;
        }
    }
}

/// Reads a whole body, exactly as [`parse_doc`] describes.
fn parse_doc_bytes(s: &[u8]) -> (r: Option<Fields>)
    ensures
        match r {
            Some(f) => parse_doc(s@) == Some(f@),
            None => parse_doc(s@) is None,
        },
{
    let i = skip_ws_bytes(s, 0);
    if !(i < s.len() && s[i] == 123) {
        return None;
    }
    let j = skip_ws_bytes(s, i + 1);
    if j < s.len() && s[j] == 125 {
        if skip_ws_bytes(s, j + 1) == s.len() {
            Some(Fields { title: None, author: None, isbn: None })
        } else {
            None
        }
    } else {
        match parse_members(s, j, Fields { title: None, author: None, isbn: None }) {
            Some((f, k)) => {
                if skip_ws_bytes(s, k) == s.len() {
                    Some(f)
                } else {
                    None
                }
            },
            None => None,
        }
    }
}

/// Strict decode of a creation payload, exactly as [`parse_create`]
/// describes.
pub fn parse_create_bytes(s: &[u8]) -> (r: Option<CreateBookRequest>)
    ensures
        match r {
            Some(c) => parse_create(s@) == Some(c@),
            None => parse_create(s@) is None,
        },
{
    let f = match parse_doc_bytes(s) {
        Some(f) => f,
        None => {
            return None;
        },
    };
    let ghost f_model = f@;
    let Fields { title, author, isbn } = f;
    let t = match title {
        Some(FieldVal::Str(t)) => t,
        _ => {
            return None;
        },
    };
    let a = match author {
        Some(FieldVal::Str(a)) => a,
        _ => {
            return None;
        },
    };
    let x = match isbn {
        Some(FieldVal::Str(x)) => Some(x),
        _ => None,
    };
    Some(CreateBookRequest { title: t, author: a, isbn: x })
}

/// Strict decode of a patch payload, exactly as [`parse_update`] describes.
pub fn parse_update_bytes(s: &[u8]) -> (r: Option<UpdateBookRequest>)
    ensures
        match r {
            Some(p) => parse_update(s@) == Some(p@),
            None => parse_update(s@) is None,
        },
{
    let f = match parse_doc_bytes(s) {
        Some(f) => f,
        None => {
            return None;
        },
    };
    let ghost f_model = f@;
    let Fields { title, author, isbn } = f;
    let t = match title {
        Some(FieldVal::Str(t)) => Some(t),
        _ => None,
    };
    let a = match author {
        Some(FieldVal::Str(a)) => Some(a),
        _ => None,
    };
    let x = match isbn {
        Some(FieldVal::Str(x)) => Some(x),
        _ => None,
    };
    Some(UpdateBookRequest { title: t, author: a, isbn: x })
}

} // verus!
