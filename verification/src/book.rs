//! The record type of the store and the request payloads that describe a
//! record to be created or the fields of one to be changed.
//!
//! Text fields are held as UTF-8 bytes: the service receives them as request
//! body bytes and hands them back inside response bodies, so bytes are the
//! natural ground truth and every transformation on them is verified.

use vstd::prelude::*;

verus! {

/// A single book record.
pub struct Book {
    pub id: u64,
    pub title: Vec<u8>,
    pub author: Vec<u8>,
    pub isbn: Option<Vec<u8>>,
}

/// The mathematical model of a [`Book`].
#[verifier::ext_equal]
pub struct BookModel {
    pub id: u64,
    pub title: Seq<u8>,
    pub author: Seq<u8>,
    pub isbn: Option<Seq<u8>>,
}

impl View for Book {
    type V = BookModel;

    open spec fn view(&self) -> BookModel {
        BookModel {
            id: self.id,
            title: self.title@,
            author: self.author@,
            isbn: match self.isbn {
                Some(s) => Some(s@),
                None => None,
            },
        }
    }
}

/// A byte-for-byte copy of a byte vector.
pub fn clone_bytes(v: &Vec<u8>) -> (r: Vec<u8>)
    ensures
        r@ == v@,
{
    let mut r: Vec<u8> = Vec::new();
    let mut i: usize = 0;
    while i < v.len()
        invariant
            i <= v.len(),
            r@ == v@.take(i as int),
        decreases v.len() - i,
    {
        r.push(v[i]);
        proof {
            assert(v@.take(i as int).push(v@[i as int]) =~= v@.take(i as int + 1));
        }
        i = i + 1;
    }
    proof {
        assert(v@.take(v@.len() as int) =~= v@);
    }
    r
}

impl Clone for Book {
    /// A copy of the record, equal to it field for field.
    fn clone(&self) -> (r: Self)
        ensures
            r@ == self@,
    {
        Book {
            id: self.id,
            title: clone_bytes(&self.title),
            author: clone_bytes(&self.author),
            isbn: match &self.isbn {
                Some(v) => Some(clone_bytes(v)),
                None => None,
            },
        }
    }
}

/// A creation payload: both text fields required, isbn optional.
pub struct CreateBookRequest {
    pub title: Vec<u8>,
    pub author: Vec<u8>,
    pub isbn: Option<Vec<u8>>,
}

/// The mathematical model of a [`CreateBookRequest`].
#[verifier::ext_equal]
pub struct CreateModel {
    pub title: Seq<u8>,
    pub author: Seq<u8>,
    pub isbn: Option<Seq<u8>>,
}

impl View for CreateBookRequest {
    type V = CreateModel;

    open spec fn view(&self) -> CreateModel {
        CreateModel {
            title: self.title@,
            author: self.author@,
            isbn: match self.isbn {
                Some(s) => Some(s@),
                None => None,
            },
        }
    }
}

/// A partial-update payload: each field independently present or absent,
/// and an absent field leaves the stored value unchanged.
pub struct UpdateBookRequest {
    pub title: Option<Vec<u8>>,
    pub author: Option<Vec<u8>>,
    pub isbn: Option<Vec<u8>>,
}

/// The mathematical model of an [`UpdateBookRequest`].
#[verifier::ext_equal]
pub struct UpdateModel {
    pub title: Option<Seq<u8>>,
    pub author: Option<Seq<u8>>,
    pub isbn: Option<Seq<u8>>,
}

impl View for UpdateBookRequest {
    type V = UpdateModel;

    open spec fn view(&self) -> UpdateModel {
        UpdateModel {
            title: match self.title {
                Some(s) => Some(s@),
                None => None,
            },
            author: match self.author {
                Some(s) => Some(s@),
                None => None,
            },
            isbn: match self.isbn {
                Some(s) => Some(s@),
                None => None,
            },
        }
    }
}

/// The record that results from applying a patch to a stored record: each
/// field present in the patch replaces the stored field, each absent field
/// keeps the stored value, and the identifier never changes.  A present isbn
/// always sets the stored isbn; no patch can clear it back to absent.
pub open spec fn patched(b: BookModel, p: UpdateModel) -> BookModel {
    BookModel {
        id: b.id,
        title: match p.title {
            Some(t) => t,
            None => b.title,
        },
        author: match p.author {
            Some(a) => a,
            None => b.author,
        },
        isbn: match p.isbn {
            Some(i) => Some(i),
            None => b.isbn,
        },
    }
}

} // verus!
