//! The record store: an in-memory collection of books in insertion order,
//! with pairwise-distinct identifiers allocated by a monotonic counter that
//! never reuses an identifier, even after a deletion.

use vstd::prelude::*;

use crate::FIRST_ID;
use crate::book::{Book, BookModel, UpdateBookRequest, UpdateModel, patched};

verus! {

/// The mathematical model of a [`Storage`]: the records in insertion order
/// and the next identifier to be allocated.
#[verifier::ext_equal]
pub struct StoreModel {
    pub books: Seq<BookModel>,
    pub next_id: u64,
}

/// The index of the first record of `s` whose identifier is `id`, or `-1`
/// when no record has it.  Under [`store_wf`] identifiers are pairwise
/// distinct, so "first" is "the one".
pub open spec fn idx_of(s: Seq<BookModel>, id: u64) -> int
    decreases s.len(),
{
    if s.len() == 0 {
        -1
    } else if s[0].id == id {
        0
    } else {
        let r = idx_of(s.drop_first(), id);
        if r == -1 {
            -1
        } else {
            r + 1
        }
    }
}

/// What a well-formed store looks like: the counter is ahead of every stored
/// identifier, and no two records share one.
pub open spec fn store_wf(st: StoreModel) -> bool {
    &&& st.next_id >= FIRST_ID
    &&& forall|i: int| 0 <= i < st.books.len() ==> (#[trigger] st.books[i]).id < st.next_id
    &&& forall|i: int, j: int|
        #![trigger st.books[i], st.books[j]]
        0 <= i < j < st.books.len() ==> st.books[i].id != st.books[j].id
}

/// A found index is in range, carries the identifier, and nothing before it
/// does; `-1` means no record carries it.
pub proof fn lemma_idx_of_props(s: Seq<BookModel>, id: u64)
    ensures
        idx_of(s, id) == -1 ==> forall|i: int| 0 <= i < s.len() ==> (#[trigger] s[i]).id != id,
        idx_of(s, id) != -1 ==> 0 <= idx_of(s, id) < s.len() && s[idx_of(s, id)].id == id
            && forall|i: int| 0 <= i < idx_of(s, id) ==> (#[trigger] s[i]).id != id,
    decreases s.len(),
{
    if s.len() == 0 {
    } else if s[0].id == id {
    } else {
        lemma_idx_of_props(s.drop_first(), id);
        assert forall|i: int| 1 <= i < s.len() implies #[trigger] s[i] == s.drop_first()[i - 1] by {}
    }
}

/// The first position that carries `id`, with none before it, is exactly
/// what `idx_of` finds.
pub proof fn lemma_idx_of_first(s: Seq<BookModel>, id: u64, k: int)
    requires
        0 <= k < s.len(),
        s[k].id == id,
        forall|i: int| 0 <= i < k ==> (#[trigger] s[i]).id != id,
    ensures
        idx_of(s, id) == k,
    decreases s.len(),
{
    if k == 0 {
    } else {
        assert(s.drop_first()[k - 1] == s[k]);
        assert forall|i: int| 0 <= i < k - 1 implies (#[trigger] s.drop_first()[i]).id != id by {
            assert(s.drop_first()[i] == s[i + 1]);
        }
        lemma_idx_of_first(s.drop_first(), id, k - 1);
    }
}

/// When no record carries `id`, `idx_of` reports `-1`.
pub proof fn lemma_idx_of_absent(s: Seq<BookModel>, id: u64)
    requires
        forall|i: int| 0 <= i < s.len() ==> (#[trigger] s[i]).id != id,
    ensures
        idx_of(s, id) == -1,
    decreases s.len(),
{
    if s.len() == 0 {
    } else {
        assert forall|i: int| 0 <= i < s.drop_first().len() implies (#[trigger] s.drop_first()[i]).id
            != id by {
            assert(s.drop_first()[i] == s[i + 1]);
        }
        lemma_idx_of_absent(s.drop_first(), id);
    }
}

/// Law: applying a patch with every field absent to a stored record leaves
/// the collection exactly as it was.
pub proof fn lemma_empty_patch_is_identity(s: Seq<BookModel>, id: u64, p: UpdateModel)
    requires
        p.title is None,
        p.author is None,
        p.isbn is None,
        0 <= idx_of(s, id) < s.len(),
    ensures
        s.update(idx_of(s, id), patched(s[idx_of(s, id)], p)) == s,
{
    let k = idx_of(s, id);
    assert(patched(s[k], p) =~= s[k]);
    assert(s.update(k, patched(s[k], p)) =~= s);
}

/// Law: after an update of a stored record, a lookup of the same identifier
/// finds the patched record in the same place: each field present in the
/// patch carries the new value, each absent field the prior one.
pub proof fn lemma_update_then_get(s: Seq<BookModel>, id: u64, p: UpdateModel)
    requires
        0 <= idx_of(s, id) < s.len(),
    ensures
        ({
            let k = idx_of(s, id);
            let s2 = s.update(k, patched(s[k], p));
            &&& idx_of(s2, id) == k
            &&& s2[k] == patched(s[k], p)
            &&& (match p.title {
                Some(t) => s2[k].title == t,
                None => s2[k].title == s[k].title,
            })
            &&& (match p.author {
                Some(a) => s2[k].author == a,
                None => s2[k].author == s[k].author,
            })
            &&& (match p.isbn {
                Some(x) => s2[k].isbn == Some(x),
                None => s2[k].isbn == s[k].isbn,
            })
        }),
{
    let k = idx_of(s, id);
    lemma_idx_of_props(s, id);
    let s2 = s.update(k, patched(s[k], p));
    assert(s2[k].id == id);
    assert forall|i: int| 0 <= i < k implies (#[trigger] s2[i]).id != id by {
        assert(s2[i] == s[i]);
    }
    lemma_idx_of_first(s2, id, k);
}

/// Law: after a delete of a stored record, no record carries its
/// identifier: a lookup finds nothing and a second delete removes nothing.
pub proof fn lemma_delete_then_get(s: Seq<BookModel>, id: u64)
    requires
        forall|i: int, j: int|
            #![trigger s[i], s[j]]
            0 <= i < j < s.len() ==> s[i].id != s[j].id,
        0 <= idx_of(s, id) < s.len(),
    ensures
        idx_of(s.remove(idx_of(s, id)), id) == -1,
{
    let k = idx_of(s, id);
    lemma_idx_of_props(s, id);
    let s2 = s.remove(k);
    assert forall|i: int| 0 <= i < s2.len() implies (#[trigger] s2[i]).id != id by {
        if i < k {
            assert(s2[i] == s[i]);
        } else {
            assert(s2[i] == s[i + 1]);
        }
    }
    lemma_idx_of_absent(s2, id);
}

/// The in-memory store.  All access from concurrent request handlers must be
/// serialized outside the library (the surrounding program holds it behind a
/// single mutual-exclusion boundary), so every method sees and leaves a
/// consistent value.
pub struct Storage {
    books: Vec<Book>,
    next_id: u64,
}

impl View for Storage {
    type V = StoreModel;

    closed spec fn view(&self) -> StoreModel {
        StoreModel { books: self.books@.map_values(|b: Book| b@), next_id: self.next_id }
    }
}

impl Storage {
    /// Whether the store is well formed; established by [`Storage::new`] and
    /// preserved by every operation.
    pub open spec fn wf(&self) -> bool {
        store_wf(self@)
    }

    /// A fresh, empty store whose first allocated identifier will be
    /// [`FIRST_ID`].
    pub fn new() -> (s: Storage)
        ensures
            s.wf(),
            s@.books == Seq::<BookModel>::empty(),
            s@.next_id == FIRST_ID,
    {
        let s = Storage { books: Vec::new(), next_id: FIRST_ID };
        proof {
            assert(s@.books =~= Seq::<BookModel>::empty());
        }
        s
    }

    /// The identifier the next successful create will assign.
    pub fn next_id(&self) -> (r: u64)
        ensures
            r == self@.next_id,
    {
        self.next_id
    }

    /// The index of the record with identifier `id`, if any.
    fn find_index(&self, id: u64) -> (r: Option<usize>)
        ensures
            match r {
                Some(k) => 0 <= k as int == idx_of(self@.books, id) < self@.books.len(),
                None => idx_of(self@.books, id) == -1,
            },
    {
        let mut k: usize = 0;
        while k < self.books.len()
            invariant
                k <= self.books.len(),
                self@.books.len() == self.books.len(),
                forall|i: int| 0 <= i < k ==> (#[trigger] self@.books[i]).id != id,
            decreases self.books.len() - k,
        {
            if self.books[k].id == id {
                proof {
                    assert(self@.books[k as int] == self.books@[k as int]@);
                    lemma_idx_of_first(self@.books, id, k as int);
                }
                return Some(k);
            }
            proof {
                assert(self@.books[k as int] == self.books@[k as int]@);
            }
            k = k + 1;
        }
        proof {
            lemma_idx_of_absent(self@.books, id);
        }
        None
    }

    /// Creates a record from the given fields: allocates the next identifier,
    /// stores the record at the end of the collection, and returns it.  The
    /// new identifier is strictly greater than that of every stored record.
    pub fn create(&mut self, title: Vec<u8>, author: Vec<u8>, isbn: Option<Vec<u8>>) -> (b: Book)
        requires
            old(self).wf(),
            old(self)@.next_id < u64::MAX,
        ensures
            final(self).wf(),
            b@ == (BookModel {
                id: old(self)@.next_id,
                title: title@,
                author: author@,
                isbn: match isbn {
                    Some(s) => Some(s@),
                    None => None,
                },
            }),
            final(self)@.books == old(self)@.books.push(b@),
            final(self)@.books.len() == old(self)@.books.len() + 1,
            final(self)@.next_id == old(self)@.next_id + 1,
            idx_of(old(self)@.books, b@.id) == -1,
            forall|i: int|
                0 <= i < old(self)@.books.len() ==> (#[trigger] old(self)@.books[i]).id < b@.id,
    {
        let id: u64 = self.next_id;
        self.next_id = self.next_id + 1;
        let book = Book { id, title, author, isbn };
        let result = book.clone();
        self.books.push(book);
        proof {
            assert(self@.books =~= old(self)@.books.push(result@));
            lemma_idx_of_absent(old(self)@.books, id);
        }
        result
    }

    /// The record with identifier `id`, if one is stored.
    pub fn get(&self, id: u64) -> (r: Option<&Book>)
        ensures
            match r {
                Some(b) => idx_of(self@.books, id) >= 0 && b@ == self@.books[idx_of(
                    self@.books,
                    id,
                )],
                None => idx_of(self@.books, id) == -1,
            },
    {
        match self.find_index(id) {
            Some(k) => {
                proof {
                    assert(self@.books[k as int] == self.books@[k as int]@);
                }
                Some(&self.books[k])
            },
            None => None,
        }
    }

    /// A snapshot of all stored records, in insertion order.  Identifiers in
    /// the snapshot are pairwise distinct whenever the store is well formed.
    pub fn get_all(&self) -> (r: Vec<Book>)
        ensures
            r@.len() == self@.books.len(),
            forall|i: int| 0 <= i < r@.len() ==> (#[trigger] r@[i])@ == self@.books[i],
            self.wf() ==> forall|i: int, j: int|
                #![trigger r@[i], r@[j]]
                0 <= i < j < r@.len() ==> r@[i]@.id != r@[j]@.id,
    {
        let mut r: Vec<Book> = Vec::new();
        let mut k: usize = 0;
        while k < self.books.len()
            invariant
                k <= self.books.len(),
                self@.books.len() == self.books.len(),
                r@.len() == k,
                forall|i: int| 0 <= i < k ==> (#[trigger] r@[i])@ == self@.books[i],
            decreases self.books.len() - k,
        {
            let b = self.books[k].clone();
            proof {
                assert(self@.books[k as int] == self.books@[k as int]@);
            }
            r.push(b);
            k = k + 1;
        }
        r
    }

    /// Applies `patch` to the record with identifier `id`: each present patch
    /// field overwrites the stored field, absent fields leave the stored
    /// value unchanged, and the updated record is returned.  Returns `None`,
    /// leaving the store unchanged, when no record has the identifier.
    pub fn update(&mut self, id: u64, patch: UpdateBookRequest) -> (r: Option<Book>)
        requires
            old(self).wf(),
        ensures
            final(self).wf(),
            final(self)@.next_id == old(self)@.next_id,
            match r {
                Some(b) => {
                    let k = idx_of(old(self)@.books, id);
                    &&& 0 <= k < old(self)@.books.len()
                    &&& b@ == patched(old(self)@.books[k], patch@)
                    &&& final(self)@.books == old(self)@.books.update(k, b@)
                },
                None => idx_of(old(self)@.books, id) == -1 && final(self)@.books == old(
                    self,
                )@.books,
            },
    {
        let ghost patch_model = patch@;
        match self.find_index(id) {
            Some(k) => {
                proof {
                    lemma_idx_of_props(self@.books, id);
                }
                let stored = self.books.remove(k);
                let Book { id: bid, title, author, isbn } = stored;
                let new_title: Vec<u8> = match patch.title {
                    Some(t) => t,
                    None => title,
                };
                let new_author: Vec<u8> = match patch.author {
                    Some(a) => a,
                    None => author,
                };
                let new_isbn: Option<Vec<u8>> = match patch.isbn {
                    Some(i) => Some(i),
                    None => isbn,
                };
                let updated = Book { id: bid, title: new_title, author: new_author, isbn: new_isbn };
                let result = updated.clone();
                self.books.insert(k, updated);
                proof {
                    assert(result@ =~= patched(old(self)@.books[k as int], patch_model));
                    assert(self@.books =~= old(self)@.books.update(k as int, result@));
                }
                Some(result)
            },
            None => None,
        }
    }

    /// Removes the record with identifier `id` and reports whether one was
    /// removed; a second delete of the same identifier reports `false`.
    pub fn delete(&mut self, id: u64) -> (r: bool)
        requires
            old(self).wf(),
        ensures
            final(self).wf(),
            final(self)@.next_id == old(self)@.next_id,
            r == (idx_of(old(self)@.books, id) >= 0),
            r ==> final(self)@.books == old(self)@.books.remove(idx_of(old(self)@.books, id)),
            !r ==> final(self)@.books == old(self)@.books,
    {
        match self.find_index(id) {
            Some(k) => {
                self.books.remove(k);
                proof {
                    assert(self@.books =~= old(self)@.books.remove(k as int));
                }
                true
            },
            None => false,
        }
    }
}

} // verus!
