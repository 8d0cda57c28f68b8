use vstd::prelude::*;

use crate::document::{document_of, id_of, rev_of, Document, ExtractionError};
use crate::json::{field_of, lemma_view_items, view_items, Json, JsonV};

verus! {

/// Whether an id names one of the store's internal (design) documents.
pub open spec fn is_design_id(s: Seq<char>) -> bool {
    s.len() > 0 && s[0] == '_'
}

/// The document that a query row carries.
pub open spec fn row_doc(r: JsonV) -> JsonV {
    field_of(r, "doc"@)
}

/// Whether a query row carries a non-null `error`.
pub open spec fn has_error(r: JsonV) -> bool {
    field_of(r, "error"@) != JsonV::Null
}

/// Whether a row without error holds a design document.
pub open spec fn is_design_row(r: JsonV) -> bool {
    !has_error(r) && (id_of(row_doc(r)) matches Some(s) && is_design_id(s))
}

/// Why a query row cannot be read, if it cannot: rows with an error and
/// design documents are skipped and never fail.
pub open spec fn row_error(r: JsonV) -> Option<ExtractionError> {
    if has_error(r) {
        None
    } else {
        match id_of(row_doc(r)) {
            None => Some(ExtractionError::Id),
            Some(s) => if is_design_id(s) {
                None
            } else if rev_of(row_doc(r)) is None {
                Some(ExtractionError::Rev)
            } else {
                None
            },
        }
    }
}

/// Whether a query row's document goes into the collection.
pub open spec fn row_kept(r: JsonV) -> bool {
    !has_error(r) && !is_design_row(r)
}

/// The error of the first row that cannot be read.
pub open spec fn first_error(rows: Seq<JsonV>) -> Option<ExtractionError>
    decreases rows.len(),
{
    if rows.len() == 0 {
        None
    } else {
        match first_error(rows.drop_last()) {
            Some(e) => Some(e),
            None => row_error(rows.last()),
        }
    }
}

/// The documents of the kept rows, in row order.
pub open spec fn kept_rows(rows: Seq<JsonV>) -> Seq<JsonV>
    decreases rows.len(),
{
    if rows.len() == 0 {
        Seq::empty()
    } else {
        let s = kept_rows(rows.drop_last());
        if row_kept(rows.last()) {
            s.push(row_doc(rows.last()))
        } else {
            s
        }
    }
}

/// How many rows carry an error.
pub open spec fn error_count(rows: Seq<JsonV>) -> nat
    decreases rows.len(),
{
    if rows.len() == 0 {
        0
    } else {
        error_count(rows.drop_last()) + if has_error(rows.last()) {
            1nat
        } else {
            0nat
        }
    }
}

/// How many rows without error hold a design document.
pub open spec fn design_count(rows: Seq<JsonV>) -> nat
    decreases rows.len(),
{
    if rows.len() == 0 {
        0
    } else {
        design_count(rows.drop_last()) + if is_design_row(rows.last()) {
            1nat
        } else {
            0nat
        }
    }
}

/// The `rows` array of a query result.
pub open spec fn rows_of(v: JsonV) -> Option<Seq<JsonV>> {
    match field_of(v, "rows"@) {
        JsonV::Array(s) => Some(s),
        _ => None,
    }
}

/// The `offset` of a query result: an integer that fits in 32 bits, and no
/// offset where it is absent or holds anything else.
pub open spec fn offset_of(v: JsonV) -> Option<u32> {
    match field_of(v, "offset"@) {
        JsonV::PosInt(n) => if n <= u32::MAX {
            Some(n as u32)
        } else {
            None
        },
        _ => None,
    }
}

/// A document in a collection, beside its id for lookups.
#[derive(Debug, PartialEq)]
pub struct DocumentCollectionItem {
    pub id: String,
    pub doc: Document,
}

/// `items` hold the documents read from the payloads `docs`, in order.
pub open spec fn items_of(docs: Seq<JsonV>, items: Seq<DocumentCollectionItem>) -> bool {
    &&& items.len() == docs.len()
    &&& forall|i: int| 0 <= i < docs.len() ==> document_of(docs[i], #[trigger] items[i].doc)
    &&& forall|i: int| 0 <= i < items.len() ==> #[trigger] items[i].wf()
}

/// The ids of the items, in order.
pub open spec fn ids_of(items: Seq<DocumentCollectionItem>) -> Seq<Seq<char>> {
    items.map_values(|it: DocumentCollectionItem| it.id@)
}

impl DocumentCollectionItem {
    /// The id is the document's.
    pub open spec fn wf(&self) -> bool {
        self.id == self.doc._id
    }

    pub fn new(doc: Document) -> (r: DocumentCollectionItem)
        ensures
            r.doc == doc,
            r.id == doc._id,
            r.wf(),
    {
        let id = doc._id.clone();
        DocumentCollectionItem { doc, id }
    }
}

/// An ordered collection of documents, as a query returns it.
#[derive(Debug, PartialEq)]
pub struct DocumentCollection {
    pub offset: Option<u32>,
    pub rows: Vec<DocumentCollectionItem>,
    pub total_rows: u32,
    pub bookmark: Option<String>,
}

/// Whether the id's first character is `_`.
fn starts_with_underscore(s: &String) -> (r: bool)
    ensures
        r == is_design_id(s@),
{
    let t = s.as_str();
    t.unicode_len() > 0 && t.get_char(0) == '_'
}

/// Once a prefix of the rows has an error, so have the rows.
proof fn lemma_first_error_prefix(rows: Seq<JsonV>, n: int)
    requires
        0 <= n <= rows.len(),
        first_error(rows.take(n)) is Some,
    ensures
        first_error(rows) == first_error(rows.take(n)),
    decreases rows.len(),
{
    if n == rows.len() {
        assert(rows.take(n) =~= rows);
    } else {
        assert(rows.drop_last().take(n) =~= rows.take(n));
        lemma_first_error_prefix(rows.drop_last(), n);
    }
}

impl DocumentCollection {
    /// Every item is well formed, and `total_rows` counts them.
    pub open spec fn wf(&self) -> bool {
        &&& self.total_rows == self.rows@.len()
        &&& forall|i: int| 0 <= i < self.rows@.len() ==> #[trigger] self.rows@[i].wf()
    }

    /// Builds a collection from a raw query result. Rows that carry an
    /// error, and design documents, are left out; the rest keep their order.
    /// `total_rows` counts what is kept, and no bookmark is set.
    pub fn new(doc: Json) -> (r: Result<DocumentCollection, ExtractionError>)
        requires
            rows_of(doc@) matches Some(rs) ==> rs.len() <= u32::MAX,
        ensures
            r is Ok <==> (rows_of(doc@) matches Some(rs) && first_error(rs) is None),
            rows_of(doc@) is None ==> r == Err::<DocumentCollection, ExtractionError>(
                ExtractionError::Rows,
            ),
            rows_of(doc@) matches Some(rs) ==> (first_error(rs) matches Some(e) ==> r == Err::<
                DocumentCollection,
                ExtractionError,
            >(e)),
            r matches Ok(c) ==> {
                &&& items_of(kept_rows(rows_of(doc@)->0), c.rows@)
                &&& c.wf()
                &&& c.offset == offset_of(doc@)
                &&& c.bookmark is None
                &&& c.total_rows == rows_of(doc@)->0.len() - error_count(rows_of(doc@)->0)
                    - design_count(rows_of(doc@)->0)
            },
    {
        let rows = match doc.get(&"rows".to_string()) {
            Some(Json::Array(rows)) => rows,
            _ => return Err(ExtractionError::Rows),
        };
        let ghost rv = view_items(rows@);
        proof {
            lemma_view_items(rows@);
        }
        let error_key = "error".to_string();
        let doc_key = "doc".to_string();
        let id_key = "_id".to_string();
        let mut items: Vec<DocumentCollectionItem> = Vec::new();
        let mut i: usize = 0;
        while i < rows.len()
            invariant
                i <= rows@.len(),
                rows_of(doc@) == Some(rv),
                rv.len() == rows@.len(),
                rv.len() <= u32::MAX,
                forall|j: int| 0 <= j < rows@.len() ==> #[trigger] rv[j] == rows@[j]@,
                error_key@ == "error"@,
                doc_key@ == "doc"@,
                id_key@ == "_id"@,
                first_error(rv.take(i as int)) is None,
                items_of(kept_rows(rv.take(i as int)), items@),
                items@.len() <= i,
            decreases rows@.len() - i,
        {
            let ghost pre = rv.take(i as int);
            proof {
                assert(rv.take(i + 1).drop_last() =~= pre);
                assert(rv.take(i + 1).last() == rv[i as int]);
            }
            let row = &rows[i];
            let skip = match row.get(&error_key) {
                None => false,
                Some(Json::Null) => false,
                Some(_) => true,
            };
            if !skip {
                let d = match row.get(&doc_key) {
                    Some(d) => d,
                    None => {
                        proof {
                            lemma_first_error_prefix(rv, i + 1);
                        }
                        return Err(ExtractionError::Id);
                    },
                };
                let id = match d.get(&id_key) {
                    Some(Json::Str(s)) => s,
                    _ => {
                        proof {
                            lemma_first_error_prefix(rv, i + 1);
                        }
                        return Err(ExtractionError::Id);
                    },
                };
                if !starts_with_underscore(id) {
                    match Document::new(d.copy()) {
                        Ok(document) => {
                            items.push(DocumentCollectionItem::new(document));
                        },
                        Err(e) => {
                            proof {
                                lemma_first_error_prefix(rv, i + 1);
                            }
                            return Err(e);
                        },
                    }
                }
            }
            i += 1;
        }
        proof {
            assert(rv.take(rows@.len() as int) =~= rv);
            lemma_kept_count(rv);
        }
        let offset = match doc.get(&"offset".to_string()) {
            Some(Json::PosInt(n)) => {
                if *n <= u32::MAX as u64 {
                    Some(*n as u32)
                } else {
                    None
                }
            },
            _ => None,
        };
        let total_rows = items.len() as u32;
        Ok(DocumentCollection { offset, total_rows, rows: items, bookmark: None })
    }

    /// Wraps documents as they are, in order: the offset is zero and
    /// `total_rows` counts them.
    pub fn new_from_documents(docs: Vec<Document>, bookmark: Option<String>) -> (r:
        DocumentCollection)
        requires
            docs@.len() <= u32::MAX,
        ensures
            r.offset == Some(0u32),
            r.bookmark == bookmark,
            r.wf(),
            r.rows@.len() == docs@.len(),
            forall|i: int| 0 <= i < docs@.len() ==> #[trigger] r.rows@[i].doc == docs@[i],
    {
        let ghost orig = docs@;
        let mut docs = docs;
        let len = docs.len() as u32;
        let mut items: Vec<DocumentCollectionItem> = Vec::new();
        while docs.len() > 0
            invariant
                items@.len() + docs@.len() == orig.len(),
                docs@ == orig.subrange(items@.len() as int, orig.len() as int),
                forall|i: int| 0 <= i < items@.len() ==> #[trigger] items@[i].doc == orig[i],
                forall|i: int| 0 <= i < items@.len() ==> #[trigger] items@[i].wf(),
            decreases docs@.len(),
        {
            let d = docs.remove(0);
            items.push(DocumentCollectionItem::new(d));
            proof {
                assert(docs@ =~= orig.subrange(items@.len() as int, orig.len() as int));
            }
        }
        DocumentCollection { offset: Some(0), total_rows: len, rows: items, bookmark }
    }

    /// A copy of each document's payload, in order.
    pub fn get_data(&self) -> (r: Vec<Json>)
        ensures
            r@.len() == self.rows@.len(),
            forall|i: int| 0 <= i < r@.len() ==> (#[trigger] r@[i])@ == self.rows@[i].doc.doc@,
            forall|i: int|
                0 <= i < r@.len() && self.rows@[i].wf() && self.rows@[i].doc.in_sync() ==> id_of(
                    (#[trigger] r@[i])@,
                ) == Some(self.rows@[i].id@),
    {
        let mut out: Vec<Json> = Vec::new();
        let mut i: usize = 0;
        while i < self.rows.len()
            invariant
                i <= self.rows@.len(),
                out@.len() == i,
                forall|j: int| 0 <= j < i ==> (#[trigger] out@[j])@ == self.rows@[j].doc.doc@,
            decreases self.rows@.len() - i,
        {
            out.push(self.rows[i].doc.get_data());
            i += 1;
        }
        out
    }

    /// The item at position `index`.
    pub fn index(&self, index: usize) -> (r: &DocumentCollectionItem)
        requires
            index < self.rows@.len(),
        ensures
            *r == self.rows@[index as int],
    {
        &self.rows[index]
    }
}

/// Of a query result's rows, those that carry an error and those that hold a
/// design document are left out, each row at most once: the collection keeps
/// the number of rows less those two counts.
pub proof fn lemma_kept_count(rows: Seq<JsonV>)
    ensures
        kept_rows(rows).len() == rows.len() - error_count(rows) - design_count(rows),
    decreases rows.len(),
{
    if rows.len() > 0 {
        lemma_kept_count(rows.drop_last());
    }
}

/// Reading documents back from the payloads that `get_data` hands out, and
/// wrapping them again, gives back the same ids in the same order; and each
/// payload can be read back.
pub proof fn lemma_round_trip_ids(
    c: DocumentCollection,
    data: Seq<JsonV>,
    docs: Seq<Document>,
    back: DocumentCollection,
)
    requires
        c.wf(),
        forall|i: int| 0 <= i < c.rows@.len() ==> (#[trigger] c.rows@[i]).doc.in_sync(),
        data.len() == c.rows@.len(),
        forall|i: int| 0 <= i < data.len() ==> #[trigger] data[i] == c.rows@[i].doc.doc@,
        docs.len() == data.len(),
        forall|i: int| 0 <= i < docs.len() ==> document_of(data[i], #[trigger] docs[i]),
        back.wf(),
        back.rows@.len() == docs.len(),
        forall|i: int| 0 <= i < docs.len() ==> #[trigger] back.rows@[i].doc == docs[i],
    ensures
        forall|i: int|
            0 <= i < data.len() ==> id_of(#[trigger] data[i]) is Some && rev_of(data[i]) is Some,
        ids_of(back.rows@) == ids_of(c.rows@),
{
    assert forall|i: int| 0 <= i < data.len() implies id_of(#[trigger] data[i]) is Some && rev_of(
        data[i],
    ) is Some by {
        assert(c.rows@[i].doc.in_sync());
    }
    assert forall|i: int| 0 <= i < docs.len() implies #[trigger] ids_of(back.rows@)[i] == ids_of(
        c.rows@,
    )[i] by {
        assert(c.rows@[i].doc.in_sync());
        assert(c.rows@[i].wf());
        assert(back.rows@[i].wf());
        assert(document_of(data[i], docs[i]));
    }
    assert(ids_of(back.rows@) =~= ids_of(c.rows@));
}

} // verus!
