use vstd::prelude::*;

use crate::json::{
    field_of, key_index, lemma_key_index, lemma_put_entry_unique, lemma_view_entries,
    lemma_view_items, path_in_bounds, put_entry, str_of, unique_keys, value_at, view_entries,
    view_items, Json, JsonV, PathSegment,
};

verus! {

/// A required identity field could not be read.
#[derive(Debug, PartialEq, Eq, Structural)]
pub enum ExtractionError {
    /// `_id` is missing or not a string.
    Id,
    /// `_rev` is missing or not a string.
    Rev,
    /// A query result holds no `rows` array.
    Rows,
}

/// The `_id` of a value, where it is a string.
pub open spec fn id_of(v: JsonV) -> Option<Seq<char>> {
    str_of(field_of(v, "_id"@))
}

/// The `_rev` of a value, where it is a string.
pub open spec fn rev_of(v: JsonV) -> Option<Seq<char>> {
    str_of(field_of(v, "_rev"@))
}

/// Whether `k` names one of the identity fields.
pub open spec fn is_identity_key(k: Seq<char>) -> bool {
    k == "_id"@ || k == "_rev"@
}

/// The entries `e` after `inc` is merged into them, entry by entry, leaving
/// out the identity fields.
pub open spec fn merged(e: Seq<(Seq<char>, JsonV)>, inc: Seq<(Seq<char>, JsonV)>) -> Seq<
    (Seq<char>, JsonV),
>
    decreases inc.len(),
{
    if inc.len() == 0 {
        e
    } else {
        let m = merged(e, inc.drop_last());
        if is_identity_key(inc.last().0) {
            m
        } else {
            put_entry(m, inc.last().0, inc.last().1)
        }
    }
}

/// The keys of an object's entries, in order; none for any other value.
pub open spec fn keys_of(v: JsonV) -> Seq<Seq<char>> {
    match v {
        JsonV::Object(e) => e.map_values(|p: (Seq<char>, JsonV)| p.0),
        _ => Seq::empty(),
    }
}

/// The id that an entry of a reference field asks for: its text where it is
/// a string, else the empty string.
pub open spec fn requested_id(x: JsonV) -> Seq<char> {
    match x {
        JsonV::Str(s) => s,
        _ => Seq::empty(),
    }
}

/// The ids that a reference field asks for: one per entry of an array, and
/// none where the field holds anything else.
pub open spec fn requested_ids(v: JsonV) -> Seq<Seq<char>> {
    match v {
        JsonV::Array(items) => items.map_values(|x: JsonV| requested_id(x)),
        _ => Seq::empty(),
    }
}

/// Whether a fetched document has a string `_id` among `ids`.
pub open spec fn wanted(ids: Seq<Seq<char>>, d: JsonV) -> bool {
    match id_of(d) {
        Some(s) => ids.contains(s),
        None => false,
    }
}

/// The fetched documents that were asked for, in the order fetched.
pub open spec fn kept(ids: Seq<Seq<char>>, docs: Seq<JsonV>) -> Seq<JsonV>
    decreases docs.len(),
{
    if docs.len() == 0 {
        Seq::empty()
    } else {
        let s = kept(ids, docs.drop_last());
        if wanted(ids, docs.last()) {
            s.push(docs.last())
        } else {
            s
        }
    }
}

/// Reading a key other than `k` after writing at `k` gives what it gave before.
pub proof fn lemma_field_after_put(
    e: Seq<(Seq<char>, JsonV)>,
    k: Seq<char>,
    x: JsonV,
    k2: Seq<char>,
)
    requires
        k != k2,
    ensures
        field_of(JsonV::Object(put_entry(e, k, x)), k2) == field_of(JsonV::Object(e), k2),
{
    let e2 = put_entry(e, k, x);
    lemma_key_index(e, k);
    lemma_key_index(e, k2);
    lemma_key_index(e2, k2);
    match key_index(e, k) {
        Some(i) => {
            assert forall|j: int| 0 <= j < e.len() implies #[trigger] e2[j].0 == e[j].0 by {}
            match key_index(e2, k2) {
                Some(a) => {
                    match key_index(e, k2) {
                        Some(b) => {
                            if a < b {
                                assert(e[a].0 == k2);
                            } else if b < a {
                                assert(e2[b].0 == k2);
                            }
                            assert(a == b);
                            assert(a != i);
                        },
                        None => {
                            assert(e[a].0 == k2);
                        },
                    }
                },
                None => {
                    match key_index(e, k2) {
                        Some(b) => {
                            assert(e2[b].0 == k2);
                        },
                        None => {},
                    }
                },
            }
        },
        None => {
            assert(e2.len() == e.len() + 1);
            assert forall|j: int| 0 <= j < e.len() implies #[trigger] e2[j] == e[j] by {}
            assert(e2[e.len() as int].0 == k);
            match key_index(e2, k2) {
                Some(a) => {
                    match key_index(e, k2) {
                        Some(b) => {
                            if a < b {
                                assert(e[a].0 == k2);
                            } else if b < a {
                                assert(e2[b].0 == k2);
                            }
                        },
                        None => {
                            assert(a < e.len());
                            assert(e[a].0 == k2);
                        },
                    }
                },
                None => {
                    match key_index(e, k2) {
                        Some(b) => {
                            assert(e2[b].0 == k2);
                        },
                        None => {},
                    }
                },
            }
        },
    }
}

/// Reading a key right after writing it gives the value written.
pub proof fn lemma_put_then_field(e: Seq<(Seq<char>, JsonV)>, k: Seq<char>, x: JsonV)
    ensures
        field_of(JsonV::Object(put_entry(e, k, x)), k) == x,
{
    let e2 = put_entry(e, k, x);
    lemma_key_index(e, k);
    lemma_key_index(e2, k);
    match key_index(e, k) {
        Some(i) => {
            assert forall|j: int| 0 <= j < e.len() implies #[trigger] e2[j].0 == e[j].0 by {}
            match key_index(e2, k) {
                Some(a) => {
                    if a < i {
                        assert(e[a].0 == k);
                    } else if i < a {
                        assert(e2[i].0 == k);
                    }
                },
                None => {
                    assert(e2[i].0 == k);
                },
            }
        },
        None => {
            assert forall|j: int| 0 <= j < e.len() implies #[trigger] e2[j] == e[j] by {}
            assert(e2[e.len() as int].0 == k);
            match key_index(e2, k) {
                Some(a) => {
                    if a < e.len() {
                        assert(e[a].0 == k);
                    }
                },
                None => {},
            }
        },
    }
}

/// Merging an object into a payload never changes the payload's `_id` or
/// `_rev`, whatever the merged object holds at those keys.
pub proof fn lemma_merge_keeps_identity(e: Seq<(Seq<char>, JsonV)>, inc: Seq<(Seq<char>, JsonV)>)
    ensures
        id_of(JsonV::Object(merged(e, inc))) == id_of(JsonV::Object(e)),
        rev_of(JsonV::Object(merged(e, inc))) == rev_of(JsonV::Object(e)),
    decreases inc.len(),
{
    if inc.len() > 0 {
        lemma_merge_keeps_identity(e, inc.drop_last());
        let m = merged(e, inc.drop_last());
        let k = inc.last().0;
        if !is_identity_key(k) {
            lemma_field_after_put(m, k, inc.last().1, "_id"@);
            lemma_field_after_put(m, k, inc.last().1, "_rev"@);
        }
    }
}

/// Whether `s` is among `ids`.
fn contains_id(ids: &Vec<String>, s: &String) -> (r: bool)
    ensures
        r == ids@.map_values(|x: String| x@).contains(s@),
{
    let ghost v = ids@.map_values(|x: String| x@);
    let mut i: usize = 0;
    while i < ids.len()
        invariant
            i <= ids@.len(),
            v == ids@.map_values(|x: String| x@),
            forall|j: int| 0 <= j < i ==> v[j] != s@,
        decreases ids@.len() - i,
    {
        if ids[i] == *s {
            proof {
                assert(v[i as int] == s@);
            }
            return true;
        }
        i += 1;
    }
    false
}

/// A document: its identity, and the JSON payload it was read from.
#[derive(Debug, PartialEq)]
pub struct Document {
    /// Document id, assigned by the store.
    pub _id: String,
    /// Document revision, which the store uses to detect conflicting updates.
    pub _rev: String,
    /// The payload, `_id` and `_rev` included.
    pub doc: Json,
}

/// `d` is the document read from the payload `p`.
pub open spec fn document_of(p: JsonV, d: Document) -> bool {
    &&& id_of(p) == Some(d._id@)
    &&& rev_of(p) == Some(d._rev@)
    &&& d.doc@ == p
}

/// The string at key `k` of `v`, copied.
pub(crate) fn str_field(v: &Json, k: &String) -> (r: Option<String>)
    ensures
        match r {
            Some(s) => str_of(field_of(v@, k@)) == Some(s@),
            None => str_of(field_of(v@, k@)) is None,
        },
{
    match v.get(k) {
        Some(Json::Str(s)) => Some(s.clone()),
        _ => None,
    }
}

impl Document {
    /// The payload is an object.
    pub open spec fn wf(&self) -> bool {
        self.doc@ is Object
    }

    /// No two top-level entries of the payload share a key.
    pub open spec fn has_unique_keys(&self) -> bool {
        self.doc@ matches JsonV::Object(e) && unique_keys(e)
    }

    /// The identity fields agree with the payload's `_id` and `_rev`.
    pub open spec fn in_sync(&self) -> bool {
        document_of(self.doc@, *self)
    }

    /// Reads a document from a payload holding string `_id` and `_rev`.
    pub fn new(doc: Json) -> (r: Result<Document, ExtractionError>)
        ensures
            r is Ok <==> id_of(doc@) is Some && rev_of(doc@) is Some,
            id_of(doc@) is None ==> r == Err::<Document, ExtractionError>(ExtractionError::Id),
            id_of(doc@) is Some && rev_of(doc@) is None ==> r == Err::<Document, ExtractionError>(
                ExtractionError::Rev,
            ),
            r matches Ok(d) ==> document_of(doc@, d) && d.wf() && d.in_sync(),
    {
        let id = match str_field(&doc, &"_id".to_string()) {
            Some(s) => s,
            None => return Err(ExtractionError::Id),
        };
        let rev = match str_field(&doc, &"_rev".to_string()) {
            Some(s) => s,
            None => return Err(ExtractionError::Rev),
        };
        Ok(Document { _id: id, _rev: rev, doc })
    }

    /// The payload's top-level keys.
    pub fn get_keys(&self) -> (r: Vec<String>)
        ensures
            r@.map_values(|s: String| s@) == keys_of(self.doc@),
            self.has_unique_keys() ==> r@.map_values(|s: String| s@).no_duplicates(),
    {
        let mut ret: Vec<String> = Vec::new();
        match &self.doc {
            Json::Object(entries) => {
                let mut i: usize = 0;
                while i < entries.len()
                    invariant
                        i <= entries@.len(),
                        ret@.len() == i,
                        forall|j: int| 0 <= j < i ==> (#[trigger] ret@[j])@ == entries@[j].0@,
                    decreases entries@.len() - i,
                {
                    ret.push(entries[i].0.clone());
                    i += 1;
                }
                proof {
                    lemma_view_entries(entries@);
                    assert(ret@.map_values(|s: String| s@) =~= keys_of(self.doc@));
                    if self.has_unique_keys() {
                        let ks = ret@.map_values(|s: String| s@);
                        let e = self.doc@->Object_0;
                        assert forall|a: int, b: int|
                            0 <= a < ks.len() && 0 <= b < ks.len() && a != b implies ks[a]
                            != ks[b] by {
                            if a < b {
                                assert(e[a].0 != e[b].0);
                            } else {
                                assert(e[b].0 != e[a].0);
                            }
                        }
                    }
                }
            },
            _ => {
                proof {
                    assert(ret@.map_values(|s: String| s@) =~= keys_of(self.doc@));
                }
            },
        }
        ret
    }

    /// A copy of the payload.
    pub fn get_data(&self) -> (r: Json)
        ensures
            r@ == self.doc@,
    {
        self.doc.copy()
    }

    /// Merges the entries of an object into the payload, leaving `_id` and
    /// `_rev` alone; any other value changes nothing.
    pub fn merge(&mut self, doc: Json) -> (r: &Self)
        requires
            old(self).wf(),
        ensures
            *r == *final(self),
            final(self)._id == old(self)._id,
            final(self)._rev == old(self)._rev,
            final(self).wf(),
            old(self).in_sync() ==> final(self).in_sync(),
            old(self).has_unique_keys() ==> final(self).has_unique_keys(),
            final(self).doc@ == match doc@ {
                JsonV::Object(inc) => JsonV::Object(merged(old(self).doc@->Object_0, inc)),
                _ => old(self).doc@,
            },
    {
        match &doc {
            Json::Object(entries) => {
                let ghost e0 = self.doc@->Object_0;
                let ghost inc = view_entries(entries@);
                let id_key = "_id".to_string();
                let rev_key = "_rev".to_string();
                proof {
                    lemma_view_entries(entries@);
                    assert(inc.take(0).len() == 0);
                }
                let mut i: usize = 0;
                while i < entries.len()
                    invariant
                        i <= entries@.len(),
                        inc == view_entries(entries@),
                        inc.len() == entries@.len(),
                        forall|j: int|
                            0 <= j < entries@.len() ==> #[trigger] inc[j] == (
                                entries@[j].0@,
                                entries@[j].1@,
                            ),
                        id_key@ == "_id"@,
                        rev_key@ == "_rev"@,
                        self.doc@ == JsonV::Object(merged(e0, inc.take(i as int))),
                        unique_keys(e0) ==> unique_keys(merged(e0, inc.take(i as int))),
                        self._id == old(self)._id,
                        self._rev == old(self)._rev,
                    decreases entries@.len() - i,
                {
                    proof {
                        assert(inc.take(i + 1).drop_last() =~= inc.take(i as int));
                        assert(inc.take(i + 1).last() == inc[i as int]);
                    }
                    let k = &entries[i].0;
                    if *k == id_key || *k == rev_key {
                    } else {
                        proof {
                            if unique_keys(e0) {
                                lemma_put_entry_unique(
                                    merged(e0, inc.take(i as int)),
                                    inc[i as int].0,
                                    inc[i as int].1,
                                );
                            }
                        }
                        self.doc.insert(k.clone(), entries[i].1.copy());
                    }
                    i += 1;
                }
                proof {
                    assert(inc.take(entries@.len() as int) =~= inc);
                    lemma_merge_keeps_identity(e0, inc);
                }
            },
            _ => {},
        }
        self
    }

    /// The payload's value at `key`; `null` where it has none.
    pub fn get(&self, key: &str) -> (r: Json)
        ensures
            r@ == field_of(self.doc@, key@),
    {
        match self.doc.get(&key.to_string()) {
            Some(v) => v.copy(),
            None => Json::Null,
        }
    }

    /// The payload's value at the end of `path`; `null` where a key on the
    /// way is missing. A position past the end of an array is not allowed.
    pub fn get_path(&self, path: &Vec<PathSegment>) -> (r: Json)
        requires
            path_in_bounds(self.doc@, path@),
        ensures
            r@ == value_at(self.doc@, path@),
    {
        self.doc.get_path(path)
    }

    /// Writes `value` at `key` of the payload, adding the key where it is new.
    pub fn set(&mut self, key: &str, value: Json)
        requires
            old(self).wf(),
        ensures
            final(self).doc@ == JsonV::Object(put_entry(old(self).doc@->Object_0, key@, value@)),
            old(self).has_unique_keys() ==> final(self).has_unique_keys(),
            final(self)._id == old(self)._id,
            final(self)._rev == old(self)._rev,
            final(self).wf(),
    {
        proof {
            if self.has_unique_keys() {
                lemma_put_entry_unique(self.doc@->Object_0, key@, value@);
            }
        }
        self.doc.insert(key.to_string(), value);
    }

    /// The ids that populating `field` asks for; `None` where the field is
    /// absent or `null`, and there is nothing to fetch.
    pub fn populate_ids(&self, field: &str) -> (r: Option<Vec<String>>)
        ensures
            r is None <==> field_of(self.doc@, field@) == JsonV::Null,
            r matches Some(ids) ==> ids@.map_values(|s: String| s@) == requested_ids(
                field_of(self.doc@, field@),
            ),
    {
        let key = field.to_string();
        match self.doc.get(&key) {
            None => None,
            Some(v) => match v {
                Json::Null => None,
                Json::Array(items) => {
                    let mut ids: Vec<String> = Vec::new();
                    let mut i: usize = 0;
                    while i < items.len()
                        invariant
                            i <= items@.len(),
                            ids@.len() == i,
                            forall|j: int|
                                0 <= j < i ==> (#[trigger] ids@[j])@ == requested_id(items@[j]@),
                        decreases items@.len() - i,
                    {
                        let id = match &items[i] {
                            Json::Str(s) => s.clone(),
                            _ => String::new(),
                        };
                        ids.push(id);
                        i += 1;
                    }
                    proof {
                        lemma_view_items(items@);
                        assert(ids@.map_values(|s: String| s@) =~= requested_ids(v@));
                    }
                    Some(ids)
                },
                _ => {
                    let ids: Vec<String> = Vec::new();
                    proof {
                        assert(ids@.map_values(|s: String| s@) =~= requested_ids(v@));
                    }
                    Some(ids)
                },
            },
        }
    }

    /// Replaces the reference field `field` with the fetched documents that
    /// it asked for. `fetched` is `None` where the fetch failed; then, and
    /// where the field is absent or `null`, the document stays as it is.
    pub fn populate(&mut self, field: &str, fetched: Option<Vec<Json>>)
        requires
            old(self).wf(),
        ensures
            field_of(old(self).doc@, field@) == JsonV::Null ==> *final(self) == *old(self),
            fetched is None ==> *final(self) == *old(self),
            field_of(old(self).doc@, field@) != JsonV::Null ==> (fetched matches Some(docs)
                ==> final(self).doc@ == JsonV::Object(
                put_entry(
                    old(self).doc@->Object_0,
                    field@,
                    JsonV::Array(
                        kept(requested_ids(field_of(old(self).doc@, field@)), view_items(docs@)),
                    ),
                ),
            )),
            final(self)._id == old(self)._id,
            final(self)._rev == old(self)._rev,
            final(self).wf(),
            old(self).has_unique_keys() ==> final(self).has_unique_keys(),
    {
        let ids = match self.populate_ids(field) {
            Some(ids) => ids,
            None => return ,
        };
        let docs = match fetched {
            Some(docs) => docs,
            None => return ,
        };
        let ghost idv = ids@.map_values(|s: String| s@);
        let ghost dv = view_items(docs@);
        proof {
            lemma_view_items(docs@);
        }
        let id_key = "_id".to_string();
        let mut out: Vec<Json> = Vec::new();
        let mut i: usize = 0;
        while i < docs.len()
            invariant
                i <= docs@.len(),
                dv == view_items(docs@),
                dv.len() == docs@.len(),
                forall|j: int| 0 <= j < docs@.len() ==> #[trigger] dv[j] == docs@[j]@,
                idv == ids@.map_values(|s: String| s@),
                id_key@ == "_id"@,
                out@.len() == kept(idv, dv.take(i as int)).len(),
                forall|j: int|
                    0 <= j < out@.len() ==> (#[trigger] out@[j])@ == kept(idv, dv.take(i as int))[j],
            decreases docs@.len() - i,
        {
            proof {
                assert(dv.take(i + 1).drop_last() =~= dv.take(i as int));
                assert(dv.take(i + 1).last() == dv[i as int]);
            }
            let keep = match str_field(&docs[i], &id_key) {
                Some(s) => contains_id(&ids, &s),
                None => false,
            };
            if keep {
                out.push(docs[i].copy());
            }
            i += 1;
        }
        proof {
            assert(dv.take(docs@.len() as int) =~= dv);
            lemma_view_items(out@);
            assert(view_items(out@) =~= kept(idv, dv));
            if self.has_unique_keys() {
                lemma_put_entry_unique(self.doc@->Object_0, field@, JsonV::Array(view_items(out@)));
            }
        }
        self.doc.insert(field.to_string(), Json::Array(out));
    }
}

} // verus!
