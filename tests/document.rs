use couch_rs::collection::{DocumentCollection, DocumentCollectionItem};
use couch_rs::document::{Document, ExtractionError};
use couch_rs::json::{Json, PathSegment};
use couch_rs::typed::TypedCouchDocument;

fn s(x: &str) -> Json {
    Json::Str(x.to_string())
}

fn obj(entries: Vec<(&str, Json)>) -> Json {
    Json::Object(entries.into_iter().map(|(k, v)| (k.to_string(), v)).collect())
}

fn doc_json(id: &str, rev: &str) -> Json {
    obj(vec![("_id", s(id)), ("_rev", s(rev))])
}

fn doc(id: &str, rev: &str) -> Document {
    Document::new(doc_json(id, rev)).unwrap()
}

struct TestDocument {
    pub _id: String,
    pub _rev: String,
}

impl TypedCouchDocument for TestDocument {
    fn get_id(&self) -> Result<String, ExtractionError> {
        Ok(self._id.clone())
    }

    fn get_rev(&self) -> Result<String, ExtractionError> {
        Ok(self._rev.clone())
    }

    fn set_rev(&mut self, rev: &str) {
        self._rev = rev.to_string();
    }

    fn set_id(&mut self, id: &str) {
        self._id = id.to_string();
    }

    fn merge(&mut self, other: Self) -> Result<(), ExtractionError> {
        self._id = other._id;
        self._rev = other._rev;
        Ok(())
    }
}

#[test]
fn test_derive_couch_document() {
    let doc = TestDocument {
        _id: "1".to_string(),
        _rev: "2".to_string(),
    };
    let id = doc.get_id().unwrap();
    let rev = doc.get_rev().unwrap();
    assert_eq!(id, "1");
    assert_eq!(rev, "2");
}

#[test]
fn new_reads_identity_fields() {
    let d = Document::new(obj(vec![
        ("_id", s("a")),
        ("_rev", s("1-x")),
        ("n", Json::PosInt(5)),
    ]))
    .unwrap();
    assert_eq!(d._id, "a");
    assert_eq!(d._rev, "1-x");
    assert_eq!(d.get("n"), Json::PosInt(5));
    assert_eq!(d.get("missing"), Json::Null);
}

#[test]
fn new_fails_without_identity() {
    assert_eq!(Document::new(obj(vec![("_rev", s("1"))])), Err(ExtractionError::Id));
    assert_eq!(Document::new(obj(vec![("_id", s("a"))])), Err(ExtractionError::Rev));
    assert_eq!(
        Document::new(obj(vec![("_id", Json::PosInt(3)), ("_rev", s("1"))])),
        Err(ExtractionError::Id)
    );
    assert_eq!(
        Document::new(obj(vec![("_id", s("a")), ("_rev", Json::Null)])),
        Err(ExtractionError::Rev)
    );
    assert_eq!(Document::new(Json::Null), Err(ExtractionError::Id));
    assert_eq!(Document::new(s("a")), Err(ExtractionError::Id));
}

#[test]
fn get_keys_lists_payload_keys() {
    let d = Document::new(obj(vec![("_id", s("a")), ("_rev", s("1")), ("x", Json::Bool(true))]))
        .unwrap();
    assert_eq!(d.get_keys(), vec!["_id".to_string(), "_rev".to_string(), "x".to_string()]);
}

#[test]
fn get_data_is_a_copy() {
    let mut d = doc("a", "1");
    let before = d.get_data();
    d.set("x", Json::PosInt(1));
    assert_eq!(before, doc_json("a", "1"));
    assert_eq!(d.get("x"), Json::PosInt(1));
}

#[test]
fn merge_keeps_identity() {
    let mut d = doc("a", "1");
    d.merge(obj(vec![("_id", s("zzz")), ("_rev", s("9")), ("c", Json::PosInt(3))]));
    assert_eq!(d._id, "a");
    assert_eq!(d._rev, "1");
    assert_eq!(d.get("_id"), s("a"));
    assert_eq!(d.get("_rev"), s("1"));
    assert_eq!(d.get("c"), Json::PosInt(3));
}

#[test]
fn merge_overwrites_and_adds() {
    let mut d = Document::new(obj(vec![
        ("_id", s("a")),
        ("_rev", s("1")),
        ("a", Json::PosInt(0)),
        ("b", Json::PosInt(2)),
    ]))
    .unwrap();
    d.merge(obj(vec![("a", Json::PosInt(1))]));
    assert_eq!(
        d.get_data(),
        obj(vec![
            ("_id", s("a")),
            ("_rev", s("1")),
            ("a", Json::PosInt(1)),
            ("b", Json::PosInt(2)),
        ])
    );
}

#[test]
fn merge_with_non_object_changes_nothing() {
    let mut d = doc("a", "1");
    d.merge(Json::Array(vec![s("x")]));
    assert_eq!(d, doc("a", "1"));
}

fn row(d: Json) -> Json {
    obj(vec![("doc", d)])
}

#[test]
fn collection_drops_error_and_design_rows() {
    let raw = obj(vec![
        ("offset", Json::PosInt(2)),
        ("total_rows", Json::PosInt(99)),
        (
            "rows",
            Json::Array(vec![
                row(doc_json("a", "1")),
                obj(vec![("error", s("not_found"))]),
                row(doc_json("_design/x", "1")),
                row(doc_json("b", "1")),
                obj(vec![("error", s("deleted")), ("doc", doc_json("_design/y", "1"))]),
                row(doc_json("c", "1")),
            ]),
        ),
    ]);
    let c = DocumentCollection::new(raw).unwrap();
    assert_eq!(c.total_rows, 3);
    assert_eq!(c.rows.len(), 3);
    assert_eq!(c.offset, Some(2));
    assert_eq!(c.bookmark, None);
    let ids: Vec<String> = c.rows.iter().map(|i| i.id.clone()).collect();
    assert_eq!(ids, vec!["a".to_string(), "b".to_string(), "c".to_string()]);
    assert_eq!(c.index(1).doc._id, "b");
}

#[test]
fn collection_errors() {
    assert_eq!(DocumentCollection::new(obj(vec![])), Err(ExtractionError::Rows));
    assert_eq!(
        DocumentCollection::new(obj(vec![("rows", s("x"))])),
        Err(ExtractionError::Rows)
    );
    assert_eq!(
        DocumentCollection::new(obj(vec![(
            "rows",
            Json::Array(vec![row(obj(vec![("_id", s("a"))]))])
        )])),
        Err(ExtractionError::Rev)
    );
    assert_eq!(
        DocumentCollection::new(obj(vec![("rows", Json::Array(vec![obj(vec![])]))])),
        Err(ExtractionError::Id)
    );
    assert_eq!(
        DocumentCollection::new(obj(vec![
            ("rows", Json::Array(vec![])),
            ("offset", Json::NegInt(-1)),
        ]))
        .unwrap()
        .offset,
        None
    );
    assert_eq!(
        DocumentCollection::new(obj(vec![
            ("rows", Json::Array(vec![])),
            ("offset", Json::PosInt(1u64 << 32)),
        ]))
        .unwrap()
        .offset,
        None
    );
}

#[test]
fn collection_without_offset_and_rows() {
    let c = DocumentCollection::new(obj(vec![("rows", Json::Array(vec![]))])).unwrap();
    assert_eq!(c.offset, None);
    assert_eq!(c.total_rows, 0);
    assert!(c.rows.is_empty());
}

#[test]
fn design_rows_need_no_revision() {
    let c = DocumentCollection::new(obj(vec![(
        "rows",
        Json::Array(vec![row(obj(vec![("_id", s("_design/v"))]))]),
    )]))
    .unwrap();
    assert_eq!(c.total_rows, 0);
}

#[test]
fn from_documents_wraps_in_order() {
    let c = DocumentCollection::new_from_documents(
        vec![doc("x", "1"), doc("y", "2")],
        Some("bm".to_string()),
    );
    assert_eq!(c.offset, Some(0));
    assert_eq!(c.total_rows, 2);
    assert_eq!(c.bookmark, Some("bm".to_string()));
    assert_eq!(c.rows[0], DocumentCollectionItem::new(doc("x", "1")));
    assert_eq!(c.rows[1].id, "y");
}

#[test]
fn round_trip_keeps_ids() {
    let c = DocumentCollection::new_from_documents(
        vec![doc("x", "1"), doc("y", "2"), doc("z", "3")],
        None,
    );
    let docs: Vec<Document> = c
        .get_data()
        .into_iter()
        .map(|d| Document::new(d).unwrap())
        .collect();
    let back = DocumentCollection::new_from_documents(docs, None);
    let ids: Vec<String> = back.rows.iter().map(|i| i.id.clone()).collect();
    assert_eq!(ids, vec!["x".to_string(), "y".to_string(), "z".to_string()]);
}

fn with_refs(refs: Json) -> Document {
    Document::new(obj(vec![("_id", s("p")), ("_rev", s("1")), ("refs", refs)])).unwrap()
}

#[test]
fn populate_on_null_or_absent_field_changes_nothing() {
    let mut d = doc("a", "1");
    assert_eq!(d.populate_ids("refs"), None);
    d.populate("refs", Some(vec![doc_json("id1", "1")]));
    assert_eq!(d, doc("a", "1"));

    let mut d = with_refs(Json::Null);
    d.populate("refs", Some(vec![doc_json("id1", "1")]));
    assert_eq!(d, with_refs(Json::Null));
}

#[test]
fn populate_keeps_only_requested_documents() {
    let mut d = with_refs(Json::Array(vec![s("id1"), s("id2")]));
    assert_eq!(
        d.populate_ids("refs"),
        Some(vec!["id1".to_string(), "id2".to_string()])
    );
    d.populate("refs", Some(vec![doc_json("id1", "1"), doc_json("id3", "1")]));
    assert_eq!(d.get("refs"), Json::Array(vec![doc_json("id1", "1")]));
    assert_eq!(d._id, "p");
}

#[test]
fn populate_on_failed_fetch_keeps_ids() {
    let mut d = with_refs(Json::Array(vec![s("id1"), s("id2")]));
    d.populate("refs", None);
    assert_eq!(d, with_refs(Json::Array(vec![s("id1"), s("id2")])));
}

#[test]
fn populate_ids_coerces_non_strings() {
    let d = with_refs(Json::Array(vec![s("id1"), Json::PosInt(4)]));
    assert_eq!(
        d.populate_ids("refs"),
        Some(vec!["id1".to_string(), "".to_string()])
    );
    let d = with_refs(s("id1"));
    assert_eq!(d.populate_ids("refs"), Some(vec![]));
}

#[test]
fn json_identity_accessors() {
    let mut v = doc_json("a", "1");
    assert_eq!(v.get_id(), Ok("a".to_string()));
    assert_eq!(v.get_rev(), Ok("1".to_string()));
    v.set_id("b");
    v.set_rev("2");
    assert_eq!(v, doc_json("b", "2"));
    assert_eq!(v.merge(doc_json("c", "3")), Ok(()));
    assert_eq!(v.get_id(), Ok("c".to_string()));
    assert_eq!(v.get_rev(), Ok("3".to_string()));

    let mut n = Json::Null;
    n.set_id("b");
    assert_eq!(n, Json::Null);
    assert_eq!(n.get_id(), Err(ExtractionError::Id));
    assert_eq!(obj(vec![("_id", s("a"))]).get_rev(), Err(ExtractionError::Rev));

    let mut w = doc_json("a", "1");
    assert_eq!(w.merge(obj(vec![("_id", s("b"))])), Err(ExtractionError::Rev));
    assert_eq!(w.merge(obj(vec![("_rev", s("2"))])), Err(ExtractionError::Id));
    assert_eq!(w, doc_json("a", "1"));

    let mut x = obj(vec![("_id", s("a")), ("k", Json::PosInt(7))]);
    x.set_rev("5");
    assert_eq!(x, obj(vec![("_id", s("a")), ("k", Json::PosInt(7)), ("_rev", s("5"))]));
}

#[test]
fn copy_keeps_every_kind_of_value() {
    let v = obj(vec![
        ("f", Json::Float(serde_json::Number::from_f64(1.5).unwrap())),
        ("n", Json::NegInt(-3)),
        ("a", Json::Array(vec![Json::Bool(false), Json::Null])),
    ]);
    assert_eq!(v.copy(), v);
}

#[test]
fn populate_on_non_array_field_requests_nothing() {
    let mut d = with_refs(s("id1"));
    d.populate("refs", Some(vec![doc_json("id1", "1")]));
    assert_eq!(d.get("refs"), Json::Array(vec![]));
}

#[test]
fn get_path_reads_nested_values() {
    let d = Document::new(obj(vec![
        ("_id", s("a")),
        ("_rev", s("1")),
        ("tags", Json::Array(vec![s("x"), obj(vec![("k", Json::PosInt(9))])])),
    ]))
    .unwrap();
    let path = vec![
        PathSegment::Key("tags".to_string()),
        PathSegment::Index(1),
        PathSegment::Key("k".to_string()),
    ];
    assert_eq!(d.get_path(&path), Json::PosInt(9));
    let missing = vec![PathSegment::Key("nope".to_string()), PathSegment::Index(3)];
    assert_eq!(d.get_path(&missing), Json::Null);
    assert_eq!(d.get_path(&vec![]), d.get_data());
}

#[test]
fn merge_returns_the_document() {
    let mut d = doc("a", "1");
    let r = d.merge(obj(vec![("b", Json::Bool(true))]));
    assert_eq!(r.get("b"), Json::Bool(true));
}
