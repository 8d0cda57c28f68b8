use vstd::prelude::*;

verus! {

#[verifier::external_type_specification]
#[verifier::external_body]
pub struct ExNumber(serde_json::Number);

/// Relies on the `Clone` that serde_json derives for `Number`: the copy is
/// the same number.
pub assume_specification[ <serde_json::Number as Clone>::clone ](n: &serde_json::Number) -> (r:
    serde_json::Number)
    ensures
        r == *n,
;

/// A JSON value, as this library reads and builds it.
///
/// Integers are held as plain values; any other number stays a
/// `serde_json::Number`, which the library only carries through.
/// An object is a list of entries; lookups take the first entry with the key.
#[derive(Debug, PartialEq)]
pub enum Json {
    Null,
    Bool(bool),
    /// A non-negative integer.
    PosInt(u64),
    /// A negative integer.
    NegInt(i64),
    /// A number that is not an integer.
    Float(serde_json::Number),
    Str(String),
    Array(Vec<Json>),
    Object(Vec<(String, Json)>),
}

/// The mathematical value of a [`Json`].
pub enum JsonV {
    Null,
    Bool(bool),
    PosInt(u64),
    NegInt(i64),
    Float(serde_json::Number),
    Str(Seq<char>),
    Array(Seq<JsonV>),
    Object(Seq<(Seq<char>, JsonV)>),
}

impl Json {
    pub open spec fn view(&self) -> JsonV
        decreases self,
    {
        match self {
            Json::Null => JsonV::Null,
            Json::Bool(b) => JsonV::Bool(*b),
            Json::PosInt(n) => JsonV::PosInt(*n),
            Json::NegInt(n) => JsonV::NegInt(*n),
            Json::Float(n) => JsonV::Float(*n),
            Json::Str(s) => JsonV::Str(s@),
            Json::Array(items) => JsonV::Array(view_items(items@)),
            Json::Object(entries) => JsonV::Object(view_entries(entries@)),
        }
    }
}

pub open spec fn view_items(s: Seq<Json>) -> Seq<JsonV>
    decreases s,
{
    if s.len() == 0 {
        Seq::empty()
    } else {
        view_items(s.drop_last()).push(s.last()@)
    }
}

pub open spec fn view_entries(s: Seq<(String, Json)>) -> Seq<(Seq<char>, JsonV)>
    decreases s,
{
    if s.len() == 0 {
        Seq::empty()
    } else {
        view_entries(s.drop_last()).push((s.last().0@, s.last().1@))
    }
}


/// Position of the first entry with key `k`.
pub open spec fn key_index(e: Seq<(Seq<char>, JsonV)>, k: Seq<char>) -> Option<int>
    decreases e.len(),
{
    if e.len() == 0 {
        None
    } else if e[0].0 == k {
        Some(0)
    } else {
        match key_index(e.drop_first(), k) {
            Some(i) => Some(i + 1),
            None => None,
        }
    }
}

/// Whether `v` is an object with an entry for `k`.
pub open spec fn has_key(v: JsonV, k: Seq<char>) -> bool {
    match v {
        JsonV::Object(e) => key_index(e, k) is Some,
        _ => false,
    }
}

/// The value read at key `k`: the first entry's value, and `Null` where `v`
/// is no object or has no such entry.
pub open spec fn field_of(v: JsonV, k: Seq<char>) -> JsonV {
    match v {
        JsonV::Object(e) => match key_index(e, k) {
            Some(i) => e[i].1,
            None => JsonV::Null,
        },
        _ => JsonV::Null,
    }
}

/// The text of a string value.
pub open spec fn str_of(v: JsonV) -> Option<Seq<char>> {
    match v {
        JsonV::Str(s) => Some(s),
        _ => None,
    }
}

/// The entries after writing `x` at key `k`: the first entry with the key is
/// overwritten, else a new entry goes at the end.
pub open spec fn put_entry(e: Seq<(Seq<char>, JsonV)>, k: Seq<char>, x: JsonV) -> Seq<
    (Seq<char>, JsonV),
> {
    match key_index(e, k) {
        Some(i) => e.update(i, (k, x)),
        None => e.push((k, x)),
    }
}

/// No two entries share a key, as in an object that a JSON parser builds.
pub open spec fn unique_keys(e: Seq<(Seq<char>, JsonV)>) -> bool {
    forall|i: int, j: int| 0 <= i < j < e.len() ==> e[i].0 != e[j].0
}

/// Writing at a key keeps the keys unique.
pub proof fn lemma_put_entry_unique(e: Seq<(Seq<char>, JsonV)>, k: Seq<char>, x: JsonV)
    requires
        unique_keys(e),
    ensures
        unique_keys(put_entry(e, k, x)),
{
    lemma_key_index(e, k);
    let e2 = put_entry(e, k, x);
    match key_index(e, k) {
        Some(i) => {
            assert forall|a: int| 0 <= a < e.len() implies #[trigger] e2[a].0 == e[a].0 by {}
        },
        None => {
            assert forall|a: int| 0 <= a < e.len() implies #[trigger] e2[a] == e[a] by {}
        },
    }
}

pub proof fn lemma_view_items(s: Seq<Json>)
    ensures
        view_items(s).len() == s.len(),
        forall|i: int| 0 <= i < s.len() ==> #[trigger] view_items(s)[i] == s[i]@,
    decreases s.len(),
{
    if s.len() > 0 {
        lemma_view_items(s.drop_last());
    }
}

pub proof fn lemma_view_entries(s: Seq<(String, Json)>)
    ensures
        view_entries(s).len() == s.len(),
        forall|i: int|
            0 <= i < s.len() ==> #[trigger] view_entries(s)[i] == (s[i].0@, s[i].1@),
    decreases s.len(),
{
    if s.len() > 0 {
        lemma_view_entries(s.drop_last());
    }
}

pub proof fn lemma_key_index(e: Seq<(Seq<char>, JsonV)>, k: Seq<char>)
    ensures
        match key_index(e, k) {
            Some(i) => 0 <= i < e.len() && e[i].0 == k && forall|j: int|
                0 <= j < i ==> e[j].0 != k,
            None => forall|j: int| 0 <= j < e.len() ==> e[j].0 != k,
        },
    decreases e.len(),
{
    if e.len() > 0 {
        lemma_key_index(e.drop_first(), k);
        assert forall|j: int| 1 <= j < e.len() implies e[j] == e.drop_first()[j - 1] by {}
    }
}

/// The position of the first entry whose key is `k`.
pub fn find_key(entries: &Vec<(String, Json)>, k: &String) -> (r: Option<usize>)
    ensures
        key_index(view_entries(entries@), k@) == (match r {
            Some(i) => Some(i as int),
            None => None::<int>,
        }),
{
    proof {
        lemma_view_entries(entries@);
    }
    let mut i: usize = 0;
    while i < entries.len()
        invariant
            i <= entries@.len(),
            forall|j: int| 0 <= j < i ==> view_entries(entries@)[j].0 != k@,
        decreases entries@.len() - i,
    {
        proof {
            lemma_view_entries(entries@);
        }
        if entries[i].0 == *k {
            proof {
                lemma_key_index(view_entries(entries@), k@);
                assert(view_entries(entries@)[i as int].0 == k@);
            }
            return Some(i);
        }
        i += 1;
    }
    proof {
        lemma_key_index(view_entries(entries@), k@);
    }
    None
}

impl Json {
    /// A deep copy.
    pub fn copy(&self) -> (r: Json)
        ensures
            r@ == self@,
        decreases self,
    {
        match self {
            Json::Null => Json::Null,
            Json::Bool(b) => Json::Bool(*b),
            Json::PosInt(n) => Json::PosInt(*n),
            Json::NegInt(n) => Json::NegInt(*n),
            Json::Float(n) => Json::Float(n.clone()),
            Json::Str(s) => Json::Str(s.clone()),
            Json::Array(items) => {
                let mut out: Vec<Json> = Vec::new();
                let mut i: usize = 0;
                proof {
                    assert(decreases_to!(*self => *items));
                }
                while i < items.len()
                    invariant
                        decreases_to!(*self => *items),
                        i <= items@.len(),
                        out@.len() == i,
                        forall|j: int| 0 <= j < i ==> #[trigger] out@[j]@ == items@[j]@,
                    decreases items@.len() - i,
                {
                    proof {
                        assert(decreases_to!(*items => items[i as int]));
                        assert(decreases_to!(*self => items[i as int]));
                    }
                    out.push(items[i].copy());
                    i += 1;
                }
                proof {
                    lemma_view_items(out@);
                    lemma_view_items(items@);
                    assert(view_items(out@) =~= view_items(items@));
                }
                Json::Array(out)
            },
            Json::Object(entries) => {
                let mut out: Vec<(String, Json)> = Vec::new();
                let mut i: usize = 0;
                proof {
                    assert(decreases_to!(*self => *entries));
                }
                while i < entries.len()
                    invariant
                        decreases_to!(*self => *entries),
                        i <= entries@.len(),
                        out@.len() == i,
                        forall|j: int|
                            0 <= j < i ==> (#[trigger] out@[j]).0@ == entries@[j].0@ && out@[j].1@
                                == entries@[j].1@,
                    decreases entries@.len() - i,
                {
                    proof {
                        assert(decreases_to!(*entries => entries[i as int]));
                        assert(decreases_to!(entries[i as int] => entries[i as int].1));
                        assert(decreases_to!(*self => entries[i as int].1));
                    }
                    let k = entries[i].0.clone();
                    let v = entries[i].1.copy();
                    out.push((k, v));
                    i += 1;
                }
                proof {
                    lemma_view_entries(out@);
                    lemma_view_entries(entries@);
                    assert(view_entries(out@) =~= view_entries(entries@));
                }
                Json::Object(out)
            },
        }
    }

    /// The value at key `k`, where `self` is an object holding that key.
    pub fn get(&self, k: &String) -> (r: Option<&Json>)
        ensures
            r is Some <==> has_key(self@, k@),
            r matches Some(x) ==> x@ == field_of(self@, k@),
    {
        match self {
            Json::Object(entries) => {
                proof {
                    lemma_view_entries(entries@);
                    lemma_key_index(view_entries(entries@), k@);
                }
                match find_key(entries, k) {
                    Some(i) => Some(&entries[i].1),
                    None => None,
                }
            },
            _ => None,
        }
    }

    /// Writes `x` at key `k` of an object.
    pub fn insert(&mut self, k: String, x: Json)
        requires
            old(self)@ is Object,
        ensures
            final(self)@ == JsonV::Object(put_entry(old(self)@->Object_0, k@, x@)),
    {
        match self {
            Json::Object(entries) => {
                proof {
                    lemma_view_entries(entries@);
                }
                let ghost e0 = entries@;
                let ghost kv = k@;
                let ghost xv = x@;
                proof {
                    lemma_key_index(view_entries(entries@), k@);
                }
                match find_key(entries, &k) {
                    Some(i) => {
                        entries.set(i, (k, x));
                        proof {
                            lemma_view_entries(entries@);
                            assert(view_entries(entries@) =~= view_entries(e0).update(
                                i as int,
                                (kv, xv),
                            ));
                        }
                    },
                    None => {
                        entries.push((k, x));
                        proof {
                            lemma_view_entries(entries@);
                            assert(view_entries(entries@) =~= view_entries(e0).push((kv, xv)));
                        }
                    },
                }
            },
            _ => {},
        }
    }
}

/// One step of a path into a JSON value: a key of an object, or a position in
/// an array.
#[derive(Debug, PartialEq)]
pub enum PathSegment {
    Key(String),
    Index(usize),
}

/// The value one step below `v`: `null` where `v` has nothing there.
pub open spec fn step(v: JsonV, seg: PathSegment) -> JsonV {
    match seg {
        PathSegment::Key(k) => field_of(v, k@),
        PathSegment::Index(i) => match v {
            JsonV::Array(items) => if i < items.len() {
                items[i as int]
            } else {
                JsonV::Null
            },
            _ => JsonV::Null,
        },
    }
}

/// The value at the end of `path`.
pub open spec fn value_at(v: JsonV, path: Seq<PathSegment>) -> JsonV
    decreases path.len(),
{
    if path.len() == 0 {
        v
    } else {
        value_at(step(v, path[0]), path.drop_first())
    }
}

/// Every position on `path` that meets an array lies inside it.
pub open spec fn path_in_bounds(v: JsonV, path: Seq<PathSegment>) -> bool
    decreases path.len(),
{
    if path.len() == 0 {
        true
    } else {
        &&& (path[0] matches PathSegment::Index(i) && v matches JsonV::Array(items) ==> i
            < items.len())
        &&& path_in_bounds(step(v, path[0]), path.drop_first())
    }
}

proof fn lemma_value_at_null(path: Seq<PathSegment>)
    ensures
        value_at(JsonV::Null, path) == JsonV::Null,
    decreases path.len(),
{
    if path.len() > 0 {
        lemma_value_at_null(path.drop_first());
    }
}

impl Json {
    /// A copy of the value at the end of `path`; `null` where a key on the
    /// way is missing or a step meets a value that has no such key or
    /// position. A position past the end of an array is not allowed.
    pub fn get_path(&self, path: &Vec<PathSegment>) -> (r: Json)
        requires
            path_in_bounds(self@, path@),
        ensures
            r@ == value_at(self@, path@),
    {
        let mut cur: &Json = self;
        let mut i: usize = 0;
        proof {
            assert(path@.subrange(0, path@.len() as int) =~= path@);
        }
        while i < path.len()
            invariant
                i <= path@.len(),
                value_at(self@, path@) == value_at(cur@, path@.subrange(i as int, path@.len() as int)),
                path_in_bounds(cur@, path@.subrange(i as int, path@.len() as int)),
            decreases path@.len() - i,
        {
            let ghost rest = path@.subrange(i as int, path@.len() as int);
            proof {
                assert(rest[0] == path@[i as int]);
                assert(rest.drop_first() =~= path@.subrange(i + 1, path@.len() as int));
            }
            match &path[i] {
                PathSegment::Key(k) => match cur.get(k) {
                    Some(x) => {
                        cur = x;
                    },
                    None => {
                        proof {
                            lemma_value_at_null(rest.drop_first());
                        }
                        return Json::Null;
                    },
                },
                PathSegment::Index(n) => match cur {
                    Json::Array(items) => {
                        proof {
                            lemma_view_items(items@);
                        }
                        cur = &items[*n];
                    },
                    _ => {
                        proof {
                            lemma_value_at_null(rest.drop_first());
                        }
                        return Json::Null;
                    },
                },
            }
            i += 1;
        }
        proof {
            assert(path@.subrange(path@.len() as int, path@.len() as int).len() == 0);
        }
        cur.copy()
    }
}

} // verus!
