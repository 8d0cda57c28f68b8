use vstd::prelude::*;

use crate::document::{
    id_of, lemma_field_after_put, lemma_put_then_field, rev_of, str_field, ExtractionError,
};
use crate::json::{put_entry, Json, JsonV};

verus! {

/// What the store needs of a document type, dynamic or typed: its id and
/// revision, read and written, and taking another's identity.
pub trait TypedCouchDocument: Sized {
    /// The id; an error where the document has none.
    fn get_id(&self) -> Result<String, ExtractionError>;

    /// The revision; an error where the document has none.
    fn get_rev(&self) -> Result<String, ExtractionError>;

    fn set_rev(&mut self, rev: &str);

    fn set_id(&mut self, id: &str);

    /// Takes the id and revision of `other`; fails where `other` has none.
    fn merge(&mut self, other: Self) -> Result<(), ExtractionError>;
}

/// Writes the string `s` at key `k`, where `v` is an object.
fn write_str(v: &mut Json, k: &str, s: &str)
    ensures
        old(v)@ is Object ==> final(v)@ == JsonV::Object(
            put_entry(old(v)@->Object_0, k@, JsonV::Str(s@)),
        ),
        !(old(v)@ is Object) ==> *final(v) == *old(v),
{
    if let Json::Object(_) = v {
        v.insert(k.to_string(), Json::Str(s.to_string()));
    }
}

impl TypedCouchDocument for Json {
    fn get_id(&self) -> (r: Result<String, ExtractionError>)
        ensures
            r is Ok <==> id_of(self@) is Some,
            r matches Ok(s) ==> id_of(self@) == Some(s@),
            r is Err ==> r == Err::<String, ExtractionError>(ExtractionError::Id),
    {
        match str_field(self, &"_id".to_string()) {
            Some(s) => Ok(s),
            None => Err(ExtractionError::Id),
        }
    }

    fn get_rev(&self) -> (r: Result<String, ExtractionError>)
        ensures
            r is Ok <==> rev_of(self@) is Some,
            r matches Ok(s) ==> rev_of(self@) == Some(s@),
            r is Err ==> r == Err::<String, ExtractionError>(ExtractionError::Rev),
    {
        match str_field(self, &"_rev".to_string()) {
            Some(s) => Ok(s),
            None => Err(ExtractionError::Rev),
        }
    }

    /// Writes `_rev` where `self` is an object; changes nothing otherwise.
    fn set_rev(&mut self, rev: &str)
        ensures
            old(self)@ is Object ==> final(self)@ == JsonV::Object(
                put_entry(old(self)@->Object_0, "_rev"@, JsonV::Str(rev@)),
            ),
            old(self)@ is Object ==> {
                &&& rev_of(final(self)@) == Some(rev@)
                &&& id_of(final(self)@) == id_of(old(self)@)
            },
            !(old(self)@ is Object) ==> *final(self) == *old(self),
    {
        proof {
            reveal_strlit("_id");
            reveal_strlit("_rev");
            assert("_id"@.len() != "_rev"@.len());
            if self@ is Object {
                lemma_field_after_put(self@->Object_0, "_rev"@, JsonV::Str(rev@), "_id"@);
                lemma_put_then_field(self@->Object_0, "_rev"@, JsonV::Str(rev@));
            }
        }
        write_str(self, "_rev", rev);
    }

    /// Writes `_id` where `self` is an object; changes nothing otherwise.
    fn set_id(&mut self, id: &str)
        ensures
            old(self)@ is Object ==> final(self)@ == JsonV::Object(
                put_entry(old(self)@->Object_0, "_id"@, JsonV::Str(id@)),
            ),
            old(self)@ is Object ==> {
                &&& id_of(final(self)@) == Some(id@)
                &&& rev_of(final(self)@) == rev_of(old(self)@)
            },
            !(old(self)@ is Object) ==> *final(self) == *old(self),
    {
        proof {
            reveal_strlit("_id");
            reveal_strlit("_rev");
            assert("_id"@.len() != "_rev"@.len());
            if self@ is Object {
                lemma_field_after_put(self@->Object_0, "_id"@, JsonV::Str(id@), "_rev"@);
                lemma_put_then_field(self@->Object_0, "_id"@, JsonV::Str(id@));
            }
        }
        write_str(self, "_id", id);
    }

    /// Takes the id and revision of `other`, where `self` is an object; a
    /// `self` of any other kind stays as it is. Fails, changing nothing,
    /// where `other` has no string `_id` or `_rev`.
    fn merge(&mut self, other: Self) -> (r: Result<(), ExtractionError>)
        ensures
            id_of(other@) is None ==> r == Err::<(), ExtractionError>(ExtractionError::Id),
            id_of(other@) is Some && rev_of(other@) is None ==> r == Err::<(), ExtractionError>(
                ExtractionError::Rev,
            ),
            r is Ok <==> id_of(other@) is Some && rev_of(other@) is Some,
            r is Ok && old(self)@ is Object ==> final(self)@ == JsonV::Object(
                put_entry(
                    put_entry(old(self)@->Object_0, "_id"@, JsonV::Str(id_of(other@)->0)),
                    "_rev"@,
                    JsonV::Str(rev_of(other@)->0),
                ),
            ),
            !(r is Ok && old(self)@ is Object) ==> *final(self) == *old(self),
    {
        let id = other.get_id()?;
        let rev = other.get_rev()?;
        if let Json::Object(_) = self {
            self.set_id(id.as_str());
            self.set_rev(rev.as_str());
        }
        Ok(())
    }
}

} // verus!
