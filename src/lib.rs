//! Documents of a document store: identity tracking over a JSON payload,
//! merging partial updates, collections built from query results, and
//! replacing a field of ids with the documents they name.

pub mod collection;
pub mod document;
pub mod json;
pub mod typed;
