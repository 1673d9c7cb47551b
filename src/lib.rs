//! The write path of a document search index: an access check over three
//! tiers of keys, schema inference from a first document, a pipeline that
//! accepts batches of writes and deletions as numbered updates, and the
//! registry of their statuses.
use vstd::prelude::*;

pub mod acl;
pub mod document;
pub mod schema;
pub mod index;
pub mod routes;
pub mod health;
pub mod option;
pub mod browse;
pub mod database;

verus! {

} // verus!
