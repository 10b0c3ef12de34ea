//! Collections as the user interface lists them.

use vstd::prelude::*;

use crate::datasource::Timestamp;
use crate::identifier::CollectionId;

verus! {

/// A collection of documents as the user interface lists it.
#[derive(Debug, PartialEq, Eq, PartialOrd, Ord)]
pub struct CollectionUiRow {
    /// The collection.
    pub collection_id: CollectionId,
    /// Title shown to users.
    pub collection_title: String,
    /// Description of what the collection holds.
    pub collection_description: String,
    /// When the collection was created.
    pub time_created: Timestamp,
    /// When the collection was last changed.
    pub time_modified: Timestamp,
}

} // verus!
