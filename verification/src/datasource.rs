//! Datasources: where the documents of a collection are read from.

use std::path::PathBuf;

use vstd::prelude::*;

use crate::identifier::{CollectionId, DatabaseIdentifier};
use crate::text::owned;

verus! {

/// A point in time in UTC: whole seconds since the Unix epoch and the
/// nanoseconds past that second (below one billion).
#[derive(Debug, Clone, Copy, PartialEq, Eq, PartialOrd, Ord, Hash)]
pub struct Timestamp {
    /// Seconds since 1970-01-01T00:00:00Z.
    pub secs: i64,
    /// Nanoseconds within the second.
    pub nanos: u32,
}

/// A datasource as the user interface lists it.
#[derive(Debug, Clone, PartialEq, Eq, PartialOrd, Ord)]
pub struct DatasourceUiRow {
    /// Collection of the datasource.
    pub collection_id: CollectionId,
    /// Datasource name.
    pub datasource_id: DatabaseIdentifier,
    /// Name of the datasource kind.
    pub datasource_type: String,
    /// Settings.
    pub datasource_settings: DatasourceSettings,
    /// Creation time.
    pub time_created: Timestamp,
    /// Last modification time.
    pub time_modified: Timestamp,
}

/// Where a datasource reads its files.
#[derive(Debug, Clone, PartialEq, Eq, PartialOrd, Ord)]
#[non_exhaustive]
pub enum DatasourceSettings {
    /// A local directory.
    LocalDisk {
        /// Directory path.
        path: PathBuf,
    },
    /// An S3 (or compatible) bucket.
    S3 {
        /// Endpoint URL.
        url: String,
        /// Bucket name.
        bucket: String,
        /// Access key.
        access_key: String,
        /// Secret key.
        secret_key: String,
        /// Path prefix inside the bucket.
        path: PathBuf,
    },
    /// A WebDAV server.
    WebDav {
        /// Server URL.
        url: String,
        /// User name.
        username: String,
        /// Password.
        password: String,
        /// Path on the server.
        path: PathBuf,
    },
}

/// The name of the kind of datasource `s`.
pub open spec fn datasource_type_name(s: DatasourceSettings) -> Seq<char> {
    match s {
        DatasourceSettings::LocalDisk { .. } => "LocalDisk"@,
        DatasourceSettings::S3 { .. } => "S3"@,
        DatasourceSettings::WebDav { .. } => "WebDav"@,
    }
}

impl DatasourceSettings {
    /// The name of the kind of this datasource.
    pub fn type_str(&self) -> (r: String)
        ensures
            r@ == datasource_type_name(*self),
    {
        match self {
            DatasourceSettings::LocalDisk { .. } => owned("LocalDisk"),
            DatasourceSettings::S3 { .. } => owned("S3"),
            DatasourceSettings::WebDav { .. } => owned("WebDav"),
        }
    }
}

} // verus!
