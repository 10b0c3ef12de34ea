//! Settings for reaching the stored data: local disk, S3 or WebDAV.

use std::path::PathBuf;

use vstd::prelude::*;

verus! {

/// `std::path::PathBuf`, carried through unread.
#[verifier::external_type_specification]
#[verifier::external_body]
pub struct ExPathBuf(PathBuf);

/// `<PathBuf as Clone>::clone`: a path holding the same text.
pub assume_specification[ <PathBuf as Clone>::clone ](p: &PathBuf) -> (r: PathBuf)
    ensures
        r == *p,
;

/// The kinds of storage backends.
#[derive(Debug, Clone, Copy, PartialEq, Eq)]
pub enum DataBackend {
    /// A directory on the local disk.
    LocalDisk,
    /// An S3 bucket.
    S3,
    /// A WebDAV server.
    WebDav,
}

/// The backends configured for data access; each may be absent.
#[derive(Debug, Clone, PartialEq, Eq, PartialOrd, Ord)]
#[non_exhaustive]
pub struct DataAccessSettings {
    /// Local disk settings.
    pub local_disk: Option<LocalDiskSettings>,
    /// S3 settings.
    pub s3: Option<S3Settings>,
    /// WebDAV settings.
    pub webdav: Option<WebDavSettings>,
}

/// Local disk settings.
#[derive(Debug, Clone, PartialEq, Eq, PartialOrd, Ord)]
pub struct LocalDiskSettings {
    /// Root directory.
    pub root_path: PathBuf,
}

/// S3 settings.
#[derive(Debug, Clone, PartialEq, Eq, PartialOrd, Ord)]
pub struct S3Settings {
    /// Bucket name.
    pub bucket: String,
    /// Access key.
    pub access_key: String,
    /// Secret key.
    pub secret_key: String,
}

/// WebDAV settings.
#[derive(Debug, Clone, PartialEq, Eq, PartialOrd, Ord)]
pub struct WebDavSettings {
    /// Server URL.
    pub url: String,
    /// User name.
    pub username: String,
    /// Password.
    pub password: String,
}

impl DataAccessSettings {
    /// Settings with no backend configured.
    pub fn new() -> (r: Self)
        ensures
            r.local_disk is None,
            r.s3 is None,
            r.webdav is None,
    {
        DataAccessSettings { local_disk: None, s3: None, webdav: None }
    }

    /// Configures the local disk backend; the others are kept.
    pub fn set_local_disk(&mut self, root_path: PathBuf)
        ensures
            final(self).local_disk == Some(LocalDiskSettings { root_path }),
            final(self).s3 == old(self).s3,
            final(self).webdav == old(self).webdav,
    {
        self.local_disk = Some(LocalDiskSettings { root_path });
    }

    /// Configures the S3 backend; the others are kept.
    pub fn set_s3(&mut self, bucket: String, access_key: String, secret_key: String)
        ensures
            final(self).s3 == Some(S3Settings { bucket, access_key, secret_key }),
            final(self).local_disk == old(self).local_disk,
            final(self).webdav == old(self).webdav,
    {
        self.s3 = Some(S3Settings { bucket, access_key, secret_key });
    }

    /// Configures the WebDAV backend; the others are kept.
    pub fn set_webdav(&mut self, url: String, username: String, password: String)
        ensures
            final(self).webdav == Some(WebDavSettings { url, username, password }),
            final(self).local_disk == old(self).local_disk,
            final(self).s3 == old(self).s3,
    {
        self.webdav = Some(WebDavSettings { url, username, password });
    }
}

impl Default for DataAccessSettings {
    fn default() -> (r: Self)
        ensures
            r.local_disk is None,
            r.s3 is None,
            r.webdav is None,
    {
        Self::new()
    }
}

} // verus!
