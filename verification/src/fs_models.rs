//! Database rows and user-interface rows for the filesystem scan: files,
//! directories, blob hashes and processing plans.

use vstd::prelude::*;

use crate::datasource::Timestamp;
use crate::identifier::{CollectionId, DatabaseIdentifier, IdentifierError, database_identifier_check};
use crate::paths::{file_name_of, joined_path, parent_path_of, path_file_name, path_join, path_parent};
use crate::text::owned;

verus! {

/// Totals of a directory scan, as the user interface shows them.
#[derive(Debug, Clone, Copy, PartialEq, Eq, PartialOrd, Ord, Default)]
pub struct FsScanDatasourceDirsResult {
    /// Number of files.
    pub file_count: u64,
    /// Number of directories.
    pub dir_count: u64,
    /// Total size of the files, in bytes.
    pub file_size_bytes: u64,
    /// Number of errors.
    pub errors: u64,
}

/// Totals of a datasource scan.
pub type FsScanDatasourceResult = FsScanDatasourceDirsResult;

/// Totals of a directory scan, as the database stores them.
#[allow(non_camel_case_types)]
#[derive(Debug, Clone, Copy, PartialEq, Eq, PartialOrd, Ord)]
pub struct fs_directory_scan_result {
    /// Number of files.
    pub file_count: i32,
    /// Number of subdirectories.
    pub dir_count: i32,
    /// Total size of the files, in bytes.
    pub file_size_bytes: i64,
    /// Number of errors.
    pub errors: i32,
}

impl Default for fs_directory_scan_result {
    fn default() -> (r: Self)
        ensures
            r == (fs_directory_scan_result { file_count: 0, dir_count: 0, file_size_bytes: 0, errors: 0 }),
    {
        fs_directory_scan_result { file_count: 0, dir_count: 0, file_size_bytes: 0, errors: 0 }
    }
}

/// The stored totals of user-interface totals: each count cast (truncated)
/// to the stored width.
pub open spec fn stored_scan_result(v: FsScanDatasourceDirsResult) -> fs_directory_scan_result {
    fs_directory_scan_result {
        file_count: v.file_count as i32,
        dir_count: v.dir_count as i32,
        file_size_bytes: v.file_size_bytes as i64,
        errors: v.errors as i32,
    }
}

/// The user-interface totals of stored totals: each count cast to `u64`
/// (negative counts wrap around).
pub open spec fn shown_scan_result(v: fs_directory_scan_result) -> FsScanDatasourceDirsResult {
    FsScanDatasourceDirsResult {
        file_count: v.file_count as u64,
        dir_count: v.dir_count as u64,
        file_size_bytes: v.file_size_bytes as u64,
        errors: v.errors as u64,
    }
}

impl From<FsScanDatasourceDirsResult> for fs_directory_scan_result {
    fn from(value: FsScanDatasourceDirsResult) -> (r: Self) {
        fs_directory_scan_result {
            file_count: #[verifier::truncate] (value.file_count as i32),
            dir_count: #[verifier::truncate] (value.dir_count as i32),
            file_size_bytes: #[verifier::truncate] (value.file_size_bytes as i64),
            errors: #[verifier::truncate] (value.errors as i32),
        }
    }
}

impl vstd::std_specs::convert::FromSpecImpl<FsScanDatasourceDirsResult> for fs_directory_scan_result {
    open spec fn obeys_from_spec() -> bool {
        true
    }

    open spec fn from_spec(v: FsScanDatasourceDirsResult) -> fs_directory_scan_result {
        stored_scan_result(v)
    }
}

impl From<fs_directory_scan_result> for FsScanDatasourceDirsResult {
    fn from(value: fs_directory_scan_result) -> (r: Self) {
        FsScanDatasourceDirsResult {
            file_count: #[verifier::truncate] (value.file_count as u64),
            dir_count: #[verifier::truncate] (value.dir_count as u64),
            file_size_bytes: #[verifier::truncate] (value.file_size_bytes as u64),
            errors: #[verifier::truncate] (value.errors as u64),
        }
    }
}

impl vstd::std_specs::convert::FromSpecImpl<fs_directory_scan_result> for FsScanDatasourceDirsResult {
    open spec fn obeys_from_spec() -> bool {
        true
    }

    open spec fn from_spec(v: fs_directory_scan_result) -> FsScanDatasourceDirsResult {
        shown_scan_result(v)
    }
}

/// A file or directory with its full path, as read from disk.
#[derive(Debug, Clone, PartialEq)]
pub struct FsMetadata {
    /// Whether it is a directory.
    pub is_dir: bool,
    /// Whether it is a file.
    pub is_file: bool,
    /// Size in bytes.
    pub size_bytes: u64,
    /// Last modification time.
    pub modified: Option<Timestamp>,
    /// Creation time.
    pub created: Option<Timestamp>,
    /// The path.
    pub path: std::path::PathBuf,
    /// The path as text.
    pub path_string: String,
}

/// A file or directory as a scan of the datasource lists it.
#[derive(Debug, Clone, PartialEq, Eq)]
pub struct FsMetadataBasic {
    /// Whether it is a directory.
    pub is_dir: bool,
    /// Whether it is a file.
    pub is_file: bool,
    /// Size in bytes.
    pub size_bytes: u64,
    /// Last modification time.
    pub modified: Option<Timestamp>,
    /// Creation time.
    pub created: Option<Timestamp>,
    /// Path, relative to the datasource root.
    pub path: String,
}

/// A directory, for the user interface.
#[derive(Debug, Clone, PartialEq, Eq)]
pub struct FsDirectoryUiRow {
    /// Datasource of the directory.
    pub datasource_id: DatabaseIdentifier,
    /// Path of the directory.
    pub path: String,
    /// Size in bytes.
    pub size_bytes: u64,
    /// Last modification time.
    pub modified: Option<Timestamp>,
    /// Creation time.
    pub created: Option<Timestamp>,
    /// Totals of the direct children.
    pub scan_children: FsScanDatasourceDirsResult,
    /// Totals of all descendants.
    pub scan_total: FsScanDatasourceDirsResult,
}

/// A file, for the user interface.
#[derive(Debug, Clone, PartialEq, Eq)]
pub struct FsFileUiRow {
    /// Datasource of the file.
    pub datasource_id: DatabaseIdentifier,
    /// Path of the file.
    pub path: String,
    /// Size in bytes.
    pub size_bytes: u64,
    /// Last modification time.
    pub modified: Option<Timestamp>,
    /// Creation time.
    pub created: Option<Timestamp>,
}

/// A directory as the database stores it.
#[derive(Debug, Clone, PartialEq, Eq)]
pub struct FsDirectoryDbRow {
    /// Datasource name.
    pub datasource_id: String,
    /// Path of the directory.
    pub path: String,
    /// Size in bytes.
    pub size_bytes: i64,
    /// Last modification time.
    pub fs_modified: Option<Timestamp>,
    /// Creation time.
    pub fs_created: Option<Timestamp>,
    /// Totals of the direct children.
    pub scan_children: fs_directory_scan_result,
    /// Totals of all descendants.
    pub scan_total: fs_directory_scan_result,
}

impl FsDirectoryDbRow {
    /// Records the totals of a finished scan of the directory and all its
    /// descendants, each count cast (cut) to the stored width.
    pub fn set_scan_total(&mut self, total: &FsScanDatasourceDirsResult)
        ensures
            final(self).scan_total == stored_scan_result(*total),
            final(self).datasource_id == old(self).datasource_id,
            final(self).path == old(self).path,
            final(self).size_bytes == old(self).size_bytes,
            final(self).fs_modified == old(self).fs_modified,
            final(self).fs_created == old(self).fs_created,
            final(self).scan_children == old(self).scan_children,
    {
        self.scan_total = fs_directory_scan_result::from(*total);
    }

    /// The user-interface row; fails when the stored datasource name is not
    /// a valid identifier.
    pub fn to_ui_row(self) -> (r: Result<FsDirectoryUiRow, IdentifierError>)
        ensures
            match database_identifier_check(self.datasource_id@) {
                Err(e) => r == Err::<FsDirectoryUiRow, IdentifierError>(e),
                Ok(()) => r matches Ok(u) && {
                    &&& u.datasource_id@ == self.datasource_id@
                    &&& u.path@ == self.path@
                    &&& u.size_bytes == self.size_bytes as u64
                    &&& u.modified == self.fs_modified
                    &&& u.created == self.fs_created
                    &&& u.scan_children == shown_scan_result(self.scan_children)
                    &&& u.scan_total == shown_scan_result(self.scan_total)
                },
            },
    {
        let datasource_id = match DatabaseIdentifier::new(self.datasource_id.as_str()) {
            Ok(d) => d,
            Err(e) => {
                return Err(e);
            },
        };
        Ok(FsDirectoryUiRow {
            datasource_id,
            path: self.path,
            size_bytes: #[verifier::truncate] (self.size_bytes as u64),
            modified: self.fs_modified,
            created: self.fs_created,
            scan_children: FsScanDatasourceDirsResult::from(self.scan_children),
            scan_total: FsScanDatasourceDirsResult::from(self.scan_total),
        })
    }

    /// The row of a directory found by a scan, with zero totals.
    pub fn from_basic_meta(ds: &DatabaseIdentifier, meta: &FsMetadataBasic) -> (r: Self)
        requires
            meta.is_dir,
            !meta.is_file,
        ensures
            r.datasource_id@ == ds@,
            database_identifier_check(r.datasource_id@) is Ok,
            r.path@ == meta.path@,
            r.size_bytes == meta.size_bytes as i64,
            r.fs_modified == meta.modified,
            r.fs_created == meta.created,
            r.scan_children == (fs_directory_scan_result { file_count: 0, dir_count: 0, file_size_bytes: 0, errors: 0 }),
            r.scan_total == (fs_directory_scan_result { file_count: 0, dir_count: 0, file_size_bytes: 0, errors: 0 }),
    {
        FsDirectoryDbRow {
            datasource_id: ds.to_string(),
            path: meta.path.clone(),
            size_bytes: #[verifier::truncate] (meta.size_bytes as i64),
            fs_modified: meta.modified,
            fs_created: meta.created,
            scan_children: fs_directory_scan_result::default(),
            scan_total: fs_directory_scan_result::default(),
        }
    }
}

/// A file as the database stores it.
#[derive(Debug, Clone, PartialEq, Eq)]
pub struct FsFileDbRow {
    /// Datasource name.
    pub datasource_id: String,
    /// Path of the directory holding the file.
    pub parent_dir_path: String,
    /// Name of the file.
    pub file_name: String,
    /// Size in bytes.
    pub size_bytes: i64,
    /// Last modification time.
    pub fs_modified: Option<Timestamp>,
    /// Creation time.
    pub fs_created: Option<Timestamp>,
}

impl FsFileDbRow {
    /// The user-interface row, whose path is the file name joined to the
    /// directory path; fails when the stored datasource name is invalid.
    pub fn to_ui_row(self) -> (r: Result<FsFileUiRow, IdentifierError>)
        ensures
            match database_identifier_check(self.datasource_id@) {
                Err(e) => r == Err::<FsFileUiRow, IdentifierError>(e),
                Ok(()) => r matches Ok(u) && {
                    &&& u.datasource_id@ == self.datasource_id@
                    &&& u.path@ == joined_path(self.parent_dir_path@, self.file_name@)
                    &&& u.size_bytes == self.size_bytes as u64
                    &&& u.modified == self.fs_modified
                    &&& u.created == self.fs_created
                },
            },
    {
        let datasource_id = match DatabaseIdentifier::new(self.datasource_id.as_str()) {
            Ok(d) => d,
            Err(e) => {
                return Err(e);
            },
        };
        Ok(FsFileUiRow {
            datasource_id,
            path: path_join(self.parent_dir_path.as_str(), self.file_name.as_str()),
            size_bytes: #[verifier::truncate] (self.size_bytes as u64),
            modified: self.fs_modified,
            created: self.fs_created,
        })
    }

    /// The row of a file found by a scan; its path must have a parent and a
    /// final component.
    pub fn from_basic_meta(ds: &DatabaseIdentifier, meta: &FsMetadataBasic) -> (r: Self)
        requires
            !meta.is_dir,
            meta.is_file,
            parent_path_of(meta.path@) is Some,
            file_name_of(meta.path@) is Some,
        ensures
            r.datasource_id@ == ds@,
            database_identifier_check(r.datasource_id@) is Ok,
            Some(r.parent_dir_path@) == parent_path_of(meta.path@),
            Some(r.file_name@) == file_name_of(meta.path@),
            r.size_bytes == meta.size_bytes as i64,
            r.fs_modified == meta.modified,
            r.fs_created == meta.created,
    {
        let parent = match path_parent(meta.path.as_str()) {
            Some(p) => p,
            None => {
                proof {
                    assert(false);
                }
                String::new()
            },
        };
        let name = match path_file_name(meta.path.as_str()) {
            Some(n) => n,
            None => {
                proof {
                    assert(false);
                }
                String::new()
            },
        };
        FsFileDbRow {
            datasource_id: ds.to_string(),
            parent_dir_path: parent,
            file_name: name,
            size_bytes: #[verifier::truncate] (meta.size_bytes as i64),
            fs_modified: meta.modified,
            fs_created: meta.created,
        }
    }

    /// The row of a file found by a scan, or `None` when its path lacks a
    /// parent or a final component.
    pub fn try_from_basic_meta(ds: &DatabaseIdentifier, meta: &FsMetadataBasic) -> (r: Option<Self>)
        requires
            !meta.is_dir,
            meta.is_file,
        ensures
            match r {
                None => parent_path_of(meta.path@) is None || file_name_of(meta.path@) is None,
                Some(row) => {
                    &&& row.datasource_id@ == ds@
                    &&& database_identifier_check(row.datasource_id@) is Ok
                    &&& Some(row.parent_dir_path@) == parent_path_of(meta.path@)
                    &&& Some(row.file_name@) == file_name_of(meta.path@)
                    &&& row.size_bytes == meta.size_bytes as i64
                    &&& row.fs_modified == meta.modified
                    &&& row.fs_created == meta.created
                },
            },
    {
        let parent = path_parent(meta.path.as_str());
        let name = path_file_name(meta.path.as_str());
        if parent.is_none() || name.is_none() {
            return None;
        }
        Some(Self::from_basic_meta(ds, meta))
    }
}

/// The hashes of a blob and where it was first found.
#[derive(Debug, Clone, PartialEq, Eq)]
pub struct FsBlobHashesDbRow {
    /// SHA3-256 of the blob.
    pub blob_sha3_256: String,
    /// SHA-256 of the blob.
    pub blob_sha256: String,
    /// MD5 of the blob.
    pub blob_md5: String,
    /// SHA-1 of the blob.
    pub blob_sha1: String,
    /// Size in bytes.
    pub size_bytes: i64,
    /// Datasource where the blob was first found.
    pub datasource_id: String,
    /// Directory where the blob was first found.
    pub parent_dir_path: String,
    /// File name under which the blob was first found.
    pub file_name: String,
}

/// The processing plan page of a blob.
#[derive(Debug, Clone, PartialEq, Eq)]
pub struct FsBlobPlanPageDbRow {
    /// SHA3-256 of the blob.
    pub blob_sha3_256: String,
    /// Plan page id.
    pub plan_page_id: i32,
}

/// A page of the blob processing plan.
#[derive(Debug, Clone, Copy, PartialEq, Eq)]
pub struct BlobProcessingPlan {
    /// Plan page id.
    pub plan_page_id: i32,
    /// Number of blobs on the page.
    pub file_count: i32,
    /// Total size of the blobs, in bytes.
    pub size_bytes: i64,
    /// Whether processing of the page has started.
    pub is_started: bool,
}

/// One blob of a processing plan page.
#[derive(Debug, Clone, PartialEq, Eq)]
pub struct BlobProcessingPlanPageBlobs {
    /// Plan page id.
    pub plan_page_id: i32,
    /// SHA3-256 of the blob.
    pub blob_sha3_256: String,
}

/// A page of the file hashing plan of a datasource.
#[derive(Debug, Clone, PartialEq, Eq)]
pub struct FsFileHashPlanPageDbRow {
    /// Datasource name.
    pub datasource_id: String,
    /// Plan chunk id.
    pub plan_chunk_id: i32,
}

/// The data of one file hashing plan chunk.
#[derive(Debug, Clone, PartialEq, Eq)]
pub struct FsFileHashPlanDbRow {
    /// Datasource name.
    pub datasource_id: String,
    /// Plan chunk id.
    pub plan_chunk_id: i32,
    /// The plan chunk, JSON encoded.
    pub plan_data: String,
}

/// Arguments of a datasource scan.
#[derive(Debug, Clone, PartialEq, Eq)]
pub struct ScanDatasourceArgs {
    /// Collection.
    pub collection_id: CollectionId,
    /// Datasource.
    pub datasource_id: DatabaseIdentifier,
    /// Directory to scan, relative to the datasource root; the root when `None`.
    pub path: Option<String>,
}

/// Arguments for hashing one plan chunk of files.
#[derive(Debug, Clone, PartialEq, Eq)]
pub struct HashFileArgs {
    /// Collection.
    pub collection_id: CollectionId,
    /// Datasource.
    pub datasource_id: DatabaseIdentifier,
    /// Plan chunk id.
    pub plan_chunk_id: i32,
}

} // verus!
