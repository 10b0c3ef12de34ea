//! Content hashes of blobs: SHA3-256, SHA-1, SHA-256 and MD5, computed in
//! one pass over the chunks of a file.

use sha3::Digest;
use vstd::prelude::*;

use std::path::PathBuf;

use crate::datasource::DatasourceSettings;
use crate::fs_models::FsBlobHashesDbRow;
use crate::hex::{hex_lower, to_hex};

verus! {

/// The SHA3-256 digest of a byte string.
pub uninterp spec fn sha3_256_digest(data: Seq<u8>) -> Seq<u8>;

/// The SHA-1 digest of a byte string.
pub uninterp spec fn sha1_digest(data: Seq<u8>) -> Seq<u8>;

/// The SHA-256 digest of a byte string.
pub uninterp spec fn sha256_digest(data: Seq<u8>) -> Seq<u8>;

/// The MD5 digest of a byte string.
pub uninterp spec fn md5_digest(data: Seq<u8>) -> Seq<u8>;

/// An incremental SHA3-256 hasher (`sha3::Sha3_256`).
///
/// Held whole and unread: `sha3::Sha3_256` is an alias of the crate's generic
/// `CoreWrapper`, which cannot be declared to Verus here, so the hasher is
/// known only through `sha3_absorbed`, the bytes it has taken in.
#[verifier::external_body]
pub struct Sha3Hasher {
    inner: sha3::Sha3_256,
}

/// The bytes a SHA3-256 hasher has taken in.
pub uninterp spec fn sha3_absorbed(h: Sha3Hasher) -> Seq<u8>;

/// `Digest::new` of `sha3::Sha3_256`: a hasher that has taken in nothing.
#[verifier::external_body]
pub fn sha3_256_new() -> (r: Sha3Hasher)
    ensures
        sha3_absorbed(r) == Seq::<u8>::empty(),
{
    Sha3Hasher { inner: sha3::Sha3_256::new() }
}

impl Sha3Hasher {
    /// `Digest::update` of `sha3::Sha3_256`: takes in `data` after the bytes
    /// taken in so far.
    #[verifier::external_body]
    pub(crate) fn update(&mut self, data: &[u8])
        ensures
            sha3_absorbed(*final(self)) == sha3_absorbed(*old(self)) + data@,
    {
        self.inner.update(data)
    }

    /// `Digest::finalize` of `sha3::Sha3_256`: the 32-byte digest of all the
    /// bytes taken in.
    #[verifier::external_body]
    pub(crate) fn finalize(self) -> (r: Vec<u8>)
        ensures
            r@ == sha3_256_digest(sha3_absorbed(self)),
            r@.len() == 32,
    {
        self.inner.finalize().to_vec()
    }
}

/// An incremental SHA-1 hasher (`sha1::Sha1`).
///
/// Held whole and unread: `sha1::Sha1` is an alias of the crate's generic
/// `CoreWrapper`, which cannot be declared to Verus here, so the hasher is
/// known only through `sha1_absorbed`, the bytes it has taken in.
#[verifier::external_body]
pub struct Sha1Hasher {
    inner: sha1::Sha1,
}

/// The bytes a SHA-1 hasher has taken in.
pub uninterp spec fn sha1_absorbed(h: Sha1Hasher) -> Seq<u8>;

/// `Digest::new` of `sha1::Sha1`: a hasher that has taken in nothing.
#[verifier::external_body]
pub fn sha1_new() -> (r: Sha1Hasher)
    ensures
        sha1_absorbed(r) == Seq::<u8>::empty(),
{
    Sha1Hasher { inner: sha1::Sha1::new() }
}

impl Sha1Hasher {
    /// `Digest::update` of `sha1::Sha1`: takes in `data` after the bytes
    /// taken in so far.
    #[verifier::external_body]
    pub(crate) fn update(&mut self, data: &[u8])
        ensures
            sha1_absorbed(*final(self)) == sha1_absorbed(*old(self)) + data@,
    {
        self.inner.update(data)
    }

    /// `Digest::finalize` of `sha1::Sha1`: the 20-byte digest of all the
    /// bytes taken in.
    #[verifier::external_body]
    pub(crate) fn finalize(self) -> (r: Vec<u8>)
        ensures
            r@ == sha1_digest(sha1_absorbed(self)),
            r@.len() == 20,
    {
        self.inner.finalize().to_vec()
    }
}

/// An incremental SHA-256 hasher (`sha2::Sha256`).
///
/// Held whole and unread: `sha2::Sha256` is an alias of the crate's generic
/// `CoreWrapper`, which cannot be declared to Verus here, so the hasher is
/// known only through `sha256_absorbed`, the bytes it has taken in.
#[verifier::external_body]
pub struct Sha256Hasher {
    inner: sha2::Sha256,
}

/// The bytes a SHA-256 hasher has taken in.
pub uninterp spec fn sha256_absorbed(h: Sha256Hasher) -> Seq<u8>;

/// `Digest::new` of `sha2::Sha256`: a hasher that has taken in nothing.
#[verifier::external_body]
pub fn sha256_new() -> (r: Sha256Hasher)
    ensures
        sha256_absorbed(r) == Seq::<u8>::empty(),
{
    Sha256Hasher { inner: sha2::Sha256::new() }
}

impl Sha256Hasher {
    /// `Digest::update` of `sha2::Sha256`: takes in `data` after the bytes
    /// taken in so far.
    #[verifier::external_body]
    pub(crate) fn update(&mut self, data: &[u8])
        ensures
            sha256_absorbed(*final(self)) == sha256_absorbed(*old(self)) + data@,
    {
        self.inner.update(data)
    }

    /// `Digest::finalize` of `sha2::Sha256`: the 32-byte digest of all the
    /// bytes taken in.
    #[verifier::external_body]
    pub(crate) fn finalize(self) -> (r: Vec<u8>)
        ensures
            r@ == sha256_digest(sha256_absorbed(self)),
            r@.len() == 32,
    {
        self.inner.finalize().to_vec()
    }
}

/// `md5::Context`, the incremental MD5 hasher.
#[verifier::external_type_specification]
#[verifier::external_body]
pub struct ExMd5Context(md5::Context);

/// The bytes an MD5 context has taken in.
pub uninterp spec fn md5_absorbed(c: md5::Context) -> Seq<u8>;

/// `md5::Context::new`: a context that has taken in nothing.
#[verifier::external_body]
pub fn md5_new() -> (r: md5::Context)
    ensures
        md5_absorbed(r) == Seq::<u8>::empty(),
{
    md5::Context::new()
}

/// `md5::Context::consume`: takes in `data` after the bytes taken in so far.
#[verifier::external_body]
pub(crate) fn md5_consume(c: &mut md5::Context, data: &[u8])
    ensures
        md5_absorbed(*final(c)) == md5_absorbed(*old(c)) + data@,
{
    c.consume(data)
}

/// `md5::Context::finalize`: the 16-byte digest of all the bytes taken in.
#[verifier::external_body]
pub(crate) fn md5_finalize(c: md5::Context) -> (r: Vec<u8>)
    ensures
        r@ == md5_digest(md5_absorbed(c)),
        r@.len() == 16,
{
    c.finalize().0.to_vec()
}

/// The four hashes of a blob, as lower-case hexadecimal text.
#[derive(Debug, Clone, PartialEq, Eq)]
pub struct BlobDigests {
    /// SHA3-256.
    pub sha3_256: String,
    /// SHA-1.
    pub sha1: String,
    /// SHA-256.
    pub sha256: String,
    /// MD5.
    pub md5: String,
}

/// The hexadecimal digests of `data`: 64, 40, 64 and 32 characters long.
pub open spec fn blob_digests_of(d: BlobDigests, data: Seq<u8>) -> bool {
    &&& d.sha3_256@ == hex_lower(sha3_256_digest(data))
    &&& d.sha1@ == hex_lower(sha1_digest(data))
    &&& d.sha256@ == hex_lower(sha256_digest(data))
    &&& d.md5@ == hex_lower(md5_digest(data))
    &&& d.sha3_256@.len() == 64
    &&& d.sha1@.len() == 40
    &&& d.sha256@.len() == 64
    &&& d.md5@.len() == 32
}

/// Computes the four hashes of a blob whose bytes arrive in chunks.
pub struct BlobHasher {
    sha3: Sha3Hasher,
    sha1: Sha1Hasher,
    sha256: Sha256Hasher,
    md5: md5::Context,
    data: Ghost<Seq<u8>>,
}

impl BlobHasher {
    /// The bytes taken in so far.
    pub closed spec fn absorbed(&self) -> Seq<u8> {
        self.data@
    }

    /// The four hashers have all taken in the same bytes.
    pub closed spec fn wf(&self) -> bool {
        &&& sha3_absorbed(self.sha3) == self.data@
        &&& sha1_absorbed(self.sha1) == self.data@
        &&& sha256_absorbed(self.sha256) == self.data@
        &&& md5_absorbed(self.md5) == self.data@
    }

    /// A hasher that has taken in nothing.
    pub fn new() -> (r: BlobHasher)
        ensures
            r.wf(),
            r.absorbed() == Seq::<u8>::empty(),
    {
        BlobHasher {
            sha3: sha3_256_new(),
            sha1: sha1_new(),
            sha256: sha256_new(),
            md5: md5_new(),
            data: Ghost(Seq::empty()),
        }
    }

    /// Takes in the next chunk of the blob.
    pub fn update(&mut self, chunk: &[u8])
        requires
            old(self).wf(),
        ensures
            final(self).wf(),
            final(self).absorbed() == old(self).absorbed() + chunk@,
    {
        self.sha3.update(chunk);
        self.sha1.update(chunk);
        self.sha256.update(chunk);
        md5_consume(&mut self.md5, chunk);
        self.data = Ghost(self.data@ + chunk@);
    }

    /// The hashes of all the bytes taken in.
    pub fn finish(self) -> (r: BlobDigests)
        requires
            self.wf(),
        ensures
            blob_digests_of(r, self.absorbed()),
    {
        let a = self.sha3.finalize();
        let b = self.sha1.finalize();
        let c = self.sha256.finalize();
        let d = md5_finalize(self.md5);
        BlobDigests {
            sha3_256: to_hex(a.as_slice()),
            sha1: to_hex(b.as_slice()),
            sha256: to_hex(c.as_slice()),
            md5: to_hex(d.as_slice()),
        }
    }
}

/// The concatenation of a sequence of chunks.
pub open spec fn concat_chunks(chunks: Seq<Vec<u8>>) -> Seq<u8>
    decreases chunks.len(),
{
    if chunks.len() == 0 {
        Seq::empty()
    } else {
        concat_chunks(chunks.drop_last()) + chunks.last()@
    }
}

/// The hashes of a blob given as chunks: those of the chunks' concatenation.
pub fn hash_blob_chunks(chunks: &Vec<Vec<u8>>) -> (r: BlobDigests)
    ensures
        blob_digests_of(r, concat_chunks(chunks@)),
{
    let mut h = BlobHasher::new();
    let n = chunks.len();
    let mut i: usize = 0;
    while i < n
        invariant
            n == chunks@.len(),
            i <= n,
            h.wf(),
            h.absorbed() == concat_chunks(chunks@.subrange(0, i as int)),
        decreases n - i,
    {
        h.update(chunks[i].as_slice());
        proof {
            assert(chunks@.subrange(0, i + 1).drop_last() =~= chunks@.subrange(0, i as int));
        }
        i = i + 1;
    }
    proof {
        assert(chunks@.subrange(0, n as int) =~= chunks@);
    }
    h.finish()
}

/// The hashes row of a blob found as file `file_name` in directory
/// `parent_dir_path` of a datasource, with its size.
pub fn blob_hashes_row(
    digests: BlobDigests,
    size_bytes: i64,
    datasource_id: String,
    parent_dir_path: String,
    file_name: String,
) -> (r: FsBlobHashesDbRow)
    ensures
        r.blob_sha3_256 == digests.sha3_256,
        r.blob_sha256 == digests.sha256,
        r.blob_md5 == digests.md5,
        r.blob_sha1 == digests.sha1,
        r.size_bytes == size_bytes,
        r.datasource_id == datasource_id,
        r.parent_dir_path == parent_dir_path,
        r.file_name == file_name,
{
    FsBlobHashesDbRow {
        blob_sha3_256: digests.sha3_256,
        blob_sha256: digests.sha256,
        blob_md5: digests.md5,
        blob_sha1: digests.sha1,
        size_bytes,
        datasource_id,
        parent_dir_path,
        file_name,
    }
}

/// Counts of a file hashing run.
#[derive(Debug, Clone, Copy, PartialEq, Eq)]
pub struct FsScanHashesResult {
    /// Files listed in the plan.
    pub file_count: u64,
    /// Hashes computed.
    pub hash_count: u64,
}

impl Default for FsScanHashesResult {
    fn default() -> (r: Self)
        ensures
            r.file_count == 0,
            r.hash_count == 0,
    {
        FsScanHashesResult { file_count: 0, hash_count: 0 }
    }
}

impl FsScanHashesResult {
    /// Adds the counts of another run.
    pub fn add(&mut self, other: &FsScanHashesResult)
        requires
            old(self).file_count + other.file_count <= u64::MAX,
            old(self).hash_count + other.hash_count <= u64::MAX,
        ensures
            final(self).file_count == old(self).file_count + other.file_count,
            final(self).hash_count == old(self).hash_count + other.hash_count,
    {
        self.file_count = self.file_count + other.file_count;
        self.hash_count = self.hash_count + other.hash_count;
    }
}

/// The outcome of hashing the files of one plan chunk, listed as
/// (directory, name, planned size), from the size found and the digests of
/// each file, in the same order: one hashes row per file (with the size
/// found, which must be the planned one), and counts of the files and of
/// the hashes, both the number of files.
pub fn hashed_files_result(
    datasource_id: &String,
    files: &Vec<(String, String, i64)>,
    hashed: Vec<(i64, BlobDigests)>,
) -> (r: (Vec<FsBlobHashesDbRow>, FsScanHashesResult))
    requires
        hashed@.len() == files@.len(),
        forall|i: int| 0 <= i < files@.len() ==> #[trigger] hashed@[i].0 == files@[i].2,
    ensures
        r.0@.len() == files@.len(),
        forall|i: int| 0 <= i < files@.len() ==> {
            &&& (#[trigger] r.0@[i]).blob_sha3_256 == hashed@[i].1.sha3_256
            &&& r.0@[i].blob_sha256 == hashed@[i].1.sha256
            &&& r.0@[i].blob_md5 == hashed@[i].1.md5
            &&& r.0@[i].blob_sha1 == hashed@[i].1.sha1
            &&& r.0@[i].size_bytes == files@[i].2
            &&& r.0@[i].datasource_id@ == datasource_id@
            &&& r.0@[i].parent_dir_path@ == files@[i].0@
            &&& r.0@[i].file_name@ == files@[i].1@
        },
        r.1.file_count == files@.len(),
        r.1.hash_count == files@.len(),
{
    let ghost all = hashed@;
    let mut rows: Vec<FsBlobHashesDbRow> = Vec::new();
    for h in it: hashed.into_iter()
        invariant
            it.seq() == all,
            all.len() == files@.len(),
            forall|i: int| 0 <= i < files@.len() ==> #[trigger] all[i].0 == files@[i].2,
            rows@.len() == it.index(),
            forall|i: int| 0 <= i < rows@.len() ==> {
                &&& (#[trigger] rows@[i]).blob_sha3_256 == all[i].1.sha3_256
                &&& rows@[i].blob_sha256 == all[i].1.sha256
                &&& rows@[i].blob_md5 == all[i].1.md5
                &&& rows@[i].blob_sha1 == all[i].1.sha1
                &&& rows@[i].size_bytes == files@[i].2
                &&& rows@[i].datasource_id@ == datasource_id@
                &&& rows@[i].parent_dir_path@ == files@[i].0@
                &&& rows@[i].file_name@ == files@[i].1@
            },
    {
        let i = rows.len();
        let (size, digests) = h;
        proof {
            assert(all[i as int] == (size, digests));
        }
        let row = blob_hashes_row(
            digests,
            size,
            datasource_id.clone(),
            files[i].0.clone(),
            files[i].1.clone(),
        );
        rows.push(row);
    }
    let n = rows.len() as u64;
    (rows, FsScanHashesResult { file_count: n, hash_count: n })
}

/// Why the files of a datasource cannot be hashed.
#[derive(Debug, Clone, Copy, PartialEq, Eq)]
pub enum HashSourceError {
    /// The datasource is not a local disk.
    NotLocalDisk,
}

/// The directory of a local disk datasource, where its files are hashed.
pub fn local_disk_root(settings: &DatasourceSettings) -> (r: Result<PathBuf, HashSourceError>)
    ensures
        match settings {
            DatasourceSettings::LocalDisk { path } => r == Ok::<PathBuf, HashSourceError>(*path),
            _ => r == Err::<PathBuf, HashSourceError>(HashSourceError::NotLocalDisk),
        },
{
    match settings {
        DatasourceSettings::LocalDisk { path } => Ok(path.clone()),
        _ => Err(HashSourceError::NotLocalDisk),
    }
}

/// Size of the pieces in which a file is read (4 MiB).
pub const READ_CHUNK_SIZE: usize = 4194304;

/// The pieces in which a file of `file_size` bytes is read: consecutive
/// (offset, length) ranges of 4 MiB, the last one holding what remains.
pub fn file_read_ranges(file_size: usize) -> (r: Vec<(usize, usize)>)
    ensures
        r@.len() == (file_size + READ_CHUNK_SIZE - 1) / READ_CHUNK_SIZE as int,
        forall|i: int| 0 <= i < r@.len() ==> {
            &&& (#[trigger] r@[i]).0 == i * READ_CHUNK_SIZE
            &&& r@[i].1 == (if file_size - r@[i].0 < READ_CHUNK_SIZE { file_size - r@[i].0 } else { READ_CHUNK_SIZE as int })
            &&& r@[i].1 > 0
        },
{
    let mut r: Vec<(usize, usize)> = Vec::new();
    let mut offset: usize = 0;
    while offset < file_size
        invariant
            offset <= file_size,
            offset < file_size ==> offset == r@.len() * READ_CHUNK_SIZE,
            r@.len() <= (file_size + READ_CHUNK_SIZE - 1) / READ_CHUNK_SIZE as int,
            offset < file_size ==> r@.len() < (file_size + READ_CHUNK_SIZE - 1) / READ_CHUNK_SIZE as int,
            offset >= file_size ==> r@.len() == (file_size + READ_CHUNK_SIZE - 1) / READ_CHUNK_SIZE as int,
            forall|i: int| 0 <= i < r@.len() ==> {
                &&& (#[trigger] r@[i]).0 == i * READ_CHUNK_SIZE
                &&& r@[i].1 == (if file_size - r@[i].0 < READ_CHUNK_SIZE { file_size - r@[i].0 } else { READ_CHUNK_SIZE as int })
                &&& r@[i].1 > 0
            },
        decreases file_size - offset,
    {
        let remaining = file_size - offset;
        let len = if remaining < READ_CHUNK_SIZE { remaining } else { READ_CHUNK_SIZE };
        r.push((offset, len));
        proof {
            let k = r@.len() - 1;
            let c = READ_CHUNK_SIZE as int;
            assert(offset == k * c);
            assert((file_size + c - 1) / c > k) by (nonlinear_arith)
                requires
                    k * c < file_size,
                    c > 0,
            ;
            if remaining <= c {
                assert((file_size + c - 1) / c == k + 1) by (nonlinear_arith)
                    requires
                        k * c < file_size,
                        file_size <= k * c + c,
                        c > 0,
                ;
            } else {
                assert((file_size + c - 1) / c > k + 1) by (nonlinear_arith)
                    requires
                        (k + 1) * c < file_size,
                        c > 0,
                ;
            }
        }
        if remaining <= READ_CHUNK_SIZE {
            offset = file_size;
        } else {
            offset = offset + READ_CHUNK_SIZE;
        }
    }
    r
}

} // verus!
