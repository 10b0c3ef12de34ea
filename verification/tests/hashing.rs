use hoover3::hashing::{file_read_ranges, hashed_files_result, READ_CHUNK_SIZE};
use hoover3::hashing::{hash_blob_chunks, blob_hashes_row, local_disk_root, BlobHasher, FsScanHashesResult, HashSourceError};
use hoover3::hex::{bytes_to_hex_string, to_hex};
use hoover3::datasource::DatasourceSettings;
use std::path::PathBuf;

#[test]
fn hex_text_of_bytes() {
    assert_eq!(to_hex(&[0x00, 0x0f, 0xab, 0xff]), "000fabff");
    assert_eq!(bytes_to_hex_string(b"unknown"), "756e6b6e6f776e");
    assert_eq!(to_hex(&[]), "");
}

#[test]
fn digests_of_abc() {
    let d = hash_blob_chunks(&vec![b"a".to_vec(), b"bc".to_vec()]);
    assert_eq!(d.sha3_256, "3a985da74fe225b2045c172d6bd390bd855f086e3e9d525b46bfe24511431532");
    assert_eq!(d.sha1, "a9993e364706816aba3e25717850c26c9cd0d89d");
    assert_eq!(d.sha256, "ba7816bf8f01cfea414140de5dae2223b00361a396177a9cb410ff61f20015ad");
    assert_eq!(d.md5, "900150983cd24fb0d6963f7d28e17f72");
}

#[test]
fn digests_do_not_depend_on_how_the_blob_is_cut() {
    let whole = hash_blob_chunks(&vec![b"hello world".to_vec()]);
    let mut h = BlobHasher::new();
    h.update(b"hel");
    h.update(b"");
    h.update(b"lo world");
    assert_eq!(h.finish(), whole);
}

#[test]
fn digests_of_nothing() {
    let d = hash_blob_chunks(&vec![]);
    assert_eq!(d.md5, "d41d8cd98f00b204e9800998ecf8427e");
    assert_eq!(d.sha1, "da39a3ee5e6b4b0d3255bfef95601890afd80709");
    assert_eq!(d.sha256, "e3b0c44298fc1c149afbf4c8996fb92427ae41e4649b934ca495991b7852b855");
    assert_eq!(d.sha3_256, "a7ffc6f8bf1ed76651c14756a061d662f580ff4de43b49fa82d80a4b80f8434a");
}

#[test]
fn hashes_row_and_counts() {
    let d = hash_blob_chunks(&vec![b"abc".to_vec()]);
    let row = blob_hashes_row(d.clone(), 3, "ds".to_string(), "/dir".to_string(), "f.txt".to_string());
    assert_eq!(row.blob_md5, d.md5);
    assert_eq!(row.size_bytes, 3);
    assert_eq!(row.file_name, "f.txt");
    let mut total = FsScanHashesResult::default();
    total.add(&FsScanHashesResult { file_count: 2, hash_count: 1 });
    total.add(&FsScanHashesResult { file_count: 3, hash_count: 3 });
    assert_eq!(total, FsScanHashesResult { file_count: 5, hash_count: 4 });
}

#[test]
fn only_local_disks_are_hashed() {
    let local = DatasourceSettings::LocalDisk { path: PathBuf::from("/data") };
    assert_eq!(local_disk_root(&local), Ok(PathBuf::from("/data")));
    let web = DatasourceSettings::WebDav {
        url: "u".to_string(),
        username: "n".to_string(),
        password: "p".to_string(),
        path: PathBuf::from("/"),
    };
    assert_eq!(local_disk_root(&web), Err(HashSourceError::NotLocalDisk));
}

#[test]
fn files_are_read_in_pieces_of_four_mebibytes() {
    assert!(file_read_ranges(0).is_empty());
    assert_eq!(file_read_ranges(10), vec![(0, 10)]);
    assert_eq!(file_read_ranges(READ_CHUNK_SIZE), vec![(0, READ_CHUNK_SIZE)]);
    assert_eq!(
        file_read_ranges(2 * READ_CHUNK_SIZE + 1),
        vec![(0, READ_CHUNK_SIZE), (READ_CHUNK_SIZE, READ_CHUNK_SIZE), (2 * READ_CHUNK_SIZE, 1)]
    );
}

#[test]
fn hashed_files_give_one_row_each_and_their_counts() {
    let files = vec![("d".to_string(), "a".to_string(), 3i64), ("e".to_string(), "b".to_string(), 0i64)];
    let hashed = vec![(3i64, hash_blob_chunks(&vec![b"abc".to_vec()])), (0i64, hash_blob_chunks(&vec![]))];
    let (rows, counts) = hashed_files_result(&"ds".to_string(), &files, hashed);
    assert_eq!(rows.len(), 2);
    assert_eq!(counts.file_count, 2);
    assert_eq!(counts.hash_count, 2);
    assert_eq!(rows[0].file_name, "a");
    assert_eq!(rows[1].parent_dir_path, "e");
    assert_eq!(rows[0].blob_sha3_256.len(), 64);
    assert_eq!(rows[0].blob_sha1.len(), 40);
    assert_eq!(rows[0].blob_sha256.len(), 64);
    assert_eq!(rows[0].blob_md5.len(), 32);
    assert_eq!(rows[1].blob_md5, "d41d8cd98f00b204e9800998ecf8427e");
}
