use hoover3::fs_models::{
    fs_directory_scan_result, FsDirectoryDbRow, FsFileDbRow, FsMetadataBasic, FsScanDatasourceDirsResult,
    ScanDatasourceArgs,
};
use hoover3::hash_plan::{file_hash_plan, hash_file_args, hash_plan_groups, plan_chunk_from_files, plan_files};
use hoover3::identifier::{CollectionId, DatabaseIdentifier, IdentifierError};
use hoover3::scan::{children_scan_totals, merge_scan_results, scan_child_args, scan_entries};

fn entry(path: &str, is_dir: bool, size: u64) -> FsMetadataBasic {
    FsMetadataBasic { is_dir, is_file: !is_dir, size_bytes: size, modified: None, created: None, path: path.to_string() }
}

fn file(dir: &str, name: &str, size: i64) -> FsFileDbRow {
    FsFileDbRow {
        datasource_id: "ds".to_string(),
        parent_dir_path: dir.to_string(),
        file_name: name.to_string(),
        size_bytes: size,
        fs_modified: None,
        fs_created: None,
    }
}

#[test]
fn scan_sorts_entries_into_rows() {
    let ds = DatabaseIdentifier::new("ds1").unwrap();
    let children = vec![entry("top/b", true, 0), entry("top/f.txt", false, 10), entry("top/a", true, 0), entry("top/g", false, 5)];
    let out = scan_entries(&ds, &children);
    assert_eq!(out.files.len(), 2);
    assert_eq!(out.files[0].parent_dir_path, "top");
    assert_eq!(out.files[0].file_name, "f.txt");
    assert_eq!(out.files[1].size_bytes, 5);
    assert_eq!(out.dirs.len(), 2);
    assert_eq!(out.dirs[0].path, "top/b");
    assert_eq!(out.result, FsScanDatasourceDirsResult { file_count: 2, dir_count: 2, file_size_bytes: 15, errors: 0 });
    assert_eq!(out.next_paths, vec!["top/a".to_string(), "top/b".to_string()]);
    let totals = children_scan_totals(&out.result);
    assert_eq!(totals, fs_directory_scan_result { file_count: 2, dir_count: 2, file_size_bytes: 15, errors: 0 });
}

#[test]
fn failed_sub_scans_count_as_errors() {
    let base = FsScanDatasourceDirsResult { file_count: 1, dir_count: 1, file_size_bytes: 3, errors: 0 };
    let sub = FsScanDatasourceDirsResult { file_count: 2, dir_count: 0, file_size_bytes: 4, errors: 1 };
    let r = merge_scan_results(base, &vec![Some(sub), None, Some(sub)]);
    assert_eq!(r, FsScanDatasourceDirsResult { file_count: 5, dir_count: 1, file_size_bytes: 11, errors: 3 });
}

#[test]
fn sub_scan_arguments() {
    let args = ScanDatasourceArgs {
        collection_id: CollectionId::new("coll").unwrap(),
        datasource_id: DatabaseIdentifier::new("ds1").unwrap(),
        path: None,
    };
    let next = scan_child_args(&args, vec!["a".to_string(), "b".to_string()]);
    assert_eq!(next.len(), 2);
    assert_eq!(next[1].path, Some("b".to_string()));
    assert_eq!(next[0].datasource_id.to_string(), "ds1");
}

#[test]
fn rows_for_the_user_interface() {
    let ds = DatabaseIdentifier::new("ds1").unwrap();
    let d = FsDirectoryDbRow::from_basic_meta(&ds, &entry("x/y", true, 7));
    assert_eq!(d.scan_total, fs_directory_scan_result::default());
    let ui = d.clone().to_ui_row().unwrap();
    assert_eq!(ui.path, "x/y");
    assert_eq!(ui.size_bytes, 7);
    let f = FsFileDbRow::from_basic_meta(&ds, &entry("x/y/z.pdf", false, 9));
    assert_eq!(f.parent_dir_path, "x/y");
    assert_eq!(f.file_name, "z.pdf");
    assert_eq!(f.to_ui_row().unwrap().path, "x/y/z.pdf");
    let mut bad = d;
    bad.datasource_id = "Bad".to_string();
    assert_eq!(bad.to_ui_row(), Err(IdentifierError::PatternMismatch));
    let converted: FsScanDatasourceDirsResult = fs_directory_scan_result { file_count: 1, dir_count: 2, file_size_bytes: 3, errors: 4 }.into();
    assert_eq!(converted, FsScanDatasourceDirsResult { file_count: 1, dir_count: 2, file_size_bytes: 3, errors: 4 });
}

#[test]
fn plan_chunks_group_files_by_directory() {
    let files = vec![file("b", "1", 10), file("a", "2", 20), file("b", "3", 30)];
    let c = plan_chunk_from_files(&files);
    assert_eq!(c.chunk_size, 60);
    assert_eq!(c.dirs.len(), 2);
    assert_eq!(c.dirs[0].0, "a");
    assert_eq!(c.dirs[1].1, vec![("1".to_string(), 10), ("3".to_string(), 30)]);
    let listed = plan_files(&c);
    assert_eq!(
        listed,
        vec![
            ("a".to_string(), "2".to_string(), 20),
            ("b".to_string(), "1".to_string(), 10),
            ("b".to_string(), "3".to_string(), 30)
        ]
    );
}

#[test]
fn hash_plan_closes_chunks_at_the_size_limit() {
    let mb = 1024 * 1024;
    let files = vec![file("d", "big", 40 * mb), file("d", "m1", 30 * mb), file("d", "m2", 30 * mb), file("e", "m3", 10 * mb), file("d", "s", 0)];
    let plan = file_hash_plan(files);
    assert_eq!(plan.len(), 3);
    assert_eq!(plan[0].chunk_size, 40 * mb);
    assert_eq!(plan[1].chunk_size, 70 * mb);
    assert_eq!(plan[1].dirs.len(), 2);
    assert_eq!(plan[2].chunk_size, 0);
    assert!(file_hash_plan(vec![]).is_empty());
}

#[test]
fn hash_groups_and_arguments() {
    let ids: Vec<i32> = (1..=301).collect();
    let groups = hash_plan_groups(&ids);
    assert_eq!(groups.len(), 2);
    assert_eq!(groups[1], vec![301]);
    let c = CollectionId::new("coll").unwrap();
    let ds = DatabaseIdentifier::new("ds1").unwrap();
    let args = hash_file_args(&c, &ds, &vec![7, 8]);
    assert_eq!(args.len(), 2);
    assert_eq!(args[1].plan_chunk_id, 8);
}

#[test]
fn scan_totals_are_stored_cut_to_width() {
    let ds = DatabaseIdentifier::new("ds1").unwrap();
    let mut d = FsDirectoryDbRow::from_basic_meta(&ds, &entry("x", true, 0));
    d.set_scan_total(&FsScanDatasourceDirsResult { file_count: 3, dir_count: 1, file_size_bytes: 1 << 40, errors: (1u64 << 32) + 2 });
    assert_eq!(d.scan_total, fs_directory_scan_result { file_count: 3, dir_count: 1, file_size_bytes: 1 << 40, errors: 2 });
    assert_eq!(d.path, "x");
}

#[test]
fn hash_plan_lists_every_file_once() {
    let mb = 1024 * 1024;
    let files = vec![
        file("b", "x", 5),
        file("a", "y", 40 * mb),
        file("b", "x", 5),
        file("a", "z", 30 * mb),
        file("c", "w", 30 * mb),
        file("a", "v", 1),
    ];
    let plan = file_hash_plan(files.clone());
    let mut listed: Vec<(String, String, i64)> = Vec::new();
    for chunk in &plan {
        listed.extend(plan_files(chunk));
    }
    let mut expected: Vec<(String, String, i64)> =
        files.iter().map(|f| (f.parent_dir_path.clone(), f.file_name.clone(), f.size_bytes)).collect();
    listed.sort();
    expected.sort();
    assert_eq!(listed, expected);
}
