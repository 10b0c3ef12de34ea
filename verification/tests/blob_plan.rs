use hoover3::blob_plan::{plan_pages_from_chunks, BlobProcessingPlanChunk};
use hoover3::blob_plan::{
    blob_plan_chunk, blob_processing_plan, flatten_result, max_plan_page_id, plan_page_blob_rows,
    plan_page_row, ProcessingPlanResult,
};
use hoover3::fs_models::{BlobProcessingPlan, FsBlobHashesDbRow};

fn blob(hash: &str, size: i64) -> FsBlobHashesDbRow {
    FsBlobHashesDbRow {
        blob_sha3_256: hash.to_string(),
        blob_sha256: String::new(),
        blob_md5: String::new(),
        blob_sha1: String::new(),
        size_bytes: size,
        datasource_id: "ds".to_string(),
        parent_dir_path: "/".to_string(),
        file_name: hash.to_string(),
    }
}

#[test]
fn flatten_result_keeps_the_first_error() {
    let a: Result<Result<i32, &str>, &str> = Ok(Ok(1));
    let b: Result<Result<i32, &str>, &str> = Ok(Err("inner"));
    let c: Result<Result<i32, &str>, &str> = Err("outer");
    assert_eq!(flatten_result(a), Ok(1));
    assert_eq!(flatten_result(b), Err("inner"));
    assert_eq!(flatten_result(c), Err("outer"));
}

#[test]
fn max_page_id_is_zero_without_pages() {
    assert_eq!(max_plan_page_id(&vec![]), 0);
    let plans = vec![
        BlobProcessingPlan { plan_page_id: 3, file_count: 1, size_bytes: 1, is_started: false },
        BlobProcessingPlan { plan_page_id: 9, file_count: 1, size_bytes: 1, is_started: true },
        BlobProcessingPlan { plan_page_id: -4, file_count: 1, size_bytes: 1, is_started: false },
    ];
    assert_eq!(max_plan_page_id(&plans), 9);
}

#[test]
fn plan_chunk_sums_sizes() {
    let c = blob_plan_chunk(vec![blob("a", 5), blob("b", 7)]);
    assert_eq!(c.blob_hashes, vec!["a".to_string(), "b".to_string()]);
    assert_eq!(c.chunk_size, 12);
    let row = plan_page_row(4, &c);
    assert_eq!(row, BlobProcessingPlan { plan_page_id: 4, file_count: 2, size_bytes: 12, is_started: false });
    let rows = plan_page_blob_rows(4, &c);
    assert_eq!(rows.len(), 2);
    assert_eq!(rows[1].blob_sha3_256, "b");
    assert_eq!(rows[1].plan_page_id, 4);
    let mut totals = ProcessingPlanResult::new();
    totals.add_page(&c);
    totals.add_page(&c);
    assert_eq!(totals, ProcessingPlanResult { new_page_count: 2, total_blob_count: 4, total_blob_size_bytes: 24 });
}

#[test]
fn blobs_are_planned_smallest_first_in_pages() {
    let mb = 1024 * 1024;
    let blobs = vec![blob("big", 40 * mb), blob("m1", 20 * mb), blob("s1", 1), blob("m2", 30 * mb), blob("m3", 20 * mb)];
    let plan = blob_processing_plan(blobs);
    let hashes: Vec<Vec<String>> = plan.iter().map(|c| c.blob_hashes.clone()).collect();
    // sorted by size: s1 (8 KiB counted), m1, m3, m2, then big alone
    assert_eq!(hashes[0], vec!["s1", "m1", "m3", "m2"]);
    assert_eq!(plan[0].chunk_size, 1 + 70 * mb);
    assert_eq!(hashes[1], vec!["big"]);
    assert_eq!(plan.len(), 2);
    assert!(blob_processing_plan(vec![]).is_empty());
}

#[test]
fn plan_pages_number_the_nonempty_chunks() {
    let chunks = vec![
        BlobProcessingPlanChunk { blob_hashes: vec!["a".to_string()], chunk_size: 5 },
        BlobProcessingPlanChunk { blob_hashes: vec![], chunk_size: 0 },
        BlobProcessingPlanChunk { blob_hashes: vec!["b".to_string(), "c".to_string()], chunk_size: 9 },
    ];
    let (pages, rows, totals) = plan_pages_from_chunks(10, &chunks);
    assert_eq!(pages.len(), 2);
    assert_eq!(pages[0], BlobProcessingPlan { plan_page_id: 11, file_count: 1, size_bytes: 5, is_started: false });
    assert_eq!(pages[1], BlobProcessingPlan { plan_page_id: 12, file_count: 2, size_bytes: 9, is_started: false });
    assert_eq!(rows[1].len(), 2);
    assert_eq!(rows[1][1].blob_sha3_256, "c");
    assert_eq!(rows[1][1].plan_page_id, 12);
    assert_eq!(totals, ProcessingPlanResult { new_page_count: 2, total_blob_count: 3, total_blob_size_bytes: 14 });
}

#[test]
fn blob_plan_takes_every_blob_once() {
    let mb = 1024 * 1024;
    let blobs = vec![
        blob("h1", 40 * mb),
        blob("h2", 5),
        blob("h3", 30 * mb),
        blob("h2", 5),
        blob("h4", 50 * mb),
        blob("h5", 0),
    ];
    let plan = blob_processing_plan(blobs.clone());
    let mut planned: Vec<String> = plan.iter().flat_map(|c| c.blob_hashes.clone()).collect();
    let mut expected: Vec<String> = blobs.iter().map(|b| b.blob_sha3_256.clone()).collect();
    planned.sort();
    expected.sort();
    assert_eq!(planned, expected);
    let total: i64 = plan.iter().map(|c| c.chunk_size).sum();
    assert_eq!(total, 120 * mb + 10);
}
