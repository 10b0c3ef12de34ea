use hoover3::processing::{blob_temp_segments, process_item_rows};
use hoover3::fs_models::BlobProcessingPlan;
use hoover3::identifier::CollectionId;
use hoover3::processing::{
    collection_processing_result, is_blank, parse_u64, plan_page_group, split_plan_pages,
    tika_content_rows, tika_meta_rows, tika_result_from_extracted, truncate_utf8_string,
    BlobExtractedContentRow, ItemWriteBatches, PageGroupPlan, ProcessPageResult, TRUNCATION_MARKER,
};
use std::path::PathBuf;

#[test]
fn short_strings_are_kept_whole() {
    assert_eq!(truncate_utf8_string("hello".to_string(), 5), "hello");
    assert_eq!(truncate_utf8_string(String::new(), 0), "");
}

#[test]
fn long_strings_are_cut_and_marked() {
    let s = "a".repeat(100);
    let r = truncate_utf8_string(s, 40);
    assert_eq!(r, format!("{}{}", "a".repeat(10), TRUNCATION_MARKER));
    let r = truncate_utf8_string("x".repeat(70000), 65536);
    assert_eq!(r.len(), 65506 + TRUNCATION_MARKER.len());
    assert!(r.ends_with("LONG TEXT TRUNCATED BY HOOVER ...]\n"));
}

#[test]
fn cut_keeps_whole_characters() {
    // each 'é' takes two bytes: the cut happens once 10 bytes are kept
    let s = "é".repeat(50);
    let r = truncate_utf8_string(s, 40);
    assert_eq!(r, format!("{}{}", "é".repeat(5), TRUNCATION_MARKER));
    let s = format!("a{}", "é".repeat(50));
    let r = truncate_utf8_string(s, 40);
    assert_eq!(r, format!("a{}{}", "é".repeat(5), TRUNCATION_MARKER));
}

#[test]
fn numbers_read_as_u64_from_str_does() {
    assert_eq!(parse_u64("0"), Some(0));
    assert_eq!(parse_u64("+42"), Some(42));
    assert_eq!(parse_u64("18446744073709551615"), Some(u64::MAX));
    assert_eq!(parse_u64("18446744073709551616"), None);
    assert_eq!(parse_u64(""), None);
    assert_eq!(parse_u64("+"), None);
    assert_eq!(parse_u64("-1"), None);
    assert_eq!(parse_u64("1 2"), None);
    for s in ["7", "+7", "007", "", "x", "99999999999999999999"] {
        assert_eq!(parse_u64(s), s.parse::<u64>().ok());
    }
}

#[test]
fn blank_text_is_all_white_space() {
    assert!(is_blank(""));
    assert!(is_blank(" \n\t\u{3000}"));
    assert!(!is_blank(" a "));
    for s in ["", "  ", "\u{a0}x", "\u{2028}", "\u{200b}"] {
        assert_eq!(is_blank(s), s.trim().is_empty());
    }
}

#[test]
fn metadata_rows_number_values_per_key() {
    let meta = vec![
        ("author".to_string(), vec!["ann".to_string(), "bob".to_string()]),
        ("title".to_string(), vec!["t".to_string()]),
    ];
    let rows = tika_meta_rows(&"h".to_string(), &meta);
    assert_eq!(rows.len(), 3);
    assert_eq!(rows[1].meta_key, "author");
    assert_eq!(rows[1].list_index, 1);
    assert_eq!(rows[1].value, "bob");
    assert_eq!(rows[2].meta_key, "title");
    assert_eq!(rows[2].list_index, 0);
    assert_eq!(rows[0].meta_provider, "tika");
    assert_eq!(rows[0].blob_sha3_256, "h");
}

#[test]
fn content_rows_skip_blank_paragraphs() {
    let rows = tika_content_rows(
        &"h".to_string(),
        vec!["one".to_string(), "  \n".to_string(), "dé".to_string()],
    );
    assert_eq!(rows.len(), 2);
    assert_eq!(rows[0].list_index, 0);
    assert_eq!(rows[1].list_index, 1);
    assert_eq!(rows[1].content, "dé");
    assert_eq!(rows[1].content_length, 3);
    assert_eq!(rows[1].content_source, "tika");
}

#[test]
fn extracted_metadata_is_sorted_out() {
    let meta = vec![
        ("Content-Length".to_string(), vec!["123".to_string()]),
        ("Content-Type".to_string(), vec!["text/plain".to_string(), "x".to_string()]),
        ("author".to_string(), vec!["z".repeat(70000)]),
    ];
    let r = tika_result_from_extracted(meta, Ok(PathBuf::from("/tmp/out")));
    assert_eq!(r._original_content_length, Some(123));
    assert_eq!(r.content_type, Some("text/plain".to_string()));
    assert_eq!(r.metadata.len(), 1);
    assert_eq!(r.metadata[0].0, "author");
    assert_eq!(r.metadata[0].1[0].len(), 65506 + TRUNCATION_MARKER.len());
    assert_eq!(r.extracted_content, Ok(PathBuf::from("/tmp/out")));

    let r = tika_result_from_extracted(
        vec![("Content-Type".to_string(), vec![]), ("Content-Length".to_string(), vec!["x".to_string()])],
        Err("failed".to_string()),
    );
    assert_eq!(r.content_type, Some(String::new()));
    assert_eq!(r._original_content_length, None);
    assert!(r.metadata.is_empty());

    let r = tika_result_from_extracted(vec![], Err("failed".to_string()));
    assert_eq!(r.content_type, None);
}

fn content_row(len: i32) -> BlobExtractedContentRow {
    BlobExtractedContentRow {
        blob_sha3_256: "h".to_string(),
        content_source: "tika".to_string(),
        list_index: 0,
        content: String::new(),
        content_length: len,
    }
}

#[test]
fn batches_are_handed_out_when_full() {
    let mut b: ItemWriteBatches<u32> = ItemWriteBatches::new();
    for i in 0..499 {
        assert_eq!(b.accept_mime_type_row(i), None);
    }
    let out = b.accept_mime_type_row(499).unwrap();
    assert_eq!(out.len(), 500);
    assert_eq!(out[499], 499);
    assert_eq!(b.accept_mime_type_row(7), None);

    assert!(b.accept_meta_rows(vec![]).is_none());

    for _ in 0..99 {
        assert!(b.accept_content_row(content_row(10)).is_none());
    }
    assert_eq!(b.content_total_size(), 99 * 1034);
    assert_eq!(b.accept_content_row(content_row(10)).unwrap().len(), 100);
    assert_eq!(b.content_total_size(), 0);

    assert_eq!(b.accept_content_row(content_row(52428800)).unwrap().len(), 1);
    let (mime, meta, content) = b.finalize();
    assert_eq!(mime, vec![7]);
    assert!(meta.is_empty());
    assert!(content.is_empty());
}

fn page(id: i32, size: i64, started: bool) -> BlobProcessingPlan {
    BlobProcessingPlan { plan_page_id: id, file_count: 1, size_bytes: size, is_started: started }
}

#[test]
fn plan_pages_split_by_size() {
    let pages = vec![page(1, 10, false), page(2, 104857600, false), page(3, 5, true), page(4, 104857599, false)];
    let (small, large) = split_plan_pages(&pages);
    assert_eq!(small, vec![1, 4]);
    assert_eq!(large, vec![2]);
}

#[test]
fn page_groups_of_three_hundred() {
    let c = CollectionId::new("coll").unwrap();
    match plan_page_group(&c, vec![4, 5], true) {
        PageGroupPlan::Pages(args) => {
            assert_eq!(args.len(), 2);
            assert_eq!(args[1].plan_page_id, 5);
            assert!(args[1].page_is_small);
            assert_eq!(args[0].collection_id.to_string(), "coll");
        }
        PageGroupPlan::Groups(_) => panic!("expected pages"),
    }
    let pages: Vec<i32> = (0..650).collect();
    match plan_page_group(&c, pages, false) {
        PageGroupPlan::Groups(groups) => {
            assert_eq!(groups.len(), 3);
            assert_eq!(groups[0].len(), 300);
            assert_eq!(groups[2], (600..650).collect::<Vec<i32>>());
        }
        PageGroupPlan::Pages(_) => panic!("expected groups"),
    }
}

#[test]
fn page_results_add_up() {
    let mut r = ProcessPageResult::default();
    r.record_item(true);
    r.record_item(false);
    r.record_item(true);
    assert_eq!(r, ProcessPageResult { item_count: 3, item_success: 2, item_errors: 1 });
    let mut total = ProcessPageResult::default();
    total.add(&r);
    total.add(&r);
    assert_eq!(total.item_count, 6);
    let c = CollectionId::new("coll").unwrap();
    let done = collection_processing_result(c, &vec![1, 2], &vec![], r, total);
    assert_eq!(done.small_page_count, 2);
    assert_eq!(done.large_page_count, 0);
    assert_eq!(done.large_page_results.item_errors, 2);
}

#[test]
fn blob_temp_dirs_use_the_first_bytes_of_the_hash() {
    assert_eq!(blob_temp_segments("abcdef0123"), ("abc".to_string(), "def".to_string()));
    assert_eq!(blob_temp_segments("abcdef"), ("abc".to_string(), "def".to_string()));
}

#[test]
fn processed_item_mime_fields_and_rows() {
    let meta = vec![
        ("Content-Type".to_string(), vec!["application/pdf".to_string()]),
        ("title".to_string(), vec!["a".to_string(), "b".to_string()]),
    ];
    let t = tika_result_from_extracted(meta, Ok(PathBuf::from("/tmp/text")));
    let r = process_item_rows("h".to_string(), "application/pdf; charset=binary".to_string(), Ok(t));
    assert_eq!(r.mime.magic_mime, "application/pdf; charset=binary");
    assert_eq!(r.mime.tika_mime, "application/pdf");
    assert!(r.mime.tika_metadata_success);
    assert!(r.mime.tika_content_success);
    assert_eq!(r.tika_meta_rows.len(), 2);
    assert_eq!(r.tika_meta_rows[1].list_index, 1);
    assert_eq!(r.tika_content_path, Some(PathBuf::from("/tmp/text")));

    let t = tika_result_from_extracted(vec![], Err("no text".to_string()));
    let r = process_item_rows("h".to_string(), "text/plain".to_string(), Ok(t));
    assert!(r.mime.tika_metadata_success);
    assert!(!r.mime.tika_content_success);
    assert_eq!(r.mime.tika_mime, "");
    assert_eq!(r.tika_content_path, None);

    let r = process_item_rows("h".to_string(), "text/plain".to_string(), Err("tika failed".to_string()));
    assert!(!r.mime.tika_metadata_success);
    assert!(!r.mime.tika_content_success);
    assert!(r.tika_meta_rows.is_empty());
}

#[test]
fn accepting_whole_items_keeps_every_row() {
    let mut b: ItemWriteBatches<u32> = ItemWriteBatches::new();
    let mut written_content = 0;
    let mut written_mime = 0;
    for i in 0..520u32 {
        let rows: Vec<BlobExtractedContentRow> = (0..3).map(|_| content_row(10)).collect();
        let (m, _t, c) = b.accept_item(i, vec![], rows);
        written_mime += m.map(|v| v.len()).unwrap_or(0);
        written_content += c.iter().map(|v| v.len()).sum::<usize>();
    }
    let (mime_left, _meta_left, content_left) = b.finalize();
    assert_eq!(written_mime + mime_left.len(), 520);
    assert_eq!(written_content + content_left.len(), 1560);
}
