use hoover3::chunking::{chunk_by_size, chunk_vec, reorder_by_key, ReorderBuffer, SizeChunker};

#[test]
fn chunker_hands_out_big_items_alone_and_fills_chunks() {
    let mut c: SizeChunker<&str> = SizeChunker::new(10, 100);
    assert_eq!(c.push("a", 5), None); // counts 10
    assert_eq!(c.push("big", 60), Some(vec!["big"])); // over half the maximum
    assert_eq!(c.push("b", 50), None); // 60 pending
    assert_eq!(c.push("c", 50), Some(vec!["a", "b", "c"])); // 110 > 100
    assert_eq!(c.push("d", 1), None);
    assert_eq!(c.finish(), Some(vec!["d"]));
}

#[test]
fn chunk_by_size_keeps_every_item_once() {
    let items = vec![(1, 5), (2, 60), (3, 50), (4, 50), (5, 1)];
    let chunks = chunk_by_size(items, 10, 100);
    assert_eq!(chunks, vec![vec![2], vec![1, 3, 4], vec![5]]);
    let empty: Vec<(u8, i64)> = vec![];
    assert!(chunk_by_size(empty, 10, 100).is_empty());
}

#[test]
fn chunk_vec_works_like_slice_chunks() {
    let v: Vec<i32> = (0..7).collect();
    assert_eq!(chunk_vec(&v, 3), vec![vec![0, 1, 2], vec![3, 4, 5], vec![6]]);
    assert_eq!(chunk_vec(&v, 7), vec![v.clone()]);
    let e: Vec<i32> = vec![];
    assert!(chunk_vec(&e, 2).is_empty());
}

#[test]
fn reorder_sorts_when_everything_fits() {
    let items = vec![(5, 'e'), (1, 'a'), (3, 'c'), (2, 'b')];
    assert_eq!(reorder_by_key(items, 10), vec!['a', 'b', 'c', 'e']);
}

#[test]
fn reorder_with_a_small_buffer_lets_the_smallest_waiting_item_out() {
    let mut buf = ReorderBuffer::new(2);
    assert_eq!(buf.push(5, 'e'), None);
    assert_eq!(buf.push(1, 'a'), None);
    assert_eq!(buf.push(3, 'c'), Some('a'));
    assert_eq!(buf.push(0, 'z'), Some('z'));
    assert_eq!(buf.drain(), vec!['c', 'e']);
    let out = reorder_by_key(vec![(5, 'e'), (1, 'a'), (3, 'c'), (0, 'z')], 2);
    assert_eq!(out, vec!['a', 'z', 'c', 'e']);
}

#[test]
fn chunk_by_size_accepts_a_negative_minimum() {
    let items = vec![("a", 3i64), ("b", -2), ("c", 4), ("d", 6)];
    let chunks = chunk_by_size(items, -5, 8);
    assert_eq!(chunks, vec![vec!["d"], vec!["a", "b", "c"]]);
}

#[test]
fn one_more_than_the_buffer_still_comes_out_sorted() {
    let items = vec![(5i64, "e"), (3, "c"), (9, "i"), (1, "a")];
    assert_eq!(reorder_by_key(items, 3), vec!["a", "c", "e", "i"]);
}
