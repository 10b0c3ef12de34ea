use hoover3::paragraphs::{split_into_paragraphs, ParagraphSplitter, Utf8ChunkBuffer};
use text_splitter::{ChunkConfig, ChunkSizer, TextSplitter};

#[derive(Copy, Clone, Debug, PartialEq)]
struct ByteTextSizer;

impl ChunkSizer for ByteTextSizer {
    fn size(&self, chunk: &str) -> usize {
        chunk.len()
    }
}

fn paragraphs_of(text: &str, piece_len: usize, paragraph_size_bytes: i32) -> Vec<String> {
    let min_size = paragraph_size_bytes as usize * 3 / 4;
    let max_size = paragraph_size_bytes as usize;
    let splitter = TextSplitter::new(ChunkConfig::new(min_size..max_size).with_sizer(ByteTextSizer));
    let chars: Vec<char> = text.chars().collect();
    let pieces: Vec<String> = chars.chunks(piece_len).map(|c| c.iter().collect::<String>()).collect();
    split_into_paragraphs(pieces, paragraph_size_bytes, |t: &str| {
        splitter.chunk_indices(t).map(|(i, _)| i).collect::<Vec<usize>>()
    })
}

#[test]
fn test_read_utf8_file_paragraphs() {
    let paragraph = "This is a test paragraph with some content.\n\n";
    let repetitions = 4096 / paragraph.len() + 1;
    let long_text = paragraph.repeat(repetitions);
    let paragraph_size_bytes = 128;
    let paragraphs = paragraphs_of(&long_text, 64, paragraph_size_bytes);
    for p in &paragraphs {
        assert!(p.len() <= paragraph_size_bytes as usize, "Paragraph is too long: {}", p.len());
        assert!(p.len() >= paragraph_size_bytes as usize / 2, "Paragraph is too short: {}", p.len());
    }
    let reconstructed_text = paragraphs.join("");
    assert_eq!(reconstructed_text, long_text);
}

#[test]
fn paragraphs_join_back_to_the_text() {
    let text = "Première ligne. Deuxième phrase ici!\nUne autre ligne\n\nNouveau paragraphe, avec des mots. ".repeat(20);
    for size in [16, 64, 200] {
        let paragraphs = paragraphs_of(&text, 7, size);
        assert_eq!(paragraphs.join(""), text);
        assert!(paragraphs.iter().all(|p| !p.is_empty()));
    }
    assert!(paragraphs_of("", 5, 64).is_empty());
    assert_eq!(paragraphs_of("short", 5, 64), vec!["short".to_string()]);
}

#[test]
fn chunk_buffer_gathers_at_least_the_chunk_size() {
    let mut b = Utf8ChunkBuffer::new(5);
    assert_eq!(b.push("ab"), None);
    assert_eq!(b.push("cd"), None);
    assert_eq!(b.push("é"), Some("abcdé".to_string()));
    assert_eq!(b.push("x"), None);
    assert_eq!(b.finish(), Some("x".to_string()));
    assert_eq!(Utf8ChunkBuffer::new(5).finish(), None);
}

#[test]
fn splitter_cuts_at_the_last_offset_below_the_maximum() {
    let mut s = ParagraphSplitter::new(8);
    assert_eq!(s.min_size(), 6);
    assert_eq!(s.max_size(), 8);
    assert_eq!(s.chunk_size_bytes(), 16);
    assert!(s.push_chunk("abcdefghij"));
    // a single offset below the maximum: no cut
    assert_eq!(s.split_at_offsets(&vec![0, 9]), None);
    assert_eq!(s.split_at_offsets(&vec![0, 3, 5, 8]), Some("abcde".to_string()));
    assert_eq!(s.pending_text(), "fghij");
    assert!(!s.needs_final_split());
    assert_eq!(s.finish(), Some("fghij".to_string()));
}

#[test]
fn text_without_cut_points_is_cut_to_fit() {
    let pieces = vec!["abcdefghij".to_string()];
    let r = split_into_paragraphs(pieces, 4, |_t: &str| Vec::new());
    assert_eq!(r, vec!["abcd".to_string(), "efgh".to_string(), "ij".to_string()]);
    let pieces = vec!["aébcdé".to_string(), "xy".to_string()];
    let r = split_into_paragraphs(pieces, 4, |_t: &str| Vec::new());
    assert_eq!(r.join(""), "aébcdéxy");
    assert!(r.iter().all(|p| !p.is_empty() && p.len() <= 4));
}

#[test]
fn split_to_fit_takes_the_longest_fitting_prefix() {
    let mut s = ParagraphSplitter::new(4);
    s.push_chunk("abécdef");
    assert_eq!(s.split_to_fit(), "abé".to_string());
    assert_eq!(s.pending_text(), "cdef");
    let mut t = ParagraphSplitter::new(1);
    t.push_chunk("éa");
    assert_eq!(t.split_to_fit(), "é".to_string());
    assert_eq!(t.pending_text(), "a");
}

#[test]
fn offsets_off_char_boundaries_are_not_used() {
    let mut s = ParagraphSplitter::new(8);
    s.push_chunk("ééééé");
    // 1 and 3 fall inside a character; 0, 2 and 4 are boundaries
    assert_eq!(s.split_at_offsets(&vec![0, 1, 3]), None);
    assert_eq!(s.split_at_offsets(&vec![0, 2, 3]), Some("é".to_string()));
    assert_eq!(s.pending_text(), "éééé");
}
