//! Document processing: the rows written for each processed blob, how
//! long metadata values are cut, and how plan pages are split and grouped.

use vstd::prelude::*;
use vstd::string::*;
use vstd::utf8::*;

use crate::chunking::{chunk_vec, flatten_vecs};
use crate::fs_models::BlobProcessingPlan;
use crate::identifier::{str_byte_len, utf8_len, CollectionId};
use crate::text::{owned, str_eq, string_push};
use crate::strord::{lex_lt, strictly_increasing};

verus! {

/// Appended to a metadata value that was cut short.
pub const TRUNCATION_MARKER: &'static str = "\n[ ... LONG TEXT TRUNCATED BY HOOVER ...]\n";

/// Room kept below the maximum length for the truncation marker.
pub const TRUNCATION_MARGIN: usize = 30;

/// The first `k` at or after `from`, below the length of `s`, at which the
/// first `k` characters of `s` take at least `limit` bytes; the length of
/// `s` if there is none.
pub open spec fn first_reaching(s: Seq<char>, limit: int, from: nat) -> nat
    decreases s.len() - from,
{
    if from >= s.len() {
        s.len()
    } else if utf8_len(s.take(from as int)) >= limit {
        from
    } else {
        first_reaching(s, limit, from + 1)
    }
}

/// A string of at most `max_length` bytes is kept. A longer one keeps its
/// characters up to the first point where they fill `max_length - 30`
/// bytes, followed by the truncation marker.
pub open spec fn truncated_text(s: Seq<char>, max_length: int, marker: Seq<char>) -> Seq<char> {
    if utf8_len(s) <= max_length {
        s
    } else {
        let k = first_reaching(s, max_length - TRUNCATION_MARGIN, 0);
        if k < s.len() {
            s.take(k as int) + marker
        } else {
            s
        }
    }
}

proof fn lemma_first_reaching_skip(s: Seq<char>, limit: int, k: nat)
    requires
        k <= s.len(),
        forall|j: int| 0 <= j < k ==> utf8_len(#[trigger] s.take(j)) < limit,
    ensures
        first_reaching(s, limit, 0) == first_reaching(s, limit, k),
    decreases k,
{
    if k > 0 {
        let j = (k - 1) as nat;
        assert(utf8_len(s.take(j as int)) < limit);
        lemma_first_reaching_skip(s, limit, j);
    }
}

/// Cuts a string to about `max_length` bytes, marking the cut (a string
/// longer than `max_length` needs `max_length` of at least 30).
pub fn truncate_utf8_string(s: String, max_length: usize) -> (r: String)
    requires
        utf8_len(s@) > max_length ==> max_length >= TRUNCATION_MARGIN,
    ensures
        r@ == truncated_text(s@, max_length as int, TRUNCATION_MARKER@),
{
    if str_byte_len(s.as_str()) <= max_length {
        return s;
    }
    let cut: usize = max_length - TRUNCATION_MARGIN;
    let mut truncated = String::new();
    let ghost full = s@;
    let mut reached = false;
    for c in it: s.as_str().chars()
        invariant
            it.seq() == full,
            !reached ==> truncated@ == full.take(it.index() as int),
            !reached ==> forall|j: int| 0 <= j < it.index() ==> utf8_len(#[trigger] full.take(j)) < cut,
            reached ==> truncated@ == truncated_text(full, max_length as int, TRUNCATION_MARKER@),
            utf8_len(full) > max_length,
            cut == max_length - TRUNCATION_MARGIN,
    {
        if !reached {
            let ghost idx = it.index();
            if str_byte_len(truncated.as_str()) >= cut {
                proof {
                    lemma_first_reaching_skip(full, cut as int, idx as nat);
                }
                truncated.append(TRUNCATION_MARKER);
                reached = true;
            } else {
                string_push(&mut truncated, c);
                proof {
                    assert(full.take(idx + 1) =~= full.take(idx as int).push(c));
                }
            }
        }
    }
    if !reached {
        proof {
            assert(full.take(full.len() as int) =~= full);
            lemma_first_reaching_skip(full, cut as int, full.len());
        }
    }
    truncated
}

/// Name of the metadata and content provider.
pub const TIKA_PROVIDER: &'static str = "tika";

/// One metadata value extracted from a blob.
#[derive(Debug, Clone, PartialEq, Eq)]
pub struct BlobExtractedMetadataRow {
    /// The sha3-256 hash of the blob.
    pub blob_sha3_256: String,
    /// Type of metadata provider, e.g. "tika".
    pub meta_provider: String,
    /// Metadata key.
    pub meta_key: String,
    /// Position of the value among the values of its key.
    pub list_index: i32,
    /// Metadata value.
    pub value: String,
}

/// One paragraph of the text content of a blob.
#[derive(Debug, Clone, PartialEq, Eq)]
pub struct BlobExtractedContentRow {
    /// The sha3-256 hash of the blob.
    pub blob_sha3_256: String,
    /// The source of the content, e.g. "tika".
    pub content_source: String,
    /// Position of the paragraph in the content.
    pub list_index: i32,
    /// The paragraph.
    pub content: String,
    /// Length of the paragraph, in bytes.
    pub content_length: i32,
}

/// A metadata row as plain values.
pub open spec fn meta_row_view(r: BlobExtractedMetadataRow) -> (Seq<char>, Seq<char>, Seq<char>, i32, Seq<char>) {
    (r.blob_sha3_256@, r.meta_provider@, r.meta_key@, r.list_index, r.value@)
}

/// A content row as plain values.
pub open spec fn content_row_view(r: BlobExtractedContentRow) -> (Seq<char>, Seq<char>, i32, Seq<char>, i32) {
    (r.blob_sha3_256@, r.content_source@, r.list_index, r.content@, r.content_length)
}

/// The rows of one metadata key: each value with its position.
pub open spec fn key_meta_rows(blob: Seq<char>, provider: Seq<char>, key: Seq<char>, values: Seq<String>) -> Seq<(Seq<char>, Seq<char>, Seq<char>, i32, Seq<char>)> {
    Seq::new(values.len(), |i: int| (blob, provider, key, i as i32, values[i]@))
}

/// The rows of all metadata, key after key.
pub open spec fn meta_rows_of(blob: Seq<char>, provider: Seq<char>, metadata: Seq<(String, Vec<String>)>) -> Seq<(Seq<char>, Seq<char>, Seq<char>, i32, Seq<char>)>
    decreases metadata.len(),
{
    if metadata.len() == 0 {
        Seq::empty()
    } else {
        meta_rows_of(blob, provider, metadata.drop_last()) + key_meta_rows(blob, provider, metadata.last().0@, metadata.last().1@)
    }
}

/// The metadata rows of a blob: for each key in order, each of its values
/// with its position among them, under the provider "tika".
pub fn tika_meta_rows(blob_sha3_256: &String, metadata: &Vec<(String, Vec<String>)>) -> (r: Vec<BlobExtractedMetadataRow>)
    ensures
        r@.map_values(|x: BlobExtractedMetadataRow| meta_row_view(x)) == meta_rows_of(blob_sha3_256@, TIKA_PROVIDER@, metadata@),
{
    let mut rows: Vec<BlobExtractedMetadataRow> = Vec::new();
    let n = metadata.len();
    let mut k: usize = 0;
    while k < n
        invariant
            n == metadata@.len(),
            k <= n,
            rows@.map_values(|x: BlobExtractedMetadataRow| meta_row_view(x)) == meta_rows_of(blob_sha3_256@, TIKA_PROVIDER@, metadata@.take(k as int)),
        decreases n - k,
    {
        let key = &metadata[k].0;
        let values = &metadata[k].1;
        let ghost start = rows@.map_values(|x: BlobExtractedMetadataRow| meta_row_view(x));
        let m = values.len();
        let mut i: usize = 0;
        while i < m
            invariant
                m == values@.len(),
                i <= m,
                rows@.map_values(|x: BlobExtractedMetadataRow| meta_row_view(x)) == start + key_meta_rows(blob_sha3_256@, TIKA_PROVIDER@, key@, values@.take(i as int)),
            decreases m - i,
        {
            let ghost before = rows@;
            let row = BlobExtractedMetadataRow {
                blob_sha3_256: blob_sha3_256.clone(),
                meta_provider: owned(TIKA_PROVIDER),
                meta_key: key.clone(),
                list_index: i as i32,
                value: values[i].clone(),
            };
            rows.push(row);
            proof {
                assert(rows@.map_values(|x: BlobExtractedMetadataRow| meta_row_view(x)) =~= before.map_values(|x: BlobExtractedMetadataRow| meta_row_view(x)).push(meta_row_view(row)));
                assert(key_meta_rows(blob_sha3_256@, TIKA_PROVIDER@, key@, values@.take(i + 1)) =~= key_meta_rows(blob_sha3_256@, TIKA_PROVIDER@, key@, values@.take(i as int)).push(meta_row_view(row)));
            }
            i = i + 1;
        }
        proof {
            assert(values@.take(m as int) =~= values@);
            assert(metadata@.take(k + 1).drop_last() =~= metadata@.take(k as int));
            assert(metadata@.take(k + 1).last() == metadata@[k as int]);
        }
        k = k + 1;
    }
    proof {
        assert(metadata@.take(n as int) =~= metadata@);
    }
    rows
}

/// A character with the Unicode `White_Space` property.
pub open spec fn is_white_space(c: char) -> bool {
    ||| ('\u{9}' <= c && c <= '\u{d}')
    ||| c == ' '
    ||| c == '\u{85}'
    ||| c == '\u{a0}'
    ||| c == '\u{1680}'
    ||| ('\u{2000}' <= c && c <= '\u{200a}')
    ||| c == '\u{2028}'
    ||| c == '\u{2029}'
    ||| c == '\u{202f}'
    ||| c == '\u{205f}'
    ||| c == '\u{3000}'
}

/// The characters with the Unicode `White_Space` property, one by one:
/// tab, line feed, vertical tab, form feed, carriage return, space, next
/// line, no-break space, ogham space mark, the spaces from en quad to hair
/// space, line separator, paragraph separator, narrow no-break space,
/// medium mathematical space and ideographic space; no other character.
pub proof fn lemma_white_space_is_unicode(c: char)
    ensures
        is_white_space(c) <==> (c == '\t' || c == '\n' || c == '\u{b}' || c == '\u{c}' || c == '\r'
            || c == ' ' || c == '\u{85}' || c == '\u{a0}' || c == '\u{1680}'
            || c == '\u{2000}' || c == '\u{2001}' || c == '\u{2002}' || c == '\u{2003}'
            || c == '\u{2004}' || c == '\u{2005}' || c == '\u{2006}' || c == '\u{2007}'
            || c == '\u{2008}' || c == '\u{2009}' || c == '\u{200a}'
            || c == '\u{2028}' || c == '\u{2029}' || c == '\u{202f}' || c == '\u{205f}'
            || c == '\u{3000}'),
{
    let u = c as u32;
    char_u32_cast(c, u);
    assert(is_white_space(c) <==> (9 <= u <= 13 || u == 0x20 || u == 0x85 || u == 0xa0 || u == 0x1680
        || (0x2000 <= u <= 0x200a) || u == 0x2028 || u == 0x2029 || u == 0x202f || u == 0x205f
        || u == 0x3000));
}

/// Text made only of spaces, tabs, line breaks, vertical tabs and form
/// feeds is blank, whatever its length: a paragraph such as `"\r\n"` gets
/// no content row.
pub proof fn lemma_line_breaks_are_blank(s: Seq<char>)
    requires
        forall|i: int| 0 <= i < s.len() ==> {
            let c = #[trigger] s[i];
            c == ' ' || c == '\t' || c == '\n' || c == '\r' || c == '\u{b}' || c == '\u{c}'
        },
    ensures
        is_blank_text(s),
{
    assert forall|i: int| 0 <= i < s.len() implies #[trigger] is_white_space(s[i]) by {
        lemma_white_space_is_unicode(s[i]);
    }
}

/// A text holding a character without the `White_Space` property is not
/// blank.
pub proof fn lemma_visible_char_not_blank(s: Seq<char>, i: int)
    requires
        0 <= i < s.len(),
        !is_white_space(s[i]),
    ensures
        !is_blank_text(s),
{
}

/// Every content row holds a paragraph that is not blank, and the rows are
/// numbered 0, 1, 2, ... in order.
pub proof fn lemma_content_rows_not_blank(blob: Seq<char>, source: Seq<char>, paragraphs: Seq<String>)
    ensures
        forall|j: int| 0 <= j < content_rows_of(blob, source, paragraphs).len() ==> {
            &&& !is_blank_text((#[trigger] content_rows_of(blob, source, paragraphs)[j]).3)
            &&& content_rows_of(blob, source, paragraphs)[j].2 == j as i32
        },
        content_rows_of(blob, source, paragraphs).len() <= paragraphs.len(),
    decreases paragraphs.len(),
{
    if paragraphs.len() > 0 {
        lemma_content_rows_not_blank(blob, source, paragraphs.drop_last());
    }
}

/// Nothing but white space: what is left of the text once trimmed is empty.
pub open spec fn is_blank_text(s: Seq<char>) -> bool {
    forall|i: int| 0 <= i < s.len() ==> #[trigger] is_white_space(s[i])
}

/// Whether a character has the Unicode `White_Space` property.
pub fn char_is_white_space(c: char) -> (r: bool)
    ensures
        r == is_white_space(c),
{
    ('\u{9}' <= c && c <= '\u{d}') || c == ' ' || c == '\u{85}' || c == '\u{a0}' || c == '\u{1680}'
        || ('\u{2000}' <= c && c <= '\u{200a}') || c == '\u{2028}' || c == '\u{2029}'
        || c == '\u{202f}' || c == '\u{205f}' || c == '\u{3000}'
}

/// Whether the text is empty once white space is trimmed from both ends.
pub fn is_blank(s: &str) -> (r: bool)
    ensures
        r == is_blank_text(s@),
{
    let mut blank = true;
    for c in it: s.chars()
        invariant
            it.seq() == s@,
            blank == (forall|j: int| 0 <= j < it.index() ==> #[trigger] is_white_space(s@[j])),
    {
        let w = char_is_white_space(c);
        proof {
            assert(s@[it.index() as int] == c);
        }
        blank = blank && w;
    }
    blank
}

/// The content rows of a blob's paragraphs: blank paragraphs are skipped,
/// the others are numbered from 0 in order under the source "tika", with
/// their length in bytes (as `i32`, cut to 32 bits).
pub open spec fn content_rows_of(blob: Seq<char>, source: Seq<char>, paragraphs: Seq<String>) -> Seq<(Seq<char>, Seq<char>, i32, Seq<char>, i32)>
    decreases paragraphs.len(),
{
    if paragraphs.len() == 0 {
        Seq::empty()
    } else {
        let prev = content_rows_of(blob, source, paragraphs.drop_last());
        let p = paragraphs.last()@;
        if is_blank_text(p) {
            prev
        } else {
            prev.push((blob, source, prev.len() as i32, p, utf8_len(p) as i32))
        }
    }
}

proof fn lemma_content_rows_len_grows(blob: Seq<char>, source: Seq<char>, paragraphs: Seq<String>, k: int)
    requires
        0 <= k <= paragraphs.len(),
    ensures
        content_rows_of(blob, source, paragraphs.take(k)).len() <= content_rows_of(blob, source, paragraphs).len(),
    decreases paragraphs.len() - k,
{
    if k < paragraphs.len() {
        lemma_content_rows_len_grows(blob, source, paragraphs, k + 1);
        assert(paragraphs.take(k + 1).drop_last() =~= paragraphs.take(k));
    } else {
        assert(paragraphs.take(k) =~= paragraphs);
    }
}

/// The content rows of a blob from its text paragraphs (at most `i32::MAX`
/// rows, the positions being `i32`).
pub fn tika_content_rows(blob_sha3_256: &String, paragraphs: Vec<String>) -> (r: Vec<BlobExtractedContentRow>)
    requires
        content_rows_of(blob_sha3_256@, TIKA_PROVIDER@, paragraphs@).len() <= i32::MAX,
    ensures
        r@.map_values(|x: BlobExtractedContentRow| content_row_view(x)) == content_rows_of(blob_sha3_256@, TIKA_PROVIDER@, paragraphs@),
{
    let ghost all = paragraphs@;
    let mut rows: Vec<BlobExtractedContentRow> = Vec::new();
    let mut list_index: i32 = 0;
    for p in it: paragraphs.into_iter()
        invariant
            it.seq() == all,
            content_rows_of(blob_sha3_256@, TIKA_PROVIDER@, all).len() <= i32::MAX,
            rows@.map_values(|x: BlobExtractedContentRow| content_row_view(x)) == content_rows_of(blob_sha3_256@, TIKA_PROVIDER@, all.take(it.index() as int)),
            list_index == rows@.len(),
    {
        let ghost idx = it.index();
        let ghost before = rows@;
        proof {
            assert(all.take(idx + 1).drop_last() =~= all.take(idx as int));
            assert(all.take(idx + 1).last() == p);
            lemma_content_rows_len_grows(blob_sha3_256@, TIKA_PROVIDER@, all, idx + 1);
        }
        if !is_blank(p.as_str()) {
            let len = str_byte_len(p.as_str());
            let row = BlobExtractedContentRow {
                blob_sha3_256: blob_sha3_256.clone(),
                content_source: owned(TIKA_PROVIDER),
                list_index,
                content_length: len as i32,
                content: p,
            };
            rows.push(row);
            list_index = list_index + 1;
            proof {
                assert(rows@.map_values(|x: BlobExtractedContentRow| content_row_view(x)) =~= before.map_values(|x: BlobExtractedContentRow| content_row_view(x)).push(content_row_view(row)));
            }
        }
    }
    proof {
        assert(all.take(all.len() as int) =~= all);
    }
    rows
}

/// Whether a character is an ASCII decimal digit.
pub open spec fn is_digit(c: char) -> bool {
    '0' <= c && c <= '9'
}

/// The value of a sequence of decimal digits.
pub open spec fn digits_value(d: Seq<char>) -> int
    decreases d.len(),
{
    if d.len() == 0 {
        0
    } else {
        digits_value(d.drop_last()) * 10 + (d.last() as int - '0' as int)
    }
}

/// The text after an optional leading `+`.
pub open spec fn unsigned_digits(s: Seq<char>) -> Seq<char> {
    if s.len() > 0 && s[0] == '+' {
        s.drop_first()
    } else {
        s
    }
}

/// Every character is a decimal digit.
pub open spec fn all_digits(d: Seq<char>) -> bool {
    forall|i: int| 0 <= i < d.len() ==> #[trigger] is_digit(d[i])
}

/// How `u64::from_str` reads a string: an optional `+`, then one or more
/// decimal digits whose value fits in `u64`; anything else is refused.
pub open spec fn parsed_u64(s: Seq<char>) -> Option<u64> {
    let d = unsigned_digits(s);
    if d.len() > 0 && all_digits(d) && digits_value(d) <= u64::MAX {
        Some(digits_value(d) as u64)
    } else {
        None
    }
}

proof fn lemma_digits_value_grows(d: Seq<char>, k: int)
    requires
        0 <= k <= d.len(),
        forall|i: int| 0 <= i < d.len() ==> #[trigger] is_digit(d[i]),
    ensures
        0 <= digits_value(d.take(k)) <= digits_value(d),
    decreases d.len() - k,
{
    if k < d.len() {
        lemma_digits_value_grows(d, k + 1);
        assert(d.take(k + 1).drop_last() =~= d.take(k));
        assert(is_digit(d[k]));
        assert(d.take(k + 1).last() == d[k]);
    } else {
        assert(d.take(k) =~= d);
    }
    lemma_digits_value_nonneg(d.take(k));
}

proof fn lemma_digits_value_nonneg(d: Seq<char>)
    requires
        forall|i: int| 0 <= i < d.len() ==> #[trigger] is_digit(d[i]),
    ensures
        0 <= digits_value(d),
    decreases d.len(),
{
    if d.len() > 0 {
        assert forall|i: int| 0 <= i < d.drop_last().len() implies #[trigger] is_digit(d.drop_last()[i]) by {
            assert(d.drop_last()[i] == d[i]);
        }
        lemma_digits_value_nonneg(d.drop_last());
        assert(is_digit(d[d.len() - 1]));
    }
}

/// Reads an unsigned decimal number as `u64::from_str` does.
pub fn parse_u64(s: &str) -> (r: Option<u64>)
    ensures
        r == parsed_u64(s@),
{
    let n = s.unicode_len();
    let mut start: usize = 0;
    if n > 0 && s.get_char(0) == '+' {
        start = 1;
    }
    let ghost d = unsigned_digits(s@);
    proof {
        assert(d =~= s@.subrange(start as int, n as int));
    }
    if start == n {
        return None;
    }
    let mut value: u64 = 0;
    let mut pos: usize = 0;
    for c in it: s.chars()
        invariant
            it.seq() == s@,
            pos == it.index(),
            n == s@.len(),
            start <= n,
            start < n,
            d == s@.subrange(start as int, n as int),
            d == unsigned_digits(s@),
            it.index() <= start ==> value == 0,
            it.index() >= start ==> forall|j: int| 0 <= j < it.index() - start ==> #[trigger] is_digit(d[j]),
            it.index() >= start ==> value == digits_value(d.take(it.index() - start)),
    {
        let ghost idx = it.index();
        if pos >= start {
            let ghost k = idx - start;
            proof {
                assert(s@[idx as int] == c);
                assert(d[k] == c);
            }
            if !('0' <= c && c <= '9') {
                proof {
                    assert(0 <= k < d.len());
                    assert(!is_digit(d[k]));
                    assert(!all_digits(d));
                }
                return None;
            }
            let digit: u64 = (c as u32 - '0' as u32) as u64;
            proof {
                assert(d.take(k + 1).drop_last() =~= d.take(k));
                assert(d.take(k + 1).last() == c);
            }
            let next = match value.checked_mul(10) {
                Some(t) => t.checked_add(digit),
                None => None,
            };
            match next {
                Some(v) => {
                    value = v;
                },
                None => {
                    proof {
                        assert(0 <= k < d.len());
                        assert(digits_value(d.take(k + 1)) == value * 10 + digit);
                        assert(digits_value(d.take(k + 1)) > u64::MAX);
                        if all_digits(d) {
                            lemma_digits_value_grows(d, k + 1);
                        }
                    }
                    return None;
                },
            }
        } else {
            proof {
                assert(s@[0] == '+');
            }
        }
        pos = pos + 1;
    }
    proof {
        assert(d.take(d.len() as int) =~= d);
    }
    Some(value)
}

/// Length of the longest metadata value kept whole.
pub const METADATA_VALUE_MAX_LENGTH: usize = 65536;

/// Metadata key holding the length of the extracted content.
pub const CONTENT_LENGTH_KEY: &'static str = "Content-Length";

/// Metadata key holding the type of the extracted content.
pub const CONTENT_TYPE_KEY: &'static str = "Content-Type";

/// The metadata extracted from one blob, with its content type and the
/// place of its extracted text.
pub struct TikaResult {
    /// The metadata, each value cut to 64 KiB; sorted by key when it was
    /// given sorted by key (as the extractor's map is read in key order).
    pub metadata: Vec<(String, Vec<String>)>,
    /// The length of the content, as the metadata states it.
    pub _original_content_length: Option<u64>,
    /// The type of the content (mime type).
    pub content_type: Option<String>,
    /// Where the extracted text was written, or why extracting it failed.
    pub extracted_content: Result<std::path::PathBuf, String>,
}

/// The values of the first entry with key `key`, if any.
pub open spec fn lookup_values(metadata: Seq<(String, Vec<String>)>, key: Seq<char>) -> Option<Seq<String>>
    decreases metadata.len(),
{
    if metadata.len() == 0 {
        None
    } else if metadata[0].0@ == key {
        Some(metadata[0].1@)
    } else {
        lookup_values(metadata.drop_first(), key)
    }
}

/// An entry of the metadata other than content length and type, with its
/// values cut to the maximum length.
pub open spec fn kept_entry(e: (String, Vec<String>)) -> (Seq<char>, Seq<Seq<char>>) {
    (e.0@, e.1@.map_values(|v: String| truncated_text(v@, METADATA_VALUE_MAX_LENGTH as int, TRUNCATION_MARKER@)))
}

/// The metadata that stays once content length and type are taken out.
pub open spec fn kept_metadata(metadata: Seq<(String, Vec<String>)>) -> Seq<(Seq<char>, Seq<Seq<char>>)>
    decreases metadata.len(),
{
    if metadata.len() == 0 {
        Seq::empty()
    } else {
        let rest = kept_metadata(metadata.drop_last());
        let e = metadata.last();
        if e.0@ == CONTENT_LENGTH_KEY@ || e.0@ == CONTENT_TYPE_KEY@ {
            rest
        } else {
            rest.push(kept_entry(e))
        }
    }
}

/// The content length: the first value of the first "Content-Length"
/// entry, read as a number.
pub open spec fn stated_content_length(metadata: Seq<(String, Vec<String>)>) -> Option<u64> {
    match lookup_values(metadata, CONTENT_LENGTH_KEY@) {
        Some(vs) => if vs.len() > 0 {
            parsed_u64(vs[0]@)
        } else {
            None
        },
        None => None,
    }
}

/// The content type: the first value of the first "Content-Type" entry,
/// empty if it has none.
pub open spec fn stated_content_type(metadata: Seq<(String, Vec<String>)>) -> Option<Seq<char>> {
    match lookup_values(metadata, CONTENT_TYPE_KEY@) {
        Some(vs) => Some(if vs.len() > 0 {
            vs[0]@
        } else {
            Seq::empty()
        }),
        None => None,
    }
}

proof fn lemma_lookup_push(metadata: Seq<(String, Vec<String>)>, e: (String, Vec<String>), key: Seq<char>)
    ensures
        lookup_values(metadata.push(e), key) == (if lookup_values(metadata, key) is Some {
            lookup_values(metadata, key)
        } else if e.0@ == key {
            Some(e.1@)
        } else {
            None::<Seq<String>>
        }),
    decreases metadata.len(),
{
    if metadata.len() > 0 {
        assert(metadata.push(e)[0] == metadata[0]);
        assert(metadata.push(e).drop_first() =~= metadata.drop_first().push(e));
        lemma_lookup_push(metadata.drop_first(), e, key);
    } else {
        assert(metadata.push(e)[0] == e);
        assert(metadata.push(e).drop_first() =~= Seq::<(String, Vec<String>)>::empty());
        assert(lookup_values(Seq::<(String, Vec<String>)>::empty(), key) is None);
    }
}

/// The values of an entry, each cut to the maximum length.
fn truncate_values(values: &Vec<String>) -> (r: Vec<String>)
    ensures
        r@.map_values(|v: String| v@) == values@.map_values(|v: String| truncated_text(v@, METADATA_VALUE_MAX_LENGTH as int, TRUNCATION_MARKER@)),
{
    let mut out: Vec<String> = Vec::new();
    let n = values.len();
    let mut i: usize = 0;
    while i < n
        invariant
            n == values@.len(),
            i <= n,
            out@.map_values(|v: String| v@) == values@.take(i as int).map_values(|v: String| truncated_text(v@, METADATA_VALUE_MAX_LENGTH as int, TRUNCATION_MARKER@)),
        decreases n - i,
    {
        let ghost before = out@;
        let t = truncate_utf8_string(values[i].clone(), METADATA_VALUE_MAX_LENGTH);
        out.push(t);
        proof {
            assert(out@.map_values(|v: String| v@) =~= before.map_values(|v: String| v@).push(t@));
            assert(values@.take(i + 1).map_values(|v: String| truncated_text(v@, METADATA_VALUE_MAX_LENGTH as int, TRUNCATION_MARKER@)) =~= values@.take(i as int).map_values(|v: String| truncated_text(v@, METADATA_VALUE_MAX_LENGTH as int, TRUNCATION_MARKER@)).push(truncated_text(values@[i as int]@, METADATA_VALUE_MAX_LENGTH as int, TRUNCATION_MARKER@)));
        }
        i = i + 1;
    }
    proof {
        assert(values@.take(n as int) =~= values@);
    }
    out
}

/// The metadata of a blob as plain values.
pub open spec fn metadata_view(m: Seq<(String, Vec<String>)>) -> Seq<(Seq<char>, Seq<Seq<char>>)> {
    m.map_values(|e: (String, Vec<String>)| (e.0@, e.1@.map_values(|v: String| v@)))
}

/// The keys of the metadata entries, in order.
pub open spec fn metadata_keys(m: Seq<(String, Vec<String>)>) -> Seq<Seq<char>> {
    m.map_values(|e: (String, Vec<String>)| e.0@)
}

/// Sorts out what the extractor returned for one blob: takes the content
/// length and type out of the metadata and cuts each remaining value to
/// 64 KiB.
pub fn tika_result_from_extracted(
    metadata: Vec<(String, Vec<String>)>,
    extracted_content: Result<std::path::PathBuf, String>,
) -> (r: TikaResult)
    ensures
        metadata_view(r.metadata@) == kept_metadata(metadata@),
        r._original_content_length == stated_content_length(metadata@),
        r.content_type matches Some(t) ==> stated_content_type(metadata@) == Some(t@),
        r.content_type is None <==> stated_content_type(metadata@) is None,
        r.extracted_content == extracted_content,
        strictly_increasing(metadata_keys(metadata@)) ==> strictly_increasing(metadata_keys(r.metadata@)),
{
    let ghost sorted = strictly_increasing(metadata_keys(metadata@));
    let mut kept: Vec<(String, Vec<String>)> = Vec::new();
    let mut content_length: Option<u64> = None;
    let mut content_type: Option<String> = None;
    let mut seen_length = false;
    let n = metadata.len();
    let mut i: usize = 0;
    while i < n
        invariant
            n == metadata@.len(),
            i <= n,
            metadata_view(kept@) == kept_metadata(metadata@.take(i as int)),
            seen_length == lookup_values(metadata@.take(i as int), CONTENT_LENGTH_KEY@) is Some,
            seen_length ==> content_length == stated_content_length(metadata@.take(i as int)),
            !seen_length ==> content_length is None,
            content_type matches Some(t) ==> stated_content_type(metadata@.take(i as int)) == Some(t@),
            content_type is None <==> stated_content_type(metadata@.take(i as int)) is None,
            sorted == strictly_increasing(metadata_keys(metadata@)),
            sorted ==> strictly_increasing(metadata_keys(kept@)),
            sorted ==> forall|a: int| #![trigger kept@[a]] 0 <= a < kept@.len() ==> exists|j: int| 0 <= j < i && #[trigger] metadata@[j].0@ == kept@[a].0@,
        decreases n - i,
    {
        let ghost pre = metadata@.take(i as int);
        let ghost cur = metadata@.take(i + 1);
        let key = &metadata[i].0;
        let values = &metadata[i].1;
        proof {
            assert(cur =~= pre.push(metadata@[i as int]));
            assert(cur.drop_last() =~= pre);
            lemma_lookup_push(pre, metadata@[i as int], CONTENT_LENGTH_KEY@);
            lemma_lookup_push(pre, metadata@[i as int], CONTENT_TYPE_KEY@);
            reveal_strlit("Content-Length");
            reveal_strlit("Content-Type");
            assert(CONTENT_LENGTH_KEY@.len() == 14);
            assert(CONTENT_TYPE_KEY@.len() == 12);
        }
        let is_length = str_eq(key.as_str(), CONTENT_LENGTH_KEY);
        let is_type = str_eq(key.as_str(), CONTENT_TYPE_KEY);
        if is_length {
            if !seen_length {
                seen_length = true;
                if values.len() > 0 {
                    content_length = parse_u64(values[0].as_str());
                }
            }
        } else if is_type {
            if content_type.is_none() {
                if values.len() > 0 {
                    content_type = Some(values[0].clone());
                } else {
                    content_type = Some(String::new());
                }
            }
        } else {
            let ghost before = kept@;
            let tv = truncate_values(values);
            kept.push((key.clone(), tv));
            proof {
                assert(metadata_view(kept@) =~= metadata_view(before).push(kept_entry(metadata@[i as int])));
                assert(kept@.drop_last() =~= before);
                if sorted {
                    let mk = metadata_keys(metadata@);
                    assert forall|a: int| #![trigger kept@[a]] 0 <= a < kept@.len() implies exists|j: int| 0 <= j < i + 1 && #[trigger] metadata@[j].0@ == kept@[a].0@ by {
                        if a < before.len() {
                            assert(kept@[a] == before[a]);
                        } else {
                            assert(metadata@[i as int].0@ == kept@[a].0@);
                        }
                    }
                    assert forall|a: int, b: int| 0 <= a < b < kept@.len() implies lex_lt(#[trigger] metadata_keys(kept@)[a], #[trigger] metadata_keys(kept@)[b]) by {
                        assert(kept@[a] == before[a]);
                        if b < before.len() {
                            assert(kept@[b] == before[b]);
                            assert(metadata_keys(before)[a] == metadata_keys(kept@)[a]);
                            assert(metadata_keys(before)[b] == metadata_keys(kept@)[b]);
                        } else {
                            let j = choose|j: int| 0 <= j < i && #[trigger] metadata@[j].0@ == before[a].0@;
                            assert(mk[j] == metadata@[j].0@);
                            assert(mk[i as int] == metadata@[i as int].0@);
                            assert(lex_lt(mk[j], mk[i as int]));
                        }
                    }
                }
            }
        }
        i = i + 1;
    }
    proof {
        assert(metadata@.take(n as int) =~= metadata@);
    }
    TikaResult { metadata: kept, _original_content_length: content_length, content_type, extracted_content }
}

/// The fields of a blob's mime type row that do not come from magika.
#[derive(Debug, Clone, PartialEq, Eq)]
pub struct MimeTypeFields {
    /// The sha3-256 hash of the blob.
    pub blob_sha3_256: String,
    /// The mime type found by libmagic.
    pub magic_mime: String,
    /// The content type found by tika, or empty.
    pub tika_mime: String,
    /// Whether tika extracted the metadata.
    pub tika_metadata_success: bool,
    /// Whether tika extracted the text content.
    pub tika_content_success: bool,
}

/// What processing one blob gives, besides its magika results.
pub struct ProcessedItem {
    /// The mime type row fields.
    pub mime: MimeTypeFields,
    /// The metadata rows.
    pub tika_meta_rows: Vec<BlobExtractedMetadataRow>,
    /// Where the extracted text was written, if it was.
    pub tika_content_path: Option<std::path::PathBuf>,
}

/// The content type tika found: the stated one, or empty.
pub open spec fn tika_mime_of(tika: Result<TikaResult, String>) -> Seq<char> {
    match tika {
        Ok(t) => match t.content_type {
            Some(c) => c@,
            None => Seq::empty(),
        },
        Err(_) => Seq::empty(),
    }
}

/// What processing a blob makes of the libmagic mime type and of what tika
/// gave: the mime type fields (metadata extracted when tika succeeded,
/// content extracted when its text was also written, tika's content type
/// or empty), the metadata rows (none when tika failed), and the path of
/// the extracted text.
pub fn process_item_rows(blob_sha3_256: String, magic_mime: String, tika: Result<TikaResult, String>) -> (r: ProcessedItem)
    ensures
        r.mime.blob_sha3_256 == blob_sha3_256,
        r.mime.magic_mime == magic_mime,
        r.mime.tika_metadata_success == (tika is Ok),
        r.mime.tika_content_success == (tika matches Ok(t) && t.extracted_content is Ok),
        r.mime.tika_mime@ == tika_mime_of(tika),
        r.tika_meta_rows@.map_values(|x: BlobExtractedMetadataRow| meta_row_view(x)) == match tika {
            Ok(t) => meta_rows_of(blob_sha3_256@, TIKA_PROVIDER@, t.metadata@),
            Err(_) => Seq::empty(),
        },
        r.tika_content_path == match tika {
            Ok(t) => match t.extracted_content {
                Ok(p) => Some(p),
                Err(_) => None::<std::path::PathBuf>,
            },
            Err(_) => None,
        },
{
    match tika {
        Ok(t) => {
            let rows = tika_meta_rows(&blob_sha3_256, &t.metadata);
            let tika_mime = match t.content_type {
                Some(c) => c,
                None => String::new(),
            };
            let (content_success, path) = match t.extracted_content {
                Ok(p) => (true, Some(p)),
                Err(_) => (false, None),
            };
            ProcessedItem {
                mime: MimeTypeFields {
                    blob_sha3_256,
                    magic_mime,
                    tika_mime,
                    tika_metadata_success: true,
                    tika_content_success: content_success,
                },
                tika_meta_rows: rows,
                tika_content_path: path,
            }
        },
        Err(_) => {
            let rows: Vec<BlobExtractedMetadataRow> = Vec::new();
            proof {
                assert(rows@.map_values(|x: BlobExtractedMetadataRow| meta_row_view(x)) =~= Seq::empty());
            }
            ProcessedItem {
                mime: MimeTypeFields {
                    blob_sha3_256,
                    magic_mime,
                    tika_mime: String::new(),
                    tika_metadata_success: false,
                    tika_content_success: false,
                },
                tika_meta_rows: rows,
                tika_content_path: None,
            }
        },
    }
}

/// Mime type rows gathered before they are written.
pub const MIME_TYPE_BATCH_ROWS: usize = 500;

/// Metadata rows gathered before they are written.
pub const META_BATCH_ROWS: usize = 300;

/// Content rows gathered before they are written.
pub const CONTENT_BATCH_ROWS: usize = 100;

/// Estimated size of the content rows above which they are written.
pub const CONTENT_BATCH_BYTES: i32 = 52428800;

/// Estimated size of a content row beyond its text.
pub const CONTENT_ROW_OVERHEAD: i32 = 1024;

/// The rows of processed items waiting to be written to the database, in
/// three batches; `M` is the type of the mime type rows. Each batch is
/// handed out to be written as soon as it is full.
pub struct ItemWriteBatches<M> {
    mime_type_rows: Vec<M>,
    tika_meta_rows: Vec<BlobExtractedMetadataRow>,
    tika_content_rows: Vec<BlobExtractedContentRow>,
    tika_content_total_size: i32,
}

impl<M> ItemWriteBatches<M> {
    /// The mime type rows waiting.
    pub closed spec fn pending_mime(&self) -> Seq<M> {
        self.mime_type_rows@
    }

    /// The metadata rows waiting.
    pub closed spec fn pending_meta(&self) -> Seq<BlobExtractedMetadataRow> {
        self.tika_meta_rows@
    }

    /// The content rows waiting.
    pub closed spec fn pending_content(&self) -> Seq<BlobExtractedContentRow> {
        self.tika_content_rows@
    }

    /// The estimated size of the content rows waiting.
    pub closed spec fn content_size(&self) -> int {
        self.tika_content_total_size as int
    }

    /// No batch is full: each waits below its limit.
    pub open spec fn below_limits(&self) -> bool {
        &&& self.pending_mime().len() < MIME_TYPE_BATCH_ROWS
        &&& self.pending_meta().len() < META_BATCH_ROWS
        &&& self.pending_content().len() < CONTENT_BATCH_ROWS
        &&& self.content_size() < CONTENT_BATCH_BYTES
    }

    /// Empty batches.
    pub fn new() -> (r: Self)
        ensures
            r.below_limits(),
            r.pending_mime() == Seq::<M>::empty(),
            r.pending_meta() == Seq::<BlobExtractedMetadataRow>::empty(),
            r.pending_content() == Seq::<BlobExtractedContentRow>::empty(),
            r.content_size() == 0,
    {
        ItemWriteBatches {
            mime_type_rows: Vec::new(),
            tika_meta_rows: Vec::new(),
            tika_content_rows: Vec::new(),
            tika_content_total_size: 0,
        }
    }

    /// The estimated size of the content rows waiting.
    pub fn content_total_size(&self) -> (r: i32)
        ensures
            r == self.content_size(),
    {
        self.tika_content_total_size
    }

    /// Adds the mime type row of an item; once 500 rows wait, hands them
    /// all out to be written.
    pub fn accept_mime_type_row(&mut self, row: M) -> (out: Option<Vec<M>>)
        ensures
            old(self).below_limits() ==> final(self).below_limits(),
            final(self).pending_meta() == old(self).pending_meta(),
            final(self).pending_content() == old(self).pending_content(),
            final(self).content_size() == old(self).content_size(),
            if old(self).pending_mime().len() + 1 >= MIME_TYPE_BATCH_ROWS {
                &&& out matches Some(v) && v@ == old(self).pending_mime().push(row)
                &&& final(self).pending_mime() == Seq::<M>::empty()
            } else {
                &&& out is None
                &&& final(self).pending_mime() == old(self).pending_mime().push(row)
            },
    {
        self.mime_type_rows.push(row);
        if self.mime_type_rows.len() >= MIME_TYPE_BATCH_ROWS {
            let mut out: Vec<M> = Vec::new();
            std::mem::swap(&mut out, &mut self.mime_type_rows);
            Some(out)
        } else {
            None
        }
    }

    /// Adds the metadata rows of an item; once 300 rows wait, hands them
    /// all out to be written.
    pub fn accept_meta_rows(&mut self, rows: Vec<BlobExtractedMetadataRow>) -> (out: Option<Vec<BlobExtractedMetadataRow>>)
        ensures
            old(self).below_limits() ==> final(self).below_limits(),
            final(self).pending_mime() == old(self).pending_mime(),
            final(self).pending_content() == old(self).pending_content(),
            final(self).content_size() == old(self).content_size(),
            if old(self).pending_meta().len() + rows@.len() >= META_BATCH_ROWS {
                &&& out matches Some(v) && v@ == old(self).pending_meta() + rows@
                &&& final(self).pending_meta() == Seq::<BlobExtractedMetadataRow>::empty()
            } else {
                &&& out is None
                &&& final(self).pending_meta() == old(self).pending_meta() + rows@
            },
    {
        let mut rows = rows;
        self.tika_meta_rows.append(&mut rows);
        if self.tika_meta_rows.len() >= META_BATCH_ROWS {
            let mut out: Vec<BlobExtractedMetadataRow> = Vec::new();
            std::mem::swap(&mut out, &mut self.tika_meta_rows);
            Some(out)
        } else {
            None
        }
    }

    /// Adds one content row, counting its length and a fixed overhead
    /// towards the batch size; once 100 rows wait or their size reaches
    /// 50 MiB, hands them all out to be written.
    pub fn accept_content_row(&mut self, row: BlobExtractedContentRow) -> (out: Option<Vec<BlobExtractedContentRow>>)
        requires
            row.content_length + CONTENT_ROW_OVERHEAD <= i32::MAX,
            i32::MIN <= old(self).content_size() + row.content_length + CONTENT_ROW_OVERHEAD <= i32::MAX,
        ensures
            old(self).below_limits() ==> final(self).below_limits(),
            final(self).pending_mime() == old(self).pending_mime(),
            final(self).pending_meta() == old(self).pending_meta(),
            ({
                let size = old(self).content_size() + row.content_length + CONTENT_ROW_OVERHEAD;
                if old(self).pending_content().len() + 1 >= CONTENT_BATCH_ROWS || size >= CONTENT_BATCH_BYTES {
                    &&& out matches Some(v) && v@ == old(self).pending_content().push(row)
                    &&& final(self).pending_content() == Seq::<BlobExtractedContentRow>::empty()
                    &&& final(self).content_size() == 0
                } else {
                    &&& out is None
                    &&& final(self).pending_content() == old(self).pending_content().push(row)
                    &&& final(self).content_size() == size
                }
            }),
    {
        let row_size: i32 = row.content_length + CONTENT_ROW_OVERHEAD;
        self.tika_content_total_size = self.tika_content_total_size + row_size;
        self.tika_content_rows.push(row);
        if self.tika_content_rows.len() >= CONTENT_BATCH_ROWS || self.tika_content_total_size >= CONTENT_BATCH_BYTES {
            let mut out: Vec<BlobExtractedContentRow> = Vec::new();
            std::mem::swap(&mut out, &mut self.tika_content_rows);
            self.tika_content_total_size = 0;
            Some(out)
        } else {
            None
        }
    }

    /// Adds the content rows of an item one after the other, handing out
    /// each batch that fills: the batches handed out, then the rows still
    /// waiting, are the rows that were waiting followed by the new ones.
    pub fn accept_content_rows(&mut self, rows: Vec<BlobExtractedContentRow>) -> (out: Vec<Vec<BlobExtractedContentRow>>)
        requires
            old(self).below_limits(),
            old(self).content_size() >= 0,
            forall|i: int| 0 <= i < rows@.len()
                ==> 0 <= (#[trigger] rows@[i]).content_length <= i32::MAX - CONTENT_ROW_OVERHEAD - CONTENT_BATCH_BYTES,
        ensures
            final(self).below_limits(),
            final(self).content_size() >= 0,
            final(self).pending_mime() == old(self).pending_mime(),
            final(self).pending_meta() == old(self).pending_meta(),
            flatten_vecs(out@) + final(self).pending_content() == old(self).pending_content() + rows@,
    {
        let ghost start = self.pending_content();
        let ghost all = rows@;
        let mut out: Vec<Vec<BlobExtractedContentRow>> = Vec::new();
        for row in it: rows.into_iter()
            invariant
                it.seq() == all,
                forall|i: int| 0 <= i < all.len()
                    ==> 0 <= (#[trigger] all[i]).content_length <= i32::MAX - CONTENT_ROW_OVERHEAD - CONTENT_BATCH_BYTES,
                self.below_limits(),
                self.content_size() >= 0,
                self.pending_mime() == old(self).pending_mime(),
                self.pending_meta() == old(self).pending_meta(),
                flatten_vecs(out@) + self.pending_content() == start + all.take(it.index() as int),
        {
            let ghost idx = it.index();
            let ghost before_out = out@;
            let ghost before_pending = self.pending_content();
            proof {
                assert(all[idx as int] == row);
                assert(all.take(idx + 1) =~= all.take(idx as int).push(row));
                assert(flatten_vecs(before_out) + before_pending == start + all.take(idx as int));
                assert(start + all.take(idx + 1) =~= (flatten_vecs(before_out) + before_pending).push(row));
            }
            let ghost row_v = row;
            match self.accept_content_row(row) {
                Some(v) => {
                    proof {
                        assert(v@ == before_pending.push(row_v));
                        assert(self.pending_content() == Seq::<BlobExtractedContentRow>::empty());
                    }
                    out.push(v);
                    proof {
                        assert(out@.drop_last() =~= before_out);
                        assert(flatten_vecs(out@) == flatten_vecs(before_out) + out@.last()@);
                        assert(flatten_vecs(out@) + self.pending_content() =~= start + all.take(idx + 1));
                    }
                },
                None => {
                    proof {
                        assert(self.pending_content() == before_pending.push(row_v));
                        assert(flatten_vecs(out@) + self.pending_content() =~= start + all.take(idx + 1));
                    }
                },
            }
        }
        proof {
            assert(all.take(all.len() as int) =~= all);
        }
        out
    }

    /// Adds the rows of one processed item (its mime type row, its
    /// metadata rows and its content rows), handing out each batch that
    /// fills. No row is lost, duplicated or reordered in any batch, and the
    /// batches stay below their limits.
    pub fn accept_item(
        &mut self,
        mime_row: M,
        meta_rows: Vec<BlobExtractedMetadataRow>,
        content_rows: Vec<BlobExtractedContentRow>,
    ) -> (out: (Option<Vec<M>>, Option<Vec<BlobExtractedMetadataRow>>, Vec<Vec<BlobExtractedContentRow>>))
        requires
            old(self).below_limits(),
            old(self).content_size() >= 0,
            forall|i: int| 0 <= i < content_rows@.len()
                ==> 0 <= (#[trigger] content_rows@[i]).content_length <= i32::MAX - CONTENT_ROW_OVERHEAD - CONTENT_BATCH_BYTES,
        ensures
            final(self).below_limits(),
            final(self).content_size() >= 0,
            batch_keeps_rows(old(self).pending_mime(), seq![mime_row], opt_view(out.0), final(self).pending_mime()),
            batch_keeps_rows(old(self).pending_meta(), meta_rows@, opt_view(out.1), final(self).pending_meta()),
            flatten_vecs(out.2@) + final(self).pending_content() == old(self).pending_content() + content_rows@,
    {
        let ghost mime_before = self.pending_mime();
        let ghost meta_before = self.pending_meta();
        let ghost meta_new = meta_rows@;
        let ghost mr = mime_row;
        let m = self.accept_mime_type_row(mime_row);
        proof {
            assert(mime_before.push(mr) =~= mime_before + seq![mr]);
            lemma_batch_step_keeps_rows(mime_before, seq![mr], opt_view(m), self.pending_mime(), MIME_TYPE_BATCH_ROWS as nat);
        }
        let t = self.accept_meta_rows(meta_rows);
        proof {
            lemma_batch_step_keeps_rows(meta_before, meta_new, opt_view(t), self.pending_meta(), META_BATCH_ROWS as nat);
        }
        let c = self.accept_content_rows(content_rows);
        (m, t, c)
    }

    /// Hands out all rows still waiting, batch by batch.
    pub fn finalize(self) -> (out: (Vec<M>, Vec<BlobExtractedMetadataRow>, Vec<BlobExtractedContentRow>))
        ensures
            out.0@ == self.pending_mime(),
            out.1@ == self.pending_meta(),
            out.2@ == self.pending_content(),
    {
        (self.mime_type_rows, self.tika_meta_rows, self.tika_content_rows)
    }
}

/// The rows of a batch handed out, if one was.
pub open spec fn opt_view<T>(o: Option<Vec<T>>) -> Option<Seq<T>> {
    match o {
        Some(v) => Some(v@),
        None => None,
    }
}

/// Whether nothing in a row sequence is lost: what was handed out, then
/// what waits after, is what waited before, then what was added.
pub open spec fn batch_keeps_rows<T>(before: Seq<T>, added: Seq<T>, out: Option<Seq<T>>, after: Seq<T>) -> bool {
    match out {
        Some(o) => o + after == before + added,
        None => after == before + added,
    }
}

/// A step of a batch that hands out everything once the batch reaches
/// `limit` rows loses no row, duplicates none and keeps their order, and
/// leaves fewer than `limit` rows waiting.
pub proof fn lemma_batch_step_keeps_rows<T>(before: Seq<T>, added: Seq<T>, out: Option<Seq<T>>, after: Seq<T>, limit: nat)
    requires
        if before.len() + added.len() >= limit {
            out == Some(before + added) && after == Seq::<T>::empty()
        } else {
            out is None && after == before + added
        },
    ensures
        batch_keeps_rows(before, added, out, after),
        after.len() < limit || (limit == 0 && after.len() == 0),
{
    if out is Some {
        assert((before + added) + Seq::<T>::empty() =~= before + added);
    }
}

/// Pages smaller than this are processed on the small page queue.
pub const SMALL_PAGE_THRESHOLD: i64 = 104857600;

/// The ids of the plan pages not yet started, among the small pages or
/// among the others, in order.
pub open spec fn pending_page_ids(pages: Seq<BlobProcessingPlan>, small: bool) -> Seq<i32>
    decreases pages.len(),
{
    if pages.len() == 0 {
        Seq::empty()
    } else {
        let rest = pending_page_ids(pages.drop_last(), small);
        let p = pages.last();
        if !p.is_started && (p.size_bytes < SMALL_PAGE_THRESHOLD) == small {
            rest.push(p.plan_page_id)
        } else {
            rest
        }
    }
}

/// Every id among the pending pages of one kind is the id of a page not
/// yet started and of that kind (under 100 MiB for the small ones, at
/// least 100 MiB for the others), and every page not yet started has its
/// id among the pending pages of its kind.
pub proof fn lemma_pending_pages_not_started(pages: Seq<BlobProcessingPlan>, small: bool)
    ensures
        forall|k: int| 0 <= k < pending_page_ids(pages, small).len() ==> exists|j: int| {
            &&& 0 <= j < pages.len()
            &&& #[trigger] pages[j].plan_page_id == #[trigger] pending_page_ids(pages, small)[k]
            &&& !pages[j].is_started
            &&& (pages[j].size_bytes < SMALL_PAGE_THRESHOLD) == small
        },
        forall|j: int| 0 <= j < pages.len() && !(#[trigger] pages[j]).is_started
            && (pages[j].size_bytes < SMALL_PAGE_THRESHOLD) == small
            ==> pending_page_ids(pages, small).contains(pages[j].plan_page_id),
        pending_page_ids(pages, small).len() <= pages.len(),
    decreases pages.len(),
{
    if pages.len() > 0 {
        let p = pages.drop_last();
        lemma_pending_pages_not_started(p, small);
        let rest = pending_page_ids(p, small);
        let cur = pending_page_ids(pages, small);
        let last = pages.len() - 1;
        assert(pages.last() == pages[last]);
        assert forall|k: int| 0 <= k < cur.len() implies exists|j: int| {
            &&& 0 <= j < pages.len()
            &&& #[trigger] pages[j].plan_page_id == #[trigger] cur[k]
            &&& !pages[j].is_started
            &&& (pages[j].size_bytes < SMALL_PAGE_THRESHOLD) == small
        } by {
            if k < rest.len() {
                assert(cur[k] == rest[k]);
                let j = choose|j: int| {
                    &&& 0 <= j < p.len()
                    &&& #[trigger] p[j].plan_page_id == #[trigger] rest[k]
                    &&& !p[j].is_started
                    &&& (p[j].size_bytes < SMALL_PAGE_THRESHOLD) == small
                };
                assert(pages[j] == p[j]);
            } else {
                assert(cur[k] == pages[last].plan_page_id);
            }
        }
        assert forall|j: int| 0 <= j < pages.len() && !(#[trigger] pages[j]).is_started
            && (pages[j].size_bytes < SMALL_PAGE_THRESHOLD) == small
            implies cur.contains(pages[j].plan_page_id) by {
            if j < last {
                assert(p[j] == pages[j]);
                assert(rest.contains(pages[j].plan_page_id));
                let k = choose|k: int| 0 <= k < rest.len() && rest[k] == pages[j].plan_page_id;
                assert(cur[k] == rest[k]);
            } else {
                assert(cur[cur.len() - 1] == pages[j].plan_page_id);
            }
        }
    }
}

/// Splits the plan pages not yet started into small pages (under 100 MiB)
/// and large pages, keeping their order.
pub fn split_plan_pages(pages: &Vec<BlobProcessingPlan>) -> (r: (Vec<i32>, Vec<i32>))
    ensures
        r.0@ == pending_page_ids(pages@, true),
        r.1@ == pending_page_ids(pages@, false),
        forall|k: int| 0 <= k < r.0@.len() ==> exists|j: int| 0 <= j < pages@.len()
            && #[trigger] pages@[j].plan_page_id == #[trigger] r.0@[k] && !pages@[j].is_started
            && pages@[j].size_bytes < SMALL_PAGE_THRESHOLD,
        forall|k: int| 0 <= k < r.1@.len() ==> exists|j: int| 0 <= j < pages@.len()
            && #[trigger] pages@[j].plan_page_id == #[trigger] r.1@[k] && !pages@[j].is_started
            && pages@[j].size_bytes >= SMALL_PAGE_THRESHOLD,
{
    let mut small: Vec<i32> = Vec::new();
    let mut large: Vec<i32> = Vec::new();
    let n = pages.len();
    let mut i: usize = 0;
    while i < n
        invariant
            n == pages@.len(),
            i <= n,
            small@ == pending_page_ids(pages@.take(i as int), true),
            large@ == pending_page_ids(pages@.take(i as int), false),
        decreases n - i,
    {
        let page = &pages[i];
        proof {
            assert(pages@.take(i + 1).drop_last() =~= pages@.take(i as int));
            assert(pages@.take(i + 1).last() == pages@[i as int]);
        }
        if !page.is_started {
            if page.size_bytes < SMALL_PAGE_THRESHOLD {
                small.push(page.plan_page_id);
            } else {
                large.push(page.plan_page_id);
            }
        }
        i = i + 1;
    }
    proof {
        assert(pages@.take(n as int) =~= pages@);
        lemma_pending_pages_not_started(pages@, true);
        lemma_pending_pages_not_started(pages@, false);
    }
    (small, large)
}

/// Arguments for processing a single plan page.
#[derive(Debug, Clone)]
pub struct ProcessPageArgs {
    /// The collection of the page.
    pub collection_id: CollectionId,
    /// The page.
    pub plan_page_id: i32,
    /// Whether the page is processed on the small page queue.
    pub page_is_small: bool,
}

/// Counts of the items of processed pages.
#[derive(Debug, Clone, Copy, PartialEq, Eq)]
pub struct ProcessPageResult {
    /// Items seen.
    pub item_count: u64,
    /// Items processed without error.
    pub item_success: u64,
    /// Items whose processing failed.
    pub item_errors: u64,
}

/// Every item counted is a success or an error.
pub open spec fn counts_balance(r: ProcessPageResult) -> bool {
    r.item_count == r.item_success + r.item_errors
}

impl Default for ProcessPageResult {
    fn default() -> (r: Self)
        ensures
            counts_balance(r),
            r.item_count == 0,
            r.item_success == 0,
            r.item_errors == 0,
    {
        ProcessPageResult { item_count: 0, item_success: 0, item_errors: 0 }
    }
}

impl ProcessPageResult {
    /// Counts one more item, a success or an error.
    pub fn record_item(&mut self, success: bool)
        requires
            old(self).item_count < u64::MAX,
            success ==> old(self).item_success < u64::MAX,
            !success ==> old(self).item_errors < u64::MAX,
        ensures
            final(self).item_count == old(self).item_count + 1,
            final(self).item_success == old(self).item_success + (if success { 1int } else { 0int }),
            final(self).item_errors == old(self).item_errors + (if success { 0int } else { 1int }),
            counts_balance(*old(self)) ==> counts_balance(*final(self)),
    {
        self.item_count = self.item_count + 1;
        if success {
            self.item_success = self.item_success + 1;
        } else {
            self.item_errors = self.item_errors + 1;
        }
    }

    /// Adds the counts of another result.
    pub fn add(&mut self, other: &ProcessPageResult)
        requires
            old(self).item_count + other.item_count <= u64::MAX,
            old(self).item_success + other.item_success <= u64::MAX,
            old(self).item_errors + other.item_errors <= u64::MAX,
        ensures
            final(self).item_count == old(self).item_count + other.item_count,
            final(self).item_success == old(self).item_success + other.item_success,
            final(self).item_errors == old(self).item_errors + other.item_errors,
            counts_balance(*old(self)) && counts_balance(*other) ==> counts_balance(*final(self)),
    {
        self.item_count = self.item_count + other.item_count;
        self.item_success = self.item_success + other.item_success;
        self.item_errors = self.item_errors + other.item_errors;
    }
}

/// Pages handled by one group of page workflows.
pub const PAGE_GROUP_SIZE: usize = 300;

/// How a group of plan pages is processed: each page on its own, or, for
/// many pages, as subgroups of 300 pages.
pub enum PageGroupPlan {
    /// Process each page, with these arguments.
    Pages(Vec<ProcessPageArgs>),
    /// Process each subgroup of pages as a group of its own.
    Groups(Vec<Vec<i32>>),
}

/// Decides how a group of pages is processed: under 300 pages, each page
/// on its own; otherwise in consecutive subgroups of 300 pages.
pub fn plan_page_group(collection_id: &CollectionId, pages: Vec<i32>, is_small: bool) -> (r: PageGroupPlan)
    ensures
        match r {
            PageGroupPlan::Pages(args) => {
                &&& pages@.len() < PAGE_GROUP_SIZE
                &&& args@.len() == pages@.len()
                &&& forall|i: int| 0 <= i < args@.len() ==> {
                    &&& (#[trigger] args@[i]).plan_page_id == pages@[i]
                    &&& args@[i].page_is_small == is_small
                    &&& args@[i].collection_id@ == collection_id@
                }
            },
            PageGroupPlan::Groups(groups) => {
                &&& pages@.len() >= PAGE_GROUP_SIZE
                &&& flatten_vecs(groups@) == pages@
                &&& forall|i: int| 0 <= i < groups@.len() - 1 ==> #[trigger] groups@[i]@.len() == PAGE_GROUP_SIZE
                &&& forall|i: int| 0 <= i < groups@.len() ==> #[trigger] groups@[i]@.len() > 0
                &&& groups@.last()@.len() <= PAGE_GROUP_SIZE
            },
        },
{
    if pages.len() < PAGE_GROUP_SIZE {
        let mut args: Vec<ProcessPageArgs> = Vec::new();
        let n = pages.len();
        let mut i: usize = 0;
        while i < n
            invariant
                n == pages@.len(),
                i <= n,
                args@.len() == i,
                forall|j: int| 0 <= j < i ==> {
                    &&& (#[trigger] args@[j]).plan_page_id == pages@[j]
                    &&& args@[j].page_is_small == is_small
                    &&& args@[j].collection_id@ == collection_id@
                },
            decreases n - i,
        {
            args.push(ProcessPageArgs { collection_id: collection_id.clone(), plan_page_id: pages[i], page_is_small: is_small });
            i = i + 1;
        }
        PageGroupPlan::Pages(args)
    } else {
        let groups = chunk_vec(&pages, PAGE_GROUP_SIZE);
        proof {
            assert(groups@.len() > 0) by {
                assert((pages@.len() + PAGE_GROUP_SIZE - 1) / PAGE_GROUP_SIZE as int >= 1);
            }
        }
        PageGroupPlan::Groups(groups)
    }
}

/// The outcome of processing a collection: how many small and large
/// pages there were, and the counts of each kind.
#[derive(Debug, Clone)]
pub struct CollectionProcessingResult {
    /// The collection.
    pub collection_id: CollectionId,
    /// Small pages processed.
    pub small_page_count: i32,
    /// Large pages processed.
    pub large_page_count: i32,
    /// Counts of the small pages.
    pub small_page_results: ProcessPageResult,
    /// Counts of the large pages.
    pub large_page_results: ProcessPageResult,
}

/// The outcome of processing a collection from its page lists and the
/// results of the two page groups (the page counts taken as `i32`, cut to
/// 32 bits).
pub fn collection_processing_result(
    collection_id: CollectionId,
    small_pages: &Vec<i32>,
    large_pages: &Vec<i32>,
    small_page_results: ProcessPageResult,
    large_page_results: ProcessPageResult,
) -> (r: CollectionProcessingResult)
    ensures
        r.collection_id == collection_id,
        r.small_page_count == small_pages@.len() as i32,
        r.large_page_count == large_pages@.len() as i32,
        r.small_page_results == small_page_results,
        r.large_page_results == large_page_results,
{
    CollectionProcessingResult {
        collection_id,
        small_page_count: small_pages.len() as i32,
        large_page_count: large_pages.len() as i32,
        small_page_results,
        large_page_results,
    }
}

/// The two directory levels under which a blob is processed: the first
/// three bytes of its hash, then the next three (the hash having char
/// boundaries there, as a hexadecimal hash has).
pub fn blob_temp_segments(blob_sha3_256: &str) -> (r: (String, String))
    requires
        is_char_boundary(encode_utf8(blob_sha3_256@), 3),
        is_char_boundary(encode_utf8(blob_sha3_256@), 6),
    ensures
        encode_utf8(r.0@) == encode_utf8(blob_sha3_256@).subrange(0, 3),
        encode_utf8(r.1@) == encode_utf8(blob_sha3_256@).subrange(3, 6),
{
    proof {
        encode_utf8_valid_utf8(blob_sha3_256@);
    }
    let (head, _) = blob_sha3_256.split_at(6);
    proof {
        let b = encode_utf8(blob_sha3_256@);
        assert(6 <= b.len());
        assert(encode_utf8(head@) == b.subrange(0, 6));
        assert(b.subrange(0, 6).subrange(0, 3) =~= b.subrange(0, 3));
        assert(b.subrange(0, 6).subrange(3, 6) =~= b.subrange(3, 6));
        valid_utf8_split(b, 6);
        is_char_boundary_iff_not_is_continuation_byte(b, 3);
        is_char_boundary_iff_not_is_continuation_byte(b.subrange(0, 6), 3);
        assert(b.subrange(0, 6)[3] == b[3]);
    }
    let (a, b) = head.split_at(3);
    (a.to_owned(), b.to_owned())
}

} // verus!
