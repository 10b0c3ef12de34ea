//! Splitting extracted text into paragraphs of bounded size: decoded text
//! is gathered into chunks of a minimum size, and the gathered text is cut
//! where a text splitter places the start of its last chunk below the
//! maximum size. No text is lost, added or reordered on the way.

use vstd::prelude::*;
use vstd::string::*;
use vstd::utf8::*;

use crate::identifier::{str_byte_len, utf8_len};

verus! {

/// The UTF-8 encoding of a concatenation is the concatenation of the
/// encodings.
pub proof fn lemma_encode_utf8_concat(a: Seq<char>, b: Seq<char>)
    ensures
        encode_utf8(a + b) == encode_utf8(a) + encode_utf8(b),
    decreases a.len(),
{
    if a.len() == 0 {
        assert(a + b =~= b);
        assert(encode_utf8(a) =~= Seq::<u8>::empty());
        assert(Seq::<u8>::empty() + encode_utf8(b) =~= encode_utf8(b));
    } else {
        assert((a + b)[0] == a[0]);
        assert((a + b).drop_first() =~= a.drop_first() + b);
        lemma_encode_utf8_concat(a.drop_first(), b);
        assert(encode_scalar(a[0] as u32) + (encode_utf8(a.drop_first()) + encode_utf8(b))
            =~= (encode_scalar(a[0] as u32) + encode_utf8(a.drop_first())) + encode_utf8(b));
    }
}

/// Texts with the same UTF-8 encoding are the same text.
pub proof fn lemma_encode_utf8_injective(a: Seq<char>, b: Seq<char>)
    requires
        encode_utf8(a) == encode_utf8(b),
    ensures
        a == b,
{
    encode_utf8_decode_utf8(a);
    encode_utf8_decode_utf8(b);
}

/// Gathers decoded text into chunks of at least `chunk_size` bytes.
pub struct Utf8ChunkBuffer {
    buf: String,
    chunk_size: usize,
}

impl Utf8ChunkBuffer {
    /// The text gathered and not yet handed out.
    pub closed spec fn pending(&self) -> Seq<char> {
        self.buf@
    }

    /// The size in bytes at which gathered text is handed out.
    pub closed spec fn chunk_size(&self) -> nat {
        self.chunk_size as nat
    }

    /// An empty buffer.
    pub fn new(chunk_size: usize) -> (r: Self)
        ensures
            r.pending() == Seq::<char>::empty(),
            r.chunk_size() == chunk_size,
    {
        Utf8ChunkBuffer { buf: String::new(), chunk_size }
    }

    /// Adds decoded text; once the gathered text takes at least the chunk
    /// size in bytes, hands it all out.
    pub fn push(&mut self, piece: &str) -> (out: Option<String>)
        ensures
            final(self).chunk_size() == old(self).chunk_size(),
            if utf8_len(old(self).pending() + piece@) >= old(self).chunk_size() {
                &&& out matches Some(s) && s@ == old(self).pending() + piece@
                &&& final(self).pending() == Seq::<char>::empty()
            } else {
                &&& out is None
                &&& final(self).pending() == old(self).pending() + piece@
            },
    {
        self.buf.append(piece);
        if str_byte_len(self.buf.as_str()) >= self.chunk_size {
            let mut out = String::new();
            std::mem::swap(&mut out, &mut self.buf);
            Some(out)
        } else {
            None
        }
    }

    /// Ends the text: hands out what is gathered, unless it is empty.
    pub fn finish(self) -> (out: Option<String>)
        ensures
            if self.pending().len() == 0 {
                out is None
            } else {
                out matches Some(s) && s@ == self.pending()
            },
    {
        if self.buf.unicode_len() == 0 {
            None
        } else {
            Some(self.buf)
        }
    }
}

/// The offsets a text splitter gave at which a paragraph of the text
/// whose UTF-8 encoding is `bytes` may end: those below `max` that fall on
/// a char boundary, in order.
pub open spec fn offsets_below(offsets: Seq<usize>, max: usize, bytes: Seq<u8>) -> Seq<usize>
    decreases offsets.len(),
{
    if offsets.len() == 0 {
        Seq::empty()
    } else if offsets.last() < max && is_char_boundary(bytes, offsets.last() as int) {
        offsets_below(offsets.drop_last(), max, bytes).push(offsets.last())
    } else {
        offsets_below(offsets.drop_last(), max, bytes)
    }
}

proof fn lemma_offsets_below_from(offsets: Seq<usize>, max: usize, bytes: Seq<u8>)
    ensures
        forall|j: int| 0 <= j < offsets_below(offsets, max, bytes).len() ==> #[trigger] offsets_below(offsets, max, bytes)[j] < max
            && is_char_boundary(bytes, offsets_below(offsets, max, bytes)[j] as int),
    decreases offsets.len(),
{
    if offsets.len() > 0 {
        lemma_offsets_below_from(offsets.drop_last(), max, bytes);
        let prev = offsets_below(offsets.drop_last(), max, bytes);
        let cur = offsets_below(offsets, max, bytes);
        let x = offsets.last();
        assert forall|j: int| 0 <= j < cur.len() implies #[trigger] cur[j] < max && is_char_boundary(bytes, cur[j] as int) by {
            if j < prev.len() {
                assert(cur[j] == prev[j]);
                assert(prev[j] < max && is_char_boundary(bytes, prev[j] as int));
            } else {
                assert(cur[j] == x);
            }
        }
    }
}

/// Where the gathered text, encoded as `bytes`, is cut given the chunk
/// offsets a text splitter found in it: at the last usable offset (below
/// the maximum size, on a char boundary), when there are at least two such
/// offsets and the last is not the start; otherwise nowhere.
pub open spec fn cut_offset(offsets: Seq<usize>, max: usize, bytes: Seq<u8>) -> Option<usize> {
    let below = offsets_below(offsets, max, bytes);
    if below.len() <= 1 || below.last() == 0 {
        None
    } else {
        Some(below.last())
    }
}

/// The UTF-8 length of one character: one to four bytes.
proof fn lemma_one_char_len(c: char)
    ensures
        utf8_len(seq![c]) == encode_scalar(c as u32).len(),
        1 <= utf8_len(seq![c]) <= 4,
{
    assert(seq![c].drop_first() =~= Seq::<char>::empty());
    assert(seq![c][0] == c);
    assert(encode_utf8(Seq::<char>::empty()) =~= Seq::<u8>::empty());
    assert(encode_scalar(c as u32) + Seq::<u8>::empty() =~= encode_scalar(c as u32));
}

/// Every nonempty text takes at least one byte, and one character at most
/// four.
pub proof fn lemma_utf8_len_bounds(s: Seq<char>)
    ensures
        s.len() > 0 ==> utf8_len(s) > 0,
        s.len() == 1 ==> utf8_len(s) <= 4,
{
    if s.len() > 0 {
        lemma_one_char_len(s[0]);
        assert(s =~= seq![s[0]] + s.drop_first());
        lemma_encode_utf8_concat(seq![s[0]], s.drop_first());
        if s.len() == 1 {
            assert(s =~= seq![s[0]]);
        }
    }
}

proof fn lemma_take_one_more(s: Seq<char>, i: int)
    requires
        0 <= i < s.len(),
    ensures
        utf8_len(s.take(i + 1)) == utf8_len(s.take(i)) + utf8_len(seq![s[i]]),
{
    assert(s.take(i + 1) =~= s.take(i) + seq![s[i]]);
    lemma_encode_utf8_concat(s.take(i), seq![s[i]]);
}

/// The number of bytes of the UTF-8 encoding of `c`.
fn char_utf8_width(c: char) -> (w: usize)
    ensures
        w == utf8_len(seq![c]),
        1 <= w <= 4,
{
    proof {
        lemma_one_char_len(c);
        char_is_scalar(c);
    }
    let u = c as u32;
    if u < 0x80 {
        1
    } else if u < 0x800 {
        2
    } else if u < 0x10000 {
        3
    } else {
        4
    }
}

/// Splits gathered text into paragraphs of about `min_size` to `max_size`
/// bytes, at offsets that a text splitter finds.
pub struct ParagraphSplitter {
    leftover: String,
    min_size: usize,
    max_size: usize,
    chunk_size_bytes: i32,
    read: Ghost<Seq<char>>,
    given: Ghost<Seq<char>>,
}

impl ParagraphSplitter {
    /// The splitter's consistency: what was handed out, then what waits,
    /// is all that was read.
    pub closed spec fn wf(&self) -> bool {
        &&& self.given@ + self.leftover@ == self.read@
        &&& self.max_size <= i32::MAX
    }

    /// All text added so far, in order.
    pub closed spec fn read(&self) -> Seq<char> {
        self.read@
    }

    /// All paragraphs handed out so far, joined in order.
    pub closed spec fn given(&self) -> Seq<char> {
        self.given@
    }

    /// The text gathered and not yet handed out.
    pub closed spec fn pending(&self) -> Seq<char> {
        self.leftover@
    }

    /// The size in bytes at which the gathered text is split.
    pub closed spec fn min_size_spec(&self) -> nat {
        self.min_size as nat
    }

    /// The largest offset at which a paragraph may end.
    pub closed spec fn max_size_spec(&self) -> nat {
        self.max_size as nat
    }

    /// The size of the chunks in which the text is read.
    pub closed spec fn chunk_size_spec(&self) -> int {
        self.chunk_size_bytes as int
    }

    /// A splitter for paragraphs of at most `paragraph_size_bytes` bytes,
    /// split once three quarters of that gathered; the text is read in
    /// chunks of twice that size.
    pub fn new(paragraph_size_bytes: i32) -> (r: Self)
        requires
            0 <= paragraph_size_bytes <= i32::MAX / 2,
        ensures
            r.wf(),
            r.pending() == Seq::<char>::empty(),
            r.read() == Seq::<char>::empty(),
            r.given() == Seq::<char>::empty(),
            r.min_size_spec() == paragraph_size_bytes * 3 / 4,
            r.max_size_spec() == paragraph_size_bytes,
            r.chunk_size_spec() == paragraph_size_bytes * 2,
    {
        let p = paragraph_size_bytes as usize;
        ParagraphSplitter {
            leftover: String::new(),
            min_size: p * 3 / 4,
            max_size: p,
            chunk_size_bytes: paragraph_size_bytes * 2,
            read: Ghost(Seq::empty()),
            given: Ghost(Seq::empty()),
        }
    }

    /// The size in bytes at which the gathered text is split.
    pub fn min_size(&self) -> (r: usize)
        ensures
            r == self.min_size_spec(),
    {
        self.min_size
    }

    /// The largest offset at which a paragraph may end.
    pub fn max_size(&self) -> (r: usize)
        ensures
            r == self.max_size_spec(),
    {
        self.max_size
    }

    /// The size of the chunks in which the text is read.
    pub fn chunk_size_bytes(&self) -> (r: i32)
        ensures
            r == self.chunk_size_spec(),
    {
        self.chunk_size_bytes
    }

    /// The text gathered and not yet handed out.
    pub fn pending_text(&self) -> (r: &str)
        ensures
            r@ == self.pending(),
    {
        self.leftover.as_str()
    }

    /// Adds a chunk of text; tells whether the gathered text now takes at
    /// least the minimum size, so that it is to be split.
    pub fn push_chunk(&mut self, chunk: &str) -> (split: bool)
        requires
            old(self).wf(),
        ensures
            final(self).wf(),
            final(self).pending() == old(self).pending() + chunk@,
            final(self).read() == old(self).read() + chunk@,
            final(self).given() == old(self).given(),
            final(self).min_size_spec() == old(self).min_size_spec(),
            final(self).max_size_spec() == old(self).max_size_spec(),
            final(self).chunk_size_spec() == old(self).chunk_size_spec(),
            split == (utf8_len(old(self).pending() + chunk@) >= old(self).min_size_spec()),
    {
        let mut text = String::new();
        std::mem::swap(&mut text, &mut self.leftover);
        text.append(chunk);
        let ghost new_read = self.read@ + chunk@;
        proof {
            assert(self.given@ + text@ =~= new_read);
        }
        self.leftover = text;
        self.read = Ghost(new_read);
        str_byte_len(self.leftover.as_str()) >= self.min_size
    }

    /// Whether the gathered text is still longer than the maximum size.
    pub fn needs_final_split(&self) -> (r: bool)
        ensures
            r == (utf8_len(self.pending()) > self.max_size_spec()),
    {
        str_byte_len(self.leftover.as_str()) > self.max_size
    }

    /// Cuts the gathered text given the byte offsets at which a text
    /// splitter starts its chunks of it: at the last offset below the
    /// maximum size that falls on a char boundary, when there are two such
    /// offsets or more and the last is not the start. Hands out the text
    /// before the cut and keeps the rest.
    pub fn split_at_offsets(&mut self, offsets: &Vec<usize>) -> (out: Option<String>)
        requires
            old(self).wf(),
        ensures
            final(self).wf(),
            final(self).min_size_spec() == old(self).min_size_spec(),
            final(self).max_size_spec() == old(self).max_size_spec(),
            final(self).chunk_size_spec() == old(self).chunk_size_spec(),
            final(self).read() == old(self).read(),
            match cut_offset(offsets@, old(self).max_size_spec() as usize, encode_utf8(old(self).pending())) {
                None => out is None && final(self).pending() == old(self).pending()
                    && final(self).given() == old(self).given(),
                Some(k) => out matches Some(p) && {
                    &&& p@ + final(self).pending() == old(self).pending()
                    &&& final(self).given() == old(self).given() + p@
                    &&& encode_utf8(p@) == encode_utf8(old(self).pending()).subrange(0, k as int)
                    &&& 0 < k <= encode_utf8(old(self).pending()).len()
                    &&& k < old(self).max_size_spec()
                    &&& utf8_len(p@) == k
                    &&& p@.len() > 0
                },
            },
    {
        let ghost bytes = encode_utf8(self.leftover@);
        let mut below: Vec<usize> = Vec::new();
        let n = offsets.len();
        let mut i: usize = 0;
        while i < n
            invariant
                n == offsets@.len(),
                i <= n,
                bytes == encode_utf8(self.leftover@),
                below@ == offsets_below(offsets@.take(i as int), self.max_size, bytes),
            decreases n - i,
        {
            proof {
                assert(offsets@.take(i + 1).drop_last() =~= offsets@.take(i as int));
                assert(offsets@.take(i + 1).last() == offsets@[i as int]);
            }
            if offsets[i] < self.max_size && self.leftover.as_str().is_char_boundary(offsets[i]) {
                below.push(offsets[i]);
            }
            i = i + 1;
        }
        proof {
            assert(offsets@.take(n as int) =~= offsets@);
        }
        if below.len() <= 1 {
            return None;
        }
        let k = below[below.len() - 1];
        if k == 0 {
            return None;
        }
        proof {
            lemma_offsets_below_from(offsets@, self.max_size, bytes);
            let j = below@.len() - 1;
            assert(below@[j] == k);
        }
        let ghost whole = self.leftover@;
        let (left, right) = self.leftover.as_str().split_at(k);
        let left_owned = left.to_owned();
        let right_owned = right.to_owned();
        proof {
            encode_utf8_valid_utf8(whole);
            assert(is_char_boundary(bytes, k as int));
            assert(k <= bytes.len());
            assert(encode_utf8(left_owned@) == bytes.subrange(0, k as int));
            assert(encode_utf8(right_owned@) == bytes.subrange(k as int, bytes.len() as int));
            assert(encode_utf8(left_owned@) + encode_utf8(right_owned@) =~= bytes);
            lemma_encode_utf8_concat(left_owned@, right_owned@);
            lemma_encode_utf8_injective(left_owned@ + right_owned@, whole);
            if left_owned@.len() == 0 {
                assert(encode_utf8(left_owned@) =~= Seq::<u8>::empty());
            }
        }
        let ghost new_given = self.given@ + left_owned@;
        proof {
            assert(new_given + right_owned@ =~= self.given@ + (left_owned@ + right_owned@));
        }
        self.leftover = right_owned;
        self.given = Ghost(new_given);
        Some(left_owned)
    }

    /// Cuts the gathered text where no usable offset is known: after the
    /// longest run of leading characters that takes at most the maximum
    /// size, or after the first character where even that one takes more.
    /// Hands out the text before the cut and keeps the rest.
    pub fn split_to_fit(&mut self) -> (out: String)
        requires
            old(self).wf(),
            old(self).pending().len() > 0,
        ensures
            final(self).wf(),
            final(self).min_size_spec() == old(self).min_size_spec(),
            final(self).max_size_spec() == old(self).max_size_spec(),
            final(self).chunk_size_spec() == old(self).chunk_size_spec(),
            final(self).read() == old(self).read(),
            out@.len() > 0,
            out@ + final(self).pending() == old(self).pending(),
            final(self).given() == old(self).given() + out@,
            utf8_len(out@) <= old(self).max_size_spec() || out@.len() == 1,
            out@.len() < old(self).pending().len()
                ==> utf8_len(old(self).pending().take(out@.len() as int + 1)) > old(self).max_size_spec(),
    {
        let ghost whole = self.leftover@;
        let n = self.leftover.unicode_len();
        let mut i: usize = 0;
        let mut acc: usize = 0;
        let mut stop = false;
        proof {
            assert(whole.take(0) =~= Seq::<char>::empty());
            assert(encode_utf8(Seq::<char>::empty()) =~= Seq::<u8>::empty());
        }
        while i < n && !stop
            invariant
                n == whole.len(),
                whole == self.leftover@,
                self.max_size <= i32::MAX,
                i <= n,
                acc == utf8_len(whole.take(i as int)),
                acc <= self.max_size,
                stop ==> i < n && utf8_len(whole.take(i + 1)) > self.max_size,
            decreases n - i + (if stop { 0int } else { 1int }),
        {
            let c = self.leftover.as_str().get_char(i);
            let w = char_utf8_width(c);
            proof {
                lemma_take_one_more(whole, i as int);
            }
            if acc + w > self.max_size {
                stop = true;
            } else {
                acc = acc + w;
                i = i + 1;
            }
        }
        let j = if i == 0 { 1 } else { i };
        proof {
            if i == 0 {
                lemma_take_one_more(whole, 0);
                if j < n {
                    lemma_take_one_more(whole, 1);
                }
            }
        }
        let left = self.leftover.as_str().substring_char(0, j).to_owned();
        let right = self.leftover.as_str().substring_char(j, n).to_owned();
        proof {
            assert(left@ =~= whole.take(j as int));
            assert(left@ + right@ =~= whole);
        }
        let ghost new_given = self.given@ + left@;
        proof {
            assert(new_given + right@ =~= self.given@ + (left@ + right@));
        }
        self.leftover = right;
        self.given = Ghost(new_given);
        left
    }

    /// Ends the text: hands out what is gathered, unless it is empty.
    pub fn finish(self) -> (out: Option<String>)
        requires
            self.wf(),
        ensures
            if self.pending().len() == 0 {
                out is None && self.given() == self.read()
            } else {
                out matches Some(s) && s@ == self.pending() && self.given() + s@ == self.read()
            },
    {
        if self.leftover.unicode_len() == 0 {
            proof {
                assert(self.given@ + self.leftover@ =~= self.given@);
            }
            None
        } else {
            Some(self.leftover)
        }
    }
}

/// The paragraphs handed out so far, joined in order and followed by the
/// text still waiting, give back exactly the text that was read: no text
/// is lost, added or moved.
pub proof fn lemma_paragraphs_rebuild_text(splitter: ParagraphSplitter)
    requires
        splitter.wf(),
    ensures
        splitter.given() + splitter.pending() == splitter.read(),
{
}

/// The concatenation of a sequence of strings.
pub open spec fn concat_strings(parts: Seq<String>) -> Seq<char>
    decreases parts.len(),
{
    if parts.len() == 0 {
        Seq::empty()
    } else {
        concat_strings(parts.drop_last()) + parts.last()@
    }
}

/// A paragraph as handed out: nonempty, and within `size` bytes unless it
/// is a single character that alone takes more.
pub open spec fn paragraph_fits(p: Seq<char>, size: int) -> bool {
    &&& p.len() > 0
    &&& (utf8_len(p) <= size || p.len() == 1)
}

/// `p` is the longest run of leading characters of `text` that takes at
/// most `max` bytes, or its first character where even that takes more.
pub open spec fn fitting_prefix(p: Seq<char>, text: Seq<char>, max: usize) -> bool {
    &&& p.len() > 0
    &&& (utf8_len(p) <= max || p.len() == 1)
    &&& (p.len() < text.len() ==> utf8_len(text.take(p.len() as int + 1)) > max)
}

/// `p` is what the cutting rule takes from the start of `text`, at least
/// three quarters of `max` bytes long, given the chunk offsets `offs` a
/// text splitter found in it: everything before the last usable offset
/// when there is one, else the fitting prefix.
pub open spec fn cut_from(p: Seq<char>, text: Seq<char>, offs: Seq<usize>, max: usize) -> bool {
    &&& p.len() <= text.len()
    &&& p == text.take(p.len() as int)
    &&& utf8_len(text) >= max * 3 / 4
    &&& match cut_offset(offs, max, encode_utf8(text)) {
        Some(k) => utf8_len(p) == k,
        None => fitting_prefix(p, text, max),
    }
}

/// `p` was cut by the rule from some text for which the splitter gave its
/// chunk offsets.
pub open spec fn cut_by_splitter<F: Fn(&str) -> Vec<usize>>(chunk_offsets: F, p: Seq<char>, max: usize) -> bool {
    exists|t: &str, offs: Vec<usize>| #[trigger] call_ensures(chunk_offsets, (t,), offs) && cut_from(p, t@, offs@, max)
}

proof fn lemma_cut_by_offsets<F: Fn(&str) -> Vec<usize>>(
    chunk_offsets: F,
    text: &str,
    offs: Vec<usize>,
    p: Seq<char>,
    rest: Seq<char>,
    max: usize,
)
    requires
        call_ensures(chunk_offsets, (text,), offs),
        p + rest == text@,
        utf8_len(text@) >= max * 3 / 4,
        match cut_offset(offs@, max, encode_utf8(text@)) {
            Some(k) => utf8_len(p) == k,
            None => fitting_prefix(p, text@, max),
        },
    ensures
        cut_by_splitter(chunk_offsets, p, max),
{
    assert(text@.take(p.len() as int) =~= p);
    assert(cut_from(p, text@, offs@, max));
}

/// Splits decoded text into paragraphs of at most `paragraph_size_bytes`
/// bytes where `chunk_offsets` (a text splitter) starts its chunks: the
/// text is gathered in chunks of twice that size, and gathered text of
/// at least three quarters of it is cut at the last chunk start below the
/// maximum; once the text ends, what is left is cut the same way while it
/// is too long (after as many whole characters as fit, where the splitter
/// offers no cut), and handed out last. The paragraphs, joined, are the
/// text; each is nonempty and at most `paragraph_size_bytes` bytes long
/// (when that size can hold any character, that is when it is 4 or more).
pub fn split_into_paragraphs<F: Fn(&str) -> Vec<usize>>(
    pieces: Vec<String>,
    paragraph_size_bytes: i32,
    chunk_offsets: F,
) -> (r: Vec<String>)
    requires
        0 <= paragraph_size_bytes <= i32::MAX / 2,
        forall|t: &str| call_requires(chunk_offsets, (t,)),
    ensures
        concat_strings(r@) == concat_strings(pieces@),
        forall|i: int| 0 <= i < r@.len() ==> paragraph_fits(#[trigger] r@[i]@, paragraph_size_bytes as int),
        paragraph_size_bytes >= 4 ==> forall|i: int| 0 <= i < r@.len()
            ==> 0 < utf8_len(#[trigger] r@[i]@) <= paragraph_size_bytes,
        forall|i: int| 0 <= i < r@.len() - 1
            ==> cut_by_splitter(chunk_offsets, #[trigger] r@[i]@, paragraph_size_bytes as usize),
{
    let mut splitter = ParagraphSplitter::new(paragraph_size_bytes);
    let mut buffer = Utf8ChunkBuffer::new(splitter.chunk_size_bytes() as usize);
    let mut out: Vec<String> = Vec::new();
    let ghost all = pieces@;
    for piece in it: pieces.into_iter()
        invariant
            it.seq() == all,
            splitter.wf(),
            splitter.max_size_spec() == paragraph_size_bytes,
            forall|t: &str| call_requires(chunk_offsets, (t,)),
            concat_strings(out@) == splitter.given(),
            splitter.read() + buffer.pending() == concat_strings(all.take(it.index() as int)),
            forall|i: int| 0 <= i < out@.len() ==> paragraph_fits(#[trigger] out@[i]@, paragraph_size_bytes as int),
            splitter.min_size_spec() == paragraph_size_bytes * 3 / 4,
            forall|i: int| 0 <= i < out@.len() ==> cut_by_splitter(chunk_offsets, #[trigger] out@[i]@, paragraph_size_bytes as usize),
    {
        let ghost idx = it.index();
        proof {
            assert(all.take(idx + 1).drop_last() =~= all.take(idx as int));
            assert(all.take(idx + 1).last() == piece);
        }
        let ghost read_before = splitter.read();
        let ghost pend_before = buffer.pending();
        match buffer.push(piece.as_str()) {
            Some(chunk) => {
                let split = splitter.push_chunk(chunk.as_str());
                if split {
                    let pt = splitter.pending_text();
                    let offsets = chunk_offsets(pt);
                    let ghost text = pt;
                    let ghost out_before = out@;
                    let ghost pend = splitter.pending();
                    match splitter.split_at_offsets(&offsets) {
                        Some(p) => {
                            proof {
                                lemma_cut_by_offsets(chunk_offsets, text, offsets, p@, splitter.pending(), paragraph_size_bytes as usize);
                            }
                            out.push(p);
                            proof {
                                assert(out@.drop_last() =~= out_before);
                            }
                        },
                        None => {},
                    }
                }
                proof {
                    assert(read_before + chunk@ + buffer.pending() =~= read_before + (pend_before + piece@));
                }
            },
            None => {
                proof {
                    assert(read_before + buffer.pending() =~= read_before + pend_before + piece@);
                }
            },
        }
    }
    proof {
        assert(all.take(all.len() as int) =~= all);
    }
    let ghost read_before = splitter.read();
    match buffer.finish() {
        Some(chunk) => {
            let split = splitter.push_chunk(chunk.as_str());
            if split {
                let pt = splitter.pending_text();
                let offsets = chunk_offsets(pt);
                let ghost text = pt;
                let ghost out_before = out@;
                match splitter.split_at_offsets(&offsets) {
                    Some(p) => {
                        proof {
                            lemma_cut_by_offsets(chunk_offsets, text, offsets, p@, splitter.pending(), paragraph_size_bytes as usize);
                        }
                        out.push(p);
                        proof {
                            assert(out@.drop_last() =~= out_before);
                        }
                    },
                    None => {},
                }
            }
        },
        None => {
            proof {
                assert(read_before =~= read_before + Seq::<char>::empty());
            }
        },
    }
    let ghost total = splitter.read();
    loop
        invariant
            splitter.wf(),
            splitter.read() == total,
            splitter.max_size_spec() == paragraph_size_bytes,
            forall|t: &str| call_requires(chunk_offsets, (t,)),
            concat_strings(out@) == splitter.given(),
            forall|i: int| 0 <= i < out@.len() ==> paragraph_fits(#[trigger] out@[i]@, paragraph_size_bytes as int),
            splitter.min_size_spec() == paragraph_size_bytes * 3 / 4,
            forall|i: int| 0 <= i < out@.len() ==> cut_by_splitter(chunk_offsets, #[trigger] out@[i]@, paragraph_size_bytes as usize),
        ensures
            splitter.wf(),
            splitter.read() == total,
            splitter.max_size_spec() == paragraph_size_bytes,
            concat_strings(out@) == splitter.given(),
            forall|i: int| 0 <= i < out@.len() ==> paragraph_fits(#[trigger] out@[i]@, paragraph_size_bytes as int),
            utf8_len(splitter.pending()) <= paragraph_size_bytes,
            forall|i: int| 0 <= i < out@.len() ==> cut_by_splitter(chunk_offsets, #[trigger] out@[i]@, paragraph_size_bytes as usize),
        decreases splitter.pending().len(),
    {
        if !splitter.needs_final_split() {
            break;
        }
        proof {
            if splitter.pending().len() == 0 {
                assert(encode_utf8(splitter.pending()) =~= Seq::<u8>::empty());
            }
        }
        let pt = splitter.pending_text();
        let offsets = chunk_offsets(pt);
        let ghost text = pt;
        let ghost out_before = out@;
        let ghost pending_before = splitter.pending();
        let p = match splitter.split_at_offsets(&offsets) {
            Some(p) => p,
            None => splitter.split_to_fit(),
        };
        proof {
            assert(p@ + splitter.pending() == pending_before);
            assert(splitter.pending().len() < pending_before.len());
            lemma_cut_by_offsets(chunk_offsets, text, offsets, p@, splitter.pending(), paragraph_size_bytes as usize);
        }
        out.push(p);
        proof {
            assert(out@.drop_last() =~= out_before);
        }
    }
    let ghost out_before = out@;
    proof {
        lemma_paragraphs_rebuild_text(splitter);
    }
    match splitter.finish() {
        Some(p) => {
            out.push(p);
            proof {
                assert(out@.drop_last() =~= out_before);
            }
        },
        None => {},
    }
    proof {
        assert forall|i: int| 0 <= i < out@.len() implies paragraph_size_bytes >= 4 ==> 0 < utf8_len(#[trigger] out@[i]@) <= paragraph_size_bytes by {
            assert(paragraph_fits(out@[i]@, paragraph_size_bytes as int));
            lemma_utf8_len_bounds(out@[i]@);
        }
    }
    out
}

} // verus!
