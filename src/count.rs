//! The counting engine: bytes, characters, words and lines of a content.

use vstd::prelude::*;
use vstd::std_specs::iter::IteratorSpec;
use vstd::string::*;
use vstd::utf8::*;
use crate::text::{decode_lossy, is_white_space, lossy_utf8, white_space};

verus! {

/// The four counters of one content.
#[derive(Clone, Copy, Debug, PartialEq, Eq, Structural)]
pub struct Counts {
    pub bytes: usize,
    pub chars: usize,
    pub words: usize,
    pub lines: usize,
}

/// Number of line feeds in `t`.
pub open spec fn newline_count(t: Seq<char>) -> nat
    decreases t.len(),
{
    if t.len() == 0 {
        0
    } else {
        newline_count(t.drop_last()) + if t.last() == '\n' { 1nat } else { 0nat }
    }
}

/// A word starts at `i`: `t[i]` is not white space and follows white space
/// or the start of the text.
pub open spec fn starts_word(t: Seq<char>, i: int) -> bool {
    &&& !is_white_space(t[i])
    &&& (i == 0 || is_white_space(t[i - 1]))
}

/// Number of maximal runs of non-white-space characters in `t`.
pub open spec fn word_count(t: Seq<char>) -> nat
    decreases t.len(),
{
    if t.len() == 0 {
        0
    } else {
        word_count(t.drop_last()) + if starts_word(t, t.len() - 1) { 1nat } else { 0nat }
    }
}

/// The counters of a content whose raw bytes are `b`.
pub open spec fn content_counts(b: Seq<u8>) -> (nat, nat, nat, nat) {
    let t = lossy_utf8(b);
    (b.len(), t.len(), word_count(t), newline_count(t))
}

/// Whether `c` holds exactly the counters of the raw bytes `b`.
pub open spec fn counts_of(c: Counts, b: Seq<u8>) -> bool {
    content_counts(b) == (c.bytes as nat, c.chars as nat, c.words as nat, c.lines as nat)
}

/// Number of line-feed bytes (0x0A) in `b`.
pub open spec fn line_feed_bytes(b: Seq<u8>) -> nat
    decreases b.len(),
{
    if b.len() == 0 {
        0
    } else {
        line_feed_bytes(b.drop_last()) + if b.last() == 0x0Au8 { 1nat } else { 0nat }
    }
}

proof fn lemma_newlines_concat(a: Seq<char>, b: Seq<char>)
    ensures
        newline_count(a + b) == newline_count(a) + newline_count(b),
    decreases b.len(),
{
    if b.len() > 0 {
        assert((a + b).drop_last() =~= a + b.drop_last());
        lemma_newlines_concat(a, b.drop_last());
    } else {
        assert(a + b =~= a);
    }
}

proof fn lemma_line_feeds_concat(a: Seq<u8>, b: Seq<u8>)
    ensures
        line_feed_bytes(a + b) == line_feed_bytes(a) + line_feed_bytes(b),
    decreases b.len(),
{
    if b.len() > 0 {
        assert((a + b).drop_last() =~= a + b.drop_last());
        lemma_line_feeds_concat(a, b.drop_last());
    } else {
        assert(a + b =~= a);
    }
}

proof fn lemma_scalar_encoding(c: char)
    ensures
        encode_scalar(c as u32).len() >= 1,
        line_feed_bytes(encode_scalar(c as u32)) == if c == '\n' { 1nat } else { 0nat },
{
    broadcast use char_is_scalar;
    reveal_with_fuel(line_feed_bytes, 5);
    let u = c as u32;
    let e = encode_scalar(u);
    if has_width_1_encoding(u) {
        assert(((u & 0x7F) as u8 == 0x0Au8) == (u == 10)) by (bit_vector)
            requires u <= 0x7F;
        assert(e.drop_last() =~= Seq::<u8>::empty());
    } else {
        lemma_high_bit((u & 0x3F) as u8);
        lemma_high_bit(((u >> 6) & 0x3F) as u8);
        lemma_high_bit(((u >> 12) & 0x3F) as u8);
        lemma_high_bit(((u >> 6) & 0x1F) as u8);
        lemma_high_bit(((u >> 12) & 0x0F) as u8);
        lemma_high_bit(((u >> 18) & 0x7) as u8);
        assert(forall|i: int| 0 <= i < e.len() ==> e[i] != 0x0Au8);
        lemma_no_line_feed(e);
    }
}

proof fn lemma_high_bit(x: u8)
    by (bit_vector)
    ensures
        (0x80u8 | x) != 0x0Au8,
        (0xC0u8 | x) != 0x0Au8,
        (0xE0u8 | x) != 0x0Au8,
        (0xF0u8 | x) != 0x0Au8,
{
}

proof fn lemma_no_line_feed(b: Seq<u8>)
    requires
        forall|i: int| 0 <= i < b.len() ==> b[i] != 0x0Au8,
    ensures
        line_feed_bytes(b) == 0,
    decreases b.len(),
{
    if b.len() > 0 {
        lemma_no_line_feed(b.drop_last());
    }
}

/// The UTF-8 encoding of a text holds at least one byte per character,
/// and one line-feed byte per line feed of the text.
proof fn lemma_encoding_counts(t: Seq<char>)
    ensures
        encode_utf8(t).len() >= t.len(),
        line_feed_bytes(encode_utf8(t)) == newline_count(t),
    decreases t.len(),
{
    if t.len() > 0 {
        let rest = t.drop_first();
        lemma_encoding_counts(rest);
        lemma_scalar_encoding(t[0]);
        lemma_line_feeds_concat(encode_scalar(t[0] as u32), encode_utf8(rest));
        assert(t =~= seq![t[0]] + rest);
        lemma_newlines_concat(seq![t[0]], rest);
        reveal_with_fuel(newline_count, 2);
        assert(seq![t[0]].drop_last() =~= Seq::<char>::empty());
    }
}

proof fn lemma_counts_bounded(t: Seq<char>)
    ensures
        word_count(t) <= t.len(),
        newline_count(t) <= t.len(),
    decreases t.len(),
{
    if t.len() > 0 {
        lemma_counts_bounded(t.drop_last());
    }
}

/// Joining two texts where white space stands at the seam, or where one of
/// them is empty, gives as many words as the two texts together.
pub proof fn lemma_words_concat(a: Seq<char>, b: Seq<char>)
    requires
        a.len() == 0 || b.len() == 0 || is_white_space(a.last()) || is_white_space(b[0]),
    ensures
        word_count(a + b) == word_count(a) + word_count(b),
    decreases b.len(),
{
    if b.len() == 0 {
        assert(a + b =~= a);
    } else if b.len() == 1 {
        assert((a + b).drop_last() =~= a);
        assert(b.drop_last() =~= Seq::<char>::empty());
    } else {
        let ab = a + b;
        assert(ab.drop_last() =~= a + b.drop_last());
        lemma_words_concat(a, b.drop_last());
        assert(ab[ab.len() - 1] == b[b.len() - 1]);
        assert(ab[ab.len() - 2] == b[b.len() - 2]);
    }
}

/// A non-empty text without white space is one word.
pub proof fn lemma_single_word(w: Seq<char>)
    requires
        w.len() > 0,
        forall|i: int| 0 <= i < w.len() ==> !is_white_space(#[trigger] w[i]),
    ensures
        word_count(w) == 1,
    decreases w.len(),
{
    if w.len() > 1 {
        let d = w.drop_last();
        assert(!is_white_space(w[w.len() - 2]));
        assert(forall|i: int| 0 <= i < d.len() ==> d[i] == w[i]);
        lemma_single_word(d);
        assert(!starts_word(w, w.len() - 1));
        assert(word_count(w) == word_count(d));
    } else {
        assert(w.drop_last() =~= Seq::<char>::empty());
        assert(!is_white_space(w[0]));
        assert(word_count(w.drop_last()) == 0);
        assert(starts_word(w, 0));
    }
}

/// A text made only of white space holds no word.
pub proof fn lemma_blank_no_words(s: Seq<char>)
    requires
        forall|i: int| 0 <= i < s.len() ==> is_white_space(#[trigger] s[i]),
    ensures
        word_count(s) == 0,
    decreases s.len(),
{
    if s.len() > 0 {
        lemma_blank_no_words(s.drop_last());
    }
}

/// Two words with white space between them count as two words, whatever
/// their lengths and the length of the white space.
pub proof fn lemma_two_words(w1: Seq<char>, gap: Seq<char>, w2: Seq<char>)
    requires
        w1.len() > 0,
        w2.len() > 0,
        gap.len() > 0,
        forall|i: int| 0 <= i < w1.len() ==> !is_white_space(#[trigger] w1[i]),
        forall|i: int| 0 <= i < w2.len() ==> !is_white_space(#[trigger] w2[i]),
        forall|i: int| 0 <= i < gap.len() ==> is_white_space(#[trigger] gap[i]),
    ensures
        word_count(w1 + gap + w2) == 2,
{
    lemma_single_word(w1);
    lemma_single_word(w2);
    lemma_blank_no_words(gap);
    lemma_words_concat(w1, gap);
    lemma_words_concat(w1 + gap, w2);
}

/// Counting the same content twice gives the same counters.
pub proof fn lemma_counts_repeatable(b: Seq<u8>, first: Counts, second: Counts)
    requires
        counts_of(first, b),
        counts_of(second, b),
    ensures
        first == second,
{
}

/// Characters, words and lines of an already decoded text; `bytes` is
/// taken as given.
pub fn count_text(text: &str, bytes: usize) -> (r: Counts)
    ensures
        r.bytes == bytes,
        r.chars == text@.len(),
        r.words == word_count(text@),
        r.lines == newline_count(text@),
{
    let n = text.unicode_len();
    let ghost t = text@;
    let mut chars: usize = 0;
    let mut words: usize = 0;
    let mut lines: usize = 0;
    let mut in_word = false;
    for c in it: text.chars()
        invariant
            it.seq() == t,
            n == t.len(),
            chars == it.index(),
            words == word_count(t.take(it.index() as int)),
            lines == newline_count(t.take(it.index() as int)),
            in_word == (it.index() > 0 && !is_white_space(t[it.index() - 1])),
    {
        let ghost i = it.index() as int;
        proof {
            assert(t.take(i + 1).drop_last() =~= t.take(i));
            lemma_counts_bounded(t.take(i));
        }
        chars = chars + 1;
        if c == '\n' {
            lines = lines + 1;
        }
        let ws = white_space(c);
        if !ws && !in_word {
            words = words + 1;
            in_word = true;
        } else if ws {
            in_word = false;
        }
    }
    assert(t.take(t.len() as int) =~= t);
    Counts { bytes, chars, words, lines }
}

/// Counts the raw content `content`: its length in bytes, and the
/// characters, words and lines of its lossy UTF-8 decoding.
pub fn count_content(content: &[u8]) -> (r: Counts)
    ensures
        counts_of(r, content@),
        r.bytes == content@.len(),
        valid_utf8(content@) ==> r.chars == decode_utf8(content@).len(),
        valid_utf8(content@) ==> r.chars <= r.bytes,
        valid_utf8(content@) ==> r.lines == line_feed_bytes(content@),
{
    let text = decode_lossy(content);
    proof {
        if valid_utf8(content@) {
            decode_utf8_encode_utf8(content@);
            lemma_encoding_counts(decode_utf8(content@));
        }
    }
    count_text(text.as_str(), content.len())
}

} // verus!
