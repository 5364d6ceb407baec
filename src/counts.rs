use vstd::prelude::*;
use vstd::string::*;
use vstd::std_specs::iter::IteratorSpec;
use vstd::utf8::*;

verus! {

/// The byte that ends a line.
pub const NEWLINE: u8 = 10;

/// Content that is not valid UTF-8 where text was needed.
#[derive(Debug, Clone, Copy, PartialEq, Eq, Structural)]
pub struct DecodeError;

/// Number of newline bytes in `b`.
pub open spec fn newline_count(b: Seq<u8>) -> nat
    decreases b.len(),
{
    if b.len() == 0 {
        0
    } else {
        newline_count(b.drop_last()) + if b.last() == NEWLINE { 1nat } else { 0nat }
    }
}

/// Number of lines in `b`: every newline ends one line, and a non-empty
/// fragment after the last newline counts as one more line.
pub open spec fn line_count(b: Seq<u8>) -> nat {
    if b.len() > 0 && b.last() != NEWLINE {
        newline_count(b) + 1
    } else {
        newline_count(b)
    }
}

/// A text has at most as many newlines as bytes.
proof fn lemma_newline_count_le_len(b: Seq<u8>)
    ensures
        newline_count(b) <= b.len(),
    decreases b.len(),
{
    if b.len() > 0 {
        lemma_newline_count_le_len(b.drop_last());
    }
}

/// A text has at most as many lines as bytes.
pub proof fn lemma_line_count_le_len(b: Seq<u8>)
    ensures
        line_count(b) <= b.len(),
{
    lemma_newline_count_le_len(b);
    if b.len() > 0 {
        lemma_newline_count_le_len(b.drop_last());
    }
}

/// Unicode `White_Space`: tab, line feed, vertical tab, form feed, carriage
/// return, space, next line, no-break space, ogham space mark, the spaces
/// U+2000 to U+200A, line and paragraph separators, narrow no-break space,
/// medium mathematical space and ideographic space.
pub open spec fn is_white_space(c: char) -> bool {
    let u = c as u32;
    ||| 0x09 <= u <= 0x0D
    ||| u == 0x20
    ||| u == 0x85
    ||| u == 0xA0
    ||| u == 0x1680
    ||| 0x2000 <= u <= 0x200A
    ||| u == 0x2028
    ||| u == 0x2029
    ||| u == 0x202F
    ||| u == 0x205F
    ||| u == 0x3000
}

/// Whether position `i` of `t` holds the first character of a word: a
/// character that is not white space, at the start or after white space.
pub open spec fn starts_word(t: Seq<char>, i: int) -> bool {
    !is_white_space(t[i]) && (i == 0 || is_white_space(t[i - 1]))
}

/// Number of maximal runs of non-white-space characters in `t`.
pub open spec fn word_count(t: Seq<char>) -> nat
    decreases t.len(),
{
    if t.len() == 0 {
        0
    } else {
        word_count(t.drop_last()) + if starts_word(t, t.len() - 1) { 1nat } else { 0nat }
    }
}

/// A text has at most as many words as characters.
pub proof fn lemma_word_count_le_len(t: Seq<char>)
    ensures
        word_count(t) <= t.len(),
    decreases t.len(),
{
    if t.len() > 0 {
        lemma_word_count_le_len(t.drop_last());
    }
}

/// Whether `c` is white space in the Unicode sense.
pub fn is_whitespace(c: char) -> (r: bool)
    ensures
        r == is_white_space(c),
{
    let u = c as u32;
    (0x09 <= u && u <= 0x0D) || u == 0x20 || u == 0x85 || u == 0xA0 || u == 0x1680 || (0x2000
        <= u && u <= 0x200A) || u == 0x2028 || u == 0x2029 || u == 0x202F || u == 0x205F || u
        == 0x3000
}

/// Relies on std::str::from_utf8: it succeeds exactly on valid UTF-8, and the
/// text it gives back is encoded by the same bytes.
#[verifier::external_body]
fn decode(content: &[u8]) -> (r: Option<&str>)
    ensures
        r is Some <==> valid_utf8(content@),
        r matches Some(t) ==> t.spec_bytes() == content@,
{
    std::str::from_utf8(content).ok()
}

/// The number of bytes in `content`.
pub fn count_bytes(content: &[u8]) -> (r: u64)
    ensures
        r == content@.len(),
{
    content.len() as u64
}

/// The number of lines in `content` (see `line_count`).
pub fn count_lines(content: &[u8]) -> (r: u64)
    ensures
        r == line_count(content@),
{
    let n = content.len();
    let mut lines: u64 = 0;
    let mut i: usize = 0;
    while i < n
        invariant
            n == content@.len(),
            i <= n,
            lines == newline_count(content@.subrange(0, i as int)),
            lines <= i,
            i > 0 && content@[i - 1] != NEWLINE ==> lines < i,
        decreases n - i,
    {
        assert(content@.subrange(0, i as int + 1).drop_last() =~= content@.subrange(0, i as int));
        if content[i] == NEWLINE {
            lines = lines + 1;
        }
        i = i + 1;
    }
    assert(content@.subrange(0, n as int) =~= content@);
    if n > 0 && content[n - 1] != NEWLINE {
        lines = lines + 1;
    }
    lines
}

/// Encoding text in UTF-8 takes at least one byte per character, and exactly
/// one byte per character precisely when every character is ASCII.
pub proof fn lemma_encoded_len(t: Seq<char>)
    ensures
        t.len() <= encode_utf8(t).len(),
        encode_utf8(t).len() == t.len() <==> forall|i: int|
            0 <= i < t.len() ==> #[trigger] (t[i] as u32) <= 0x7F,
    decreases t.len(),
{
    if t.len() > 0 {
        let rest = t.drop_first();
        lemma_encoded_len(rest);
        assert(encode_utf8(t) == encode_scalar(t[0] as u32) + encode_utf8(rest));
        assert forall|i: int| 0 <= i < rest.len() implies rest[i] == t[i + 1] by {}
        if encode_utf8(t).len() == t.len() {
            assert forall|i: int| 0 <= i < t.len() implies #[trigger] (t[i] as u32) <= 0x7F by {
                if i > 0 {
                    assert(rest[i - 1] as u32 <= 0x7F);
                }
            }
        }
        if forall|i: int| 0 <= i < t.len() ==> #[trigger] (t[i] as u32) <= 0x7F {
            assert(t[0] as u32 <= 0x7F);
            assert forall|i: int| 0 <= i < rest.len() implies #[trigger] (rest[i] as u32) <= 0x7F by {
                assert(t[i + 1] as u32 <= 0x7F);
            }
        }
    }
}

/// The number of words in `text` (see `word_count`).
fn words_in_text(text: &str) -> (r: u64)
    ensures
        r == word_count(text@),
{
    let bytes = text.as_bytes();
    let nb = bytes.len();
    let ghost t = text@;
    proof {
        lemma_encoded_len(t);
    }
    let mut it = text.chars();
    let mut words: u64 = 0;
    let mut prev_white = true;
    let ghost mut i: int = 0;
    loop
        invariant
            it.remaining() == t.subrange(i, t.len() as int),
            0 <= i <= t.len() <= nb,
            words == word_count(t.subrange(0, i)),
            words <= i,
            prev_white == (i == 0 || is_white_space(t[i - 1])),
        ensures
            i == t.len(),
            words == word_count(t.subrange(0, i)),
        decreases t.len() - i,
    {
        match it.next() {
            Some(c) => {
                assert(c == t[i]);
                assert(t.subrange(0, i + 1).drop_last() =~= t.subrange(0, i));
                let white = is_whitespace(c);
                if !white && prev_white {
                    words = words + 1;
                }
                prev_white = white;
                proof {
                    i = i + 1;
                }
            },
            None => {
                break ;
            },
        }
    }
    assert(t.subrange(0, t.len() as int) =~= t);
    words
}

/// The number of characters in `text`.
fn chars_in_text(text: &str) -> (r: u64)
    ensures
        r == text@.len(),
{
    let bytes = text.as_bytes();
    let nb = bytes.len();
    let ghost t = text@;
    proof {
        lemma_encoded_len(t);
    }
    let mut it = text.chars();
    let mut chars: u64 = 0;
    loop
        invariant
            it.remaining() == t.subrange(chars as int, t.len() as int),
            chars <= t.len() <= nb,
        ensures
            chars == t.len(),
        decreases t.len() - chars,
    {
        match it.next() {
            Some(_) => {
                chars = chars + 1;
            },
            None => {
                break ;
            },
        }
    }
    chars
}

/// The number of words in `content` read as UTF-8 text.
pub fn count_words(content: &[u8]) -> (r: Result<u64, DecodeError>)
    ensures
        r is Err <==> !valid_utf8(content@),
        r matches Ok(n) ==> n == word_count(decode_utf8(content@)),
{
    match decode(content) {
        Some(text) => {
            proof {
                encode_utf8_decode_utf8(text@);
            }
            Ok(words_in_text(text))
        },
        None => Err(DecodeError),
    }
}

/// The number of characters (Unicode scalar values) in `content` read as
/// UTF-8 text.
pub fn count_chars(content: &[u8]) -> (r: Result<u64, DecodeError>)
    ensures
        r is Err <==> !valid_utf8(content@),
        r matches Ok(n) ==> n == decode_utf8(content@).len(),
{
    match decode(content) {
        Some(text) => {
            proof {
                encode_utf8_decode_utf8(text@);
            }
            Ok(chars_in_text(text))
        },
        None => Err(DecodeError),
    }
}

/// Text never has more characters than bytes, and has as many only when
/// every character is encoded in a single byte.
pub proof fn lemma_chars_at_most_bytes(content: Seq<u8>)
    requires
        valid_utf8(content),
    ensures
        decode_utf8(content).len() <= content.len(),
        decode_utf8(content).len() == content.len() <==> forall|i: int|
            0 <= i < decode_utf8(content).len() ==> #[trigger] (decode_utf8(content)[i] as u32)
                <= 0x7F,
{
    decode_utf8_encode_utf8(content);
    lemma_encoded_len(decode_utf8(content));
}

/// Text made only of white space holds no word.
pub proof fn lemma_blank_has_no_words(p: Seq<char>)
    requires
        forall|i: int| 0 <= i < p.len() ==> is_white_space(#[trigger] p[i]),
    ensures
        word_count(p) == 0,
    decreases p.len(),
{
    if p.len() > 0 {
        lemma_blank_has_no_words(p.drop_last());
    }
}

/// Appending white space adds no word.
proof fn lemma_trailing_blank(t: Seq<char>, p: Seq<char>)
    requires
        forall|i: int| 0 <= i < p.len() ==> is_white_space(#[trigger] p[i]),
    ensures
        word_count(t + p) == word_count(t),
    decreases p.len(),
{
    if p.len() > 0 {
        assert((t + p).drop_last() =~= t + p.drop_last());
        lemma_trailing_blank(t, p.drop_last());
    } else {
        assert(t + p =~= t);
    }
}

/// Prepending white space adds no word.
proof fn lemma_leading_blank(p: Seq<char>, t: Seq<char>)
    requires
        forall|i: int| 0 <= i < p.len() ==> is_white_space(#[trigger] p[i]),
    ensures
        word_count(p + t) == word_count(t),
    decreases t.len(),
{
    if t.len() > 0 {
        assert((p + t).drop_last() =~= p + t.drop_last());
        lemma_leading_blank(p, t.drop_last());
        let n = (p + t).len() - 1;
        if t.len() == 1 && p.len() > 0 {
            assert(is_white_space((p + t)[n - 1]));
        }
    } else {
        assert(p + t =~= p);
        lemma_blank_has_no_words(p);
    }
}

/// Padding text with white space on either side does not change its number
/// of words.
pub proof fn lemma_padding_adds_no_words(pre: Seq<char>, t: Seq<char>, post: Seq<char>)
    requires
        forall|i: int| 0 <= i < pre.len() ==> is_white_space(#[trigger] pre[i]),
        forall|i: int| 0 <= i < post.len() ==> is_white_space(#[trigger] post[i]),
    ensures
        word_count(pre + t + post) == word_count(t),
{
    lemma_trailing_blank(pre + t, post);
    lemma_leading_blank(pre, t);
}

} // verus!
