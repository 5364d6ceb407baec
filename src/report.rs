use vstd::prelude::*;
use vstd::string::*;
use vstd::utf8::*;

use crate::counts::{
    count_bytes, count_chars, count_lines, count_words, lemma_chars_at_most_bytes,
    lemma_line_count_le_len, lemma_word_count_le_len, line_count, word_count, DecodeError,
};
use crate::flags::Flags;
use crate::stream::LineStream;

verus! {

/// The counts of one source; a count that was not asked for is `None`.
#[derive(Debug, Clone, Copy, PartialEq, Eq, Structural)]
pub struct CountResult {
    pub lines: Option<u64>,
    pub words: Option<u64>,
    pub chars: Option<u64>,
    pub bytes: Option<u64>,
}

/// The counts of `content` that `flags` asks for, when those that need text
/// can read it as UTF-8.
pub open spec fn expected_counts(content: Seq<u8>, flags: Flags) -> CountResult {
    CountResult {
        lines: if flags.lines { Some(line_count(content) as u64) } else { None },
        words: if flags.words { Some(word_count(decode_utf8(content)) as u64) } else { None },
        chars: if flags.chars { Some(decode_utf8(content).len() as u64) } else { None },
        bytes: if flags.bytes { Some(content.len() as u64) } else { None },
    }
}

/// CountResult what `flags` asks for in `content`, after the default of no flags
/// is applied.
pub fn tally(content: &[u8], flags: Flags) -> (r: Result<CountResult, DecodeError>)
    ensures
        r is Err <==> flags.effective_spec().needs_text() && !valid_utf8(content@),
        r matches Ok(c) ==> c == expected_counts(content@, flags.effective_spec()),
{
    let f = flags.effective();
    let lines = if f.lines { Some(count_lines(content)) } else { None };
    tally_with_lines(content, f, lines)
}

/// CountResult what `flags` asks for in the content of `stream`; the line count is
/// the number of lines the stream was read in.
pub fn tally_stream(stream: &LineStream, flags: Flags) -> (r: Result<CountResult, DecodeError>)
    requires
        stream.wf(),
    ensures
        r is Err <==> flags.effective_spec().needs_text() && !valid_utf8(stream.content()),
        r matches Ok(c) ==> c == expected_counts(stream.content(), flags.effective_spec()),
{
    let f = flags.effective();
    let lines = if f.lines { Some(stream.line_reads()) } else { None };
    tally_with_lines(stream.bytes(), f, lines)
}

/// The rest of the counts, once the line count is known.
fn tally_with_lines(content: &[u8], f: Flags, lines: Option<u64>) -> (r: Result<
    CountResult,
    DecodeError,
>)
    requires
        lines == (if f.lines { Some(line_count(content@) as u64) } else { None::<u64> }),
    ensures
        r is Err <==> f.needs_text() && !valid_utf8(content@),
        r matches Ok(c) ==> c == expected_counts(content@, f),
{
    let words = if f.words {
        match count_words(content) {
            Ok(n) => Some(n),
            Err(e) => {
                return Err(e);
            },
        }
    } else {
        None
    };
    let chars = if f.chars {
        match count_chars(content) {
            Ok(n) => Some(n),
            Err(e) => {
                return Err(e);
            },
        }
    } else {
        None
    };
    let bytes = if f.bytes { Some(count_bytes(content)) } else { None };
    Ok(CountResult { lines, words, chars, bytes })
}

/// The decimal digit for `d`.
pub open spec fn digit_char(d: nat) -> char {
    seq!['0', '1', '2', '3', '4', '5', '6', '7', '8', '9'][d as int]
}

/// `n` written in decimal, without leading zeros.
pub open spec fn decimal(n: nat) -> Seq<char>
    decreases n,
{
    if n < 10 {
        seq![digit_char(n)]
    } else {
        decimal(n / 10).push(digit_char(n % 10))
    }
}

/// `parts` joined by single spaces.
pub open spec fn join(parts: Seq<Seq<char>>) -> Seq<char>
    decreases parts.len(),
{
    if parts.len() == 0 {
        Seq::empty()
    } else if parts.len() == 1 {
        parts[0]
    } else {
        join(parts.drop_last()) + seq![' '] + parts.last()
    }
}

/// The field for one count: its decimal form, or nothing when not asked for.
pub open spec fn field(n: Option<u64>) -> Seq<Seq<char>> {
    match n {
        Some(v) => seq![decimal(v as nat)],
        None => Seq::empty(),
    }
}

/// The fields of the report line: lines, words, characters and bytes in
/// that order, then the label if there is one.
pub open spec fn fields(c: CountResult, label: Option<Seq<char>>) -> Seq<Seq<char>> {
    field(c.lines) + field(c.words) + field(c.chars) + field(c.bytes) + match label {
        Some(l) => seq![l],
        None => Seq::empty(),
    }
}

/// The report line: its fields joined by single spaces.
pub open spec fn report_line(c: CountResult, label: Option<Seq<char>>) -> Seq<char> {
    join(fields(c, label))
}

/// The label of a source as text.
pub open spec fn label_view(label: Option<&str>) -> Option<Seq<char>> {
    match label {
        Some(l) => Some(l@),
        None => None,
    }
}

/// The decimal digit for `d`.
fn digit_str(d: u64) -> (r: &'static str)
    requires
        d < 10,
    ensures
        r@ == seq![digit_char(d as nat)],
{
    proof {
        reveal_strlit("0");
        reveal_strlit("1");
        reveal_strlit("2");
        reveal_strlit("3");
        reveal_strlit("4");
        reveal_strlit("5");
        reveal_strlit("6");
        reveal_strlit("7");
        reveal_strlit("8");
        reveal_strlit("9");
    }
    let r = if d == 0 {
        "0"
    } else if d == 1 {
        "1"
    } else if d == 2 {
        "2"
    } else if d == 3 {
        "3"
    } else if d == 4 {
        "4"
    } else if d == 5 {
        "5"
    } else if d == 6 {
        "6"
    } else if d == 7 {
        "7"
    } else if d == 8 {
        "8"
    } else {
        "9"
    };
    assert(r@ =~= seq![digit_char(d as nat)]);
    r
}

/// `n` written in decimal.
pub fn to_decimal(n: u64) -> (r: String)
    ensures
        r@ == decimal(n as nat),
    decreases n,
{
    if n < 10 {
        String::from_str(digit_str(n))
    } else {
        let mut s = to_decimal(n / 10);
        s.append(digit_str(n % 10));
        s
    }
}

/// Appends `part` to the line `out`, after a space unless it is the first
/// field.
fn push_field(out: &mut String, first: bool, part: &str, parts: Ghost<Seq<Seq<char>>>)
    requires
        old(out)@ == join(parts@),
        first == (parts@.len() == 0),
    ensures
        final(out)@ == join(parts@.push(part@)),
{
    let ghost all = parts@.push(part@);
    assert(all.drop_last() =~= parts@);
    if first {
        out.append(part);
        assert(old(out)@ + part@ =~= part@);
    } else {
        proof {
            reveal_strlit(" ");
        }
        out.append(" ");
        out.append(part);
        assert(old(out)@ + " "@ + part@ =~= join(parts@) + seq![' '] + all.last());
    }
}

/// Appends the field for `n`, if there is one; tells whether the line is
/// still without fields.
fn push_count(out: &mut String, n: Option<u64>, empty: bool, parts: Ghost<Seq<Seq<char>>>) -> (r:
    bool)
    requires
        old(out)@ == join(parts@),
        empty == (parts@.len() == 0),
    ensures
        final(out)@ == join(parts@ + field(n)),
        r == ((parts@ + field(n)).len() == 0),
{
    match n {
        Some(v) => {
            let d = to_decimal(v);
            push_field(out, empty, d.as_str(), parts);
            assert(parts@.push(d@) =~= parts@ + field(n));
            false
        },
        None => {
            assert(parts@ + field(n) =~= parts@);
            empty
        },
    }
}

/// The report line for `counts`: the counts that are present, in the order
/// lines, words, characters, bytes, then `label` if given, separated by
/// single spaces, with no line ending.
pub fn render(counts: &CountResult, label: Option<&str>) -> (r: String)
    ensures
        r@ == report_line(*counts, label_view(label)),
{
    let mut out = String::new();
    let ghost p0: Seq<Seq<char>> = Seq::empty();
    assert(out@ =~= join(p0));
    let empty = push_count(&mut out, counts.lines, true, Ghost(p0));
    let ghost p1 = p0 + field(counts.lines);
    let empty = push_count(&mut out, counts.words, empty, Ghost(p1));
    let ghost p2 = p1 + field(counts.words);
    let empty = push_count(&mut out, counts.chars, empty, Ghost(p2));
    let ghost p3 = p2 + field(counts.chars);
    let empty = push_count(&mut out, counts.bytes, empty, Ghost(p3));
    let ghost p4 = p3 + field(counts.bytes);
    match label {
        Some(l) => {
            push_field(&mut out, empty, l, Ghost(p4));
            assert(p4.push(l@) =~= fields(*counts, label_view(label)));
        },
        None => {
            assert(p4 =~= fields(*counts, label_view(label)));
        },
    }
    out
}

/// The report line depends on the content, the flags and the label alone:
/// counting the same unchanged content twice gives the same line.
pub proof fn lemma_report_repeatable(
    first: Seq<u8>,
    second: Seq<u8>,
    flags: Flags,
    label: Option<Seq<char>>,
)
    requires
        first == second,
    ensures
        report_line(expected_counts(first, flags.effective_spec()), label)
            == report_line(expected_counts(second, flags.effective_spec()), label),
{
}

/// With no flags, the line holds the lines, the words and the bytes, in that
/// order, then the label.
pub proof fn lemma_default_report(content: Seq<u8>, label: Seq<char>)
    requires
        valid_utf8(content),
        content.len() <= usize::MAX,
    ensures
        ({
            let none = Flags { lines: false, words: false, chars: false, bytes: false };
            report_line(expected_counts(content, none.effective_spec()), Some(label)) == decimal(
                line_count(content),
            ) + seq![' '] + decimal(word_count(decode_utf8(content))) + seq![' '] + decimal(
                content.len(),
            ) + seq![' '] + label
        }),
{
    let none = Flags { lines: false, words: false, chars: false, bytes: false };
    let c = expected_counts(content, none.effective_spec());
    lemma_line_count_le_len(content);
    lemma_chars_at_most_bytes(content);
    lemma_word_count_le_len(decode_utf8(content));
    let l = decimal(line_count(content));
    let w = decimal(word_count(decode_utf8(content)));
    let b = decimal(content.len());
    assert(c.lines == Some(line_count(content) as u64));
    assert(field(c.lines) == seq![l]);
    assert(field(c.words) == seq![w]);
    assert(field(c.bytes) == seq![b]);
    assert(field(c.chars) =~= Seq::<Seq<char>>::empty());
    let ps = fields(c, Some(label));
    assert(ps =~= seq![l, w, b, label]);
    assert(ps.drop_last() =~= seq![l, w, b]);
    assert(ps.drop_last().drop_last() =~= seq![l, w]);
    assert(ps.drop_last().drop_last().drop_last() =~= seq![l]);
    assert(join(seq![l]) == l);
    assert(join(seq![l, w]) == l + seq![' '] + w);
    assert(join(seq![l, w, b]) == l + seq![' '] + w + seq![' '] + b);
}

/// Empty content counts zero of everything, whatever is asked for.
pub proof fn lemma_empty_counts(flags: Flags)
    ensures
        valid_utf8(Seq::<u8>::empty()),
        ({
            let c = expected_counts(Seq::<u8>::empty(), flags.effective_spec());
            &&& c.lines is Some ==> c.lines == Some(0u64)
            &&& c.words is Some ==> c.words == Some(0u64)
            &&& c.chars is Some ==> c.chars == Some(0u64)
            &&& c.bytes is Some ==> c.bytes == Some(0u64)
        }),
{
    assert(decode_utf8(Seq::<u8>::empty()) =~= Seq::<char>::empty());
}

/// Content read line by line from a stream has as many lines as the same
/// content read from a file.
pub proof fn lemma_stream_lines_agree(stream: LineStream, content: Seq<u8>)
    requires
        stream.wf(),
        stream.content() == content,
    ensures
        stream.reads() == line_count(content),
{
}

} // verus!
