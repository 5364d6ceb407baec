use wordcount::counts::{count_bytes, count_chars, count_lines, count_words, is_whitespace, DecodeError};
use wordcount::flags::Flags;
use wordcount::report::{render, tally, tally_stream, to_decimal, CountResult};
use wordcount::stream::LineStream;

fn flags(lines: bool, words: bool, chars: bool, bytes: bool) -> Flags {
    Flags { lines, words, chars, bytes }
}

fn stream_of(lines: &[&str]) -> LineStream {
    let mut s = LineStream::new();
    for l in lines {
        s.push_line(l.as_bytes());
    }
    s
}

#[test]
fn bytes_is_buffer_length() {
    assert_eq!(count_bytes(b"hello world\nfoo\n"), 16);
    assert_eq!(count_bytes("h\u{e9}llo".as_bytes()), 6);
    assert_eq!(count_bytes(b""), 0);
}

#[test]
fn hello_world_scenario() {
    let c = b"hello world\nfoo\n";
    assert_eq!(count_bytes(c), 16);
    assert_eq!(count_lines(c), 2);
    assert_eq!(count_words(c), Ok(3));
    assert_eq!(count_chars(c), Ok(16));
}

#[test]
fn empty_content_counts_zero_for_every_flag_set() {
    for m in 0u8..16 {
        let f = flags(m & 1 != 0, m & 2 != 0, m & 4 != 0, m & 8 != 0);
        let c = tally(b"", f).unwrap();
        let e = f.effective();
        assert_eq!(c.lines, if e.lines { Some(0) } else { None });
        assert_eq!(c.words, if e.words { Some(0) } else { None });
        assert_eq!(c.chars, if e.chars { Some(0) } else { None });
        assert_eq!(c.bytes, if e.bytes { Some(0) } else { None });
    }
}

#[test]
fn unterminated_last_line_counts_the_same_from_file_and_stream() {
    assert_eq!(count_lines(b"a\nb"), 2);
    let s = stream_of(&["a\n", "b"]);
    assert_eq!(s.line_reads(), 2);
    assert_eq!(s.bytes(), b"a\nb");
    let only_lines = flags(true, false, false, false);
    assert_eq!(tally(b"a\nb", only_lines), tally_stream(&s, only_lines));
    assert_eq!(tally_stream(&s, only_lines).unwrap().lines, Some(2));
}

#[test]
fn lines_count_terminated_and_fragment() {
    assert_eq!(count_lines(b""), 0);
    assert_eq!(count_lines(b"\n"), 1);
    assert_eq!(count_lines(b"\n\n"), 2);
    assert_eq!(count_lines(b"abc"), 1);
    assert_eq!(count_lines(b"a\nb\n"), 2);
}

#[test]
fn stdin_words_only_has_no_label() {
    let s = stream_of(&["one two three\n"]);
    let c = tally_stream(&s, flags(false, true, false, false)).unwrap();
    assert_eq!(render(&c, None), "3");
}

#[test]
fn default_flags_give_lines_words_bytes_and_path() {
    let content = b"hello world\nfoo\n";
    let c = tally(content, flags(false, false, false, false)).unwrap();
    assert_eq!(c, CountResult { lines: Some(2), words: Some(3), chars: None, bytes: Some(16) });
    assert_eq!(render(&c, Some("notes.txt")), "2 3 16 notes.txt");
}

#[test]
fn fixed_order_whatever_the_flags() {
    let c = tally(b"ab cd\n", flags(true, true, true, true)).unwrap();
    assert_eq!(render(&c, Some("f")), "1 2 6 6 f");
    let c = tally(b"ab cd\n", flags(false, false, true, true)).unwrap();
    assert_eq!(render(&c, None), "6 6");
}

#[test]
fn running_twice_gives_the_same_line() {
    let content = "x y\n\u{e9}\n".as_bytes();
    let f = flags(true, true, true, true);
    let first = render(&tally(content, f).unwrap(), Some("p"));
    let second = render(&tally(content, f).unwrap(), Some("p"));
    assert_eq!(first, second);
    assert_eq!(first, "2 3 6 7 p");
}

#[test]
fn padding_adds_no_words() {
    assert_eq!(count_words(b"alpha beta"), Ok(2));
    assert_eq!(count_words(b"  \t\nalpha beta \r\n\x0b\x0c "), Ok(2));
    assert_eq!(count_words(b"   "), Ok(0));
}

#[test]
fn unicode_white_space_separates_words() {
    assert_eq!(count_words("a\u{a0}b\u{3000}c\u{2028}d".as_bytes()), Ok(4));
    assert_eq!(count_words("a\u{200b}b".as_bytes()), Ok(1));
    assert!(is_whitespace('\u{85}'));
    assert!(is_whitespace('\u{202f}'));
    assert!(!is_whitespace('x'));
    assert!(!is_whitespace('\u{200b}'));
}

#[test]
fn chars_count_scalar_values_not_bytes() {
    let t = "h\u{e9}llo \u{1f600}".as_bytes();
    assert_eq!(count_chars(t), Ok(7));
    assert_eq!(count_bytes(t), 11);
    assert_eq!(count_chars(b"ascii"), Ok(5));
}

#[test]
fn invalid_utf8_is_a_decode_error() {
    let bad: &[u8] = &[b'a', 0xff, b'\n'];
    assert_eq!(count_chars(bad), Err(DecodeError));
    assert_eq!(count_words(bad), Err(DecodeError));
    assert_eq!(tally(bad, flags(false, false, true, false)), Err(DecodeError));
    assert_eq!(tally(bad, flags(false, false, false, false)), Err(DecodeError));
    let c = tally(bad, flags(true, false, false, true)).unwrap();
    assert_eq!(render(&c, None), "1 3");
}

#[test]
fn decimal_forms() {
    assert_eq!(to_decimal(0), "0");
    assert_eq!(to_decimal(7), "7");
    assert_eq!(to_decimal(342190), "342190");
    assert_eq!(to_decimal(u64::MAX), "18446744073709551615");
}

#[test]
fn no_flags_become_lines_words_bytes() {
    assert_eq!(flags(false, false, false, false).effective(), flags(true, true, false, true));
    assert_eq!(flags(false, false, true, false).effective(), flags(false, false, true, false));
}

#[test]
fn stream_is_open_until_a_fragment() {
    let mut s = LineStream::new();
    assert!(s.is_open());
    s.push_line(b"a\n");
    assert!(s.is_open());
    s.push_line(b"b");
    assert!(!s.is_open());
    assert_eq!(s.line_reads(), 2);
}
