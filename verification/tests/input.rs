use textparse::input::entry::InputExt;
use textparse::input::reader_input::ReaderInput;
use textparse::input::source::{ByteSource, ChunkedSource};
use textparse::input::utf8::Utf8Fault;
use textparse::input::{Input, InvalidUtf8, ReadError, EOF_INDEX};

fn one_at_a_time(text: &str) -> ChunkedSource {
    ChunkedSource::new(text.as_bytes().to_vec(), 1)
}

fn eight_at_a_time(text: &str) -> ChunkedSource {
    ChunkedSource::new(text.as_bytes().to_vec(), 8)
}

#[test]
fn input_simple_test() {
    let data = one_at_a_time("hello world!");

    let mut input = ReaderInput::<_, 128>::new(data);

    assert_eq!(input.read_at_least(5), Ok("hello"));

    assert_eq!(input.index(), 0);
    assert_eq!(input.cursor(), 0);
    assert_eq!(input.char_boundary(), 5);
    assert_eq!(input.filled(), 5);

    input.consume("hello".len());

    assert_eq!(input.index(), 5);
    assert_eq!(input.cursor(), 5);
    assert_eq!(input.char_boundary(), 5);
    assert_eq!(input.filled(), 5);

    assert_eq!(input.read_at_least(6), Ok(" world"));

    assert_eq!(input.index(), 5);
    assert_eq!(input.cursor(), 5);
    assert_eq!(input.char_boundary(), 11);
    assert_eq!(input.filled(), 11);

    input.consume(" ".len());

    assert_eq!(input.read_at_least(6), Ok("world!"));

    assert_eq!(input.read_at_least(1), Ok("world!"));
}

#[test]
fn deal_with_utf8() {
    let data = one_at_a_time("party \u{1F389} \u{1F389}!");

    let mut input = ReaderInput::<_, 128>::new(data);

    assert_eq!(input.read_at_least(5), Ok("party"));
    input.consume("party".len());

    assert_eq!(input.read_at_least(3), Ok(" "));

    assert_eq!(input.index(), 5);
    assert_eq!(input.cursor(), 5);
    assert_eq!(input.char_boundary(), 6);
    assert_eq!(input.filled(), 8);

    input.consume(" ".len());

    assert_eq!(input.index(), 6);
    assert_eq!(input.cursor(), 6);
    assert_eq!(input.char_boundary(), 6);
    assert_eq!(input.filled(), 8);

    assert_eq!(input.read_at_least(4), Ok("\u{1F389}"));

    assert_eq!(input.index(), 6);
    assert_eq!(input.cursor(), 6);
    assert_eq!(input.char_boundary(), 10);
    assert_eq!(input.filled(), 10);

    input.consume("\u{1F389}".len());

    assert_eq!(input.index(), 10);
    assert_eq!(input.cursor(), 10);
    assert_eq!(input.char_boundary(), 10);
    assert_eq!(input.filled(), 10);

    assert_eq!(input.read_at_least(5), Ok(" \u{1F389}"));
    input.consume(" ".len());

    assert_eq!(input.read_at_least(5), Ok("\u{1F389}!"));
}

#[test]
fn deal_with_wrapping() {
    let data = eight_at_a_time("hello! \nworld!\n");

    let mut input = ReaderInput::<_, 12>::new(data);

    assert_eq!(input.read_at_least(8), Ok("hello! \n"));
    input.consume("hello! \n".len());

    assert_eq!(input.read_at_least(4), Ok("worl"));

    assert_eq!(input.index(), 8);
    assert_eq!(input.cursor(), 8);
    assert_eq!(input.char_boundary(), 12);
    assert_eq!(input.filled(), 12);

    assert_eq!(input.read_at_least(5), Ok("world!\n"));

    assert_eq!(input.index(), 8);
    assert_eq!(input.cursor(), 0);
    assert_eq!(input.char_boundary(), 7);
    assert_eq!(input.filled(), 7);

    assert_eq!(input.read_at_least(1), Ok("world!\n"));

    input.consume("world!".len());

    assert_eq!(input.index(), 14);
    assert_eq!(input.cursor(), 6);
    assert_eq!(input.char_boundary(), 7);
    assert_eq!(input.filled(), 7);

    assert_eq!(input.read_at_least(1), Ok("\n"));
}

#[test]
fn chunked_source_hands_out_at_most_a_chunk() {
    let mut source = ChunkedSource::new(b"abcdefghij".to_vec(), 4);
    let mut buf = [0u8; 6];
    assert_eq!(source.read(&mut buf), 4);
    assert_eq!(&buf, b"abcd\0\0");
    assert_eq!(source.read(&mut buf[..3]), 3);
    assert_eq!(&buf, b"efgd\0\0");
    assert_eq!(source.read(&mut buf), 3);
    assert_eq!(&buf, b"hijd\0\0");
    assert_eq!(source.read(&mut buf), 0);
    assert_eq!(source.read(&mut buf[..0]), 0);
}

#[test]
fn end_of_input_is_latched_when_the_source_runs_dry() {
    let mut input = ReaderInput::<_, 16>::new(one_at_a_time("abc"));
    assert!(!input.is_eof());
    assert_eq!(input.buffer_at_least(4), Err(ReadError::EOF));
    assert!(input.is_eof());
    assert_eq!(input.index(), EOF_INDEX);
    // the residue is still buffered and validated
    assert_eq!(input.read(), "abc");
    assert_eq!((input.cursor(), input.char_boundary(), input.filled()), (0, 3, 3));
    // once latched every refill fails, even one that the buffer could serve
    assert_eq!(input.buffer_at_least(1), Err(ReadError::EOF));
    assert_eq!(input.read_at_least(0), Err(ReadError::EOF));
    // consuming at the end keeps the end mark
    input.consume(2);
    assert_eq!(input.index(), EOF_INDEX);
    assert_eq!(input.read(), "c");
}

#[test]
fn set_eof_latches_explicitly() {
    let mut input = ReaderInput::<_, 16>::new(eight_at_a_time("abcdef"));
    assert_eq!(input.buffer_at_least(2), Ok(()));
    input.set_eof();
    assert!(input.is_eof());
    assert_eq!(input.buffer_at_least(1), Err(ReadError::EOF));
    assert_eq!(input.peek(), Err(ReadError::EOF));
}

#[test]
fn invalid_utf8_reports_the_offset_of_the_first_bad_byte() {
    let mut bytes = b"ab".to_vec();
    bytes.push(0xFF);
    bytes.extend_from_slice(b"cd");
    let mut input = ReaderInput::<_, 16>::new(ChunkedSource::new(bytes, 8));
    assert_eq!(
        input.buffer_at_least(4),
        Err(ReadError::InvalidUtf8(InvalidUtf8 { index: 2 }))
    );
    // nothing was validated, nothing was lost, the end was not latched
    assert!(!input.is_eof());
    assert_eq!(input.index(), 0);
    assert_eq!((input.cursor(), input.char_boundary(), input.filled()), (0, 0, 5));
    assert_eq!(input.read(), "");
    // the error is met again by the next refill
    assert_eq!(
        input.buffer_at_least(4),
        Err(ReadError::InvalidUtf8(InvalidUtf8 { index: 2 }))
    );
    assert_eq!(
        input.buffer_at_least(1),
        Err(ReadError::InvalidUtf8(InvalidUtf8 { index: 2 }))
    );
}

#[test]
fn invalid_utf8_offset_counts_from_the_start_of_the_input() {
    let mut bytes = b"hello ".to_vec();
    bytes.extend_from_slice(&[0xE2, 0x28, 0xA1]);
    let mut input = ReaderInput::<_, 16>::new(ChunkedSource::new(bytes, 3));
    assert_eq!(input.read_at_least(3), Ok("hel"));
    input.consume(3);
    assert_eq!(input.read_at_least(3), Ok("lo "));
    input.consume(2);
    assert_eq!(input.index(), 5);
    assert_eq!(
        input.buffer_at_least(3),
        Err(ReadError::InvalidUtf8(InvalidUtf8 { index: 6 }))
    );
    assert_eq!(input.index(), 5);
}

#[test]
fn invalid_utf8_comes_before_end_of_input() {
    let mut input = ReaderInput::<_, 16>::new(ChunkedSource::new(vec![b'a', 0x80], 8));
    assert_eq!(
        input.buffer_at_least(8),
        Err(ReadError::InvalidUtf8(InvalidUtf8 { index: 1 }))
    );
    assert!(!input.is_eof());
}

#[test]
fn truncated_character_at_the_end_is_end_of_input() {
    let mut bytes = b"ok".to_vec();
    bytes.extend_from_slice(&"\u{1F389}".as_bytes()[..2]);
    let mut input = ReaderInput::<_, 16>::new(ChunkedSource::new(bytes, 8));
    assert_eq!(input.buffer_at_least(8), Err(ReadError::EOF));
    assert!(input.is_eof());
    assert_eq!(input.read(), "ok");
    assert_eq!((input.cursor(), input.char_boundary(), input.filled()), (0, 2, 4));
}

#[test]
fn buffering_twice_changes_nothing() {
    let mut input = ReaderInput::<_, 12>::new(eight_at_a_time("hello! \nworld!\n"));
    assert_eq!(input.buffer_at_least(8), Ok(()));
    input.consume(8);
    let first = input.buffer_at_least(5);
    let after_first = (input.index(), input.cursor(), input.char_boundary(), input.filled());
    let text = input.read().to_string();
    let second = input.buffer_at_least(5);
    assert_eq!(first, second);
    assert_eq!(
        after_first,
        (input.index(), input.cursor(), input.char_boundary(), input.filled())
    );
    assert_eq!(text, input.read());
}

#[test]
fn buffered_bytes_round_trip() {
    let text = "s\u{E9}ance \u{1F389} fin\u{2026}\nlast";
    for chunk in 1..6 {
        let mut input = ReaderInput::<_, 9>::new(ChunkedSource::new(text.as_bytes().to_vec(), chunk));
        let mut seen = String::new();
        let mut last = 0;
        let end = loop {
            match input.read_at_least(5) {
                Ok(s) => {
                    let len = s.len();
                    seen.push_str(s);
                    assert!(input.cursor() <= input.char_boundary());
                    assert!(input.char_boundary() <= input.filled());
                    assert!(input.filled() <= 9);
                    input.consume(len);
                    assert!(input.index() >= last);
                    last = input.index();
                }
                Err(e) => break e,
            }
        };
        assert_eq!(end, ReadError::EOF);
        seen.push_str(input.read());
        assert_eq!(seen, text);
    }
}

#[test]
fn peek_needs_four_bytes_on_a_stream() {
    let mut input = ReaderInput::<_, 16>::new(one_at_a_time("\u{E9}t\u{E9}s"));
    assert_eq!(input.peek(), Ok('\u{E9}'));
    assert_eq!(input.index(), 0);
    input.consume(2);
    assert_eq!(input.peek(), Ok('t'));
    input.consume(1);
    // three bytes are left: the refill to four meets the end
    assert_eq!(input.peek(), Err(ReadError::EOF));
    assert!(input.is_eof());
}

#[test]
fn peek_entry_consumes_one_character() {
    let mut input = ReaderInput::<_, 16>::new(eight_at_a_time("\u{1F389}abcdefg"));
    let entry = input.peek_entry().unwrap();
    assert_eq!(entry.get(), '\u{1F389}');
    assert_eq!(entry.input().index(), 0);
    entry.discard();
    assert_eq!(input.index(), 0);
    let entry = input.peek_entry().unwrap();
    entry.consume();
    assert_eq!(input.index(), 4);
    assert_eq!(input.peek_entry().unwrap().get(), 'a');
}

#[test]
fn match_str_entry_matches_byte_for_byte() {
    let mut input = ReaderInput::<_, 16>::new(eight_at_a_time("let x = 1; and more"));
    assert!(input.match_str_entry("lex").unwrap().is_none());
    assert_eq!(input.index(), 0);
    let entry = input.match_str_entry("let").unwrap().unwrap();
    assert_eq!(entry.get(), "let");
    entry.consume();
    assert_eq!(input.index(), 3);
    assert_eq!(input.read(), " x = ");
    let entry = input.match_str_entry(" x").unwrap().unwrap();
    entry.discard();
    assert_eq!(input.index(), 3);
    assert!(input.match_str_entry("").unwrap().is_some());
}

#[test]
fn match_str_entry_reports_read_errors() {
    let mut input = ReaderInput::<_, 16>::new(eight_at_a_time("le"));
    assert!(matches!(input.match_str_entry("let"), Err(ReadError::EOF)));
}

#[test]
fn consume_until_stops_at_the_first_match() {
    let mut input = ReaderInput::<_, 16>::new(ChunkedSource::new(
        "   \n\t  \u{A0} word and more text".as_bytes().to_vec(),
        5,
    ));
    assert_eq!(input.consume_until(8, |c: char| !c.is_whitespace()), Ok(()));
    assert_eq!(input.index(), 10);
    assert!(input.read().starts_with('w'));
    // a match at the front consumes nothing
    assert_eq!(input.consume_until(8, |c: char| c == 'w'), Ok(()));
    assert_eq!(input.index(), 10);
}

#[test]
fn consume_until_without_match_consumes_everything_and_ends() {
    let mut input = ReaderInput::<_, 16>::new(eight_at_a_time("aaaaaaaaaaaaaaaaaaaaaaaaaaaaaa"));
    assert_eq!(input.consume_until(8, |c: char| c == 'b'), Err(ReadError::EOF));
    assert!(input.is_eof());
    assert_eq!(input.read(), "");
    assert_eq!(input.consume_until(8, |c: char| c == 'a'), Err(ReadError::EOF));
}

#[test]
fn consume_until_reports_invalid_utf8() {
    let mut bytes = b"          ".to_vec();
    bytes.push(0xFF);
    bytes.extend_from_slice(b"          ");
    let mut input = ReaderInput::<_, 16>::new(ChunkedSource::new(bytes, 8));
    assert_eq!(
        input.consume_until(8, |c: char| c == 'x'),
        Err(ReadError::InvalidUtf8(InvalidUtf8 { index: 10 }))
    );
}

#[test]
fn read_until_spans_several_refills_without_consuming() {
    let mut input = ReaderInput::<_, 32>::new(ChunkedSource::new(
        b"identifier_of_some_length = 1; and a tail".to_vec(),
        4,
    ));
    assert_eq!(input.read_until(8, |c: char| c == ' '), Ok("identifier_of_some_length"));
    assert_eq!(input.index(), 0);
    assert_eq!(input.cursor(), 0);
    let entry = input.read_until_entry(8, |c: char| c == ' ').unwrap();
    assert_eq!(entry.get(), "identifier_of_some_length");
    entry.consume();
    assert_eq!(input.index(), 25);
    assert_eq!(input.read_until(8, |c: char| c == ' '), Ok(""));
}

#[test]
fn read_until_returns_what_fits_when_the_buffer_is_full() {
    let mut input =
        ReaderInput::<_, 12>::new(eight_at_a_time("abcdefghijklmnopqrstuvwxyz 0123456789"));
    // twelve bytes fit; another eight cannot be asked for after the first eight
    let text = input.read_until(8, |c: char| c == ' ').unwrap().to_string();
    assert_eq!(text, "abcdefgh");
    // nothing was found: the text is all of the buffered prefix
    assert_eq!(text.len(), input.read().len());
    assert!(!input.is_eof());
    input.consume(text.len());
    assert_eq!(input.read_until(8, |c: char| c == ' '), Ok("ijklmnop"));
}

#[test]
fn read_until_meets_the_end_of_a_stream() {
    let mut input = ReaderInput::<_, 32>::new(eight_at_a_time("foo bar"));
    let entry = input.read_until_entry(8, |c: char| c == ' ').unwrap();
    assert_eq!(entry.get(), "foo");
    entry.consume();
    input.consume(1);
    assert_eq!(input.read_until(8, |c: char| c == ' '), Err(ReadError::EOF));
    // nothing was consumed: the rest is still there for the caller
    assert_eq!(input.read(), "bar");
    assert_eq!(input.cursor(), 4);
}

#[test]
fn read_until_that_never_matches_leaves_a_stream_unconsumed() {
    let mut input = ReaderInput::<_, 32>::new(eight_at_a_time("abc"));
    assert_eq!(input.read_until(8, |_: char| false), Err(ReadError::EOF));
    assert_eq!(input.read(), "abc");
    assert_eq!(input.cursor(), 0);
    // the refill found the source dry and latched the end; the scan did not
    assert!(input.is_eof());
    let mut input = ReaderInput::<_, 32>::new(eight_at_a_time("abcd"));
    assert_eq!(input.read_until(2, |c: char| c == 'c'), Ok("ab"));
    assert_eq!(input.cursor(), 0);
    assert_eq!(input.index(), 0);
    assert!(!input.is_eof());
}

#[test]
fn consume_until_moves_the_cursor_of_a_stream() {
    let mut input = ReaderInput::<_, 32>::new(eight_at_a_time("  x"));
    assert_eq!(input.consume_until(8, |c: char| c == 'x'), Ok(()));
    assert_eq!(input.cursor(), 2);
    assert_eq!(input.read(), "x");
    let mut input = ReaderInput::<_, 32>::new(eight_at_a_time("  xy"));
    assert_eq!(input.consume_until(1, |c: char| c == 'x'), Ok(()));
    assert_eq!(input.cursor(), 2);
    assert_eq!(input.index(), 2);
    assert_eq!(input.read(), "xy");
}

#[test]
fn read_until_on_an_empty_stream_is_end_of_input() {
    let mut input = ReaderInput::<_, 32>::new(eight_at_a_time(""));
    assert_eq!(input.read_until(8, |c: char| c == ' '), Err(ReadError::EOF));
    assert!(input.is_eof());
}

#[test]
fn get_unchecked_hands_out_buffered_bytes() {
    let mut input = ReaderInput::<_, 16>::new(eight_at_a_time("abcdef"));
    assert_eq!(input.buffer_at_least(4), Ok(()));
    assert_eq!(input.get_unchecked(3), b"abc");
    assert_eq!(input.get_unchecked(0), b"");
    assert_eq!(input.capacity(), 16);
}

#[test]
fn settle_decides_on_the_outcome_of_the_check() {
    let fresh = || {
        let mut input = ReaderInput::<_, 16>::new(eight_at_a_time("abcdefghijkl"));
        assert_eq!(input.buffer_at_least(3), Ok(()));
        input.consume(2);
        assert_eq!((input.index(), input.cursor(), input.char_boundary(), input.filled()), (2, 2, 8, 8));
        input
    };
    // valid bytes: the whole of what is held becomes the prefix
    let mut input = fresh();
    assert_eq!(input.settle(Ok(()), false), Ok(()));
    assert_eq!((input.index(), input.cursor(), input.char_boundary(), input.filled()), (2, 2, 8, 8));
    // a drained source latches the end, after the prefix has been set
    let mut input = fresh();
    assert_eq!(input.settle(Ok(()), true), Err(ReadError::EOF));
    assert_eq!((input.index(), input.char_boundary()), (EOF_INDEX, 8));
    // an incomplete character: the prefix ends before it
    let mut input = fresh();
    assert_eq!(input.settle(Err(Utf8Fault { valid_up_to: 4, error_len: None }), false), Ok(()));
    assert_eq!((input.index(), input.cursor(), input.char_boundary(), input.filled()), (2, 2, 6, 8));
    let mut input = fresh();
    assert_eq!(
        input.settle(Err(Utf8Fault { valid_up_to: 4, error_len: None }), true),
        Err(ReadError::EOF)
    );
    assert_eq!((input.index(), input.char_boundary()), (EOF_INDEX, 6));
    // an offending sequence: an error at its absolute offset, and nothing moves
    let mut input = fresh();
    assert_eq!(
        input.settle(Err(Utf8Fault { valid_up_to: 4, error_len: Some(1) }), true),
        Err(ReadError::InvalidUtf8(InvalidUtf8 { index: 6 }))
    );
    assert_eq!((input.index(), input.cursor(), input.char_boundary(), input.filled()), (2, 2, 8, 8));
}
