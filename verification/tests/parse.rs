use textparse::basic::parse::SplitUpTo;
use textparse::basic::trim::TrimWhitespace;
use textparse::input::entry::Entry;
use textparse::input::reader_input::ReaderInput;
use textparse::input::source::ChunkedSource;
use textparse::input::str_view::StrView;
use textparse::input::{Input, InvalidUtf8, ReadError};
use textparse::parse::parse_iter::{
    item_after_trim, parse_outcome, trim_outcome, ParseIter, ParseIterError,
};
use textparse::parse::parse_mut_borrowed_iter::ParseMutBorrowedIter;
use textparse::parse::{
    IsParse, MappedMutParse, MappedParse, Mapping, MappingMut, Parse, ParseError, ParseExt,
};

type Words = ReaderInput<ChunkedSource, 64>;

fn words(text: &str, chunk: usize) -> Words {
    ReaderInput::new(ChunkedSource::new(text.as_bytes().to_vec(), chunk))
}

#[test]
fn split_up_to_returns_an_entry() {
    let mut input = words("hello world, this is a test", 5);
    let entry = SplitUpTo::new(char::is_whitespace).parse(&mut input).unwrap();
    assert_eq!(entry.get(), "hello");
    entry.consume();
    assert_eq!(input.index(), 5);
}

#[test]
fn mapped_parse_consumes_what_was_matched() {
    let mut input = words("hello world, this is a test", 5);
    let parser = MappedParse {
        parse: SplitUpTo::new(char::is_whitespace),
        mapping: |entry: &Entry<Words>| entry.get().to_string(),
    };
    assert_eq!(parser.__parse(&mut input), Ok("hello".to_string()));
    assert_eq!(input.index(), 5);
    assert_eq!(input.peek(), Ok(' '));
}

#[test]
fn mapped_parse_passes_read_errors_on() {
    let mut input = words("", 5);
    let parser = MappedParse {
        parse: SplitUpTo::new(char::is_whitespace),
        mapping: |entry: &Entry<Words>| entry.get().len(),
    };
    assert_eq!(parser.__parse(&mut input), Err(ParseError::ReadError(ReadError::EOF)));
}

#[test]
fn parse_iter_yields_the_words() {
    let mut input = words("  alpha beta\n\tgamma delta epsilon zeta eta theta iota    ", 7);
    let parser = SplitUpTo::new(char::is_whitespace)
        .mapped(|entry: &Entry<Words>| entry.get().to_string());
    let mut iter = ParseIter::new(&mut input, TrimWhitespace, parser).unwrap();
    let mut found = Vec::new();
    while let Some(item) = iter.next() {
        found.push(item.unwrap());
    }
    assert_eq!(
        found,
        ["alpha", "beta", "gamma", "delta", "epsilon", "zeta", "eta", "theta", "iota"]
    );
    assert!(iter.next().is_none());
}

#[test]
fn parse_iter_over_an_empty_input_has_no_items() {
    let mut input = words("", 7);
    let parser = SplitUpTo::new(char::is_whitespace)
        .mapped(|entry: &Entry<Words>| entry.get().to_string());
    let mut iter = ParseIter::new(&mut input, TrimWhitespace, parser).unwrap();
    assert!(iter.next().is_none());
}

#[test]
fn parse_iter_surfaces_invalid_utf8_from_the_first_trim() {
    let mut bytes = b"  ".to_vec();
    bytes.push(0xFF);
    let mut input: Words = ReaderInput::new(ChunkedSource::new(bytes, 8));
    let parser = SplitUpTo::new(char::is_whitespace)
        .mapped(|entry: &Entry<Words>| entry.get().to_string());
    assert_eq!(
        ParseIter::new(&mut input, TrimWhitespace, parser).err(),
        Some(InvalidUtf8 { index: 2 })
    );
}

#[test]
fn parse_iter_surfaces_invalid_utf8_as_an_item() {
    let mut bytes = b"first word and a tail ".to_vec();
    bytes.push(0xC0);
    bytes.extend_from_slice(b" rest of the text");
    let mut input: Words = ReaderInput::new(ChunkedSource::new(bytes, 8));
    let parser = SplitUpTo::new(char::is_whitespace)
        .mapped(|entry: &Entry<Words>| entry.get().to_string());
    let mut iter = ParseIter::new(&mut input, TrimWhitespace, parser).unwrap();
    let mut items = Vec::new();
    while let Some(item) = iter.next() {
        let stop = item.is_err();
        items.push(item);
        if stop {
            break;
        }
    }
    assert_eq!(items.last(), Some(&Err(ParseIterError::InvalidUtf8(InvalidUtf8 { index: 22 }))));
    assert_eq!(items[0], Ok("first".to_string()));
}

#[test]
fn parse_iter_over_a_string_view() {
    let mut view = StrView::new("one two  three\n");
    let parser = SplitUpTo::new(char::is_whitespace)
        .mapped(|entry: &Entry<StrView<'static>>| entry.get().len());
    let mut iter = ParseIter::new(&mut view, TrimWhitespace, parser).unwrap();
    assert_eq!(iter.next(), Some(Ok(3)));
    assert_eq!(iter.next(), Some(Ok(3)));
    assert_eq!(iter.next(), Some(Ok(5)));
    assert_eq!(iter.next(), None);
    assert_eq!(iter.next(), None);
}

#[test]
fn a_word_that_the_input_cuts_short_is_no_item() {
    // the last word has no whitespace behind it: the split meets the end of
    // the input before it finds one, and the word is left unconsumed
    let mut view = StrView::new("one two");
    let parser = SplitUpTo::new(char::is_whitespace)
        .mapped(|entry: &Entry<StrView<'static>>| entry.get().len());
    let mut iter = ParseIter::new(&mut view, TrimWhitespace, parser).unwrap();
    assert_eq!(iter.next(), Some(Ok(3)));
    assert_eq!(iter.next(), None);
    assert_eq!(view.read(), "two");
    assert_eq!(view.index(), 4);
}

#[test]
fn parse_mut_borrowed_iter_keeps_the_state_of_the_mapping() {
    let mut input = words("a bb ccc dddd eeeee ffffff ggggggg hhhhhhhh\n", 3);
    let mut total_len = 0usize;
    let mut mapped = MappedMutParse {
        parse: SplitUpTo::new(char::is_whitespace),
        mapping: |entry: &Entry<Words>| {
            total_len += entry.get().len();
            entry.get().contains('d')
        },
    };
    let mut iter = ParseMutBorrowedIter::new(&mut input, TrimWhitespace, &mut mapped).unwrap();
    let mut hits = Vec::new();
    while let Some(item) = iter.next() {
        hits.push(item.unwrap());
    }
    assert_eq!(hits, [false, false, false, true, false, false, false, false]);
    assert_eq!(total_len, 36);
}

#[test]
fn mapped_mut_builds_the_same_parser() {
    let mut input = words("abc def and more", 8);
    let mut count = 0;
    let parser = SplitUpTo::new(char::is_whitespace).mapped_mut(|entry: &Entry<Words>| {
        count += 1;
        entry.get().to_uppercase()
    });
    assert_eq!(parser.__parse(&mut input), Ok("ABC".to_string()));
    assert_eq!(count, 1);
    assert_eq!(input.index(), 3);
}

#[test]
fn parse_error_constructors() {
    assert_eq!(ParseError::new(7u8), ParseError::Error(7u8));
    assert_eq!(
        ParseError::<u8>::from(ReadError::EOF),
        ParseError::ReadError(ReadError::EOF)
    );
    assert_eq!(ParseIterError::new('e'), ParseIterError::Error('e'));
    assert_eq!(
        ParseIterError::<char>::from(InvalidUtf8 { index: 3 }),
        ParseIterError::InvalidUtf8(InvalidUtf8 { index: 3 })
    );
}

#[test]
fn iteration_decisions() {
    assert_eq!(trim_outcome(Ok(())), Ok(()));
    assert_eq!(trim_outcome(Err(ReadError::EOF)), Ok(()));
    assert_eq!(
        trim_outcome(Err(ReadError::InvalidUtf8(InvalidUtf8 { index: 9 }))),
        Err(InvalidUtf8 { index: 9 })
    );
    assert_eq!(parse_outcome::<u8, char>(Ok(1)), Ok(1));
    assert_eq!(parse_outcome::<u8, char>(Err(ParseError::ReadError(ReadError::EOF))), Err(None));
    assert_eq!(
        parse_outcome::<u8, char>(Err(ParseError::ReadError(ReadError::InvalidUtf8(
            InvalidUtf8 { index: 4 }
        )))),
        Err(Some(ParseIterError::InvalidUtf8(InvalidUtf8 { index: 4 })))
    );
    assert_eq!(
        parse_outcome::<u8, char>(Err(ParseError::Error('x'))),
        Err(Some(ParseIterError::Error('x')))
    );
    assert_eq!(item_after_trim::<u8, char>(5, Ok(())), Ok(5));
    assert_eq!(item_after_trim::<u8, char>(5, Err(ReadError::EOF)), Ok(5));
    assert_eq!(
        item_after_trim::<u8, char>(5, Err(ReadError::InvalidUtf8(InvalidUtf8 { index: 2 }))),
        Err(ParseIterError::InvalidUtf8(InvalidUtf8 { index: 2 }))
    );
}

#[test]
fn mappings_look_at_the_output_and_leave_it() {
    let mut input = words("hello world and then some", 5);
    let entry = SplitUpTo::new(char::is_whitespace).parse(&mut input).unwrap();
    let upper = |entry: &Entry<Words>| entry.get().to_uppercase();
    assert_eq!(Mapping::<Words, SplitUpTo<fn(char) -> bool>>::map(upper, &entry), "HELLO");
    let mut seen = 0;
    let mut count = |entry: &Entry<Words>| {
        seen += entry.get().len();
        seen
    };
    assert_eq!(MappingMut::<Words, SplitUpTo<fn(char) -> bool>>::map_mut(&mut count, &entry), 5);
    assert_eq!(MappingMut::<Words, SplitUpTo<fn(char) -> bool>>::map_mut(&mut count, &entry), 10);
    entry.discard();
    assert_eq!(input.index(), 0);
}
