use textparse::basic::trim::TrimWhitespace;
use textparse::input::entry::InputExt;
use textparse::input::reader_input::ReaderInput;
use textparse::input::source::ByteSource;
use textparse::input::str_view::StrView;
use textparse::input::{Input, ReadError};
use textparse::parse::parse_iter::{ParseIter, ParseIterError};
use textparse::parse::{IsParse, ParseError};
use textparse::token::engine::CreateTokenProcessor;
use textparse::token::span::{Span, Spanned};
use textparse::token::{
    Associativity, FromStackEntry, HasStateTransition, IsOrdering, IsResolvedToken, IsState,
    OrderingBehaviour, StackEntry, TokenType,
};
use textparse::trim::Trim;

struct ReadOneAtATime<'a> {
    data: &'a [u8],
    index: usize,
}

impl<'a> ReadOneAtATime<'a> {
    fn new(data: &'a [u8]) -> Self {
        Self { data, index: 0 }
    }
}

impl<'a> ByteSource for ReadOneAtATime<'a> {
    fn read(&mut self, buf: &mut [u8]) -> usize {
        if self.index >= self.data.len() || buf.is_empty() {
            0
        } else {
            buf[0] = self.data[self.index];
            self.index += 1;
            1
        }
    }
}

#[test]
fn a_byte_source_of_ones_own() {
    let mut input = ReaderInput::<_, 128>::new(ReadOneAtATime::new("hello world!".as_bytes()));
    assert_eq!(input.read_at_least(5), Ok("hello"));
    input.consume(5);
    assert_eq!(input.read_at_least(6), Ok(" world"));
    input.consume(1);
    assert_eq!(input.read_at_least(6), Ok("world!"));
    assert_eq!(input.read_at_least(7), Err(ReadError::EOF));
}

// arithmetic with brackets: ( ) are orderings, + and * are operators

#[derive(Debug, Clone, PartialEq)]
enum Calc {
    Number(u32),
    Plus,
    Times,
    Power,
    Open,
}

#[derive(Debug, Clone, PartialEq)]
enum Bracket {
    Close,
    Argument,
    Then,
    Fence,
}

impl IsResolvedToken for Calc {
    fn get_type(&self) -> TokenType {
        match self {
            Calc::Number(_) => TokenType::Value,
            Calc::Plus => TokenType::Precedence { precedence: 1, associativity: Associativity::Left },
            Calc::Times => TokenType::Precedence { precedence: 2, associativity: Associativity::Left },
            Calc::Power => TokenType::Precedence { precedence: 3, associativity: Associativity::Right },
            Calc::Open => TokenType::Precedence {
                precedence: -1,
                associativity: Associativity::ClosedRight,
            },
        }
    }
}

impl IsOrdering for Bracket {
    fn behaviour(&self) -> OrderingBehaviour {
        match self {
            Bracket::Close => OrderingBehaviour::ClosedLeft,
            Bracket::Argument => OrderingBehaviour::SoftLeft { precedence: 0 },
            Bracket::Then => OrderingBehaviour::Right { precedence: 2, closed: false },
            Bracket::Fence => OrderingBehaviour::Right { precedence: 0, closed: true },
        }
    }
}

#[derive(Default)]
struct Grammar;

impl FromStackEntry for Grammar {
    type Token = Calc;
    type Order = Bracket;

    fn from_entry(_token: &StackEntry<Calc, Bracket>) -> Self {
        Grammar
    }
}

impl HasStateTransition<char> for Grammar {
    type Token = Calc;
    type Order = Bracket;
    type Error = char;

    fn transition(self, token: char) -> Result<StackEntry<Calc, Bracket>, Spanned<char>> {
        let span = Span::new(0, 1);
        Ok(match token {
            '0'..='9' => StackEntry::Resolved(span.over(Calc::Number(token as u32 - '0' as u32))),
            '+' => StackEntry::Resolved(span.over(Calc::Plus)),
            '*' => StackEntry::Resolved(span.over(Calc::Times)),
            '^' => StackEntry::Resolved(span.over(Calc::Power)),
            '(' => StackEntry::Resolved(span.over(Calc::Open)),
            ')' => StackEntry::Order(span.over(Bracket::Close)),
            ',' => StackEntry::Order(span.over(Bracket::Argument)),
            '>' => StackEntry::Order(span.over(Bracket::Then)),
            '|' => StackEntry::Order(span.over(Bracket::Fence)),
            other => return Err(span.over(other)),
        })
    }
}

#[derive(Default)]
struct Counter {
    seen: usize,
    closed: usize,
    deleted: usize,
}

impl IsState<Calc, Bracket> for Counter {
    type Error = char;

    fn update(&mut self, _token: &StackEntry<Calc, Bracket>) {
        self.seen += 1;
    }

    fn proccess_closed(&mut self, token: &mut Spanned<Calc>) {
        self.closed += 1;
        token.span = Span::new(7, 9);
    }

    fn delete_closed_ordering(&mut self, _ordering: Spanned<Bracket>) {
        self.deleted += 1;
    }

    fn no_ordering_found(&self) -> Spanned<char> {
        Spanned::new('!', Span::new(self.seen, self.closed + self.deleted))
    }
}

fn calc(text: &str) -> Vec<Result<Spanned<Calc>, Spanned<char>>> {
    let mut engine = CreateTokenProcessor::<char, Grammar, Counter>::new(text.chars().collect());
    let mut out = Vec::new();
    while let Some(item) = engine.next() {
        out.push(item);
    }
    out
}

fn tokens(items: &[Result<Spanned<Calc>, Spanned<char>>]) -> Vec<Calc> {
    items.iter().map(|item| item.clone().unwrap().inner).collect()
}

#[test]
fn precedence_and_associativity() {
    assert_eq!(
        tokens(&calc("1+2*3")),
        [Calc::Number(1), Calc::Number(2), Calc::Number(3), Calc::Times, Calc::Plus]
    );
    assert_eq!(
        tokens(&calc("1*2+3")),
        [Calc::Number(1), Calc::Number(2), Calc::Times, Calc::Number(3), Calc::Plus]
    );
    assert_eq!(
        tokens(&calc("2^3^4")),
        [Calc::Number(2), Calc::Number(3), Calc::Number(4), Calc::Power, Calc::Power]
    );
    assert_eq!(
        tokens(&calc("(1+2)*3")),
        [Calc::Number(1), Calc::Number(2), Calc::Plus, Calc::Open, Calc::Number(3), Calc::Times]
    );
}

#[test]
fn the_observer_sees_closed_tokens_and_may_change_them() {
    let items = calc("(1)");
    assert_eq!(
        items,
        [
            Ok(Spanned::new(Calc::Number(1), Span::new(0, 1))),
            // the opener comes out with the span that the observer gave it
            Ok(Spanned::new(Calc::Open, Span::new(7, 9))),
        ]
    );
}

#[test]
fn soft_left_pops_and_is_dropped() {
    // the separator pops the operators of precedence 0 and above, never the opener
    assert_eq!(
        tokens(&calc("(1+2,3*4)")),
        [
            Calc::Number(1),
            Calc::Number(2),
            Calc::Plus,
            Calc::Number(3),
            Calc::Number(4),
            Calc::Times,
            Calc::Open,
        ]
    );
}

#[test]
fn right_ordering_pops_strictly_and_is_pushed() {
    // `>` has precedence 2: it pops `^` (3) and leaves `*` (2) and `+` (1)
    assert_eq!(
        tokens(&calc("1+2*3^4>5")),
        [
            Calc::Number(1),
            Calc::Number(2),
            Calc::Number(3),
            Calc::Number(4),
            Calc::Power,
            Calc::Number(5),
            Calc::Times,
            Calc::Plus,
        ]
    );
}

#[test]
fn closed_right_ordering_is_closed_by_a_closer() {
    // the fence (precedence 0) pops the `+` before it is pushed; the closer
    // unwinds the `*`, meets the fence and stops there
    assert_eq!(
        tokens(&calc("1+|2*3)4")),
        [
            Calc::Number(1),
            Calc::Plus,
            Calc::Number(2),
            Calc::Number(3),
            Calc::Times,
            Calc::Number(4),
        ]
    );
    // with nothing above it the fence is all that the closer removes
    assert_eq!(tokens(&calc("|)1")), [Calc::Number(1)]);
}

#[test]
fn errors_end_the_run() {
    // a transition error
    assert_eq!(
        calc("1+x+2"),
        [
            Ok(Spanned::new(Calc::Number(1), Span::new(0, 1))),
            Err(Spanned::new('x', Span::new(0, 1))),
        ]
    );
    // a closer with nothing to close: the observer makes the error
    assert_eq!(
        calc("1)2"),
        [
            Ok(Spanned::new(Calc::Number(1), Span::new(0, 1))),
            Err(Spanned::new('!', Span::new(2, 0))),
        ]
    );
}

// a trimmer and a parser of one's own

#[derive(Clone)]
struct SkipDashes;

impl<I: Input> Trim<I> for SkipDashes {
    fn trim(self, input: &mut I) -> Result<(), ReadError> {
        input.consume_until(8, |c: char| c != '-')
    }
}

#[derive(Clone)]
struct Digit;

impl<'a, I: Input> IsParse<'a, I> for Digit {
    type Output = u32;
    type Error = char;

    fn __parse(self, input: &'a mut I) -> Result<u32, ParseError<char>> {
        let entry = input.peek_entry()?;
        let c = entry.get();
        match c.to_digit(10) {
            Some(d) => {
                entry.consume();
                Ok(d)
            }
            None => {
                entry.discard();
                Err(ParseError::Error(c))
            }
        }
    }

    fn __release(_output: u32) {}
}

#[test]
fn a_parser_and_a_trimmer_of_ones_own() {
    let mut view = StrView::new("--1-2---3x-----");
    let mut iter = ParseIter::new(&mut view, SkipDashes, Digit).unwrap();
    assert_eq!(iter.next(), Some(Ok(1)));
    assert_eq!(iter.next(), Some(Ok(2)));
    assert_eq!(iter.next(), Some(Ok(3)));
    assert_eq!(iter.next(), Some(Err(ParseIterError::Error('x'))));
    view.consume(1);
    let mut iter = ParseIter::new(&mut view, TrimWhitespace, Digit).unwrap();
    assert_eq!(iter.next(), Some(Err(ParseIterError::Error('-'))));
}

// an input of one's own: a string that is handed over whole

struct Whole {
    text: String,
    at: usize,
    latched: bool,
}

impl Input for Whole {
    fn lemma_wf(&self) {}

    fn capacity(&self) -> usize {
        usize::MAX
    }

    fn get_unchecked(&self, n: usize) -> &[u8] {
        &self.text.as_bytes()[self.at..self.at + n]
    }

    fn index(&self) -> usize {
        if self.latched {
            usize::MAX
        } else {
            self.at
        }
    }

    fn read(&self) -> &str {
        &self.text[self.at..]
    }

    fn buffer_at_least(&mut self, n: usize) -> Result<(), ReadError> {
        if self.latched {
            Err(ReadError::EOF)
        } else if n > self.text.len() - self.at || self.at == self.text.len() {
            self.latched = self.at == self.text.len();
            Err(ReadError::EOF)
        } else {
            Ok(())
        }
    }

    fn peek(&mut self) -> Result<char, ReadError> {
        match self.read().chars().next() {
            Some(c) if !self.latched => Ok(c),
            _ => {
                self.latched = true;
                Err(ReadError::EOF)
            }
        }
    }

    fn set_eof(&mut self) {
        self.latched = true;
    }

    fn is_eof(&self) -> bool {
        self.latched
    }

    fn consume(&mut self, n: usize) {
        self.at += n;
    }
}

#[test]
fn an_input_of_ones_own() {
    let mut input = Whole { text: "  12 3".to_string(), at: 0, latched: false };
    let mut iter = ParseIter::new(&mut input, TrimWhitespace, Digit).unwrap();
    assert_eq!(iter.next(), Some(Ok(1)));
    assert_eq!(iter.next(), Some(Ok(2)));
    assert_eq!(iter.next(), Some(Ok(3)));
    assert_eq!(iter.next(), None);
    assert_eq!(input.read_until(8, |c: char| c == '3'), Err(ReadError::EOF));
}
