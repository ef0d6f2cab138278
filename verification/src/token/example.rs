//! A small statement language, `let x = [1, 2];`, as a worked instance of the
//! token model.

use vstd::prelude::*;
use vstd::string::StringExecFns;

use crate::token::span::{Span, Spanned};
use crate::token::{
    Associativity, FromStackEntry, HasStateTransition, IsOrdering, IsResolvedToken,
    OrderingBehaviour, StackEntry, TokenType,
};

verus! {

// TOKENS
#[derive(Debug, PartialEq, Eq, Hash, PartialOrd, Ord)]
pub enum RawToken {
    /// `let`
    Let,
    Value(i32),
    /// `$ident`
    Ident(String),
    Symbol(RawSymbol),
}

#[derive(Debug, PartialEq, Eq, Hash, PartialOrd, Ord)]
pub enum RawSymbol {
    /// `=`
    Assign,
    /// `[ ..`
    List,
    /// `,`
    Comma,
    /// `;`
    Semicolon,
    /// `]`
    ListEnd,
}

// RESOLVED TOKENS
#[derive(Debug, Clone, PartialEq)]
pub enum Token {
    Term(Term),
    Operator(Operator),
}

#[derive(Debug, Clone, PartialEq)]
pub enum Term {
    Value(i32),
    Ident(String),
}

#[derive(Debug, Clone, PartialEq)]
pub enum Operator {
    Let,
    Assign,
    List,
    Comma,
    Semicolon,
}

// ORDERINGS
#[derive(Debug, Clone, PartialEq)]
pub enum Orderings {
    ListEnd,
}

// TREES
#[derive(Debug, PartialEq, Eq, Hash, PartialOrd, Ord)]
pub enum TokenTree {
    Semicolon,
}

// IS RESOLVED TOKEN
impl IsResolvedToken for Token {
    open spec fn type_of(&self) -> TokenType {
        match self {
            Token::Term(term) => term.type_of(),
            Token::Operator(operator) => operator.type_of(),
        }
    }

    #[inline]
    fn get_type(&self) -> (r: TokenType) {
        match self {
            Token::Term(term) => term.get_type(),
            Token::Operator(operator) => operator.get_type(),
        }
    }
}

impl IsResolvedToken for Term {
    open spec fn type_of(&self) -> TokenType {
        TokenType::Value
    }

    #[inline(always)]
    fn get_type(&self) -> (r: TokenType) {
        TokenType::Value
    }
}

impl IsResolvedToken for Operator {
    open spec fn type_of(&self) -> TokenType {
        match self {
            Operator::Let => TokenType::Precedence {
                precedence: 2,
                associativity: Associativity::Right,
            },
            Operator::Assign => TokenType::Precedence {
                precedence: 1,
                associativity: Associativity::Right,
            },
            Operator::List => TokenType::Precedence {
                precedence: 3,
                associativity: Associativity::ClosedRight,
            },
            Operator::Comma => TokenType::Precedence {
                precedence: 2,
                associativity: Associativity::Left,
            },
            Operator::Semicolon => TokenType::Precedence {
                precedence: 0,
                associativity: Associativity::Left,
            },
        }
    }

    #[inline]
    fn get_type(&self) -> (r: TokenType) {
        match self {
            Operator::Let => TokenType::Precedence {
                precedence: 2,
                associativity: Associativity::Right,
            },
            Operator::Assign => TokenType::Precedence {
                precedence: 1,
                associativity: Associativity::Right,
            },
            Operator::List => TokenType::Precedence {
                precedence: 3,
                associativity: Associativity::ClosedRight,
            },
            Operator::Comma => TokenType::Precedence {
                precedence: 2,
                associativity: Associativity::Left,
            },
            Operator::Semicolon => TokenType::Precedence {
                precedence: 0,
                associativity: Associativity::Left,
            },
        }
    }
}

// IS ORDERING
impl IsOrdering for Orderings {
    open spec fn behaviour_of(&self) -> OrderingBehaviour {
        OrderingBehaviour::ClosedLeft
    }

    #[inline]
    fn behaviour(&self) -> (r: OrderingBehaviour) {
        match self {
            Orderings::ListEnd => OrderingBehaviour::ClosedLeft,
        }
    }
}

// FROM STACK ENTRY
impl FromStackEntry for TokenTree {
    type Token = Token;

    type Order = Orderings;

    open spec fn after_entry(token: &StackEntry<Self::Token, Self::Order>) -> Self {
        TokenTree::Semicolon
    }

    fn from_entry(_token: &StackEntry<Self::Token, Self::Order>) -> (r: Self) {
        TokenTree::Semicolon
    }
}

// HAS STATE TRANSITION
impl Default for TokenTree {
    fn default() -> (r: Self)
        ensures
            r == TokenTree::Semicolon,
    {
        Self::Semicolon
    }
}

/// The resolved token that a raw token stands for, if it stands for one; the
/// list closer stands for none.
pub open spec fn resolved_of(token: RawToken) -> Option<Token> {
    match token {
        RawToken::Let => Some(Token::Operator(Operator::Let)),
        RawToken::Value(value) => Some(Token::Term(Term::Value(value))),
        RawToken::Ident(ident) => Some(Token::Term(Term::Ident(ident))),
        RawToken::Symbol(raw_symbol) => match raw_symbol {
            RawSymbol::Assign => Some(Token::Operator(Operator::Assign)),
            RawSymbol::List => Some(Token::Operator(Operator::List)),
            RawSymbol::Comma => Some(Token::Operator(Operator::Comma)),
            RawSymbol::Semicolon => Some(Token::Operator(Operator::Semicolon)),
            RawSymbol::ListEnd => None,
        },
    }
}

/// The entry that a raw token stands for. Every entry has the empty span at
/// offset zero.
pub open spec fn entry_of(token: RawToken) -> StackEntry<Token, Orderings> {
    match resolved_of(token) {
        Some(resolved) => StackEntry::Resolved(Spanned { inner: resolved, span: Span::at(0, 0) }),
        None => StackEntry::Order(Spanned { inner: Orderings::ListEnd, span: Span::at(0, 0) }),
    }
}

impl HasStateTransition<RawToken> for TokenTree {
    type Token = Token;

    type Order = Orderings;

    type Error = ();

    open spec fn transition_of(self, token: RawToken) -> Result<
        StackEntry<Self::Token, Self::Order>,
        Spanned<Self::Error>,
    > {
        Ok(entry_of(token))
    }

    fn transition(self, token: RawToken) -> (r: Result<
        StackEntry<Self::Token, Self::Order>,
        Spanned<Self::Error>,
    >) {
        match token {
            RawToken::Let => Ok(
                StackEntry::Resolved(Spanned::default_span(Token::Operator(Operator::Let))),
            ),
            RawToken::Value(value) => Ok(
                StackEntry::Resolved(Spanned::default_span(Token::Term(Term::Value(value)))),
            ),
            RawToken::Ident(ident) => Ok(
                StackEntry::Resolved(Spanned::default_span(Token::Term(Term::Ident(ident)))),
            ),
            RawToken::Symbol(raw_symbol) => match raw_symbol {
                RawSymbol::Assign => Ok(
                    StackEntry::Resolved(Spanned::default_span(Token::Operator(Operator::Assign))),
                ),
                RawSymbol::List => Ok(
                    StackEntry::Resolved(Spanned::default_span(Token::Operator(Operator::List))),
                ),
                RawSymbol::Comma => Ok(
                    StackEntry::Resolved(Spanned::default_span(Token::Operator(Operator::Comma))),
                ),
                RawSymbol::Semicolon => Ok(
                    StackEntry::Resolved(
                        Spanned::default_span(Token::Operator(Operator::Semicolon)),
                    ),
                ),
                RawSymbol::ListEnd => Ok(
                    StackEntry::Order(Spanned::default_span(Orderings::ListEnd)),
                ),
            },
        }
    }
}

// PRINT OUT STRUCTURE
/// The character of a decimal digit.
pub open spec fn digit(d: nat) -> char
    recommends
        d < 10,
{
    if d == 0 {
        '0'
    } else if d == 1 {
        '1'
    } else if d == 2 {
        '2'
    } else if d == 3 {
        '3'
    } else if d == 4 {
        '4'
    } else if d == 5 {
        '5'
    } else if d == 6 {
        '6'
    } else if d == 7 {
        '7'
    } else if d == 8 {
        '8'
    } else {
        '9'
    }
}

/// The decimal digits of a number, without leading zeros.
pub open spec fn digits(n: nat) -> Seq<char>
    decreases n,
{
    if n < 10 {
        seq![digit(n)]
    } else {
        digits(n / 10).push(digit(n % 10))
    }
}

/// A number in decimal, with a minus sign where it is negative.
pub open spec fn decimal(value: i32) -> Seq<char> {
    if value < 0 {
        seq!['-'] + digits((-value) as nat)
    } else {
        digits(value as nat)
    }
}

/// `i32::to_string`: the number in decimal.
#[verifier::external_body]
fn decimal_string(value: i32) -> (r: String)
    ensures
        r@ == decimal(value),
{
    value.to_string()
}

/// The stack of texts after one more token of a postfix sequence has been
/// rendered, or `None` where the token lacks an operand.
pub open spec fn render_token(stack: Seq<Seq<char>>, token: Token) -> Option<Seq<Seq<char>>> {
    let n = stack.len() as int;
    match token {
        Token::Term(Term::Value(value)) => Some(stack.push(decimal(value))),
        Token::Term(Term::Ident(ident)) => Some(stack.push(ident@)),
        Token::Operator(operator) => match operator {
            Operator::Let => if n >= 1 {
                Some(stack.take(n - 1).push("let "@ + stack[n - 1]))
            } else {
                None
            },
            Operator::Assign => if n >= 2 {
                Some(stack.take(n - 2).push(stack[n - 2] + " = "@ + stack[n - 1]))
            } else {
                None
            },
            Operator::List => if n >= 1 {
                Some(stack.take(n - 1).push("["@ + stack[n - 1] + "]"@))
            } else {
                None
            },
            Operator::Comma => if n >= 2 {
                Some(stack.take(n - 2).push(stack[n - 2] + ", "@ + stack[n - 1]))
            } else {
                None
            },
            Operator::Semicolon => if n >= 1 {
                Some(stack.take(n - 1).push(stack[n - 1] + ";"@))
            } else {
                None
            },
        },
    }
}

/// The stack of texts after a postfix sequence of tokens has been rendered
/// from left to right, or `None` where a token lacks an operand.
pub open spec fn render(stack: Seq<Seq<char>>, tokens: Seq<Token>) -> Option<Seq<Seq<char>>>
    decreases tokens.len(),
{
    if tokens.len() == 0 {
        Some(stack)
    } else {
        match render_token(stack, tokens[0]) {
            Some(next) => render(next, tokens.drop_first()),
            None => None,
        }
    }
}

/// The texts of a stack of strings.
pub open spec fn texts(stack: Seq<String>) -> Seq<Seq<char>> {
    Seq::new(stack.len(), |k: int| stack[k]@)
}

/// The source text that a postfix sequence of tokens stands for. Every
/// operator must find its operands, and something must be left at the end.
pub fn display_processed_tokens(tokens: &Vec<Token>) -> (r: String)
    requires
        render(Seq::empty(), tokens@) matches Some(stack) && stack.len() >= 1,
    ensures
        r@ == render(Seq::empty(), tokens@)->0.last(),
{
    let mut stack: Vec<String> = Vec::new();
    let mut i: usize = 0;
    proof {
        assert(texts(stack@) =~= Seq::<Seq<char>>::empty());
        assert(tokens@.skip(0) =~= tokens@);
    }
    while i < tokens.len()
        invariant
            i <= tokens.len(),
            render(texts(stack@), tokens@.skip(i as int)) == render(Seq::empty(), tokens@),
            render(Seq::empty(), tokens@) matches Some(stack) && stack.len() >= 1,
        decreases tokens.len() - i,
    {
        let ghost before = texts(stack@);
        let ghost n = before.len() as int;
        proof {
            assert(tokens@.skip(i as int)[0] == tokens@[i as int]);
            assert(tokens@.skip(i as int).drop_first() =~= tokens@.skip(i + 1));
        }
        match &tokens[i] {
            Token::Term(term) => match term {
                Term::Value(val) => {
                    stack.push(decimal_string(*val));
                    assert(texts(stack@) =~= before.push(decimal(*val)));
                },
                Term::Ident(val) => {
                    stack.push(val.clone());
                    assert(texts(stack@) =~= before.push(val@));
                },
            },
            Token::Operator(operator) => match operator {
                Operator::Let => {
                    let operand = stack.pop().unwrap();
                    let s = String::from_str("let ").concat(operand.as_str());
                    stack.push(s);
                    assert(texts(stack@) =~= before.take(n - 1).push("let "@ + before[n - 1]));
                },
                Operator::Assign => {
                    let right = stack.pop().unwrap();
                    let left = stack.pop().unwrap();
                    let s = left.concat(" = ").concat(right.as_str());
                    stack.push(s);
                    assert(texts(stack@) =~= before.take(n - 2).push(
                        before[n - 2] + " = "@ + before[n - 1],
                    ));
                },
                Operator::List => {
                    let operand = stack.pop().unwrap();
                    let s = String::from_str("[").concat(operand.as_str()).concat("]");
                    stack.push(s);
                    assert(texts(stack@) =~= before.take(n - 1).push(
                        "["@ + before[n - 1] + "]"@,
                    ));
                },
                Operator::Comma => {
                    let right = stack.pop().unwrap();
                    let left = stack.pop().unwrap();
                    let s = left.concat(", ").concat(right.as_str());
                    stack.push(s);
                    assert(texts(stack@) =~= before.take(n - 2).push(
                        before[n - 2] + ", "@ + before[n - 1],
                    ));
                },
                Operator::Semicolon => {
                    let operand = stack.pop().unwrap();
                    let s = operand.concat(";");
                    stack.push(s);
                    assert(texts(stack@) =~= before.take(n - 1).push(before[n - 1] + ";"@));
                },
            },
        }
        i += 1;
    }
    proof {
        assert(tokens@.skip(i as int) =~= Seq::<Token>::empty());
    }
    stack.pop().unwrap()
}

} // verus!
