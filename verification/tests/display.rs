use textparse::token::engine::CreateTokenProcessor;
use textparse::token::example::{
    display_processed_tokens, Operator, RawSymbol, RawToken, Term, Token, TokenTree,
};

fn process(tokens: Vec<RawToken>) -> Vec<Token> {
    let mut engine = CreateTokenProcessor::<RawToken, TokenTree, ()>::new(tokens);
    let mut processed = Vec::new();
    while let Some(item) = engine.next() {
        processed.push(item.unwrap().inner);
    }
    processed
}

#[test]
fn display_of_a_simple_statement() {
    let processed = process(vec![
        RawToken::Let,
        RawToken::Ident("my_var".to_string()),
        RawToken::Symbol(RawSymbol::Assign),
        RawToken::Value(42),
        RawToken::Symbol(RawSymbol::Semicolon),
    ]);
    assert_eq!(display_processed_tokens(&processed), "let my_var = 42;");
}

#[test]
fn display_of_a_list() {
    let processed = process(vec![
        RawToken::Let,
        RawToken::Ident("my_var".to_string()),
        RawToken::Symbol(RawSymbol::Assign),
        RawToken::Symbol(RawSymbol::List),
        RawToken::Value(13),
        RawToken::Symbol(RawSymbol::Comma),
        RawToken::Value(24),
        RawToken::Symbol(RawSymbol::Comma),
        RawToken::Value(35),
        RawToken::Symbol(RawSymbol::ListEnd),
        RawToken::Symbol(RawSymbol::Semicolon),
    ]);
    assert_eq!(display_processed_tokens(&processed), "let my_var = [13, 24, 35];");
}

#[test]
fn display_of_numbers() {
    let show = |v: i32| display_processed_tokens(&vec![Token::Term(Term::Value(v))]);
    assert_eq!(show(0), "0");
    assert_eq!(show(7), "7");
    assert_eq!(show(10), "10");
    assert_eq!(show(-305), "-305");
    assert_eq!(show(i32::MAX), "2147483647");
    assert_eq!(show(i32::MIN), "-2147483648");
}

#[test]
fn display_returns_the_top_of_the_stack() {
    let tokens = vec![
        Token::Term(Term::Value(1)),
        Token::Term(Term::Ident("x".to_string())),
        Token::Operator(Operator::List),
    ];
    assert_eq!(display_processed_tokens(&tokens), "[x]");
}
